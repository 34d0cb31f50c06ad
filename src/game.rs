use vstd::prelude::*;
use crate::board::{
    Coordinate, GamePiece, Move, PieceColor, is_on_board, jump_targets, move_targets, opposite,
};

verus! {

/// Squares are stored column by column: `(x, y)` sits at `x * 8 + y`, so the
/// storage order is also the scan order of move generation.
pub open spec fn index_of(c: Coordinate) -> int {
    c.0 as int * 8 + c.1 as int
}

/// The square stored at index `k`.
pub open spec fn square_of(k: int) -> Coordinate {
    Coordinate((k / 8) as usize, (k % 8) as usize)
}

/// What stands on `c`; nothing stands off the board.
pub open spec fn occupant(s: Seq<Option<GamePiece>>, c: Coordinate) -> Option<GamePiece> {
    if is_on_board(c) {
        s[index_of(c)]
    } else {
        None
    }
}

/// Where a game starts: White on the dark squares of rows 0 to 2, Black on
/// those of rows 5 to 7, the dark squares being those with an odd `x + y`.
pub open spec fn starting_piece(c: Coordinate) -> Option<GamePiece> {
    if (c.0 + c.1) % 2 == 1 && c.1 <= 2 {
        Some(GamePiece { color: PieceColor::White, crowned: false })
    } else if (c.0 + c.1) % 2 == 1 && 5 <= c.1 <= 7 {
        Some(GamePiece { color: PieceColor::Black, crowned: false })
    } else {
        None
    }
}

/// The row direction from `from` to `to` is one that `p` may step in.
pub open spec fn may_step(p: GamePiece, from: Coordinate, to: Coordinate) -> bool {
    (to.1 > from.1 && (p.color == PieceColor::White || p.crowned)) || (to.1 < from.1 && (p.color
        == PieceColor::Black || p.crowned))
}

/// A simple move: both squares on the board, the destination empty, and the
/// direction allowed for the piece.
pub open spec fn valid_move_in(
    s: Seq<Option<GamePiece>>,
    p: GamePiece,
    from: Coordinate,
    to: Coordinate,
) -> bool {
    is_on_board(from) && is_on_board(to) && occupant(s, to) is None && may_step(p, from, to)
}

/// The square jumped over between `from` and `to`, when they are two diagonal
/// steps apart.
pub open spec fn midpoint(from: Coordinate, to: Coordinate) -> Option<Coordinate> {
    let (x, y, tx, ty) = (from.0 as int, from.1 as int, to.0 as int, to.1 as int);
    if (tx == x + 2 || tx == x - 2) && (ty == y + 2 || ty == y - 2) {
        Some(Coordinate(((x + tx) / 2) as usize, ((y + ty) / 2) as usize))
    } else {
        None
    }
}

/// A jump: both squares on the board and a piece of the other color on the
/// square jumped over. The destination is not required to be empty.
pub open spec fn valid_jump_in(
    s: Seq<Option<GamePiece>>,
    p: GamePiece,
    from: Coordinate,
    to: Coordinate,
) -> bool {
    &&& is_on_board(from)
    &&& is_on_board(to)
    &&& midpoint(from, to) matches Some(mid)
    &&& occupant(s, mid) matches Some(q)
    &&& q.color != p.color
}

/// The jumps of `p` from `loc` to the targets `ts`, in their order.
pub open spec fn jumps_among(
    s: Seq<Option<GamePiece>>,
    p: GamePiece,
    loc: Coordinate,
    ts: Seq<Coordinate>,
) -> Seq<Move>
    decreases ts.len(),
{
    if ts.len() == 0 {
        Seq::empty()
    } else {
        let prev = jumps_among(s, p, loc, ts.drop_last());
        if valid_jump_in(s, p, loc, ts.last()) {
            prev.push(Move { from: loc, to: ts.last() })
        } else {
            prev
        }
    }
}

/// The simple moves of `p` from `loc` to the targets `ts`, in their order.
pub open spec fn steps_among(
    s: Seq<Option<GamePiece>>,
    p: GamePiece,
    loc: Coordinate,
    ts: Seq<Coordinate>,
) -> Seq<Move>
    decreases ts.len(),
{
    if ts.len() == 0 {
        Seq::empty()
    } else {
        let prev = steps_among(s, p, loc, ts.drop_last());
        if valid_move_in(s, p, loc, ts.last()) {
            prev.push(Move { from: loc, to: ts.last() })
        } else {
            prev
        }
    }
}

/// The moves of the piece on `loc`: its jumps, then its simple moves.
pub open spec fn moves_from_in(s: Seq<Option<GamePiece>>, loc: Coordinate) -> Seq<Move> {
    match occupant(s, loc) {
        Some(p) => jumps_among(s, p, loc, jump_targets(loc)) + steps_among(
            s,
            p,
            loc,
            move_targets(loc),
        ),
        None => Seq::empty(),
    }
}

/// The moves of `turn` from the first `k` squares in storage order.
pub open spec fn legal_moves_upto(s: Seq<Option<GamePiece>>, turn: PieceColor, k: nat) -> Seq<
    Move,
>
    decreases k,
{
    if k == 0 {
        Seq::empty()
    } else {
        let prev = legal_moves_upto(s, turn, (k - 1) as nat);
        let c = square_of(k - 1);
        match occupant(s, c) {
            Some(p) => if p.color == turn {
                prev + moves_from_in(s, c)
            } else {
                prev
            },
            None => prev,
        }
    }
}

/// Every move of `turn`, squares scanned column by column.
pub open spec fn legal_moves_in(s: Seq<Option<GamePiece>>, turn: PieceColor) -> Seq<Move> {
    legal_moves_upto(s, turn, 64)
}

/// `p` lands on the far row for its color.
pub open spec fn reaches_crown_row(p: GamePiece, to: Coordinate) -> bool {
    (to.1 == 0 && p.color == PieceColor::Black) || (to.1 == 7 && p.color == PieceColor::White)
}

/// The piece as it stands after landing on `to`.
pub open spec fn landed(p: GamePiece, to: Coordinate) -> GamePiece {
    if reaches_crown_row(p, to) {
        GamePiece { color: p.color, crowned: true }
    } else {
        p
    }
}

/// The squares after `m` is played: the piece jumped over (if any) is
/// removed, the moving piece leaves `m.from` and stands, crowned where due,
/// on `m.to`.
pub open spec fn squares_after(s: Seq<Option<GamePiece>>, m: Move) -> Seq<Option<GamePiece>> {
    let p = occupant(s, m.from)->Some_0;
    let cleared = match midpoint(m.from, m.to) {
        Some(mid) => s.update(index_of(mid), None),
        None => s,
    };
    cleared.update(index_of(m.to), Some(landed(p, m.to))).update(index_of(m.from), None)
}

/// Each jump listed starts on `loc` and is a valid jump of `p`.
proof fn lemma_jumps_among_member(
    s: Seq<Option<GamePiece>>,
    p: GamePiece,
    loc: Coordinate,
    ts: Seq<Coordinate>,
    m: Move,
)
    requires
        jumps_among(s, p, loc, ts).contains(m),
    ensures
        m.from == loc,
        valid_jump_in(s, p, loc, m.to),
    decreases ts.len(),
{
    if ts.len() > 0 {
        let prev = jumps_among(s, p, loc, ts.drop_last());
        if m != (Move { from: loc, to: ts.last() }) {
            let all = jumps_among(s, p, loc, ts);
            let i = choose|i: int| 0 <= i < all.len() && all[i] == m;
            assert(prev[i] == m);
            lemma_jumps_among_member(s, p, loc, ts.drop_last(), m);
        } else if !valid_jump_in(s, p, loc, ts.last()) {
            lemma_jumps_among_member(s, p, loc, ts.drop_last(), m);
        }
    }
}

/// Each simple move listed starts on `loc`, goes to one of `ts`, and is a
/// valid move of `p`.
proof fn lemma_steps_among_member(
    s: Seq<Option<GamePiece>>,
    p: GamePiece,
    loc: Coordinate,
    ts: Seq<Coordinate>,
    m: Move,
)
    requires
        steps_among(s, p, loc, ts).contains(m),
    ensures
        m.from == loc,
        valid_move_in(s, p, loc, m.to),
        ts.contains(m.to),
    decreases ts.len(),
{
    if ts.len() > 0 {
        let prev = steps_among(s, p, loc, ts.drop_last());
        if m != (Move { from: loc, to: ts.last() }) {
            let all = steps_among(s, p, loc, ts);
            let i = choose|i: int| 0 <= i < all.len() && all[i] == m;
            assert(prev[i] == m);
            lemma_steps_among_member(s, p, loc, ts.drop_last(), m);
        } else if !valid_move_in(s, p, loc, ts.last()) {
            lemma_steps_among_member(s, p, loc, ts.drop_last(), m);
        }
        if ts.drop_last().contains(m.to) {
            let i = choose|i: int| 0 <= i < ts.drop_last().len() && ts.drop_last()[i] == m.to;
            assert(ts[i] == m.to);
        } else {
            assert(ts[ts.len() - 1] == m.to);
        }
    }
}

/// What a legal move tells of the position: it starts on a piece of the side
/// to move and is a valid jump or a valid simple move of that piece.
pub proof fn lemma_legal_move_facts(s: Seq<Option<GamePiece>>, turn: PieceColor, k: nat, m: Move)
    requires
        s.len() == 64,
        k <= 64,
        legal_moves_upto(s, turn, k).contains(m),
    ensures
        is_on_board(m.from),
        is_on_board(m.to),
        occupant(s, m.from) matches Some(p) && p.color == turn && (valid_jump_in(s, p, m.from, m.to)
            || valid_move_in(s, p, m.from, m.to)),
        midpoint(m.from, m.to) is Some ==> valid_jump_in(s, occupant(s, m.from)->Some_0, m.from, m.to),
        midpoint(m.from, m.to) is None ==> move_targets(m.from).contains(m.to),
    decreases k,
{
    if k > 0 {
        let prev = legal_moves_upto(s, turn, (k - 1) as nat);
        let c = square_of(k - 1);
        let all = legal_moves_upto(s, turn, k);
        let i = choose|i: int| 0 <= i < all.len() && all[i] == m;
        if i < prev.len() {
            assert(prev[i] == m);
            lemma_legal_move_facts(s, turn, (k - 1) as nat, m);
        } else {
            let p = occupant(s, c)->Some_0;
            let js = jumps_among(s, p, c, jump_targets(c));
            let ss = steps_among(s, p, c, move_targets(c));
            assert(moves_from_in(s, c)[i - prev.len()] == m);
            if i - prev.len() < js.len() {
                assert(js[i - prev.len()] == m);
                lemma_jumps_among_member(s, p, c, jump_targets(c), m);
            } else {
                assert(ss[i - prev.len() - js.len()] == m);
                lemma_steps_among_member(s, p, c, move_targets(c), m);
                crate::board::lemma_move_targets_shape(c);
                let j = choose|j: int| 0 <= j < move_targets(c).len() && move_targets(c)[j] == m.to;
                assert(move_targets(c)[j] == m.to);
            }
        }
    }
}

/// A valid jump to one of `ts` is listed.
proof fn lemma_jumps_among_complete(
    s: Seq<Option<GamePiece>>,
    p: GamePiece,
    loc: Coordinate,
    ts: Seq<Coordinate>,
    t: Coordinate,
)
    requires
        ts.contains(t),
        valid_jump_in(s, p, loc, t),
    ensures
        jumps_among(s, p, loc, ts).contains(Move { from: loc, to: t }),
    decreases ts.len(),
{
    let all = jumps_among(s, p, loc, ts);
    let prev = jumps_among(s, p, loc, ts.drop_last());
    if ts.last() == t {
        assert(all[all.len() - 1] == Move { from: loc, to: t });
    } else {
        let i = choose|i: int| 0 <= i < ts.len() && ts[i] == t;
        assert(ts.drop_last()[i] == t);
        lemma_jumps_among_complete(s, p, loc, ts.drop_last(), t);
        let j = choose|j: int| 0 <= j < prev.len() && prev[j] == Move { from: loc, to: t };
        assert(all[j] == prev[j]);
    }
}

/// A valid simple move to one of `ts` is listed.
proof fn lemma_steps_among_complete(
    s: Seq<Option<GamePiece>>,
    p: GamePiece,
    loc: Coordinate,
    ts: Seq<Coordinate>,
    t: Coordinate,
)
    requires
        ts.contains(t),
        valid_move_in(s, p, loc, t),
    ensures
        steps_among(s, p, loc, ts).contains(Move { from: loc, to: t }),
    decreases ts.len(),
{
    let all = steps_among(s, p, loc, ts);
    let prev = steps_among(s, p, loc, ts.drop_last());
    if ts.last() == t {
        assert(all[all.len() - 1] == Move { from: loc, to: t });
    } else {
        let i = choose|i: int| 0 <= i < ts.len() && ts[i] == t;
        assert(ts.drop_last()[i] == t);
        lemma_steps_among_complete(s, p, loc, ts.drop_last(), t);
        let j = choose|j: int| 0 <= j < prev.len() && prev[j] == Move { from: loc, to: t };
        assert(all[j] == prev[j]);
    }
}

proof fn lemma_legal_moves_upto_complete(
    s: Seq<Option<GamePiece>>,
    turn: PieceColor,
    k: nat,
    m: Move,
)
    requires
        s.len() == 64,
        is_on_board(m.from),
        index_of(m.from) < k <= 64,
        occupant(s, m.from) matches Some(p) && p.color == turn,
        moves_from_in(s, m.from).contains(m),
    ensures
        legal_moves_upto(s, turn, k).contains(m),
    decreases k,
{
    let prev = legal_moves_upto(s, turn, (k - 1) as nat);
    let all = legal_moves_upto(s, turn, k);
    let c = square_of(k - 1);
    if index_of(m.from) == k - 1 {
        vstd::arithmetic::div_mod::lemma_fundamental_div_mod_converse(
            k - 1,
            8,
            m.from.0 as int,
            m.from.1 as int,
        );
        assert(c == m.from);
        let mf = moves_from_in(s, m.from);
        let i = choose|i: int| 0 <= i < mf.len() && mf[i] == m;
        assert(all[prev.len() + i] == m);
    } else {
        lemma_legal_moves_upto_complete(s, turn, (k - 1) as nat, m);
        let j = choose|j: int| 0 <= j < prev.len() && prev[j] == m;
        assert(all[j] == prev[j]);
    }
}

/// Every move the rules allow is listed: a valid jump to one of the jump
/// targets, or a valid simple move to one of the step targets, of a piece of
/// the side to move.
pub proof fn lemma_legal_move_complete(
    s: Seq<Option<GamePiece>>,
    turn: PieceColor,
    from: Coordinate,
    to: Coordinate,
)
    requires
        s.len() == 64,
        is_on_board(from),
        occupant(s, from) matches Some(p) && p.color == turn && ((jump_targets(from).contains(to)
            && valid_jump_in(s, p, from, to)) || (move_targets(from).contains(to) && valid_move_in(
            s,
            p,
            from,
            to,
        ))),
    ensures
        legal_moves_in(s, turn).contains(Move { from, to }),
{
    let p = occupant(s, from)->Some_0;
    let m = Move { from, to };
    let js = jumps_among(s, p, from, jump_targets(from));
    let ss = steps_among(s, p, from, move_targets(from));
    let mf = moves_from_in(s, from);
    if jump_targets(from).contains(to) && valid_jump_in(s, p, from, to) {
        lemma_jumps_among_complete(s, p, from, jump_targets(from), to);
        let i = choose|i: int| 0 <= i < js.len() && js[i] == m;
        assert(mf[i] == m);
    } else {
        lemma_steps_among_complete(s, p, from, move_targets(from), to);
        let i = choose|i: int| 0 <= i < ss.len() && ss[i] == m;
        assert(mf[js.len() + i] == m);
    }
    lemma_legal_moves_upto_complete(s, turn, 64, m);
}

/// Whether `m` is one of `moves`.
fn contains_move(moves: &Vec<Move>, m: &Move) -> (r: bool)
    ensures
        r == moves@.contains(*m),
{
    let mut i: usize = 0;
    while i < moves.len()
        invariant
            i <= moves@.len(),
            forall|j: int| 0 <= j < i ==> moves@[j] != *m,
        decreases moves.len() - i,
    {
        if moves[i] == *m {
            return true;
        }
        i += 1;
    }
    false
}

/// 1 if `o` holds a piece of `color`, else 0.
pub open spec fn holds_color(o: Option<GamePiece>, color: PieceColor) -> nat {
    if o matches Some(p) && p.color == color {
        1
    } else {
        0
    }
}

/// How many pieces of `color` stand in `s`.
pub open spec fn count_color(s: Seq<Option<GamePiece>>, color: PieceColor) -> nat
    decreases s.len(),
{
    if s.len() == 0 {
        0
    } else {
        count_color(s.drop_last(), color) + holds_color(s.last(), color)
    }
}

proof fn lemma_count_update(
    s: Seq<Option<GamePiece>>,
    j: int,
    v: Option<GamePiece>,
    color: PieceColor,
)
    requires
        0 <= j < s.len(),
    ensures
        count_color(s.update(j, v), color) + holds_color(s[j], color) == count_color(s, color)
            + holds_color(v, color),
    decreases s.len(),
{
    if j == s.len() - 1 {
        assert(s.update(j, v).drop_last() =~= s.drop_last());
    } else {
        assert(s.update(j, v).drop_last() =~= s.drop_last().update(j, v));
        lemma_count_update(s.drop_last(), j, v, color);
    }
}

/// The turn passes to the other side and back: two moves restore it.
pub proof fn lemma_turn_alternates(c: PieceColor)
    ensures
        opposite(c) != c,
        opposite(opposite(c)) == c,
{
}

/// No move adds a piece: after any legal move each side has at most as many
/// pieces as before, and a simple move keeps both counts.
pub proof fn lemma_counts_never_grow(
    s: Seq<Option<GamePiece>>,
    turn: PieceColor,
    m: Move,
    color: PieceColor,
)
    requires
        s.len() == 64,
        legal_moves_in(s, turn).contains(m),
    ensures
        count_color(squares_after(s, m), color) <= count_color(s, color),
        midpoint(m.from, m.to) is None ==> count_color(squares_after(s, m), color) == count_color(
            s,
            color,
        ),
{
    lemma_legal_move_facts(s, turn, 64, m);
    let p = occupant(s, m.from)->Some_0;
    let s1 = match midpoint(m.from, m.to) {
        Some(mid) => s.update(index_of(mid), None),
        None => s,
    };
    if let Some(mid) = midpoint(m.from, m.to) {
        lemma_count_update(s, index_of(mid), None, color);
    }
    let s2 = s1.update(index_of(m.to), Some(landed(p, m.to)));
    lemma_count_update(s1, index_of(m.to), Some(landed(p, m.to)), color);
    lemma_count_update(s2, index_of(m.from), None, color);
}

/// A legal jump onto an empty square removes exactly one piece, the one
/// jumped over, which belongs to the other side: the source ends empty and the
/// destination holds the moving piece.
pub proof fn lemma_jump_captures_one(s: Seq<Option<GamePiece>>, turn: PieceColor, m: Move)
    requires
        s.len() == 64,
        legal_moves_in(s, turn).contains(m),
        midpoint(m.from, m.to) is Some,
        occupant(s, m.to) is None,
    ensures
        occupant(squares_after(s, m), m.from) is None,
        occupant(squares_after(s, m), m.to) == Some(landed(occupant(s, m.from)->Some_0, m.to)),
        occupant(s, midpoint(m.from, m.to)->Some_0) matches Some(q) && q.color == opposite(turn),
        occupant(squares_after(s, m), midpoint(m.from, m.to)->Some_0) is None,
        count_color(squares_after(s, m), opposite(turn)) + 1 == count_color(s, opposite(turn)),
        count_color(squares_after(s, m), turn) == count_color(s, turn),
{
    lemma_legal_move_facts(s, turn, 64, m);
    let p = occupant(s, m.from)->Some_0;
    let mid = midpoint(m.from, m.to)->Some_0;
    let s1 = s.update(index_of(mid), None);
    let s2 = s1.update(index_of(m.to), Some(landed(p, m.to)));
    assert(squares_after(s, m) == s2.update(index_of(m.from), None));
    lemma_count_update(s, index_of(mid), None, turn);
    lemma_count_update(s, index_of(mid), None, opposite(turn));
    lemma_count_update(s1, index_of(m.to), Some(landed(p, m.to)), turn);
    lemma_count_update(s1, index_of(m.to), Some(landed(p, m.to)), opposite(turn));
    lemma_count_update(s2, index_of(m.from), None, turn);
    lemma_count_update(s2, index_of(m.from), None, opposite(turn));
}

/// The piece that moves lands as `landed` says: crowned when it reaches its
/// far row, unchanged otherwise, and a crowned piece stays as it is.
pub proof fn lemma_landing_on_crown_row(s: Seq<Option<GamePiece>>, turn: PieceColor, m: Move)
    requires
        s.len() == 64,
        legal_moves_in(s, turn).contains(m),
    ensures
        ({
            let p = occupant(s, m.from)->Some_0;
            &&& occupant(squares_after(s, m), m.to) == Some(landed(p, m.to))
            &&& reaches_crown_row(p, m.to) ==> landed(p, m.to) == (GamePiece {
                color: p.color,
                crowned: true,
            })
            &&& !reaches_crown_row(p, m.to) ==> landed(p, m.to) == p
            &&& p.crowned ==> landed(p, m.to) == p
        }),
{
    lemma_legal_move_facts(s, turn, 64, m);
}

/// After a move that crowns its piece, the piece steps by the crowned rules:
/// back toward its own side, onto any empty square of another row, and in
/// particular back to the square it came from, where an uncrowned piece of its
/// color could not go; after a simple move, that step back is among the legal
/// moves of its side.
pub proof fn lemma_crowned_piece_moves_back(s: Seq<Option<GamePiece>>, turn: PieceColor, m: Move)
    requires
        s.len() == 64,
        legal_moves_in(s, turn).contains(m),
        reaches_crown_row(occupant(s, m.from)->Some_0, m.to),
    ensures
        ({
            let after = squares_after(s, m);
            let q = occupant(after, m.to)->Some_0;
            let uncrowned = GamePiece { color: q.color, crowned: false };
            &&& q.crowned
            &&& valid_move_in(after, q, m.to, m.from)
            &&& !may_step(uncrowned, m.to, m.from)
            &&& forall|t: Coordinate|
                is_on_board(t) && #[trigger] occupant(after, t) is None && t.1 != m.to.1
                    ==> valid_move_in(after, q, m.to, t) && !may_step(uncrowned, m.to, t)
            &&& midpoint(m.from, m.to) is None ==> legal_moves_in(after, q.color).contains(
                Move { from: m.to, to: m.from },
            )
        }),
{
    lemma_legal_move_facts(s, turn, 64, m);
    let after = squares_after(s, m);
    if midpoint(m.from, m.to) is None {
        crate::board::lemma_move_targets_shape(m.from);
        crate::board::lemma_move_targets_shape(m.to);
        let i = choose|i: int| 0 <= i < move_targets(m.from).len() && move_targets(m.from)[i] == m.to;
        assert(move_targets(m.from)[i] == m.to);
        assert(move_targets(m.to).contains(m.from));
        lemma_legal_move_complete(after, occupant(after, m.to)->Some_0.color, m.to, m.from);
    }
}

/// How many pieces of `color` the first `k` squares hold at the start.
pub open spec fn starting_count_upto(k: nat, color: PieceColor) -> nat
    decreases k,
{
    if k == 0 {
        0
    } else {
        starting_count_upto((k - 1) as nat, color) + holds_color(
            starting_piece(square_of(k - 1)),
            color,
        )
    }
}

proof fn lemma_count_prefix(s: Seq<Option<GamePiece>>, k: nat, color: PieceColor)
    requires
        s.len() == 64,
        k <= 64,
        forall|j: int| 0 <= j < 64 ==> #[trigger] s[j] == starting_piece(square_of(j)),
    ensures
        count_color(s.subrange(0, k as int), color) == starting_count_upto(k, color),
    decreases k,
{
    if k > 0 {
        assert(s.subrange(0, k as int).drop_last() =~= s.subrange(0, k - 1));
        lemma_count_prefix(s, (k - 1) as nat, color);
    }
}

proof fn lemma_starting_count_values()
    ensures
        starting_count_upto(64, PieceColor::White) == 12,
        starting_count_upto(64, PieceColor::Black) == 12,
{
    reveal_with_fuel(starting_count_upto, 9);
    assert(starting_count_upto(8, PieceColor::White) == 1);
    assert(starting_count_upto(8, PieceColor::Black) == 2);
    assert(starting_count_upto(16, PieceColor::White) == 3);
    assert(starting_count_upto(16, PieceColor::Black) == 3);
    assert(starting_count_upto(24, PieceColor::White) == 4);
    assert(starting_count_upto(24, PieceColor::Black) == 5);
    assert(starting_count_upto(32, PieceColor::White) == 6);
    assert(starting_count_upto(32, PieceColor::Black) == 6);
    assert(starting_count_upto(40, PieceColor::White) == 7);
    assert(starting_count_upto(40, PieceColor::Black) == 8);
    assert(starting_count_upto(48, PieceColor::White) == 9);
    assert(starting_count_upto(48, PieceColor::Black) == 9);
    assert(starting_count_upto(56, PieceColor::White) == 10);
    assert(starting_count_upto(56, PieceColor::Black) == 11);
    assert(starting_count_upto(64, PieceColor::White) == 12);
    assert(starting_count_upto(64, PieceColor::Black) == 12);
}

/// A board set up for a new game holds 12 Black and 12 White pieces.
pub proof fn lemma_starting_counts(e: GameEngine)
    requires
        e.wf(),
        forall|c: Coordinate| is_on_board(c) ==> #[trigger] e.at(c) == starting_piece(c),
    ensures
        count_color(e.squares(), PieceColor::White) == 12,
        count_color(e.squares(), PieceColor::Black) == 12,
{
    let s = e.squares();
    assert forall|j: int| 0 <= j < 64 implies #[trigger] s[j] == starting_piece(square_of(j)) by {
        let c = square_of(j);
        vstd::arithmetic::div_mod::lemma_fundamental_div_mod(j, 8);
        assert(index_of(c) == j);
        assert(e.at(c) == starting_piece(c));
    }
    assert(s.subrange(0, 64) =~= s);
    lemma_count_prefix(s, 64, PieceColor::White);
    lemma_count_prefix(s, 64, PieceColor::Black);
    lemma_starting_count_values();
}

pub struct GameEngine {
    board: Vec<Option<GamePiece>>,
    current_turn: PieceColor,
    move_count: u32,
}

pub struct MoveResult {
    pub move_made: Move,
    pub crowned: bool,
}

impl GameEngine {
    /// The 64 squares, in storage order.
    pub closed spec fn squares(&self) -> Seq<Option<GamePiece>> {
        self.board@
    }

    /// The side to move.
    pub closed spec fn turn(&self) -> PieceColor {
        self.current_turn
    }

    /// How many moves have been applied.
    pub closed spec fn total(&self) -> nat {
        self.move_count as nat
    }

    /// The board has its 64 squares.
    pub open spec fn wf(&self) -> bool {
        self.squares().len() == 64
    }

    pub open spec fn at(&self, c: Coordinate) -> Option<GamePiece> {
        occupant(self.squares(), c)
    }

    pub fn new() -> (r: GameEngine)
        ensures
            r.wf(),
            forall|c: Coordinate| is_on_board(c) ==> #[trigger] r.at(c) == starting_piece(c),
            r.turn() == PieceColor::Black,
            r.total() == 0,
    {
        let mut board: Vec<Option<GamePiece>> = Vec::new();
        let mut k: usize = 0;
        while k < 64
            invariant
                k <= 64,
                board@.len() == k,
                forall|j: int| 0 <= j < k ==> board@[j] is None,
            decreases 64 - k,
        {
            board.push(None);
            k += 1;
        }
        let mut engine = GameEngine { board, current_turn: PieceColor::Black, move_count: 0 };
        engine.initialize_pieces();
        proof {
            assert forall|c: Coordinate| is_on_board(c) implies #[trigger] engine.at(c)
                == starting_piece(c) by {
                assert(0 <= index_of(c) < 64);
            }
        }
        engine
    }

    /// Sets every starting square to its starting piece; other squares keep
    /// what they hold.
    pub fn initialize_pieces(&mut self)
        requires
            old(self).wf(),
        ensures
            final(self).wf(),
            final(self).turn() == old(self).turn(),
            final(self).total() == old(self).total(),
            forall|c: Coordinate|
                is_on_board(c) ==> #[trigger] final(self).at(c) == match starting_piece(c) {
                    Some(p) => Some(p),
                    None => old(self).at(c),
                },
    {
        let ghost before = self.board@;
        let mut col: usize = 0;
        while col < 8
            invariant
                col <= 8,
                self.board@.len() == 64,
                self.current_turn == old(self).current_turn,
                self.move_count == old(self).move_count,
                before == old(self).board@,
                forall|k: int|
                    0 <= k < 64 ==> #[trigger] self.board@[k] == if k < col * 8 {
                        match starting_piece(square_of(k)) {
                            Some(p) => Some(p),
                            None => before[k],
                        }
                    } else {
                        before[k]
                    },
            decreases 8 - col,
        {
            let mut row: usize = 0;
            while row < 8
                invariant
                    col < 8,
                    row <= 8,
                    self.board@.len() == 64,
                    self.current_turn == old(self).current_turn,
                    self.move_count == old(self).move_count,
                    before == old(self).board@,
                    forall|k: int|
                        0 <= k < 64 ==> #[trigger] self.board@[k] == if k < col * 8 + row {
                            match starting_piece(square_of(k)) {
                                Some(p) => Some(p),
                                None => before[k],
                            }
                        } else {
                            before[k]
                        },
                decreases 8 - row,
            {
                proof {
                    vstd::arithmetic::div_mod::lemma_fundamental_div_mod_converse(
                        (col * 8 + row) as int,
                        8,
                        col as int,
                        row as int,
                    );
                }
                if (col + row) % 2 == 1 && row <= 2 {
                    self.board[col * 8 + row] = Some(GamePiece::new(PieceColor::White));
                } else if (col + row) % 2 == 1 && row >= 5 {
                    self.board[col * 8 + row] = Some(GamePiece::new(PieceColor::Black));
                }
                row += 1;
            }
            col += 1;
        }
        proof {
            assert forall|c: Coordinate| is_on_board(c) implies #[trigger] self.at(c)
                == match starting_piece(c) {
                Some(p) => Some(p),
                None => old(self).at(c),
            } by {
                let k = index_of(c);
                vstd::arithmetic::div_mod::lemma_fundamental_div_mod_converse(
                    k,
                    8,
                    c.0 as int,
                    c.1 as int,
                );
                assert(square_of(k) == c);
            }
        }
    }

    pub fn get_piece(&self, coord: Coordinate) -> (r: Result<Option<GamePiece>, ()>)
        requires
            self.wf(),
        ensures
            is_on_board(coord) ==> r == Ok::<Option<GamePiece>, ()>(self.at(coord)),
            !is_on_board(coord) ==> r is Err,
    {
        let Coordinate(x, y) = coord;
        if x <= 7 && y <= 7 {
            Ok(self.board[x * 8 + y])
        } else {
            Err(())
        }
    }

    pub fn current_turn(&self) -> (r: PieceColor)
        ensures
            r == self.turn(),
    {
        self.current_turn
    }

    pub fn move_count(&self) -> (r: u32)
        ensures
            r == self.total(),
    {
        self.move_count
    }

    /// Hands the move to the other side and counts the move.
    pub fn advance_turn(&mut self)
        requires
            old(self).total() < u32::MAX,
        ensures
            final(self).squares() == old(self).squares(),
            final(self).wf() == old(self).wf(),
            final(self).turn() == opposite(old(self).turn()),
            final(self).total() == old(self).total() + 1,
    {
        if self.current_turn == PieceColor::Black {
            self.current_turn = PieceColor::White
        } else {
            self.current_turn = PieceColor::Black
        }
        self.move_count += 1;
    }

    /// A Black piece on row 0 or a White piece on row 7 is due a crown.
    pub fn should_crown(&self, piece: GamePiece, coord: Coordinate) -> (r: bool)
        ensures
            r == reaches_crown_row(piece, coord),
    {
        let Coordinate(_x, y) = coord;
        (y == 0 && piece.color == PieceColor::Black) || (y == 7 && piece.color == PieceColor::White)
    }

    /// Crowns the piece on `coord`, if there is one, and says whether there was.
    pub fn crown_piece(&mut self, coord: Coordinate) -> (r: bool)
        requires
            old(self).wf(),
            is_on_board(coord),
        ensures
            final(self).wf(),
            final(self).turn() == old(self).turn(),
            final(self).total() == old(self).total(),
            r == old(self).at(coord) is Some,
            final(self).squares() == match old(self).at(coord) {
                Some(p) => old(self).squares().update(
                    index_of(coord),
                    Some(GamePiece { color: p.color, crowned: true }),
                ),
                None => old(self).squares(),
            },
    {
        let Coordinate(x, y) = coord;
        if let Some(piece) = self.board[x * 8 + y] {
            self.board[x * 8 + y] = Some(GamePiece::crowned(piece));
            true
        } else {
            false
        }
    }

    /// Whether a crowned piece stands on `coord`; an empty square gives false.
    pub fn is_crowned(&self, coord: Coordinate) -> (r: bool)
        requires
            self.wf(),
            is_on_board(coord),
        ensures
            r == match self.at(coord) {
                Some(p) => p.crowned,
                None => false,
            },
    {
        let Coordinate(x, y) = coord;
        match self.board[x * 8 + y] {
            Some(piece) => piece.crowned,
            None => false,
        }
    }

    /// Puts `occupant` on `coord`, whatever stood there: for setting up a position.
    pub fn set_piece(&mut self, coord: Coordinate, occupant: Option<GamePiece>)
        requires
            old(self).wf(),
            is_on_board(coord),
        ensures
            final(self).wf(),
            final(self).turn() == old(self).turn(),
            final(self).total() == old(self).total(),
            final(self).squares() == old(self).squares().update(index_of(coord), occupant),
    {
        let Coordinate(x, y) = coord;
        self.board[x * 8 + y] = occupant;
    }

    /// The moves of the piece on `loc`: its valid jumps, then its valid simple
    /// moves, each in the order the targets are emitted.
    pub fn valid_moves_from(&self, loc: Coordinate) -> (r: Vec<Move>)
        requires
            self.wf(),
            is_on_board(loc),
        ensures
            r@ == moves_from_in(self.squares(), loc),
    {
        let Coordinate(x, y) = loc;
        if let Some(p) = self.board[x * 8 + y] {
            let ghost s = self.squares();
            let targets = loc.jump_targets_from();
            let mut jumps: Vec<Move> = Vec::new();
            let mut i: usize = 0;
            while i < targets.len()
                invariant
                    self.wf(),
                    s == self.squares(),
                    is_on_board(loc),
                    i <= targets@.len(),
                    jumps@ == jumps_among(s, p, loc, targets@.subrange(0, i as int)),
                decreases targets.len() - i,
            {
                let t = targets[i];
                if self.valid_jump(&p, &loc, &t) {
                    jumps.push(Move { from: loc, to: t });
                }
                assert(targets@.subrange(0, i + 1).drop_last() =~= targets@.subrange(0, i as int));
                i += 1;
            }
            assert(targets@.subrange(0, targets@.len() as int) =~= targets@);
            let steps_to = loc.move_targets_from();
            let mut moves: Vec<Move> = Vec::new();
            let mut j: usize = 0;
            while j < steps_to.len()
                invariant
                    self.wf(),
                    s == self.squares(),
                    is_on_board(loc),
                    j <= steps_to@.len(),
                    moves@ == steps_among(s, p, loc, steps_to@.subrange(0, j as int)),
                decreases steps_to.len() - j,
            {
                let t = steps_to[j];
                if self.valid_move(&p, &loc, &t) {
                    moves.push(Move { from: loc, to: t });
                }
                assert(steps_to@.subrange(0, j + 1).drop_last() =~= steps_to@.subrange(0, j as int));
                j += 1;
            }
            assert(steps_to@.subrange(0, steps_to@.len() as int) =~= steps_to@);
            jumps.append(&mut moves);
            jumps
        } else {
            Vec::new()
        }
    }

    /// Every move of the side to move: squares scanned column by column, and
    /// for each of its pieces the jumps first, then the simple moves.
    pub fn legal_moves(&self) -> (r: Vec<Move>)
        requires
            self.wf(),
        ensures
            r@ == legal_moves_in(self.squares(), self.turn()),
    {
        let ghost s = self.squares();
        let mut moves: Vec<Move> = Vec::new();
        let mut col: usize = 0;
        while col < 8
            invariant
                self.wf(),
                s == self.squares(),
                col <= 8,
                moves@ == legal_moves_upto(s, self.turn(), (col * 8) as nat),
            decreases 8 - col,
        {
            let mut row: usize = 0;
            while row < 8
                invariant
                    self.wf(),
                    s == self.squares(),
                    col < 8,
                    row <= 8,
                    moves@ == legal_moves_upto(s, self.turn(), (col * 8 + row) as nat),
                decreases 8 - row,
            {
                proof {
                    vstd::arithmetic::div_mod::lemma_fundamental_div_mod_converse(
                        (col * 8 + row) as int,
                        8,
                        col as int,
                        row as int,
                    );
                }
                if let Some(piece) = self.board[col * 8 + row] {
                    if piece.color == self.current_turn {
                        let mut vmoves = self.valid_moves_from(Coordinate(col, row));
                        moves.append(&mut vmoves);
                    }
                }
                row += 1;
            }
            col += 1;
        }
        moves
    }

    /// Plays `move_desired` if it is among the legal moves of the side to move;
    /// otherwise fails and leaves the engine as it was.
    pub fn move_piece(&mut self, move_desired: &Move) -> (r: Result<MoveResult, ()>)
        requires
            old(self).wf(),
            old(self).total() < u32::MAX,
        ensures
            final(self).wf(),
            r is Ok <==> legal_moves_in(old(self).squares(), old(self).turn()).contains(
                *move_desired,
            ),
            r is Err ==> *final(self) == *old(self),
            r is Ok ==> {
                &&& final(self).squares() == squares_after(old(self).squares(), *move_desired)
                &&& final(self).turn() == opposite(old(self).turn())
                &&& final(self).total() == old(self).total() + 1
                &&& r->Ok_0.move_made == *move_desired
                &&& r->Ok_0.crowned == reaches_crown_row(
                    old(self).at(move_desired.from)->Some_0,
                    move_desired.to,
                )
            },
    {
        let legal_moves = self.legal_moves();
        if !contains_move(&legal_moves, move_desired) {
            return Err(());
        }
        let ghost s = self.squares();
        proof {
            lemma_legal_move_facts(s, self.turn(), 64, *move_desired);
        }
        let Coordinate(from_x, from_y) = move_desired.from;
        let Coordinate(to_x, to_y) = move_desired.to;
        let piece = self.board[from_x * 8 + from_y].unwrap();
        let midpiece_coordinate = self.midpiece_coordinate(from_x, from_y, to_x, to_y);
        if let Some(Coordinate(x, y)) = midpiece_coordinate {
            self.board[x * 8 + y] = None;
        }
        self.board[to_x * 8 + to_y] = Some(piece);
        self.board[from_x * 8 + from_y] = None;
        let crowned = if self.should_crown(piece, move_desired.to) {
            self.crown_piece(move_desired.to);
            true
        } else {
            false
        };
        self.advance_turn();
        assert(self.squares() =~= squares_after(s, *move_desired));
        Ok(MoveResult { move_made: *move_desired, crowned })
    }

    /// The square between `(x, y)` and `(to_x, to_y)` when they are a jump apart.
    pub fn midpiece_coordinate(&self, x: usize, y: usize, to_x: usize, to_y: usize) -> (r: Option<
        Coordinate,
    >)
        requires
            x <= usize::MAX - 2,
            y <= usize::MAX - 2,
        ensures
            r == midpoint(Coordinate(x, y), Coordinate(to_x, to_y)),
    {
        if to_x == x + 2 && to_y == y + 2 {
            Some(Coordinate(x + 1, y + 1))
        } else if x >= 2 && y >= 2 && to_x == x - 2 && to_y == y - 2 {
            Some(Coordinate(x - 1, y - 1))
        } else if x >= 2 && to_x == x - 2 && to_y == y + 2 {
            Some(Coordinate(x - 1, y + 1))
        } else if y >= 2 && to_x == x + 2 && to_y == y - 2 {
            Some(Coordinate(x + 1, y - 1))
        } else {
            None
        }
    }

    /// The piece on the square jumped over, if the squares are a jump apart.
    pub fn midpiece(&self, x: usize, y: usize, to_x: usize, to_y: usize) -> (r: Option<GamePiece>)
        requires
            self.wf(),
            is_on_board(Coordinate(x, y)),
            is_on_board(Coordinate(to_x, to_y)),
        ensures
            r == match midpoint(Coordinate(x, y), Coordinate(to_x, to_y)) {
                Some(mid) => self.at(mid),
                None => None,
            },
    {
        match self.midpiece_coordinate(x, y, to_x, to_y) {
            Some(Coordinate(mx, my)) => self.board[mx * 8 + my],
            None => None,
        }
    }

    pub fn valid_jump(&self, moving_piece: &GamePiece, from: &Coordinate, to: &Coordinate) -> (r:
        bool)
        requires
            self.wf(),
        ensures
            r == valid_jump_in(self.squares(), *moving_piece, *from, *to),
    {
        if !to.on_board() || !from.on_board() {
            false
        } else {
            let Coordinate(from_x, from_y) = *from;
            let Coordinate(to_x, to_y) = *to;
            match self.midpiece(from_x, from_y, to_x, to_y) {
                Some(piece) => piece.color != moving_piece.color,
                None => false,
            }
        }
    }

    pub fn valid_move(&self, moving_piece: &GamePiece, from: &Coordinate, to: &Coordinate) -> (r:
        bool)
        requires
            self.wf(),
        ensures
            r == valid_move_in(self.squares(), *moving_piece, *from, *to),
    {
        if !to.on_board() || !from.on_board() {
            false
        } else {
            let Coordinate(to_x, to_y) = *to;
            if let Some(_piece) = self.board[to_x * 8 + to_y] {
                false
            } else {
                let Coordinate(_from_x, from_y) = *from;
                let mut valid = false;
                if to_y > from_y && moving_piece.color == PieceColor::White {
                    valid = true;
                }
                if to_y < from_y && moving_piece.color == PieceColor::Black {
                    valid = true;
                }
                if to_y > from_y && moving_piece.color == PieceColor::Black && moving_piece.crowned {
                    valid = true;
                }
                if to_y < from_y && moving_piece.color == PieceColor::White && moving_piece.crowned {
                    valid = true;
                }
                valid
            }
        }
    }
}

} // verus!
