use vstd::prelude::*;

verus! {

/// The two sides. Black advances toward row 0, White toward row 7.
#[derive(Debug, Clone, Copy, PartialEq, Eq, Structural)]
pub enum PieceColor {
    White,
    Black,
}

/// The side that moves after `c`.
pub open spec fn opposite(c: PieceColor) -> PieceColor {
    match c {
        PieceColor::White => PieceColor::Black,
        PieceColor::Black => PieceColor::White,
    }
}

#[derive(Debug, Clone, Copy, PartialEq, Eq, Structural)]
pub struct GamePiece {
    pub color: PieceColor,
    pub crowned: bool,
}

impl GamePiece {
    /// An uncrowned piece of the given color.
    pub fn new(color: PieceColor) -> (r: GamePiece)
        ensures
            r == (GamePiece { color, crowned: false }),
    {
        GamePiece { color, crowned: false }
    }

    /// The crowned counterpart of `p`: same color, crowned.
    pub fn crowned(p: GamePiece) -> (r: GamePiece)
        ensures
            r == (GamePiece { color: p.color, crowned: true }),
    {
        GamePiece { color: p.color, crowned: true }
    }
}

/// A square as (column, row); only `[0, 7] x [0, 7]` lies on the board.
#[derive(Debug, Clone, Copy, PartialEq, Eq, Structural)]
pub struct Coordinate(pub usize, pub usize);

pub open spec fn is_on_board(c: Coordinate) -> bool {
    c.0 <= 7 && c.1 <= 7
}

/// One diagonal step from `c`, in emission order; a step that would take a
/// component below zero is left out.
pub open spec fn move_targets(c: Coordinate) -> Seq<Coordinate> {
    let x = c.0 as int;
    let y = c.1 as int;
    (if x >= 1 {
        seq![Coordinate((x - 1) as usize, (y + 1) as usize)]
    } else {
        Seq::empty()
    }) + seq![Coordinate((x + 1) as usize, (y + 1) as usize)] + (if y >= 1 {
        seq![Coordinate((x + 1) as usize, (y - 1) as usize)]
    } else {
        Seq::empty()
    }) + (if x >= 1 && y >= 1 {
        seq![Coordinate((x - 1) as usize, (y - 1) as usize)]
    } else {
        Seq::empty()
    })
}

/// Two diagonal steps from `c`, in emission order; a jump that would take a
/// component below zero is left out.
pub open spec fn jump_targets(c: Coordinate) -> Seq<Coordinate> {
    let x = c.0 as int;
    let y = c.1 as int;
    (if y >= 2 {
        seq![Coordinate((x + 2) as usize, (y - 2) as usize)]
    } else {
        Seq::empty()
    }) + seq![Coordinate((x + 2) as usize, (y + 2) as usize)] + (if x >= 2 && y >= 2 {
        seq![Coordinate((x - 2) as usize, (y - 2) as usize)]
    } else {
        Seq::empty()
    }) + (if x >= 2 {
        seq![Coordinate((x - 2) as usize, (y + 2) as usize)]
    } else {
        Seq::empty()
    })
}

impl Coordinate {
    pub fn on_board(self) -> (r: bool)
        ensures
            r == is_on_board(self),
    {
        let Coordinate(x_coord, y_coord) = self;
        x_coord <= 7 && y_coord <= 7
    }

    pub fn jump_targets_from(&self) -> (r: Vec<Coordinate>)
        requires
            self.0 <= usize::MAX - 2,
            self.1 <= usize::MAX - 2,
        ensures
            r@ == jump_targets(*self),
    {
        let mut jumps: Vec<Coordinate> = Vec::new();
        let Coordinate(x_coord, y_coord) = *self;
        if y_coord >= 2 {
            jumps.push(Coordinate(x_coord + 2, y_coord - 2));
        }
        jumps.push(Coordinate(x_coord + 2, y_coord + 2));
        if x_coord >= 2 && y_coord >= 2 {
            jumps.push(Coordinate(x_coord - 2, y_coord - 2));
        }
        if x_coord >= 2 {
            jumps.push(Coordinate(x_coord - 2, y_coord + 2));
        }
        assert(jumps@ =~= jump_targets(*self));
        jumps
    }

    pub fn move_targets_from(&self) -> (r: Vec<Coordinate>)
        requires
            self.0 < usize::MAX,
            self.1 < usize::MAX,
        ensures
            r@ == move_targets(*self),
    {
        let mut moves: Vec<Coordinate> = Vec::new();
        let Coordinate(x_coord, y_coord) = *self;
        if x_coord >= 1 {
            moves.push(Coordinate(x_coord - 1, y_coord + 1));
        }
        moves.push(Coordinate(x_coord + 1, y_coord + 1));
        if y_coord >= 1 {
            moves.push(Coordinate(x_coord + 1, y_coord - 1));
        }
        if x_coord >= 1 && y_coord >= 1 {
            moves.push(Coordinate(x_coord - 1, y_coord - 1));
        }
        assert(moves@ =~= move_targets(*self));
        moves
    }
}

/// The single steps from a square: at most four, each one diagonal step away,
/// and every diagonal neighbour with no negative component among them.
pub proof fn lemma_move_targets_shape(c: Coordinate)
    requires
        c.0 < usize::MAX,
        c.1 < usize::MAX,
    ensures
        move_targets(c).len() <= 4,
        forall|i: int|
            0 <= i < move_targets(c).len() ==> {
                let t = #[trigger] move_targets(c)[i];
                (t.0 == c.0 + 1 || t.0 == c.0 - 1) && (t.1 == c.1 + 1 || t.1 == c.1 - 1)
            },
        c.0 >= 1 ==> move_targets(c).contains(Coordinate((c.0 - 1) as usize, (c.1 + 1) as usize)),
        move_targets(c).contains(Coordinate((c.0 + 1) as usize, (c.1 + 1) as usize)),
        c.1 >= 1 ==> move_targets(c).contains(Coordinate((c.0 + 1) as usize, (c.1 - 1) as usize)),
        c.0 >= 1 && c.1 >= 1 ==> move_targets(c).contains(
            Coordinate((c.0 - 1) as usize, (c.1 - 1) as usize),
        ),
{
    let s = move_targets(c);
    let a: int = if c.0 >= 1 { 1 } else { 0 };
    let b: int = if c.1 >= 1 { 1 } else { 0 };
    assert(s[a] == Coordinate((c.0 + 1) as usize, (c.1 + 1) as usize));
    if c.0 >= 1 {
        assert(s[0] == Coordinate((c.0 - 1) as usize, (c.1 + 1) as usize));
    }
    if c.1 >= 1 {
        assert(s[a + 1] == Coordinate((c.0 + 1) as usize, (c.1 - 1) as usize));
    }
    if c.0 >= 1 && c.1 >= 1 {
        assert(s[a + 1 + b] == Coordinate((c.0 - 1) as usize, (c.1 - 1) as usize));
    }
}

#[derive(Debug, Clone, Copy, PartialEq, Eq, Structural)]
pub struct Move {
    pub from: Coordinate,
    pub to: Coordinate,
}

impl Move {
    pub fn new(from: (usize, usize), to: (usize, usize)) -> (r: Move)
        ensures
            r == (Move { from: Coordinate(from.0, from.1), to: Coordinate(to.0, to.1) }),
    {
        Move { from: Coordinate(from.0, from.1), to: Coordinate(to.0, to.1) }
    }
}

} // verus!
