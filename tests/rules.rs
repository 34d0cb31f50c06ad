use checkers::board::{Coordinate, GamePiece, Move, PieceColor};
use checkers::game::GameEngine;

fn snapshot(engine: &GameEngine) -> Vec<Option<GamePiece>> {
    let mut squares = Vec::new();
    for x in 0..8 {
        for y in 0..8 {
            squares.push(engine.get_piece(Coordinate(x, y)).unwrap());
        }
    }
    squares
}

fn count(engine: &GameEngine, color: PieceColor) -> usize {
    snapshot(engine)
        .iter()
        .filter(|o| matches!(o, Some(p) if p.color == color))
        .count()
}

#[test]
fn starting_position() {
    let engine = GameEngine::new();
    assert_eq!(count(&engine, PieceColor::Black), 12);
    assert_eq!(count(&engine, PieceColor::White), 12);
    assert_eq!(engine.current_turn(), PieceColor::Black);
    assert_eq!(engine.move_count(), 0);
    let white = Some(GamePiece::new(PieceColor::White));
    let black = Some(GamePiece::new(PieceColor::Black));
    for x in [1, 3, 5, 7] {
        assert_eq!(engine.get_piece(Coordinate(x, 0)).unwrap(), white);
        assert_eq!(engine.get_piece(Coordinate(x, 2)).unwrap(), white);
        assert_eq!(engine.get_piece(Coordinate(x, 6)).unwrap(), black);
    }
    for x in [0, 2, 4, 6] {
        assert_eq!(engine.get_piece(Coordinate(x, 1)).unwrap(), white);
        assert_eq!(engine.get_piece(Coordinate(x, 5)).unwrap(), black);
        assert_eq!(engine.get_piece(Coordinate(x, 7)).unwrap(), black);
    }
    for x in 0..8 {
        assert_eq!(engine.get_piece(Coordinate(x, 3)).unwrap(), None);
        assert_eq!(engine.get_piece(Coordinate(x, 4)).unwrap(), None);
    }
}

#[test]
fn move_targets_at_edges() {
    assert_eq!(Coordinate(0, 0).move_targets_from(), [Coordinate(1, 1)]);
    assert_eq!(
        Coordinate(0, 3).move_targets_from(),
        [Coordinate(1, 4), Coordinate(1, 2)]
    );
    assert_eq!(
        Coordinate(3, 0).move_targets_from(),
        [Coordinate(2, 1), Coordinate(4, 1)]
    );
    let far = Coordinate(7, 7).move_targets_from();
    assert_eq!(far.len(), 4);
    assert_eq!(
        far,
        [
            Coordinate(6, 8),
            Coordinate(8, 8),
            Coordinate(8, 6),
            Coordinate(6, 6)
        ]
    );
}

#[test]
fn jump_targets_at_edges() {
    assert_eq!(Coordinate(0, 0).jump_targets_from(), [Coordinate(2, 2)]);
    assert_eq!(Coordinate(1, 1).jump_targets_from(), [Coordinate(3, 3)]);
    assert_eq!(
        Coordinate(0, 3).jump_targets_from(),
        [Coordinate(2, 1), Coordinate(2, 5)]
    );
    assert_eq!(
        Coordinate(3, 0).jump_targets_from(),
        [Coordinate(5, 2), Coordinate(1, 2)]
    );
}

#[test]
fn on_board_bounds() {
    assert!(Coordinate(0, 0).on_board());
    assert!(Coordinate(7, 7).on_board());
    assert!(!Coordinate(8, 0).on_board());
    assert!(!Coordinate(0, 8).on_board());
}

#[test]
fn pieces_and_moves_build() {
    let p = GamePiece::new(PieceColor::White);
    assert_eq!(p, GamePiece { color: PieceColor::White, crowned: false });
    assert_eq!(
        GamePiece::crowned(p),
        GamePiece { color: PieceColor::White, crowned: true }
    );
    assert_eq!(
        Move::new((1, 2), (3, 4)),
        Move { from: Coordinate(1, 2), to: Coordinate(3, 4) }
    );
}

#[test]
fn turn_alternates_over_two_moves() {
    let mut engine = GameEngine::new();
    let first = engine.move_piece(&Move::new((0, 5), (1, 4))).unwrap();
    assert_eq!(first.move_made, Move::new((0, 5), (1, 4)));
    assert!(!first.crowned);
    assert_eq!(engine.current_turn(), PieceColor::White);
    assert_eq!(engine.move_count(), 1);
    assert!(engine.move_piece(&Move::new((1, 2), (0, 3))).is_ok());
    assert_eq!(engine.current_turn(), PieceColor::Black);
    assert_eq!(engine.move_count(), 2);
}

#[test]
fn rejected_moves_change_nothing() {
    let mut engine = GameEngine::new();
    let before = snapshot(&engine);
    let rejected = [
        Move::new((1, 2), (0, 3)), // White piece on Black's turn
        Move::new((0, 5), (0, 4)), // not diagonal
        Move::new((1, 6), (0, 5)), // occupied destination
        Move::new((0, 5), (1, 6)), // backwards for an uncrowned piece
        Move::new((0, 3), (1, 4)), // empty source
        Move::new((6, 5), (8, 4)), // off the board
        Move::new((0, 5), (2, 3)), // jump over an empty square
    ];
    for m in rejected.iter() {
        assert!(engine.move_piece(m).is_err());
        assert_eq!(snapshot(&engine), before);
        assert_eq!(engine.current_turn(), PieceColor::Black);
        assert_eq!(engine.move_count(), 0);
    }
}

#[test]
fn jump_removes_the_piece_jumped_over() {
    let mut engine = GameEngine::new();
    engine.set_piece(Coordinate(1, 4), Some(GamePiece::new(PieceColor::White)));
    assert_eq!(count(&engine, PieceColor::White), 13);
    let res = engine.move_piece(&Move::new((0, 5), (2, 3))).unwrap();
    assert!(!res.crowned);
    assert_eq!(engine.get_piece(Coordinate(0, 5)).unwrap(), None);
    assert_eq!(engine.get_piece(Coordinate(1, 4)).unwrap(), None);
    assert_eq!(
        engine.get_piece(Coordinate(2, 3)).unwrap(),
        Some(GamePiece::new(PieceColor::Black))
    );
    assert_eq!(count(&engine, PieceColor::White), 12);
    assert_eq!(count(&engine, PieceColor::Black), 12);
}

#[test]
fn jump_over_own_color_is_not_legal() {
    let mut engine = GameEngine::new();
    engine.set_piece(Coordinate(1, 4), Some(GamePiece::new(PieceColor::Black)));
    let moves = engine.legal_moves();
    assert!(!moves.contains(&Move::new((0, 5), (2, 3))));
    assert!(engine.move_piece(&Move::new((0, 5), (2, 3))).is_err());
}

#[test]
fn jump_does_not_need_an_empty_destination() {
    let mut engine = GameEngine::new();
    engine.set_piece(Coordinate(1, 4), Some(GamePiece::new(PieceColor::White)));
    engine.set_piece(Coordinate(2, 3), Some(GamePiece::new(PieceColor::White)));
    let piece = GamePiece::new(PieceColor::Black);
    assert!(engine.valid_jump(&piece, &Coordinate(0, 5), &Coordinate(2, 3)));
    assert!(!engine.valid_move(&piece, &Coordinate(0, 5), &Coordinate(1, 4)));
}

#[test]
fn crowning_and_moving_back() {
    let mut engine = GameEngine::new();
    engine.set_piece(Coordinate(3, 0), None);
    engine.set_piece(Coordinate(2, 1), Some(GamePiece::new(PieceColor::Black)));
    let res = engine.move_piece(&Move::new((2, 1), (3, 0))).unwrap();
    assert!(res.crowned);
    assert!(engine.is_crowned(Coordinate(3, 0)));
    assert_eq!(
        engine.get_piece(Coordinate(3, 0)).unwrap(),
        Some(GamePiece { color: PieceColor::Black, crowned: true })
    );
    assert!(engine.move_piece(&Move::new((1, 2), (0, 3))).is_ok());
    // the crowned piece steps back, away from its crown row
    let back = engine.move_piece(&Move::new((3, 0), (2, 1))).unwrap();
    assert!(!back.crowned);
    assert!(engine.is_crowned(Coordinate(2, 1)));
    assert!(engine.move_piece(&Move::new((0, 3), (1, 4))).is_ok());
    // landing on the crown row again keeps the piece crowned
    let again = engine.move_piece(&Move::new((2, 1), (3, 0))).unwrap();
    assert!(again.crowned);
    assert_eq!(
        engine.get_piece(Coordinate(3, 0)).unwrap(),
        Some(GamePiece { color: PieceColor::Black, crowned: true })
    );
    assert_eq!(engine.move_count(), 5);
}

#[test]
fn uncrowned_piece_cannot_move_back() {
    let mut engine = GameEngine::new();
    assert!(engine.move_piece(&Move::new((0, 5), (1, 4))).is_ok());
    assert!(engine.move_piece(&Move::new((1, 2), (0, 3))).is_ok());
    assert!(engine.move_piece(&Move::new((1, 4), (0, 5))).is_err());
}

#[test]
fn white_crowns_on_row_seven() {
    let mut engine = GameEngine::new();
    engine.advance_turn();
    engine.set_piece(Coordinate(0, 7), None);
    engine.set_piece(Coordinate(1, 6), Some(GamePiece::new(PieceColor::White)));
    let res = engine.move_piece(&Move::new((1, 6), (0, 7))).unwrap();
    assert!(res.crowned);
    assert!(engine.is_crowned(Coordinate(0, 7)));
}

#[test]
fn get_piece_queries() {
    let engine = GameEngine::new();
    let first = engine.get_piece(Coordinate(2, 5));
    let second = engine.get_piece(Coordinate(2, 5));
    assert_eq!(first, second);
    assert_eq!(first, Ok(Some(GamePiece::new(PieceColor::Black))));
    assert_eq!(engine.get_piece(Coordinate(8, 0)), Err(()));
    assert_eq!(engine.get_piece(Coordinate(0, 8)), Err(()));
    assert!(!engine.is_crowned(Coordinate(3, 3)));
    assert!(!engine.is_crowned(Coordinate(2, 5)));
}

#[test]
fn crowning_an_empty_square() {
    let mut engine = GameEngine::new();
    assert!(!engine.crown_piece(Coordinate(3, 3)));
    assert_eq!(engine.get_piece(Coordinate(3, 3)).unwrap(), None);
}

#[test]
fn midpoints_in_all_directions() {
    let engine = GameEngine::new();
    assert_eq!(engine.midpiece_coordinate(2, 2, 4, 4), Some(Coordinate(3, 3)));
    assert_eq!(engine.midpiece_coordinate(4, 4, 2, 2), Some(Coordinate(3, 3)));
    assert_eq!(engine.midpiece_coordinate(4, 2, 2, 4), Some(Coordinate(3, 3)));
    assert_eq!(engine.midpiece_coordinate(2, 4, 4, 2), Some(Coordinate(3, 3)));
    assert_eq!(engine.midpiece_coordinate(2, 2, 3, 3), None);
    assert_eq!(engine.midpiece_coordinate(2, 2, 4, 2), None);
    assert_eq!(engine.midpiece(0, 5, 2, 3), None);
    assert_eq!(
        engine.midpiece(0, 7, 2, 5),
        Some(GamePiece::new(PieceColor::Black))
    );
}

#[test]
fn initialize_keeps_other_squares() {
    let mut engine = GameEngine::new();
    engine.set_piece(Coordinate(3, 4), Some(GamePiece::new(PieceColor::White)));
    engine.set_piece(Coordinate(0, 5), None);
    engine.initialize_pieces();
    assert_eq!(
        engine.get_piece(Coordinate(3, 4)).unwrap(),
        Some(GamePiece::new(PieceColor::White))
    );
    assert_eq!(
        engine.get_piece(Coordinate(0, 5)).unwrap(),
        Some(GamePiece::new(PieceColor::Black))
    );
}
