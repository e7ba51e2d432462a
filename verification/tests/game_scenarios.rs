use chess_core::{Color, EndResult, Game, Kind, Piece, Point, TurnResult};

fn board_piece(g: &Game, p: Point) -> Option<Piece> {
    g.get_board()
        .into_iter()
        .find(|entry| entry.0 == p)
        .map(|entry| entry.1)
}

#[test]
fn pawn_single_step_moves_and_flips_turn() {
    let mut g = Game::new();
    assert_eq!(g.color, Color::White);
    assert_eq!(g.turn(Point(5, 2), Point(5, 3)), TurnResult::Moved);
    assert_eq!(g.color, Color::Black);
    assert_eq!(
        board_piece(&g, Point(5, 3)),
        Some(Piece::new(Color::White, Kind::Pawn))
    );
    assert_eq!(board_piece(&g, Point(5, 2)), None);
}

#[test]
fn moving_the_opponents_piece_fails_without_mutation() {
    let mut g = Game::new();
    let before = g.get_board();
    assert_eq!(g.turn(Point(5, 7), Point(5, 6)), TurnResult::Failed);
    assert_eq!(g.color, Color::White);
    assert_eq!(g.get_board(), before);
}

#[test]
fn empty_source_fails() {
    let mut g = Game::new();
    assert_eq!(g.turn(Point(4, 5), Point(4, 6)), TurnResult::Failed);
    assert_eq!(g.color, Color::White);
}

#[test]
fn illegal_destination_fails() {
    let mut g = Game::new();
    assert_eq!(g.turn(Point(5, 2), Point(5, 5)), TurnResult::Failed);
    assert_eq!(g.color, Color::White);
}

#[test]
fn promote_without_pending_promotion_fails() {
    let mut g = Game::new();
    assert_eq!(g.promote(Kind::Queen), TurnResult::Failed);
    assert_eq!(g.color, Color::White);
}

#[test]
fn promotion_handshake_completes_the_move() {
    let mut g = Game::new();
    assert_eq!(g.turn(Point(1, 2), Point(1, 4)), TurnResult::Moved);
    assert_eq!(g.turn(Point(2, 7), Point(2, 5)), TurnResult::Moved);
    assert_eq!(g.turn(Point(1, 4), Point(2, 5)), TurnResult::Moved);
    assert_eq!(g.turn(Point(1, 7), Point(1, 6)), TurnResult::Moved);
    assert_eq!(g.turn(Point(2, 5), Point(1, 6)), TurnResult::Moved);
    assert_eq!(g.turn(Point(2, 8), Point(3, 6)), TurnResult::Moved);
    assert_eq!(g.turn(Point(1, 6), Point(1, 7)), TurnResult::Moved);
    assert_eq!(g.turn(Point(1, 8), Point(2, 8)), TurnResult::Moved);

    // the pawn reaches the far rank: the move is held back
    assert_eq!(g.turn(Point(1, 7), Point(1, 8)), TurnResult::Promotion);
    assert_eq!(
        board_piece(&g, Point(1, 7)),
        Some(Piece::new(Color::White, Kind::Pawn))
    );
    assert_eq!(board_piece(&g, Point(1, 8)), None);
    assert_eq!(g.color, Color::White);

    // while the promotion is pending, every turn fails
    assert_eq!(g.turn(Point(5, 2), Point(5, 3)), TurnResult::Failed);
    assert_eq!(g.turn(Point(1, 7), Point(1, 8)), TurnResult::Failed);
    assert_eq!(g.color, Color::White);

    // choosing the class completes the move
    assert_eq!(g.promote(Kind::Queen), TurnResult::Moved);
    assert_eq!(
        board_piece(&g, Point(1, 8)),
        Some(Piece::new(Color::White, Kind::Queen))
    );
    assert_eq!(board_piece(&g, Point(1, 7)), None);
    assert_eq!(g.color, Color::Black);
}

#[test]
fn checkmate_ends_the_game_with_a_win() {
    let mut g = Game::new();
    assert_eq!(g.turn(Point(5, 2), Point(5, 4)), TurnResult::Moved);
    assert_eq!(g.turn(Point(5, 7), Point(5, 5)), TurnResult::Moved);
    assert_eq!(g.turn(Point(6, 1), Point(3, 4)), TurnResult::Moved);
    assert_eq!(g.turn(Point(2, 8), Point(3, 6)), TurnResult::Moved);
    assert_eq!(g.turn(Point(4, 1), Point(8, 5)), TurnResult::Moved);
    assert_eq!(g.turn(Point(7, 8), Point(6, 6)), TurnResult::Moved);
    assert_eq!(
        g.turn(Point(8, 5), Point(6, 7)),
        TurnResult::GameEnd(EndResult::Win(Color::White))
    );
    // the game ended: the turn did not pass
    assert_eq!(g.color, Color::White);
    assert!(!g.color_can_move(&Color::Black));
}

#[test]
fn stalemate_ends_the_game_with_a_tie() {
    let mut g = Game::new();
    assert_eq!(g.turn(Point(5, 2), Point(5, 3)), TurnResult::Moved);
    assert_eq!(g.turn(Point(1, 7), Point(1, 5)), TurnResult::Moved);
    assert_eq!(g.turn(Point(4, 1), Point(8, 5)), TurnResult::Moved);
    assert_eq!(g.turn(Point(1, 8), Point(1, 6)), TurnResult::Moved);
    assert_eq!(g.turn(Point(8, 5), Point(1, 5)), TurnResult::Moved);
    assert_eq!(g.turn(Point(8, 7), Point(8, 5)), TurnResult::Moved);
    assert_eq!(g.turn(Point(1, 5), Point(3, 7)), TurnResult::Moved);
    assert_eq!(g.turn(Point(1, 6), Point(8, 6)), TurnResult::Moved);
    assert_eq!(g.turn(Point(8, 2), Point(8, 4)), TurnResult::Moved);
    assert_eq!(g.turn(Point(6, 7), Point(6, 6)), TurnResult::Moved);
    // the queen takes the d-pawn and gives check
    assert_eq!(g.turn(Point(3, 7), Point(4, 7)), TurnResult::Checked);
    assert_eq!(g.color, Color::Black);
    assert_eq!(g.turn(Point(5, 8), Point(6, 7)), TurnResult::Moved);
    assert_eq!(g.turn(Point(4, 7), Point(2, 7)), TurnResult::Moved);
    assert_eq!(g.turn(Point(4, 8), Point(4, 3)), TurnResult::Moved);
    assert_eq!(g.turn(Point(2, 7), Point(2, 8)), TurnResult::Moved);
    assert_eq!(g.turn(Point(4, 3), Point(8, 7)), TurnResult::Moved);
    assert_eq!(g.turn(Point(2, 8), Point(3, 8)), TurnResult::Moved);
    assert_eq!(g.turn(Point(6, 7), Point(7, 6)), TurnResult::Moved);
    assert_eq!(
        g.turn(Point(3, 8), Point(5, 6)),
        TurnResult::GameEnd(EndResult::Tie)
    );
    assert_eq!(g.color, Color::White);
    assert!(!g.color_can_move(&Color::Black));
}

#[test]
fn color_inverse_swaps_sides() {
    assert_eq!(Color::White.inverse(), Color::Black);
    assert_eq!(Color::Black.inverse(), Color::White);
}
