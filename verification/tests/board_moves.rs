use chess_core::{create_test_board, Color, Game, Kind, Piece, Point, TurnResult};

#[test]
fn knight_has_two_moves_from_the_start() {
    let g = Game::new();
    let moves = g.get_moves(&Point(2, 1));
    assert_eq!(moves.len(), 2);
    assert!(moves.contains(&Point(1, 3)));
    assert!(moves.contains(&Point(3, 3)));
}

#[test]
fn pawn_has_two_moves_from_the_start() {
    let g = Game::new();
    let moves = g.get_moves(&Point(5, 2));
    assert_eq!(moves.len(), 2);
    assert!(moves.contains(&Point(5, 3)));
    assert!(moves.contains(&Point(5, 4)));
}

#[test]
fn walled_in_pieces_and_empty_squares_have_no_moves() {
    let g = Game::new();
    assert_eq!(g.get_moves(&Point(5, 1)).len(), 0);
    assert_eq!(g.get_moves(&Point(1, 1)).len(), 0);
    assert_eq!(g.get_moves(&Point(4, 4)).len(), 0);
}

#[test]
fn rook_on_an_open_file_gives_check() {
    let board = create_test_board(vec![
        (Point(5, 1), Piece::new(Color::White, Kind::King)),
        (Point(5, 8), Piece::new(Color::Black, Kind::King)),
        (Point(5, 4), Piece::new(Color::White, Kind::Rook)),
    ]);
    assert!(board.detect_check(&Color::Black).is_some());
    assert!(board.detect_check(&Color::White).is_none());
}

#[test]
fn a_pinned_rook_may_only_stay_on_its_file() {
    let board = create_test_board(vec![
        (Point(5, 1), Piece::new(Color::White, Kind::King)),
        (Point(5, 3), Piece::new(Color::White, Kind::Rook)),
        (Point(5, 8), Piece::new(Color::Black, Kind::Rook)),
        (Point(8, 8), Piece::new(Color::Black, Kind::King)),
    ]);
    let moves = board.get_allowed_moves(&Point(5, 3));
    assert_eq!(moves.len(), 6);
    assert!(moves.contains(&Point(5, 2)));
    assert!(moves.contains(&Point(5, 8)));
    assert!(!moves.contains(&Point(4, 3)));
    assert!(!moves.contains(&Point(6, 3)));
}

#[test]
fn move_piece_refuses_an_empty_source() {
    let mut board = create_test_board(vec![]);
    assert!(!board.move_piece(Point(4, 4), Point(4, 5)));
}

#[test]
fn a_side_without_a_king_is_never_in_check() {
    let board = create_test_board(vec![]);
    assert!(board.detect_check(&Color::White).is_none());
    assert!(board.detect_check(&Color::Black).is_none());
}

#[test]
fn a_later_placement_overwrites_an_earlier_one() {
    let board = create_test_board(vec![
        (Point(4, 4), Piece::new(Color::White, Kind::Rook)),
        (Point(4, 4), Piece::new(Color::Black, Kind::Knight)),
    ]);
    let moves = board.get_allowed_moves(&Point(4, 4));
    // a knight in the open has eight moves; a rook would have fourteen
    assert_eq!(moves.len(), 8);
    assert!(moves.contains(&Point(5, 6)));
    assert!(!moves.contains(&Point(4, 5)));
}

#[test]
fn capturing_relocates_the_mover() {
    let mut g = Game::new();
    assert_eq!(g.turn(Point(5, 2), Point(5, 4)), TurnResult::Moved);
    assert_eq!(g.turn(Point(4, 7), Point(4, 5)), TurnResult::Moved);
    assert_eq!(g.turn(Point(5, 4), Point(4, 5)), TurnResult::Moved);
    let entries = g.get_board();
    assert!(entries.contains(&(Point(4, 5), Piece::new(Color::White, Kind::Pawn))));
    assert!(entries.iter().all(|entry| entry.0 != Point(5, 4)));
    // one piece was captured: 31 remain
    assert_eq!(entries.len(), 31);
}

#[test]
fn both_sides_can_move_at_the_start() {
    let g = Game::new();
    assert!(g.color_can_move(&Color::White));
    assert!(g.color_can_move(&Color::Black));
}
