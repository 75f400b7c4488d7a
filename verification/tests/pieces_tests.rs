use chess_engine::board::{Board, Position};
use chess_engine::pieces::{Move, PieceType, SpecialMove};

fn sq(name: &[u8; 2]) -> Position {
    Position::from_algebraic(name).unwrap()
}

fn moves_at(board: &Board, name: &[u8; 2]) -> Vec<Move> {
    board.get_moves(&sq(name)).unwrap()
}

// A pawn on its starting square with both forward squares empty has exactly
// two forward destinations.
#[test]
fn test_pawn_double_step() {
    let board = Board::new(None).unwrap();
    let moves = moves_at(&board, b"e2");
    let forward: Vec<&Move> = moves.iter().filter(|m| m.to.file() == 4).collect();
    assert_eq!(forward.len(), 2);
    assert_eq!(moves.len(), 2);
    let targets: Vec<usize> = moves.iter().map(|m| m.to.0).collect();
    assert!(targets.contains(&sq(b"e3").0));
    assert!(targets.contains(&sq(b"e4").0));
}

// A pawn with an occupied square directly ahead has no forward destination.
#[test]
fn test_pawn_blocked() {
    let board = Board::new(Some("k7/8/8/8/8/4p3/4P3/K7 w - - 0 1")).unwrap();
    let moves = moves_at(&board, b"e2");
    assert_eq!(moves.len(), 0);
}

#[test]
fn test_pawn_captures() {
    let board = Board::new(Some("k7/8/8/3p1p2/4P3/8/8/K7 w - - 0 1")).unwrap();
    let moves = moves_at(&board, b"e4");
    // forward e5, the double step e6 (the pawn has never moved), and the
    // two captures d5 and f5
    assert_eq!(moves.len(), 4);
    let captures: Vec<&Move> = moves
        .iter()
        .filter(|m| matches!(m.special, Some(SpecialMove::Capture(PieceType::Pawn))))
        .collect();
    assert_eq!(captures.len(), 2);
}

#[test]
fn test_pawn_promotion_moves() {
    let board = Board::new(Some("1k6/P7/8/8/8/8/8/K7 w - - 0 1")).unwrap();
    let moves = moves_at(&board, b"a7");
    // forward to a8 and the capture of the piece on b8, both promoting
    assert_eq!(moves.len(), 2);
    for m in &moves {
        assert!(matches!(
            m.special,
            Some(SpecialMove::Promotion(PieceType::Queen))
        ));
    }
}

// En passant is offered exactly on the ply after the double step, and the
// capture removes the passed pawn.
#[test]
fn test_enpassant_offered() {
    let board = Board::new(Some("k7/3p4/8/4P3/8/8/8/K7 b - - 0 1")).unwrap();
    let double = Move { from: sq(b"d7"), to: sq(b"d5"), special: None };
    let after = board.apply(&double);
    let moves = moves_at(&after, b"e5");
    let ep: Vec<&Move> = moves
        .iter()
        .filter(|m| matches!(m.special, Some(SpecialMove::EnPassant(_))))
        .collect();
    assert_eq!(ep.len(), 1);
    assert_eq!(ep[0].to.0, sq(b"d6").0);
    match ep[0].special {
        Some(SpecialMove::EnPassant(captured)) => assert_eq!(captured.0, sq(b"d5").0),
        _ => unreachable!(),
    }
    // taking en passant clears the captured pawn's square
    let taken = after.apply(ep[0]);
    assert!(taken.get(sq(b"d5")).is_none());
    assert!(taken.get(sq(b"d6")).is_some());
}

// The offer disappears on the ply after the one immediately following the
// double step.
#[test]
fn test_enpassant_expires() {
    let board = Board::new(Some("k7/3p4/8/4P3/8/8/8/K7 b - - 0 1")).unwrap();
    let double = Move { from: sq(b"d7"), to: sq(b"d5"), special: None };
    let after = board.apply(&double);
    // white waits a move, black answers, and the chance is gone
    let wait = Move { from: sq(b"a1"), to: sq(b"b1"), special: None };
    let after2 = after.apply(&wait);
    let reply = Move { from: sq(b"a8"), to: sq(b"b8"), special: None };
    let after3 = after2.apply(&reply);
    let moves = moves_at(&after3, b"e5");
    assert!(moves
        .iter()
        .all(|m| !matches!(m.special, Some(SpecialMove::EnPassant(_)))));
}

#[test]
fn test_knight_moves_from_start() {
    let board = Board::new(None).unwrap();
    let moves = moves_at(&board, b"b1");
    assert_eq!(moves.len(), 2);
    let targets: Vec<usize> = moves.iter().map(|m| m.to.0).collect();
    assert!(targets.contains(&sq(b"a3").0));
    assert!(targets.contains(&sq(b"c3").0));
}

#[test]
fn test_rook_slides_until_blocked() {
    let board = Board::new(Some("k7/8/8/8/8/8/8/R6K w - - 0 1")).unwrap();
    let moves = moves_at(&board, b"a1");
    // seven squares up the file (the last a capture), six right before the
    // friendly king
    assert_eq!(moves.len(), 13);
    let capture: Vec<&Move> = moves.iter().filter(|m| m.to.0 == sq(b"a8").0).collect();
    assert_eq!(capture.len(), 1);
    assert!(matches!(
        capture[0].special,
        Some(SpecialMove::Capture(PieceType::King))
    ));
    assert!(moves.iter().all(|m| m.to.0 != sq(b"h1").0));
}

#[test]
fn test_bishop_and_queen_direction_sets() {
    let board = Board::new(Some("k7/8/8/8/3B4/8/8/K7 w - - 0 1")).unwrap();
    let bishop_moves = moves_at(&board, b"d4");
    // three open diagonals plus the one cut short by the friendly king
    assert_eq!(bishop_moves.len(), 12);
    let board2 = Board::new(Some("k7/8/8/8/3Q4/8/8/K7 w - - 0 1")).unwrap();
    let queen_moves = moves_at(&board2, b"d4");
    assert_eq!(queen_moves.len(), 12 + 14);
}

#[test]
fn test_king_steps() {
    let board = Board::new(Some("k7/8/8/8/3K4/8/8/8 w - - 0 1")).unwrap();
    let moves = moves_at(&board, b"d4");
    assert_eq!(moves.len(), 8);
}

#[test]
fn test_castling_both_sides() {
    let board = Board::new(Some("k7/8/8/8/8/8/8/R3K2R w KQ - 0 1")).unwrap();
    let moves = moves_at(&board, b"e1");
    let castles: Vec<&Move> = moves
        .iter()
        .filter(|m| matches!(m.special, Some(SpecialMove::Castling(_, _))))
        .collect();
    assert_eq!(castles.len(), 2);
    let kingside = castles.iter().find(|m| m.to.0 == sq(b"g1").0).unwrap();
    match kingside.special {
        Some(SpecialMove::Castling(rook_from, rook_to)) => {
            assert_eq!(rook_from.0, sq(b"h1").0);
            assert_eq!(rook_to.0, sq(b"f1").0);
        }
        _ => unreachable!(),
    }
    // applying the kingside castle moves both king and rook
    let after = board.apply(kingside);
    assert_eq!(after.get(sq(b"g1")).unwrap().typ, PieceType::King);
    assert_eq!(after.get(sq(b"f1")).unwrap().typ, PieceType::Rook);
    assert!(after.get(sq(b"e1")).is_none());
    assert!(after.get(sq(b"h1")).is_none());
}

#[test]
fn test_castling_gone_after_king_moved() {
    let board = Board::new(Some("k7/8/8/8/8/8/8/R3K2R w KQ - 0 1")).unwrap();
    let step = Move { from: sq(b"e1"), to: sq(b"e2"), special: None };
    let back = Move { from: sq(b"a8"), to: sq(b"b8"), special: None };
    let ret = Move { from: sq(b"e2"), to: sq(b"e1"), special: None };
    let fwd = Move { from: sq(b"b8"), to: sq(b"a8"), special: None };
    let wandered = board.apply(&step).apply(&back).apply(&ret).apply(&fwd);
    let moves = moves_at(&wandered, b"e1");
    assert!(moves
        .iter()
        .all(|m| !matches!(m.special, Some(SpecialMove::Castling(_, _)))));
}

// A king one file from the edge finds its unmoved rook but has no room
// for the two-square step: no castling move is offered.
#[test]
fn test_castling_needs_room_for_the_king() {
    let board = Board::new(Some("k7/8/8/8/8/8/8/RK6 w Q - 0 1")).unwrap();
    let moves = moves_at(&board, b"b1");
    assert!(moves
        .iter()
        .all(|m| !matches!(m.special, Some(SpecialMove::Castling(_, _)))));
}

#[test]
fn test_castling_blocked_by_other_piece() {
    // the first occupied square toward the queenside rook is a knight
    let board = Board::new(Some("k7/8/8/8/8/8/8/RN2K3 w Q - 0 1")).unwrap();
    let moves = moves_at(&board, b"e1");
    assert!(moves
        .iter()
        .all(|m| !matches!(m.special, Some(SpecialMove::Castling(_, _)))));
}
