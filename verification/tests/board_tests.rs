use chess_engine::board::{Board, Position};
use chess_engine::fen::FenError;
use chess_engine::pieces::{Color, Move, PieceType, SpecialMove};

#[test]
fn test_fen_1() {
    let fen = "rnbqkbnr/pp1ppppp/8/2p5/4P3/5N2/PPPP1PPP/RNBQKB1R b KQkq - 1 2";
    let board = Board::new(Some(fen)).unwrap();
    assert!(board.get(Position::from_algebraic(b"f3").unwrap()).is_some());
    assert_eq!(board.ply, 3);
}

#[test]
fn test_fen_2() {
    let fen = "7Q/p1pbkppp/1p2pq2/3p4/2PP4/2P2N2/P3PPPP/R3KB1R b KQ - 0 11";
    let board = Board::new(Some(fen)).unwrap();
    assert!(board.get(Position::from_algebraic(b"h8").unwrap()).is_some());
    assert_eq!(board.ply, 21);
}

#[test]
fn test_fen_counters() {
    // halfmove clock 1 at ply 3: the last pawn move was at ply 2
    let fen = "rnbqkbnr/pp1ppppp/8/2p5/4P3/5N2/PPPP1PPP/RNBQKB1R b KQkq - 1 2";
    let board = Board::new(Some(fen)).unwrap();
    assert_eq!(board.last_pawn_move, 2);
}

#[test]
fn test_fen_errors() {
    assert_eq!(Board::new(Some("x y z")).unwrap_err(), FenError::FieldCount);
    assert_eq!(
        Board::new(Some("8/8/8/8/8/8/8/8 x - - 0 1")).unwrap_err(),
        FenError::Active
    );
    assert_eq!(
        Board::new(Some("8/8/8/8/8/8/8/8 w - - a 1")).unwrap_err(),
        FenError::Halfmoves
    );
    assert_eq!(
        Board::new(Some("8/8/8/8/8/8/8/8 w - - 0 x")).unwrap_err(),
        FenError::Fullmoves
    );
    assert_eq!(
        Board::new(Some("8/8/8/8/8/8/8/8 w - - 0 0")).unwrap_err(),
        FenError::Fullmoves
    );
    assert_eq!(
        Board::new(Some("8/8/8/8/8/8/8/8 w - - 5 1")).unwrap_err(),
        FenError::Counters
    );
    assert_eq!(
        Board::new(Some("z7/8/8/8/8/8/8/8 w - - 0 1")).unwrap_err(),
        FenError::UnknownPiece
    );
    assert_eq!(
        Board::new(Some("9P/8/8/8/8/8/8/8 w - - 0 1")).unwrap_err(),
        FenError::Placement
    );
}

#[test]
fn test_start_board() {
    let board = Board::new(None).unwrap();
    assert_eq!(board.ply, 0);
    assert_eq!(board.last_pawn_move, 0);
    assert!(board.last_move.is_none());
    assert_eq!(board.current_turn(), Color::White);
    let (white, black) = board.count_pieces();
    assert_eq!((white, black), (16, 16));
    let e1 = board.get(Position::from_algebraic(b"e1").unwrap()).unwrap();
    assert_eq!(e1.color, Color::White);
    assert_eq!(e1.typ, PieceType::King);
    let d8 = board.get(Position::from_algebraic(b"d8").unwrap()).unwrap();
    assert_eq!(d8.color, Color::Black);
    assert_eq!(d8.typ, PieceType::Queen);
    assert!(board.get(Position::from_algebraic(b"e4").unwrap()).is_none());
}

// Every rank-and-file pair in range reads back unchanged.
#[test]
fn test_position_round_trip() {
    for rank in 0..8 {
        for file in 0..8 {
            let p = Position::new(rank, file);
            assert_eq!(p.rank(), rank);
            assert_eq!(p.file(), file);
        }
    }
}

#[test]
fn test_position_offset() {
    let e4 = Position::from_algebraic(b"e4").unwrap();
    assert_eq!(e4.offset(1, 1).unwrap().0, Position::from_algebraic(b"f5").unwrap().0);
    assert_eq!(e4.offset(-4, 0).unwrap().0, Position::from_algebraic(b"a4").unwrap().0);
    assert!(e4.offset(-5, 0).is_none());
    assert!(e4.offset(0, 5).is_none());
    let a1 = Position::new(0, 0);
    assert_eq!(a1.iterate_offset(1, 1).len(), 7);
    assert_eq!(a1.iterate_offset(-1, 0).len(), 0);
    assert_eq!(a1.iterate_offset(0, 1).len(), 7);
    let e4_ray = e4.iterate_offset(1, 0);
    assert_eq!(e4_ray.len(), 3);
    assert_eq!(e4_ray[0].0, Position::from_algebraic(b"f4").unwrap().0);
}

#[test]
fn test_from_algebraic_rejects() {
    assert!(Position::from_algebraic(b"i1").is_none());
    assert!(Position::from_algebraic(b"a9").is_none());
    assert!(Position::from_algebraic(b"11").is_none());
}

// Applying the same move to the same board twice gives equal boards, and
// the original board is untouched.
#[test]
fn test_apply_deterministic() {
    let board = Board::new(None).unwrap();
    let mv = Move {
        from: Position::from_algebraic(b"e2").unwrap(),
        to: Position::from_algebraic(b"e4").unwrap(),
        special: None,
    };
    let before = board.duplicate();
    let after1 = board.apply(&mv);
    let after2 = board.apply(&mv);
    assert!(after1.equals(&after2));
    assert!(board.equals(&before));
    assert!(!after1.equals(&board));
}

// Every application advances the ply by exactly one and records the move.
#[test]
fn test_apply_bookkeeping() {
    let board = Board::new(None).unwrap();
    let mv = Move {
        from: Position::from_algebraic(b"g1").unwrap(),
        to: Position::from_algebraic(b"f3").unwrap(),
        special: None,
    };
    let after = board.apply(&mv);
    assert_eq!(after.ply, board.ply + 1);
    let recorded = after.last_move.unwrap();
    assert_eq!(recorded.from.0, mv.from.0);
    assert_eq!(recorded.to.0, mv.to.0);
    assert!(recorded.special.is_none());
    // the moved piece is stamped with the ply at which it moved
    let knight = after.get(Position::from_algebraic(b"f3").unwrap()).unwrap();
    assert_eq!(knight.most_recent_move, Some(0));
    assert!(after.get(Position::from_algebraic(b"g1").unwrap()).is_none());
}

#[test]
fn test_apply_pawn_updates_counter() {
    let board = Board::new(None).unwrap();
    let mv = Move {
        from: Position::from_algebraic(b"e2").unwrap(),
        to: Position::from_algebraic(b"e4").unwrap(),
        special: None,
    };
    let after = board.apply(&mv);
    assert_eq!(after.last_pawn_move, 0);
    let reply = Move {
        from: Position::from_algebraic(b"g8").unwrap(),
        to: Position::from_algebraic(b"f6").unwrap(),
        special: None,
    };
    let after2 = after.apply(&reply);
    // a knight move leaves the pawn counter alone
    assert_eq!(after2.last_pawn_move, 0);
    assert_eq!(after2.ply, 2);
}

#[test]
fn test_apply_promotion() {
    let board = Board::new(Some("1k6/P7/8/8/8/8/8/K7 w - - 0 1")).unwrap();
    let mv = Move {
        from: Position::from_algebraic(b"a7").unwrap(),
        to: Position::from_algebraic(b"a8").unwrap(),
        special: Some(SpecialMove::Promotion(PieceType::Queen)),
    };
    let after = board.apply(&mv);
    let promoted = after.get(Position::from_algebraic(b"a8").unwrap()).unwrap();
    assert_eq!(promoted.typ, PieceType::Queen);
    assert_eq!(promoted.color, Color::White);
}

#[test]
fn test_apply_empty_origin_keeps_occupancy() {
    let board = Board::new(None).unwrap();
    let mv = Move {
        from: Position::from_algebraic(b"e4").unwrap(),
        to: Position::from_algebraic(b"e5").unwrap(),
        special: None,
    };
    let after = board.apply(&mv);
    // the occupancy is unchanged, but ply and last move still advance
    assert_eq!(after.ply, 1);
    assert!(after.last_move.is_some());
    assert!(after.get(Position::from_algebraic(b"e5").unwrap()).is_none());
    let (white, black) = after.count_pieces();
    assert_eq!((white, black), (16, 16));
}

#[test]
fn test_is_occupied_by() {
    let board = Board::new(None).unwrap();
    let e1 = Position::from_algebraic(b"e1").unwrap();
    assert!(board.is_occupied_by(e1, None, None));
    assert!(board.is_occupied_by(e1, Some(Color::White), None));
    assert!(board.is_occupied_by(e1, Some(Color::White), Some(PieceType::King)));
    assert!(!board.is_occupied_by(e1, Some(Color::Black), None));
    assert!(!board.is_occupied_by(e1, None, Some(PieceType::Queen)));
    let e4 = Position::from_algebraic(b"e4").unwrap();
    assert!(!board.is_occupied_by(e4, None, None));
}

#[test]
fn test_render_start_board() {
    let board = Board::new(None).unwrap();
    let expected = "  a b c d e f g h\n\
8 \u{265C} \u{265E} \u{265D} \u{265B} \u{265A} \u{265D} \u{265E} \u{265C}\n\
7 \u{265F} \u{265F} \u{265F} \u{265F} \u{265F} \u{265F} \u{265F} \u{265F}\n\
6                \n\
5                \n\
4                \n\
3                \n\
2 \u{2659} \u{2659} \u{2659} \u{2659} \u{2659} \u{2659} \u{2659} \u{2659}\n\
1 \u{2656} \u{2658} \u{2657} \u{2655} \u{2654} \u{2657} \u{2658} \u{2656}\n";
    assert_eq!(board.render(), expected);
}

#[test]
fn test_render_marks_last_move() {
    let board = Board::new(None).unwrap();
    let mv = Move {
        from: Position::from_algebraic(b"e2").unwrap(),
        to: Position::from_algebraic(b"e4").unwrap(),
        special: None,
    };
    let after = board.apply(&mv);
    let rendered = after.render();
    let lines: Vec<&str> = rendered.lines().collect();
    // the rank-4 and rank-2 lines carry the marker on the e file
    assert!(lines[5].starts_with("4") && lines[5].contains('>'));
    assert!(lines[7].starts_with("2") && lines[7].contains('>'));
    assert!(!lines[1].contains('>'));
}

#[test]
fn test_get_pieces() {
    let board = Board::new(Some("k7/8/8/8/8/8/8/R6K w - - 0 1")).unwrap();
    let white = board.get_pieces(Color::White);
    assert_eq!(white.len(), 2);
    assert_eq!(white[0].1.typ, PieceType::Rook);
    assert_eq!(white[1].1.typ, PieceType::King);
    let black = board.get_pieces(Color::Black);
    assert_eq!(black.len(), 1);
    assert_eq!(black[0].0 .0, 56);
}
