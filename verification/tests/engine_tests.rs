use chess_engine::board::{Board, Position};
use chess_engine::engine::{negamax_search, Evaluation};
use chess_engine::players::{EnginePlayer, Player, RandomPlayer};

#[test]
fn test_eval_cmp() {
    let w1 = Evaluation::Win(1);
    let w4 = Evaluation::Win(4);

    let better = Evaluation::Eval(53);
    let even = Evaluation::Eval(5);
    let worse = Evaluation::Eval(-50);

    let l4 = Evaluation::Loss(4);
    let l1 = Evaluation::Loss(1);

    assert!(w1 > w4);
    assert!(w1 > better);
    assert!(w1 > l4);

    assert!(better > even);
    assert!(even > worse);

    assert!(even > l4);

    assert!(l4 > l1);
    assert!(w1 >= w1);
}

#[test]
fn test_eval_invert_cmp() {
    let w1 = Evaluation::Win(1);
    let w4 = Evaluation::Win(4);

    let better = Evaluation::Eval(53);
    let l1 = Evaluation::Loss(1);

    assert_eq!(w1.negate(), l1);
    assert!(w4.negate() > l1);
    assert!(better > w4.negate());
    assert!(better > better.negate());
}

#[test]
fn test_eval_order_chain() {
    assert!(Evaluation::Win(1) > Evaluation::Win(4));
    assert!(Evaluation::Win(4) > Evaluation::Eval(1000));
    assert!(Evaluation::Eval(1000) > Evaluation::Eval(-1000));
    assert!(Evaluation::Eval(-1000) > Evaluation::Loss(4));
    assert!(Evaluation::Loss(4) > Evaluation::Loss(1));
    assert_eq!(Evaluation::Eval(7).negate(), Evaluation::Eval(-7));
}

// A lone-king position is decided by the static evaluation alone: the side
// whose opponent has no king wins on the spot, the side without its own
// king has lost on the spot.
#[test]
fn test_lone_king_evaluation() {
    let white_alone = Board::new(Some("8/8/8/8/8/8/8/K7 w - - 0 1")).unwrap();
    assert_eq!(white_alone.evaluate(7), Evaluation::Win(0));
    let black_to_move = Board::new(Some("8/8/8/8/8/8/8/K7 b - - 0 1")).unwrap();
    assert_eq!(black_to_move.evaluate(7), Evaluation::Loss(0));
    // the search on the kingless side has no successors and returns the
    // static value without recursing
    let (line, eval) = negamax_search(&black_to_move, 4, 7);
    assert_eq!(eval, Evaluation::Loss(0));
    assert!(line.equals(&black_to_move));
}

// With both kings on the board the evaluation is the material difference
// from the mover's perspective, within the +-10 noise band.
#[test]
fn test_material_evaluation() {
    let kings = Board::new(Some("k7/8/8/8/8/8/8/K7 w - - 0 1")).unwrap();
    match kings.evaluate(123) {
        Evaluation::Eval(v) => assert!((-10..=10).contains(&v)),
        other => panic!("expected a score, got {:?}", other),
    }
    let queen_up = Board::new(Some("k7/8/8/8/8/8/8/KQ6 w - - 0 1")).unwrap();
    match queen_up.evaluate(123) {
        Evaluation::Eval(v) => assert!((890..=910).contains(&v)),
        other => panic!("expected a score, got {:?}", other),
    }
    // a pawn's worth grows with its advancement: rank 4 is worth 125
    let pawn = Board::new(Some("k7/8/8/8/P7/8/8/K7 w - - 0 1")).unwrap();
    match pawn.evaluate(123) {
        Evaluation::Eval(v) => assert!((115..=135).contains(&v)),
        other => panic!("expected a score, got {:?}", other),
    }
}

#[test]
fn test_evaluation_deterministic_per_seed() {
    let board = Board::new(None).unwrap();
    assert_eq!(board.evaluate(42), board.evaluate(42));
    assert_eq!(board.evaluate(7), board.evaluate(7));
}

#[test]
fn test_next_states_deterministic() {
    let board = Board::new(None).unwrap();
    let a = board.get_next_states();
    let b = board.get_next_states();
    assert_eq!(a.len(), 20);
    assert_eq!(b.len(), 20);
    for (x, y) in a.iter().zip(b.iter()) {
        assert!(x.equals(y));
    }
}

// A full-width search with no window at all, for comparison with the
// pruning search.
fn full_width(board: &Board, depth: usize, seed: u64) -> (Board, Evaluation) {
    let children = board.get_next_states();
    if depth == 0 || children.is_empty() {
        return (board.duplicate(), board.evaluate(seed));
    }
    let mut best_eval = Evaluation::Loss(0);
    let mut best: Option<Board> = None;
    for child in children {
        let (_, sub) = full_width(&child, depth - 1, seed);
        let child_eval = sub.negate();
        if child_eval >= best_eval {
            best_eval = child_eval;
            best = Some(child);
        }
    }
    (best.unwrap(), best_eval.increment_depth())
}

// Pruning must not change the optimum the search reports.
#[test]
fn test_alpha_beta_matches_full_width() {
    let fixtures = [
        "k7/8/8/8/8/8/6q1/7K w - - 0 1",
        "k7/8/8/3p4/4P3/8/8/K7 w - - 0 1",
        "7k/8/8/8/8/2K3Q1/5Q2/8 w - - 0 1",
    ];
    for fen in fixtures {
        let board = Board::new(Some(fen)).unwrap();
        let (full_board, full_eval) = full_width(&board, 3, 99);
        let (ab_board, ab_eval) = negamax_search(&board, 3, 99);
        assert_eq!(ab_eval, full_eval, "value differs on {fen}");
        assert!(ab_board.equals(&full_board), "line differs on {fen}");
    }
}

// From the standard initial arrangement a depth-4 search terminates with a
// finite score and a legal opening move.
#[test]
fn test_opening_search() {
    let board = Board::new(None).unwrap();
    let (eval, best_move) = EnginePlayer::evaluate(&board);
    assert!(matches!(eval, Evaluation::Eval(_)));
    let legal = board.collect_moves();
    assert!(legal
        .iter()
        .any(|m| m.from.0 == best_move.from.0 && m.to.0 == best_move.to.0));
}

// The search finds a mate in one and prefers the faster win.
#[test]
fn test_mate_in_one() {
    let board = Board::new(Some("7k/8/8/8/8/2K3Q1/5Q2/8 w - - 0 1")).unwrap();
    let (_, eval) = negamax_search(&board, 4, 5);
    match eval {
        Evaluation::Win(d) => assert!(d <= 3, "expected a short win, got distance {d}"),
        other => panic!("expected a forced win, got {:?}", other),
    }
}

#[test]
fn test_position_key_order() {
    // successor states come in one fixed order: sorted by origin then target
    let board = Board::new(Some("k7/8/8/8/8/8/8/R6K w - - 0 1")).unwrap();
    let states = board.get_next_states();
    let mut keys: Vec<usize> = Vec::new();
    for s in &states {
        let m = s.last_move.unwrap();
        keys.push(m.from.0 * 64 + m.to.0);
    }
    let mut sorted = keys.clone();
    sorted.sort();
    assert_eq!(keys, sorted);
}

// Whatever index the randomized player draws, the move handed back is one
// of the position's candidate moves; a draw outside the list would fail
// here by construction.
#[test]
fn test_random_player_picks_candidate() {
    let board = Board::new(Some("k7/8/8/8/8/8/8/K7 w - - 0 1")).unwrap();
    let a1 = Position::from_algebraic(b"a1").unwrap().0;
    let candidates = [
        Position::from_algebraic(b"a2").unwrap().0,
        Position::from_algebraic(b"b1").unwrap().0,
        Position::from_algebraic(b"b2").unwrap().0,
    ];
    for _ in 0..20 {
        let mv = RandomPlayer.make_move(&board);
        assert_eq!(mv.from.0, a1);
        assert!(candidates.contains(&mv.to.0));
    }
}
