use std::cell::RefCell;

use chess_engine::board::{Board, Position};
use chess_engine::pieces::Move;
use chess_engine::play::{Game, GameResult};
use chess_engine::players::Player;

/// A move source that plays a fixed script.
struct Scripted {
    moves: RefCell<Vec<Move>>,
    next: RefCell<usize>,
}

impl Scripted {
    fn new(moves: Vec<Move>) -> Scripted {
        Scripted { moves: RefCell::new(moves), next: RefCell::new(0) }
    }
}

impl Player for Scripted {
    fn make_move(&self, _board: &Board) -> Move {
        let i = *self.next.borrow();
        *self.next.borrow_mut() = i + 1;
        self.moves.borrow()[i]
    }
}

fn mv(from: &[u8; 2], to: &[u8; 2]) -> Move {
    Move {
        from: Position::from_algebraic(from).unwrap(),
        to: Position::from_algebraic(to).unwrap(),
        special: None,
    }
}

// Shuffling the knights out and back twice brings the occupancy to its
// third occurrence: a draw by repetition.
#[test]
fn test_threefold_repetition() {
    let white = Scripted::new(vec![
        mv(b"g1", b"f3"),
        mv(b"f3", b"g1"),
        mv(b"g1", b"f3"),
        mv(b"f3", b"g1"),
    ]);
    let black = Scripted::new(vec![
        mv(b"g8", b"f6"),
        mv(b"f6", b"g8"),
        mv(b"g8", b"f6"),
        mv(b"f6", b"g8"),
    ]);
    let mut game = Game::new(None, white, black).unwrap();
    assert_eq!(game.start(), Some(GameResult::DrawByRepetition));
}

// One quiet move on top of 49 pawnless plies reaches the 50-ply rule.
#[test]
fn test_fifty_move_rule() {
    let white = Scripted::new(vec![mv(b"h1", b"g1")]);
    let black = Scripted::new(vec![]);
    let mut game = Game::new(Some("k7/8/8/8/8/8/8/7K w - - 49 30"), white, black).unwrap();
    assert_eq!(game.start(), Some(GameResult::DrawBy50MoveRule));
}

// Capturing the black king ends the game at once in White's favor.
#[test]
fn test_white_wins_by_king_capture() {
    let white = Scripted::new(vec![mv(b"a1", b"a8")]);
    let black = Scripted::new(vec![]);
    let mut game = Game::new(Some("k7/8/8/8/8/8/8/R6K w - - 0 1"), white, black).unwrap();
    assert_eq!(game.start(), Some(GameResult::WhiteWin));
}

// And the same the other way around.
#[test]
fn test_black_wins_by_king_capture() {
    let white = Scripted::new(vec![]);
    let black = Scripted::new(vec![mv(b"a1", b"h1")]);
    let mut game = Game::new(Some("k7/8/8/8/8/8/8/r6K b - - 0 1"), white, black).unwrap();
    assert_eq!(game.start(), Some(GameResult::BlackWin));
}

#[test]
fn test_game_new_rejects_bad_fen() {
    let white = Scripted::new(vec![]);
    let black = Scripted::new(vec![]);
    assert!(Game::new(Some("not a position"), white, black).is_err());
}
