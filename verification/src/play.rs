//! The game loop: two move sources alternate, each chosen move is applied,
//! and play ends on a draw signal or a captured king.

use vstd::prelude::*;
use vstd::string::StringSliceAdditionalSpecFns;

use crate::board::{spec_pieces, Board, BoardView};
use crate::engine::{pieces_have_king, spec_has_king, spec_next_states};
use crate::fen::{spec_parse_fen, spec_start_board, FenError};
use crate::pieces::{Color, Move, Piece, PieceType};
use crate::players::Player;

verus! {

/// How a finished game ended.
#[derive(Debug, Copy, Clone, PartialEq, Eq, Structural)]
pub enum GameResult {
    WhiteWin,
    DrawByRepetition,
    DrawBy50MoveRule,
    BlackWin,
}

impl GameResult {
    /// The verdict in words.
    pub fn describe(&self) -> (r: String)
        ensures
            match *self {
                GameResult::WhiteWin => r@ == "White won"@,
                GameResult::DrawByRepetition => r@ == "Draw by repetition"@,
                GameResult::DrawBy50MoveRule => r@ == "Draw by 50-move rule"@,
                GameResult::BlackWin => r@ == "Black won"@,
            },
    {
        let text = match self {
            GameResult::WhiteWin => "White won",
            GameResult::DrawByRepetition => "Draw by repetition",
            GameResult::DrawBy50MoveRule => "Draw by 50-move rule",
            GameResult::BlackWin => "Black won",
        };
        String::from_str(text)
    }
}

/// The occupancy of a board: color and kind per square, nothing else.
/// Snapshots kept for repetition detection compare by this alone.
pub open spec fn spec_occupancy(squares: Seq<Option<Piece>>) -> Seq<Option<(Color, PieceType)>> {
    squares.map_values(
        |o: Option<Piece>|
            match o {
                Some(p) => Some((p.color, p.typ)),
                None => None,
            },
    )
}

/// How many earlier snapshots equal the given occupancy.
pub open spec fn spec_repetition_count(
    prevs: Seq<Seq<Option<(Color, PieceType)>>>,
    cur: Seq<Option<(Color, PieceType)>>,
) -> int
    decreases prevs.len(),
{
    if prevs.len() == 0 {
        0
    } else {
        spec_repetition_count(prevs.drop_last(), cur) + (if prevs.last() == cur {
            1int
        } else {
            0int
        })
    }
}

/// The termination test, in order: a third occurrence of the current
/// occupancy is a draw by repetition; 50 plies since the last pawn move is
/// a draw by that rule; a missing black king is a White win, a missing
/// white king a Black win; otherwise play goes on.
pub open spec fn spec_game_over(
    v: BoardView,
    prevs: Seq<Seq<Option<(Color, PieceType)>>>,
) -> Option<GameResult> {
    if spec_repetition_count(prevs, spec_occupancy(v.squares)) >= 2 {
        Some(GameResult::DrawByRepetition)
    } else if v.ply - v.last_pawn_move >= 50 {
        Some(GameResult::DrawBy50MoveRule)
    } else if !spec_has_king(spec_pieces(v, Color::Black)) {
        Some(GameResult::WhiteWin)
    } else if !spec_has_king(spec_pieces(v, Color::White)) {
        Some(GameResult::BlackWin)
    } else {
        None
    }
}

/// The views of kept snapshots.
pub open spec fn spec_snapshot_views(s: Seq<Vec<Option<(Color, PieceType)>>>) -> Seq<
    Seq<Option<(Color, PieceType)>>,
> {
    s.map_values(|v: Vec<Option<(Color, PieceType)>>| v@)
}

/// The occupancy snapshot of a board.
fn occupancy(b: &Board) -> (r: Vec<Option<(Color, PieceType)>>)
    requires
        b@.wf(),
    ensures
        r@ == spec_occupancy(b@.squares),
{
    let mut out: Vec<Option<(Color, PieceType)>> = Vec::new();
    let mut i: usize = 0;
    while i < 64
        invariant
            i <= 64,
            b@.wf(),
            out@.len() == i,
            forall|j: int| 0 <= j < i ==> out@[j] == spec_occupancy(b@.squares)[j],
        decreases 64 - i,
    {
        let sq: Option<(Color, PieceType)> = match b.squares[i] {
            Some(p) => Some((p.color, p.typ)),
            None => None,
        };
        out.push(sq);
        i = i + 1;
    }
    proof {
        assert(out@ =~= spec_occupancy(b@.squares));
    }
    out
}

/// Whether two occupancies are square-for-square equal.
fn occupancy_equal(a: &Vec<Option<(Color, PieceType)>>, b: &Vec<Option<(Color, PieceType)>>) -> (r:
    bool)
    ensures
        r == (a@ == b@),
{
    if a.len() != b.len() {
        return false;
    }
    let mut i: usize = 0;
    while i < a.len()
        invariant
            i <= a@.len(),
            a@.len() == b@.len(),
            forall|j: int| 0 <= j < i ==> a@[j] == b@[j],
        decreases a@.len() - i,
    {
        let same = match (a[i], b[i]) {
            (None, None) => true,
            (Some((c1, t1)), Some((c2, t2))) => c1 == c2 && t1 == t2,
            _ => false,
        };
        if !same {
            return false;
        }
        i = i + 1;
    }
    proof {
        assert(a@ =~= b@);
    }
    true
}

/// A game in progress: the live board, the snapshots of every position the
/// loop has left behind, and the two move sources.
pub struct Game<W: Player, B: Player> {
    board: Board,
    previous_states: Vec<Vec<Option<(Color, PieceType)>>>,
    white: W,
    black: B,
}

impl<W: Player, B: Player> Game<W, B> {
    /// The current board state.
    pub closed spec fn spec_board(&self) -> BoardView {
        self.board@
    }

    /// The kept occupancy snapshots.
    pub closed spec fn spec_prevs(&self) -> Seq<Seq<Option<(Color, PieceType)>>> {
        spec_snapshot_views(self.previous_states@)
    }

    /// The live board.
    pub fn board(&self) -> (b: &Board)
        ensures
            b@ == self.spec_board(),
    {
        &self.board
    }

    /// A fresh game from an optional starting-position string, with no
    /// snapshots yet.
    pub fn new(fen: Option<&str>, white: W, black: B) -> (r: Result<Game<W, B>, FenError>)
        ensures
            match r {
                Ok(g) => g.spec_board().wf() && g.spec_prevs() =~= Seq::<
                    Seq<Option<(Color, PieceType)>>,
                >::empty() && (match fen {
                    Some(s) => spec_parse_fen(s.spec_bytes()) == Ok::<BoardView, FenError>(
                        g.spec_board(),
                    ),
                    None => g.spec_board() == spec_start_board(),
                }),
                Err(e) => match fen {
                    Some(s) => spec_parse_fen(s.spec_bytes()) == Err::<BoardView, FenError>(e),
                    None => false,
                },
            },
    {
        match Board::new(fen) {
            Ok(board) => {
                let g = Game { board, previous_states: Vec::new(), white, black };
                proof {
                    assert(g.spec_prevs() =~= Seq::<Seq<Option<(Color, PieceType)>>>::empty());
                }
                Ok(g)
            },
            Err(e) => Err(e),
        }
    }

    /// Ask the side to move for its move.
    fn get_next_move(&self) -> (m: Move)
        requires
            self.spec_board().wf(),
            self.spec_board().ply + 6 <= usize::MAX,
            spec_next_states(self.spec_board()).len() > 0,
        ensures
            m.wf(),
    {
        match self.board.current_turn() {
            Color::White => self.white.make_move(&self.board),
            Color::Black => self.black.make_move(&self.board),
        }
    }

    /// The termination test against the live board and the snapshots.
    fn is_gameover(&self) -> (r: Option<GameResult>)
        requires
            self.spec_board().wf(),
        ensures
            r == spec_game_over(self.spec_board(), self.spec_prevs()),
    {
        let cur = occupancy(&self.board);
        let mut count: usize = 0;
        let mut i: usize = 0;
        while i < self.previous_states.len()
            invariant
                i <= self.previous_states@.len(),
                count <= i,
                cur@ == spec_occupancy(self.board@.squares),
                count == spec_repetition_count(
                    spec_snapshot_views(self.previous_states@).take(i as int),
                    cur@,
                ),
            decreases self.previous_states@.len() - i,
        {
            proof {
                assert(spec_snapshot_views(self.previous_states@).take(i + 1).drop_last()
                    =~= spec_snapshot_views(self.previous_states@).take(i as int));
                assert(spec_snapshot_views(self.previous_states@).take(i + 1).last()
                    == self.previous_states@[i as int]@);
            }
            if occupancy_equal(&self.previous_states[i], &cur) {
                count = count + 1;
            }
            i = i + 1;
        }
        proof {
            assert(spec_snapshot_views(self.previous_states@).take(
                self.previous_states@.len() as int,
            ) =~= spec_snapshot_views(self.previous_states@));
        }
        if count >= 2 {
            // the current occupancy has been seen twice before: a draw
            return Some(GameResult::DrawByRepetition);
        }
        if self.board.ply - self.board.last_pawn_move >= 50 {
            // 50 plies since the last pawn move: a draw
            return Some(GameResult::DrawBy50MoveRule);
        }
        let black = self.board.get_pieces(Color::Black);
        if !pieces_have_king(&black) {
            // the black king has been captured: White wins
            return Some(GameResult::WhiteWin);
        }
        let white = self.board.get_pieces(Color::White);
        if !pieces_have_king(&white) {
            // the white king has been captured: Black wins
            return Some(GameResult::BlackWin);
        }
        None
    }

    /// Run the game to its end: ask the side to move, snapshot, apply, and
    /// test for termination, over and over. `None` is returned only outside
    /// the game's specified domain: when the side to move has no candidate
    /// successor at all (no termination rule speaks there), or when the ply
    /// counter would leave the machine range.
    pub fn start(&mut self) -> (r: Option<GameResult>)
        requires
            old(self).spec_board().wf(),
        ensures
            match r {
                Some(res) => spec_game_over(final(self).spec_board(), final(self).spec_prevs())
                    == Some(res),
                None => spec_next_states(final(self).spec_board()).len() == 0
                    || final(self).spec_board().ply + 8 > usize::MAX,
            },
    {
        loop
            invariant
                self.spec_board().wf(),
            decreases usize::MAX - self.board.ply,
        {
            if self.board.ply > usize::MAX - 8 {
                return None;
            }
            let states = self.board.get_next_states();
            if states.len() == 0 {
                return None;
            }
            let mv = self.get_next_move();
            let snapshot = occupancy(&self.board);
            self.previous_states.push(snapshot);
            let next = self.board.apply(&mv);
            self.board = next;
            match self.is_gameover() {
                Some(result) => {
                    return Some(result);
                },
                None => (),
            }
        }
    }
}

} // verus!
