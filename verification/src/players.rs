//! Move sources: the capability the game loop draws moves from, the
//! search-backed player, and a randomized player.

use vstd::prelude::*;

use crate::board::{spec_apply, Board};
use crate::engine::{
    lemma_ab_props, lemma_sort_moves_len, negamax_search, spec_all_moves, spec_negamax,
    spec_next_states, spec_sort_moves, Evaluation,
};
use crate::pieces::Move;

verus! {

/// A source of moves: given a board that already reflects whose turn it is,
/// choose the move to play. The game loop only relies on the chosen move
/// naming on-board squares; a side with no candidate successor at all is
/// outside every player's domain.
pub trait Player {
    fn make_move(&self, board: &Board) -> (m: Move)
        requires
            board@.wf(),
            board@.ply + 6 <= usize::MAX,
            spec_next_states(board@).len() > 0,
        ensures
            m.wf(),
    ;
}

/// Relies on rand::random: an arbitrary machine-word seed for the
/// evaluation noise; nothing is promised of its value.
#[verifier::external_body]
fn random_seed() -> u64 {
    rand::random()
}

/// Relies on rand::random_range: a draw from the non-empty range `0..n`
/// lies inside it.
#[verifier::external_body]
fn random_below(n: usize) -> (r: usize)
    requires
        n > 0,
    ensures
        r < n,
{
    rand::random_range(0..n)
}

/// The search-backed player.
pub struct EnginePlayer;

impl EnginePlayer {
    /// Search the position and hand back the best value found with the
    /// move that reaches it. The depth is chosen from the piece count.
    pub fn evaluate(board: &Board) -> (r: (Evaluation, Move))
        requires
            board@.wf(),
            board@.ply + 5 <= usize::MAX,
            spec_next_states(board@).len() > 0,
        ensures
            exists|seed: u64|
                r.0 == (#[trigger] spec_negamax(board@, 4, seed)).1 && Some(r.1) == spec_negamax(
                    board@,
                    4,
                    seed,
                ).0.last_move,
            spec_sort_moves(spec_all_moves(board@)).contains(r.1),
            r.1.wf(),
    {
        let (white, black) = board.count_pieces();
        proof {
            crate::board::lemma_count_color_bound(board@.squares, crate::pieces::Color::White, 64);
            crate::board::lemma_count_color_bound(board@.squares, crate::pieces::Color::Black, 64);
        }
        let total = white + black;
        let depth: usize = if total < 5 {
            4
        } else if total < 10 {
            4
        } else {
            4
        };
        let seed = random_seed();
        let (eval_board, eval) = negamax_search(board, depth, seed);
        match eval_board.last_move {
            Some(best_move) => {
                proof {
                    assert(eval == spec_negamax(board@, 4, seed).1 && Some(best_move)
                        == spec_negamax(board@, 4, seed).0.last_move);
                    lemma_ab_props(board@, 4, Evaluation::Loss(1), Evaluation::Win(1), seed);
                    let cs = spec_next_states(board@);
                    let sorted = spec_sort_moves(spec_all_moves(board@));
                    assert(cs.contains(eval_board@));
                    let j = choose|j: int| 0 <= j < cs.len() && cs[j] == eval_board@;
                    assert(cs[j] == spec_apply(board@, sorted[j]));
                    assert(sorted[j] == best_move);
                    assert(sorted.contains(best_move));
                }
                (eval, best_move)
            },
            None => unreached(),
        }
    }
}

impl Player for EnginePlayer {
    fn make_move(&self, board: &Board) -> (m: Move) {
        let (_, best_move) = EnginePlayer::evaluate(board);
        best_move
    }
}

/// A player that makes a uniformly random candidate move.
pub struct RandomPlayer;

impl Player for RandomPlayer {
    fn make_move(&self, board: &Board) -> (m: Move) {
        let moves = board.collect_moves();
        proof {
            lemma_sort_moves_len(spec_all_moves(board@));
        }
        let random_index = random_below(moves.len());
        moves[random_index]
    }
}

} // verus!
