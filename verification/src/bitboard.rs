//! A bit-packed occupancy encoding: one 64-bit word per piece kind and
//! color, one bit per square. An alternate board representation that is not
//! wired into gameplay.

use vstd::prelude::*;

use crate::pieces::{Color, PieceType};

verus! {

/// A piece as the packed encoding sees it: color and kind only.
type Piece = (Color, PieceType);

/// The word a piece is stored in: the lowest bit is the color, the rest
/// the kind.
pub open spec fn spec_piece_idx(piece: Piece) -> int {
    (match piece.0 {
        Color::White => 0int,
        Color::Black => 1int,
    }) + (match piece.1 {
        PieceType::King => 0int,
        PieceType::Queen => 2int,
        PieceType::Rook => 4int,
        PieceType::Knight => 6int,
        PieceType::Bishop => 8int,
        PieceType::Pawn => 10int,
    })
}

/// The piece a word index stands for.
pub open spec fn spec_idx_piece(i: int) -> Piece {
    (
        if i % 2 == 0 {
            Color::White
        } else {
            Color::Black
        },
        if i < 2 {
            PieceType::King
        } else if i < 4 {
            PieceType::Queen
        } else if i < 6 {
            PieceType::Rook
        } else if i < 8 {
            PieceType::Knight
        } else if i < 10 {
            PieceType::Bishop
        } else {
            PieceType::Pawn
        },
    )
}

fn piece_idx(piece: Piece) -> (r: usize)
    ensures
        r == spec_piece_idx(piece),
        r < 12,
{
    let color: usize = match piece.0 {
        Color::White => 0,
        Color::Black => 1,
    };
    let typ: usize = match piece.1 {
        PieceType::King => 0,
        PieceType::Queen => 2,
        PieceType::Rook => 4,
        PieceType::Knight => 6,
        PieceType::Bishop => 8,
        PieceType::Pawn => 10,
    };
    color + typ
}

/// Whether the square's bit is set in a word.
pub open spec fn spec_bit(bb: u64, pos: u32) -> bool {
    bb & (1u64 << pos) != 0
}

/// The first word, from `i` on, whose bit for the square is set, read back
/// as its piece.
pub open spec fn spec_get_from(bbs: Seq<u64>, pos: u32, i: int) -> Option<Piece>
    decreases 12 - i,
{
    if i < 0 || i >= 12 || bbs.len() != 12 {
        None
    } else if spec_bit(bbs[i], pos) {
        Some(spec_idx_piece(i))
    } else {
        spec_get_from(bbs, pos, i + 1)
    }
}

/// The packed board: twelve words, one per piece kind and color.
pub struct BitboardGame {
    pub bitboards: [u64; 12],
}

impl BitboardGame {
    /// An empty packed board.
    pub fn new() -> (r: Self)
        ensures
            forall|i: int| 0 <= i < 12 ==> r.bitboards@[i] == 0u64,
            forall|pos: u32| pos < 64 ==> spec_get_from(r.bitboards@, pos, 0) is None,
    {
        let r = BitboardGame { bitboards: [0; 12] };
        proof {
            assert forall|pos: u32| pos < 64 implies spec_get_from(r.bitboards@, pos, 0) is None by {
                lemma_get_from_empty(r.bitboards@, pos, 0);
            }
        }
        r
    }

    /// The piece recorded on a square: the first word whose bit is set.
    pub fn get(&self, pos: u32) -> (r: Option<Piece>)
        requires
            pos < 64,
        ensures
            r == spec_get_from(self.bitboards@, pos, 0),
    {
        let mask: u64 = 1u64 << pos;
        let mut i: usize = 0;
        while i < 12
            invariant
                i <= 12,
                mask == (1u64 << pos),
                spec_get_from(self.bitboards@, pos, 0) == spec_get_from(
                    self.bitboards@,
                    pos,
                    i as int,
                ),
            decreases 12 - i,
        {
            if self.bitboards[i] & mask != 0 {
                let piece: Piece = match i {
                    0 => (Color::White, PieceType::King),
                    1 => (Color::Black, PieceType::King),
                    2 => (Color::White, PieceType::Queen),
                    3 => (Color::Black, PieceType::Queen),
                    4 => (Color::White, PieceType::Rook),
                    5 => (Color::Black, PieceType::Rook),
                    6 => (Color::White, PieceType::Knight),
                    7 => (Color::Black, PieceType::Knight),
                    8 => (Color::White, PieceType::Bishop),
                    9 => (Color::Black, PieceType::Bishop),
                    _ => {
                        if i % 2 == 0 {
                            (Color::White, PieceType::Pawn)
                        } else {
                            (Color::Black, PieceType::Pawn)
                        }
                    },
                };
                proof {
                    assert(piece == spec_idx_piece(i as int));
                }
                return Some(piece);
            }
            i = i + 1;
        }
        None
    }

    /// Record a piece on a square: its word gains the square's bit; every
    /// other word is untouched. What `get` saw there before is handed back.
    pub fn set(&mut self, pos: u32, piece: Piece) -> (prev: Option<Piece>)
        requires
            pos < 64,
        ensures
            prev == spec_get_from(old(self).bitboards@, pos, 0),
            final(self).bitboards@ == old(self).bitboards@.update(
                spec_piece_idx(piece),
                old(self).bitboards@[spec_piece_idx(piece)] | (1u64 << pos),
            ),
    {
        let prev = self.get(pos);
        let mask: u64 = 1u64 << pos;
        let idx = piece_idx(piece);
        self.bitboards[idx] = self.bitboards[idx] | mask;
        prev
    }
}

/// All-zero words record nothing.
proof fn lemma_get_from_empty(bbs: Seq<u64>, pos: u32, i: int)
    requires
        forall|j: int| 0 <= j < 12 ==> bbs[j] == 0u64,
        pos < 64,
    ensures
        spec_get_from(bbs, pos, i) is None,
    decreases 12 - i,
{
    if 0 <= i < 12 && bbs.len() == 12 {
        assert(0u64 & (1u64 << pos) == 0) by (bit_vector);
        lemma_get_from_empty(bbs, pos, i + 1);
    }
}

} // verus!
