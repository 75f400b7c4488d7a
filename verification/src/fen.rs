//! Construction of a board from a six-field position string: piece
//! placement, active color, castling rights, en-passant target, half-move
//! clock and full-move number. The ply is derived from the full-move number
//! and active color, and the last pawn move from the half-move clock. The
//! castling and en-passant fields are accepted but not yet wired into the
//! board state.

use vstd::prelude::*;
use vstd::string::StringSliceAdditionalSpecFns;

use crate::board::{Board, BoardView};
use crate::pieces::{Color, Piece, PieceType};

verus! {

/// Why a position string was rejected.
#[derive(Debug, Copy, Clone, PartialEq, Eq, Structural)]
pub enum FenError {
    /// Not exactly six whitespace-separated fields.
    FieldCount,
    /// The active-color field is neither `w` nor `b`.
    Active,
    /// The half-move clock is not a number.
    Halfmoves,
    /// The full-move number is not a number, is zero, or yields a ply
    /// beyond the machine range.
    Fullmoves,
    /// The half-move clock reaches back before the first ply.
    Counters,
    /// A placement character names no piece.
    UnknownPiece,
    /// A piece falls outside the 8x8 grid.
    Placement,
}

/// The index of the first occurrence of `c`, or -1 when there is none.
pub open spec fn spec_find(s: Seq<u8>, c: u8) -> int
    decreases s.len(),
{
    if s.len() == 0 {
        -1
    } else if s[0] == c {
        0
    } else {
        let r = spec_find(s.drop_first(), c);
        if r < 0 {
            -1
        } else {
            r + 1
        }
    }
}

/// The fields of `s` between occurrences of the separator; an input without
/// the separator is one field, and every separator ends a field.
pub open spec fn spec_split(s: Seq<u8>, sep: u8) -> Seq<Seq<u8>>
    decreases s.len(),
{
    let i = spec_find(s, sep);
    if i < 0 || i >= s.len() {
        seq![s]
    } else {
        seq![s.subrange(0, i)] + spec_split(s.subrange(i + 1, s.len() as int), sep)
    }
}

/// Every character is a decimal digit.
pub open spec fn spec_all_digits(s: Seq<u8>) -> bool {
    forall|i: int| 0 <= i < s.len() ==> 48 <= #[trigger] s[i] <= 57
}

/// The number the digit string denotes.
pub open spec fn spec_digits_val(s: Seq<u8>) -> int
    decreases s.len(),
{
    if s.len() == 0 {
        0
    } else {
        spec_digits_val(s.drop_last()) * 10 + (s.last() - 48)
    }
}

/// The number a counter field denotes: only non-empty all-digit fields
/// whose value fits the machine are accepted.
pub open spec fn spec_parse_usize(s: Seq<u8>) -> Option<int> {
    if s.len() > 0 && spec_all_digits(s) && spec_digits_val(s) <= usize::MAX {
        Some(spec_digits_val(s))
    } else {
        None
    }
}

/// The piece a placement character stands for: uppercase for White,
/// lowercase for Black, never yet moved.
pub open spec fn spec_char_piece(c: u8) -> Option<Piece> {
    if c == 80 {  // P
        Some(spec_new_piece(Color::White, PieceType::Pawn))
    } else if c == 78 {  // N
        Some(spec_new_piece(Color::White, PieceType::Knight))
    } else if c == 66 {  // B
        Some(spec_new_piece(Color::White, PieceType::Bishop))
    } else if c == 82 {  // R
        Some(spec_new_piece(Color::White, PieceType::Rook))
    } else if c == 81 {  // Q
        Some(spec_new_piece(Color::White, PieceType::Queen))
    } else if c == 75 {  // K
        Some(spec_new_piece(Color::White, PieceType::King))
    } else if c == 112 {  // p
        Some(spec_new_piece(Color::Black, PieceType::Pawn))
    } else if c == 110 {  // n
        Some(spec_new_piece(Color::Black, PieceType::Knight))
    } else if c == 98 {  // b
        Some(spec_new_piece(Color::Black, PieceType::Bishop))
    } else if c == 114 {  // r
        Some(spec_new_piece(Color::Black, PieceType::Rook))
    } else if c == 113 {  // q
        Some(spec_new_piece(Color::Black, PieceType::Queen))
    } else if c == 107 {  // k
        Some(spec_new_piece(Color::Black, PieceType::King))
    } else {
        None
    }
}

/// A piece fresh from the starting description.
pub open spec fn spec_new_piece(color: Color, typ: PieceType) -> Piece {
    Piece { color, typ, most_recent_move: None }
}

/// Walking the placement field from character `i` with the scan at
/// `(rank, file)` (rank 0 is the top line of the string, which is the
/// board's 8th rank): `/` opens the next line, a digit skips files, a piece
/// letter lands on the square if it is on the grid.
pub open spec fn spec_place(
    squares: Seq<Option<Piece>>,
    field: Seq<u8>,
    i: int,
    rank: int,
    file: int,
) -> Result<Seq<Option<Piece>>, FenError>
    decreases field.len() - i,
{
    if i < 0 || i >= field.len() {
        Ok(squares)
    } else {
        let c = field[i];
        if c == 47 {  // '/'
            spec_place(squares, field, i + 1, rank + 1, 0)
        } else if 48 <= c <= 57 {  // digit
            spec_place(squares, field, i + 1, rank, file + (c - 48))
        } else {
            match spec_char_piece(c) {
                Some(p) => if 0 <= rank <= 7 && 0 <= file <= 7 {
                    spec_place(
                        squares.update((7 - rank) * 8 + file, Some(p)),
                        field,
                        i + 1,
                        rank,
                        file + 1,
                    )
                } else {
                    Err(FenError::Placement)
                },
                None => Err(FenError::UnknownPiece),
            }
        }
    }
}

/// An empty 64-square grid.
pub open spec fn spec_empty_squares() -> Seq<Option<Piece>> {
    Seq::new(64, |i: int| None::<Piece>)
}

/// The whole parse: six space-separated fields; the active color and the
/// two counters fix the ply and the last pawn move; the placement field
/// fills the grid. Errors are reported in the order the fields are read.
pub open spec fn spec_parse_fen(s: Seq<u8>) -> Result<BoardView, FenError> {
    let parts = spec_split(s, 32);
    if parts.len() != 6 {
        Err(FenError::FieldCount)
    } else if parts[1] != seq![119u8] && parts[1] != seq![98u8] {  // "w" / "b"
        Err(FenError::Active)
    } else {
        let active: int = if parts[1] == seq![119u8] {
            0
        } else {
            1
        };
        match spec_parse_usize(parts[4]) {
            None => Err(FenError::Halfmoves),
            Some(half) => match spec_parse_usize(parts[5]) {
                None => Err(FenError::Fullmoves),
                Some(full) => if full < 1 || (full - 1) * 2 + active > usize::MAX {
                    Err(FenError::Fullmoves)
                } else {
                    let ply = (full - 1) * 2 + active;
                    if half > ply {
                        Err(FenError::Counters)
                    } else {
                        match spec_place(spec_empty_squares(), parts[0], 0, 0, 0) {
                            Err(e) => Err(e),
                            Ok(squares) => Ok(
                                BoardView {
                                    squares,
                                    ply,
                                    last_pawn_move: ply - half,
                                    last_move: None,
                                },
                            ),
                        }
                    }
                },
            },
        }
    }
}

/// The piece kind on the back rank at a file, from the rook's corner.
pub open spec fn spec_back_type(file: int) -> PieceType {
    if file == 0 || file == 7 {
        PieceType::Rook
    } else if file == 1 || file == 6 {
        PieceType::Knight
    } else if file == 2 || file == 5 {
        PieceType::Bishop
    } else if file == 3 {
        PieceType::Queen
    } else {
        PieceType::King
    }
}

/// The occupant of a square in the standard initial arrangement.
pub open spec fn spec_start_square(i: int) -> Option<Piece> {
    let rank = i / 8;
    let file = i % 8;
    if rank == 0 {
        Some(spec_new_piece(Color::White, spec_back_type(file)))
    } else if rank == 1 {
        Some(spec_new_piece(Color::White, PieceType::Pawn))
    } else if rank == 6 {
        Some(spec_new_piece(Color::Black, PieceType::Pawn))
    } else if rank == 7 {
        Some(spec_new_piece(Color::Black, spec_back_type(file)))
    } else {
        None
    }
}

/// The standard initial position: White to move at ply zero.
pub open spec fn spec_start_board() -> BoardView {
    BoardView {
        squares: Seq::new(64, |i: int| spec_start_square(i)),
        ply: 0,
        last_pawn_move: 0,
        last_move: None,
    }
}

/// Firsts come first: a hit at `i` with a clean prefix is the find result.
proof fn lemma_find_hit(s: Seq<u8>, c: u8, i: int)
    requires
        0 <= i < s.len(),
        s[i] == c,
        forall|j: int| 0 <= j < i ==> s[j] != c,
    ensures
        spec_find(s, c) == i,
    decreases i,
{
    if i > 0 {
        lemma_find_hit(s.drop_first(), c, i - 1);
    }
}

/// Without any hit the find result is -1.
proof fn lemma_find_miss(s: Seq<u8>, c: u8)
    requires
        forall|j: int| 0 <= j < s.len() ==> s[j] != c,
    ensures
        spec_find(s, c) == -1,
    decreases s.len(),
{
    if s.len() > 0 {
        lemma_find_miss(s.drop_first(), c);
    }
}

/// The index of the first occurrence of `c` in `v`.
fn find_byte(v: &Vec<u8>, c: u8) -> (r: Option<usize>)
    ensures
        match r {
            Some(i) => i < v@.len() && spec_find(v@, c) == i,
            None => spec_find(v@, c) == -1,
        },
{
    let mut i: usize = 0;
    while i < v.len()
        invariant
            i <= v@.len(),
            forall|j: int| 0 <= j < i ==> v@[j] != c,
        decreases v@.len() - i,
    {
        if v[i] == c {
            proof {
                lemma_find_hit(v@, c, i as int);
            }
            return Some(i);
        }
        i = i + 1;
    }
    proof {
        lemma_find_miss(v@, c);
    }
    None
}

/// The bytes of `v` from `from` (inclusive) to `to` (exclusive).
fn sub_bytes(v: &Vec<u8>, from: usize, to: usize) -> (r: Vec<u8>)
    requires
        from <= to <= v@.len(),
    ensures
        r@ == v@.subrange(from as int, to as int),
{
    let mut out: Vec<u8> = Vec::new();
    let mut i: usize = from;
    while i < to
        invariant
            from <= i <= to <= v@.len(),
            out@ == v@.subrange(from as int, i as int),
        decreases to - i,
    {
        out.push(v[i]);
        proof {
            assert(out@ =~= v@.subrange(from as int, i + 1));
        }
        i = i + 1;
    }
    out
}

/// The views of a sequence of byte vectors.
pub open spec fn spec_byte_views(s: Seq<Vec<u8>>) -> Seq<Seq<u8>> {
    s.map_values(|v: Vec<u8>| v@)
}

/// Split `v` at every occurrence of the separator.
fn split_bytes(v: &Vec<u8>, sep: u8) -> (r: Vec<Vec<u8>>)
    ensures
        spec_byte_views(r@) == spec_split(v@, sep),
{
    let mut out: Vec<Vec<u8>> = Vec::new();
    let mut rest: Vec<u8> = sub_bytes(v, 0, v.len());
    proof {
        assert(rest@ =~= v@);
        assert(spec_byte_views(out@) + spec_split(rest@, sep) =~= spec_split(v@, sep));
    }
    loop
        invariant_except_break
            spec_byte_views(out@) + spec_split(rest@, sep) =~= spec_split(v@, sep),
        ensures
            spec_byte_views(out@) == spec_split(v@, sep),
        decreases rest@.len(),
    {
        let ghost out_prev = out@;
        let ghost rest_prev = rest@;
        match find_byte(&rest, sep) {
            Some(i) => {
                let len = rest.len();
                let tok = sub_bytes(&rest, 0, i);
                let next = sub_bytes(&rest, i + 1, len);
                out.push(tok);
                rest = next;
                proof {
                    assert(spec_split(rest_prev, sep) == seq![rest_prev.subrange(0, i as int)]
                        + spec_split(
                        rest_prev.subrange(i + 1, rest_prev.len() as int),
                        sep,
                    ));
                    assert(spec_byte_views(out@) =~= spec_byte_views(out_prev).push(tok@));
                    assert(spec_byte_views(out@) + spec_split(rest@, sep) =~= spec_byte_views(
                        out_prev,
                    ) + spec_split(rest_prev, sep));
                }
            },
            None => {
                let ghost tokv = rest@;
                out.push(rest);
                proof {
                    assert(spec_split(tokv, sep) == seq![tokv]);
                    assert(spec_byte_views(out@) =~= spec_byte_views(out_prev).push(tokv));
                    assert(spec_byte_views(out@) =~= spec_byte_views(out_prev) + spec_split(
                        tokv,
                        sep,
                    ));
                    assert(spec_byte_views(out@) =~= spec_split(v@, sep));
                }
                break ;
            },
        }
    }
    out
}

/// A digit string's value only grows as more digits are read.
proof fn lemma_digits_val_nonneg(s: Seq<u8>)
    requires
        spec_all_digits(s),
    ensures
        spec_digits_val(s) >= 0,
    decreases s.len(),
{
    if s.len() > 0 {
        assert(spec_all_digits(s.drop_last())) by {
            assert(forall|j: int|
                0 <= j < s.drop_last().len() ==> s.drop_last()[j] == #[trigger] s[j]);
        }
        lemma_digits_val_nonneg(s.drop_last());
    }
}

/// Any prefix of a digit string denotes at most the whole string's value.
proof fn lemma_digits_val_prefix(s: Seq<u8>, k: int)
    requires
        spec_all_digits(s),
        0 <= k <= s.len(),
    ensures
        spec_digits_val(s.take(k)) <= spec_digits_val(s),
    decreases s.len(),
{
    if k == s.len() {
        assert(s.take(k) =~= s);
    } else {
        let dl = s.drop_last();
        assert(spec_all_digits(dl)) by {
            assert(forall|j: int| 0 <= j < dl.len() ==> dl[j] == #[trigger] s[j]);
        }
        assert(s.take(k) =~= dl.take(k));
        lemma_digits_val_prefix(dl, k);
        lemma_digits_val_nonneg(dl);
    }
}

/// Parse a counter field: digits only, within the machine range.
fn parse_usize(v: &Vec<u8>) -> (r: Option<usize>)
    ensures
        match r {
            Some(n) => spec_parse_usize(v@) == Some(n as int),
            None => spec_parse_usize(v@) is None,
        },
{
    if v.len() == 0 {
        return None;
    }
    let mut acc: usize = 0;
    let mut i: usize = 0;
    while i < v.len()
        invariant
            i <= v@.len(),
            forall|j: int| 0 <= j < i ==> 48 <= #[trigger] v@[j] <= 57,
            acc == spec_digits_val(v@.take(i as int)),
        decreases v@.len() - i,
    {
        let c = v[i];
        if c < 48 || c > 57 {
            proof {
                assert(!spec_all_digits(v@));
            }
            return None;
        }
        let d = (c - 48) as usize;
        proof {
            assert(v@.take(i + 1).drop_last() =~= v@.take(i as int));
            assert(v@.take(i + 1).last() == v@[i as int]);
        }
        if acc > (usize::MAX - d) / 10 {
            proof {
                assert(spec_digits_val(v@.take(i + 1)) > usize::MAX);
                if spec_all_digits(v@) {
                    lemma_digits_val_prefix(v@, i + 1);
                }
            }
            return None;
        }
        acc = acc * 10 + d;
        i = i + 1;
    }
    proof {
        assert(v@.take(v@.len() as int) =~= v@);
    }
    Some(acc)
}

/// Whether a field is the single character `c`.
fn is_single(v: &Vec<u8>, c: u8) -> (r: bool)
    ensures
        r == (v@ == seq![c]),
{
    if v.len() == 1 && v[0] == c {
        proof {
            assert(v@ =~= seq![c]);
        }
        true
    } else {
        proof {
            if v@ == seq![c] {
                assert(v@.len() == 1);
            }
        }
        false
    }
}

/// The piece a placement character stands for.
fn char_piece(c: u8) -> (r: Option<Piece>)
    ensures
        r == spec_char_piece(c),
{
    let parsed: Option<(Color, PieceType)> = match c {
        80 => Some((Color::White, PieceType::Pawn)),
        78 => Some((Color::White, PieceType::Knight)),
        66 => Some((Color::White, PieceType::Bishop)),
        82 => Some((Color::White, PieceType::Rook)),
        81 => Some((Color::White, PieceType::Queen)),
        75 => Some((Color::White, PieceType::King)),
        112 => Some((Color::Black, PieceType::Pawn)),
        110 => Some((Color::Black, PieceType::Knight)),
        98 => Some((Color::Black, PieceType::Bishop)),
        114 => Some((Color::Black, PieceType::Rook)),
        113 => Some((Color::Black, PieceType::Queen)),
        107 => Some((Color::Black, PieceType::King)),
        _ => None,
    };
    match parsed {
        Some((color, typ)) => Some(Piece { color, typ, most_recent_move: None }),
        None => None,
    }
}

/// Parse a whole position string into a board.
fn parse_fen(bytes: &Vec<u8>) -> (r: Result<Board, FenError>)
    ensures
        match r {
            Ok(b) => b@.wf() && spec_parse_fen(bytes@) == Ok::<BoardView, FenError>(b@),
            Err(e) => spec_parse_fen(bytes@) == Err::<BoardView, FenError>(e),
        },
{
    let parts = split_bytes(bytes, 32);
    proof {
        assert(forall|j: int|
            0 <= j < parts@.len() ==> (#[trigger] parts@[j])@ == spec_byte_views(parts@)[j]);
    }
    if parts.len() != 6 {
        return Err(FenError::FieldCount);
    }
    let is_white = is_single(&parts[1], 119);
    let is_black = is_single(&parts[1], 98);
    if !is_white && !is_black {
        return Err(FenError::Active);
    }
    let active: usize = if is_white {
        0
    } else {
        1
    };
    let half = match parse_usize(&parts[4]) {
        Some(h) => h,
        None => {
            return Err(FenError::Halfmoves);
        },
    };
    let full = match parse_usize(&parts[5]) {
        Some(f) => f,
        None => {
            return Err(FenError::Fullmoves);
        },
    };
    if full < 1 {
        return Err(FenError::Fullmoves);
    }
    let fm1 = full - 1;
    if fm1 > (usize::MAX - active) / 2 {
        proof {
            assert(fm1 * 2 + active > usize::MAX);
        }
        return Err(FenError::Fullmoves);
    }
    let ply = fm1 * 2 + active;
    if half > ply {
        return Err(FenError::Counters);
    }
    proof {
        assert(spec_parse_fen(bytes@) == (match spec_place(
            spec_empty_squares(),
            spec_byte_views(parts@)[0],
            0,
            0,
            0,
        ) {
            Err(e) => Err::<BoardView, FenError>(e),
            Ok(squares) => Ok(
                BoardView {
                    squares,
                    ply: ply as int,
                    last_pawn_move: ply - half,
                    last_move: None,
                },
            ),
        })) by {
            assert(spec_byte_views(parts@)[1] == parts@[1]@);
            assert(spec_byte_views(parts@)[4] == parts@[4]@);
            assert(spec_byte_views(parts@)[5] == parts@[5]@);
        }
    }

    let mut squares: Vec<Option<Piece>> = Vec::new();
    let mut k: usize = 0;
    while k < 64
        invariant
            k <= 64,
            squares@.len() == k,
            forall|j: int| 0 <= j < k ==> squares@[j] is None,
        decreases 64 - k,
    {
        squares.push(None);
        k = k + 1;
    }
    proof {
        assert(squares@ =~= spec_empty_squares());
    }

    let field = &parts[0];
    let mut i: usize = 0;
    let mut rank: usize = 0;
    let mut file: usize = 0;
    let ghost mut g_rank: int = 0;
    let ghost mut g_file: int = 0;
    #[verifier::loop_isolation(false)]
    while i < field.len()
        invariant
            i <= field@.len(),
            squares@.len() == 64,
            rank <= 100,
            file <= 100,
            0 <= g_rank,
            0 <= g_file,
            rank == g_rank || (rank == 100 && g_rank >= 100),
            file == g_file || (file == 100 && g_file >= 100),
            spec_place(spec_empty_squares(), field@, 0, 0, 0) == spec_place(
                squares@,
                field@,
                i as int,
                g_rank,
                g_file,
            ),
        decreases field@.len() - i,
    {
        let c = field[i];
        if c == 47 {
            rank = if rank < 100 {
                rank + 1
            } else {
                100
            };
            file = 0;
            proof {
                g_rank = g_rank + 1;
                g_file = 0;
            }
        } else if 48 <= c && c <= 57 {
            let d = (c - 48) as usize;
            file = if file + d > 100 {
                100
            } else {
                file + d
            };
            proof {
                g_file = g_file + d;
            }
        } else {
            match char_piece(c) {
                Some(p) => {
                    if rank <= 7 && file <= 7 {
                        squares.set((7 - rank) * 8 + file, Some(p));
                        file = file + 1;
                        proof {
                            g_file = g_file + 1;
                        }
                    } else {
                        proof {
                            assert(field@ == spec_byte_views(parts@)[0]);
                            assert(spec_place(squares@, field@, i as int, g_rank, g_file) == Err::<
                                Seq<Option<Piece>>,
                                FenError,
                            >(FenError::Placement));
                        }
                        return Err(FenError::Placement);
                    }
                },
                None => {
                    proof {
                        assert(field@ == spec_byte_views(parts@)[0]);
                        assert(spec_place(squares@, field@, i as int, g_rank, g_file) == Err::<
                            Seq<Option<Piece>>,
                            FenError,
                        >(FenError::UnknownPiece));
                    }
                    return Err(FenError::UnknownPiece);
                },
            }
        }
        i = i + 1;
    }
    let board = Board { squares, ply, last_pawn_move: ply - half, last_move: None };
    proof {
        assert(spec_place(spec_empty_squares(), field@, 0, 0, 0) == Ok::<
            Seq<Option<Piece>>,
            FenError,
        >(board.squares@));
    }
    Ok(board)
}

/// The standard initial arrangement, directly constructed.
fn start_board() -> (b: Board)
    ensures
        b@ == spec_start_board(),
        b@.wf(),
{
    let mut squares: Vec<Option<Piece>> = Vec::new();
    let mut i: usize = 0;
    while i < 64
        invariant
            i <= 64,
            squares@.len() == i,
            forall|j: int| 0 <= j < i ==> squares@[j] == spec_start_square(j),
        decreases 64 - i,
    {
        let rank = i / 8;
        let file = i % 8;
        let sq: Option<Piece> = if rank == 0 || rank == 7 {
            let color = if rank == 0 {
                Color::White
            } else {
                Color::Black
            };
            let typ = if file == 0 || file == 7 {
                PieceType::Rook
            } else if file == 1 || file == 6 {
                PieceType::Knight
            } else if file == 2 || file == 5 {
                PieceType::Bishop
            } else if file == 3 {
                PieceType::Queen
            } else {
                PieceType::King
            };
            Some(Piece { color, typ, most_recent_move: None })
        } else if rank == 1 {
            Some(Piece { color: Color::White, typ: PieceType::Pawn, most_recent_move: None })
        } else if rank == 6 {
            Some(Piece { color: Color::Black, typ: PieceType::Pawn, most_recent_move: None })
        } else {
            None
        };
        squares.push(sq);
        i = i + 1;
    }
    let board = Board { squares, ply: 0, last_pawn_move: 0, last_move: None };
    proof {
        assert(board.squares@ =~= spec_start_board().squares);
    }
    board
}

impl Board {
    /// A board seeded from a position string, or the standard initial
    /// arrangement when none is given. A malformed string is fatal at
    /// construction: the error says which field was rejected.
    pub fn new(fen: Option<&str>) -> (r: Result<Board, FenError>)
        ensures
            match fen {
                Some(s) => match r {
                    Ok(b) => b@.wf() && spec_parse_fen(s.spec_bytes()) == Ok::<
                        BoardView,
                        FenError,
                    >(b@),
                    Err(e) => spec_parse_fen(s.spec_bytes()) == Err::<BoardView, FenError>(e),
                },
                None => r is Ok && r->Ok_0@ == spec_start_board() && r->Ok_0@.wf(),
            },
    {
        match fen {
            Some(s) => {
                let bytes = vstd::slice::slice_to_vec(s.as_bytes());
                parse_fen(&bytes)
            },
            None => Ok(start_board()),
        }
    }
}

} // verus!
