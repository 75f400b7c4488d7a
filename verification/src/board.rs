//! The board: a 64-square grid of optional occupants with turn and ply
//! bookkeeping, and the pure move-application transform.

use vstd::prelude::*;

use crate::pieces::{Color, Move, Piece, PieceType, SpecialMove};

verus! {

/// An index into the 64-square grid. `rank = idx / 8`, `file = idx % 8`.
#[derive(Debug, Clone, Copy, PartialEq, Eq, Structural)]
pub struct Position(pub usize);

impl Position {
    /// The index lies on the board.
    pub open spec fn wf(self) -> bool {
        self.0 < 64
    }

    pub open spec fn spec_rank(self) -> int {
        self.0 as int / 8
    }

    pub open spec fn spec_file(self) -> int {
        self.0 as int % 8
    }

    /// The position at the given rank and file.
    pub open spec fn spec_new(rank: int, file: int) -> Position {
        Position((rank * 8 + file) as usize)
    }

    pub fn new(rank: usize, file: usize) -> (r: Position)
        requires
            rank < 8,
            file < 8,
        ensures
            r == Position::spec_new(rank as int, file as int),
            r.wf(),
            r.spec_rank() == rank,
            r.spec_file() == file,
    {
        Position(rank * 8 + file)
    }

    pub fn from_index(idx: usize) -> (r: Position)
        requires
            idx < 64,
        ensures
            r == Position(idx),
            r.wf(),
    {
        Position(idx)
    }

    /// The square an algebraic pair names: a file letter `a`..`h` and a
    /// rank digit `1`..`8`, or nothing for any other bytes.
    pub open spec fn spec_from_algebraic(file: u8, rank: u8) -> Option<Position> {
        if 97 <= file <= 104 && 49 <= rank <= 56 {
            Some(Position(((rank - 49) * 8 + (file - 97)) as usize))
        } else {
            None
        }
    }

    pub fn from_algebraic(notation: &[u8; 2]) -> (r: Option<Position>)
        ensures
            r == Position::spec_from_algebraic(notation[0], notation[1]),
            r is Some ==> r->Some_0.wf(),
    {
        let file = notation[0];
        let rank = notation[1];
        if 97 <= file && file <= 104 && 49 <= rank && rank <= 56 {
            Some(Position(((rank - 49) as usize) * 8 + ((file - 97) as usize)))
        } else {
            None
        }
    }

    pub fn rank(&self) -> (r: usize)
        ensures
            r == self.spec_rank(),
    {
        self.0 / 8
    }

    /// The algebraic name of the square: its file letter, then its rank
    /// digit.
    pub open spec fn spec_name(self) -> Seq<char> {
        seq![spec_file_char(self.spec_file()), spec_rank_char(self.spec_rank())]
    }

    pub fn name(&self) -> (r: String)
        requires
            self.wf(),
        ensures
            r@ == self.spec_name(),
    {
        let mut out = String::new();
        out.append(file_str(self.file()));
        out.append(rank_str(self.rank()));
        proof {
            assert(out@ =~= self.spec_name());
        }
        out
    }

    pub fn file(&self) -> (r: usize)
        ensures
            r == self.spec_file(),
    {
        self.0 % 8
    }

    /// The position one step of `(file_offset, rank_offset)` away, or `None`
    /// if that step leaves the 8x8 grid.
    pub open spec fn spec_offset(self, file_offset: int, rank_offset: int) -> Option<Position> {
        let rank = self.spec_rank() + rank_offset;
        let file = self.spec_file() + file_offset;
        if 0 <= rank < 8 && 0 <= file < 8 {
            Some(Position::spec_new(rank, file))
        } else {
            None
        }
    }

    pub fn offset(&self, file_offset: i32, rank_offset: i32) -> (r: Option<Position>)
        requires
            self.wf(),
            -64 <= file_offset <= 64,
            -64 <= rank_offset <= 64,
        ensures
            r == self.spec_offset(file_offset as int, rank_offset as int),
            r is Some ==> r->Some_0.wf(),
    {
        let rank = self.rank() as i32 + rank_offset;
        let file = self.file() as i32 + file_offset;
        if rank < 0 || rank >= 8 {
            return None;
        }
        if file < 0 || file >= 8 {
            return None;
        }
        Some(Position::new(rank as usize, file as usize))
    }

    /// The positions reached by 1 to 7 repetitions of one directional step,
    /// keeping only those that stay on the board, nearest first: the first
    /// `k` entries of the full ray in that direction.
    pub open spec fn spec_ray_upto(self, file_offset: int, rank_offset: int, k: int) -> Seq<
        Position,
    >
        decreases k,
    {
        if k <= 0 {
            Seq::empty()
        } else {
            self.spec_ray_upto(file_offset, rank_offset, k - 1) + (match self.spec_offset(
                k * file_offset,
                k * rank_offset,
            ) {
                Some(q) => seq![q],
                None => Seq::empty(),
            })
        }
    }

    /// The whole ray: up to 7 steps in one direction.
    pub open spec fn spec_ray(self, file_offset: int, rank_offset: int) -> Seq<Position> {
        self.spec_ray_upto(file_offset, rank_offset, 7)
    }

    pub fn iterate_offset(&self, file_offset: i32, rank_offset: i32) -> (r: Vec<Position>)
        requires
            self.wf(),
            -8 <= file_offset <= 8,
            -8 <= rank_offset <= 8,
        ensures
            r@ == self.spec_ray(file_offset as int, rank_offset as int),
    {
        let mut out: Vec<Position> = Vec::new();
        let mut i: i32 = 1;
        while i < 8
            invariant
                1 <= i <= 8,
                self.wf(),
                -8 <= file_offset <= 8,
                -8 <= rank_offset <= 8,
                out@ == self.spec_ray_upto(file_offset as int, rank_offset as int, i - 1),
            decreases 8 - i,
        {
            proof {
                assert(-64 <= i * file_offset <= 64 && -64 <= i * rank_offset <= 64)
                    by (nonlinear_arith)
                    requires
                        1 <= i <= 8,
                        -8 <= file_offset <= 8,
                        -8 <= rank_offset <= 8,
                ;
            }
            match self.offset(i * file_offset, i * rank_offset) {
                Some(q) => out.push(q),
                None => (),
            }
            i = i + 1;
        }
        out
    }
}

/// The mathematical value of a [`Board`].
pub ghost struct BoardView {
    pub squares: Seq<Option<Piece>>,
    pub ply: int,
    pub last_pawn_move: int,
    pub last_move: Option<Move>,
}

impl BoardView {
    /// The grid has exactly 64 squares and the last pawn move lies in the past.
    pub open spec fn wf(self) -> bool {
        &&& self.squares.len() == 64
        &&& 0 <= self.last_pawn_move <= self.ply
    }

    /// The occupant of a square.
    pub open spec fn at(self, p: Position) -> Option<Piece> {
        self.squares[p.0 as int]
    }

    /// The side to move: White when the ply count is even.
    pub open spec fn turn(self) -> Color {
        if self.ply % 2 == 0 {
            Color::White
        } else {
            Color::Black
        }
    }
}

/// The board: 64 optional occupants, the current ply, the ply of the last
/// pawn move, and the last applied move.
#[derive(Debug)]
pub struct Board {
    pub squares: Vec<Option<Piece>>,
    pub ply: usize,
    pub last_pawn_move: usize,
    pub last_move: Option<Move>,
}

impl View for Board {
    type V = BoardView;

    open spec fn view(&self) -> BoardView {
        BoardView {
            squares: self.squares@,
            ply: self.ply as int,
            last_pawn_move: self.last_pawn_move as int,
            last_move: self.last_move,
        }
    }
}

impl Board {
    pub fn get(&self, pos: Position) -> (r: Option<Piece>)
        requires
            self@.wf(),
            pos.wf(),
        ensures
            r == self@.at(pos),
    {
        self.squares[pos.0]
    }

    /// Put an occupant on a square (or clear it), leaving the bookkeeping
    /// untouched.
    pub fn set_square(&mut self, pos: Position, occupant: Option<Piece>)
        requires
            old(self)@.wf(),
            pos.wf(),
        ensures
            final(self)@.squares == old(self)@.squares.update(pos.0 as int, occupant),
            final(self)@.ply == old(self)@.ply,
            final(self)@.last_pawn_move == old(self)@.last_pawn_move,
            final(self)@.last_move == old(self)@.last_move,
            final(self)@.wf(),
    {
        self.squares.set(pos.0, occupant);
    }

    pub fn current_turn(&self) -> (r: Color)
        ensures
            r == self@.turn(),
    {
        if self.ply % 2 == 0 {
            Color::White
        } else {
            Color::Black
        }
    }

    /// The human-readable printout of the board: files `a`-`h` across the
    /// top, ranks `1`-`8` down the side with Black on top, a glyph per
    /// occupant, and a marker on the two squares the last move touched.
    pub fn render(&self) -> (r: String)
        requires
            self@.wf(),
        ensures
            r@ == spec_render(self@),
    {
        let mut out = String::new();
        out.append(" ");
        proof {
            reveal_strlit(" ");
            reveal_strlit(">");
            reveal_strlit("\n");
            assert(out@ =~= spec_render_header_upto(0));
        }
        let mut file: usize = 0;
        while file < 8
            invariant
                file <= 8,
                out@ == spec_render_header_upto(file as int),
            decreases 8 - file,
        {
            out.append(" ");
            out.append(file_str(file));
            proof {
                assert(" "@ =~= seq![' ']) by {
                    reveal_strlit(" ");
                }
                assert(out@ =~= spec_render_header_upto(file + 1));
            }
            file = file + 1;
        }
        out.append("\n");
        proof {
            assert("\n"@ =~= seq!['\n']) by {
                reveal_strlit("\n");
            }
            assert(out@ =~= spec_render_header_upto(8) + seq!['\n']);
            assert(spec_render(self@) =~= spec_render_header_upto(8) + seq!['\n']
                + spec_render_rows_from(self@, 7));
        }
        let ghost head = out@;
        let mut row: usize = 0;
        while row < 8
            invariant
                row <= 8,
                self@.wf(),
                head == spec_render_header_upto(8) + seq!['\n'],
                head.len() <= out@.len(),
                out@.take(head.len() as int) == head,
                spec_render_rows_from(self@, 7) == out@.skip(head.len() as int)
                    + spec_render_rows_from(self@, 7 - row as int),
            decreases 8 - row,
        {
            let rank = 7 - row;
            let ghost row_start = out@;
            out.append(rank_str(rank));
            proof {
                assert(out@ =~= row_start + spec_render_row_upto(self@, rank as int, 0));
            }
            let mut file: usize = 0;
            while file < 8
                invariant
                    file <= 8,
                    rank < 8,
                    self@.wf(),
                    out@ == row_start + spec_render_row_upto(self@, rank as int, file as int),
                decreases 8 - file,
            {
                let pos = Position::new(rank, file);
                let touched = match self.last_move {
                    Some(mv) => mv.to.0 == pos.0 || mv.from.0 == pos.0,
                    None => false,
                };
                if touched {
                    out.append(">");
                } else {
                    out.append(" ");
                }
                proof {
                    assert(" "@ =~= seq![' ']) by {
                        reveal_strlit(" ");
                    }
                    assert(">"@ =~= seq!['>']) by {
                        reveal_strlit(">");
                    }
                }
                match self.get(pos) {
                    Some(piece) => out.append(glyph_str(&piece)),
                    None => out.append(" "),
                }
                proof {
                    assert(out@ =~= row_start + spec_render_row_upto(
                        self@,
                        rank as int,
                        file + 1,
                    ));
                }
                file = file + 1;
            }
            out.append("\n");
            proof {
                assert("\n"@ =~= seq!['\n']) by {
                    reveal_strlit("\n");
                }
                assert(out@ =~= row_start + (spec_render_row_upto(self@, rank as int, 8)
                    + seq!['\n']));
                assert(spec_render_rows_from(self@, rank as int) == spec_render_row_upto(
                    self@,
                    rank as int,
                    8,
                ) + seq!['\n'] + spec_render_rows_from(self@, rank as int - 1));
                assert(head.len() <= row_start.len());
                assert(out@.take(head.len() as int) =~= head);
                assert(out@.skip(head.len() as int) =~= row_start.skip(head.len() as int)
                    + (spec_render_row_upto(self@, rank as int, 8) + seq!['\n']));
                assert(spec_render_rows_from(self@, 7) =~= out@.skip(head.len() as int)
                    + spec_render_rows_from(self@, 7 - (row + 1)));
            }
            row = row + 1;
        }
        proof {
            assert(spec_render_rows_from(self@, -1) =~= Seq::<char>::empty());
            assert(out@ =~= out@.take(head.len() as int) + out@.skip(head.len() as int));
            assert(out@ =~= spec_render(self@));
        }
        out
    }

    /// Whether two boards carry exactly the same state: occupancy, ply,
    /// last pawn move and last move.
    pub fn equals(&self, other: &Board) -> (r: bool)
        ensures
            r == (self@ == other@),
    {
        if self.ply != other.ply || self.last_pawn_move != other.last_pawn_move {
            proof {
                assert(self@ != other@);
            }
            return false;
        }
        let lm_same = match (self.last_move, other.last_move) {
            (None, None) => true,
            (Some(a), Some(b)) => moves_equal(&a, &b),
            _ => false,
        };
        if !lm_same {
            proof {
                assert(self@.last_move != other@.last_move);
            }
            return false;
        }
        if self.squares.len() != other.squares.len() {
            proof {
                assert(self@.squares.len() != other@.squares.len());
            }
            return false;
        }
        let mut i: usize = 0;
        while i < self.squares.len()
            invariant
                i <= self.squares@.len(),
                self.squares@.len() == other.squares@.len(),
                forall|j: int| 0 <= j < i ==> self.squares@[j] == other.squares@[j],
            decreases self.squares@.len() - i,
        {
            let same = match (self.squares[i], other.squares[i]) {
                (None, None) => true,
                (Some(p), Some(q)) => p.color == q.color && p.typ == q.typ && p.most_recent_move
                    == q.most_recent_move,
                _ => false,
            };
            if !same {
                proof {
                    assert(self@.squares[i as int] != other@.squares[i as int]);
                }
                return false;
            }
            i = i + 1;
        }
        proof {
            assert(self@.squares =~= other@.squares);
        }
        true
    }

    /// A fresh board with the same value; boards are snapshots, never shared.
    pub fn duplicate(&self) -> (r: Board)
        ensures
            r@ == self@,
    {
        Board {
            squares: copy_squares(&self.squares),
            ply: self.ply,
            last_pawn_move: self.last_pawn_move,
            last_move: self.last_move,
        }
    }

    /// The candidate moves of the occupant of a square, absent when the
    /// square is empty.
    pub fn get_moves(&self, position: &Position) -> (r: Option<Vec<Move>>)
        requires
            self@.wf(),
            position.wf(),
        ensures
            match r {
                None => self@.at(*position) is None,
                Some(ms) => self@.at(*position) is Some && ms@
                    == crate::pieces::spec_piece_moves(
                    self@,
                    *position,
                    self@.at(*position)->Some_0,
                ) && crate::pieces::spec_moves_wf(ms@),
            },
    {
        match self.get(*position) {
            Some(p) => Some(p.get_moves(self, position)),
            None => None,
        }
    }

    pub fn is_occupied_by(&self, pos: Position, color: Option<Color>, typ: Option<PieceType>) -> (r:
        bool)
        requires
            self@.wf(),
            pos.wf(),
        ensures
            r == spec_occupied_by(self@, pos, color, typ),
    {
        match self.get(pos) {
            None => false,
            Some(p) => {
                let color_ok = match color {
                    Some(c) => p.color == c,
                    None => true,
                };
                let typ_ok = match typ {
                    Some(t) => p.typ == t,
                    None => true,
                };
                color_ok && typ_ok
            },
        }
    }

    pub fn count_pieces(&self) -> (r: (u8, u8))
        requires
            self@.wf(),
        ensures
            r.0 == spec_count_color(self@.squares, Color::White, 64),
            r.1 == spec_count_color(self@.squares, Color::Black, 64),
    {
        let mut white: u8 = 0;
        let mut black: u8 = 0;
        let mut i: usize = 0;
        while i < 64
            invariant
                i <= 64,
                self@.wf(),
                white == spec_count_color(self@.squares, Color::White, i as int),
                black == spec_count_color(self@.squares, Color::Black, i as int),
            decreases 64 - i,
        {
            proof {
                lemma_count_color_bound(self@.squares, Color::White, i as int);
                lemma_count_color_bound(self@.squares, Color::Black, i as int);
            }
            match self.squares[i] {
                Some(p) => {
                    match p.color {
                        Color::White => { white = white + 1 },
                        Color::Black => { black = black + 1 },
                    }
                },
                None => (),
            }
            i = i + 1;
        }
        (white, black)
    }

    pub fn get_pieces(&self, color: Color) -> (r: Vec<(Position, Piece)>)
        requires
            self@.wf(),
        ensures
            r@ == spec_pieces_upto(self@, color, 64),
    {
        let mut out: Vec<(Position, Piece)> = Vec::new();
        let mut i: usize = 0;
        while i < 64
            invariant
                i <= 64,
                self@.wf(),
                out@ == spec_pieces_upto(self@, color, i as int),
            decreases 64 - i,
        {
            match self.squares[i] {
                Some(p) => {
                    if p.color == color {
                        out.push((Position(i), p));
                    }
                },
                None => (),
            }
            i = i + 1;
        }
        out
    }

    /// Apply a move, producing a fresh board; the receiver is untouched.
    /// An empty origin square leaves the occupancy unchanged, but the ply
    /// and the last-move record are still updated.
    pub fn apply(&self, mv: &Move) -> (r: Board)
        requires
            self@.wf(),
            mv.wf(),
            self@.ply + 1 <= usize::MAX,
        ensures
            r@ == spec_apply(self@, *mv),
            r@.wf(),
    {
        let mut squares = copy_squares(&self.squares);
        let mut last_pawn_move = self.last_pawn_move;
        match self.get(mv.from) {
            None => (),
            Some(p0) => {
                let piece = Piece {
                    color: p0.color,
                    typ: p0.typ,
                    most_recent_move: Some(self.ply),
                };
                squares.set(mv.to.0, Some(piece));
                squares.set(mv.from.0, None);
                if piece.typ == PieceType::Pawn {
                    last_pawn_move = self.ply;
                }
                match mv.special {
                    None => (),
                    Some(SpecialMove::Capture(_)) => (),
                    Some(SpecialMove::EnPassant(cap)) => {
                        squares.set(cap.0, None);
                    },
                    Some(SpecialMove::Promotion(new_typ)) => {
                        squares.set(
                            mv.to.0,
                            Some(
                                Piece {
                                    color: piece.color,
                                    typ: new_typ,
                                    most_recent_move: piece.most_recent_move,
                                },
                            ),
                        );
                    },
                    Some(SpecialMove::Castling(rook_from, rook_to)) => {
                        match squares[rook_from.0] {
                            Some(r0) => {
                                let rook = Piece {
                                    color: r0.color,
                                    typ: r0.typ,
                                    most_recent_move: Some(self.ply),
                                };
                                squares.set(rook_to.0, Some(rook));
                                squares.set(rook_from.0, None);
                            },
                            None => (),
                        }
                    },
                }
            },
        }
        Board { squares, ply: self.ply + 1, last_pawn_move, last_move: Some(*mv) }
    }
}

/// The square holds a piece that passes both optional filters.
pub open spec fn spec_occupied_by(
    v: BoardView,
    pos: Position,
    color: Option<Color>,
    typ: Option<PieceType>,
) -> bool {
    match v.at(pos) {
        None => false,
        Some(p) => {
            &&& match color {
                Some(c) => p.color == c,
                None => true,
            }
            &&& match typ {
                Some(t) => p.typ == t,
                None => true,
            }
        },
    }
}

/// How many of the first `k` squares hold a piece of the given color.
pub open spec fn spec_count_color(squares: Seq<Option<Piece>>, color: Color, k: int) -> int
    decreases k,
{
    if k <= 0 {
        0
    } else {
        spec_count_color(squares, color, k - 1) + (match squares[k - 1] {
            Some(p) => if p.color == color {
                1int
            } else {
                0int
            },
            None => 0int,
        })
    }
}

pub proof fn lemma_count_color_bound(squares: Seq<Option<Piece>>, color: Color, k: int)
    requires
        0 <= k,
    ensures
        0 <= spec_count_color(squares, color, k) <= k,
    decreases k,
{
    if k > 0 {
        lemma_count_color_bound(squares, color, k - 1);
    }
}

/// The pieces of one color among the first `k` squares, paired with their
/// positions, in increasing index order.
pub open spec fn spec_pieces_upto(v: BoardView, color: Color, k: int) -> Seq<(Position, Piece)>
    decreases k,
{
    if k <= 0 {
        Seq::empty()
    } else {
        spec_pieces_upto(v, color, k - 1) + (match v.squares[k - 1] {
            Some(p) => if p.color == color {
                seq![(Position((k - 1) as usize), p)]
            } else {
                Seq::empty()
            },
            None => Seq::empty(),
        })
    }
}

/// The pieces of one color, paired with their positions, in index order.
pub open spec fn spec_pieces(v: BoardView, color: Color) -> Seq<(Position, Piece)> {
    spec_pieces_upto(v, color, 64)
}

/// A piece list drawn from the first `k` squares has at most `k` entries,
/// and every entry names an on-board square holding that piece.
pub proof fn lemma_pieces_upto_props(v: BoardView, color: Color, k: int)
    requires
        0 <= k <= 64,
    ensures
        spec_pieces_upto(v, color, k).len() <= k,
        forall|j: int|
            0 <= j < spec_pieces_upto(v, color, k).len() ==> (#[trigger] spec_pieces_upto(
                v,
                color,
                k,
            )[j]).0.wf() && spec_pieces_upto(v, color, k)[j].1.color == color && v.at(
                spec_pieces_upto(v, color, k)[j].0,
            ) == Some(spec_pieces_upto(v, color, k)[j].1),
    decreases k,
{
    if k > 0 {
        lemma_pieces_upto_props(v, color, k - 1);
        let prev = spec_pieces_upto(v, color, k - 1);
        let cur = spec_pieces_upto(v, color, k);
        assert forall|j: int|
            0 <= j < cur.len() implies (#[trigger] cur[j]).0.wf() && cur[j].1.color == color
            && v.at(cur[j].0) == Some(cur[j].1) by {
            if j < prev.len() {
                assert(cur[j] == prev[j]);
            } else {
                assert(cur[j] == (Position((k - 1) as usize), v.squares[k - 1]->Some_0));
            }
        }
    }
}

/// The occupancy after a move: the moved piece is stamped with the current
/// ply and relocated, and the special payload is resolved.
pub open spec fn spec_apply_squares(v: BoardView, m: Move) -> Seq<Option<Piece>> {
    match v.at(m.from) {
        None => v.squares,
        Some(p0) => {
            let p = Piece {
                color: p0.color,
                typ: p0.typ,
                most_recent_move: Some(v.ply as usize),
            };
            let s1 = v.squares.update(m.to.0 as int, Some(p)).update(m.from.0 as int, None);
            match m.special {
                None => s1,
                Some(SpecialMove::Capture(_)) => s1,
                Some(SpecialMove::EnPassant(cap)) => s1.update(cap.0 as int, None),
                Some(SpecialMove::Promotion(t)) => s1.update(
                    m.to.0 as int,
                    Some(Piece { color: p.color, typ: t, most_recent_move: p.most_recent_move }),
                ),
                Some(SpecialMove::Castling(rf, rt)) => match s1[rf.0 as int] {
                    Some(r0) => s1.update(
                        rt.0 as int,
                        Some(
                            Piece {
                                color: r0.color,
                                typ: r0.typ,
                                most_recent_move: Some(v.ply as usize),
                            },
                        ),
                    ).update(rf.0 as int, None),
                    None => s1,
                },
            }
        },
    }
}

/// The ply of the last pawn move after a move is applied.
pub open spec fn spec_apply_last_pawn_move(v: BoardView, m: Move) -> int {
    match v.at(m.from) {
        Some(p) => if p.typ == PieceType::Pawn {
            v.ply
        } else {
            v.last_pawn_move
        },
        None => v.last_pawn_move,
    }
}

/// The whole successor state: new occupancy, ply one higher, and the move
/// recorded as the last move.
pub open spec fn spec_apply(v: BoardView, m: Move) -> BoardView {
    BoardView {
        squares: spec_apply_squares(v, m),
        ply: v.ply + 1,
        last_pawn_move: spec_apply_last_pawn_move(v, m),
        last_move: Some(m),
    }
}

/// The letter of a file, `a` through `h`.
pub open spec fn spec_file_char(file: int) -> char {
    if file == 0 {
        'a'
    } else if file == 1 {
        'b'
    } else if file == 2 {
        'c'
    } else if file == 3 {
        'd'
    } else if file == 4 {
        'e'
    } else if file == 5 {
        'f'
    } else if file == 6 {
        'g'
    } else {
        'h'
    }
}

/// The digit of a rank, `1` through `8`.
pub open spec fn spec_rank_char(rank: int) -> char {
    if rank == 0 {
        '1'
    } else if rank == 1 {
        '2'
    } else if rank == 2 {
        '3'
    } else if rank == 3 {
        '4'
    } else if rank == 4 {
        '5'
    } else if rank == 5 {
        '6'
    } else if rank == 6 {
        '7'
    } else {
        '8'
    }
}

/// The glyph of a piece.
pub open spec fn spec_glyph(p: Piece) -> char {
    match (p.color, p.typ) {
        (Color::White, PieceType::King) => '\u{2654}',
        (Color::White, PieceType::Queen) => '\u{2655}',
        (Color::White, PieceType::Rook) => '\u{2656}',
        (Color::White, PieceType::Bishop) => '\u{2657}',
        (Color::White, PieceType::Knight) => '\u{2658}',
        (Color::White, PieceType::Pawn) => '\u{2659}',
        (Color::Black, PieceType::King) => '\u{265A}',
        (Color::Black, PieceType::Queen) => '\u{265B}',
        (Color::Black, PieceType::Rook) => '\u{265C}',
        (Color::Black, PieceType::Knight) => '\u{265E}',
        (Color::Black, PieceType::Bishop) => '\u{265D}',
        (Color::Black, PieceType::Pawn) => '\u{265F}',
    }
}

/// The marker before a square: `>` on the two squares the last move
/// touched, a blank elsewhere.
pub open spec fn spec_square_marker(v: BoardView, pos: Position) -> char {
    match v.last_move {
        Some(mv) => if mv.to == pos || mv.from == pos {
            '>'
        } else {
            ' '
        },
        None => ' ',
    }
}

/// The two characters of one rendered square: its marker, then its
/// occupant's glyph or a blank.
pub open spec fn spec_render_square(v: BoardView, pos: Position) -> Seq<char> {
    seq![
        spec_square_marker(v, pos),
        match v.at(pos) {
            Some(p) => spec_glyph(p),
            None => ' ',
        },
    ]
}

/// The header line up to `k` file letters.
pub open spec fn spec_render_header_upto(k: int) -> Seq<char>
    decreases k,
{
    if k <= 0 {
        seq![' ']
    } else {
        spec_render_header_upto(k - 1) + seq![' ', spec_file_char(k - 1)]
    }
}

/// One rank's line up to `k` squares, starting with the rank digit.
pub open spec fn spec_render_row_upto(v: BoardView, rank: int, k: int) -> Seq<char>
    decreases k,
{
    if k <= 0 {
        seq![spec_rank_char(rank)]
    } else {
        spec_render_row_upto(v, rank, k - 1) + spec_render_square(
            v,
            Position::spec_new(rank, k - 1),
        )
    }
}

/// The lines of the given rank and the ranks below it, each closed by a
/// line break, from the top of the printout down.
pub open spec fn spec_render_rows_from(v: BoardView, rank: int) -> Seq<char>
    decreases rank + 1,
{
    if rank < 0 {
        Seq::empty()
    } else {
        spec_render_row_upto(v, rank, 8) + seq!['\n'] + spec_render_rows_from(v, rank - 1)
    }
}

/// The whole printout: the file letters, then the eight ranks with Black's
/// side on top.
pub open spec fn spec_render(v: BoardView) -> Seq<char> {
    spec_render_header_upto(8) + seq!['\n'] + spec_render_rows_from(v, 7)
}

/// The letter of a file as a one-character string.
pub(crate) fn file_str(file: usize) -> (r: &'static str)
    requires
        file < 8,
    ensures
        r@ == seq![spec_file_char(file as int)],
{
    proof {
        reveal_strlit("a");
        reveal_strlit("b");
        reveal_strlit("c");
        reveal_strlit("d");
        reveal_strlit("e");
        reveal_strlit("f");
        reveal_strlit("g");
        reveal_strlit("h");
    }
    let r = match file {
        0 => "a",
        1 => "b",
        2 => "c",
        3 => "d",
        4 => "e",
        5 => "f",
        6 => "g",
        _ => "h",
    };
    proof {
        assert(r@ =~= seq![spec_file_char(file as int)]);
    }
    r
}

/// The digit of a rank as a one-character string.
pub(crate) fn rank_str(rank: usize) -> (r: &'static str)
    requires
        rank < 8,
    ensures
        r@ == seq![spec_rank_char(rank as int)],
{
    proof {
        reveal_strlit("1");
        reveal_strlit("2");
        reveal_strlit("3");
        reveal_strlit("4");
        reveal_strlit("5");
        reveal_strlit("6");
        reveal_strlit("7");
        reveal_strlit("8");
    }
    let r = match rank {
        0 => "1",
        1 => "2",
        2 => "3",
        3 => "4",
        4 => "5",
        5 => "6",
        6 => "7",
        _ => "8",
    };
    proof {
        assert(r@ =~= seq![spec_rank_char(rank as int)]);
    }
    r
}

/// The glyph of a piece as a one-character string.
fn glyph_str(p: &Piece) -> (r: &'static str)
    ensures
        r@ == seq![spec_glyph(*p)],
{
    proof {
        reveal_strlit("\u{2654}");
        reveal_strlit("\u{2655}");
        reveal_strlit("\u{2656}");
        reveal_strlit("\u{2657}");
        reveal_strlit("\u{2658}");
        reveal_strlit("\u{2659}");
        reveal_strlit("\u{265A}");
        reveal_strlit("\u{265B}");
        reveal_strlit("\u{265C}");
        reveal_strlit("\u{265D}");
        reveal_strlit("\u{265E}");
        reveal_strlit("\u{265F}");
    }
    let r = match (p.color, p.typ) {
        (Color::White, PieceType::King) => "\u{2654}",
        (Color::White, PieceType::Queen) => "\u{2655}",
        (Color::White, PieceType::Rook) => "\u{2656}",
        (Color::White, PieceType::Bishop) => "\u{2657}",
        (Color::White, PieceType::Knight) => "\u{2658}",
        (Color::White, PieceType::Pawn) => "\u{2659}",
        (Color::Black, PieceType::King) => "\u{265A}",
        (Color::Black, PieceType::Queen) => "\u{265B}",
        (Color::Black, PieceType::Rook) => "\u{265C}",
        (Color::Black, PieceType::Knight) => "\u{265E}",
        (Color::Black, PieceType::Bishop) => "\u{265D}",
        (Color::Black, PieceType::Pawn) => "\u{265F}",
    };
    proof {
        assert(r@ =~= seq![spec_glyph(*p)]);
    }
    r
}

/// Whether two moves name the same squares and carry the same payload.
pub fn moves_equal(a: &Move, b: &Move) -> (r: bool)
    ensures
        r == (*a == *b),
{
    if a.from.0 != b.from.0 || a.to.0 != b.to.0 {
        return false;
    }
    match (a.special, b.special) {
        (None, None) => true,
        (Some(SpecialMove::Capture(t1)), Some(SpecialMove::Capture(t2))) => t1 == t2,
        (Some(SpecialMove::EnPassant(p1)), Some(SpecialMove::EnPassant(p2))) => p1.0 == p2.0,
        (Some(SpecialMove::Promotion(t1)), Some(SpecialMove::Promotion(t2))) => t1 == t2,
        (Some(SpecialMove::Castling(f1, t1)), Some(SpecialMove::Castling(f2, t2))) => f1.0 == f2.0
            && t1.0 == t2.0,
        _ => false,
    }
}

/// An element-by-element copy of the occupancy grid.
fn copy_squares(v: &Vec<Option<Piece>>) -> (r: Vec<Option<Piece>>)
    ensures
        r@ == v@,
{
    let mut out: Vec<Option<Piece>> = Vec::new();
    let mut i: usize = 0;
    while i < v.len()
        invariant
            i <= v.len(),
            out@ == v@.subrange(0, i as int),
        decreases v.len() - i,
    {
        out.push(v[i]);
        i = i + 1;
    }
    proof {
        assert(out@ =~= v@);
    }
    out
}

} // verus!
