//! The piece and move data model.

use vstd::prelude::*;

use crate::board::{Board, BoardView, Position};

verus! {

/// The two sides of the game.
#[derive(Debug, Copy, Clone, PartialEq, Eq, Structural)]
pub enum Color {
    White,
    Black,
}

impl Color {
    /// The side this one plays against.
    pub open spec fn spec_opposite(self) -> Color {
        match self {
            Color::White => Color::Black,
            Color::Black => Color::White,
        }
    }

    pub fn opposite(self) -> (r: Color)
        ensures
            r == self.spec_opposite(),
    {
        match self {
            Color::White => Color::Black,
            Color::Black => Color::White,
        }
    }
}

/// The six kinds of piece.
#[derive(Debug, Copy, Clone, PartialEq, Eq, Structural)]
pub enum PieceType {
    Pawn,
    Bishop,
    Knight,
    Rook,
    Queen,
    King,
}

/// A piece on the board. `most_recent_move` holds the ply at which the piece
/// last moved, and is `None` until it first moves; it backs the "never moved"
/// test for castling and the "just double-stepped" test for en passant.
#[derive(Debug, Copy, Clone, PartialEq, Eq)]
pub struct Piece {
    pub color: Color,
    pub typ: PieceType,
    pub most_recent_move: Option<usize>,
}

/// The extra effect a move carries beyond relocating the moved piece.
#[derive(Debug, Copy, Clone, PartialEq, Eq)]
pub enum SpecialMove {
    /// The destination square held a piece of this kind.
    Capture(PieceType),
    /// The position of the pawn that is captured in passing.
    EnPassant(Position),
    /// The kind of piece the pawn is promoted to.
    Promotion(PieceType),
    /// Start and end position of the rook that accompanies the king.
    Castling(Position, Position),
}

impl SpecialMove {
    /// Every position the special payload names lies on the board.
    pub open spec fn wf(self) -> bool {
        match self {
            SpecialMove::Capture(_) => true,
            SpecialMove::EnPassant(p) => p.wf(),
            SpecialMove::Promotion(_) => true,
            SpecialMove::Castling(rf, rt) => rf.wf() && rt.wf(),
        }
    }
}

/// A move of one piece from one square to another.
#[derive(Debug, Copy, Clone, PartialEq, Eq)]
pub struct Move {
    pub from: Position,
    pub to: Position,
    pub special: Option<SpecialMove>,
}

impl Move {
    /// Every position the move names lies on the board.
    pub open spec fn wf(self) -> bool {
        &&& self.from.wf()
        &&& self.to.wf()
        &&& match self.special {
            Some(s) => s.wf(),
            None => true,
        }
    }

    /// The move written as its two square names, arrow between them.
    pub open spec fn spec_name(self) -> Seq<char> {
        self.from.spec_name() + seq![' ', '-', '>', ' '] + self.to.spec_name()
    }

    pub fn name(&self) -> (r: String)
        requires
            self.wf(),
        ensures
            r@ == self.spec_name(),
    {
        let mut out = self.from.name();
        out.append(" -> ");
        let to = self.to.name();
        out.append(to.as_str());
        proof {
            assert(" -> "@ =~= seq![' ', '-', '>', ' ']) by {
                reveal_strlit(" -> ");
            }
            assert(out@ =~= self.spec_name());
        }
        out
    }
}

/// The capture payload for a destination: the occupant's kind, if any.
pub open spec fn spec_capture(v: BoardView, pos: Position) -> Option<SpecialMove> {
    match v.at(pos) {
        Some(p) => Some(SpecialMove::Capture(p.typ)),
        None => None,
    }
}

/// A plain move to a target square, carrying the capture payload.
pub open spec fn spec_move_to(v: BoardView, from: Position, to: Position) -> Move {
    Move { from, to, special: spec_capture(v, to) }
}

/// The rank a pawn of this color steps toward.
pub open spec fn spec_pawn_dir(c: Color) -> int {
    match c {
        Color::White => 1,
        Color::Black => -1,
    }
}

/// The rank (0-indexed) from which a pawn of this color may capture en
/// passant: the 5th rank for White, the 3rd for Black.
pub open spec fn spec_enpassant_rank(c: Color) -> int {
    match c {
        Color::White => 4,
        Color::Black => 2,
    }
}

/// The destination squares of a pawn's ordinary moves: one step forward onto
/// an empty square, a double step from the unmoved state when both squares
/// are empty, and the two diagonal captures onto enemy-occupied squares.
pub open spec fn spec_pawn_targets(v: BoardView, pawn: Position, pc: Piece) -> Seq<Position> {
    spec_pawn_forward(v, pawn, pc) + spec_pawn_capture_target(v, pawn, pc, -1)
        + spec_pawn_capture_target(v, pawn, pc, 1)
}

/// The forward destinations alone: the single step onto an empty square,
/// and the double step while the pawn has never moved and both squares
/// ahead are empty.
pub open spec fn spec_pawn_forward(v: BoardView, pawn: Position, pc: Piece) -> Seq<Position> {
    let up = spec_pawn_dir(pc.color);
    match pawn.spec_offset(0, up) {
        Some(one) => if v.at(one) is None {
            seq![one] + (match pawn.spec_offset(0, 2 * up) {
                Some(two) => if pc.most_recent_move is None && v.at(two) is None {
                    seq![two]
                } else {
                    Seq::empty()
                },
                None => Seq::empty(),
            })
        } else {
            Seq::empty()
        },
        None => Seq::empty(),
    }
}

/// The diagonal capture square on one side, when it holds an enemy piece.
pub open spec fn spec_pawn_capture_target(
    v: BoardView,
    pawn: Position,
    pc: Piece,
    side: int,
) -> Seq<Position> {
    match pawn.spec_offset(side, spec_pawn_dir(pc.color)) {
        Some(q) => match v.at(q) {
            Some(p) => if p.color == pc.color.spec_opposite() {
                seq![q]
            } else {
                Seq::empty()
            },
            None => Seq::empty(),
        },
        None => Seq::empty(),
    }
}

/// A pawn move to a target: a promotion to a queen when the target lies on
/// the farthest rank, otherwise an ordinary move with its capture payload.
pub open spec fn spec_pawn_move(v: BoardView, from: Position, to: Position) -> Move {
    if to.spec_rank() == 7 || to.spec_rank() == 0 {
        Move { from, to, special: Some(SpecialMove::Promotion(PieceType::Queen)) }
    } else {
        spec_move_to(v, from, to)
    }
}

/// The en-passant capture toward one side, offered only when the pawn stands
/// on its color's en-passant rank, the adjacent square on that side holds an
/// enemy pawn that double-stepped on the previous ply, and the square
/// diagonally behind that pawn is empty.
pub open spec fn spec_enpassant_move(v: BoardView, pawn: Position, pc: Piece, side: int) -> Seq<
    Move,
> {
    let up = spec_pawn_dir(pc.color);
    if pawn.spec_rank() == spec_enpassant_rank(pc.color) {
        match pawn.spec_offset(side, 0) {
            Some(beside) => match v.at(beside) {
                Some(p) => if p.color == pc.color.spec_opposite() && p.typ == PieceType::Pawn
                    && (match p.most_recent_move {
                    Some(m) => m + 1 == v.ply,
                    None => false,
                }) {
                    match pawn.spec_offset(side, up) {
                        Some(to) => if v.at(to) is None {
                            seq![Move { from: pawn, to, special: Some(SpecialMove::EnPassant(beside)) }]
                        } else {
                            Seq::empty()
                        },
                        None => Seq::empty(),
                    }
                } else {
                    Seq::empty()
                },
                None => Seq::empty(),
            },
            None => Seq::empty(),
        }
    } else {
        Seq::empty()
    }
}

/// All moves of a pawn: the ordinary targets mapped to moves (with promotion
/// on the farthest rank), then the two en-passant candidates.
pub open spec fn spec_pawn_moves(v: BoardView, pawn: Position, pc: Piece) -> Seq<Move> {
    spec_pawn_targets(v, pawn, pc).map_values(|t: Position| spec_pawn_move(v, pawn, t))
        + spec_enpassant_move(v, pawn, pc, -1) + spec_enpassant_move(v, pawn, pc, 1)
}

/// A single jump candidate: the stepped-to square when it lies on the board
/// and is not occupied by a friendly piece.
pub open spec fn spec_jump_candidate(
    v: BoardView,
    from: Position,
    me: Color,
    df: int,
    dr: int,
) -> Seq<Move> {
    match from.spec_offset(df, dr) {
        Some(q) => match v.at(q) {
            Some(p) => if p.color == me {
                Seq::empty()
            } else {
                seq![spec_move_to(v, from, q)]
            },
            None => seq![spec_move_to(v, from, q)],
        },
        None => Seq::empty(),
    }
}

/// The eight knight jumps, in a fixed order.
pub open spec fn spec_knight_moves(v: BoardView, from: Position, me: Color) -> Seq<Move> {
    spec_jump_candidate(v, from, me, 2, 1) + spec_jump_candidate(v, from, me, -2, 1)
        + spec_jump_candidate(v, from, me, 1, 2) + spec_jump_candidate(v, from, me, 1, -2)
        + spec_jump_candidate(v, from, me, -2, -1) + spec_jump_candidate(v, from, me, 2, -1)
        + spec_jump_candidate(v, from, me, -1, 2) + spec_jump_candidate(v, from, me, -1, -2)
}

/// The eight king steps, in a fixed order.
pub open spec fn spec_king_steps(v: BoardView, from: Position, me: Color) -> Seq<Move> {
    spec_jump_candidate(v, from, me, 1, 0) + spec_jump_candidate(v, from, me, -1, 0)
        + spec_jump_candidate(v, from, me, 0, 1) + spec_jump_candidate(v, from, me, 0, -1)
        + spec_jump_candidate(v, from, me, 1, 1) + spec_jump_candidate(v, from, me, 1, -1)
        + spec_jump_candidate(v, from, me, -1, -1) + spec_jump_candidate(v, from, me, -1, 1)
}

/// The prefix of a ray a slider may reach: every empty square up to the
/// first occupied one, which is included exactly when it holds an enemy.
pub open spec fn spec_slide_targets(v: BoardView, ray: Seq<Position>, me: Color) -> Seq<Position>
    decreases ray.len(),
{
    if ray.len() == 0 {
        Seq::empty()
    } else {
        match v.at(ray[0]) {
            None => seq![ray[0]] + spec_slide_targets(v, ray.drop_first(), me),
            Some(p) => if p.color == me {
                Seq::empty()
            } else {
                seq![ray[0]]
            },
        }
    }
}

/// The moves of a slider along one direction.
pub open spec fn spec_slide_dir(v: BoardView, from: Position, me: Color, df: int, dr: int) -> Seq<
    Move,
> {
    spec_slide_targets(v, from.spec_ray(df, dr), me).map_values(
        |t: Position| spec_move_to(v, from, t),
    )
}

/// The moves of a slider over a direction set, direction by direction.
pub open spec fn spec_slide_all(
    v: BoardView,
    from: Position,
    me: Color,
    dirs: Seq<(i32, i32)>,
) -> Seq<Move>
    decreases dirs.len(),
{
    if dirs.len() == 0 {
        Seq::empty()
    } else {
        spec_slide_dir(v, from, me, dirs[0].0 as int, dirs[0].1 as int) + spec_slide_all(
            v,
            from,
            me,
            dirs.drop_first(),
        )
    }
}

/// The four diagonal directions, in the order a bishop scans them.
pub open spec fn spec_diagonals() -> Seq<(i32, i32)> {
    seq![(1i32, 1i32), (1i32, -1i32), (-1i32, -1i32), (-1i32, 1i32)]
}

/// The four orthogonal directions, in the order a rook scans them.
pub open spec fn spec_straights() -> Seq<(i32, i32)> {
    seq![(1i32, 0i32), (-1i32, 0i32), (0i32, 1i32), (0i32, -1i32)]
}

/// All eight directions, in the order a queen or king scans them.
pub open spec fn spec_all_directions() -> Seq<(i32, i32)> {
    seq![
        (1i32, 0i32),
        (-1i32, 0i32),
        (0i32, 1i32),
        (0i32, -1i32),
        (1i32, 1i32),
        (1i32, -1i32),
        (-1i32, -1i32),
        (-1i32, 1i32),
    ]
}

/// The rook that answers a castling scan along one ray: the first occupied
/// square must hold a rook that has never moved.
pub open spec fn spec_castle_rook(v: BoardView, ray: Seq<Position>) -> Option<Position>
    decreases ray.len(),
{
    if ray.len() == 0 {
        None
    } else {
        match v.at(ray[0]) {
            None => spec_castle_rook(v, ray.drop_first()),
            Some(p) => if p.typ == PieceType::Rook && p.most_recent_move is None {
                Some(ray[0])
            } else {
                None
            },
        }
    }
}

/// The castling move toward one side, when the scan finds an unmoved rook
/// and the king's two-step destination lies on the board.
pub open spec fn spec_castle_move(v: BoardView, king: Position, dir: int) -> Seq<Move> {
    match spec_castle_rook(v, king.spec_ray(dir, 0)) {
        Some(rook) => match king.spec_offset(2 * dir, 0) {
            Some(to) => match king.spec_offset(dir, 0) {
                Some(rook_to) => seq![
                    Move { from: king, to, special: Some(SpecialMove::Castling(rook, rook_to)) },
                ],
                None => Seq::empty(),
            },
            None => Seq::empty(),
        },
        None => Seq::empty(),
    }
}

/// All moves of a king: the eight steps, then castling toward each side
/// while the king has never moved.
pub open spec fn spec_king_moves(v: BoardView, king: Position, pc: Piece) -> Seq<Move> {
    spec_king_steps(v, king, pc.color) + (if pc.most_recent_move is None {
        spec_castle_move(v, king, -1) + spec_castle_move(v, king, 1)
    } else {
        Seq::empty()
    })
}

/// The candidate moves of a piece standing at a position, by its kind.
pub open spec fn spec_piece_moves(v: BoardView, pos: Position, pc: Piece) -> Seq<Move> {
    match pc.typ {
        PieceType::Pawn => spec_pawn_moves(v, pos, pc),
        PieceType::Bishop => spec_slide_all(v, pos, pc.color, spec_diagonals()),
        PieceType::Knight => spec_knight_moves(v, pos, pc.color),
        PieceType::Rook => spec_slide_all(v, pos, pc.color, spec_straights()),
        PieceType::Queen => spec_slide_all(v, pos, pc.color, spec_all_directions()),
        PieceType::King => spec_king_moves(v, pos, pc),
    }
}

/// Every move a piece generates names only on-board positions.
pub open spec fn spec_moves_wf(moves: Seq<Move>) -> bool {
    forall|i: int| 0 <= i < moves.len() ==> (#[trigger] moves[i]).wf()
}

impl Piece {
    /// The candidate moves of this piece standing at `position` on `board`.
    pub fn get_moves(&self, board: &Board, position: &Position) -> (r: Vec<Move>)
        requires
            board@.wf(),
            position.wf(),
        ensures
            r@ == spec_piece_moves(board@, *position, *self),
            spec_moves_wf(r@),
    {
        match self.typ {
            PieceType::Pawn => self.moves_pawn(board, position),
            PieceType::Bishop => self.moves_bishop(board, position),
            PieceType::Knight => self.moves_knight(board, position),
            PieceType::Rook => self.moves_rook(board, position),
            PieceType::Queen => self.moves_queen(board, position),
            PieceType::King => self.moves_king(board, position),
        }
    }

    fn is_capture(&self, board: &Board, pos: &Position) -> (r: Option<SpecialMove>)
        requires
            board@.wf(),
            pos.wf(),
        ensures
            r == spec_capture(board@, *pos),
    {
        match board.get(*pos) {
            Some(p) => Some(SpecialMove::Capture(p.typ)),
            None => None,
        }
    }

    /// A plain move to `to`, with its capture payload.
    fn move_to(&self, board: &Board, from: Position, to: Position) -> (r: Move)
        requires
            board@.wf(),
            from.wf(),
            to.wf(),
        ensures
            r == spec_move_to(board@, from, to),
            r.wf(),
    {
        Move { from, to, special: self.is_capture(board, &to) }
    }

    #[verifier::rlimit(30)]
    fn moves_pawn(&self, board: &Board, pawn: &Position) -> (r: Vec<Move>)
        requires
            board@.wf(),
            pawn.wf(),
            self.typ == PieceType::Pawn,
        ensures
            r@ == spec_pawn_moves(board@, *pawn, *self),
            spec_moves_wf(r@),
    {
        let up: i32 = match self.color {
            Color::Black => -1,
            Color::White => 1,
        };
        let mut targets: Vec<Position> = Vec::new();

        // normal move
        match pawn.offset(0, up) {
            Some(one) => {
                if board.get(one).is_none() {
                    targets.push(one);
                    // starting move
                    match pawn.offset(0, 2 * up) {
                        Some(two) => {
                            if self.most_recent_move.is_none() && board.get(two).is_none() {
                                targets.push(two);
                            }
                        },
                        None => (),
                    }
                }
            },
            None => (),
        }
        assert(targets@ =~= spec_pawn_targets(board@, *pawn, *self).take(targets@.len() as int));

        // captures
        let ghost before_caps = targets@;
        match pawn.offset(-1, up) {
            Some(q) => {
                match board.get(q) {
                    Some(p) => {
                        if p.color == self.color.opposite() {
                            targets.push(q);
                        }
                    },
                    None => (),
                }
            },
            None => (),
        }
        assert(targets@ =~= before_caps + spec_pawn_capture_target(board@, *pawn, *self, -1));
        match pawn.offset(1, up) {
            Some(q) => {
                match board.get(q) {
                    Some(p) => {
                        if p.color == self.color.opposite() {
                            targets.push(q);
                        }
                    },
                    None => (),
                }
            },
            None => (),
        }
        assert(targets@ =~= spec_pawn_targets(board@, *pawn, *self));

        let mut moves: Vec<Move> = Vec::new();
        let mut i: usize = 0;
        while i < targets.len()
            invariant
                board@.wf(),
                pawn.wf(),
                i <= targets@.len(),
                targets@ == spec_pawn_targets(board@, *pawn, *self),
                forall|j: int| 0 <= j < targets@.len() ==> (#[trigger] targets@[j]).wf(),
                moves@ == targets@.take(i as int).map_values(
                    |t: Position| spec_pawn_move(board@, *pawn, t),
                ),
                spec_moves_wf(moves@),
            decreases targets@.len() - i,
        {
            let to = targets[i];
            let special = if to.rank() == 7 || to.rank() == 0 {
                Some(SpecialMove::Promotion(PieceType::Queen))
            } else {
                self.is_capture(board, &to)
            };
            moves.push(Move { from: *pawn, to, special });
            proof {
                assert(targets@.take(i + 1).map_values(
                    |t: Position| spec_pawn_move(board@, *pawn, t),
                ) =~= targets@.take(i as int).map_values(
                    |t: Position| spec_pawn_move(board@, *pawn, t),
                ).push(spec_pawn_move(board@, *pawn, targets@[i as int])));
            }
            i = i + 1;
        }
        proof {
            assert(targets@.take(targets@.len() as int) =~= targets@);
        }

        // en passant
        self.push_enpassant(board, pawn, &mut moves, -1);
        self.push_enpassant(board, pawn, &mut moves, 1);
        proof {
            assert(moves@ =~= spec_pawn_moves(board@, *pawn, *self));
        }
        moves
    }

    /// Append the en-passant capture toward one side, when it is offered.
    fn push_enpassant(&self, board: &Board, pawn: &Position, moves: &mut Vec<Move>, side: i32)
        requires
            board@.wf(),
            pawn.wf(),
            side == -1 || side == 1,
            spec_moves_wf(old(moves)@),
        ensures
            final(moves)@ == old(moves)@ + spec_enpassant_move(board@, *pawn, *self, side as int),
            spec_moves_wf(final(moves)@),
    {
        let up: i32 = match self.color {
            Color::Black => -1,
            Color::White => 1,
        };
        let enpassant_rank: usize = match self.color {
            Color::White => 4,
            Color::Black => 2,
        };
        if pawn.rank() != enpassant_rank {
            proof {
                assert(moves@ =~= old(moves)@ + spec_enpassant_move(board@, *pawn, *self, side as int));
            }
            return ;
        }
        match pawn.offset(side, 0) {
            Some(beside) => {
                match board.get(beside) {
                    Some(p) => {
                        let just_moved = match p.most_recent_move {
                            Some(m) => m < usize::MAX && m + 1 == board.ply,
                            None => false,
                        };
                        if p.color == self.color.opposite() && p.typ == PieceType::Pawn
                            && just_moved {
                            match pawn.offset(side, up) {
                                Some(to) => {
                                    if board.get(to).is_none() {
                                        moves.push(
                                            Move {
                                                from: *pawn,
                                                to,
                                                special: Some(SpecialMove::EnPassant(beside)),
                                            },
                                        );
                                    }
                                },
                                None => (),
                            }
                        }
                    },
                    None => (),
                }
            },
            None => (),
        }
        proof {
            assert(moves@ =~= old(moves)@ + spec_enpassant_move(board@, *pawn, *self, side as int));
        }
    }

    fn moves_bishop(&self, board: &Board, bishop: &Position) -> (r: Vec<Move>)
        requires
            board@.wf(),
            bishop.wf(),
        ensures
            r@ == spec_slide_all(board@, *bishop, self.color, spec_diagonals()),
            spec_moves_wf(r@),
    {
        let dirs: Vec<(i32, i32)> = vec![(1, 1), (1, -1), (-1, -1), (-1, 1)];
        proof {
            assert(dirs@ =~= spec_diagonals());
        }
        self.slide_helper(board, bishop, &dirs)
    }

    fn moves_knight(&self, board: &Board, knight: &Position) -> (r: Vec<Move>)
        requires
            board@.wf(),
            knight.wf(),
        ensures
            r@ == spec_knight_moves(board@, *knight, self.color),
            spec_moves_wf(r@),
    {
        let mut moves: Vec<Move> = Vec::new();
        self.push_jump(board, knight, &mut moves, 2, 1);
        self.push_jump(board, knight, &mut moves, -2, 1);
        self.push_jump(board, knight, &mut moves, 1, 2);
        self.push_jump(board, knight, &mut moves, 1, -2);
        self.push_jump(board, knight, &mut moves, -2, -1);
        self.push_jump(board, knight, &mut moves, 2, -1);
        self.push_jump(board, knight, &mut moves, -1, 2);
        self.push_jump(board, knight, &mut moves, -1, -2);
        proof {
            assert(moves@ =~= spec_knight_moves(board@, *knight, self.color));
        }
        moves
    }

    /// Append the jump candidate for one offset, when the target square is
    /// on the board and free of friendly pieces.
    fn push_jump(&self, board: &Board, from: &Position, moves: &mut Vec<Move>, df: i32, dr: i32)
        requires
            board@.wf(),
            from.wf(),
            -2 <= df <= 2,
            -2 <= dr <= 2,
            spec_moves_wf(old(moves)@),
        ensures
            final(moves)@ == old(moves)@ + spec_jump_candidate(
                board@,
                *from,
                self.color,
                df as int,
                dr as int,
            ),
            spec_moves_wf(final(moves)@),
    {
        match from.offset(df, dr) {
            Some(q) => {
                let friendly = match board.get(q) {
                    Some(p) => p.color == self.color,
                    None => false,
                };
                if !friendly {
                    let m = self.move_to(board, *from, q);
                    moves.push(m);
                }
            },
            None => (),
        }
        proof {
            assert(moves@ =~= old(moves)@ + spec_jump_candidate(
                board@,
                *from,
                self.color,
                df as int,
                dr as int,
            ));
        }
    }

    fn moves_rook(&self, board: &Board, rook: &Position) -> (r: Vec<Move>)
        requires
            board@.wf(),
            rook.wf(),
        ensures
            r@ == spec_slide_all(board@, *rook, self.color, spec_straights()),
            spec_moves_wf(r@),
    {
        let dirs: Vec<(i32, i32)> = vec![(1, 0), (-1, 0), (0, 1), (0, -1)];
        proof {
            assert(dirs@ =~= spec_straights());
        }
        self.slide_helper(board, rook, &dirs)
    }

    fn moves_queen(&self, board: &Board, queen: &Position) -> (r: Vec<Move>)
        requires
            board@.wf(),
            queen.wf(),
        ensures
            r@ == spec_slide_all(board@, *queen, self.color, spec_all_directions()),
            spec_moves_wf(r@),
    {
        let dirs: Vec<(i32, i32)> = vec![
            (1, 0),
            (-1, 0),
            (0, 1),
            (0, -1),
            (1, 1),
            (1, -1),
            (-1, -1),
            (-1, 1),
        ];
        proof {
            assert(dirs@ =~= spec_all_directions());
        }
        self.slide_helper(board, queen, &dirs)
    }

    fn moves_king(&self, board: &Board, king: &Position) -> (r: Vec<Move>)
        requires
            board@.wf(),
            king.wf(),
        ensures
            r@ == spec_king_moves(board@, *king, *self),
            spec_moves_wf(r@),
    {
        let mut moves: Vec<Move> = Vec::new();
        self.push_jump(board, king, &mut moves, 1, 0);
        self.push_jump(board, king, &mut moves, -1, 0);
        self.push_jump(board, king, &mut moves, 0, 1);
        self.push_jump(board, king, &mut moves, 0, -1);
        self.push_jump(board, king, &mut moves, 1, 1);
        self.push_jump(board, king, &mut moves, 1, -1);
        self.push_jump(board, king, &mut moves, -1, -1);
        self.push_jump(board, king, &mut moves, -1, 1);
        assert(moves@ =~= spec_king_steps(board@, *king, self.color));

        // castling
        if self.most_recent_move.is_none() {
            self.push_castle(board, king, &mut moves, -1);
            self.push_castle(board, king, &mut moves, 1);
        }
        proof {
            assert(moves@ =~= spec_king_moves(board@, *king, *self));
        }
        moves
    }

    /// Append the castling move toward one side, when the outward scan finds
    /// an unmoved rook as the first occupied square.
    fn push_castle(&self, board: &Board, king: &Position, moves: &mut Vec<Move>, dir: i32)
        requires
            board@.wf(),
            king.wf(),
            dir == -1 || dir == 1,
            spec_moves_wf(old(moves)@),
        ensures
            final(moves)@ == old(moves)@ + spec_castle_move(board@, *king, dir as int),
            spec_moves_wf(final(moves)@),
    {
        let ray = king.iterate_offset(dir, 0);
        proof {
            lemma_ray_elements_wf(*king, dir as int, 0, 7);
            assert(ray@.skip(0) =~= ray@);
        }
        let mut can_castle: Option<Position> = None;
        let mut i: usize = 0;
        let mut scanning = true;
        while i < ray.len() && scanning
            invariant
                board@.wf(),
                i <= ray@.len(),
                forall|j: int| 0 <= j < ray@.len() ==> (#[trigger] ray@[j]).wf(),
                scanning ==> can_castle is None && spec_castle_rook(board@, ray@)
                    == spec_castle_rook(board@, ray@.skip(i as int)),
                !scanning ==> can_castle == spec_castle_rook(board@, ray@),
                can_castle is Some ==> ray@.contains(can_castle->Some_0),
            decreases ray@.len() - i + (if scanning { 1int } else { 0int }),
        {
            let pos = ray[i];
            match board.get(pos) {
                Some(p) => {
                    if p.typ == PieceType::Rook && p.most_recent_move.is_none() {
                        can_castle = Some(pos);
                    }
                    scanning = false;
                    proof {
                        assert(ray@.skip(i as int)[0] == ray@[i as int]);
                        assert(ray@.contains(ray@[i as int]));
                    }
                },
                None => {
                    proof {
                        assert(ray@.skip(i as int).drop_first() =~= ray@.skip(i + 1));
                        assert(ray@.skip(i as int)[0] == ray@[i as int]);
                    }
                    i = i + 1;
                },
            }
        }
        proof {
            if scanning {
                assert(ray@.skip(i as int) =~= Seq::<Position>::empty());
            }
            assert(can_castle == spec_castle_rook(board@, ray@));
        }
        match can_castle {
            Some(rook) => {
                proof {
                    lemma_ray_elements_wf(*king, dir as int, 0, 7);
                }
                match king.offset(2 * dir, 0) {
                    Some(to) => {
                        match king.offset(dir, 0) {
                            Some(rook_to) => {
                                moves.push(
                                    Move {
                                        from: *king,
                                        to,
                                        special: Some(SpecialMove::Castling(rook, rook_to)),
                                    },
                                );
                            },
                            None => (),
                        }
                    },
                    None => (),
                }
            },
            None => (),
        }
        proof {
            assert(moves@ =~= old(moves)@ + spec_castle_move(board@, *king, dir as int));
        }
    }

    /// The slider walk: for each direction, every empty square outward until
    /// the first occupied one, included exactly when it holds an enemy.
    fn slide_helper(&self, board: &Board, from: &Position, dirs: &Vec<(i32, i32)>) -> (r: Vec<
        Move,
    >)
        requires
            board@.wf(),
            from.wf(),
            forall|j: int|
                0 <= j < dirs@.len() ==> -1 <= (#[trigger] dirs@[j]).0 <= 1 && -1 <= dirs@[j].1
                    <= 1,
        ensures
            r@ == spec_slide_all(board@, *from, self.color, dirs@),
            spec_moves_wf(r@),
    {
        let mut moves: Vec<Move> = Vec::new();
        let mut d: usize = 0;
        while d < dirs.len()
            invariant
                board@.wf(),
                from.wf(),
                d <= dirs@.len(),
                forall|j: int|
                    0 <= j < dirs@.len() ==> -1 <= (#[trigger] dirs@[j]).0 <= 1 && -1 <= dirs@[j].1
                        <= 1,
                moves@ == spec_slide_all(board@, *from, self.color, dirs@.take(d as int)),
                spec_moves_wf(moves@),
            decreases dirs@.len() - d,
        {
            let (df, dr) = dirs[d];
            let ray = from.iterate_offset(df, dr);
            proof {
                lemma_ray_elements_wf(*from, df as int, dr as int, 7);
                assert(ray@.take(0) =~= Seq::<Position>::empty());
                assert(ray@.skip(0) =~= ray@);
                assert(spec_slide_targets(board@, ray@.take(0), self.color) =~= Seq::<
                    Position,
                >::empty());
                assert(moves@ =~= moves@ + spec_slide_targets(
                    board@,
                    ray@.take(0),
                    self.color,
                ).map_values(|t: Position| spec_move_to(board@, *from, t)));
            }
            let ghost prefix = moves@;
            let mut i: usize = 0;
            let mut open = true;
            while i < ray.len() && open
                invariant
                    board@.wf(),
                    from.wf(),
                    i <= ray@.len(),
                    forall|j: int| 0 <= j < ray@.len() ==> (#[trigger] ray@[j]).wf(),
                    open ==> moves@ == prefix + spec_slide_targets(
                        board@,
                        ray@.take(i as int),
                        self.color,
                    ).map_values(|t: Position| spec_move_to(board@, *from, t)) && spec_slide_targets(
                        board@,
                        ray@,
                        self.color,
                    ) =~= spec_slide_targets(board@, ray@.take(i as int), self.color)
                        + spec_slide_targets(board@, ray@.skip(i as int), self.color),
                    !open ==> moves@ == prefix + spec_slide_targets(
                        board@,
                        ray@,
                        self.color,
                    ).map_values(|t: Position| spec_move_to(board@, *from, t)),
                    spec_moves_wf(moves@),
                decreases ray@.len() - i + (if open { 1int } else { 0int }),
            {
                let pos = ray[i];
                proof {
                    assert(ray@.skip(i as int)[0] == ray@[i as int]);
                    assert(ray@.skip(i as int).drop_first() =~= ray@.skip(i + 1));
                    assert(ray@.take(i + 1).drop_last() =~= ray@.take(i as int));
                    assert(ray@.take(i + 1).last() == ray@[i as int]);
                }
                match board.get(pos) {
                    None => {
                        let m = self.move_to(board, *from, pos);
                        moves.push(m);
                        proof {
                            lemma_slide_take_step(board@, ray@, self.color, i as int);
                        }
                        i = i + 1;
                    },
                    Some(p) => {
                        if p.color != self.color {
                            let m = self.move_to(board, *from, pos);
                            moves.push(m);
                        }
                        open = false;
                        proof {
                            lemma_slide_stop(board@, ray@, self.color, i as int);
                        }
                    },
                }
            }
            proof {
                if open {
                    assert(ray@.take(i as int) =~= ray@);
                    assert(spec_slide_targets(board@, ray@.skip(i as int), self.color)
                        =~= Seq::<Position>::empty());
                    assert(spec_slide_targets(board@, ray@.take(i as int), self.color)
                        + spec_slide_targets(board@, ray@.skip(i as int), self.color)
                        =~= spec_slide_targets(board@, ray@.take(i as int), self.color));
                }
                assert(dirs@.take(d + 1).drop_first() =~= dirs@.drop_first().take(d as int));
                lemma_slide_all_take_step(board@, *from, self.color, dirs@, d as int);
            }
            d = d + 1;
        }
        proof {
            assert(dirs@.take(dirs@.len() as int) =~= dirs@);
        }
        moves
    }
}

/// Walking one more step of the ray past an empty square extends the slide
/// prefix by that square.
proof fn lemma_slide_take_step(v: BoardView, ray: Seq<Position>, me: Color, i: int)
    requires
        0 <= i < ray.len(),
        v.at(ray[i]) is None,
        spec_slide_targets(v, ray, me) =~= spec_slide_targets(v, ray.take(i), me)
            + spec_slide_targets(v, ray.skip(i), me),
    ensures
        spec_slide_targets(v, ray.take(i + 1), me) =~= spec_slide_targets(v, ray.take(i), me).push(
            ray[i],
        ),
        spec_slide_targets(v, ray, me) =~= spec_slide_targets(v, ray.take(i + 1), me)
            + spec_slide_targets(v, ray.skip(i + 1), me),
    decreases i,
{
    if i == 0 {
        assert(ray.take(1) =~= seq![ray[0]]);
        assert(ray.take(1).drop_first() =~= Seq::<Position>::empty());
        assert(ray.take(0) =~= Seq::<Position>::empty());
        assert(ray.skip(0) =~= ray);
        assert(ray.drop_first() =~= ray.skip(1));
    } else {
        if v.at(ray[0]) is None {
            let sub = ray.drop_first();
            assert(ray.take(i)[0] == ray[0]);
            assert(ray.take(i + 1)[0] == ray[0]);
            assert(sub.take(i - 1) =~= ray.take(i).drop_first());
            assert(sub.take(i) =~= ray.take(i + 1).drop_first());
            assert(sub.skip(i - 1) =~= ray.skip(i));
            assert(sub.skip(i) =~= ray.skip(i + 1));
            assert(sub[i - 1] == ray[i]);
            assert(spec_slide_targets(v, ray, me) == seq![ray[0]] + spec_slide_targets(
                v,
                sub,
                me,
            ));
            assert(spec_slide_targets(v, ray.take(i), me) == seq![ray[0]] + spec_slide_targets(
                v,
                sub.take(i - 1),
                me,
            ));
            assert(spec_slide_targets(v, ray.take(i + 1), me) == seq![ray[0]]
                + spec_slide_targets(v, sub.take(i), me));
            let s_all = spec_slide_targets(v, sub, me);
            let s_t = spec_slide_targets(v, sub.take(i - 1), me);
            let s_u = spec_slide_targets(v, sub.skip(i - 1), me);
            assert(seq![ray[0]] + s_all =~= (seq![ray[0]] + s_t) + s_u);
            assert((seq![ray[0]] + s_t) + s_u =~= seq![ray[0]] + (s_t + s_u));
            assert(s_all =~= s_t + s_u) by {
                assert(s_all.len() == s_t.len() + s_u.len());
                assert forall|j: int| 0 <= j < s_all.len() implies s_all[j] == (s_t + s_u)[j] by {
                    assert(s_all[j] == (seq![ray[0]] + s_all)[j + 1]);
                    assert((seq![ray[0]] + (s_t + s_u))[j + 1] == (s_t + s_u)[j]);
                }
            }
            lemma_slide_take_step(v, sub, me, i - 1);
        } else {
            // an occupied ray[0] closes the slide at once, so the prefix
            // decomposition could never have reached ray[i]: this branch is
            // impossible
            assert(ray.take(i)[0] == ray[0]);
            assert(ray.take(i + 1)[0] == ray[0]);
            if v.at(ray[0])->Some_0.color == me {
                assert(spec_slide_targets(v, ray.take(i + 1), me) =~= Seq::<Position>::empty());
                assert(spec_slide_targets(v, ray, me) =~= Seq::<Position>::empty());
                assert(spec_slide_targets(v, ray.take(i), me) =~= Seq::<Position>::empty());
                assert(false);
            } else {
                assert(spec_slide_targets(v, ray.take(i + 1), me) =~= seq![ray[0]]);
                assert(spec_slide_targets(v, ray, me) =~= seq![ray[0]]);
                assert(spec_slide_targets(v, ray.take(i), me) =~= seq![ray[0]]);
                assert(false);
            }
        }
    }
}

/// Stopping at an occupied square closes the slide prefix: the whole slide
/// is the prefix walked so far, plus the square itself on an enemy.
proof fn lemma_slide_stop(v: BoardView, ray: Seq<Position>, me: Color, i: int)
    requires
        0 <= i < ray.len(),
        v.at(ray[i]) is Some,
        spec_slide_targets(v, ray, me) =~= spec_slide_targets(v, ray.take(i), me)
            + spec_slide_targets(v, ray.skip(i), me),
    ensures
        spec_slide_targets(v, ray, me) =~= spec_slide_targets(v, ray.take(i), me) + (if v.at(
            ray[i],
        )->Some_0.color == me {
            Seq::<Position>::empty()
        } else {
            seq![ray[i]]
        }),
{
    assert(ray.skip(i)[0] == ray[i]);
}

/// Extending the direction prefix by one direction appends that direction's
/// slide moves.
proof fn lemma_slide_all_take_step(
    v: BoardView,
    from: Position,
    me: Color,
    dirs: Seq<(i32, i32)>,
    d: int,
)
    requires
        0 <= d < dirs.len(),
        dirs.take(d + 1).drop_first() =~= dirs.drop_first().take(d),
    ensures
        spec_slide_all(v, from, me, dirs.take(d + 1)) =~= spec_slide_all(v, from, me, dirs.take(d))
            + spec_slide_dir(v, from, me, dirs[d].0 as int, dirs[d].1 as int),
    decreases d,
{
    if d == 0 {
        assert(dirs.take(0) =~= Seq::<(i32, i32)>::empty());
        assert(dirs.take(1)[0] == dirs[0]);
        assert(dirs.take(1).drop_first() =~= Seq::<(i32, i32)>::empty());
    } else {
        let sub = dirs.drop_first();
        assert(dirs.take(d + 1)[0] == dirs[0]);
        assert(dirs.take(d)[0] == dirs[0]);
        assert(dirs.take(d).drop_first() =~= sub.take(d - 1));
        assert(sub.take(d).drop_first() =~= sub.drop_first().take(d - 1));
        assert(sub[d - 1] == dirs[d]);
        lemma_slide_all_take_step(v, from, me, sub, d - 1);
    }
}

/// A pawn that has never moved, with both squares ahead empty and on the
/// board, is offered exactly two forward destinations: the single and the
/// double step.
pub proof fn lemma_pawn_double_step(v: BoardView, pawn: Position, pc: Piece)
    requires
        pawn.spec_offset(0, spec_pawn_dir(pc.color)) is Some,
        pawn.spec_offset(0, 2 * spec_pawn_dir(pc.color)) is Some,
        v.at(pawn.spec_offset(0, spec_pawn_dir(pc.color))->Some_0) is None,
        v.at(pawn.spec_offset(0, 2 * spec_pawn_dir(pc.color))->Some_0) is None,
        pc.most_recent_move is None,
    ensures
        spec_pawn_forward(v, pawn, pc) =~= seq![
            pawn.spec_offset(0, spec_pawn_dir(pc.color))->Some_0,
            pawn.spec_offset(0, 2 * spec_pawn_dir(pc.color))->Some_0,
        ],
{
}

/// A pawn with an occupied square directly ahead has no forward
/// destination at all.
pub proof fn lemma_pawn_blocked(v: BoardView, pawn: Position, pc: Piece)
    requires
        match pawn.spec_offset(0, spec_pawn_dir(pc.color)) {
            Some(one) => v.at(one) is Some,
            None => true,
        },
    ensures
        spec_pawn_forward(v, pawn, pc) =~= Seq::<Position>::empty(),
{
}

/// An en-passant capture is offered only against an adjacent enemy pawn
/// that moved on the immediately preceding ply, from the capturing pawn's
/// en-passant rank, onto an empty square behind that pawn.
pub proof fn lemma_enpassant_only_after_double_step(
    v: BoardView,
    pawn: Position,
    pc: Piece,
    side: int,
)
    requires
        spec_enpassant_move(v, pawn, pc, side).len() > 0,
    ensures
        pawn.spec_rank() == spec_enpassant_rank(pc.color),
        pawn.spec_offset(side, 0) is Some,
        match v.at(pawn.spec_offset(side, 0)->Some_0) {
            Some(p) => p.color == pc.color.spec_opposite() && p.typ == PieceType::Pawn && (match p
                .most_recent_move {
                Some(m) => m + 1 == v.ply,
                None => false,
            }),
            None => false,
        },
        match pawn.spec_offset(side, spec_pawn_dir(pc.color)) {
            Some(to) => v.at(to) is None,
            None => false,
        },
{
}

/// Applying a move always advances the ply by exactly one and records the
/// move as the last move, whatever else it does.
pub proof fn lemma_apply_bookkeeping(v: BoardView, m: Move)
    ensures
        crate::board::spec_apply(v, m).ply == v.ply + 1,
        crate::board::spec_apply(v, m).last_move == Some(m),
{
}

/// Every position on a ray lies on the board.
pub proof fn lemma_ray_elements_wf(p: Position, df: int, dr: int, k: int)
    requires
        0 <= k,
    ensures
        forall|i: int|
            0 <= i < p.spec_ray_upto(df, dr, k).len() ==> (#[trigger] p.spec_ray_upto(
                df,
                dr,
                k,
            )[i]).wf(),
    decreases k,
{
    if k > 0 {
        lemma_ray_elements_wf(p, df, dr, k - 1);
        let prev = p.spec_ray_upto(df, dr, k - 1);
        let cur = p.spec_ray_upto(df, dr, k);
        match p.spec_offset(k * df, k * dr) {
            Some(q) => {
                assert(cur =~= prev + seq![q]);
                assert(q.wf());
                assert forall|i: int| 0 <= i < cur.len() implies (#[trigger] cur[i]).wf() by {
                    if i < prev.len() {
                        assert(cur[i] == prev[i]);
                    } else {
                        assert(cur[i] == q);
                    }
                }
            },
            None => {
                assert(cur =~= prev);
                assert forall|i: int| 0 <= i < cur.len() implies (#[trigger] cur[i]).wf() by {
                    assert(cur[i] == prev[i]);
                }
            },
        }
    }
}

} // verus!
