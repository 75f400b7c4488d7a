//! Static evaluation and the negamax search with alpha-beta pruning.

use vstd::prelude::*;

use crate::board::{spec_apply, spec_pieces, Board, BoardView, Position};
use crate::pieces::{spec_piece_moves, Color, Move, Piece, PieceType};

verus! {

/// The value of a position from the mover's perspective: a forced win in a
/// number of plies, a numeric score, or a forced loss in a number of plies.
#[derive(Debug, Copy, Clone, PartialEq, Eq, Structural)]
pub enum Evaluation {
    Win(usize),
    Eval(i32),
    Loss(usize),
}

/// The strict order on evaluations: any win beats any score, any score beats
/// any loss; wins in fewer plies are better, losses in more plies are better,
/// scores compare numerically.
pub open spec fn spec_eval_lt(a: Evaluation, b: Evaluation) -> bool {
    match (a, b) {
        (Evaluation::Win(x), Evaluation::Win(y)) => y < x,
        (Evaluation::Win(_), _) => false,
        (_, Evaluation::Win(_)) => true,
        (Evaluation::Eval(x), Evaluation::Eval(y)) => x < y,
        (Evaluation::Eval(_), _) => false,
        (_, Evaluation::Eval(_)) => true,
        (Evaluation::Loss(x), Evaluation::Loss(y)) => x < y,
    }
}

/// `a` is at least `b`.
pub open spec fn spec_eval_ge(a: Evaluation, b: Evaluation) -> bool {
    !spec_eval_lt(a, b)
}

/// Negation flips a win into a loss at the same distance and negates a score.
pub open spec fn spec_eval_negate(e: Evaluation) -> Evaluation {
    match e {
        Evaluation::Win(d) => Evaluation::Loss(d),
        Evaluation::Eval(v) => Evaluation::Eval((-(v as int)) as i32),
        Evaluation::Loss(d) => Evaluation::Win(d),
    }
}

/// A decisive result seen one ply higher is one ply farther away.
pub open spec fn spec_eval_increment(e: Evaluation) -> Evaluation {
    match e {
        Evaluation::Win(d) => Evaluation::Win((d + 1) as usize),
        Evaluation::Eval(v) => Evaluation::Eval(v),
        Evaluation::Loss(d) => Evaluation::Loss((d + 1) as usize),
    }
}

/// The payload leaves room for negation in machine arithmetic.
pub open spec fn spec_eval_negatable(e: Evaluation) -> bool {
    match e {
        Evaluation::Win(d) => true,
        Evaluation::Eval(v) => v != i32::MIN,
        Evaluation::Loss(d) => true,
    }
}

/// Distances stay at most `dmax` and scores stay far from the integer edge.
pub open spec fn spec_eval_bounded(e: Evaluation, dmax: int) -> bool {
    match e {
        Evaluation::Win(d) => d <= dmax,
        Evaluation::Eval(v) => -700000 <= v <= 700000,
        Evaluation::Loss(d) => d <= dmax,
    }
}

impl Evaluation {
    /// The negated evaluation, as seen by the opponent.
    pub fn negate(self) -> (r: Evaluation)
        requires
            spec_eval_negatable(self),
        ensures
            r == spec_eval_negate(self),
    {
        match self {
            Evaluation::Win(moves) => Evaluation::Loss(moves),
            Evaluation::Eval(eval) => Evaluation::Eval(-eval),
            Evaluation::Loss(moves) => Evaluation::Win(moves),
        }
    }

    /// Push a decisive result one ply farther away.
    pub fn increment_depth(&self) -> (r: Evaluation)
        requires
            match *self {
                Evaluation::Win(d) => d < usize::MAX,
                Evaluation::Eval(_) => true,
                Evaluation::Loss(d) => d < usize::MAX,
            },
        ensures
            r == spec_eval_increment(*self),
    {
        match self {
            Evaluation::Win(depth) => Evaluation::Win(*depth + 1),
            Evaluation::Eval(eval) => Evaluation::Eval(*eval),
            Evaluation::Loss(depth) => Evaluation::Loss(*depth + 1),
        }
    }
}

impl PartialOrd for Evaluation {
    fn partial_cmp(&self, other: &Evaluation) -> (r: Option<core::cmp::Ordering>) {
        match (self, other) {
            // wins in fewer moves are better
            (Evaluation::Win(left), Evaluation::Win(right)) => if *right < *left {
                Some(core::cmp::Ordering::Less)
            } else if *left < *right {
                Some(core::cmp::Ordering::Greater)
            } else {
                Some(core::cmp::Ordering::Equal)
            },
            (Evaluation::Win(_), _) => Some(core::cmp::Ordering::Greater),
            (_, Evaluation::Win(_)) => Some(core::cmp::Ordering::Less),
            (Evaluation::Eval(left), Evaluation::Eval(right)) => if *left < *right {
                Some(core::cmp::Ordering::Less)
            } else if *right < *left {
                Some(core::cmp::Ordering::Greater)
            } else {
                Some(core::cmp::Ordering::Equal)
            },
            (Evaluation::Eval(_), _) => Some(core::cmp::Ordering::Greater),
            (_, Evaluation::Eval(_)) => Some(core::cmp::Ordering::Less),
            // losses in more moves are better
            (Evaluation::Loss(left), Evaluation::Loss(right)) => if *left < *right {
                Some(core::cmp::Ordering::Less)
            } else if *right < *left {
                Some(core::cmp::Ordering::Greater)
            } else {
                Some(core::cmp::Ordering::Equal)
            },
        }
    }
}

impl vstd::std_specs::cmp::PartialOrdSpecImpl for Evaluation {
    open spec fn obeys_partial_cmp_spec() -> bool {
        true
    }

    open spec fn partial_cmp_spec(&self, other: &Evaluation) -> Option<core::cmp::Ordering> {
        if spec_eval_lt(*self, *other) {
            Some(core::cmp::Ordering::Less)
        } else if spec_eval_lt(*other, *self) {
            Some(core::cmp::Ordering::Greater)
        } else {
            Some(core::cmp::Ordering::Equal)
        }
    }
}

/// The order on evaluations is a strict total order: of two distinct values
/// exactly one is below the other, and never a value below itself.
pub proof fn lemma_eval_order_trichotomy(a: Evaluation, b: Evaluation)
    ensures
        spec_eval_lt(a, b) || spec_eval_lt(b, a) || a == b,
        spec_eval_lt(a, b) ==> !spec_eval_lt(b, a) && a != b,
        !spec_eval_lt(a, a),
{
}

/// The order on evaluations is transitive.
pub proof fn lemma_eval_order_transitive(a: Evaluation, b: Evaluation, c: Evaluation)
    requires
        spec_eval_lt(a, b),
        spec_eval_lt(b, c),
    ensures
        spec_eval_lt(a, c),
{
}

/// Negation reverses the order and undoes itself, away from the numeric edge.
pub proof fn lemma_eval_negate_antitone(a: Evaluation, b: Evaluation)
    requires
        spec_eval_negatable(a),
        spec_eval_negatable(b),
    ensures
        spec_eval_lt(a, b) <==> spec_eval_lt(spec_eval_negate(b), spec_eval_negate(a)),
        spec_eval_negate(spec_eval_negate(a)) == a,
{
}

/// The key the search orders moves by: origin square first, then target.
pub open spec fn spec_move_key(m: Move) -> int {
    m.from.0 * 64 + m.to.0
}

/// Stable insertion of a move into a key-sorted sequence: the move lands
/// after every element whose key is at most its own.
pub open spec fn spec_insert_move(s: Seq<Move>, m: Move) -> Seq<Move>
    decreases s.len(),
{
    if s.len() > 0 && spec_move_key(s.last()) > spec_move_key(m) {
        spec_insert_move(s.drop_last(), m).push(s.last())
    } else {
        s.push(m)
    }
}

/// Insertion sort by move key, stable and deterministic.
pub open spec fn spec_sort_moves(s: Seq<Move>) -> Seq<Move>
    decreases s.len(),
{
    if s.len() == 0 {
        Seq::empty()
    } else {
        spec_insert_move(spec_sort_moves(s.drop_last()), s.last())
    }
}

/// Inserting at the position the scan found is the stable insertion.
proof fn lemma_insert_move_at(s: Seq<Move>, m: Move, j: int)
    requires
        0 <= j <= s.len(),
        forall|k: int| j <= k < s.len() ==> spec_move_key(#[trigger] s[k]) > spec_move_key(m),
        j > 0 ==> spec_move_key(s[j - 1]) <= spec_move_key(m),
    ensures
        spec_insert_move(s, m) =~= s.take(j) + seq![m] + s.skip(j),
    decreases s.len(),
{
    if j == s.len() {
        assert(s.take(j) =~= s);
        assert(s.skip(j) =~= Seq::<Move>::empty());
    } else {
        assert(spec_move_key(s.last()) > spec_move_key(m)) by {
            assert(s.len() - 1 >= j);
        }
        let dl = s.drop_last();
        assert(j <= dl.len());
        lemma_insert_move_at(dl, m, j);
        assert(dl.take(j) =~= s.take(j));
        assert(dl.skip(j).push(s.last()) =~= s.skip(j));
        assert(spec_insert_move(s, m) == spec_insert_move(dl, m).push(s.last()));
    }
}

/// The exec counterpart of [`spec_move_key`].
fn move_key(m: &Move) -> (r: usize)
    requires
        m.wf(),
    ensures
        r == spec_move_key(*m),
{
    m.from.0 * 64 + m.to.0
}

/// Sort moves by key, stably, so that the search walks them in one fixed
/// deterministic order.
pub fn sort_moves(v: &Vec<Move>) -> (r: Vec<Move>)
    requires
        forall|i: int| 0 <= i < v@.len() ==> (#[trigger] v@[i]).wf(),
    ensures
        r@ == spec_sort_moves(v@),
        forall|i: int| 0 <= i < r@.len() ==> (#[trigger] r@[i]).wf(),
{
    let mut out: Vec<Move> = Vec::new();
    let mut i: usize = 0;
    while i < v.len()
        invariant
            i <= v@.len(),
            forall|k: int| 0 <= k < v@.len() ==> (#[trigger] v@[k]).wf(),
            out@ == spec_sort_moves(v@.take(i as int)),
            forall|k: int| 0 <= k < out@.len() ==> (#[trigger] out@[k]).wf(),
        decreases v@.len() - i,
    {
        let m = v[i];
        let mut j: usize = out.len();
        while j > 0 && move_key(&out[j - 1]) > move_key(&m)
            invariant
                j <= out@.len(),
                m.wf(),
                forall|k: int| 0 <= k < out@.len() ==> (#[trigger] out@[k]).wf(),
                forall|k: int|
                    j <= k < out@.len() ==> spec_move_key(#[trigger] out@[k]) > spec_move_key(m),
            decreases j,
        {
            j = j - 1;
        }
        proof {
            lemma_insert_move_at(out@, m, j as int);
        }
        let ghost out_before = out@;
        out.insert(j, m);
        proof {
            assert(out@ =~= out_before.take(j as int) + seq![m] + out_before.skip(j as int));
            assert(v@.take(i + 1).drop_last() =~= v@.take(i as int));
            assert(v@.take(i + 1).last() == v@[i as int]);
        }
        i = i + 1;
    }
    proof {
        assert(v@.take(v@.len() as int) =~= v@);
    }
    out
}

/// The worth of a pawn by how far it has advanced (0-indexed rank from its
/// own side; the table is mirrored for Black).
pub open spec fn spec_pawn_value(idx: int) -> int {
    if idx <= 0 {
        0
    } else if idx == 1 {
        100
    } else if idx == 2 {
        105
    } else if idx == 3 {
        110
    } else if idx == 4 {
        125
    } else if idx == 5 {
        160
    } else if idx == 6 {
        200
    } else {
        900
    }
}

/// The material worth of one piece at its position.
pub open spec fn spec_piece_value(pos: Position, p: Piece) -> int {
    match p.typ {
        PieceType::King => 10000,
        PieceType::Queen => 900,
        PieceType::Rook => 500,
        PieceType::Bishop => 300,
        PieceType::Knight => 275,
        PieceType::Pawn => spec_pawn_value(
            if p.color == Color::White {
                pos.spec_rank()
            } else {
                7 - pos.spec_rank()
            },
        ),
    }
}

/// The summed material worth of a piece list.
pub open spec fn spec_material(s: Seq<(Position, Piece)>) -> int
    decreases s.len(),
{
    if s.len() == 0 {
        0
    } else {
        spec_material(s.drop_last()) + spec_piece_value(s.last().0, s.last().1)
    }
}

/// Material sums are nonnegative and at most 10000 per piece.
pub proof fn lemma_material_bounds(s: Seq<(Position, Piece)>)
    ensures
        0 <= spec_material(s) <= s.len() * 10000,
    decreases s.len(),
{
    if s.len() > 0 {
        lemma_material_bounds(s.drop_last());
    }
}

/// Whether a piece list contains a king.
pub open spec fn spec_has_king(s: Seq<(Position, Piece)>) -> bool {
    exists|i: int| 0 <= i < s.len() && (#[trigger] s[i]).1.typ == PieceType::King
}

/// A small code for a square's occupant, feeding the evaluation noise.
pub open spec fn spec_piece_code(o: Option<Piece>) -> int {
    match o {
        None => 0,
        Some(p) => 1 + 2 * (match p.typ {
            PieceType::Pawn => 0int,
            PieceType::Bishop => 1,
            PieceType::Knight => 2,
            PieceType::Rook => 3,
            PieceType::Queen => 4,
            PieceType::King => 5,
        }) + (if p.color == Color::White {
            0int
        } else {
            1int
        }),
    }
}

/// A deterministic mix of the first `k` squares of the occupancy grid.
pub open spec fn spec_hash_upto(s: Seq<Option<Piece>>, k: int) -> int
    decreases k,
{
    if k <= 0 {
        0
    } else {
        (spec_hash_upto(s, k - 1) % 0x1_0000_0000) * 31 + spec_piece_code(s[k - 1])
    }
}

/// The symmetric perturbation, in [-10, 10], drawn deterministically from
/// the seed and the occupancy, so that search results are reproducible.
pub open spec fn spec_noise(v: BoardView, seed: u64) -> int {
    ((spec_hash_upto(v.squares, 64) as u64 ^ seed) % 21) - 10
}

/// The static evaluation of a position from the mover's perspective: an
/// immediate loss without one's own king, an immediate win without the
/// opponent's, otherwise the material difference plus the seeded noise.
pub open spec fn spec_evaluate(v: BoardView, seed: u64) -> Evaluation {
    let friendly = spec_pieces(v, v.turn());
    let enemy = spec_pieces(v, v.turn().spec_opposite());
    if !spec_has_king(friendly) {
        Evaluation::Loss(0)
    } else if !spec_has_king(enemy) {
        Evaluation::Win(0)
    } else {
        Evaluation::Eval(
            (spec_material(friendly) - spec_material(enemy) + spec_noise(v, seed)) as i32,
        )
    }
}

/// Whether a piece list holds a king.
pub(crate) fn pieces_have_king(pieces: &Vec<(Position, Piece)>) -> (r: bool)
    ensures
        r == spec_has_king(pieces@),
{
    let mut i: usize = 0;
    while i < pieces.len()
        invariant
            i <= pieces@.len(),
            forall|k: int| 0 <= k < i ==> (#[trigger] pieces@[k]).1.typ != PieceType::King,
        decreases pieces@.len() - i,
    {
        if pieces[i].1.typ == PieceType::King {
            return true;
        }
        i = i + 1;
    }
    false
}

/// Sum the material worth of a piece list.
fn sum_piece_values(pieces: &Vec<(Position, Piece)>) -> (r: i32)
    requires
        pieces@.len() <= 64,
        forall|k: int| 0 <= k < pieces@.len() ==> (#[trigger] pieces@[k]).0.wf(),
    ensures
        r == spec_material(pieces@),
{
    let mut sum: i32 = 0;
    let mut i: usize = 0;
    while i < pieces.len()
        invariant
            i <= pieces@.len(),
            pieces@.len() <= 64,
            forall|k: int| 0 <= k < pieces@.len() ==> (#[trigger] pieces@[k]).0.wf(),
            sum == spec_material(pieces@.take(i as int)),
            0 <= sum <= i * 10000,
        decreases pieces@.len() - i,
    {
        let (pos, piece) = pieces[i];
        let value: i32 = match piece.typ {
            PieceType::King => 10000,
            PieceType::Queen => 900,
            PieceType::Rook => 500,
            PieceType::Bishop => 300,
            PieceType::Knight => 275,
            PieceType::Pawn => {
                let idx = match piece.color {
                    Color::White => pos.rank(),
                    Color::Black => 7 - pos.rank(),
                };
                if idx == 0 {
                    0
                } else if idx == 1 {
                    100
                } else if idx == 2 {
                    105
                } else if idx == 3 {
                    110
                } else if idx == 4 {
                    125
                } else if idx == 5 {
                    160
                } else if idx == 6 {
                    200
                } else {
                    900
                }
            },
        };
        proof {
            assert(value == spec_piece_value(pieces@[i as int].0, pieces@[i as int].1));
            assert(pieces@.take(i + 1).drop_last() =~= pieces@.take(i as int));
            assert(pieces@.take(i + 1).last() == pieces@[i as int]);
        }
        sum = sum + value;
        i = i + 1;
    }
    proof {
        assert(pieces@.take(pieces@.len() as int) =~= pieces@);
    }
    sum
}

impl Board {
    /// The seeded occupancy mix behind the evaluation noise.
    fn noise(&self, seed: u64) -> (r: i32)
        requires
            self@.wf(),
        ensures
            r == spec_noise(self@, seed),
    {
        let mut h: u64 = 0;
        let mut i: usize = 0;
        while i < 64
            invariant
                i <= 64,
                self@.wf(),
                h == spec_hash_upto(self@.squares, i as int),
                h < 0x20_0000_0000,
            decreases 64 - i,
        {
            let code: u64 = match self.squares[i] {
                None => 0,
                Some(p) => {
                    let t: u64 = match p.typ {
                        PieceType::Pawn => 0,
                        PieceType::Bishop => 1,
                        PieceType::Knight => 2,
                        PieceType::Rook => 3,
                        PieceType::Queen => 4,
                        PieceType::King => 5,
                    };
                    let c: u64 = match p.color {
                        Color::White => 0,
                        Color::Black => 1,
                    };
                    1 + 2 * t + c
                },
            };
            h = (h % 0x1_0000_0000) * 31 + code;
            i = i + 1;
        }
        let x: u64 = h ^ seed;
        let n: i32 = (x % 21) as i32;
        n - 10
    }

    /// The static evaluation of this board for the side to move.
    pub fn evaluate(&self, seed: u64) -> (r: Evaluation)
        requires
            self@.wf(),
        ensures
            r == spec_evaluate(self@, seed),
    {
        let color = self.current_turn();
        let friendly = self.get_pieces(color);
        if !pieces_have_king(&friendly) {
            return Evaluation::Loss(0);
        }
        let enemy = self.get_pieces(color.opposite());
        if !pieces_have_king(&enemy) {
            return Evaluation::Win(0);
        }
        proof {
            crate::board::lemma_pieces_upto_props(self@, color, 64);
            crate::board::lemma_pieces_upto_props(self@, color.spec_opposite(), 64);
            lemma_material_bounds(friendly@);
            lemma_material_bounds(enemy@);
        }
        let friendly_sum = sum_piece_values(&friendly);
        let enemy_sum = sum_piece_values(&enemy);
        let noise = self.noise(seed);
        Evaluation::Eval(friendly_sum - enemy_sum + noise)
    }
}

/// All candidate moves of a piece list, piece by piece in list order.
pub open spec fn spec_moves_of_pieces(v: BoardView, ps: Seq<(Position, Piece)>) -> Seq<Move>
    decreases ps.len(),
{
    if ps.len() == 0 {
        Seq::empty()
    } else {
        spec_moves_of_pieces(v, ps.drop_last()) + spec_piece_moves(v, ps.last().0, ps.last().1)
    }
}

/// All candidate moves of the side to move, in board-scan order.
pub open spec fn spec_all_moves(v: BoardView) -> Seq<Move> {
    spec_moves_of_pieces(v, spec_pieces(v, v.turn()))
}

/// The views of a sequence of boards.
pub open spec fn spec_board_views(s: Seq<Board>) -> Seq<BoardView> {
    s.map_values(|b: Board| b@)
}

/// The successor states of a position: none when the mover's king is gone,
/// otherwise one application of each candidate move, in key-sorted order.
pub open spec fn spec_next_states(v: BoardView) -> Seq<BoardView> {
    if !spec_has_king(spec_pieces(v, v.turn())) {
        Seq::empty()
    } else {
        spec_sort_moves(spec_all_moves(v)).map_values(|m: Move| spec_apply(v, m))
    }
}

/// Inserting a move grows the sequence by one.
pub proof fn lemma_insert_move_len(s: Seq<Move>, m: Move)
    ensures
        spec_insert_move(s, m).len() == s.len() + 1,
    decreases s.len(),
{
    if s.len() > 0 && spec_move_key(s.last()) > spec_move_key(m) {
        lemma_insert_move_len(s.drop_last(), m);
    }
}

/// Sorting keeps the length.
pub proof fn lemma_sort_moves_len(s: Seq<Move>)
    ensures
        spec_sort_moves(s).len() == s.len(),
    decreases s.len(),
{
    if s.len() > 0 {
        lemma_sort_moves_len(s.drop_last());
        lemma_insert_move_len(spec_sort_moves(s.drop_last()), s.last());
    }
}

impl Board {
    /// Every candidate move of the side to move, piece by piece in board
    /// scan order.
    pub fn collect_moves(&self) -> (r: Vec<Move>)
        requires
            self@.wf(),
        ensures
            r@ == spec_all_moves(self@),
            forall|k: int| 0 <= k < r@.len() ==> (#[trigger] r@[k]).wf(),
    {
        let pieces = self.get_pieces(self.current_turn());
        proof {
            crate::board::lemma_pieces_upto_props(self@, self@.turn(), 64);
        }
        let mut moves: Vec<Move> = Vec::new();
        let mut i: usize = 0;
        while i < pieces.len()
            invariant
                self@.wf(),
                i <= pieces@.len(),
                pieces@ == spec_pieces(self@, self@.turn()),
                forall|j: int|
                    0 <= j < pieces@.len() ==> (#[trigger] pieces@[j]).0.wf() && self@.at(
                        pieces@[j].0,
                    ) == Some(pieces@[j].1),
                moves@ == spec_moves_of_pieces(self@, pieces@.take(i as int)),
                forall|k: int| 0 <= k < moves@.len() ==> (#[trigger] moves@[k]).wf(),
            decreases pieces@.len() - i,
        {
            let (pos, _) = pieces[i];
            let ghost before = moves@;
            match self.get_moves(&pos) {
                Some(ms) => {
                    let mut k: usize = 0;
                    while k < ms.len()
                        invariant
                            k <= ms@.len(),
                            moves@ == before + ms@.take(k as int),
                            forall|t: int| 0 <= t < ms@.len() ==> (#[trigger] ms@[t]).wf(),
                            forall|t: int| 0 <= t < before.len() ==> (#[trigger] before[t]).wf(),
                        decreases ms@.len() - k,
                    {
                        moves.push(ms[k]);
                        proof {
                            assert(moves@ =~= before + ms@.take(k + 1));
                        }
                        k = k + 1;
                    }
                    proof {
                        assert(ms@.take(ms@.len() as int) =~= ms@);
                        assert(pieces@.take(i + 1).drop_last() =~= pieces@.take(i as int));
                        assert(pieces@.take(i + 1).last() == pieces@[i as int]);
                    }
                },
                None => {
                    proof {
                        assert(false);
                    }
                },
            }
            i = i + 1;
        }
        proof {
            assert(pieces@.take(pieces@.len() as int) =~= pieces@);
        }
        moves
    }

    /// The boards one move ahead, in the search's move order. Empty exactly
    /// when the side to move has lost its king or has no candidate move.
    pub fn get_next_states(&self) -> (r: Vec<Board>)
        requires
            self@.wf(),
            self@.ply + 1 <= usize::MAX,
        ensures
            spec_board_views(r@) == spec_next_states(self@),
            r@.len() == spec_next_states(self@).len(),
            forall|j: int| 0 <= j < r@.len() ==> (#[trigger] r@[j])@ == spec_next_states(self@)[j],
            forall|j: int|
                0 <= j < r@.len() ==> (#[trigger] r@[j])@.wf() && r@[j]@.ply == self@.ply + 1
                    && r@[j]@.last_move is Some && r@[j]@.last_move->Some_0.wf(),
    {
        let color = self.current_turn();
        let pieces = self.get_pieces(color);
        if !pieces_have_king(&pieces) {
            let out: Vec<Board> = Vec::new();
            proof {
                assert(spec_board_views(out@) =~= spec_next_states(self@));
            }
            return out;
        }
        let moves = self.collect_moves();
        let sorted = sort_moves(&moves);
        let mut out: Vec<Board> = Vec::new();
        let mut i: usize = 0;
        while i < sorted.len()
            invariant
                self@.wf(),
                self@.ply + 1 <= usize::MAX,
                i <= sorted@.len(),
                out@.len() == i,
                sorted@ == spec_sort_moves(spec_all_moves(self@)),
                forall|k: int| 0 <= k < sorted@.len() ==> (#[trigger] sorted@[k]).wf(),
                forall|j: int|
                    0 <= j < i ==> (#[trigger] out@[j])@ == spec_apply(self@, sorted@[j]),
                forall|j: int|
                    0 <= j < i ==> (#[trigger] out@[j])@.wf() && out@[j]@.ply == self@.ply + 1
                        && out@[j]@.last_move is Some && out@[j]@.last_move->Some_0.wf(),
            decreases sorted@.len() - i,
        {
            let b = self.apply(&sorted[i]);
            out.push(b);
            i = i + 1;
        }
        proof {
            assert(spec_board_views(out@) =~= spec_next_states(self@));
        }
        out
    }
}

/// One round of the pruning loop over the successor list, from child `i`
/// with the window `(alpha, beta)` and the best pair seen so far: each child
/// is searched with the negated, swapped window; a child at least as good as
/// the best seen replaces it; `alpha` rises to the child's value; and the
/// walk stops as soon as `alpha` reaches `beta`.
pub open spec fn spec_ab_loop(
    cs: Seq<BoardView>,
    i: int,
    depth: nat,
    alpha: Evaluation,
    beta: Evaluation,
    best: (BoardView, Evaluation),
    seed: u64,
) -> (BoardView, Evaluation)
    decreases depth + 1, cs.len() - i,
{
    if i < 0 || i >= cs.len() {
        best
    } else {
        let sub = spec_ab(cs[i], depth, spec_eval_negate(beta), spec_eval_negate(alpha), seed);
        let ce = spec_eval_negate(sub.1);
        let best2 = if spec_eval_ge(ce, best.1) {
            (cs[i], ce)
        } else {
            best
        };
        let alpha2 = if spec_eval_lt(alpha, ce) {
            ce
        } else {
            alpha
        };
        if spec_eval_ge(alpha2, beta) {
            best2
        } else {
            spec_ab_loop(cs, i + 1, depth, alpha2, beta, best2, seed)
        }
    }
}

/// The negamax search with alpha-beta pruning: at depth zero or without
/// successors the position's own evaluation is returned with the position
/// itself; otherwise the pruning loop picks the best successor and the
/// decisive distance grows by one ply on the way up.
pub open spec fn spec_ab(
    v: BoardView,
    depth: nat,
    alpha: Evaluation,
    beta: Evaluation,
    seed: u64,
) -> (BoardView, Evaluation)
    decreases depth, spec_next_states(v).len() + 1,
{
    let cs = spec_next_states(v);
    if depth == 0 || cs.len() == 0 {
        (v, spec_evaluate(v, seed))
    } else {
        let r = spec_ab_loop(
            cs,
            0,
            (depth - 1) as nat,
            alpha,
            beta,
            (cs[0], Evaluation::Loss(0)),
            seed,
        );
        (r.0, spec_eval_increment(r.1))
    }
}

/// The static evaluation stays within fixed bounds.
pub proof fn lemma_evaluate_bounded(v: BoardView, seed: u64)
    ensures
        spec_eval_bounded(spec_evaluate(v, seed), 0),
        spec_eval_negatable(spec_evaluate(v, seed)),
{
    crate::board::lemma_pieces_upto_props(v, v.turn(), 64);
    crate::board::lemma_pieces_upto_props(v, v.turn().spec_opposite(), 64);
    lemma_material_bounds(spec_pieces(v, v.turn()));
    lemma_material_bounds(spec_pieces(v, v.turn().spec_opposite()));
}

/// The search result's value keeps its decisive distance at most the depth,
/// and the chosen line is a successor whenever the node has any.
pub proof fn lemma_ab_props(v: BoardView, depth: nat, alpha: Evaluation, beta: Evaluation, seed: u64)
    ensures
        spec_eval_bounded(spec_ab(v, depth, alpha, beta, seed).1, depth as int),
        spec_eval_negatable(spec_ab(v, depth, alpha, beta, seed).1),
        depth > 0 && spec_next_states(v).len() > 0 ==> spec_next_states(v).contains(
            spec_ab(v, depth, alpha, beta, seed).0,
        ),
    decreases depth, spec_next_states(v).len() + 1,
{
    let cs = spec_next_states(v);
    if depth == 0 || cs.len() == 0 {
        lemma_evaluate_bounded(v, seed);
    } else {
        let init = (cs[0], Evaluation::Loss(0));
        assert(cs.contains(cs[0]));
        lemma_ab_loop_props(cs, 0, (depth - 1) as nat, alpha, beta, init, seed);
    }
}

/// The pruning loop returns a pair whose value stays bounded and whose
/// board is drawn from the successor list.
pub proof fn lemma_ab_loop_props(
    cs: Seq<BoardView>,
    i: int,
    depth: nat,
    alpha: Evaluation,
    beta: Evaluation,
    best: (BoardView, Evaluation),
    seed: u64,
)
    requires
        spec_eval_bounded(best.1, depth as int),
        cs.contains(best.0),
    ensures
        spec_eval_bounded(spec_ab_loop(cs, i, depth, alpha, beta, best, seed).1, depth as int),
        cs.contains(spec_ab_loop(cs, i, depth, alpha, beta, best, seed).0),
    decreases depth + 1, cs.len() - i,
{
    if 0 <= i < cs.len() {
        lemma_ab_props(cs[i], depth, spec_eval_negate(beta), spec_eval_negate(alpha), seed);
        let sub = spec_ab(cs[i], depth, spec_eval_negate(beta), spec_eval_negate(alpha), seed);
        let ce = spec_eval_negate(sub.1);
        assert(spec_eval_bounded(ce, depth as int));
        let best2 = if spec_eval_ge(ce, best.1) {
            (cs[i], ce)
        } else {
            best
        };
        assert(cs.contains(cs[i]));
        let alpha2 = if spec_eval_lt(alpha, ce) {
            ce
        } else {
            alpha
        };
        if !spec_eval_ge(alpha2, beta) {
            lemma_ab_loop_props(cs, i + 1, depth, alpha2, beta, best2, seed);
        }
    }
}

/// The recursive search, mirroring [`spec_ab`] exactly.
fn negamax_inner(node: &Board, depth: usize, alpha: Evaluation, beta: Evaluation, seed: u64) -> (r:
    (Board, Evaluation))
    requires
        node@.wf(),
        node@.ply + depth + 1 <= usize::MAX,
        spec_eval_negatable(alpha),
        spec_eval_negatable(beta),
    ensures
        r.0@ == spec_ab(node@, depth as nat, alpha, beta, seed).0,
        r.1 == spec_ab(node@, depth as nat, alpha, beta, seed).1,
        r.0@.wf(),
        depth > 0 && spec_next_states(node@).len() > 0 ==> r.0@.last_move is Some
            && r.0@.last_move->Some_0.wf() && r.0@.ply == node@.ply + 1,
    decreases depth,
{
    let children = node.get_next_states();
    if depth == 0 || children.len() == 0 {
        return (node.duplicate(), node.evaluate(seed));
    }
    let ghost cs = spec_next_states(node@);
    let ghost alpha0 = alpha;
    let ghost d1 = (depth - 1) as nat;
    let ghost target = spec_ab_loop(
        cs,
        0,
        d1,
        alpha0,
        beta,
        (cs[0], Evaluation::Loss(0)),
        seed,
    );
    let mut cur_alpha = alpha;
    let mut best_eval = Evaluation::Loss(0);
    let mut best_idx: usize = 0;
    let mut i: usize = 0;
    let mut cut = false;
    while i < children.len() && !cut
        invariant
            node@.wf(),
            node@.ply + depth + 1 <= usize::MAX,
            1 <= depth,
            d1 == (depth - 1) as nat,
            cs == spec_next_states(node@),
            target == spec_ab_loop(cs, 0, d1, alpha0, beta, (cs[0], Evaluation::Loss(0)), seed),
            children@.len() == cs.len(),
            cs.len() > 0,
            forall|j: int| 0 <= j < children@.len() ==> (#[trigger] children@[j])@ == cs[j],
            forall|j: int|
                0 <= j < children@.len() ==> (#[trigger] children@[j])@.wf() && children@[j]@.ply
                    == node@.ply + 1 && children@[j]@.last_move is Some
                    && children@[j]@.last_move->Some_0.wf(),
            i <= children@.len(),
            best_idx < children@.len(),
            spec_eval_negatable(cur_alpha),
            spec_eval_negatable(beta),
            spec_eval_bounded(best_eval, d1 as int),
            !cut ==> spec_ab_loop(cs, i as int, d1, cur_alpha, beta, (cs[best_idx as int], best_eval), seed)
                == target,
            cut ==> (cs[best_idx as int], best_eval) == target,
        decreases children@.len() - i + (if cut { 0int } else { 1int }),
    {
        let child = &children[i];
        proof {
            assert(child@ == cs[i as int]);
            assert(spec_eval_negatable(spec_eval_negate(beta)));
            assert(spec_eval_negatable(spec_eval_negate(cur_alpha)));
        }
        let sub = negamax_inner(child, depth - 1, beta.negate(), cur_alpha.negate(), seed);
        proof {
            lemma_ab_props(
                cs[i as int],
                d1,
                spec_eval_negate(beta),
                spec_eval_negate(cur_alpha),
                seed,
            );
        }
        let child_eval = sub.1.negate();
        proof {
            assert(spec_eval_bounded(child_eval, d1 as int));
            assert(spec_eval_negatable(child_eval));
        }
        let ghost entry_alpha = cur_alpha;
        let ghost entry_best = (cs[best_idx as int], best_eval);
        if child_eval >= best_eval {
            best_eval = child_eval;
            best_idx = i;
        }
        if cur_alpha < child_eval {
            cur_alpha = child_eval;
        }
        proof {
            let ce = spec_eval_negate(
                spec_ab(
                    cs[i as int],
                    d1,
                    spec_eval_negate(beta),
                    spec_eval_negate(entry_alpha),
                    seed,
                ).1,
            );
            assert(ce == child_eval);
            assert((cs[best_idx as int], best_eval) == (if spec_eval_ge(ce, entry_best.1) {
                (cs[i as int], ce)
            } else {
                entry_best
            }));
            assert(cur_alpha == (if spec_eval_lt(entry_alpha, ce) {
                ce
            } else {
                entry_alpha
            }));
        }
        if cur_alpha >= beta {
            cut = true;
        } else {
            i = i + 1;
        }
    }
    let best_board = children[best_idx].duplicate();
    let result_eval = best_eval.increment_depth();
    proof {
        if !cut {
            assert((cs[best_idx as int], best_eval) == target);
        }
        assert(spec_ab(node@, depth as nat, alpha, beta, seed) == (
            target.0,
            spec_eval_increment(target.1),
        ));
    }
    (best_board, result_eval)
}

/// Search from a position to the given depth with the full initial window.
pub fn negamax_search(initial: &Board, max_depth: usize, seed: u64) -> (r: (Board, Evaluation))
    requires
        initial@.wf(),
        initial@.ply + max_depth + 1 <= usize::MAX,
    ensures
        r.0@ == spec_negamax(initial@, max_depth as nat, seed).0,
        r.1 == spec_negamax(initial@, max_depth as nat, seed).1,
        r.0@.wf(),
        max_depth > 0 && spec_next_states(initial@).len() > 0 ==> r.0@.last_move is Some
            && r.0@.last_move->Some_0.wf() && r.0@.ply == initial@.ply + 1,
{
    negamax_inner(initial, max_depth, Evaluation::Loss(1), Evaluation::Win(1), seed)
}

/// The search with its initial window: `alpha = Loss(1)`, `beta = Win(1)`.
pub open spec fn spec_negamax(v: BoardView, depth: nat, seed: u64) -> (BoardView, Evaluation) {
    spec_ab(v, depth, Evaluation::Loss(1), Evaluation::Win(1), seed)
}

} // verus!
