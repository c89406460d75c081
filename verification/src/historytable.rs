use vstd::prelude::*;
use crate::chessmove::Move;
use crate::types::{Colour, Piece, PieceType, Square};

verus! {

broadcast use crate::types::group_square;

/// The largest size of an entry of a history table, and what the pull of an update
/// is divided by.
pub const MAX_HISTORY: i32 = 32767;

/// The number by which the entries of a table are divided when they age.
pub const AGEING_DIVISOR: i32 = 4;

/// The number of squares of the board.
pub const BOARD_N_SQUARES: usize = 64;

/// The size of a table keyed by piece and square.
pub const PIECE_SQUARE_SLOTS: usize = 768;

/// The number of entries that a correction history has for each side.
pub const CORRECTION_HISTORY_SIZE: usize = 16384;

/// The units of a correction history entry that make one unit of evaluation.
pub const CORRECTION_HISTORY_GRAIN: i32 = 256;

/// The weight that the old entry and the new difference share in an update.
pub const CORRECTION_HISTORY_WEIGHT_SCALE: i32 = 256;

/// The largest size of a correction history entry.
pub const CORRECTION_HISTORY_MAX: i32 = 8192;

/// The quotient of `a` by `b`, rounded towards zero.
pub open spec fn trunc_div(a: int, b: int) -> int
    recommends
        b > 0,
{
    if a >= 0 {
        a / b
    } else {
        -((-a) / b)
    }
}

/// The size of `d`.
pub open spec fn magnitude(d: int) -> int {
    if d < 0 {
        -d
    } else {
        d
    }
}

/// The entry `v` after an update by `delta`: it moves by `delta` and is pulled back
/// towards zero by its own size, `v + delta - v * |delta| / MAX_HISTORY`.
pub open spec fn gravity(v: int, delta: int) -> int {
    v + delta - trunc_div(v * magnitude(delta), MAX_HISTORY as int)
}

/// An entry and an update within the largest size leave an entry within it.
pub proof fn lemma_gravity_bounded(v: int, delta: int)
    requires
        -32767 <= v <= 32767,
        -32767 <= delta <= 32767,
    ensures
        -32767 <= gravity(v, delta) <= 32767,
        -32767 * 32767 <= v * magnitude(delta) <= 32767 * 32767,
{
    let a = magnitude(delta);
    assert(-32767 * 32767 <= v * a <= 32767 * 32767) by (nonlinear_arith)
        requires
            -32767 <= v <= 32767,
            0 <= a <= 32767,
    ;
    if v >= 0 {
        let q = (v * a) / 32767;
        assert(q * 32767 <= v * a < (q + 1) * 32767 && 0 <= q) by (nonlinear_arith)
            requires
                q == (v * a) / 32767,
                v * a >= 0,
        ;
        assert((32767 - v) * (32767 - a) >= 0) by (nonlinear_arith)
            requires
                0 <= v <= 32767,
                0 <= a <= 32767,
        ;
        assert(v * a >= 32767 * (a + v - 32767)) by (nonlinear_arith)
            requires
                (32767 - v) * (32767 - a) >= 0,
        ;
        assert(q <= v) by (nonlinear_arith)
            requires
                q * 32767 <= v * a,
                0 <= a <= 32767,
                0 <= v,
                0 <= q,
        ;
    } else {
        let w = -v;
        let q = (w * a) / 32767;
        assert(-(v * a) == w * a) by (nonlinear_arith)
            requires
                w == -v,
        ;
        assert(q * 32767 <= w * a < (q + 1) * 32767 && 0 <= q) by (nonlinear_arith)
            requires
                q == (w * a) / 32767,
                w * a >= 0,
                w >= 0,
                a >= 0,
        ;
        assert((32767 - w) * (32767 - a) >= 0) by (nonlinear_arith)
            requires
                0 <= w <= 32767,
                0 <= a <= 32767,
        ;
        assert(w * a >= 32767 * (a + w - 32767)) by (nonlinear_arith)
            requires
                (32767 - w) * (32767 - a) >= 0,
        ;
        assert(q <= w) by (nonlinear_arith)
            requires
                q * 32767 <= w * a,
                0 <= a <= 32767,
                0 <= w,
                0 <= q,
        ;
    }
}

/// Updates the entry `val` by `delta`: it moves by `delta` and is pulled back towards
/// zero by its own size. An entry and an update within `MAX_HISTORY` leave an entry
/// within it.
pub fn update_history(val: &mut i32, delta: i32)
    requires
        -MAX_HISTORY <= *old(val) <= MAX_HISTORY,
        -MAX_HISTORY <= delta <= MAX_HISTORY,
    ensures
        *final(val) == gravity(*old(val) as int, delta as int),
        -MAX_HISTORY <= *final(val) <= MAX_HISTORY,
{
    proof {
        lemma_gravity_bounded(*val as int, delta as int);
    }
    let a: i32 = if delta < 0 { -delta } else { delta };
    *val = *val + delta - (*val * a) / MAX_HISTORY;
}

/// The number of pieces that the tables tell apart.
pub fn pslots() -> (r: usize)
    ensures
        r == 12,
{
    12
}

/// The number of the kind of `piece`, from 0 to 5.
pub fn uncoloured_piece_index(piece: Piece) -> (r: usize)
    ensures
        r == piece.kind().idx(),
{
    piece.index() % 6
}

/// The number of `piece`, from 0 to 11.
pub fn coloured_piece_index(piece: Piece) -> (r: usize)
    ensures
        r == piece.idx(),
{
    piece.index()
}

/// The number by which the tables know `piece`: colours are told apart.
pub fn hist_table_piece_offset(piece: Piece) -> (r: usize)
    ensures
        r == piece.idx(),
        r < 12,
{
    coloured_piece_index(piece)
}

/// The bonus of a cutoff at `depth`, before it is capped: `depth * depth + depth`.
pub fn history_bonus(depth: i32) -> (r: i32)
    requires
        0 <= depth <= 1024,
    ensures
        r == depth * depth + depth,
{
    assert(0 <= depth * depth <= 1024 * 1024) by (nonlinear_arith)
        requires
            0 <= depth <= 1024,
    ;
    depth * depth + depth
}

/// Whether every entry is within the largest size.
pub open spec fn bounded(s: Seq<i32>, max: int) -> bool {
    forall|i: int| 0 <= i < s.len() ==> -max <= #[trigger] s[i] <= max
}

/// A table of `n` zeros.
pub fn zeros(n: usize) -> (r: Vec<i32>)
    ensures
        r@.len() == n,
        forall|i: int| 0 <= i < n ==> r@[i] == 0,
{
    let mut r: Vec<i32> = Vec::new();
    let mut i: usize = 0;
    while i < n
        invariant
            i <= n,
            r@.len() == i,
            forall|j: int| 0 <= j < i ==> r@[j] == 0,
        decreases n - i,
    {
        r.push(0);
        i = i + 1;
    }
    r
}

/// Divides every entry by four, rounding towards zero.
pub fn age(v: &mut Vec<i32>)
    ensures
        final(v)@.len() == old(v)@.len(),
        forall|i: int|
            0 <= i < old(v)@.len() ==> #[trigger] final(v)@[i] == trunc_div(old(v)@[i] as int, 4),
{
    let n = v.len();
    let mut i: usize = 0;
    while i < n
        invariant
            i <= n == v@.len() == old(v)@.len(),
            forall|j: int| 0 <= j < i ==> #[trigger] v@[j] == trunc_div(old(v)@[j] as int, 4),
            forall|j: int| i <= j < n ==> #[trigger] v@[j] == old(v)@[j],
        decreases n - i,
    {
        let x: i32 = v[i];
        v[i] = x / AGEING_DIVISOR;
        i = i + 1;
    }
}

proof fn lemma_aged_bounded(a: Seq<i32>, b: Seq<i32>, max: int)
    requires
        max >= 0,
        bounded(a, max),
        a.len() == b.len(),
        forall|i: int| 0 <= i < a.len() ==> #[trigger] b[i] == trunc_div(a[i] as int, 4),
    ensures
        bounded(b, max),
{
    assert forall|i: int| 0 <= i < b.len() implies -max <= #[trigger] b[i] <= max by {
        assert(b[i] == trunc_div(a[i] as int, 4));
        assert(-max <= a[i] <= max);
    }
}

/// A history table keyed by piece and square.
pub struct HistoryTable {
    pub table: Vec<i32>,
}

impl HistoryTable {
    /// Whether the table has its size and every entry is within `MAX_HISTORY`.
    pub open spec fn wf(&self) -> bool {
        self.table@.len() == 768 && bounded(self.table@, 32767)
    }

    /// The place of the entry for `piece` on `sq`.
    pub open spec fn slot(piece: Piece, sq: Square) -> int {
        piece.idx() * 64 + sq.idx()
    }

    /// The table of zeros.
    pub fn new() -> (r: HistoryTable)
        ensures
            r.wf(),
            forall|i: int| 0 <= i < 768 ==> r.table@[i] == 0,
    {
        HistoryTable { table: zeros(768) }
    }

    /// Sets every entry to zero.
    pub fn clear(&mut self)
        ensures
            final(self).wf(),
            forall|i: int| 0 <= i < 768 ==> final(self).table@[i] == 0,
    {
        self.table = zeros(768);
    }

    /// Divides every entry by four, rounding towards zero.
    pub fn age_entries(&mut self)
        requires
            old(self).wf(),
        ensures
            final(self).wf(),
            forall|i: int|
                0 <= i < 768 ==> #[trigger] final(self).table@[i] == trunc_div(
                    old(self).table@[i] as int,
                    4,
                ),
    {
        age(&mut self.table);
        proof {
            lemma_aged_bounded(old(self).table@, self.table@, 32767);
        }
    }

    /// The entry for `piece` on `sq`.
    pub fn get(&self, piece: Piece, sq: Square) -> (r: i32)
        requires
            self.wf(),
        ensures
            r == self.table@[HistoryTable::slot(piece, sq)],
            -MAX_HISTORY <= r <= MAX_HISTORY,
    {
        let pt = hist_table_piece_offset(piece);
        self.table[pt * 64 + sq.index() as usize]
    }

    /// The entry for `piece` on `sq`, to be changed in place.
    pub fn get_mut(&mut self, piece: Piece, sq: Square) -> (r: &mut i32)
        requires
            old(self).wf(),
        ensures
            *r == old(self).table@[HistoryTable::slot(piece, sq)],
            final(self).table@ == old(self).table@.update(
                HistoryTable::slot(piece, sq),
                *final(r),
            ),
    {
        let pt = hist_table_piece_offset(piece);
        &mut self.table[pt * 64 + sq.index() as usize]
    }
}

/// A history table keyed by two pieces and two squares: the continuation history.
pub struct DoubleHistoryTable {
    pub table: Vec<i32>,
}

impl DoubleHistoryTable {
    /// Whether the table has its size and every entry is within `MAX_HISTORY`.
    pub open spec fn wf(&self) -> bool {
        self.table@.len() == 589824 && bounded(self.table@, 32767)
    }

    /// The place of the entry for `piece_2` on `sq2` after `piece_1` on `sq1`.
    pub open spec fn slot(piece_1: Piece, sq1: Square, piece_2: Piece, sq2: Square) -> int {
        piece_1.idx() * 49152 + sq1.idx() * 768 + piece_2.idx() * 64 + sq2.idx()
    }

    /// The table without entries. It has to be cleared before it is used.
    pub fn new() -> (r: DoubleHistoryTable)
        ensures
            r.table@.len() == 0,
    {
        DoubleHistoryTable { table: Vec::new() }
    }

    /// Gives the table its size and sets every entry to zero.
    pub fn clear(&mut self)
        ensures
            final(self).wf(),
            forall|i: int| 0 <= i < 589824 ==> final(self).table@[i] == 0,
    {
        self.table = zeros(589824);
    }

    /// Divides every entry by four, rounding towards zero.
    pub fn age_entries(&mut self)
        requires
            old(self).wf(),
        ensures
            final(self).wf(),
            forall|i: int|
                0 <= i < 589824 ==> #[trigger] final(self).table@[i] == trunc_div(
                    old(self).table@[i] as int,
                    4,
                ),
    {
        age(&mut self.table);
        proof {
            lemma_aged_bounded(old(self).table@, self.table@, 32767);
        }
    }

    /// The entry for `piece_2` on `sq2` after `piece_1` on `sq1`.
    pub fn get(&self, piece_1: Piece, sq1: Square, piece_2: Piece, sq2: Square) -> (r: i32)
        requires
            self.wf(),
        ensures
            r == self.table@[DoubleHistoryTable::slot(piece_1, sq1, piece_2, sq2)],
            -MAX_HISTORY <= r <= MAX_HISTORY,
    {
        let pt_1 = hist_table_piece_offset(piece_1);
        let pt_2 = hist_table_piece_offset(piece_2);
        let idx = pt_1 * 49152 + sq1.index() as usize * 768 + pt_2 * 64 + sq2.index() as usize;
        self.table[idx]
    }

    /// The entry for `piece_2` on `sq2` after `piece_1` on `sq1`, to be changed in
    /// place.
    pub fn get_mut(&mut self, piece_1: Piece, sq1: Square, piece_2: Piece, sq2: Square) -> (r:
        &mut i32)
        requires
            old(self).wf(),
        ensures
            *r == old(self).table@[DoubleHistoryTable::slot(piece_1, sq1, piece_2, sq2)],
            final(self).table@ == old(self).table@.update(
                DoubleHistoryTable::slot(piece_1, sq1, piece_2, sq2),
                *final(r),
            ),
    {
        let pt_1 = hist_table_piece_offset(piece_1);
        let pt_2 = hist_table_piece_offset(piece_2);
        let idx = pt_1 * 49152 + sq1.index() as usize * 768 + pt_2 * 64 + sq2.index() as usize;
        &mut self.table[idx]
    }
}

/// A table of moves keyed by piece and square.
pub struct MoveTable {
    pub table: Vec<Move>,
}

impl MoveTable {
    /// Whether the table has its size.
    pub open spec fn wf(&self) -> bool {
        self.table@.len() == 768
    }

    /// The table without entries. It has to be cleared before it is used.
    pub fn new() -> (r: MoveTable)
        ensures
            r.table@.len() == 0,
    {
        MoveTable { table: Vec::new() }
    }

    /// Gives the table its size and sets every entry to the null move.
    pub fn clear(&mut self)
        ensures
            final(self).wf(),
            forall|i: int| 0 <= i < 768 ==> final(self).table@[i].data == 0,
    {
        let mut t: Vec<Move> = Vec::new();
        let mut i: usize = 0;
        while i < 768
            invariant
                i <= 768,
                t@.len() == i,
                forall|j: int| 0 <= j < i ==> t@[j].data == 0,
            decreases 768 - i,
        {
            t.push(Move::null());
            i = i + 1;
        }
        self.table = t;
    }

    /// Sets the move for `piece` on `sq`.
    pub fn add(&mut self, piece: Piece, sq: Square, m: Move)
        requires
            old(self).wf(),
        ensures
            final(self).table@ == old(self).table@.update(HistoryTable::slot(piece, sq), m),
    {
        let pt = hist_table_piece_offset(piece);
        self.table[pt * 64 + sq.index() as usize] = m;
    }

    /// The move for `piece` on `sq`.
    pub fn get(&self, piece: Piece, sq: Square) -> (r: Move)
        requires
            self.wf(),
        ensures
            r == self.table@[HistoryTable::slot(piece, sq)],
    {
        let pt = hist_table_piece_offset(piece);
        self.table[pt * 64 + sq.index() as usize]
    }
}

} // verus!
