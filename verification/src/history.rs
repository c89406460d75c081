use vstd::prelude::*;
use crate::board::{Board, ContHistIndex, MovedPiece, UpdateBuffer};
use crate::chessmove::Move;
use crate::movelist::{MoveList, MoveListEntry};
use crate::historytable::{
    bounded, gravity, hist_table_piece_offset, lemma_gravity_bounded, trunc_div, update_history,
    zeros, DoubleHistoryTable, HistoryTable, CORRECTION_HISTORY_GRAIN, CORRECTION_HISTORY_MAX,
    CORRECTION_HISTORY_SIZE, CORRECTION_HISTORY_WEIGHT_SCALE, MAX_HISTORY,
};
use crate::squareset::SquareSet;
use crate::types::{Colour, Piece, PieceType, Square};

verus! {

broadcast use crate::types::group_square;

/// The greatest number of half moves that a search looks ahead.
pub const MAX_PLY: usize = 240;

/// How a bonus or malus grows with the depth `d` of a search:
/// `min(cap, quad * d * d + lin * d)`.
#[derive(Clone, Copy, Debug, PartialEq, Eq, Structural)]
pub struct HistoryParams {
    pub quad: i32,
    pub lin: i32,
    pub cap: i32,
}

impl HistoryParams {
    /// Whether the coefficients are in range: none negative, the two factors at most
    /// 4096 and the cap at most `MAX_HISTORY`.
    pub open spec fn wf(&self) -> bool {
        0 <= self.quad <= 4096 && 0 <= self.lin <= 4096 && 0 <= self.cap <= MAX_HISTORY
    }

    /// The amount at depth `d`.
    pub open spec fn amount(&self, d: int) -> int {
        if self.quad * d * d + self.lin * d < self.cap {
            self.quad * d * d + self.lin * d
        } else {
            self.cap as int
        }
    }

    /// The amount at depth `depth`.
    pub fn at_depth(&self, depth: i32) -> (r: i32)
        requires
            self.wf(),
            0 <= depth <= 1024,
        ensures
            r == self.amount(depth as int),
            0 <= r <= MAX_HISTORY,
    {
        let d: i64 = depth as i64;
        let q: i64 = self.quad as i64;
        let l: i64 = self.lin as i64;
        assert(0 <= q * d <= 4096 * 1024 && 0 <= q * d * d <= 4096 * 1024 * 1024 && 0 <= l * d
            <= 4096 * 1024) by (nonlinear_arith)
            requires
                0 <= q <= 4096,
                0 <= l <= 4096,
                0 <= d <= 1024,
        ;
        let raw: i64 = q * d * d + l * d;
        if raw < self.cap as i64 {
            raw as i32
        } else {
            self.cap
        }
    }
}

/// What the search can be tuned with, as far as the tables of this library go.
#[derive(Clone, Copy, Debug, PartialEq, Eq, Structural)]
pub struct Config {
    pub main_history_bonus: HistoryParams,
    pub main_history_malus: HistoryParams,
    pub tactical_history_bonus: HistoryParams,
    pub tactical_history_malus: HistoryParams,
    pub cont_history_bonus: HistoryParams,
    pub cont_history_malus: HistoryParams,
    pub pawn_corrhist_weight: i32,
    pub major_corrhist_weight: i32,
    pub minor_corrhist_weight: i32,
    pub nonpawn_corrhist_weight: i32,
}

impl Config {
    /// Whether every setting is in range: the bonuses and maluses as their kind asks,
    /// the weights of the correction histories at most 65536 in size.
    pub open spec fn wf(&self) -> bool {
        &&& self.main_history_bonus.wf()
        &&& self.main_history_malus.wf()
        &&& self.tactical_history_bonus.wf()
        &&& self.tactical_history_malus.wf()
        &&& self.cont_history_bonus.wf()
        &&& self.cont_history_malus.wf()
        &&& -65536 <= self.pawn_corrhist_weight <= 65536
        &&& -65536 <= self.major_corrhist_weight <= 65536
        &&& -65536 <= self.minor_corrhist_weight <= 65536
        &&& -65536 <= self.nonpawn_corrhist_weight <= 65536
    }
}

/// Which history a move is looked up in.
#[derive(Clone, Copy, Debug, PartialEq, Eq, Structural)]
pub enum HistKind {
    /// By moved piece, the square it ends on, and whether origin and that square are
    /// attacked.
    Main,
    /// By moved piece, target, and kind of the captured piece.
    Tactical,
    /// By the piece and square of an earlier move, then by moved piece and the square
    /// it ends on.
    Continuation(ContHistIndex),
}

/// The kind of piece that the tactical history files `mv` under: a pawn for en-passant
/// captures and promotions, else the kind of the piece on the target.
pub open spec fn captured_kind(pos: Board, mv: Move) -> PieceType {
    if mv.en_passant() || mv.promotes() {
        PieceType::Pawn
    } else {
        pos.at(mv.target())->0.kind()
    }
}

/// The kind of piece that the tactical history files `mv` under.
pub fn caphist_piece_type(pos: &Board, mv: Move) -> (r: PieceType)
    requires
        mv.en_passant() || mv.promotes() || pos.at(mv.target()) is Some,
    ensures
        r == captured_kind(*pos, mv),
{
    if mv.is_ep() || mv.is_promo() {
        PieceType::Pawn
    } else {
        pos.piece_at(mv.to()).unwrap().piece_type()
    }
}

/// Whether `m` can be looked up in the history `kind`: a piece stands on its origin,
/// and for the tactical history it captures or promotes.
pub open spec fn filed(kind: HistKind, pos: Board, m: Move) -> bool {
    pos.at(m.origin()) is Some && (kind == HistKind::Tactical ==> m.en_passant() || m.promotes()
        || pos.at(m.target()) is Some)
}

/// The number of entries of the history `kind`.
pub open spec fn hist_size(kind: HistKind) -> int {
    match kind {
        HistKind::Main => 3072,
        HistKind::Tactical => 4608,
        HistKind::Continuation(_) => 589824,
    }
}

/// The place of the entry for `m` in the history `kind`.
pub open spec fn hist_slot(kind: HistKind, pos: Board, m: Move) -> int {
    let piece = pos.at(m.origin())->0;
    match kind {
        HistKind::Main => ((if pos.threats.all.has(m.origin()) {
            2int
        } else {
            0
        }) + (if pos.threats.all.has(m.history_target()) {
            1int
        } else {
            0
        })) * 768 + HistoryTable::slot(piece, m.history_target()),
        HistKind::Tactical => captured_kind(pos, m).idx() * 768 + HistoryTable::slot(
            piece,
            m.target(),
        ),
        HistKind::Continuation(c) => DoubleHistoryTable::slot(
            c.piece,
            c.square,
            piece,
            m.history_target(),
        ),
    }
}

/// The table `t` after each of `moves` in turn has had its entry updated: by `bonus`
/// for the move `best`, by minus `malus` for every other move.
pub open spec fn adjusted(
    kind: HistKind,
    t: Seq<i32>,
    pos: Board,
    moves: Seq<Move>,
    best: Move,
    bonus: int,
    malus: int,
) -> Seq<i32>
    decreases moves.len(),
{
    if moves.len() == 0 {
        t
    } else {
        let prev = adjusted(kind, t, pos, moves.drop_last(), best, bonus, malus);
        let i = hist_slot(kind, pos, moves.last());
        prev.update(
            i,
            gravity(
                prev[i] as int,
                if moves.last() == best {
                    bonus
                } else {
                    -malus
                },
            ) as i32,
        )
    }
}

fn slot_of(kind: HistKind, pos: &Board, m: Move) -> (r: usize)
    requires
        filed(kind, *pos, m),
    ensures
        r == hist_slot(kind, *pos, m),
        r < hist_size(kind),
{
    let piece = pos.moved_piece(m).unwrap();
    let p = hist_table_piece_offset(piece);
    match kind {
        HistKind::Main => {
            let from = m.from();
            let to = m.history_to_square();
            let a: usize = if pos.threats.all.contains_square(from) { 2 } else { 0 };
            let b: usize = if pos.threats.all.contains_square(to) { 1 } else { 0 };
            (a + b) * 768 + p * 64 + to.index() as usize
        },
        HistKind::Tactical => {
            let capture = caphist_piece_type(pos, m);
            capture.index() * 768 + p * 64 + m.to().index() as usize
        },
        HistKind::Continuation(c) => {
            let p1 = hist_table_piece_offset(c.piece);
            p1 * 49152 + c.square.index() as usize * 768 + p * 64
                + m.history_to_square().index() as usize
        },
    }
}

fn adjust_all(
    table: &mut Vec<i32>,
    kind: HistKind,
    pos: &Board,
    moves_to_adjust: &[Move],
    best_move: Move,
    bonus: i32,
    malus: i32,
)
    requires
        old(table)@.len() == hist_size(kind),
        bounded(old(table)@, 32767),
        0 <= bonus <= MAX_HISTORY,
        0 <= malus <= MAX_HISTORY,
        forall|i: int| 0 <= i < moves_to_adjust@.len() ==> filed(kind, *pos, #[trigger] moves_to_adjust@[i]),
    ensures
        final(table)@ == adjusted(
            kind,
            old(table)@,
            *pos,
            moves_to_adjust@,
            best_move,
            bonus as int,
            malus as int,
        ),
        final(table)@.len() == old(table)@.len(),
        bounded(final(table)@, 32767),
{
    let n = moves_to_adjust.len();
    let mut i: usize = 0;
    proof {
        assert(moves_to_adjust@.take(0) =~= Seq::<Move>::empty());
    }
    while i < n
        invariant
            i <= n == moves_to_adjust@.len(),
            table@.len() == hist_size(kind),
            bounded(table@, 32767),
            0 <= bonus <= MAX_HISTORY,
            0 <= malus <= MAX_HISTORY,
            forall|j: int| 0 <= j < n ==> filed(kind, *pos, #[trigger] moves_to_adjust@[j]),
            table@ == adjusted(
                kind,
                old(table)@,
                *pos,
                moves_to_adjust@.take(i as int),
                best_move,
                bonus as int,
                malus as int,
            ),
        decreases n - i,
    {
        let m = moves_to_adjust[i];
        proof {
            assert(filed(kind, *pos, moves_to_adjust@[i as int]));
            assert(moves_to_adjust@.take(i as int + 1).drop_last() =~= moves_to_adjust@.take(
                i as int,
            ));
        }
        let slot = slot_of(kind, pos, m);
        let delta = if m == best_move { bonus } else { -malus };
        let mut v: i32 = table[slot];
        update_history(&mut v, delta);
        table[slot] = v;
        i = i + 1;
    }
    proof {
        assert(moves_to_adjust@.take(n as int) =~= moves_to_adjust@);
    }
}

/// A correction history: for each side to move, entries that a hash picks.
pub struct CorrectionHistoryTable {
    pub table: Vec<i32>,
}

impl CorrectionHistoryTable {
    /// Whether the table has its size and every entry is within
    /// `CORRECTION_HISTORY_MAX`.
    pub open spec fn wf(&self) -> bool {
        self.table@.len() == 32768 && bounded(self.table@, 8192)
    }

    /// The place of the entry for the side `side` and the hash `key`.
    pub open spec fn slot(side: Colour, key: u64) -> int {
        side.idx() * 16384 + key as int % 16384
    }

    /// The table of zeros.
    pub fn new() -> (r: CorrectionHistoryTable)
        ensures
            r.wf(),
            forall|i: int| 0 <= i < 32768 ==> r.table@[i] == 0,
    {
        CorrectionHistoryTable { table: zeros(32768) }
    }

    /// The entry for the side `side` and the hash `key`.
    pub fn get(&self, side: Colour, key: u64) -> (r: i32)
        requires
            self.wf(),
        ensures
            r == self.table@[CorrectionHistoryTable::slot(side, key)],
            -CORRECTION_HISTORY_MAX <= r <= CORRECTION_HISTORY_MAX,
    {
        self.table[side.index() * 16384 + (key % 16384) as usize]
    }

    /// Moves the entry for `side` and `key` towards `scaled_diff` with the weight
    /// `new_weight` out of 256.
    pub fn update(&mut self, side: Colour, key: u64, new_weight: i32, scaled_diff: i32)
        requires
            old(self).wf(),
            1 <= new_weight <= 16,
            -8388608 <= scaled_diff <= 8388608,
        ensures
            final(self).wf(),
            final(self).table@ == old(self).table@.update(
                CorrectionHistoryTable::slot(side, key),
                corrected(
                    old(self).table@[CorrectionHistoryTable::slot(side, key)] as int,
                    new_weight as int,
                    scaled_diff as int,
                ) as i32,
            ),
    {
        let i = side.index() * 16384 + (key % 16384) as usize;
        let entry: i32 = self.table[i];
        assert(-8192 * 255 <= entry * (256 - new_weight) <= 8192 * 255 && -8388608 * 16
            <= scaled_diff * new_weight <= 8388608 * 16) by (nonlinear_arith)
            requires
                -8192 <= entry <= 8192,
                1 <= new_weight <= 16,
                -8388608 <= scaled_diff <= 8388608,
        ;
        let update: i32 = entry * (CORRECTION_HISTORY_WEIGHT_SCALE - new_weight) + scaled_diff
            * new_weight;
        let q: i32 = update / CORRECTION_HISTORY_WEIGHT_SCALE;
        let c: i32 = if q < -CORRECTION_HISTORY_MAX {
            -CORRECTION_HISTORY_MAX
        } else if q > CORRECTION_HISTORY_MAX {
            CORRECTION_HISTORY_MAX
        } else {
            q
        };
        self.table[i] = c;
    }
}

/// The entry `entry` of a correction history after it has moved towards `scaled_diff`
/// with the weight `w` out of 256: `(entry * (256 - w) + scaled_diff * w) / 256`, kept
/// within `CORRECTION_HISTORY_MAX`.
pub open spec fn corrected(entry: int, w: int, scaled_diff: int) -> int {
    let q = trunc_div(entry * (256 - w) + scaled_diff * w, 256);
    if q < -8192 {
        -8192
    } else if q > 8192 {
        8192
    } else {
        q
    }
}

/// What the search keeps for one half move of its line.
#[derive(Clone, Copy, Debug, PartialEq, Eq, Structural)]
pub struct StackEntry {
    pub conthist_index: ContHistIndex,
}

/// What the evaluation keeps of one move made: the piece moved and what changed on the
/// board.
#[derive(Clone, Copy, Debug, PartialEq, Eq)]
pub struct Accumulator {
    pub mv: MovedPiece,
    pub update_buffer: UpdateBuffer,
    pub correct: [bool; 2],
}

/// The moves made in the search, as the evaluation sees them.
pub struct NnueState {
    pub accumulators: Vec<Accumulator>,
    pub current_acc: usize,
}

/// What one thread of the search keeps: the history tables, the killer moves, the
/// line of the search and the moves made.
pub struct ThreadData {
    pub main_history: Vec<i32>,
    pub tactical_history: Vec<i32>,
    pub continuation_history: DoubleHistoryTable,
    pub pawn_corrhist: CorrectionHistoryTable,
    pub nonpawn_corrhist_white: CorrectionHistoryTable,
    pub nonpawn_corrhist_black: CorrectionHistoryTable,
    pub minor_corrhist: CorrectionHistoryTable,
    pub major_corrhist: CorrectionHistoryTable,
    pub killer_move_table: Vec<Option<Move>>,
    pub ss: Vec<StackEntry>,
    pub nnue: NnueState,
}

impl ThreadData {
    /// Whether every table has its size and entries within their largest size.
    pub open spec fn wf(&self) -> bool {
        &&& self.main_history@.len() == 3072
        &&& bounded(self.main_history@, 32767)
        &&& self.tactical_history@.len() == 4608
        &&& bounded(self.tactical_history@, 32767)
        &&& self.continuation_history.wf()
        &&& self.pawn_corrhist.wf()
        &&& self.nonpawn_corrhist_white.wf()
        &&& self.nonpawn_corrhist_black.wf()
        &&& self.minor_corrhist.wf()
        &&& self.major_corrhist.wf()
        &&& self.killer_move_table@.len() == MAX_PLY
    }

    /// Thread data with every table at zero, no killer move, an empty line and room
    /// for `MAX_PLY` moves to be made.
    pub fn new() -> (r: ThreadData)
        ensures
            r.wf(),
            forall|i: int| 0 <= i < 3072 ==> r.main_history@[i] == 0,
            forall|i: int| 0 <= i < 4608 ==> r.tactical_history@[i] == 0,
            forall|i: int| 0 <= i < 589824 ==> r.continuation_history.table@[i] == 0,
            forall|i: int| 0 <= i < 32768 ==> r.pawn_corrhist.table@[i] == 0,
            forall|i: int| 0 <= i < 32768 ==> r.nonpawn_corrhist_white.table@[i] == 0,
            forall|i: int| 0 <= i < 32768 ==> r.nonpawn_corrhist_black.table@[i] == 0,
            forall|i: int| 0 <= i < 32768 ==> r.minor_corrhist.table@[i] == 0,
            forall|i: int| 0 <= i < 32768 ==> r.major_corrhist.table@[i] == 0,
            forall|i: int| 0 <= i < MAX_PLY ==> r.killer_move_table@[i] == None::<Move>,
            r.ss@.len() == 0,
            r.nnue.current_acc == 0,
            r.nnue.accumulators@.len() == MAX_PLY + 1,
    {
        let mut killers: Vec<Option<Move>> = Vec::new();
        let mut i: usize = 0;
        while i < MAX_PLY
            invariant
                i <= MAX_PLY,
                killers@.len() == i,
                forall|j: int| 0 <= j < i ==> killers@[j] == None::<Move>,
            decreases MAX_PLY - i,
        {
            killers.push(None);
            i = i + 1;
        }
        let mut accs: Vec<Accumulator> = Vec::new();
        let mut j: usize = 0;
        while j < MAX_PLY + 1
            invariant
                j <= MAX_PLY + 1,
                accs@.len() == j,
            decreases MAX_PLY + 1 - j,
        {
            accs.push(
                Accumulator {
                    mv: MovedPiece { from: Square::A1, to: Square::A1, piece: Piece::WP },
                    update_buffer: UpdateBuffer::new(),
                    correct: [false;2],
                },
            );
            j = j + 1;
        }
        let mut cont = DoubleHistoryTable::new();
        cont.clear();
        ThreadData {
            main_history: zeros(3072),
            tactical_history: zeros(4608),
            continuation_history: cont,
            pawn_corrhist: CorrectionHistoryTable::new(),
            nonpawn_corrhist_white: CorrectionHistoryTable::new(),
            nonpawn_corrhist_black: CorrectionHistoryTable::new(),
            minor_corrhist: CorrectionHistoryTable::new(),
            major_corrhist: CorrectionHistoryTable::new(),
            killer_move_table: killers,
            ss: Vec::new(),
            nnue: NnueState { accumulators: accs, current_acc: 0 },
        }
    }

    /// Updates the main history for a batch of moves: the move `best_move` gets the
    /// bonus of `depth`, every other move the malus.
    pub fn update_history(
        &mut self,
        conf: &Config,
        pos: &Board,
        moves_to_adjust: &[Move],
        best_move: Move,
        depth: i32,
    )
        requires
            old(self).wf(),
            conf.wf(),
            0 <= depth <= 1024,
            forall|i: int|
                0 <= i < moves_to_adjust@.len() ==> (#[trigger] pos.at(
                    moves_to_adjust@[i].origin(),
                )) is Some,
        ensures
            final(self).wf(),
            final(self).main_history@ == adjusted(
                HistKind::Main,
                old(self).main_history@,
                *pos,
                moves_to_adjust@,
                best_move,
                conf.main_history_bonus.amount(depth as int),
                conf.main_history_malus.amount(depth as int),
            ),
            *final(self) == (ThreadData { main_history: final(self).main_history, ..*old(self) }),
    {
        let bonus = conf.main_history_bonus.at_depth(depth);
        let malus = conf.main_history_malus.at_depth(depth);
        proof {
            assert forall|i: int| 0 <= i < moves_to_adjust@.len() implies filed(
                HistKind::Main,
                *pos,
                #[trigger] moves_to_adjust@[i],
            ) by {
                assert(pos.at(moves_to_adjust@[i].origin()) is Some);
            }
        }
        adjust_all(
            &mut self.main_history,
            HistKind::Main,
            pos,
            moves_to_adjust,
            best_move,
            bonus,
            malus,
        );
    }

    /// The place of the entry of the main history for `moved` going from `from` to `to`
    /// while `threats` are attacked.
    pub open spec fn main_slot(from: Square, to: Square, moved: Piece, threats: SquareSet) -> int {
        ((if threats.has(from) {
            2int
        } else {
            0
        }) + (if threats.has(to) {
            1int
        } else {
            0
        })) * 768 + HistoryTable::slot(moved, to)
    }

    /// Updates the entry of the main history for one move by `delta`.
    pub fn update_history_single(
        &mut self,
        from: Square,
        to: Square,
        moved: Piece,
        threats: SquareSet,
        delta: i32,
    )
        requires
            old(self).wf(),
            -MAX_HISTORY <= delta <= MAX_HISTORY,
        ensures
            final(self).wf(),
            final(self).main_history@ == old(self).main_history@.update(
                ThreadData::main_slot(from, to, moved, threats),
                gravity(
                    old(self).main_history@[ThreadData::main_slot(from, to, moved, threats)] as int,
                    delta as int,
                ) as i32,
            ),
            *final(self) == (ThreadData { main_history: final(self).main_history, ..*old(self) }),
    {
        let a: usize = if threats.contains_square(from) { 2 } else { 0 };
        let b: usize = if threats.contains_square(to) { 1 } else { 0 };
        let slot = (a + b) * 768 + hist_table_piece_offset(moved) * 64 + to.index() as usize;
        let mut v: i32 = self.main_history[slot];
        update_history(&mut v, delta);
        self.main_history[slot] = v;
    }

    /// The score of `m` in the main history.
    pub fn get_history_score(&self, pos: &Board, m: Move) -> (r: i32)
        requires
            self.wf(),
            pos.at(m.origin()) is Some,
        ensures
            r == self.main_history@[hist_slot(HistKind::Main, *pos, m)],
    {
        self.main_history[slot_of(HistKind::Main, pos, m)]
    }

    /// Updates the tactical history for a batch of moves: the move `best_move` gets
    /// the bonus of `depth`, every other move the malus.
    pub fn update_tactical_history(
        &mut self,
        conf: &Config,
        pos: &Board,
        moves_to_adjust: &[Move],
        best_move: Move,
        depth: i32,
    )
        requires
            old(self).wf(),
            conf.wf(),
            0 <= depth <= 1024,
            forall|i: int|
                0 <= i < moves_to_adjust@.len() ==> filed(
                    HistKind::Tactical,
                    *pos,
                    #[trigger] moves_to_adjust@[i],
                ),
        ensures
            final(self).wf(),
            final(self).tactical_history@ == adjusted(
                HistKind::Tactical,
                old(self).tactical_history@,
                *pos,
                moves_to_adjust@,
                best_move,
                conf.tactical_history_bonus.amount(depth as int),
                conf.tactical_history_malus.amount(depth as int),
            ),
            *final(self) == (ThreadData {
                tactical_history: final(self).tactical_history,
                ..*old(self)
            }),
    {
        let bonus = conf.tactical_history_bonus.at_depth(depth);
        let malus = conf.tactical_history_malus.at_depth(depth);
        adjust_all(
            &mut self.tactical_history,
            HistKind::Tactical,
            pos,
            moves_to_adjust,
            best_move,
            bonus,
            malus,
        );
    }

    /// The score of `m` in the tactical history.
    pub fn get_tactical_history_score(&self, pos: &Board, m: Move) -> (r: i32)
        requires
            self.wf(),
            filed(HistKind::Tactical, *pos, m),
        ensures
            r == self.tactical_history@[hist_slot(HistKind::Tactical, *pos, m)],
    {
        self.tactical_history[slot_of(HistKind::Tactical, pos, m)]
    }

    /// The move of the line that the continuation history number `index` of the
    /// position goes by: the one made `index + 1` half moves before, if the line
    /// reaches that far back.
    pub open spec fn earlier_move(&self, pos: Board, index: int) -> Option<ContHistIndex> {
        if pos.height > index && pos.height - index - 1 < self.ss@.len() {
            Some(self.ss@[pos.height - index - 1].conthist_index)
        } else {
            None
        }
    }

    fn earlier(&self, pos: &Board, index: usize) -> (r: Option<ContHistIndex>)
        ensures
            r == self.earlier_move(*pos, index as int),
    {
        let height = pos.height();
        if height <= index {
            return None;
        }
        let i = height - index - 1;
        if i < self.ss.len() {
            Some(self.ss[i].conthist_index)
        } else {
            None
        }
    }

    /// Updates the continuation history number `index` for a batch of moves: the move
    /// `best_move` gets the bonus of `depth`, every other move the malus. Nothing
    /// changes where the line does not reach `index + 1` half moves back.
    pub fn update_continuation_history(
        &mut self,
        conf: &Config,
        pos: &Board,
        moves_to_adjust: &[Move],
        best_move: Move,
        depth: i32,
        index: usize,
    )
        requires
            old(self).wf(),
            old(self).earlier_move(*pos, index as int) is Some ==> conf.wf() && 0 <= depth <= 1024,
            old(self).earlier_move(*pos, index as int) is Some ==> forall|i: int|
                0 <= i < moves_to_adjust@.len() ==> (#[trigger] pos.at(
                    moves_to_adjust@[i].origin(),
                )) is Some,
        ensures
            final(self).wf(),
            final(self).continuation_history.table@ == (match old(self).earlier_move(
                *pos,
                index as int,
            ) {
                Some(c) => adjusted(
                    HistKind::Continuation(c),
                    old(self).continuation_history.table@,
                    *pos,
                    moves_to_adjust@,
                    best_move,
                    conf.cont_history_bonus.amount(depth as int),
                    conf.cont_history_malus.amount(depth as int),
                ),
                None => old(self).continuation_history.table@,
            }),
            *final(self) == (ThreadData {
                continuation_history: final(self).continuation_history,
                ..*old(self)
            }),
    {
        let c = match self.earlier(pos, index) {
            Some(c) => c,
            None => {
                return ;
            },
        };
        let bonus = conf.cont_history_bonus.at_depth(depth);
        let malus = conf.cont_history_malus.at_depth(depth);
        proof {
            assert forall|i: int| 0 <= i < moves_to_adjust@.len() implies filed(
                HistKind::Continuation(c),
                *pos,
                #[trigger] moves_to_adjust@[i],
            ) by {
                assert(pos.at(moves_to_adjust@[i].origin()) is Some);
            }
        }
        adjust_all(
            &mut self.continuation_history.table,
            HistKind::Continuation(c),
            pos,
            moves_to_adjust,
            best_move,
            bonus,
            malus,
        );
    }

    /// Updates the entry of the continuation history number `index` for `moved` going
    /// to `to` by `delta`. Nothing changes where the line does not reach `index + 1`
    /// half moves back.
    pub fn update_continuation_history_single(
        &mut self,
        pos: &Board,
        to: Square,
        moved: Piece,
        delta: i32,
        index: usize,
    )
        requires
            old(self).wf(),
            old(self).earlier_move(*pos, index as int) is Some ==> -MAX_HISTORY <= delta
                <= MAX_HISTORY,
        ensures
            final(self).wf(),
            final(self).continuation_history.table@ == (match old(self).earlier_move(
                *pos,
                index as int,
            ) {
                Some(c) => old(self).continuation_history.table@.update(
                    DoubleHistoryTable::slot(c.piece, c.square, moved, to),
                    gravity(
                        old(self).continuation_history.table@[DoubleHistoryTable::slot(
                            c.piece,
                            c.square,
                            moved,
                            to,
                        )] as int,
                        delta as int,
                    ) as i32,
                ),
                None => old(self).continuation_history.table@,
            }),
            *final(self) == (ThreadData {
                continuation_history: final(self).continuation_history,
                ..*old(self)
            }),
    {
        let c = match self.earlier(pos, index) {
            Some(c) => c,
            None => {
                return ;
            },
        };
        let mut v: i32 = self.continuation_history.get(c.piece, c.square, moved, to);
        update_history(&mut v, delta);
        let r = self.continuation_history.get_mut(c.piece, c.square, moved, to);
        *r = v;
    }

    /// The score of `m` in the continuation history number `index`; 0 where the line
    /// does not reach `index + 1` half moves back.
    pub fn get_continuation_history_score(&self, pos: &Board, m: Move, index: usize) -> (r: i32)
        requires
            self.wf(),
            self.earlier_move(*pos, index as int) is Some ==> pos.at(m.origin()) is Some,
        ensures
            r == (match self.earlier_move(*pos, index as int) {
                Some(c) => self.continuation_history.table@[hist_slot(
                    HistKind::Continuation(c),
                    *pos,
                    m,
                )],
                None => 0i32,
            }),
    {
        match self.earlier(pos, index) {
            Some(c) => self.continuation_history.table[slot_of(HistKind::Continuation(c), pos, m)],
            None => 0,
        }
    }

    /// Makes `m` the killer move of the height of the position.
    pub fn insert_killer(&mut self, pos: &Board, m: Move)
        requires
            old(self).wf(),
            pos.height < MAX_PLY,
        ensures
            final(self).killer_move_table@ == old(self).killer_move_table@.update(
                pos.height as int,
                Some(m),
            ),
            *final(self) == (ThreadData {
                killer_move_table: final(self).killer_move_table,
                ..*old(self)
            }),
    {
        let idx = pos.height();
        self.killer_move_table[idx] = Some(m);
    }

    /// Moves the five correction histories towards the difference `diff` between the
    /// result of a search to `depth` and the evaluation: each at the entry of the side to
    /// move and of its hash, with the weight `min(16, 1 + depth)` out of 256.
    pub fn update_correction_history(&mut self, pos: &Board, depth: i32, diff: i32)
        requires
            old(self).wf(),
            0 <= depth <= 1024,
            -32768 <= diff <= 32768,
        ensures
            final(self).wf(),
            final(self).pawn_corrhist.table@ == shifted_entry(
                old(self).pawn_corrhist.table@,
                pos.side,
                pos.keys.pawn,
                depth as int,
                diff as int,
            ),
            final(self).nonpawn_corrhist_white.table@ == shifted_entry(
                old(self).nonpawn_corrhist_white.table@,
                pos.side,
                pos.keys.non_pawn_white,
                depth as int,
                diff as int,
            ),
            final(self).nonpawn_corrhist_black.table@ == shifted_entry(
                old(self).nonpawn_corrhist_black.table@,
                pos.side,
                pos.keys.non_pawn_black,
                depth as int,
                diff as int,
            ),
            final(self).minor_corrhist.table@ == shifted_entry(
                old(self).minor_corrhist.table@,
                pos.side,
                pos.keys.minor,
                depth as int,
                diff as int,
            ),
            final(self).major_corrhist.table@ == shifted_entry(
                old(self).major_corrhist.table@,
                pos.side,
                pos.keys.major,
                depth as int,
                diff as int,
            ),
            final(self).main_history == old(self).main_history,
            final(self).tactical_history == old(self).tactical_history,
            final(self).continuation_history == old(self).continuation_history,
            final(self).killer_move_table == old(self).killer_move_table,
            final(self).ss == old(self).ss,
            final(self).nnue == old(self).nnue,
    {
        let scaled_diff: i32 = diff * CORRECTION_HISTORY_GRAIN;
        let new_weight: i32 = if 1 + depth < 16 { 1 + depth } else { 16 };
        let us = pos.turn();
        self.pawn_corrhist.update(us, pos.keys.pawn, new_weight, scaled_diff);
        self.nonpawn_corrhist_white.update(us, pos.keys.non_pawn_white, new_weight, scaled_diff);
        self.nonpawn_corrhist_black.update(us, pos.keys.non_pawn_black, new_weight, scaled_diff);
        self.minor_corrhist.update(us, pos.keys.minor, new_weight, scaled_diff);
        self.major_corrhist.update(us, pos.keys.major, new_weight, scaled_diff);
    }

    /// The sum of the five correction histories at the entries of the position, each
    /// times its weight.
    pub open spec fn correction_sum(&self, conf: Config, pos: Board) -> int {
        let pawn = self.pawn_corrhist.table@[CorrectionHistoryTable::slot(pos.side, pos.keys.pawn)];
        let white = self.nonpawn_corrhist_white.table@[CorrectionHistoryTable::slot(
            pos.side,
            pos.keys.non_pawn_white,
        )];
        let black = self.nonpawn_corrhist_black.table@[CorrectionHistoryTable::slot(
            pos.side,
            pos.keys.non_pawn_black,
        )];
        let minor = self.minor_corrhist.table@[CorrectionHistoryTable::slot(
            pos.side,
            pos.keys.minor,
        )];
        let major = self.major_corrhist.table@[CorrectionHistoryTable::slot(
            pos.side,
            pos.keys.major,
        )];
        pawn * conf.pawn_corrhist_weight + major * conf.major_corrhist_weight + minor
            * conf.minor_corrhist_weight + (white + black) * conf.nonpawn_corrhist_weight
    }

    /// By how much the evaluation of the position is to be corrected: the weighted sum
    /// of the five correction histories, divided by 1024 and by the grain of the entries.
    pub fn correction(&self, conf: &Config, pos: &Board) -> (r: i32)
        requires
            self.wf(),
            conf.wf(),
        ensures
            r == trunc_div(
                trunc_div(self.correction_sum(*conf, *pos), 1024),
                CORRECTION_HISTORY_GRAIN as int,
            ),
    {
        let us = pos.turn();
        let pawn = self.pawn_corrhist.get(us, pos.keys.pawn) as i64;
        let white = self.nonpawn_corrhist_white.get(us, pos.keys.non_pawn_white) as i64;
        let black = self.nonpawn_corrhist_black.get(us, pos.keys.non_pawn_black) as i64;
        let minor = self.minor_corrhist.get(us, pos.keys.minor) as i64;
        let major = self.major_corrhist.get(us, pos.keys.major) as i64;
        let wp = conf.pawn_corrhist_weight as i64;
        let wj = conf.major_corrhist_weight as i64;
        let wm = conf.minor_corrhist_weight as i64;
        let wn = conf.nonpawn_corrhist_weight as i64;
        assert(-8192 * 65536 <= pawn * wp <= 8192 * 65536 && -8192 * 65536 <= major * wj <= 8192
            * 65536 && -8192 * 65536 <= minor * wm <= 8192 * 65536 && -16384 * 65536 <= (white
            + black) * wn <= 16384 * 65536) by (nonlinear_arith)
            requires
                -8192 <= pawn <= 8192,
                -8192 <= major <= 8192,
                -8192 <= minor <= 8192,
                -8192 <= white <= 8192,
                -8192 <= black <= 8192,
                -65536 <= wp <= 65536,
                -65536 <= wj <= 65536,
                -65536 <= wm <= 65536,
                -65536 <= wn <= 65536,
        ;
        let adjustment: i64 = pawn * wp + major * wj + minor * wm + (white + black) * wn;
        let a: i64 = adjustment / 1024;
        (a as i32) / CORRECTION_HISTORY_GRAIN
    }
}

/// The correction history `t` after its entry for `side` and `key` has moved towards
/// the difference `diff`, with the weight that `depth` gives.
pub open spec fn shifted_entry(t: Seq<i32>, side: Colour, key: u64, depth: int, diff: int) -> Seq<
    i32,
> {
    t.update(
        CorrectionHistoryTable::slot(side, key),
        corrected(
            t[CorrectionHistoryTable::slot(side, key)] as int,
            if 1 + depth < 16 {
                1 + depth
            } else {
                16
            },
            diff * 256,
        ) as i32,
    )
}


/// The entries `ms` with the score of each raised by the entry of its move in the table
/// `t` of the history `kind`.
pub open spec fn scored(kind: HistKind, t: Seq<i32>, pos: Board, ms: Seq<MoveListEntry>) -> Seq<
    MoveListEntry,
> {
    Seq::new(
        ms.len(),
        |i: int|
            MoveListEntry {
                mov: ms[i].mov,
                score: (ms[i].score + t[hist_slot(kind, pos, ms[i].mov)]) as i32,
            },
    )
}

/// Whether every move of `ms` can be looked up in the history `kind`, and its score can
/// be raised by what the table `t` holds for it without running over.
pub open spec fn scorable(kind: HistKind, t: Seq<i32>, pos: Board, ms: Seq<MoveListEntry>) -> bool {
    forall|i: int|
        0 <= i < ms.len() ==> filed(kind, pos, (#[trigger] ms[i]).mov) && i32::MIN <= ms[i].score
            + t[hist_slot(kind, pos, ms[i].mov)] <= i32::MAX
}

fn score_all(table: &Vec<i32>, kind: HistKind, pos: &Board, ms: &mut MoveList)
    requires
        table@.len() == hist_size(kind),
        scorable(kind, table@, *pos, old(ms)@),
    ensures
        final(ms)@ == scored(kind, table@, *pos, old(ms)@),
{
    let n = ms.len();
    let mut i: usize = 0;
    while i < n
        invariant
            i <= n == ms@.len() == old(ms)@.len(),
            table@.len() == hist_size(kind),
            scorable(kind, table@, *pos, old(ms)@),
            forall|j: int| 0 <= j < i ==> #[trigger] ms@[j] == scored(kind, table@, *pos, old(ms)@)[j],
            forall|j: int| i <= j < n ==> #[trigger] ms@[j] == old(ms)@[j],
        decreases n - i,
    {
        let e = ms.get(i);
        proof {
            assert(filed(kind, *pos, old(ms)@[i as int].mov));
        }
        let v = table[slot_of(kind, pos, e.mov)];
        ms.set_score(i, e.score + v);
        i = i + 1;
    }
    proof {
        assert(ms@ =~= scored(kind, table@, *pos, old(ms)@));
    }
}

impl ThreadData {
    /// Raises the score of each move of `ms` by its entry in the main history.
    pub fn get_history_scores(&self, pos: &Board, ms: &mut MoveList)
        requires
            self.wf(),
            scorable(HistKind::Main, self.main_history@, *pos, old(ms)@),
        ensures
            final(ms)@ == scored(HistKind::Main, self.main_history@, *pos, old(ms)@),
    {
        score_all(&self.main_history, HistKind::Main, pos, ms);
    }

    /// Raises the score of each move of `ms` by its entry in the tactical history.
    pub fn get_tactical_history_scores(&self, pos: &Board, ms: &mut MoveList)
        requires
            self.wf(),
            scorable(HistKind::Tactical, self.tactical_history@, *pos, old(ms)@),
        ensures
            final(ms)@ == scored(HistKind::Tactical, self.tactical_history@, *pos, old(ms)@),
    {
        score_all(&self.tactical_history, HistKind::Tactical, pos, ms);
    }

    /// Raises the score of each move of `ms` by its entry in the continuation history
    /// number `index`. Nothing changes where the line does not reach `index + 1` half
    /// moves back.
    pub fn get_continuation_history_scores(&self, pos: &Board, ms: &mut MoveList, index: usize)
        requires
            self.wf(),
            match self.earlier_move(*pos, index as int) {
                Some(c) => scorable(
                    HistKind::Continuation(c),
                    self.continuation_history.table@,
                    *pos,
                    old(ms)@,
                ),
                None => true,
            },
        ensures
            final(ms)@ == (match self.earlier_move(*pos, index as int) {
                Some(c) => scored(
                    HistKind::Continuation(c),
                    self.continuation_history.table@,
                    *pos,
                    old(ms)@,
                ),
                None => old(ms)@,
            }),
    {
        match self.earlier(pos, index) {
            Some(c) => score_all(
                &self.continuation_history.table,
                HistKind::Continuation(c),
                pos,
                ms,
            ),
            None => {},
        }
    }
}

} // verus!
