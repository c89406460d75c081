use vstd::prelude::*;
use vstd::seq_lib::lemma_multiset_commutative;
use crate::attacks::{attack_bits, attacks_by_type, between_bits, king_bits, ray_between};
use crate::bits::{bit, lemma_bit_and, lemma_squares_zero, lowest, single, squares};
use crate::board::Board;
use crate::chessmove::{Move, MoveFlags};
use crate::movelist::{capped, extended, lemma_extended, MoveList, MoveListEntry};
use crate::position::{king_place, lemma_king_there, one_king};
use crate::squareset::{
    north_east, north_west, south_east, south_west, SquareSet, FULL, NOT_FILE_A, NOT_FILE_H,
    RANK_2, RANK_7,
};
use crate::types::{Colour, Piece, PieceType, Square};

verus! {

broadcast use crate::types::group_square;

/// Which moves a generator is asked for.
#[derive(Clone, Copy, Debug, PartialEq, Eq, Structural)]
pub enum GenMode {
    All,
    Captures,
    Quiets,
}

/// What a pawn move is entered as: a quiet move, a capture, or a promotion; and for a
/// promotion, to which pieces and in what order.
#[derive(Clone, Copy, Debug, PartialEq, Eq, Structural)]
pub enum PawnGen {
    Quiet,
    Capture,
    /// Queen, rook, bishop, knight.
    PromoCapture,
    /// Queen, knight, rook, bishop.
    PromoPush,
    /// The queen alone.
    PromoQueen,
}

/// How the captures are generated: for the main search, or for the quiescence search,
/// which looks at promotions to a queen only.
pub trait MovePickerMode {
    /// Whether only promotions to a queen are generated.
    spec fn queen_only() -> bool;

    /// Whether only promotions to a queen are generated.
    fn captures_only() -> (b: bool)
        ensures
            b == Self::queen_only(),
    ;
}

/// Generation for the main search.
pub struct MainSearch;

/// Generation for the quiescence search.
pub struct QSearch;

impl MovePickerMode for MainSearch {
    open spec fn queen_only() -> bool {
        false
    }

    fn captures_only() -> (b: bool) {
        false
    }
}

impl MovePickerMode for QSearch {
    open spec fn queen_only() -> bool {
        true
    }

    fn captures_only() -> (b: bool) {
        true
    }
}

/// The plain moves from `from` to each of `targets`, in that order.
pub open spec fn moves_to(from: Square, targets: Seq<Square>, tactical: bool) -> Seq<MoveListEntry>
    decreases targets.len(),
{
    if targets.len() == 0 {
        Seq::empty()
    } else {
        moves_to(from, targets.drop_last(), tactical).push(
            MoveListEntry::fresh(Move::plain(from, targets.last()), tactical),
        )
    }
}

/// The moves of the piece on `from` that attacks `a`: its captures on `their`, then its
/// moves to squares outside `occ`; or the ones or the others alone.
pub open spec fn from_moves(mode: GenMode, from: Square, a: u64, their: u64, occ: u64) -> Seq<
    MoveListEntry,
> {
    match mode {
        GenMode::All => moves_to(from, squares(a & their), true) + moves_to(
            from,
            squares(a & !occ),
            false,
        ),
        GenMode::Captures => moves_to(from, squares(a & their), true),
        GenMode::Quiets => moves_to(from, squares(a & !occ), false),
    }
}

/// The moves of the pieces on `froms`, which move as pieces of kind `pt` do, to the
/// squares of `valid`.
pub open spec fn piece_moves(
    mode: GenMode,
    pt: PieceType,
    froms: Seq<Square>,
    valid: u64,
    their: u64,
    occ: u64,
) -> Seq<MoveListEntry>
    decreases froms.len(),
{
    if froms.len() == 0 {
        Seq::empty()
    } else {
        piece_moves(mode, pt, froms.drop_last(), valid, their, occ) + from_moves(
            mode,
            froms.last(),
            attack_bits(pt, froms.last().idx(), occ) & valid,
            their,
            occ,
        )
    }
}

/// The entries of the pawn move from `from` to the square `delta` numbers further on.
pub open spec fn pawn_entries(from: Square, delta: int, kind: PawnGen) -> Seq<MoveListEntry> {
    let to = Square::at(from.idx() + delta);
    match kind {
        PawnGen::Quiet => seq![MoveListEntry::fresh(Move::plain(from, to), false)],
        PawnGen::Capture => seq![MoveListEntry::fresh(Move::plain(from, to), true)],
        PawnGen::PromoCapture => seq![
            MoveListEntry::fresh(Move::promotion(from, to, PieceType::Queen), true),
            MoveListEntry::fresh(Move::promotion(from, to, PieceType::Rook), true),
            MoveListEntry::fresh(Move::promotion(from, to, PieceType::Bishop), true),
            MoveListEntry::fresh(Move::promotion(from, to, PieceType::Knight), true),
        ],
        PawnGen::PromoPush => seq![
            MoveListEntry::fresh(Move::promotion(from, to, PieceType::Queen), true),
            MoveListEntry::fresh(Move::promotion(from, to, PieceType::Knight), true),
            MoveListEntry::fresh(Move::promotion(from, to, PieceType::Rook), true),
            MoveListEntry::fresh(Move::promotion(from, to, PieceType::Bishop), true),
        ],
        PawnGen::PromoQueen => seq![
            MoveListEntry::fresh(Move::promotion(from, to, PieceType::Queen), true),
        ],
    }
}

/// The entries of the pawn moves from each of `froms` to the square `delta` numbers
/// further on.
pub open spec fn pawn_moves(froms: Seq<Square>, delta: int, kind: PawnGen) -> Seq<MoveListEntry>
    decreases froms.len(),
{
    if froms.len() == 0 {
        Seq::empty()
    } else {
        pawn_moves(froms.drop_last(), delta, kind) + pawn_entries(froms.last(), delta, kind)
    }
}

fn push_moves_to(list: &mut MoveList, from: Square, targets: SquareSet, tactical: bool)
    ensures
        final(list)@ == extended(old(list)@, moves_to(from, targets@, tactical)),
{
    let mut rest = targets;
    let ghost done: Seq<Square> = Seq::empty();
    let ghost start = list@;
    proof {
        assert(targets@ =~= done + rest@);
        lemma_extended(start, Seq::empty(), Seq::empty());
    }
    while rest.inner != 0
        invariant
            targets@ == done + rest@,
            list@ == extended(start, moves_to(from, done, tactical)),
        decreases rest@.len(),
    {
        let sq = rest.pop_first();
        let ghost e = MoveListEntry::fresh(Move::plain(from, sq), tactical);
        list.push(Move::new(from, sq), tactical);
        proof {
            assert(done.push(sq).drop_last() =~= done);
            assert(targets@ =~= done.push(sq) + rest@);
            lemma_extended(start, moves_to(from, done, tactical), seq![e]);
            assert(moves_to(from, done, tactical) + seq![e] =~= moves_to(
                from,
                done.push(sq),
                tactical,
            ));
            done = done.push(sq);
        }
    }
    proof {
        lemma_squares_zero();
        assert(done =~= targets@);
    }
}

fn push_from_moves(
    list: &mut MoveList,
    mode: GenMode,
    from: Square,
    a: SquareSet,
    their: SquareSet,
    occ: SquareSet,
)
    ensures
        final(list)@ == extended(
            old(list)@, from_moves(mode, from, a.inner, their.inner, occ.inner),
        ),
{
    let ghost start = list@;
    match mode {
        GenMode::All => {
            push_moves_to(list, from, a.intersection(their), true);
            push_moves_to(list, from, a.intersection(occ.complement()), false);
            proof {
                let x = moves_to(from, squares(a.inner & their.inner), true);
                let y = moves_to(from, squares(a.inner & !occ.inner), false);
                lemma_extended(start, x, y);
            }
        },
        GenMode::Captures => {
            push_moves_to(list, from, a.intersection(their), true);
        },
        GenMode::Quiets => {
            push_moves_to(list, from, a.intersection(occ.complement()), false);
        },
    }
}

/// Adds to `list` the moves of the pieces on `froms`, which move as pieces of kind `pt`
/// do, to the squares of `valid`.
pub fn gen_piece_moves(
    list: &mut MoveList,
    mode: GenMode,
    pt: PieceType,
    froms: SquareSet,
    valid: SquareSet,
    their: SquareSet,
    occ: SquareSet,
)
    requires
        pt != PieceType::Pawn,
    ensures
        final(list)@ == extended(
            old(list)@, piece_moves(mode, pt, froms@, valid.inner, their.inner, occ.inner),
        ),
{
    let mut rest = froms;
    let ghost done: Seq<Square> = Seq::empty();
    let ghost start = list@;
    proof {
        assert(froms@ =~= done + rest@);
        lemma_extended(start, Seq::empty(), Seq::empty());
    }
    while rest.inner != 0
        invariant
            pt != PieceType::Pawn,
            froms@ == done + rest@,
            list@ == extended(
                start, piece_moves(mode, pt, done, valid.inner, their.inner, occ.inner),
            ),
        decreases rest@.len(),
    {
        let sq = rest.pop_first();
        let a = attacks_by_type(pt, sq, occ).intersection(valid);
        let ghost g = from_moves(mode, sq, a.inner, their.inner, occ.inner);
        push_from_moves(list, mode, sq, a, their, occ);
        proof {
            assert(done.push(sq).drop_last() =~= done);
            assert(froms@ =~= done.push(sq) + rest@);
            lemma_extended(
                start,
                piece_moves(mode, pt, done, valid.inner, their.inner, occ.inner),
                g,
            );
            done = done.push(sq);
        }
    }
    proof {
        lemma_squares_zero();
        assert(done =~= froms@);
    }
}

fn push_pawn_entries(list: &mut MoveList, from: Square, delta: i8, kind: PawnGen)
    requires
        0 <= from.idx() + delta < 64,
    ensures
        final(list)@ == extended(old(list)@, pawn_entries(from, delta as int, kind)),
{
    let to = Square::from_index((from.index() as i8 + delta) as u8).unwrap();
    let ghost start = list@;
    match kind {
        PawnGen::Quiet => {
            list.push(Move::new(from, to), false);
        },
        PawnGen::Capture => {
            list.push(Move::new(from, to), true);
        },
        PawnGen::PromoQueen => {
            list.push(Move::new_with_promo(from, to, PieceType::Queen), true);
        },
        PawnGen::PromoCapture => {
            let ghost e1 = MoveListEntry::fresh(Move::promotion(from, to, PieceType::Queen), true);
            let ghost e2 = MoveListEntry::fresh(Move::promotion(from, to, PieceType::Rook), true);
            let ghost e3 = MoveListEntry::fresh(Move::promotion(from, to, PieceType::Bishop), true);
            let ghost e4 = MoveListEntry::fresh(Move::promotion(from, to, PieceType::Knight), true);
            list.push(Move::new_with_promo(from, to, PieceType::Queen), true);
            list.push(Move::new_with_promo(from, to, PieceType::Rook), true);
            list.push(Move::new_with_promo(from, to, PieceType::Bishop), true);
            list.push(Move::new_with_promo(from, to, PieceType::Knight), true);
            proof {
                lemma_four(start, e1, e2, e3, e4);
            }
        },
        PawnGen::PromoPush => {
            let ghost e1 = MoveListEntry::fresh(Move::promotion(from, to, PieceType::Queen), true);
            let ghost e2 = MoveListEntry::fresh(Move::promotion(from, to, PieceType::Knight), true);
            let ghost e3 = MoveListEntry::fresh(Move::promotion(from, to, PieceType::Rook), true);
            let ghost e4 = MoveListEntry::fresh(Move::promotion(from, to, PieceType::Bishop), true);
            list.push(Move::new_with_promo(from, to, PieceType::Queen), true);
            list.push(Move::new_with_promo(from, to, PieceType::Knight), true);
            list.push(Move::new_with_promo(from, to, PieceType::Rook), true);
            list.push(Move::new_with_promo(from, to, PieceType::Bishop), true);
            proof {
                lemma_four(start, e1, e2, e3, e4);
            }
        },
    }
}

proof fn lemma_four(
    s: Seq<MoveListEntry>,
    e1: MoveListEntry,
    e2: MoveListEntry,
    e3: MoveListEntry,
    e4: MoveListEntry,
)
    ensures
        extended(extended(extended(extended(s, seq![e1]), seq![e2]), seq![e3]), seq![e4])
            == extended(s, seq![e1, e2, e3, e4]),
{
    lemma_extended(s, seq![e1], seq![e2]);
    lemma_extended(s, seq![e1] + seq![e2], seq![e3]);
    lemma_extended(s, (seq![e1] + seq![e2]) + seq![e3], seq![e4]);
    assert(((seq![e1] + seq![e2]) + seq![e3]) + seq![e4] =~= seq![e1, e2, e3, e4]);
}

/// Adds to `list` the pawn moves from each square of `froms` to the square `delta`
/// numbers further on.
pub fn gen_pawn_moves(list: &mut MoveList, froms: SquareSet, delta: i8, kind: PawnGen)
    requires
        forall|i: int| 0 <= i < 64 && bit(froms.inner, i) ==> 0 <= i + delta < 64,
    ensures
        final(list)@ == extended(old(list)@, pawn_moves(froms@, delta as int, kind)),
{
    let mut rest = froms;
    let ghost done: Seq<Square> = Seq::empty();
    let ghost start = list@;
    proof {
        assert(froms@ =~= done + rest@);
        lemma_extended(start, Seq::empty(), Seq::empty());
    }
    while rest.inner != 0
        invariant
            forall|i: int| 0 <= i < 64 && bit(froms.inner, i) ==> 0 <= i + delta < 64,
            forall|s: Square| rest.has(s) ==> froms.has(s),
            froms@ == done + rest@,
            list@ == extended(start, pawn_moves(done, delta as int, kind)),
        decreases rest@.len(),
    {
        let sq = rest.pop_first();
        let ghost g = pawn_entries(sq, delta as int, kind);
        proof {
            assert(froms.has(sq));
        }
        push_pawn_entries(list, sq, delta, kind);
        proof {
            assert(done.push(sq).drop_last() =~= done);
            assert(froms@ =~= done.push(sq) + rest@);
            lemma_extended(start, pawn_moves(done, delta as int, kind), g);
            done = done.push(sq);
        }
    }
    proof {
        lemma_squares_zero();
        assert(done =~= froms@);
    }
}


/// A square of a set that was moved across the board is far enough from the edge that
/// the set fell off to be moved back.
pub proof fn lemma_shift_bounds(x: u64, i: u64)
    by (bit_vector)
    requires
        i < 64,
    ensures
        bit(x >> 8, i as int) ==> i + 8 < 64,
        bit(x << 8, i as int) ==> i >= 8,
        bit(x >> 16, i as int) ==> i + 16 < 64,
        bit(x << 16, i as int) ==> i >= 16,
        bit(south_east(x), i as int) ==> i + 7 < 64,
        bit(south_west(x), i as int) ==> i + 9 < 64,
        bit(north_east(x), i as int) ==> i >= 9,
        bit(north_west(x), i as int) ==> i >= 7,
{
}

proof fn lemma_chain(start: Seq<MoveListEntry>, done: Seq<MoveListEntry>, g: Seq<MoveListEntry>)
    ensures
        extended(extended(start, done), g) == extended(start, done + g),
{
    lemma_extended(start, done, g);
}

/// The set `x` moved `n` ranks towards the first rank of `side`.
pub open spec fn back(side: Colour, x: u64, n: u64) -> u64 {
    match side {
        Colour::White => x >> n,
        Colour::Black => x << n,
    }
}

/// The number by which a pawn of `side` moves on when it advances `n` ranks.
pub open spec fn ahead(side: Colour, n: int) -> int {
    match side {
        Colour::White => 8 * n,
        Colour::Black => -8 * n,
    }
}

/// The rank from which the pawns of `side` start.
pub open spec fn start_rank(side: Colour) -> u64 {
    match side {
        Colour::White => RANK_2,
        Colour::Black => RANK_7,
    }
}

/// The rank from which the pawns of `side` promote with their next step.
pub open spec fn promo_rank(side: Colour) -> u64 {
    match side {
        Colour::White => RANK_7,
        Colour::Black => RANK_2,
    }
}

/// The squares from which a pawn of `side` captures towards the a-file onto `x`.
pub open spec fn west_sources(side: Colour, x: u64) -> u64 {
    match side {
        Colour::White => south_east(x),
        Colour::Black => north_east(x),
    }
}

/// The squares from which a pawn of `side` captures towards the h-file onto `x`.
pub open spec fn east_sources(side: Colour, x: u64) -> u64 {
    match side {
        Colour::White => south_west(x),
        Colour::Black => north_west(x),
    }
}

/// The number by which a pawn of `side` moves on when it captures towards the a-file.
pub open spec fn west_step(side: Colour) -> int {
    match side {
        Colour::White => 7,
        Colour::Black => -9,
    }
}

/// The number by which a pawn of `side` moves on when it captures towards the h-file.
pub open spec fn east_step(side: Colour) -> int {
    match side {
        Colour::White => 9,
        Colour::Black => -7,
    }
}

/// The one-element list of `e` where `cond` holds, the empty list otherwise.
pub open spec fn opt_entry(cond: bool, e: MoveListEntry) -> Seq<MoveListEntry> {
    if cond {
        seq![e]
    } else {
        Seq::empty()
    }
}

fn shift_back(side: Colour, x: SquareSet, n: u64) -> (r: SquareSet)
    requires
        n < 64,
    ensures
        r.inner == back(side, x.inner, n),
{
    match side {
        Colour::White => SquareSet { inner: x.inner >> n },
        Colour::Black => SquareSet { inner: x.inner << n },
    }
}

fn sources_west(side: Colour, x: SquareSet) -> (r: SquareSet)
    ensures
        r.inner == west_sources(side, x.inner),
{
    match side {
        Colour::White => x.south_east_one(),
        Colour::Black => x.north_east_one(),
    }
}

fn sources_east(side: Colour, x: SquareSet) -> (r: SquareSet)
    ensures
        r.inner == east_sources(side, x.inner),
{
    match side {
        Colour::White => x.south_west_one(),
        Colour::Black => x.north_west_one(),
    }
}

fn rank_of_promotion(side: Colour) -> (r: SquareSet)
    ensures
        r.inner == promo_rank(side),
{
    match side {
        Colour::White => SquareSet { inner: RANK_7 },
        Colour::Black => SquareSet { inner: RANK_2 },
    }
}

fn rank_of_start(side: Colour) -> (r: SquareSet)
    ensures
        r.inner == start_rank(side),
{
    match side {
        Colour::White => SquareSet { inner: RANK_2 },
        Colour::Black => SquareSet { inner: RANK_7 },
    }
}

impl Board {
    /// The pawns of the side to move.
    pub open spec fn own_pawns(&self) -> u64 {
        self.pieces.bb(Piece::of(self.side, PieceType::Pawn))
    }

    /// The pawns of the side to move that have an empty square ahead.
    pub open spec fn pushable(&self) -> u64 {
        self.own_pawns() & back(self.side, !self.pieces.occ(), 8)
    }

    /// The pawns that can step ahead without promoting onto a square of `valid`.
    pub open spec fn single_push_sources(&self, valid: u64) -> u64 {
        self.pushable() & !(self.pushable() & promo_rank(self.side)) & back(self.side, valid, 8)
    }

    /// The pawns on their starting rank with two empty squares ahead, the second one
    /// in `valid`.
    pub open spec fn double_push_sources(&self, valid: u64) -> u64 {
        self.pushable() & back(self.side, !self.pieces.occ(), 16) & start_rank(self.side) & back(
            self.side,
            valid,
            16,
        )
    }

    /// The pawns that can step ahead and promote on a square of `valid`.
    pub open spec fn promo_push_sources(&self, valid: u64) -> u64 {
        self.pushable() & promo_rank(self.side) & back(self.side, valid, 8)
    }

    /// The quiet pawn moves to squares of `valid`: the single steps, then the double
    /// steps.
    pub open spec fn pawn_quiet_moves(&self, valid: u64) -> Seq<MoveListEntry> {
        pawn_moves(squares(self.single_push_sources(valid)), ahead(self.side, 1), PawnGen::Quiet)
            + pawn_moves(
            squares(self.double_push_sources(valid)),
            ahead(self.side, 2),
            PawnGen::Quiet,
        )
    }

    /// The promotions by a step ahead onto squares of `valid`.
    pub open spec fn forward_promo_moves(&self, valid: u64, queen_only: bool) -> Seq<
        MoveListEntry,
    > {
        pawn_moves(
            squares(self.promo_push_sources(valid)),
            ahead(self.side, 1),
            if queen_only {
                PawnGen::PromoQueen
            } else {
                PawnGen::PromoPush
            },
        )
    }

    /// The pawn moves ahead to squares of `valid`: the single steps, the double steps,
    /// and the promotions.
    pub open spec fn pawn_forward_moves(&self, valid: u64) -> Seq<MoveListEntry> {
        self.pawn_quiet_moves(valid) + self.forward_promo_moves(valid, false)
    }

    /// The pawns that capture a piece of the other side on a square of `valid`, towards
    /// the a-file (`west`) or towards the h-file, and promote with it or not.
    pub open spec fn capture_sources(&self, valid: u64, west: bool, promo: bool) -> u64 {
        let their = self.pieces.side_bits(self.side.flipped());
        let attacking = if west {
            west_sources(self.side, their)
        } else {
            east_sources(self.side, their)
        } & self.own_pawns();
        let ok = if west {
            west_sources(self.side, valid)
        } else {
            east_sources(self.side, valid)
        };
        let rank = if promo {
            promo_rank(self.side)
        } else {
            !promo_rank(self.side)
        };
        attacking & rank & ok
    }

    /// The pawn captures on squares of `valid`: those towards the a-file, then those
    /// towards the h-file, then the capturing promotions in the same order.
    pub open spec fn pawn_cap_moves(&self, valid: u64, queen_only: bool) -> Seq<MoveListEntry> {
        let kind = if queen_only {
            PawnGen::PromoQueen
        } else {
            PawnGen::PromoCapture
        };
        pawn_moves(
            squares(self.capture_sources(valid, true, false)),
            west_step(self.side),
            PawnGen::Capture,
        ) + pawn_moves(
            squares(self.capture_sources(valid, false, false)),
            east_step(self.side),
            PawnGen::Capture,
        ) + pawn_moves(squares(self.capture_sources(valid, true, true)), west_step(self.side), kind)
            + pawn_moves(
            squares(self.capture_sources(valid, false, true)),
            east_step(self.side),
            kind,
        )
    }

    /// The en-passant captures: by the pawn that stands towards the h-file of the
    /// en-passant square, then by the one that stands towards the a-file.
    pub open spec fn ep_moves(&self) -> Seq<MoveListEntry> {
        match self.ep_sq {
            None => Seq::empty(),
            Some(ep) => {
                let w = west_sources(self.side, single(ep.idx())) & self.own_pawns();
                let e = east_sources(self.side, single(ep.idx())) & self.own_pawns();
                opt_entry(
                    w != 0,
                    MoveListEntry::fresh(
                        Move::flagged(Square::at(lowest(w)), ep, MoveFlags::EnPassant),
                        true,
                    ),
                ) + opt_entry(
                    e != 0,
                    MoveListEntry::fresh(
                        Move::flagged(Square::at(lowest(e)), ep, MoveFlags::EnPassant),
                        true,
                    ),
                )
            },
        }
    }

    /// The squares to which a piece other than the king may go: every square where the
    /// side to move is not in check, otherwise the checking pieces and the squares
    /// between the king and the lowest of them.
    pub open spec fn valid_targets(&self) -> u64 {
        if self.threats.checkers.inner != 0 {
            between_bits(
                king_place(self.pieces, self.side).idx(),
                lowest(self.threats.checkers.inner),
            ) | self.threats.checkers.inner
        } else {
            FULL
        }
    }

    /// The moves of the king of the side to move to squares that are not attacked.
    pub open spec fn king_moves(&self, mode: GenMode) -> Seq<MoveListEntry> {
        from_moves(
            mode,
            king_place(self.pieces, self.side),
            king_bits(single(king_place(self.pieces, self.side).idx())) & !self.threats.all.inner,
            self.pieces.side_bits(self.side.flipped()),
            self.pieces.occ(),
        )
    }

    /// The moves of the knights, the king, the bishops and queens along diagonals, and
    /// the rooks and queens along ranks and files, in that order.
    pub open spec fn officer_moves(&self, mode: GenMode) -> Seq<MoveListEntry> {
        let valid = self.valid_targets();
        let their = self.pieces.side_bits(self.side.flipped());
        let occ = self.pieces.occ();
        piece_moves(
            mode,
            PieceType::Knight,
            squares(self.pieces.bb(Piece::of(self.side, PieceType::Knight))),
            valid,
            their,
            occ,
        ) + self.king_moves(mode) + piece_moves(
            mode,
            PieceType::Bishop,
            squares(self.pieces.diag_bits(self.side)),
            valid,
            their,
            occ,
        ) + piece_moves(
            mode,
            PieceType::Rook,
            squares(self.pieces.ortho_bits(self.side)),
            valid,
            their,
            occ,
        )
    }

    /// The castling move towards the rook on `rook_sq` under the rules of Chess960, if
    /// it can be played: leaving king and rook aside, no piece stands between the king
    /// and where it ends, between king and rook, or where king or rook end; and no
    /// square between the king and where it ends is attacked.
    pub open spec fn frc_castle(&self, rook_sq: Square, kingside: bool) -> Seq<MoveListEntry> {
        let side = self.side;
        let king_sq = king_place(self.pieces, side);
        let king_dst = crate::makemove::king_home(side, kingside);
        let rook_dst = crate::makemove::rook_home(side, kingside);
        let king_path = between_bits(king_sq.idx(), king_dst.idx());
        let rook_path = between_bits(king_sq.idx(), rook_sq.idx());
        let relevant = (self.pieces.occ() ^ single(king_sq.idx())) ^ single(rook_sq.idx());
        opt_entry(
            relevant & (((king_path | rook_path) | single(king_dst.idx())) | single(rook_dst.idx()))
                == 0 && king_path & self.threats.all.inner == 0,
            MoveListEntry::fresh(Move::flagged(king_sq, rook_sq, MoveFlags::Castle), false),
        )
    }

    /// The castling move on one wing under the orthodox rules, if it can be played:
    /// the right is there, the squares between king and rook are empty, and neither the
    /// king's square nor the one it passes is attacked.
    pub open spec fn plain_castle(&self, kingside: bool) -> Seq<MoveListEntry> {
        let side = self.side;
        let from = Square::E1.seen_by(side);
        let (right, free, thru, to) = if kingside {
            (
                self.castle_perm.kingside_of(side),
                side_row(side, 0x60),
                Square::F1.seen_by(side),
                Square::H1.seen_by(side),
            )
        } else {
            (
                self.castle_perm.queenside_of(side),
                side_row(side, 0x0e),
                Square::D1.seen_by(side),
                Square::A1.seen_by(side),
            )
        };
        opt_entry(
            right is Some && self.pieces.occ() & free == 0 && !self.threats.all.has(from)
                && !self.threats.all.has(thru),
            MoveListEntry::fresh(Move::flagged(from, to, MoveFlags::Castle), false),
        )
    }

    /// The castling moves, king's wing first.
    pub open spec fn castling_moves(&self) -> Seq<MoveListEntry> {
        if self.chess960 {
            if self.threats.all.has(king_place(self.pieces, self.side)) {
                Seq::empty()
            } else {
                (match self.castle_perm.kingside_of(self.side) {
                    Some(r) => self.frc_castle(r, true),
                    None => Seq::empty(),
                }) + (match self.castle_perm.queenside_of(self.side) {
                    Some(r) => self.frc_castle(r, false),
                    None => Seq::empty(),
                })
            }
        } else {
            self.plain_castle(true) + self.plain_castle(false)
        }
    }

    /// The castling moves where the side to move is not in check, none otherwise.
    pub open spec fn castling_if_free(&self) -> Seq<MoveListEntry> {
        if self.threats.checkers.inner == 0 {
            self.castling_moves()
        } else {
            Seq::empty()
        }
    }

    /// Every pseudo-legal move of the side to move, in the order of generation. In
    /// double check the king's moves alone; otherwise the pawn moves ahead, the pawn
    /// captures, the en-passant captures, the moves of the pieces, and castling.
    pub open spec fn pseudo_moves(&self) -> Seq<MoveListEntry> {
        if squares(self.threats.checkers.inner).len() > 1 {
            self.king_moves(GenMode::All)
        } else {
            self.pawn_forward_moves(self.valid_targets()) + self.pawn_cap_moves(
                self.valid_targets(),
                false,
            ) + self.ep_moves() + self.officer_moves(GenMode::All) + self.castling_if_free()
        }
    }

    /// The tactical moves of the side to move: promotions, captures and en-passant
    /// captures. With `queen_only`, a pawn promotes to a queen only.
    pub open spec fn capture_moves(&self, queen_only: bool) -> Seq<MoveListEntry> {
        if squares(self.threats.checkers.inner).len() > 1 {
            self.king_moves(GenMode::Captures)
        } else {
            self.forward_promo_moves(self.valid_targets(), queen_only) + self.pawn_cap_moves(
                self.valid_targets(),
                queen_only,
            ) + self.ep_moves() + self.officer_moves(GenMode::Captures)
        }
    }

    /// The quiet moves of the side to move: moves that neither capture nor promote,
    /// castling among them.
    pub open spec fn quiet_moves(&self) -> Seq<MoveListEntry> {
        if squares(self.threats.checkers.inner).len() > 1 {
            self.king_moves(GenMode::Quiets)
        } else {
            self.pawn_quiet_moves(self.valid_targets()) + self.officer_moves(GenMode::Quiets)
                + self.castling_if_free()
        }
    }
}

/// The squares `row` of the first rank as `side` sees them: on the first rank for
/// white, on the eighth for black.
pub open spec fn side_row(side: Colour, row: u64) -> u64 {
    match side {
        Colour::White => row,
        Colour::Black => row << 56,
    }
}


impl Board {
    fn generate_pawn_quiet(&self, move_list: &mut MoveList, valid_target_squares: SquareSet)
        ensures
            final(move_list)@ == extended(
                old(move_list)@, self.pawn_quiet_moves(valid_target_squares.inner),
            ),
    {
        let side = self.side;
        let ghost start = move_list@;
        let empty = self.pieces.empty();
        let shifted_empty_squares = shift_back(side, empty, 8);
        let double_shifted_empty_squares = shift_back(side, empty, 16);
        let shifted_valid_squares = shift_back(side, valid_target_squares, 8);
        let double_shifted_valid_squares = shift_back(side, valid_target_squares, 16);
        let our_pawns = self.pieces.pawns(side);
        let pushable_pawns = our_pawns.intersection(shifted_empty_squares);
        let double_pushable_pawns = pushable_pawns.intersection(
            double_shifted_empty_squares,
        ).intersection(rank_of_start(side));
        let promoting_pawns = pushable_pawns.intersection(rank_of_promotion(side));

        let from_mask = pushable_pawns.intersection(promoting_pawns.complement()).intersection(
            shifted_valid_squares,
        );
        let d1: i8 = if side == Colour::White { 8 } else { -8 };
        proof {
            assert forall|i: int| 0 <= i < 64 && bit(from_mask.inner, i) implies 0 <= i + d1
                < 64 by {
                lemma_bit_and(
                    pushable_pawns.inner & !promoting_pawns.inner,
                    shifted_valid_squares.inner,
                    i as u64,
                );
                lemma_shift_bounds(valid_target_squares.inner, i as u64);
            }
        }
        gen_pawn_moves(move_list, from_mask, d1, PawnGen::Quiet);
        let from_mask2 = double_pushable_pawns.intersection(double_shifted_valid_squares);
        let d2: i8 = if side == Colour::White { 16 } else { -16 };
        proof {
            assert forall|i: int| 0 <= i < 64 && bit(from_mask2.inner, i) implies 0 <= i + d2
                < 64 by {
                lemma_bit_and(
                    double_pushable_pawns.inner,
                    double_shifted_valid_squares.inner,
                    i as u64,
                );
                lemma_shift_bounds(valid_target_squares.inner, i as u64);
            }
        }
        gen_pawn_moves(move_list, from_mask2, d2, PawnGen::Quiet);
        proof {
            lemma_chain(
                start,
                pawn_moves(from_mask@, d1 as int, PawnGen::Quiet),
                pawn_moves(from_mask2@, d2 as int, PawnGen::Quiet),
            );
        }
    }

    fn generate_forward_promos(
        &self,
        move_list: &mut MoveList,
        valid_target_squares: SquareSet,
        queen_only: bool,
    )
        ensures
            final(move_list)@ == extended(
                old(move_list)@, self.forward_promo_moves(valid_target_squares.inner, queen_only),
            ),
    {
        let side = self.side;
        let shifted_empty_squares = shift_back(side, self.pieces.empty(), 8);
        let shifted_valid_squares = shift_back(side, valid_target_squares, 8);
        let our_pawns = self.pieces.pawns(side);
        let pushable_pawns = our_pawns.intersection(shifted_empty_squares);
        let promoting_pawns = pushable_pawns.intersection(rank_of_promotion(side));
        let from_mask = promoting_pawns.intersection(shifted_valid_squares);
        let d1: i8 = if side == Colour::White { 8 } else { -8 };
        proof {
            assert forall|i: int| 0 <= i < 64 && bit(from_mask.inner, i) implies 0 <= i + d1
                < 64 by {
                lemma_bit_and(promoting_pawns.inner, shifted_valid_squares.inner, i as u64);
                lemma_shift_bounds(valid_target_squares.inner, i as u64);
            }
        }
        let kind = if queen_only { PawnGen::PromoQueen } else { PawnGen::PromoPush };
        gen_pawn_moves(move_list, from_mask, d1, kind);
    }

    fn generate_pawn_forward(&self, move_list: &mut MoveList, valid_target_squares: SquareSet)
        ensures
            final(move_list)@ == extended(
                old(move_list)@, self.pawn_forward_moves(valid_target_squares.inner),
            ),
    {
        let ghost start = move_list@;
        self.generate_pawn_quiet(move_list, valid_target_squares);
        self.generate_forward_promos(move_list, valid_target_squares, false);
        proof {
            lemma_chain(
                start,
                self.pawn_quiet_moves(valid_target_squares.inner),
                self.forward_promo_moves(valid_target_squares.inner, false),
            );
        }
    }

    fn capture_mask(&self, valid: SquareSet, west: bool, promo: bool) -> (r: SquareSet)
        ensures
            r.inner == self.capture_sources(valid.inner, west, promo),
            forall|i: int|
                0 <= i < 64 && bit(r.inner, i) ==> 0 <= i + (if west {
                    west_step(self.side)
                } else {
                    east_step(self.side)
                }) < 64,
    {
        let side = self.side;
        let their_pieces = self.pieces.their_pieces(side);
        let our_pawns = self.pieces.pawns(side);
        let attacking = if west {
            sources_west(side, their_pieces)
        } else {
            sources_east(side, their_pieces)
        }.intersection(our_pawns);
        let ok = if west {
            sources_west(side, valid)
        } else {
            sources_east(side, valid)
        };
        let rank = if promo {
            rank_of_promotion(side)
        } else {
            rank_of_promotion(side).complement()
        };
        let r = attacking.intersection(rank).intersection(ok);
        proof {
            assert forall|i: int| 0 <= i < 64 && bit(r.inner, i) implies 0 <= i + (if west {
                west_step(self.side)
            } else {
                east_step(self.side)
            }) < 64 by {
                lemma_bit_and(attacking.inner & rank.inner, ok.inner, i as u64);
                lemma_shift_bounds(valid.inner, i as u64);
            }
        }
        r
    }

    fn generate_pawn_caps(
        &self,
        move_list: &mut MoveList,
        valid_target_squares: SquareSet,
        queen_only: bool,
    )
        ensures
            final(move_list)@ == extended(
                old(move_list)@, self.pawn_cap_moves(valid_target_squares.inner, queen_only),
            ),
    {
        let side = self.side;
        let ghost start = move_list@;
        let west: i8 = if side == Colour::White { 7 } else { -9 };
        let east: i8 = if side == Colour::White { 9 } else { -7 };
        let kind = if queen_only { PawnGen::PromoQueen } else { PawnGen::PromoCapture };
        let m1 = self.capture_mask(valid_target_squares, true, false);
        gen_pawn_moves(move_list, m1, west, PawnGen::Capture);
        let m2 = self.capture_mask(valid_target_squares, false, false);
        gen_pawn_moves(move_list, m2, east, PawnGen::Capture);
        let m3 = self.capture_mask(valid_target_squares, true, true);
        gen_pawn_moves(move_list, m3, west, kind);
        let m4 = self.capture_mask(valid_target_squares, false, true);
        gen_pawn_moves(move_list, m4, east, kind);
        proof {
            let g1 = pawn_moves(m1@, west as int, PawnGen::Capture);
            let g2 = pawn_moves(m2@, east as int, PawnGen::Capture);
            let g3 = pawn_moves(m3@, west as int, kind);
            let g4 = pawn_moves(m4@, east as int, kind);
            lemma_chain(start, g1, g2);
            lemma_chain(start, g1 + g2, g3);
            lemma_chain(start, g1 + g2 + g3, g4);
        }
    }

    fn generate_ep(&self, move_list: &mut MoveList)
        ensures
            final(move_list)@ == extended(old(move_list)@, self.ep_moves()),
    {
        let ghost start = move_list@;
        let ep_sq = match self.ep_sq {
            Some(sq) => sq,
            None => {
                proof {
                    lemma_extended(start, Seq::empty(), Seq::empty());
                }
                return ;
            },
        };
        let side = self.side;
        let ep_bb = ep_sq.as_set();
        let our_pawns = self.pieces.pawns(side);
        let attacks_west = sources_west(side, ep_bb).intersection(our_pawns);
        let attacks_east = sources_east(side, ep_bb).intersection(our_pawns);
        let ghost g1 = opt_entry(
            attacks_west.inner != 0,
            MoveListEntry::fresh(
                Move::flagged(Square::at(lowest(attacks_west.inner)), ep_sq, MoveFlags::EnPassant),
                true,
            ),
        );
        let ghost g2 = opt_entry(
            attacks_east.inner != 0,
            MoveListEntry::fresh(
                Move::flagged(Square::at(lowest(attacks_east.inner)), ep_sq, MoveFlags::EnPassant),
                true,
            ),
        );
        if attacks_west.non_empty() {
            let from_sq = attacks_west.first();
            move_list.push(Move::new_with_flags(from_sq, ep_sq, MoveFlags::EnPassant), true);
            proof {
                assert(g1 =~= seq![g1[0]]);
            }
        } else {
            proof {
                lemma_extended(start, Seq::empty(), Seq::empty());
            }
        }
        if attacks_east.non_empty() {
            let from_sq = attacks_east.first();
            move_list.push(Move::new_with_flags(from_sq, ep_sq, MoveFlags::EnPassant), true);
            proof {
                assert(g2 =~= seq![g2[0]]);
            }
        } else {
            proof {
                lemma_extended(move_list@, Seq::empty(), Seq::empty());
            }
        }
        proof {
            lemma_chain(start, g1, g2);
        }
    }

    fn try_generate_frc_castling(
        &self,
        king_sq: Square,
        castling_sq: Square,
        kingside: bool,
        occupied: SquareSet,
        move_list: &mut MoveList,
    )
        requires
            king_sq == king_place(self.pieces, self.side),
            occupied.inner == self.pieces.occ(),
        ensures
            final(move_list)@ == extended(old(move_list)@, self.frc_castle(castling_sq, kingside)),
    {
        let ghost start = move_list@;
        let side = self.side;
        let king_dst = (if kingside { Square::G1 } else { Square::C1 }).relative_to(side);
        let rook_dst = (if kingside { Square::F1 } else { Square::D1 }).relative_to(side);
        let king_path = ray_between(king_sq, king_dst);
        let rook_path = ray_between(king_sq, castling_sq);
        let relevant_occupied = occupied.toggled(king_sq.as_set()).toggled(castling_sq.as_set());
        if relevant_occupied.intersection(
            king_path.union(rook_path).union(king_dst.as_set()).union(rook_dst.as_set()),
        ).is_empty() && !self.any_attacked(king_path, side.flip()) {
            move_list.push(Move::new_with_flags(king_sq, castling_sq, MoveFlags::Castle), false);
            proof {
                assert(self.frc_castle(castling_sq, kingside) =~= seq![
                    self.frc_castle(castling_sq, kingside)[0],
                ]);
            }
        } else {
            proof {
                lemma_extended(start, Seq::empty(), Seq::empty());
            }
        }
    }

    fn try_generate_plain_castling(&self, kingside: bool, move_list: &mut MoveList)
        ensures
            final(move_list)@ == extended(old(move_list)@, self.plain_castle(kingside)),
    {
        let ghost start = move_list@;
        let side = self.side;
        let occupied = self.pieces.occupied();
        let from = Square::E1.relative_to(side);
        let row: u64 = if kingside { 0x60 } else { 0x0e };
        let free = SquareSet {
            inner: match side {
                Colour::White => row,
                Colour::Black => row << 56,
            },
        };
        let thru = (if kingside { Square::F1 } else { Square::D1 }).relative_to(side);
        let to = (if kingside { Square::H1 } else { Square::A1 }).relative_to(side);
        let perm = if kingside {
            self.castle_perm.kingside(side)
        } else {
            self.castle_perm.queenside(side)
        };
        if perm.is_some() && occupied.intersection(free).is_empty() && !self.sq_attacked(
            from,
            side.flip(),
        ) && !self.sq_attacked(thru, side.flip()) {
            move_list.push(Move::new_with_flags(from, to, MoveFlags::Castle), false);
            proof {
                assert(self.plain_castle(kingside) =~= seq![self.plain_castle(kingside)[0]]);
            }
        } else {
            proof {
                lemma_extended(start, Seq::empty(), Seq::empty());
            }
        }
    }

    fn generate_castling_moves_for(&self, move_list: &mut MoveList)
        requires
            one_king(self.pieces, self.side),
        ensures
            final(move_list)@ == extended(old(move_list)@, self.castling_moves()),
    {
        let ghost start = move_list@;
        let side = self.side;
        let occupied = self.pieces.occupied();
        if self.chess960 {
            let king_sq = self.king_sq(side);
            if self.sq_attacked(king_sq, side.flip()) {
                proof {
                    lemma_extended(start, Seq::empty(), Seq::empty());
                }
                return ;
            }
            let ghost g1 = match self.castle_perm.kingside_of(side) {
                Some(r) => self.frc_castle(r, true),
                None => Seq::empty(),
            };
            let ghost g2 = match self.castle_perm.queenside_of(side) {
                Some(r) => self.frc_castle(r, false),
                None => Seq::empty(),
            };
            match self.castle_perm.kingside(side) {
                Some(castling_kingside) => {
                    self.try_generate_frc_castling(
                        king_sq,
                        castling_kingside,
                        true,
                        occupied,
                        move_list,
                    );
                },
                None => {
                    proof {
                        lemma_extended(start, Seq::empty(), Seq::empty());
                    }
                },
            }
            let ghost mid = move_list@;
            match self.castle_perm.queenside(side) {
                Some(castling_queenside) => {
                    self.try_generate_frc_castling(
                        king_sq,
                        castling_queenside,
                        false,
                        occupied,
                        move_list,
                    );
                },
                None => {
                    proof {
                        lemma_extended(mid, Seq::empty(), Seq::empty());
                    }
                },
            }
            proof {
                lemma_chain(start, g1, g2);
            }
        } else {
            self.try_generate_plain_castling(true, move_list);
            self.try_generate_plain_castling(false, move_list);
            proof {
                lemma_chain(start, self.plain_castle(true), self.plain_castle(false));
            }
        }
    }

    fn generate_castling_if_free(&self, move_list: &mut MoveList)
        requires
            one_king(self.pieces, self.side),
        ensures
            final(move_list)@ == extended(old(move_list)@, self.castling_if_free()),
    {
        if !self.in_check() {
            self.generate_castling_moves_for(move_list);
        } else {
            proof {
                lemma_extended(move_list@, Seq::empty(), Seq::empty());
            }
        }
    }

    fn target_squares(&self) -> (r: SquareSet)
        requires
            one_king(self.pieces, self.side),
        ensures
            r.inner == self.valid_targets(),
    {
        if self.in_check() {
            let our_king_sq = self.king_sq(self.side);
            ray_between(our_king_sq, self.threats.checkers.first()).union(self.threats.checkers)
        } else {
            SquareSet::full()
        }
    }

    fn generate_king_moves(&self, move_list: &mut MoveList, mode: GenMode)
        requires
            one_king(self.pieces, self.side),
        ensures
            final(move_list)@ == extended(old(move_list)@, self.king_moves(mode)),
    {
        let our_king_sq = self.king_sq(self.side);
        let moves = crate::attacks::king_attacks(our_king_sq).intersection(
            self.threats.all.complement(),
        );
        push_from_moves(
            move_list,
            mode,
            our_king_sq,
            moves,
            self.pieces.their_pieces(self.side),
            self.pieces.occupied(),
        );
    }

    fn generate_officer_moves(&self, move_list: &mut MoveList, mode: GenMode)
        requires
            one_king(self.pieces, self.side),
        ensures
            final(move_list)@ == extended(old(move_list)@, self.officer_moves(mode)),
    {
        let ghost start = move_list@;
        let side = self.side;
        let valid = self.target_squares();
        let their = self.pieces.their_pieces(side);
        let occ = self.pieces.occupied();
        let knights = self.pieces.knights(side);
        gen_piece_moves(move_list, mode, PieceType::Knight, knights, valid, their, occ);
        self.generate_king_moves(move_list, mode);
        let diags = self.pieces.diags(side);
        gen_piece_moves(move_list, mode, PieceType::Bishop, diags, valid, their, occ);
        let orthos = self.pieces.orthos(side);
        gen_piece_moves(move_list, mode, PieceType::Rook, orthos, valid, their, occ);
        proof {
            let g1 = piece_moves(mode, PieceType::Knight, knights@, valid.inner, their.inner, occ.inner);
            let g2 = self.king_moves(mode);
            let g3 = piece_moves(mode, PieceType::Bishop, diags@, valid.inner, their.inner, occ.inner);
            let g4 = piece_moves(mode, PieceType::Rook, orthos@, valid.inner, their.inner, occ.inner);
            lemma_chain(start, g1, g2);
            lemma_chain(start, g1 + g2, g3);
            lemma_chain(start, g1 + g2 + g3, g4);
        }
    }

    fn generate_moves_for(&self, move_list: &mut MoveList)
        requires
            one_king(self.pieces, self.side),
        ensures
            final(move_list)@ == extended(old(move_list)@, self.pseudo_moves()),
    {
        let ghost start = move_list@;
        if self.threats.checkers.count() > 1 {
            self.generate_king_moves(move_list, GenMode::All);
            return ;
        }
        let valid_target_squares = self.target_squares();
        self.generate_pawn_forward(move_list, valid_target_squares);
        self.generate_pawn_caps(move_list, valid_target_squares, false);
        self.generate_ep(move_list);
        self.generate_officer_moves(move_list, GenMode::All);
        self.generate_castling_if_free(move_list);
        proof {
            let v = self.valid_targets();
            let g1 = self.pawn_forward_moves(v);
            let g2 = self.pawn_cap_moves(v, false);
            let g3 = self.ep_moves();
            let g4 = self.officer_moves(GenMode::All);
            let g5 = self.castling_if_free();
            lemma_chain(start, g1, g2);
            lemma_chain(start, g1 + g2, g3);
            lemma_chain(start, g1 + g2 + g3, g4);
            lemma_chain(start, g1 + g2 + g3 + g4, g5);
        }
    }

    fn generate_captures_for(&self, move_list: &mut MoveList, queen_only: bool)
        requires
            one_king(self.pieces, self.side),
        ensures
            final(move_list)@ == extended(old(move_list)@, self.capture_moves(queen_only)),
    {
        let ghost start = move_list@;
        if self.threats.checkers.count() > 1 {
            self.generate_king_moves(move_list, GenMode::Captures);
            return ;
        }
        let valid_target_squares = self.target_squares();
        self.generate_forward_promos(move_list, valid_target_squares, queen_only);
        self.generate_pawn_caps(move_list, valid_target_squares, queen_only);
        self.generate_ep(move_list);
        self.generate_officer_moves(move_list, GenMode::Captures);
        proof {
            let v = self.valid_targets();
            let g1 = self.forward_promo_moves(v, queen_only);
            let g2 = self.pawn_cap_moves(v, queen_only);
            let g3 = self.ep_moves();
            let g4 = self.officer_moves(GenMode::Captures);
            lemma_chain(start, g1, g2);
            lemma_chain(start, g1 + g2, g3);
            lemma_chain(start, g1 + g2 + g3, g4);
        }
    }

    fn generate_quiets_for(&self, move_list: &mut MoveList)
        requires
            one_king(self.pieces, self.side),
        ensures
            final(move_list)@ == extended(old(move_list)@, self.quiet_moves()),
    {
        let ghost start = move_list@;
        if self.threats.checkers.count() > 1 {
            self.generate_king_moves(move_list, GenMode::Quiets);
            return ;
        }
        let valid_target_squares = self.target_squares();
        self.generate_pawn_quiet(move_list, valid_target_squares);
        self.generate_officer_moves(move_list, GenMode::Quiets);
        self.generate_castling_if_free(move_list);
        proof {
            let v = self.valid_targets();
            let g1 = self.pawn_quiet_moves(v);
            let g2 = self.officer_moves(GenMode::Quiets);
            let g3 = self.castling_if_free();
            lemma_chain(start, g1, g2);
            lemma_chain(start, g1 + g2, g3);
        }
    }

    /// Fills `move_list` with every pseudo-legal move of the side to move: the moves
    /// that the pieces can make, whether or not they leave the king attacked.
    pub fn generate_moves(&self, move_list: &mut MoveList)
        requires
            self.wf(),
        ensures
            final(move_list)@ == capped(self.pseudo_moves()),
    {
        move_list.clear();
        self.generate_moves_for(move_list);
        proof {
            lemma_extended(Seq::empty(), self.pseudo_moves(), Seq::empty());
        }
    }

    /// Fills `move_list` with the tactical moves of the side to move. In the mode of
    /// the quiescence search a pawn promotes to a queen only.
    pub fn generate_captures<Mode: MovePickerMode>(&self, move_list: &mut MoveList)
        requires
            self.wf(),
        ensures
            final(move_list)@ == capped(self.capture_moves(Mode::queen_only())),
    {
        move_list.clear();
        self.generate_captures_for(move_list, Mode::captures_only());
        proof {
            lemma_extended(Seq::empty(), self.capture_moves(Mode::queen_only()), Seq::empty());
        }
    }

    /// Adds the quiet moves of the side to move to `move_list`.
    pub fn generate_quiets(&self, move_list: &mut MoveList)
        requires
            self.wf(),
        ensures
            final(move_list)@ == extended(old(move_list)@, self.quiet_moves()),
    {
        self.generate_quiets_for(move_list);
    }
}


/// The entries of two lists put together are the entries of the one and of the other.
pub proof fn lemma_set_add(a: Seq<MoveListEntry>, b: Seq<MoveListEntry>)
    ensures
        (a + b).to_set() == a.to_set().union(b.to_set()),
{
    assert forall|x: MoveListEntry| (a + b).contains(x) == (a.contains(x) || b.contains(x)) by {
        if (a + b).contains(x) {
            let i = choose|i: int| 0 <= i < (a + b).len() && (a + b)[i] == x;
            if i < a.len() {
                assert(a[i] == x);
            } else {
                assert(b[i - a.len()] == x);
            }
        }
        if a.contains(x) {
            let i = choose|i: int| 0 <= i < a.len() && a[i] == x;
            assert((a + b)[i] == x);
        }
        if b.contains(x) {
            let i = choose|i: int| 0 <= i < b.len() && b[i] == x;
            assert((a + b)[i + a.len()] == x);
        }
    }
    assert((a + b).to_set() =~= a.to_set().union(b.to_set()));
}

proof fn lemma_piece_moves_split(
    pt: PieceType,
    froms: Seq<Square>,
    valid: u64,
    their: u64,
    occ: u64,
)
    ensures
        piece_moves(GenMode::All, pt, froms, valid, their, occ).to_multiset() == piece_moves(
            GenMode::Captures,
            pt,
            froms,
            valid,
            their,
            occ,
        ).to_multiset().add(
            piece_moves(GenMode::Quiets, pt, froms, valid, their, occ).to_multiset(),
        ),
    decreases froms.len(),
{
    let all = piece_moves(GenMode::All, pt, froms, valid, their, occ);
    let caps = piece_moves(GenMode::Captures, pt, froms, valid, their, occ);
    let quiets = piece_moves(GenMode::Quiets, pt, froms, valid, their, occ);
    if froms.len() == 0 {
        lemma_multiset_commutative(caps, quiets);
        assert(caps + quiets =~= all);
    } else {
        let rest = froms.drop_last();
        lemma_piece_moves_split(pt, rest, valid, their, occ);
        let a = attack_bits(pt, froms.last().idx(), occ) & valid;
        let c = moves_to(froms.last(), squares(a & their), true);
        let q = moves_to(froms.last(), squares(a & !occ), false);
        lemma_multiset_commutative(c, q);
        lemma_multiset_commutative(piece_moves(GenMode::All, pt, rest, valid, their, occ), c + q);
        lemma_multiset_commutative(piece_moves(GenMode::Captures, pt, rest, valid, their, occ), c);
        lemma_multiset_commutative(piece_moves(GenMode::Quiets, pt, rest, valid, their, occ), q);
        assert(all.to_multiset() =~= caps.to_multiset().add(quiets.to_multiset()));
    }
}

impl Board {
    proof fn lemma_king_moves_split(&self)
        ensures
            self.king_moves(GenMode::All).to_multiset() == self.king_moves(
                GenMode::Captures,
            ).to_multiset().add(self.king_moves(GenMode::Quiets).to_multiset()),
    {
        lemma_multiset_commutative(self.king_moves(GenMode::Captures), self.king_moves(GenMode::Quiets));
    }

    proof fn lemma_officer_moves_split(&self)
        ensures
            self.officer_moves(GenMode::All).to_multiset() == self.officer_moves(
                GenMode::Captures,
            ).to_multiset().add(self.officer_moves(GenMode::Quiets).to_multiset()),
    {
        let valid = self.valid_targets();
        let their = self.pieces.side_bits(self.side.flipped());
        let occ = self.pieces.occ();
        let kn = squares(self.pieces.bb(Piece::of(self.side, PieceType::Knight)));
        let di = squares(self.pieces.diag_bits(self.side));
        let or = squares(self.pieces.ortho_bits(self.side));
        lemma_piece_moves_split(PieceType::Knight, kn, valid, their, occ);
        lemma_piece_moves_split(PieceType::Bishop, di, valid, their, occ);
        lemma_piece_moves_split(PieceType::Rook, or, valid, their, occ);
        self.lemma_king_moves_split();
        self.lemma_officer_parts(GenMode::All);
        self.lemma_officer_parts(GenMode::Captures);
        self.lemma_officer_parts(GenMode::Quiets);
        assert(self.officer_moves(GenMode::All).to_multiset() =~= self.officer_moves(
            GenMode::Captures,
        ).to_multiset().add(self.officer_moves(GenMode::Quiets).to_multiset()));
    }

    proof fn lemma_officer_parts(&self, mode: GenMode)
        ensures
            self.officer_moves(mode).to_multiset() == piece_moves(
                mode,
                PieceType::Knight,
                squares(self.pieces.bb(Piece::of(self.side, PieceType::Knight))),
                self.valid_targets(),
                self.pieces.side_bits(self.side.flipped()),
                self.pieces.occ(),
            ).to_multiset().add(self.king_moves(mode).to_multiset()).add(
                piece_moves(
                    mode,
                    PieceType::Bishop,
                    squares(self.pieces.diag_bits(self.side)),
                    self.valid_targets(),
                    self.pieces.side_bits(self.side.flipped()),
                    self.pieces.occ(),
                ).to_multiset(),
            ).add(
                piece_moves(
                    mode,
                    PieceType::Rook,
                    squares(self.pieces.ortho_bits(self.side)),
                    self.valid_targets(),
                    self.pieces.side_bits(self.side.flipped()),
                    self.pieces.occ(),
                ).to_multiset(),
            ),
    {
        let valid = self.valid_targets();
        let their = self.pieces.side_bits(self.side.flipped());
        let occ = self.pieces.occ();
        let g1 = piece_moves(
            mode,
            PieceType::Knight,
            squares(self.pieces.bb(Piece::of(self.side, PieceType::Knight))),
            valid,
            their,
            occ,
        );
        let g2 = self.king_moves(mode);
        let g3 = piece_moves(
            mode,
            PieceType::Bishop,
            squares(self.pieces.diag_bits(self.side)),
            valid,
            their,
            occ,
        );
        let g4 = piece_moves(
            mode,
            PieceType::Rook,
            squares(self.pieces.ortho_bits(self.side)),
            valid,
            their,
            occ,
        );
        lemma_multiset_commutative(g1, g2);
        lemma_multiset_commutative(g1 + g2, g3);
        lemma_multiset_commutative(g1 + g2 + g3, g4);
    }

    /// The generator of all moves and the two staged generators agree entry by entry:
    /// each entry stands in the list of all moves as often as in the list of tactical
    /// moves (in the mode of the main search) and the list of quiet moves together.
    pub proof fn lemma_generators_count(&self)
        ensures
            self.pseudo_moves().to_multiset() == self.capture_moves(false).to_multiset().add(
                self.quiet_moves().to_multiset(),
            ),
            self.pseudo_moves().len() == self.capture_moves(false).len() + self.quiet_moves().len(),
    {
        if squares(self.threats.checkers.inner).len() > 1 {
            self.lemma_king_moves_split();
        } else {
            let v = self.valid_targets();
            let qp = self.pawn_quiet_moves(v);
            let pr = self.forward_promo_moves(v, false);
            let c = self.pawn_cap_moves(v, false);
            let e = self.ep_moves();
            let oa = self.officer_moves(GenMode::All);
            let oc = self.officer_moves(GenMode::Captures);
            let oq = self.officer_moves(GenMode::Quiets);
            let z = self.castling_if_free();
            self.lemma_officer_moves_split();
            lemma_multiset_commutative(qp, pr);
            lemma_multiset_commutative(qp + pr, c);
            lemma_multiset_commutative(qp + pr + c, e);
            lemma_multiset_commutative(qp + pr + c + e, oa);
            lemma_multiset_commutative(qp + pr + c + e + oa, z);
            lemma_multiset_commutative(pr, c);
            lemma_multiset_commutative(pr + c, e);
            lemma_multiset_commutative(pr + c + e, oc);
            lemma_multiset_commutative(qp, oq);
            lemma_multiset_commutative(qp + oq, z);
            assert(self.pseudo_moves().to_multiset() =~= self.capture_moves(false).to_multiset().add(
                self.quiet_moves().to_multiset(),
            ));
        }
        let caps = self.capture_moves(false);
        let quiets = self.quiet_moves();
        lemma_multiset_commutative(caps, quiets);
        self.pseudo_moves().to_multiset_ensures();
        (caps + quiets).to_multiset_ensures();
    }

    /// The generator of all moves and the two staged generators agree: the moves that
    /// the first gives are those that the generator of tactical moves (in the mode of
    /// the main search) and the generator of quiet moves give together, each with the
    /// same mark of being tactical or quiet.
    pub proof fn lemma_generators_agree(&self)
        ensures
            self.pseudo_moves().to_set() == self.capture_moves(false).to_set().union(
                self.quiet_moves().to_set(),
            ),
    {
        let all = self.pseudo_moves();
        let caps = self.capture_moves(false);
        let quiets = self.quiet_moves();
        self.lemma_generators_count();
        lemma_multiset_commutative(caps, quiets);
        all.to_multiset_ensures();
        (caps + quiets).to_multiset_ensures();
        lemma_set_add(caps, quiets);
        assert forall|x: MoveListEntry| all.contains(x) == (caps + quiets).contains(x) by {
            assert(all.to_multiset().count(x) == (caps + quiets).to_multiset().count(x));
        }
        assert(all.to_set() =~= (caps + quiets).to_set());
    }

    /// Where the pseudo-legal moves fit into a list, the staged generators lose none
    /// of them: a list that the generator of tactical moves filled, and to which the
    /// generator of quiet moves then added, holds the tactical moves and behind them
    /// the quiet moves, each entry as often as the list that the generator of all
    /// moves fills.
    pub proof fn lemma_staged_list(&self)
        requires
            self.pseudo_moves().len() <= 218,
        ensures
            capped(self.pseudo_moves()) == self.pseudo_moves(),
            extended(capped(self.capture_moves(false)), self.quiet_moves())
                == self.capture_moves(false) + self.quiet_moves(),
            extended(capped(self.capture_moves(false)), self.quiet_moves()).to_multiset() == capped(
                self.pseudo_moves(),
            ).to_multiset(),
    {
        self.lemma_generators_count();
        lemma_multiset_commutative(self.capture_moves(false), self.quiet_moves());
    }
}


proof fn lemma_push_bv(p: u64, occ: u64, v: u64, s: u64)
    by (bit_vector)
    requires
        s < 64,
    ensures
        bit(((p & (!occ >> 8)) & !((p & (!occ >> 8)) & RANK_7)) & (v >> 8), s as int) == (bit(
            p,
            s as int,
        ) && s < 48 && !bit(occ, s + 8) && bit(v, s + 8)),
        bit(((p & (!occ << 8)) & !((p & (!occ << 8)) & RANK_2)) & (v << 8), s as int) == (bit(
            p,
            s as int,
        ) && s >= 16 && !bit(occ, s - 8) && bit(v, s - 8)),
        bit((((p & (!occ >> 8)) & (!occ >> 16)) & RANK_2) & (v >> 16), s as int) == (bit(
            p,
            s as int,
        ) && 8 <= s < 16 && !bit(occ, s + 8) && !bit(occ, s + 16) && bit(v, s + 16)),
        bit((((p & (!occ << 8)) & (!occ << 16)) & RANK_7) & (v << 16), s as int) == (bit(
            p,
            s as int,
        ) && 48 <= s < 56 && !bit(occ, s - 8) && !bit(occ, s - 16) && bit(v, s - 16)),
        bit(((p & (!occ >> 8)) & RANK_7) & (v >> 8), s as int) == (bit(p, s as int) && 48 <= s
            < 56 && !bit(occ, s + 8) && bit(v, s + 8)),
        bit(((p & (!occ << 8)) & RANK_2) & (v << 8), s as int) == (bit(p, s as int) && 8 <= s
            < 16 && !bit(occ, s - 8) && bit(v, s - 8)),
{
}

proof fn lemma_capture_bv(p: u64, their: u64, v: u64, rank: u64, s: u64)
    by (bit_vector)
    requires
        s < 64,
    ensures
        bit(((south_east(their) & p) & rank) & south_east(v), s as int) == (bit(p, s as int)
            && bit(rank, s as int) && s % 8 != 0 && s + 7 < 64 && bit(their, s + 7) && bit(v, s + 7)),
        bit(((south_west(their) & p) & rank) & south_west(v), s as int) == (bit(p, s as int)
            && bit(rank, s as int) && s % 8 != 7 && s + 9 < 64 && bit(their, s + 9) && bit(v, s + 9)),
        bit(((north_east(their) & p) & rank) & north_east(v), s as int) == (bit(p, s as int)
            && bit(rank, s as int) && s % 8 != 0 && s >= 9 && bit(their, s - 9) && bit(v, s - 9)),
        bit(((north_west(their) & p) & rank) & north_west(v), s as int) == (bit(p, s as int)
            && bit(rank, s as int) && s % 8 != 7 && s >= 7 && bit(their, s - 7) && bit(v, s - 7)),
{
}

impl Board {
    /// The pawns that step ahead are the pawns of the side to move with an empty square
    /// ahead that lies in `valid`; those that promote with the step stand on the rank
    /// before the last, the others do not. The pawns that step two ranks ahead stand on
    /// their starting rank and have two empty squares ahead, the second in `valid`.
    pub proof fn lemma_push_sources(&self, valid: u64, s: Square)
        ensures
            bit(self.single_push_sources(valid), s.idx()) == (bit(self.own_pawns(), s.idx())
                && s.idx() / 8 != promo_row(self.side) && 0 <= s.idx() + ahead(self.side, 1) < 64
                && !bit(self.pieces.occ(), s.idx() + ahead(self.side, 1)) && bit(
                valid,
                s.idx() + ahead(self.side, 1),
            )),
            bit(self.promo_push_sources(valid), s.idx()) == (bit(self.own_pawns(), s.idx())
                && s.idx() / 8 == promo_row(self.side) && !bit(
                self.pieces.occ(),
                s.idx() + ahead(self.side, 1),
            ) && bit(valid, s.idx() + ahead(self.side, 1))),
            bit(self.double_push_sources(valid), s.idx()) == (bit(self.own_pawns(), s.idx())
                && s.idx() / 8 == 7 - promo_row(self.side) && !bit(
                self.pieces.occ(),
                s.idx() + ahead(self.side, 1),
            ) && !bit(self.pieces.occ(), s.idx() + ahead(self.side, 2)) && bit(
                valid,
                s.idx() + ahead(self.side, 2),
            )),
    {
        lemma_push_bv(self.own_pawns(), self.pieces.occ(), valid, s.idx() as u64);
    }

    /// The pawns that capture are the pawns of the side to move that stand diagonally
    /// below a piece of the other side on a square of `valid`: one file towards the
    /// h-file of it where they capture towards the a-file, and the other way round.
    pub proof fn lemma_capture_sources(&self, valid: u64, west: bool, promo: bool, s: Square)
        ensures
            bit(self.capture_sources(valid, west, promo), s.idx()) == (bit(
                self.own_pawns(),
                s.idx(),
            ) && (s.idx() / 8 == promo_row(self.side)) == promo && s.idx() % 8 != (if west {
                0int
            } else {
                7
            }) && 0 <= s.idx() + side_step(self.side, west) < 64 && bit(
                self.pieces.side_bits(self.side.flipped()),
                s.idx() + side_step(self.side, west),
            ) && bit(valid, s.idx() + side_step(self.side, west))),
    {
        let rank = if promo {
            promo_rank(self.side)
        } else {
            !promo_rank(self.side)
        };
        lemma_capture_bv(
            self.own_pawns(),
            self.pieces.side_bits(self.side.flipped()),
            valid,
            rank,
            s.idx() as u64,
        );
        lemma_rank_bv(s.idx() as u64);
    }
}

proof fn lemma_rank_bv(s: u64)
    by (bit_vector)
    requires
        s < 64,
    ensures
        bit(RANK_7, s as int) == (s / 8 == 6),
        bit(!RANK_7, s as int) == (s / 8 != 6),
        bit(RANK_2, s as int) == (s / 8 == 1),
        bit(!RANK_2, s as int) == (s / 8 != 1),
{
}

/// The number of the rank from which the pawns of `side` promote with their next step.
pub open spec fn promo_row(side: Colour) -> int {
    match side {
        Colour::White => 6,
        Colour::Black => 1,
    }
}

/// The number by which a pawn of `side` moves on when it captures, towards the a-file
/// (`west`) or towards the h-file.
pub open spec fn side_step(side: Colour, west: bool) -> int {
    if west {
        west_step(side)
    } else {
        east_step(side)
    }
}

} // verus!
