use vstd::prelude::*;
use crate::bits::{bit, lemma_bit_and, lemma_bit_not, lemma_bit_or, lemma_bit_single, lemma_bits_equal, single};
use crate::squareset::SquareSet;
use crate::types::{Colour, Piece, PieceType, Square};

verus! {

broadcast use crate::types::group_square;

/// Where the pieces stand: one set of squares for each of the twelve pieces. The
/// occupancy of a side and of the board are derived from the twelve.
#[derive(Clone, Copy, Debug, PartialEq, Eq, Structural)]
pub struct PieceLayout {
    pub wp: u64,
    pub wn: u64,
    pub wb: u64,
    pub wr: u64,
    pub wq: u64,
    pub wk: u64,
    pub bp: u64,
    pub bn: u64,
    pub bb: u64,
    pub br: u64,
    pub bq: u64,
    pub bk: u64,
}

/// The squares attacked by the side that is not to move, and the pieces of that side
/// that give check.
#[derive(Clone, Copy, Debug, PartialEq, Eq, Structural)]
pub struct Threats {
    pub all: SquareSet,
    pub checkers: SquareSet,
}

impl Threats {
    /// No square attacked and no piece giving check.
    pub fn none() -> (r: Threats)
        ensures
            r.all.inner == 0,
            r.checkers.inner == 0,
    {
        Threats { all: SquareSet { inner: 0 }, checkers: SquareSet { inner: 0 } }
    }
}

impl PieceLayout {
    /// The squares on which `p` stands.
    pub open spec fn bb(self, p: Piece) -> u64 {
        match p {
            Piece::WP => self.wp,
            Piece::WN => self.wn,
            Piece::WB => self.wb,
            Piece::WR => self.wr,
            Piece::WQ => self.wq,
            Piece::WK => self.wk,
            Piece::BP => self.bp,
            Piece::BN => self.bn,
            Piece::BB => self.bb,
            Piece::BR => self.br,
            Piece::BQ => self.bq,
            Piece::BK => self.bk,
        }
    }

    /// The layout in which `p` stands on `v` and every other piece where it stood.
    pub open spec fn with(self, p: Piece, v: u64) -> PieceLayout {
        match p {
            Piece::WP => PieceLayout { wp: v, ..self },
            Piece::WN => PieceLayout { wn: v, ..self },
            Piece::WB => PieceLayout { wb: v, ..self },
            Piece::WR => PieceLayout { wr: v, ..self },
            Piece::WQ => PieceLayout { wq: v, ..self },
            Piece::WK => PieceLayout { wk: v, ..self },
            Piece::BP => PieceLayout { bp: v, ..self },
            Piece::BN => PieceLayout { bn: v, ..self },
            Piece::BB => PieceLayout { bb: v, ..self },
            Piece::BR => PieceLayout { br: v, ..self },
            Piece::BQ => PieceLayout { bq: v, ..self },
            Piece::BK => PieceLayout { bk: v, ..self },
        }
    }

    /// Whether `p` stands on `sq`.
    pub open spec fn has(self, p: Piece, sq: Square) -> bool {
        bit(self.bb(p), sq.idx())
    }

    /// The layout with `p` put on `sq`.
    pub open spec fn put(self, p: Piece, sq: Square) -> PieceLayout {
        self.with(p, self.bb(p) | single(sq.idx()))
    }

    /// The layout with `p` taken off `sq`.
    pub open spec fn cleared(self, p: Piece, sq: Square) -> PieceLayout {
        self.with(p, self.bb(p) & !single(sq.idx()))
    }

    /// The squares on which the pieces of `side` stand.
    pub open spec fn side_bits(self, side: Colour) -> u64 {
        self.bb(Piece::of(side, PieceType::Pawn)) | self.bb(Piece::of(side, PieceType::Knight))
            | self.bb(Piece::of(side, PieceType::Bishop)) | self.bb(
            Piece::of(side, PieceType::Rook),
        ) | self.bb(Piece::of(side, PieceType::Queen)) | self.bb(Piece::of(side, PieceType::King))
    }

    /// The squares on which the pieces of kind `kind` stand, of either colour.
    pub open spec fn kind_bits(self, kind: PieceType) -> u64 {
        self.bb(Piece::of(Colour::White, kind)) | self.bb(Piece::of(Colour::Black, kind))
    }

    /// The squares on which any piece stands.
    pub open spec fn occ(self) -> u64 {
        self.side_bits(Colour::White) | self.side_bits(Colour::Black)
    }

    /// The squares of the bishops and queens of `side`.
    pub open spec fn diag_bits(self, side: Colour) -> u64 {
        self.bb(Piece::of(side, PieceType::Bishop)) | self.bb(Piece::of(side, PieceType::Queen))
    }

    /// The squares of the rooks and queens of `side`.
    pub open spec fn ortho_bits(self, side: Colour) -> u64 {
        self.bb(Piece::of(side, PieceType::Rook)) | self.bb(Piece::of(side, PieceType::Queen))
    }

    /// Putting a piece on a square changes nothing else.
    pub proof fn lemma_put(self, p: Piece, sq: Square)
        ensures
            forall|q: Piece, s: Square| #[trigger]
                self.put(p, sq).has(q, s) == ((q == p && s == sq) || self.has(q, s)),
    {
        assert forall|q: Piece, s: Square| #[trigger]
            self.put(p, sq).has(q, s) == ((q == p && s == sq) || self.has(q, s)) by {
            lemma_bit_or(self.bb(p), single(sq.idx()), s.idx() as u64);
            lemma_bit_single(sq.idx() as u64, s.idx() as u64);
        }
    }

    /// Taking a piece off a square changes nothing else.
    pub proof fn lemma_cleared(self, p: Piece, sq: Square)
        ensures
            forall|q: Piece, s: Square| #[trigger]
                self.cleared(p, sq).has(q, s) == (!(q == p && s == sq) && self.has(q, s)),
    {
        assert forall|q: Piece, s: Square| #[trigger]
            self.cleared(p, sq).has(q, s) == (!(q == p && s == sq) && self.has(q, s)) by {
            lemma_bit_and(self.bb(p), !single(sq.idx()), s.idx() as u64);
            lemma_bit_not(single(sq.idx()), s.idx() as u64);
            lemma_bit_single(sq.idx() as u64, s.idx() as u64);
        }
    }

    /// Two layouts with every piece on the same squares are the same layout.
    pub proof fn lemma_same(self, other: PieceLayout)
        requires
            forall|q: Piece, s: Square| self.has(q, s) == other.has(q, s),
        ensures
            self == other,
    {
        assert forall|q: Piece| self.bb(q) == other.bb(q) by {
            assert forall|i: int| 0 <= i < 64 implies bit(self.bb(q), i) == bit(other.bb(q), i) by {
                assert(self.has(q, Square::at(i)) == other.has(q, Square::at(i)));
            }
            lemma_bits_equal(self.bb(q), other.bb(q));
        }
        assert(self.bb(Piece::WP) == other.bb(Piece::WP));
        assert(self.bb(Piece::WN) == other.bb(Piece::WN));
        assert(self.bb(Piece::WB) == other.bb(Piece::WB));
        assert(self.bb(Piece::WR) == other.bb(Piece::WR));
        assert(self.bb(Piece::WQ) == other.bb(Piece::WQ));
        assert(self.bb(Piece::WK) == other.bb(Piece::WK));
        assert(self.bb(Piece::BP) == other.bb(Piece::BP));
        assert(self.bb(Piece::BN) == other.bb(Piece::BN));
        assert(self.bb(Piece::BB) == other.bb(Piece::BB));
        assert(self.bb(Piece::BR) == other.bb(Piece::BR));
        assert(self.bb(Piece::BQ) == other.bb(Piece::BQ));
        assert(self.bb(Piece::BK) == other.bb(Piece::BK));
    }

    /// The layout without pieces.
    pub fn new() -> (r: PieceLayout)
        ensures
            forall|q: Piece| r.bb(q) == 0,
            r.occ() == 0,
    {
        let r = PieceLayout {
            wp: 0,
            wn: 0,
            wb: 0,
            wr: 0,
            wq: 0,
            wk: 0,
            bp: 0,
            bn: 0,
            bb: 0,
            br: 0,
            bq: 0,
            bk: 0,
        };
        assert(r.occ() == 0) by {
            assert(0u64 | 0u64 == 0u64) by (bit_vector);
        }
        r
    }

    /// Takes every piece off the board.
    pub fn reset(&mut self)
        ensures
            *final(self) == PieceLayout::new_spec(),
    {
        *self = PieceLayout::new();
        proof {
            self.lemma_same(PieceLayout::new_spec());
        }
    }

    /// The squares on which `p` stands.
    pub fn piece_bb(&self, p: Piece) -> (r: SquareSet)
        ensures
            r.inner == self.bb(p),
    {
        SquareSet {
            inner: match p {
                Piece::WP => self.wp,
                Piece::WN => self.wn,
                Piece::WB => self.wb,
                Piece::WR => self.wr,
                Piece::WQ => self.wq,
                Piece::WK => self.wk,
                Piece::BP => self.bp,
                Piece::BN => self.bn,
                Piece::BB => self.bb,
                Piece::BR => self.br,
                Piece::BQ => self.bq,
                Piece::BK => self.bk,
            },
        }
    }

    fn store(&mut self, p: Piece, v: u64)
        ensures
            *final(self) == old(self).with(p, v),
    {
        match p {
            Piece::WP => self.wp = v,
            Piece::WN => self.wn = v,
            Piece::WB => self.wb = v,
            Piece::WR => self.wr = v,
            Piece::WQ => self.wq = v,
            Piece::WK => self.wk = v,
            Piece::BP => self.bp = v,
            Piece::BN => self.bn = v,
            Piece::BB => self.bb = v,
            Piece::BR => self.br = v,
            Piece::BQ => self.bq = v,
            Piece::BK => self.bk = v,
        }
    }

    /// Puts `piece` on `sq`.
    pub fn set_piece_at(&mut self, sq: Square, piece: Piece)
        ensures
            *final(self) == old(self).put(piece, sq),
            forall|q: Piece, s: Square| #[trigger]
                final(self).has(q, s) == ((q == piece && s == sq) || old(self).has(q, s)),
    {
        proof {
            self.lemma_put(piece, sq);
        }
        let v: u64 = self.piece_bb(piece).inner | (1u64 << (sq.index() as u64));
        self.store(piece, v);
    }

    /// Takes `piece` off `sq`.
    pub fn clear_piece_at(&mut self, sq: Square, piece: Piece)
        ensures
            *final(self) == old(self).cleared(piece, sq),
            forall|q: Piece, s: Square| #[trigger]
                final(self).has(q, s) == (!(q == piece && s == sq) && old(self).has(q, s)),
    {
        proof {
            self.lemma_cleared(piece, sq);
        }
        let v: u64 = self.piece_bb(piece).inner & !(1u64 << (sq.index() as u64));
        self.store(piece, v);
    }

    /// Takes `piece` off `from` and puts it on `to`.
    pub fn move_piece(&mut self, from: Square, to: Square, piece: Piece)
        ensures
            *final(self) == old(self).cleared(piece, from).put(piece, to),
            forall|q: Piece, s: Square| #[trigger]
                final(self).has(q, s) == ((q == piece && s == to) || (!(q == piece && s == from)
                    && old(self).has(q, s))),
    {
        self.clear_piece_at(from, piece);
        self.set_piece_at(to, piece);
    }

    /// The squares on which the pieces of `side` stand.
    pub fn occupied_co(&self, side: Colour) -> (r: SquareSet)
        ensures
            r.inner == self.side_bits(side),
    {
        match side {
            Colour::White => SquareSet {
                inner: self.wp | self.wn | self.wb | self.wr | self.wq | self.wk,
            },
            Colour::Black => SquareSet {
                inner: self.bp | self.bn | self.bb | self.br | self.bq | self.bk,
            },
        }
    }

    /// The squares on which any piece stands.
    pub fn occupied(&self) -> (r: SquareSet)
        ensures
            r.inner == self.occ(),
    {
        SquareSet {
            inner: (self.wp | self.wn | self.wb | self.wr | self.wq | self.wk) | (self.bp | self.bn
                | self.bb | self.br | self.bq | self.bk),
        }
    }

    /// The squares on which no piece stands.
    pub fn empty(&self) -> (r: SquareSet)
        ensures
            r.inner == !self.occ(),
    {
        SquareSet { inner: !self.occupied().inner }
    }

    /// The squares of the pieces of `side`.
    pub fn our_pieces(&self, side: Colour) -> (r: SquareSet)
        ensures
            r.inner == self.side_bits(side),
    {
        self.occupied_co(side)
    }

    /// The squares of the pieces of the side that faces `side`.
    pub fn their_pieces(&self, side: Colour) -> (r: SquareSet)
        ensures
            r.inner == self.side_bits(side.flipped()),
    {
        self.occupied_co(side.flip())
    }

    /// The squares of the pieces of `side` of kind `kind`.
    pub fn of_kind(&self, side: Colour, kind: PieceType) -> (r: SquareSet)
        ensures
            r.inner == self.bb(Piece::of(side, kind)),
    {
        self.piece_bb(Piece::new(side, kind))
    }

    /// The squares of the pawns of `side`.
    pub fn pawns(&self, side: Colour) -> (r: SquareSet)
        ensures
            r.inner == self.bb(Piece::of(side, PieceType::Pawn)),
    {
        self.of_kind(side, PieceType::Pawn)
    }

    /// The squares of the knights of `side`.
    pub fn knights(&self, side: Colour) -> (r: SquareSet)
        ensures
            r.inner == self.bb(Piece::of(side, PieceType::Knight)),
    {
        self.of_kind(side, PieceType::Knight)
    }

    /// The squares of the bishops of `side`.
    pub fn bishops(&self, side: Colour) -> (r: SquareSet)
        ensures
            r.inner == self.bb(Piece::of(side, PieceType::Bishop)),
    {
        self.of_kind(side, PieceType::Bishop)
    }

    /// The squares of the rooks of `side`.
    pub fn rooks(&self, side: Colour) -> (r: SquareSet)
        ensures
            r.inner == self.bb(Piece::of(side, PieceType::Rook)),
    {
        self.of_kind(side, PieceType::Rook)
    }

    /// The squares of the queens of `side`.
    pub fn queens(&self, side: Colour) -> (r: SquareSet)
        ensures
            r.inner == self.bb(Piece::of(side, PieceType::Queen)),
    {
        self.of_kind(side, PieceType::Queen)
    }

    /// The squares of the kings of `side`.
    pub fn king(&self, side: Colour) -> (r: SquareSet)
        ensures
            r.inner == self.bb(Piece::of(side, PieceType::King)),
    {
        self.of_kind(side, PieceType::King)
    }

    /// The squares of the bishops and queens of `side`.
    pub fn diags(&self, side: Colour) -> (r: SquareSet)
        ensures
            r.inner == self.diag_bits(side),
    {
        self.bishops(side).union(self.queens(side))
    }

    /// The squares of the rooks and queens of `side`.
    pub fn orthos(&self, side: Colour) -> (r: SquareSet)
        ensures
            r.inner == self.ortho_bits(side),
    {
        self.rooks(side).union(self.queens(side))
    }

    /// The squares of the pieces of kind `kind`, of either colour.
    pub fn all_of_kind(&self, kind: PieceType) -> (r: SquareSet)
        ensures
            r.inner == self.kind_bits(kind),
    {
        self.of_kind(Colour::White, kind).union(self.of_kind(Colour::Black, kind))
    }

    /// The squares of the pawns of both sides.
    pub fn all_pawns(&self) -> (r: SquareSet)
        ensures
            r.inner == self.kind_bits(PieceType::Pawn),
    {
        self.all_of_kind(PieceType::Pawn)
    }

    /// The squares of the knights of both sides.
    pub fn all_knights(&self) -> (r: SquareSet)
        ensures
            r.inner == self.kind_bits(PieceType::Knight),
    {
        self.all_of_kind(PieceType::Knight)
    }

    /// The squares of the bishops of both sides.
    pub fn all_bishops(&self) -> (r: SquareSet)
        ensures
            r.inner == self.kind_bits(PieceType::Bishop),
    {
        self.all_of_kind(PieceType::Bishop)
    }

    /// The squares of the queens of both sides.
    pub fn all_queens(&self) -> (r: SquareSet)
        ensures
            r.inner == self.kind_bits(PieceType::Queen),
    {
        self.all_of_kind(PieceType::Queen)
    }

    /// The squares of the kings of both sides.
    pub fn all_kings(&self) -> (r: SquareSet)
        ensures
            r.inner == self.kind_bits(PieceType::King),
    {
        self.all_of_kind(PieceType::King)
    }

    /// The layout without pieces.
    pub open spec fn new_spec() -> PieceLayout {
        PieceLayout {
            wp: 0,
            wn: 0,
            wb: 0,
            wr: 0,
            wq: 0,
            wk: 0,
            bp: 0,
            bn: 0,
            bb: 0,
            br: 0,
            bq: 0,
            bk: 0,
        }
    }
}

} // verus!
