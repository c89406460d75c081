use vstd::prelude::*;
use crate::types::{File, PieceType, Rank, Square};

verus! {

broadcast use crate::types::group_square;

/// What sets a special move apart from a plain one.
#[derive(Clone, Copy, Debug, PartialEq, Eq, Hash, Structural)]
pub enum MoveFlags {
    Promotion,
    EnPassant,
    Castle,
}

/// A move, packed into sixteen bits: six for the square it leaves, six for the square
/// it goes to, and four flag bits. Of the flag bits the upper two tell plain moves (0),
/// promotions (1), en-passant captures (2) and castling (3) apart; the lower two name
/// the piece of a promotion (knight, bishop, rook, queen). Whether a plain move captures
/// or is a double pawn push follows from the position it is played in. Castling is
/// written as the king taking its own rook: its target is the rook's square.
#[derive(Clone, Copy, Debug, PartialEq, Eq, Hash, Structural)]
pub struct Move {
    pub data: u16,
}

/// The piece that promotion number `n` stands for.
pub open spec fn promo_of(n: int) -> PieceType {
    if n == 0 {
        PieceType::Knight
    } else if n == 1 {
        PieceType::Bishop
    } else if n == 2 {
        PieceType::Rook
    } else {
        PieceType::Queen
    }
}

proof fn lemma_unpack(a: int, b: int, p: int, t: int)
    requires
        0 <= a < 64,
        0 <= b < 64,
        0 <= p < 4,
        0 <= t < 4,
    ensures
        0 <= a + 64 * b + 4096 * p + 16384 * t < 65536,
        (a + 64 * b + 4096 * p + 16384 * t) % 64 == a,
        ((a + 64 * b + 4096 * p + 16384 * t) / 64) % 64 == b,
        ((a + 64 * b + 4096 * p + 16384 * t) / 4096) % 4 == p,
        (a + 64 * b + 4096 * p + 16384 * t) / 16384 == t,
{
}

impl Move {
    /// The square the move leaves.
    pub open spec fn origin(self) -> Square {
        Square::at(self.data as int % 64)
    }

    /// The square the move goes to; for castling, the square of the rook.
    pub open spec fn target(self) -> Square {
        Square::at((self.data as int / 64) % 64)
    }

    /// The upper two flag bits.
    pub open spec fn tag(self) -> int {
        self.data as int / 16384
    }

    /// Whether the move is a promotion.
    pub open spec fn promotes(self) -> bool {
        self.tag() == 1
    }

    /// Whether the move is an en-passant capture.
    pub open spec fn en_passant(self) -> bool {
        self.tag() == 2
    }

    /// Whether the move is castling.
    pub open spec fn castles(self) -> bool {
        self.tag() == 3
    }

    /// The piece a promotion turns the pawn into.
    pub open spec fn promo_kind(self) -> Option<PieceType> {
        if self.promotes() {
            Some(promo_of((self.data as int / 4096) % 4))
        } else {
            None
        }
    }

    /// The move that packs to `from + 64 * to + 4096 * promo + 16384 * tag`.
    pub open spec fn packed(from: Square, to: Square, promo: int, tag: int) -> Move {
        Move { data: (from.idx() + 64 * to.idx() + 4096 * promo + 16384 * tag) as u16 }
    }

    /// The plain move from `from` to `to`.
    pub open spec fn plain(from: Square, to: Square) -> Move {
        Move::packed(from, to, 0, 0)
    }

    /// The promotion on `to` of the pawn on `from` to a piece of kind `kind`.
    pub open spec fn promotion(from: Square, to: Square, kind: PieceType) -> Move {
        Move::packed(from, to, kind.idx() - 1, 1)
    }

    /// The move from `from` to `to` that castles or captures en passant.
    pub open spec fn flagged(from: Square, to: Square, flags: MoveFlags) -> Move {
        match flags {
            MoveFlags::Promotion => Move::packed(from, to, 0, 1),
            MoveFlags::EnPassant => Move::packed(from, to, 0, 2),
            MoveFlags::Castle => Move::packed(from, to, 0, 3),
        }
    }

    /// The square the moved piece ends on, as the history tables see it: for castling
    /// the king's square after castling (the g-file or the c-file of the king's rank),
    /// otherwise the target.
    pub open spec fn history_target(self) -> Square {
        if self.castles() {
            if self.target().idx() > self.origin().idx() {
                Square::at((self.origin().idx() / 8) * 8 + 6)
            } else {
                Square::at((self.origin().idx() / 8) * 8 + 2)
            }
        } else {
            self.target()
        }
    }

    /// What a packed move unpacks to.
    pub proof fn lemma_packed(from: Square, to: Square, promo: int, tag: int)
        requires
            0 <= promo < 4,
            0 <= tag < 4,
        ensures
            Move::packed(from, to, promo, tag).origin() == from,
            Move::packed(from, to, promo, tag).target() == to,
            Move::packed(from, to, promo, tag).tag() == tag,
            Move::packed(from, to, promo, tag).data as int / 4096 % 4 == promo,
    {
        from.lemma_idx();
        to.lemma_idx();
        lemma_unpack(from.idx(), to.idx(), promo, tag);
    }

    /// The move that does nothing: from a1 to a1.
    pub fn null() -> (r: Move)
        ensures
            r.data == 0,
    {
        Move { data: 0 }
    }

    /// The plain move from `from` to `to`.
    pub fn new(from: Square, to: Square) -> (r: Move)
        ensures
            r == Move::plain(from, to),
            r.origin() == from,
            r.target() == to,
            r.tag() == 0,
    {
        proof {
            Move::lemma_packed(from, to, 0, 0);
        }
        Move { data: from.index() as u16 + 64 * (to.index() as u16) }
    }

    /// The promotion on `to` of the pawn on `from` to a piece of kind `kind`.
    pub fn new_with_promo(from: Square, to: Square, kind: PieceType) -> (r: Move)
        requires
            kind.is_promo_target(),
        ensures
            r == Move::promotion(from, to, kind),
            r.origin() == from,
            r.target() == to,
            r.tag() == 1,
            r.promo_kind() == Some(kind),
    {
        proof {
            Move::lemma_packed(from, to, kind.idx() - 1, 1);
        }
        let p: u16 = (kind.index() - 1) as u16;
        Move { data: from.index() as u16 + 64 * (to.index() as u16) + 4096 * p + 16384 }
    }

    /// The move from `from` to `to` that castles or captures en passant. With the
    /// promotion flag, the promotion to a knight.
    pub fn new_with_flags(from: Square, to: Square, flags: MoveFlags) -> (r: Move)
        ensures
            r == Move::flagged(from, to, flags),
            r.origin() == from,
            r.target() == to,
            r.promotes() == (flags == MoveFlags::Promotion),
            r.en_passant() == (flags == MoveFlags::EnPassant),
            r.castles() == (flags == MoveFlags::Castle),
    {
        let tag: u16 = match flags {
            MoveFlags::Promotion => 1,
            MoveFlags::EnPassant => 2,
            MoveFlags::Castle => 3,
        };
        proof {
            Move::lemma_packed(from, to, 0, tag as int);
        }
        Move { data: from.index() as u16 + 64 * (to.index() as u16) + 16384 * tag }
    }

    /// The square the move leaves.
    pub fn from(self) -> (r: Square)
        ensures
            r == self.origin(),
    {
        Square::from_index((self.data % 64) as u8).unwrap()
    }

    /// The square the move goes to; for castling, the square of the rook.
    pub fn to(self) -> (r: Square)
        ensures
            r == self.target(),
    {
        Square::from_index(((self.data / 64) % 64) as u8).unwrap()
    }

    /// Whether the move is a promotion.
    pub fn is_promo(self) -> (r: bool)
        ensures
            r == self.promotes(),
    {
        self.data / 16384 == 1
    }

    /// Whether the move is an en-passant capture.
    pub fn is_ep(self) -> (r: bool)
        ensures
            r == self.en_passant(),
    {
        self.data / 16384 == 2
    }

    /// Whether the move is castling.
    pub fn is_castle(self) -> (r: bool)
        ensures
            r == self.castles(),
    {
        self.data / 16384 == 3
    }

    /// The piece a promotion turns the pawn into.
    pub fn promotion_type(self) -> (r: Option<PieceType>)
        ensures
            r == self.promo_kind(),
            r is Some ==> r->0.is_promo_target(),
    {
        if self.data / 16384 == 1 {
            let n: u16 = (self.data / 4096) % 4;
            Some(
                if n == 0 {
                    PieceType::Knight
                } else if n == 1 {
                    PieceType::Bishop
                } else if n == 2 {
                    PieceType::Rook
                } else {
                    PieceType::Queen
                },
            )
        } else {
            None
        }
    }

    /// Whether the move is the one that does nothing.
    pub fn is_null(self) -> (r: bool)
        ensures
            r == (self.data == 0),
    {
        self.data == 0
    }

    /// Whether the move leaves its square: no move a piece can make ends where it began.
    pub fn is_valid(self) -> (r: bool)
        ensures
            r == (self.origin() != self.target()),
    {
        self.from().index() != self.to().index()
    }

    /// The square the moved piece ends on, as the history tables see it.
    pub fn history_to_square(self) -> (r: Square)
        ensures
            r == self.history_target(),
    {
        if self.is_castle() {
            let from = self.from();
            let file = if self.to().index() > from.index() { File::G } else { File::C };
            Square::from_rank_file(from.rank(), file)
        } else {
            self.to()
        }
    }
}

} // verus!
