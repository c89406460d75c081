use vstd::prelude::*;
use crate::bits::{bit, lemma_bit_single, lemma_lowest, lemma_squares_pop, lemma_squares_zero, lowest, single, squares};
use crate::types::{File, Rank, Square};

verus! {

broadcast use crate::types::group_square;

/// The squares of the a-file.
pub const FILE_A: u64 = 0x0101_0101_0101_0101;

/// The squares of the h-file.
pub const FILE_H: u64 = 0x8080_8080_8080_8080;

/// Every square but those of the a-file.
pub const NOT_FILE_A: u64 = 0xfefe_fefe_fefe_fefe;

/// Every square but those of the h-file.
pub const NOT_FILE_H: u64 = 0x7f7f_7f7f_7f7f_7f7f;

/// The squares of the first rank.
pub const RANK_1: u64 = 0x0000_0000_0000_00ff;

/// The squares of the second rank.
pub const RANK_2: u64 = 0x0000_0000_0000_ff00;

/// The squares of the fourth rank.
pub const RANK_4: u64 = 0x0000_0000_ff00_0000;

/// The squares of the fifth rank.
pub const RANK_5: u64 = 0x0000_00ff_0000_0000;

/// The squares of the seventh rank.
pub const RANK_7: u64 = 0x00ff_0000_0000_0000;

/// The squares of the eighth rank.
pub const RANK_8: u64 = 0xff00_0000_0000_0000;

/// The light squares.
pub const LIGHT_SQUARES: u64 = 0x55aa_55aa_55aa_55aa;

/// The dark squares.
pub const DARK_SQUARES: u64 = 0xaa55_aa55_aa55_aa55;

/// Every square.
pub const FULL: u64 = 0xffff_ffff_ffff_ffff;

/// Every square of `x` moved one rank up; the eighth rank falls off.
pub open spec fn north(x: u64) -> u64 {
    x << 8
}

/// Every square of `x` moved one rank down; the first rank falls off.
pub open spec fn south(x: u64) -> u64 {
    x >> 8
}

/// Every square of `x` moved one file towards the h-file; the h-file falls off.
pub open spec fn east(x: u64) -> u64 {
    (x << 1) & NOT_FILE_A
}

/// Every square of `x` moved one file towards the a-file; the a-file falls off.
pub open spec fn west(x: u64) -> u64 {
    (x >> 1) & NOT_FILE_H
}

/// Every square of `x` moved one step up and towards the h-file.
pub open spec fn north_east(x: u64) -> u64 {
    (x << 9) & NOT_FILE_A
}

/// Every square of `x` moved one step up and towards the a-file.
pub open spec fn north_west(x: u64) -> u64 {
    (x << 7) & NOT_FILE_H
}

/// Every square of `x` moved one step down and towards the h-file.
pub open spec fn south_east(x: u64) -> u64 {
    (x >> 7) & NOT_FILE_A
}

/// Every square of `x` moved one step down and towards the a-file.
pub open spec fn south_west(x: u64) -> u64 {
    (x >> 9) & NOT_FILE_H
}

/// The squares of file number `f`.
pub open spec fn file_bits(f: int) -> u64 {
    FILE_A << (f as u64)
}

/// The squares of rank number `r`.
pub open spec fn rank_bits(r: int) -> u64 {
    RANK_1 << ((8 * r) as u64)
}

/// A set of squares, held as one bit per square.
#[derive(Clone, Copy, Debug, PartialEq, Eq, Hash, Structural)]
pub struct SquareSet {
    pub inner: u64,
}

impl View for SquareSet {
    type V = Seq<Square>;

    /// The squares of the set, in ascending order.
    open spec fn view(&self) -> Seq<Square> {
        squares(self.inner)
    }
}

impl SquareSet {
    /// Whether `sq` is in the set.
    pub open spec fn has(self, sq: Square) -> bool {
        bit(self.inner, sq.idx())
    }

    /// The set with exactly the given bits.
    pub fn from_inner(inner: u64) -> (r: SquareSet)
        ensures
            r.inner == inner,
    {
        SquareSet { inner }
    }

    /// The bits of the set.
    pub fn inner(self) -> (r: u64)
        ensures
            r == self.inner,
    {
        self.inner
    }

    /// The set without squares.
    pub fn empty() -> (r: SquareSet)
        ensures
            r.inner == 0,
    {
        SquareSet { inner: 0 }
    }

    /// The set of all squares.
    pub fn full() -> (r: SquareSet)
        ensures
            r.inner == FULL,
    {
        SquareSet { inner: FULL }
    }

    /// The squares of `rank`.
    pub fn rank_mask(rank: Rank) -> (r: SquareSet)
        ensures
            r.inner == rank_bits(rank.idx()),
    {
        SquareSet { inner: RANK_1 << (8 * rank.index() as u64) }
    }

    /// The squares of `file`.
    pub fn file_mask(file: File) -> (r: SquareSet)
        ensures
            r.inner == file_bits(file.idx()),
    {
        SquareSet { inner: FILE_A << (file.index() as u64) }
    }

    /// Whether the set has no square.
    pub fn is_empty(self) -> (r: bool)
        ensures
            r == (self.inner == 0),
    {
        self.inner == 0
    }

    /// Whether the set has a square.
    pub fn non_empty(self) -> (r: bool)
        ensures
            r == (self.inner != 0),
    {
        self.inner != 0
    }

    /// Whether `sq` is in the set.
    pub fn contains_square(self, sq: Square) -> (r: bool)
        ensures
            r == self.has(sq),
    {
        (self.inner >> (sq.index() as u64)) & 1 == 1
    }

    /// The squares that are in either set.
    pub fn union(self, other: SquareSet) -> (r: SquareSet)
        ensures
            r.inner == self.inner | other.inner,
    {
        SquareSet { inner: self.inner | other.inner }
    }

    /// The squares that are in both sets.
    pub fn intersection(self, other: SquareSet) -> (r: SquareSet)
        ensures
            r.inner == self.inner & other.inner,
    {
        SquareSet { inner: self.inner & other.inner }
    }

    /// The squares that are in exactly one of the sets.
    pub fn toggled(self, other: SquareSet) -> (r: SquareSet)
        ensures
            r.inner == self.inner ^ other.inner,
    {
        SquareSet { inner: self.inner ^ other.inner }
    }

    /// The squares that are not in the set.
    pub fn complement(self) -> (r: SquareSet)
        ensures
            r.inner == !self.inner,
    {
        SquareSet { inner: !self.inner }
    }

    /// The set with `sq` added.
    pub fn add_square(self, sq: Square) -> (r: SquareSet)
        ensures
            r.inner == self.inner | single(sq.idx()),
    {
        SquareSet { inner: self.inner | (1u64 << (sq.index() as u64)) }
    }

    /// The set with `sq` taken out.
    pub fn remove_square(self, sq: Square) -> (r: SquareSet)
        ensures
            r.inner == self.inner & !single(sq.idx()),
    {
        SquareSet { inner: self.inner & !(1u64 << (sq.index() as u64)) }
    }

    /// The set moved one rank up.
    pub fn north_one(self) -> (r: SquareSet)
        ensures
            r.inner == north(self.inner),
    {
        SquareSet { inner: self.inner << 8 }
    }

    /// The set moved one rank down.
    pub fn south_one(self) -> (r: SquareSet)
        ensures
            r.inner == south(self.inner),
    {
        SquareSet { inner: self.inner >> 8 }
    }

    /// The set moved one file towards the h-file.
    pub fn east_one(self) -> (r: SquareSet)
        ensures
            r.inner == east(self.inner),
    {
        SquareSet { inner: (self.inner << 1) & NOT_FILE_A }
    }

    /// The set moved one file towards the a-file.
    pub fn west_one(self) -> (r: SquareSet)
        ensures
            r.inner == west(self.inner),
    {
        SquareSet { inner: (self.inner >> 1) & NOT_FILE_H }
    }

    /// The set moved one step up and towards the h-file.
    pub fn north_east_one(self) -> (r: SquareSet)
        ensures
            r.inner == north_east(self.inner),
    {
        SquareSet { inner: (self.inner << 9) & NOT_FILE_A }
    }

    /// The set moved one step up and towards the a-file.
    pub fn north_west_one(self) -> (r: SquareSet)
        ensures
            r.inner == north_west(self.inner),
    {
        SquareSet { inner: (self.inner << 7) & NOT_FILE_H }
    }

    /// The set moved one step down and towards the h-file.
    pub fn south_east_one(self) -> (r: SquareSet)
        ensures
            r.inner == south_east(self.inner),
    {
        SquareSet { inner: (self.inner >> 7) & NOT_FILE_A }
    }

    /// The set moved one step down and towards the a-file.
    pub fn south_west_one(self) -> (r: SquareSet)
        ensures
            r.inner == south_west(self.inner),
    {
        SquareSet { inner: (self.inner >> 9) & NOT_FILE_H }
    }

    /// The lowest square of a set that is not empty.
    pub fn first(self) -> (r: Square)
        requires
            self.inner != 0,
        ensures
            r == Square::at(lowest(self.inner)),
            r.idx() == lowest(self.inner),
            self.has(r),
            self@.len() > 0,
            r == self@[0],
    {
        proof {
            lemma_lowest(self.inner);
            lemma_squares_pop(self.inner);
            Square::lemma_at(lowest(self.inner));
        }
        let i: u32 = self.inner.trailing_zeros();
        Square::from_index(i as u8).unwrap()
    }

    /// Takes the lowest square out of a set that is not empty, and returns it.
    pub fn pop_first(&mut self) -> (r: Square)
        requires
            old(self).inner != 0,
        ensures
            r.idx() == lowest(old(self).inner),
            old(self).has(r),
            final(self).inner == old(self).inner & ((old(self).inner - 1) as u64),
            old(self)@ == seq![r] + final(self)@,
            forall|s: Square| #[trigger] final(self).has(s) == (old(self).has(s) && s != r),
    {
        let r = self.first();
        proof {
            lemma_lowest(self.inner);
            lemma_squares_pop(self.inner);
            assert forall|s: Square| #[trigger]
                bit(self.inner & ((self.inner - 1) as u64), s.idx()) == (self.has(s) && s != r) by {
                s.lemma_idx();
                r.lemma_idx();
            }
        }
        self.inner = self.inner & (self.inner - 1);
        r
    }

    /// The number of squares in the set.
    pub fn count(self) -> (r: u32)
        ensures
            r == self@.len(),
            r <= 64,
    {
        let mut rest = self;
        let mut n: u32 = 0;
        proof {
            lemma_squares_zero();
        }
        while rest.inner != 0
            invariant
                self@.len() == n + rest@.len(),
                squares(0) == Seq::<Square>::empty(),
                n + rest@.len() <= 64 ==> n <= 64,
            decreases rest@.len(),
        {
            let _ = rest.pop_first();
            proof {
                crate::bits::lemma_squares_len(self.inner);
            }
            n = n + 1;
        }
        proof {
            crate::bits::lemma_squares_len(self.inner);
        }
        n
    }
}

impl Square {
    /// The set that holds this square alone.
    pub fn as_set(self) -> (r: SquareSet)
        ensures
            r.inner == single(self.idx()),
            forall|s: Square| #[trigger] r.has(s) == (s == self),
    {
        let r = SquareSet { inner: 1u64 << (self.index() as u64) };
        proof {
            assert forall|s: Square| #[trigger] r.has(s) == (s == self) by {
                s.lemma_idx();
                self.lemma_idx();
                lemma_bit_single(self.idx() as u64, s.idx() as u64);
            }
        }
        r
    }
}

} // verus!
