use vstd::prelude::*;
use vstd::std_specs::bits::u64_trailing_zeros;
use crate::types::Square;

verus! {

broadcast use crate::types::group_square;

/// Whether bit `i` of `x` is set. No bit outside 0..64 is.
pub open spec fn bit(x: u64, i: int) -> bool {
    0 <= i < 64 && (x >> (i as u64)) & 1 == 1
}

/// The word with bit `i` alone set.
pub open spec fn single(i: int) -> u64 {
    1u64 << (i as u64)
}

/// A bit of a union is set exactly when it is set in one of the two.
pub proof fn lemma_bit_or(x: u64, y: u64, i: u64)
    by (bit_vector)
    ensures
        bit(x | y, i as int) == (bit(x, i as int) || bit(y, i as int)),
{
}

/// A bit of an intersection is set exactly when it is set in both.
pub proof fn lemma_bit_and(x: u64, y: u64, i: u64)
    by (bit_vector)
    ensures
        bit(x & y, i as int) == (bit(x, i as int) && bit(y, i as int)),
{
}

/// A bit of a symmetric difference is set exactly when it is set in one of the two only.
pub proof fn lemma_bit_xor(x: u64, y: u64, i: u64)
    by (bit_vector)
    ensures
        bit(x ^ y, i as int) == (i < 64 && (bit(x, i as int) != bit(y, i as int))),
{
}

/// A bit of a complement is set exactly when it is not set in the word.
pub proof fn lemma_bit_not(x: u64, i: u64)
    by (bit_vector)
    ensures
        bit(!x, i as int) == (i < 64 && !bit(x, i as int)),
{
}

/// The word of a single square has the bit of that square and no other.
pub proof fn lemma_bit_single(s: u64, i: u64)
    by (bit_vector)
    requires
        s < 64,
    ensures
        bit(single(s as int), i as int) == (i == s),
{
}

/// The empty word has no bit.
pub proof fn lemma_bit_zero(i: u64)
    by (bit_vector)
    ensures
        !bit(0, i as int),
{
}

/// Clearing the lowest set bit of a word leaves every other bit as it was.
pub proof fn lemma_bit_drop_lowest(x: u64, k: u64, i: u64)
    by (bit_vector)
    requires
        k < 64,
        (x >> k) & 1 == 1,
        k == 0 || x << ((64 - k) as u64) == 0,
    ensures
        x != 0,
        bit(x & ((x - 1) as u64), i as int) == (bit(x, i as int) && i != k),
        i < k ==> !bit(x, i as int),
{
}

/// Words that differ have a symmetric difference that is not empty.
pub proof fn lemma_xor_nonzero(x: u64, y: u64)
    by (bit_vector)
    ensures
        x != y ==> x ^ y != 0,
{
}

/// The number of the lowest set bit of `x`; 64 for the empty word.
pub open spec fn lowest(x: u64) -> int {
    u64_trailing_zeros(x) as int
}

/// What makes `lowest(x)` the lowest set bit.
pub proof fn lemma_lowest(x: u64)
    requires
        x != 0,
    ensures
        0 <= lowest(x) < 64,
        bit(x, lowest(x)),
        forall|i: int| 0 <= i < lowest(x) ==> !bit(x, i),
        forall|i: int|
            0 <= i < 64 ==> (#[trigger] bit(x & ((x - 1) as u64), i) == (bit(x, i) && i != lowest(
                x,
            ))),
{
    vstd::std_specs::bits::axiom_u64_trailing_zeros(x);
    let k = u64_trailing_zeros(x) as u64;
    assert forall|i: int| 0 <= i < 64 implies (#[trigger] bit(x & ((x - 1) as u64), i) == (bit(x, i)
        && i != lowest(x))) && (i < lowest(x) ==> !bit(x, i)) by {
        lemma_bit_drop_lowest(x, k, i as u64);
    }
}

/// Two words with the same bits are the same word.
pub proof fn lemma_bits_equal(x: u64, y: u64)
    requires
        forall|i: int| 0 <= i < 64 ==> bit(x, i) == bit(y, i),
    ensures
        x == y,
{
    if x != y {
        lemma_xor_nonzero(x, y);
        let d = x ^ y;
        lemma_lowest(d);
        lemma_bit_xor(x, y, lowest(d) as u64);
    }
}

/// The squares whose bits are set in `x`, from square number `i` on, in ascending order.
pub open spec fn squares_from(x: u64, i: int) -> Seq<Square>
    decreases 64 - i,
{
    if i >= 64 || i < 0 {
        Seq::empty()
    } else if bit(x, i) {
        seq![Square::at(i)] + squares_from(x, i + 1)
    } else {
        squares_from(x, i + 1)
    }
}

/// The squares whose bits are set in `x`, in ascending order.
pub open spec fn squares(x: u64) -> Seq<Square> {
    squares_from(x, 0)
}

proof fn lemma_squares_skip(x: u64, i: int, k: int)
    requires
        0 <= i <= k < 64,
        forall|j: int| i <= j < k ==> !bit(x, j),
        bit(x, k),
    ensures
        squares_from(x, i) == seq![Square::at(k)] + squares_from(x, k + 1),
    decreases k - i,
{
    if i < k {
        lemma_squares_skip(x, i + 1, k);
    }
}

proof fn lemma_squares_agree(x: u64, y: u64, i: int)
    requires
        0 <= i,
        forall|j: int| i <= j < 64 ==> bit(x, j) == bit(y, j),
    ensures
        squares_from(x, i) == squares_from(y, i),
    decreases 64 - i,
{
    if i < 64 {
        lemma_squares_agree(x, y, i + 1);
    }
}

proof fn lemma_squares_gap(x: u64, i: int, k: int)
    requires
        0 <= i <= k <= 64,
        forall|j: int| i <= j < k ==> !bit(x, j),
    ensures
        squares_from(x, i) == squares_from(x, k),
    decreases k - i,
{
    if i < k {
        lemma_squares_gap(x, i + 1, k);
    }
}

/// The squares of a word are its lowest square followed by the squares of the rest.
pub proof fn lemma_squares_pop(x: u64)
    requires
        x != 0,
    ensures
        squares(x) == seq![Square::at(lowest(x))] + squares(x & ((x - 1) as u64)),
{
    lemma_lowest(x);
    let k = lowest(x);
    let y = x & ((x - 1) as u64);
    lemma_squares_skip(x, 0, k);
    lemma_squares_agree(x, y, k + 1);
    lemma_squares_gap(y, 0, k + 1);
}

/// The empty word has no squares.
pub proof fn lemma_squares_zero()
    ensures
        squares(0) == Seq::<Square>::empty(),
{
    assert forall|j: int| 0 <= j < 64 implies !bit(0, j) by {
        lemma_bit_zero(j as u64);
    }
    lemma_squares_gap(0, 0, 64);
}

/// A word has at most as many squares as there are numbers from `i` on.
pub proof fn lemma_squares_from_len(x: u64, i: int)
    requires
        0 <= i <= 64,
    ensures
        squares_from(x, i).len() <= 64 - i,
    decreases 64 - i,
{
    if i < 64 {
        lemma_squares_from_len(x, i + 1);
    }
}

/// A word has at most 64 squares.
pub proof fn lemma_squares_len(x: u64)
    ensures
        squares(x).len() <= 64,
{
    lemma_squares_from_len(x, 0);
}

/// A square is among the squares of a word exactly when its bit is set.
pub proof fn lemma_squares_has(x: u64, i: int, s: Square)
    requires
        0 <= i <= 64,
    ensures
        squares_from(x, i).contains(s) == (s.idx() >= i && bit(x, s.idx())),
    decreases 64 - i,
{
    s.lemma_idx();
    if i < 64 {
        lemma_squares_has(x, i + 1, s);
        Square::lemma_at(i);
        let rest = squares_from(x, i + 1);
        if bit(x, i) {
            let head = seq![Square::at(i)];
            let all = head + rest;
            if all.contains(s) {
                let j = choose|j: int| 0 <= j < all.len() && all[j] == s;
                if j > 0 {
                    assert(rest[j - 1] == s);
                }
            }
            if s.idx() == i {
                assert(all[0] == s);
            }
            if rest.contains(s) {
                let j = choose|j: int| 0 <= j < rest.len() && rest[j] == s;
                assert(all[j + 1] == s);
            }
        }
    }
}

} // verus!
