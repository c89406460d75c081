use vstd::prelude::*;
use arrayvec::ArrayVec;
use crate::chessmove::Move;

verus! {

/// The most moves a list can hold.
pub const MAX_POSITION_MOVES: usize = 218;

/// A move with the score that move ordering gave it.
#[derive(Clone, Copy, Debug, PartialEq, Eq, Structural)]
pub struct MoveListEntry {
    pub mov: Move,
    pub score: i32,
}

impl MoveListEntry {
    /// The score of a tactical move that has not been scored yet.
    pub const TACTICAL_SENTINEL: i32 = 0x7FFF_FFFF;

    /// The score of a quiet move that has not been scored yet.
    pub const QUIET_SENTINEL: i32 = 0x7FFF_FFFE;

    /// The entry of a move that has not been scored yet.
    pub open spec fn fresh(m: Move, tactical: bool) -> MoveListEntry {
        MoveListEntry { mov: m, score: if tactical { 0x7FFF_FFFFi32 } else { 0x7FFF_FFFEi32 } }
    }
}

#[verifier::external_type_specification]
#[verifier::external_body]
#[verifier::reject_recursive_types(T)]
pub struct ExArrayVec<T, const CAP: usize>(ArrayVec<T, CAP>);

/// The entries that a vector of fixed capacity holds, first to last.
pub uninterp spec fn held(v: ArrayVec<MoveListEntry, 218>) -> Seq<MoveListEntry>;

/// `ArrayVec::new`: the new vector holds nothing.
#[verifier::external_body]
fn vec_new() -> (v: ArrayVec<MoveListEntry, 218>)
    ensures
        held(v) == Seq::<MoveListEntry>::empty(),
{
    ArrayVec::new()
}

/// `ArrayVec::len`: the number of entries held, which is never over the capacity.
#[verifier::external_body]
fn vec_len(v: &ArrayVec<MoveListEntry, 218>) -> (n: usize)
    ensures
        n == held(*v).len(),
        n <= 218,
{
    v.len()
}

/// `ArrayVec::push`: the entry is added at the end. A full vector is left out, as the
/// call panics on it.
#[verifier::external_body]
fn vec_push(v: &mut ArrayVec<MoveListEntry, 218>, e: MoveListEntry)
    requires
        held(*old(v)).len() < 218,
    ensures
        held(*final(v)) == held(*old(v)).push(e),
{
    v.push(e)
}

/// `ArrayVec::clear`: the vector holds nothing afterwards.
#[verifier::external_body]
fn vec_clear(v: &mut ArrayVec<MoveListEntry, 218>)
    ensures
        held(*final(v)) == Seq::<MoveListEntry>::empty(),
{
    v.clear()
}

/// Indexing an `ArrayVec` as a slice: the entry at a position below the length.
#[verifier::external_body]
fn vec_get(v: &ArrayVec<MoveListEntry, 218>, i: usize) -> (e: MoveListEntry)
    requires
        i < held(*v).len(),
    ensures
        e == held(*v)[i as int],
{
    v[i]
}

/// Assigning through the index of an `ArrayVec` as a slice: the entry at a position
/// below the length is replaced.
#[verifier::external_body]
fn vec_set(v: &mut ArrayVec<MoveListEntry, 218>, i: usize, e: MoveListEntry)
    requires
        i < held(*old(v)).len(),
    ensures
        held(*final(v)) == held(*old(v)).update(i as int, e),
{
    v[i] = e;
}

/// The first 218 entries of `s`: what a move list keeps of it.
pub open spec fn capped(s: Seq<MoveListEntry>) -> Seq<MoveListEntry> {
    if s.len() <= 218 {
        s
    } else {
        s.take(218)
    }
}

/// The list `a` with as many of the entries `g` added as fit into 218 entries.
pub open spec fn extended(a: Seq<MoveListEntry>, g: Seq<MoveListEntry>) -> Seq<MoveListEntry> {
    if a.len() + g.len() <= 218 {
        a + g
    } else if a.len() >= 218 {
        a
    } else {
        a + g.take(218 - a.len())
    }
}

/// Adding entries in two steps is adding them in one; and an empty list with entries
/// added is the first 218 of them.
pub proof fn lemma_extended(a: Seq<MoveListEntry>, g: Seq<MoveListEntry>, h: Seq<MoveListEntry>)
    ensures
        extended(extended(a, g), h) == extended(a, g + h),
        extended(a, Seq::<MoveListEntry>::empty()) == a,
        extended(Seq::<MoveListEntry>::empty(), g) == capped(g),
        a.len() <= 218 ==> extended(a, g).len() <= 218 && extended(a, g) == capped(a + g),
{
    assert(extended(extended(a, g), h) =~= extended(a, g + h));
    assert(extended(a, Seq::<MoveListEntry>::empty()) =~= a);
    assert(extended(Seq::<MoveListEntry>::empty(), g) =~= capped(g));
    if a.len() <= 218 {
        assert(extended(a, g) =~= capped(a + g));
    }
}

/// A list of moves with room for 218 entries. A move that would be entry 219 or later
/// is dropped.
pub struct MoveList {
    pub inner: ArrayVec<MoveListEntry, 218>,
}

impl View for MoveList {
    type V = Seq<MoveListEntry>;

    open spec fn view(&self) -> Seq<MoveListEntry> {
        held(self.inner)
    }
}

impl MoveList {
    /// The list without moves.
    pub fn new() -> (r: MoveList)
        ensures
            r@ == Seq::<MoveListEntry>::empty(),
    {
        MoveList { inner: vec_new() }
    }

    /// Adds `m` at the end, marked as not scored yet, if there is room.
    pub fn push(&mut self, m: Move, tactical: bool)
        ensures
            final(self)@ == extended(old(self)@, seq![MoveListEntry::fresh(m, tactical)]),
            final(self)@.len() <= 218,
    {
        let score = if tactical {
            MoveListEntry::TACTICAL_SENTINEL
        } else {
            MoveListEntry::QUIET_SENTINEL
        };
        let n = vec_len(&self.inner);
        if n < MAX_POSITION_MOVES {
            vec_push(&mut self.inner, MoveListEntry { mov: m, score });
            assert(self@ =~= extended(old(self)@, seq![MoveListEntry::fresh(m, tactical)]));
        }
    }

    /// Takes every move out of the list.
    pub fn clear(&mut self)
        ensures
            final(self)@ == Seq::<MoveListEntry>::empty(),
    {
        vec_clear(&mut self.inner);
    }

    /// The number of moves in the list.
    pub fn len(&self) -> (n: usize)
        ensures
            n == self@.len(),
            n <= 218,
    {
        vec_len(&self.inner)
    }

    /// The entry at position `i`.
    pub fn get(&self, i: usize) -> (e: MoveListEntry)
        requires
            i < self@.len(),
        ensures
            e == self@[i as int],
    {
        vec_get(&self.inner, i)
    }

    /// Gives the entry at position `i` the score `score`.
    pub fn set_score(&mut self, i: usize, score: i32)
        requires
            i < old(self)@.len(),
        ensures
            final(self)@ == old(self)@.update(
                i as int,
                MoveListEntry { mov: old(self)@[i as int].mov, score },
            ),
    {
        let e = vec_get(&self.inner, i);
        vec_set(&mut self.inner, i, MoveListEntry { mov: e.mov, score });
    }

    /// The moves of the list, first to last.
    pub fn iter_moves(&self) -> (r: Vec<Move>)
        ensures
            r@.len() == self@.len(),
            forall|i: int| 0 <= i < r@.len() ==> r@[i] == self@[i].mov,
    {
        let mut r: Vec<Move> = Vec::new();
        let n = self.len();
        let mut i: usize = 0;
        while i < n
            invariant
                n == self@.len(),
                i <= n,
                r@.len() == i,
                forall|j: int| 0 <= j < i ==> r@[j] == self@[j].mov,
            decreases n - i,
        {
            r.push(self.get(i).mov);
            i = i + 1;
        }
        r
    }

    /// The entries of the list, first to last.
    pub fn to_vec(&self) -> (r: Vec<MoveListEntry>)
        ensures
            r@ == self@,
    {
        let mut r: Vec<MoveListEntry> = Vec::new();
        let n = self.len();
        let mut i: usize = 0;
        while i < n
            invariant
                n == self@.len(),
                i <= n,
                r@ == self@.take(i as int),
            decreases n - i,
        {
            r.push(self.get(i));
            i = i + 1;
            assert(r@ =~= self@.take(i as int));
        }
        assert(self@.take(n as int) =~= self@);
        r
    }
}

} // verus!
