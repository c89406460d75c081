use vstd::prelude::*;
use crate::board::Board;
use crate::movelist::{capped, MoveList, MoveListEntry};

verus! {

broadcast use crate::types::group_square;

/// The number of lines of `depth` legal moves that begin in the position `b`.
pub open spec fn perft_count(b: Board, depth: nat) -> nat
    decreases depth, 1nat, 0nat,
{
    if depth == 0 {
        1
    } else {
        perft_over(b, capped(b.pseudo_moves()), depth)
    }
}

/// The number of lines of `depth` legal moves that begin in the position `b` with one
/// of the moves `entries`.
pub open spec fn perft_over(b: Board, entries: Seq<MoveListEntry>, depth: nat) -> nat
    decreases depth, 0nat, entries.len(),
{
    if depth == 0 || entries.len() == 0 {
        0
    } else {
        perft_over(b, entries.drop_last(), depth) + (if b.legal(entries.last().mov) {
            perft_count(b.after(entries.last().mov), (depth - 1) as nat)
        } else {
            0
        })
    }
}

/// Boards in the same state have the same number of lines.
pub proof fn lemma_same_perft(a: Board, b: Board, depth: nat)
    requires
        a.same_state(b),
    ensures
        perft_count(a, depth) == perft_count(b, depth),
{
    a.lemma_same_moves(b);
    if depth > 0 {
        lemma_same_perft_over(a, b, capped(a.pseudo_moves()), depth);
    }
}

proof fn lemma_same_perft_over(a: Board, b: Board, entries: Seq<MoveListEntry>, depth: nat)
    requires
        a.same_state(b),
    ensures
        perft_over(a, entries, depth) == perft_over(b, entries, depth),
    decreases entries.len(),
{
    a.lemma_same_moves(b);
    if depth > 0 && entries.len() > 0 {
        lemma_same_perft_over(a, b, entries.drop_last(), depth);
        a.lemma_after_same(b, entries.last().mov);
    }
}

/// 218 to the power `d`.
pub open spec fn pow218(d: nat) -> nat
    decreases d,
{
    if d == 0 {
        1
    } else {
        218 * pow218((d - 1) as nat)
    }
}

/// There are at most 218 to the power `depth` lines of `depth` moves: a list holds at
/// most 218 moves.
pub proof fn lemma_perft_bound(b: Board, depth: nat)
    ensures
        perft_count(b, depth) <= pow218(depth),
    decreases depth, 1nat, 0nat,
{
    if depth > 0 {
        let entries = capped(b.pseudo_moves());
        lemma_perft_over_bound(b, entries, depth);
        let p = pow218((depth - 1) as nat);
        assert(entries.len() * p <= 218 * p) by (nonlinear_arith)
            requires
                entries.len() <= 218,
                p >= 0,
        ;
    }
}

proof fn lemma_perft_over_bound(b: Board, entries: Seq<MoveListEntry>, depth: nat)
    requires
        depth > 0,
    ensures
        perft_over(b, entries, depth) <= entries.len() * pow218((depth - 1) as nat),
    decreases depth, 0nat, entries.len(),
{
    let p = pow218((depth - 1) as nat);
    if entries.len() > 0 {
        let rest = entries.drop_last();
        lemma_perft_over_bound(b, rest, depth);
        lemma_perft_bound(b.after(entries.last().mov), (depth - 1) as nat);
        assert(rest.len() * p + p == entries.len() * p) by (nonlinear_arith)
            requires
                rest.len() + 1 == entries.len(),
        ;
    } else {
        assert(entries.len() * p == 0) by (nonlinear_arith)
            requires
                entries.len() == 0,
        ;
    }
}

/// Up to depth 8 the number of lines fits what the count is kept in.
pub proof fn lemma_perft_fits(b: Board, depth: nat)
    requires
        depth <= 8,
    ensures
        perft_count(b, depth) <= u64::MAX,
{
    lemma_perft_bound(b, depth);
    reveal_with_fuel(pow218, 10);
    assert(pow218(8) == 218 * 218 * 218 * 218 * 218 * 218 * 218 * 218);
    lemma_pow_grows(depth, 8);
}

proof fn lemma_pow_grows(a: nat, b: nat)
    requires
        a <= b,
    ensures
        pow218(a) <= pow218(b),
        pow218(a) >= 1,
    decreases b,
{
    if a < b {
        lemma_pow_grows(a, (b - 1) as nat);
    } else if a > 0 {
        lemma_pow_grows((a - 1) as nat, (b - 1) as nat);
    }
}

/// The lines of one move are the legal moves.
pub proof fn lemma_perft_one(b: Board)
    ensures
        perft_count(b, 1) == b.legal_line().len(),
{
    lemma_perft_one_over(b, capped(b.pseudo_moves()));
}

proof fn lemma_perft_one_over(b: Board, entries: Seq<MoveListEntry>)
    ensures
        perft_over(b, entries, 1) == b.legal_of(entries).len(),
    decreases entries.len(),
{
    if entries.len() > 0 {
        lemma_perft_one_over(b, entries.drop_last());
        assert(perft_count(b.after(entries.last().mov), 0) == 1);
    }
}

proof fn lemma_perft_grows(b: Board, entries: Seq<MoveListEntry>, i: int, depth: nat)
    requires
        0 <= i <= entries.len(),
    ensures
        perft_over(b, entries.take(i), depth) <= perft_over(b, entries, depth),
    decreases entries.len() - i,
{
    if i < entries.len() {
        lemma_perft_grows(b, entries, i + 1, depth);
        assert(entries.take(i + 1).drop_last() =~= entries.take(i));
    } else {
        assert(entries.take(i) =~= entries);
    }
}

impl Board {
    /// Whether the counters have room for `n` more half moves.
    pub open spec fn room_for(&self, n: int) -> bool {
        self.fifty_move_counter + n <= u8::MAX && self.ply + n <= usize::MAX && self.height + n
            <= usize::MAX
    }
}

/// The number of lines of `depth` legal moves that begin in the position. The moves
/// are those of the generator of all moves, which are also those that the staged
/// generators give together. The board is left as it was.
pub fn synced_perft(pos: &mut Board, depth: usize) -> (count: u64)
    requires
        old(pos).wf(),
        old(pos).room_for(depth as int),
        perft_count(*old(pos), depth as nat) <= u64::MAX,
    ensures
        count == perft_count(*old(pos), depth as nat),
        final(pos).same_state(*old(pos)),
    decreases depth,
{
    if depth == 0 {
        return 1;
    }
    let mut ml = MoveList::new();
    pos.generate_moves(&mut ml);
    let n = ml.len();
    let mut count: u64 = 0;
    let mut i: usize = 0;
    let ghost start = *pos;
    proof {
        assert(ml@.take(0) =~= Seq::<MoveListEntry>::empty());
    }
    while i < n
        invariant
            i <= n == ml@.len(),
            depth > 0,
            start == *old(pos),
            start.wf(),
            start.room_for(depth as int),
            pos.same_state(start),
            ml@ == capped(start.pseudo_moves()),
            perft_over(start, ml@, depth as nat) <= u64::MAX,
            count == perft_over(start, ml@.take(i as int), depth as nat),
        decreases n - i,
    {
        let m = ml.get(i).mov;
        let ghost pre = *pos;
        proof {
            pre.lemma_same_moves(start);
            assert(ml@.take(i as int + 1).drop_last() =~= ml@.take(i as int));
            lemma_perft_grows(start, ml@, i as int + 1, depth as nat);
        }
        if pos.make_move_simple(m) {
            let ghost mid = *pos;
            proof {
                assert(Board::made(start, m, mid));
                start.lemma_after(m, mid);
                lemma_same_perft(mid, start.after(m), (depth - 1) as nat);
            }
            let sub = synced_perft(pos, depth - 1);
            pos.unmake_move_base();
            proof {
                assert(Board::unmade(mid, *pos));
                Board::lemma_make_unmake(pre, m, mid, *pos);
            }
            count = count + sub;
        }
        i = i + 1;
    }
    proof {
        assert(ml@.take(n as int) =~= ml@);
    }
    count
}

} // verus!
