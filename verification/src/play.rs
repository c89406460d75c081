use vstd::prelude::*;
use rand::rngs::ThreadRng;
use rand::seq::SliceRandom;
use crate::board::{Board, MovedPiece, UpdateBuffer};
use crate::chessmove::Move;
use crate::history::{Accumulator, ThreadData};
use crate::movelist::{capped, MoveList, MoveListEntry};

verus! {

broadcast use crate::types::group_square;

#[verifier::external_type_specification]
#[verifier::external_body]
pub struct ExThreadRng(ThreadRng);

/// `SliceRandom::choose` on a slice: one of the entries, picked at random, or none
/// where the slice is empty. Which entry comes is not said.
#[verifier::external_body]
fn choose_entry(list: &Vec<MoveListEntry>, rng: &mut ThreadRng) -> (r: Option<MoveListEntry>)
    ensures
        r is None <==> list@.len() == 0,
        r is Some ==> list@.contains(r->0),
{
    list.as_slice().choose(rng).copied()
}

/// Whether `t` is the thread data `old_t` with one more move kept for the evaluation:
/// the moved piece `mv` and the pieces put on and taken off squares.
pub open spec fn kept(
    old_t: ThreadData,
    t: ThreadData,
    mv: MovedPiece,
    adds: Seq<crate::board::FeatureUpdate>,
    subs: Seq<crate::board::FeatureUpdate>,
) -> bool {
    let c = old_t.nnue.current_acc as int;
    &&& t.nnue.current_acc == c + 1
    &&& t.nnue.accumulators@.len() == old_t.nnue.accumulators@.len()
    &&& t.nnue.accumulators@[c].mv == mv
    &&& t.nnue.accumulators@[c].update_buffer.adds_view() == adds
    &&& t.nnue.accumulators@[c].update_buffer.subs_view() == subs
    &&& t.nnue.accumulators@[c].correct == old_t.nnue.accumulators@[c].correct
    &&& t.nnue.accumulators@[c + 1].correct@ == seq![false, false]
    &&& t.nnue.accumulators@[c + 1].mv == old_t.nnue.accumulators@[c + 1].mv
    &&& t.nnue.accumulators@[c + 1].update_buffer == old_t.nnue.accumulators@[c + 1].update_buffer
    &&& forall|i: int|
        0 <= i < t.nnue.accumulators@.len() && i != c && i != c + 1 ==> t.nnue.accumulators@[i]
            == old_t.nnue.accumulators@[i]
    &&& t.main_history == old_t.main_history
    &&& t.tactical_history == old_t.tactical_history
    &&& t.continuation_history == old_t.continuation_history
    &&& t.pawn_corrhist == old_t.pawn_corrhist
    &&& t.nonpawn_corrhist_white == old_t.nonpawn_corrhist_white
    &&& t.nonpawn_corrhist_black == old_t.nonpawn_corrhist_black
    &&& t.minor_corrhist == old_t.minor_corrhist
    &&& t.major_corrhist == old_t.major_corrhist
    &&& t.killer_move_table == old_t.killer_move_table
    &&& t.ss == old_t.ss
}

fn keep_move(t: &mut ThreadData, mv: MovedPiece, update_buffer: UpdateBuffer)
    requires
        old(t).nnue.current_acc + 1 < old(t).nnue.accumulators@.len(),
    ensures
        kept(*old(t), *final(t), mv, update_buffer.adds_view(), update_buffer.subs_view()),
{
    let c = t.nnue.current_acc;
    let n = t.nnue.accumulators.len();
    let next = c + 1;
    let mut a: Accumulator = t.nnue.accumulators[c];
    a.mv = mv;
    a.update_buffer = update_buffer;
    t.nnue.accumulators[c] = a;
    t.nnue.current_acc = next;
    let mut b: Accumulator = t.nnue.accumulators[next];
    b.correct = [false;2];
    proof {
        assert(b.correct@ =~= seq![false, false]);
    }
    t.nnue.accumulators[next] = b;
}

impl Board {
    /// Whether `t` is what making `m` on `pre` leaves of the thread data `old_t`: the
    /// move and what it changed on the board are kept at the place of the moves made so
    /// far, which goes up by one, and the place after it is marked as not worked out yet.
    pub open spec fn recorded(pre: Board, m: Move, old_t: ThreadData, t: ThreadData) -> bool {
        kept(
            old_t,
            t,
            MovedPiece { from: m.origin(), to: m.target(), piece: pre.at(m.origin())->0 },
            pre.adds_of(m),
            pre.subs_of(m),
        )
    }

    /// Makes `m` and keeps for the evaluation what it changed on the board. Returns
    /// whether the move was made; if not, board and thread data are as they were.
    pub fn make_move_nnue(&mut self, m: Move, t: &mut ThreadData) -> (applied: bool)
        requires
            old(self).wf(),
            old(self).has_room(),
            old(t).nnue.current_acc + 1 < old(t).nnue.accumulators@.len(),
        ensures
            applied == old(self).legal(m),
            !applied ==> *final(self) == *old(self) && *final(t) == *old(t),
            applied ==> Board::made(*old(self), m, *final(self)),
            applied ==> Board::recorded(*old(self), m, *old(t), *final(t)),
    {
        let mut update_buffer = UpdateBuffer::new();
        let piece = match self.moved_piece(m) {
            Some(p) => p,
            None => {
                return false;
            },
        };
        let res = self.make_move_base(m, &mut update_buffer);
        if !res {
            return false;
        }
        keep_move(t, MovedPiece { from: m.from(), to: m.to(), piece }, update_buffer);
        true
    }

    /// Takes back the last move made, for the board and for the evaluation.
    pub fn unmake_move_nnue(&mut self, t: &mut ThreadData)
        requires
            old(self).history@.len() > 0,
            old(self).height > 0,
            old(self).ply > 0,
            old(t).nnue.current_acc > 0,
        ensures
            Board::unmade(*old(self), *final(self)),
            final(t).nnue.current_acc == old(t).nnue.current_acc - 1,
            final(t).nnue.accumulators == old(t).nnue.accumulators,
            *final(t) == (ThreadData { nnue: final(t).nnue, ..*old(t) }),
    {
        self.unmake_move_base();
        t.nnue.current_acc = t.nnue.current_acc - 1;
    }

    /// Makes `m` and keeps for the evaluation what it changed on the board. Returns
    /// whether the move was made; if not, board and thread data are as they were.
    pub fn make_move(&mut self, m: Move, t: &mut ThreadData) -> (applied: bool)
        requires
            old(self).wf(),
            old(self).has_room(),
            old(t).nnue.current_acc + 1 < old(t).nnue.accumulators@.len(),
        ensures
            applied == old(self).legal(m),
            !applied ==> *final(self) == *old(self) && *final(t) == *old(t),
            applied ==> Board::made(*old(self), m, *final(self)),
            applied ==> Board::recorded(*old(self), m, *old(t), *final(t)),
    {
        self.make_move_nnue(m, t)
    }

    /// Takes back the last move made, for the board and for the evaluation.
    pub fn unmake_move(&mut self, t: &mut ThreadData)
        requires
            old(self).history@.len() > 0,
            old(self).height > 0,
            old(self).ply > 0,
            old(t).nnue.current_acc > 0,
        ensures
            Board::unmade(*old(self), *final(self)),
            final(t).nnue.current_acc == old(t).nnue.current_acc - 1,
            final(t).nnue.accumulators == old(t).nnue.accumulators,
            *final(t) == (ThreadData { nnue: final(t).nnue, ..*old(t) }),
    {
        self.unmake_move_nnue(t);
    }

    /// Makes the move of `choice`, if there is one and it can be made, and returns it
    /// whether or not it could be made.
    pub fn play_chosen(&mut self, choice: Option<MoveListEntry>, t: &mut ThreadData) -> (r: Option<
        Move,
    >)
        requires
            old(self).wf(),
            old(self).has_room(),
            old(t).nnue.current_acc + 1 < old(t).nnue.accumulators@.len(),
        ensures
            r == (match choice {
                Some(e) => Some(e.mov),
                None => None,
            }),
            match choice {
                Some(e) => if old(self).legal(e.mov) {
                    Board::made(*old(self), e.mov, *final(self)) && Board::recorded(
                        *old(self),
                        e.mov,
                        *old(t),
                        *final(t),
                    )
                } else {
                    *final(self) == *old(self) && *final(t) == *old(t)
                },
                None => *final(self) == *old(self) && *final(t) == *old(t),
            },
    {
        match choice {
            Some(e) => {
                let _ = self.make_move(e.mov, t);
                Some(e.mov)
            },
            None => None,
        }
    }

    /// Picks one of the pseudo-legal moves of the position at random, makes it if it
    /// can be made, and returns it. Returns nothing where there is no pseudo-legal move.
    pub fn make_random_move(&mut self, rng: &mut ThreadRng, t: &mut ThreadData) -> (r: Option<Move>)
        requires
            old(self).wf(),
            old(self).has_room(),
            old(t).nnue.current_acc + 1 < old(t).nnue.accumulators@.len(),
        ensures
            r is None <==> capped(old(self).pseudo_moves()).len() == 0,
            match r {
                Some(mv) => (exists|i: int|
                    0 <= i < capped(old(self).pseudo_moves()).len() && (#[trigger] capped(
                        old(self).pseudo_moves(),
                    )[i]).mov == mv) && if old(self).legal(mv) {
                    Board::made(*old(self), mv, *final(self)) && Board::recorded(
                        *old(self),
                        mv,
                        *old(t),
                        *final(t),
                    )
                } else {
                    *final(self) == *old(self) && *final(t) == *old(t)
                },
                None => *final(self) == *old(self) && *final(t) == *old(t),
            },
    {
        let mut ml = MoveList::new();
        self.generate_moves(&mut ml);
        let entries = ml.to_vec();
        let choice = choose_entry(&entries, rng);
        proof {
            if choice is Some {
                let i = choose|i: int| 0 <= i < entries@.len() && entries@[i] == choice->0;
                assert(capped(old(self).pseudo_moves())[i].mov == choice->0.mov);
            }
        }
        self.play_chosen(choice, t)
    }
}

} // verus!
