use vstd::prelude::*;
use crate::attacks::attack_bits;
use crate::bits::{
    bit, lemma_bit_and, lemma_bit_or, lemma_bit_single, lemma_bit_xor, lemma_bit_zero, single,
};
use crate::board::Board;
use crate::chessmove::Move;
use crate::makemove::{king_home, rook_home};
use crate::position::{attacked_by, king_place, layout_of, lemma_layout_of};
use crate::rays::lemma_and_single;
use crate::soundness::{lemma_and_commutes, lemma_square_state};
use crate::threats::{hits, hits_as, lemma_attacked_by, some_hits};
use crate::types::{Colour, Piece, PieceType, Square};

verus! {

broadcast use crate::types::group_square;

impl Board {
    /// Whether a castling right of `side` is in order: where there is one, a rook of
    /// `side` stands on its square, on the king's wing above the king's square and on the
    /// queen's wing below it.
    pub open spec fn right_in_place(&self, side: Colour, kingside: bool) -> bool {
        let right = if kingside {
            self.castle_perm.kingside_of(side)
        } else {
            self.castle_perm.queenside_of(side)
        };
        match right {
            None => true,
            Some(r) => {
                &&& self.at(r) == Some(Piece::of(side, PieceType::Rook))
                &&& if kingside {
                    r.idx() > king_place(self.pieces, side).idx()
                } else {
                    r.idx() < king_place(self.pieces, side).idx()
                }
            },
        }
    }

    /// Whether the en-passant square is in order: where there is one, it is empty, and
    /// a pawn of the side that is not to move stands one step beyond it.
    pub open spec fn ep_in_place(&self) -> bool {
        match self.ep_sq {
            None => true,
            Some(e) => {
                &&& self.at(e) is None
                &&& match e.pushed(self.side.flipped()) {
                    Some(v) => self.at(v) == Some(Piece::of(self.side.flipped(), PieceType::Pawn)),
                    None => false,
                }
            },
        }
    }

    /// Whether the position is one that a game can reach, as far as making a move
    /// depends on it: the side to move does not attack the other king, each castling
    /// right has its rook, and the en-passant square lies behind a pawn.
    pub open spec fn playable(&self) -> bool {
        &&& !attacked_by(self.pieces, king_place(self.pieces, self.side.flipped()), self.side)
        &&& self.right_in_place(Colour::White, true)
        &&& self.right_in_place(Colour::White, false)
        &&& self.right_in_place(Colour::Black, true)
        &&& self.right_in_place(Colour::Black, false)
        &&& self.ep_in_place()
    }

    proof fn lemma_no_king_taken(&self, m: Move)
        requires
            self.wf(),
            self.playable(),
            self.pseudo_legal(m),
            !m.castles(),
            !m.en_passant(),
        ensures
            self.at(m.target()) != Some(Piece::of(self.side.flipped(), PieceType::King)),
    {
        let from = m.origin();
        let to = m.target();
        let p = self.at(from)->0;
        let them = self.side.flipped();
        if self.at(to) == Some(Piece::of(them, PieceType::King)) {
            assert(self.pieces.has(Piece::of(them, PieceType::King), to));
            assert(to == king_place(self.pieces, them));
            assert(self.pieces.has(p, from));
            assert(p == Piece::of(self.side, p.kind()));
            lemma_attacked_by(self.pieces, to, self.side);
            if p.kind() == PieceType::Pawn {
                lemma_and_single(
                    crate::attacks::pawn_attack_bits(self.side, single(from.idx())),
                    to.idx(),
                );
            } else {
                lemma_and_single(attack_bits(p.kind(), from.idx(), self.pieces.occ()), to.idx());
                lemma_and_commutes(
                    single(to.idx()),
                    attack_bits(p.kind(), from.idx(), self.pieces.occ()),
                );
            }
            assert(hits_as(self.pieces, self.side, p.kind(), from, to));
            assert(hits(self.pieces, self.side, from, to));
            assert(some_hits(self.pieces, self.side, to));
        }
    }

    proof fn lemma_castle_applies(&self, m: Move)
        requires
            self.wf(),
            self.playable(),
            self.pseudo_legal(m),
            m.castles(),
        ensures
            self.applicable(m),
    {
        let side = self.side;
        let from = m.origin();
        let to = m.target();
        let p = self.at(from)->0;
        assert(p == Piece::of(side, PieceType::King));
        assert(self.pieces.has(p, from));
        assert(from == king_place(self.pieces, side));
        let kingside = to.idx() > from.idx();
        assert(self.right_in_place(side, true));
        assert(self.right_in_place(side, false));
        assert(self.castle_wing(m) == Some(kingside));
        let kd = king_home(side, kingside);
        let rd = rook_home(side, kingside);
        let occ = self.pieces.occ();
        let castle_occ = (occ ^ single(from.idx())) ^ single(to.idx());
        let kp = crate::attacks::between_bits(from.idx(), kd.idx());
        let rp = crate::attacks::between_bits(from.idx(), to.idx());
        let mask = ((kp | rp) | single(kd.idx())) | single(rd.idx());
        assert(castle_occ & mask == 0);
        self.lemma_home_free(m, kd, castle_occ, mask);
        self.lemma_home_free(m, rd, castle_occ, mask);
        lemma_bit_or((kp | rp) | single(kd.idx()), single(rd.idx()), kd.idx() as u64);
        lemma_bit_or(kp | rp, single(kd.idx()), kd.idx() as u64);
        lemma_bit_or((kp | rp) | single(kd.idx()), single(rd.idx()), rd.idx() as u64);
        lemma_bit_single(kd.idx() as u64, kd.idx() as u64);
        lemma_bit_single(rd.idx() as u64, rd.idx() as u64);
    }

    proof fn lemma_home_free(&self, m: Move, d: Square, castle_occ: u64, mask: u64)
        requires
            self.wf(),
            castle_occ == (self.pieces.occ() ^ single(m.origin().idx())) ^ single(m.target().idx()),
            castle_occ & mask == 0,
        ensures
            bit(mask, d.idx()) ==> self.at(d) is None || d == m.origin() || d == m.target(),
    {
        let i = d.idx() as u64;
        let occ = self.pieces.occ();
        lemma_bit_and(castle_occ, mask, i);
        lemma_bit_zero(i);
        lemma_bit_xor(occ ^ single(m.origin().idx()), single(m.target().idx()), i);
        lemma_bit_xor(occ, single(m.origin().idx()), i);
        lemma_bit_single(m.origin().idx() as u64, i);
        lemma_bit_single(m.target().idx() as u64, i);
        lemma_square_state(self.pieces, self.piece_array@, d);
    }

    /// Whether `m` leaves `s` alone: `s` is neither its origin nor its target, for
    /// castling none of the squares on which king and rook end, and for an en-passant
    /// capture not the square of the captured pawn.
    pub open spec fn leaves_alone(&self, m: Move, s: Square) -> bool {
        &&& s != m.origin()
        &&& s != m.target()
        &&& (m.castles() ==> s != king_home(self.side, self.castle_wing(m)->0) && s != rook_home(
            self.side,
            self.castle_wing(m)->0,
        ))
        &&& (m.en_passant() ==> Some(s) != self.ep_victim(m))
    }

    proof fn lemma_left_alone(&self, m: Move, s: Square)
        requires
            self.piece_array@.len() == 64,
            self.leaves_alone(m, s),
            m.en_passant() ==> self.ep_victim(m) is Some,
        ensures
            self.mailbox_after(m)[s.idx()] == self.at(s),
    {
        let mb = self.piece_array@;
        let i = s.idx();
        if m.castles() {
            let wing = self.castle_wing(m)->0;
            let kd = king_home(self.side, wing);
            let rd = rook_home(self.side, wing);
            let a = crate::makemove::opt_lift(mb, m.origin() != kd, m.origin());
            let b = crate::makemove::opt_lift(a, m.target() != rd, m.target());
            let c = crate::makemove::opt_drop(b, m.origin() != kd, kd, self.at(m.origin())->0);
            assert(a[i] == mb[i]);
            assert(b[i] == mb[i]);
            assert(c[i] == mb[i]);
        } else {
            let a = mb.update(m.origin().idx(), None);
            let b = crate::makemove::opt_lift(a, m.en_passant(), self.ep_victim(m)->0);
            let c = crate::makemove::opt_lift(b, self.at(m.target()) is Some, m.target());
            assert(a[i] == mb[i]);
            if m.en_passant() {
                assert(self.ep_victim(m)->0 != s);
            }
            assert(b[i] == mb[i]);
            assert(c[i] == mb[i]);
        }
    }

    proof fn lemma_stays(&self, m: Move, s: Square, p: Piece)
        requires
            self.wf(),
            self.applicable(m),
            self.at(s) == Some(p),
            s != m.origin(),
            m.castles() ==> p.side() != self.side,
            !m.castles() ==> s != m.target(),
            p.kind() != PieceType::Pawn,
        ensures
            self.leaves_alone(m, s),
            self.mailbox_after(m)[s.idx()] == Some(p),
    {
        if m.castles() {
            let kd = king_home(self.side, self.castle_wing(m)->0);
            let rd = rook_home(self.side, self.castle_wing(m)->0);
            assert(self.at(m.target())->0.side() == self.side);
            assert(self.at(m.origin())->0.side() == self.side);
        }
        self.lemma_left_alone(m, s);
    }

    proof fn lemma_king_stays(&self, m: Move, post: Board, c: Colour)
        requires
            self.wf(),
            self.applicable(m),
            Board::made(*self, m, post),
            self.at(m.origin()) != Some(Piece::of(c, PieceType::King)),
        ensures
            king_place(post.pieces, c) == king_place(self.pieces, c),
    {
        let k = king_place(self.pieces, c);
        let king = Piece::of(c, PieceType::King);
        crate::position::lemma_king_there(self.pieces, c);
        assert(self.pieces.has(king, k));
        assert(self.at(k) == Some(king));
        if m.castles() {
            assert(self.at(m.origin())->0.kind() == PieceType::King);
            assert(self.at(m.origin())->0 == Piece::of(self.side, PieceType::King));
            assert(c != self.side);
        } else {
            match self.at(m.target()) {
                Some(x) => {
                    assert(x.kind() != PieceType::King);
                },
                None => {},
            }
        }
        self.lemma_stays(m, k, king);
        assert(post.at(k) == Some(king));
        assert(post.pieces.has(king, k));
    }

    proof fn lemma_right_kept(&self, m: Move, post: Board, c: Colour, kingside: bool)
        requires
            self.wf(),
            self.playable(),
            self.applicable(m),
            Board::made(*self, m, post),
        ensures
            post.right_in_place(c, kingside),
    {
        let after = if kingside {
            post.castle_perm.kingside_of(c)
        } else {
            post.castle_perm.queenside_of(c)
        };
        let piece = self.at(m.origin())->0;
        assert(piece == Piece::of(piece.side(), piece.kind()));
        assert(self.right_in_place(Colour::White, true));
        assert(self.right_in_place(Colour::White, false));
        assert(self.right_in_place(Colour::Black, true));
        assert(self.right_in_place(Colour::Black, false));
        match after {
            Some(r) => {
                let rook = Piece::of(c, PieceType::Rook);
                assert(self.at(r) == Some(rook));
                assert(piece != Piece::of(c, PieceType::King));
                self.lemma_king_stays(m, post, c);
                if m.castles() {
                    assert(piece.kind() == PieceType::King);
                    assert(c != self.side);
                } else {
                    assert(r != m.target());
                }
                assert(r != m.origin());
                self.lemma_stays(m, r, rook);
            },
            None => {},
        }
    }

    /// A position that a game can reach stays one when a pseudo-legal move is made on
    /// it. For a double push of a pawn that is marked as an en-passant capture this is
    /// not claimed.
    pub proof fn lemma_playable_kept(&self, m: Move, post: Board)
        requires
            self.wf(),
            self.playable(),
            self.pseudo_legal(m),
            self.king_safe_after(m),
            Board::made(*self, m, post),
            !(m.en_passant() && self.double_push(m)),
        ensures
            post.playable(),
    {
        self.lemma_pseudo_legal_applies(m);
        lemma_layout_of(post.pieces, post.piece_array@);
        self.lemma_right_kept(m, post, Colour::White, true);
        self.lemma_right_kept(m, post, Colour::White, false);
        self.lemma_right_kept(m, post, Colour::Black, true);
        self.lemma_right_kept(m, post, Colour::Black, false);
        match post.ep_sq {
            Some(e) => {
                let from = m.origin();
                let to = m.target();
                let pawn = Piece::of(self.side, PieceType::Pawn);
                assert(self.double_push(m));
                assert(self.at(from)->0 == Piece::of(self.side, self.at(from)->0.kind()));
                assert(self.at(from) == Some(pawn));
                assert(!m.castles());
                assert(self.pawn_move_ok(m));
                assert(!m.promotes());
                assert(from.pushed(self.side) == Some(e));
                assert(e.pushed(self.side) == Some(to));
                assert(self.at(e) is None);
                assert(self.leaves_alone(m, e));
                self.lemma_left_alone(m, e);
                assert(post.at(to) == Some(pawn));
            },
            None => {},
        }
    }

    /// On a position that a game can reach, a pseudo-legal move can be carried out. It
    /// can then be made exactly when, once it is carried out, no piece of the other
    /// side attacks the king of the side that made it.
    pub proof fn lemma_pseudo_legal_applies(&self, m: Move)
        requires
            self.wf(),
            self.playable(),
            self.pseudo_legal(m),
        ensures
            self.applicable(m),
            self.legal(m) == self.king_safe_after(m),
            self.legal(m) == !some_hits(
                layout_of(self.mailbox_after(m)),
                self.side.flipped(),
                king_place(layout_of(self.mailbox_after(m)), self.side),
            ),
    {
        if m.castles() {
            self.lemma_castle_applies(m);
        } else if m.en_passant() {
            assert(self.ep_in_place());
        } else {
            self.lemma_no_king_taken(m);
            match self.at(m.target()) {
                Some(c) => {
                    assert(c == Piece::of(c.side(), c.kind()));
                },
                None => {},
            }
        }
        self.lemma_legal_is_king_safety(m);
    }
}

} // verus!
