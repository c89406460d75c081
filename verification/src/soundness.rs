use vstd::prelude::*;
use crate::attacks::{attack_bits, bishop_bits, king_bits, pawn_attack_bits, rook_bits};
use crate::bits::{bit, lemma_bit_and, lemma_bit_not, lemma_bit_or, lemma_squares_has, single, squares};
use crate::board::Board;
use crate::chessmove::Move;
use crate::movegen::{
    ahead, east_step, from_moves, moves_to, pawn_entries, pawn_moves, piece_moves, promo_row,
    side_step, west_step, GenMode, PawnGen,
};
use crate::movelist::MoveListEntry;
use crate::piecelayout::PieceLayout;
use crate::position::{agree, king_place, lemma_king_there, one_king};
use crate::rays::lemma_and_single;
use crate::types::{Colour, Piece, PieceType, Square};

verus! {

broadcast use crate::types::group_square;

/// What stands on a square, read from the sets of the layout: a square of a side holds
/// a piece of that side, and a square outside the occupancy holds nothing.
pub proof fn lemma_square_state(pieces: PieceLayout, mb: Seq<Option<Piece>>, t: Square)
    requires
        agree(pieces, mb),
    ensures
        bit(pieces.side_bits(Colour::White), t.idx()) == (mb[t.idx()] is Some && mb[t.idx()]->0.side()
            == Colour::White),
        bit(pieces.side_bits(Colour::Black), t.idx()) == (mb[t.idx()] is Some && mb[t.idx()]->0.side()
            == Colour::Black),
        bit(pieces.occ(), t.idx()) == (mb[t.idx()] is Some),
{
    let i = t.idx() as u64;
    lemma_side(pieces, Colour::White, t);
    lemma_side(pieces, Colour::Black, t);
    lemma_bit_or(pieces.side_bits(Colour::White), pieces.side_bits(Colour::Black), i);
    assert(pieces.has(Piece::WP, t) == (mb[t.idx()] == Some(Piece::WP)));
    assert(pieces.has(Piece::WN, t) == (mb[t.idx()] == Some(Piece::WN)));
    assert(pieces.has(Piece::WB, t) == (mb[t.idx()] == Some(Piece::WB)));
    assert(pieces.has(Piece::WR, t) == (mb[t.idx()] == Some(Piece::WR)));
    assert(pieces.has(Piece::WQ, t) == (mb[t.idx()] == Some(Piece::WQ)));
    assert(pieces.has(Piece::WK, t) == (mb[t.idx()] == Some(Piece::WK)));
    assert(pieces.has(Piece::BP, t) == (mb[t.idx()] == Some(Piece::BP)));
    assert(pieces.has(Piece::BN, t) == (mb[t.idx()] == Some(Piece::BN)));
    assert(pieces.has(Piece::BB, t) == (mb[t.idx()] == Some(Piece::BB)));
    assert(pieces.has(Piece::BR, t) == (mb[t.idx()] == Some(Piece::BR)));
    assert(pieces.has(Piece::BQ, t) == (mb[t.idx()] == Some(Piece::BQ)));
    assert(pieces.has(Piece::BK, t) == (mb[t.idx()] == Some(Piece::BK)));
}

proof fn lemma_side(pieces: PieceLayout, side: Colour, t: Square)
    ensures
        bit(pieces.side_bits(side), t.idx()) == (pieces.has(Piece::of(side, PieceType::Pawn), t)
            || pieces.has(Piece::of(side, PieceType::Knight), t) || pieces.has(
            Piece::of(side, PieceType::Bishop),
            t,
        ) || pieces.has(Piece::of(side, PieceType::Rook), t) || pieces.has(
            Piece::of(side, PieceType::Queen),
            t,
        ) || pieces.has(Piece::of(side, PieceType::King), t)),
{
    let i = t.idx() as u64;
    let p = pieces.bb(Piece::of(side, PieceType::Pawn));
    let n = pieces.bb(Piece::of(side, PieceType::Knight));
    let b = pieces.bb(Piece::of(side, PieceType::Bishop));
    let r = pieces.bb(Piece::of(side, PieceType::Rook));
    let q = pieces.bb(Piece::of(side, PieceType::Queen));
    let k = pieces.bb(Piece::of(side, PieceType::King));
    lemma_bit_or(p, n, i);
    lemma_bit_or(p | n, b, i);
    lemma_bit_or((p | n) | b, r, i);
    lemma_bit_or(((p | n) | b) | r, q, i);
    lemma_bit_or((((p | n) | b) | r) | q, k, i);
}

impl Board {
    /// Whether `m` is a move that the piece on its origin can make by the way it
    /// moves. Castling and en-passant captures are not judged here: whether they can be
    /// played hangs on the castling rights and the en-passant square being in order.
    pub open spec fn sound(&self, m: Move) -> bool {
        m.castles() || m.en_passant() || self.pseudo_legal(m)
    }

    /// Whether every move of `entries` is sound.
    pub open spec fn all_sound(&self, entries: Seq<MoveListEntry>) -> bool {
        forall|i: int| 0 <= i < entries.len() ==> self.sound((#[trigger] entries[i]).mov)
    }

    proof fn lemma_sound_add(&self, a: Seq<MoveListEntry>, b: Seq<MoveListEntry>)
        requires
            self.all_sound(a),
            self.all_sound(b),
        ensures
            self.all_sound(a + b),
    {
        assert forall|i: int| 0 <= i < (a + b).len() implies self.sound(
            (#[trigger] (a + b)[i]).mov,
        ) by {
            if i < a.len() {
                assert((a + b)[i] == a[i]);
            } else {
                assert((a + b)[i] == b[i - a.len()]);
            }
        }
    }

    proof fn lemma_moves_to_sound(&self, from: Square, targets: Seq<Square>, tactical: bool)
        requires
            forall|i: int|
                0 <= i < targets.len() ==> self.pseudo_legal(
                    Move::plain(from, #[trigger] targets[i]),
                ),
        ensures
            self.all_sound(moves_to(from, targets, tactical)),
        decreases targets.len(),
    {
        if targets.len() > 0 {
            let rest = targets.drop_last();
            assert forall|i: int| 0 <= i < rest.len() implies self.pseudo_legal(
                Move::plain(from, #[trigger] rest[i]),
            ) by {
                assert(rest[i] == targets[i]);
            }
            self.lemma_moves_to_sound(from, rest, tactical);
            let prev = moves_to(from, rest, tactical);
            let all = moves_to(from, targets, tactical);
            assert(self.pseudo_legal(Move::plain(from, targets[targets.len() - 1])));
            assert forall|i: int| 0 <= i < all.len() implies self.sound((#[trigger] all[i]).mov) by {
                if i < prev.len() {
                    assert(all[i] == prev[i]);
                }
            }
        }
    }

    /// A plain move of a piece that is no pawn to a square that it attacks and that
    /// holds no piece of its own side is pseudo-legal.
    proof fn lemma_officer_move(&self, from: Square, t: Square, pt: PieceType)
        requires
            agree(self.pieces, self.piece_array@),
            self.at(from) is Some,
            self.at(from)->0.side() == self.side,
            self.at(from)->0.kind() != PieceType::Pawn,
            pt == self.at(from)->0.kind() || (self.at(from)->0.kind() == PieceType::Queen && (pt
                == PieceType::Bishop || pt == PieceType::Rook)),
            bit(attack_bits(pt, from.idx(), self.pieces.occ()), t.idx()),
            bit(self.pieces.side_bits(self.side.flipped()), t.idx()) || !bit(
                self.pieces.occ(),
                t.idx(),
            ),
        ensures
            self.pseudo_legal(Move::plain(from, t)),
    {
        let m = Move::plain(from, t);
        Move::lemma_packed(from, t, 0, 0);
        lemma_square_state(self.pieces, self.piece_array@, t);
        let k = self.at(from)->0.kind();
        let occ = self.pieces.occ();
        lemma_bit_or(bishop_bits(from.idx(), occ), rook_bits(from.idx(), occ), t.idx() as u64);
        lemma_and_single(attack_bits(k, from.idx(), occ), t.idx());
        lemma_and_commutes(single(t.idx()), attack_bits(k, from.idx(), occ));
    }

    proof fn lemma_from_moves_sound(
        &self,
        mode: GenMode,
        from: Square,
        pt: PieceType,
        mask: u64,
    )
        requires
            agree(self.pieces, self.piece_array@),
            self.at(from) is Some,
            self.at(from)->0.side() == self.side,
            self.at(from)->0.kind() != PieceType::Pawn,
            pt == self.at(from)->0.kind() || (self.at(from)->0.kind() == PieceType::Queen && (pt
                == PieceType::Bishop || pt == PieceType::Rook)),
        ensures
            self.all_sound(
                from_moves(
                    mode,
                    from,
                    attack_bits(pt, from.idx(), self.pieces.occ()) & mask,
                    self.pieces.side_bits(self.side.flipped()),
                    self.pieces.occ(),
                ),
            ),
    {
        let occ = self.pieces.occ();
        let their = self.pieces.side_bits(self.side.flipped());
        let a = attack_bits(pt, from.idx(), occ) & mask;
        let caps = squares(a & their);
        let quiets = squares(a & !occ);
        assert forall|i: int| 0 <= i < caps.len() implies self.pseudo_legal(
            Move::plain(from, #[trigger] caps[i]),
        ) by {
            let t = caps[i];
            assert(caps.contains(t));
            lemma_squares_has(a & their, 0, t);
            lemma_bit_and(a, their, t.idx() as u64);
            lemma_bit_and(attack_bits(pt, from.idx(), occ), mask, t.idx() as u64);
            self.lemma_officer_move(from, t, pt);
        }
        assert forall|i: int| 0 <= i < quiets.len() implies self.pseudo_legal(
            Move::plain(from, #[trigger] quiets[i]),
        ) by {
            let t = quiets[i];
            assert(quiets.contains(t));
            lemma_squares_has(a & !occ, 0, t);
            lemma_bit_and(a, !occ, t.idx() as u64);
            lemma_bit_not(occ, t.idx() as u64);
            lemma_bit_and(attack_bits(pt, from.idx(), occ), mask, t.idx() as u64);
            self.lemma_officer_move(from, t, pt);
        }
        self.lemma_moves_to_sound(from, caps, true);
        self.lemma_moves_to_sound(from, quiets, false);
        self.lemma_sound_add(moves_to(from, caps, true), moves_to(from, quiets, false));
    }

    proof fn lemma_piece_moves_sound(
        &self,
        mode: GenMode,
        pt: PieceType,
        froms: Seq<Square>,
        valid: u64,
    )
        requires
            agree(self.pieces, self.piece_array@),
            pt != PieceType::Pawn,
            forall|i: int|
                0 <= i < froms.len() ==> {
                    let p = self.at(#[trigger] froms[i]);
                    p is Some && p->0.side() == self.side && (p->0.kind() == pt || (p->0.kind()
                        == PieceType::Queen && (pt == PieceType::Bishop || pt == PieceType::Rook)))
                },
        ensures
            self.all_sound(
                piece_moves(
                    mode,
                    pt,
                    froms,
                    valid,
                    self.pieces.side_bits(self.side.flipped()),
                    self.pieces.occ(),
                ),
            ),
        decreases froms.len(),
    {
        if froms.len() > 0 {
            let rest = froms.drop_last();
            assert forall|i: int| 0 <= i < rest.len() implies {
                let p = self.at(#[trigger] rest[i]);
                p is Some && p->0.side() == self.side && (p->0.kind() == pt || (p->0.kind()
                    == PieceType::Queen && (pt == PieceType::Bishop || pt == PieceType::Rook)))
            } by {
                assert(rest[i] == froms[i]);
            }
            self.lemma_piece_moves_sound(mode, pt, rest, valid);
            let from = froms[froms.len() - 1];
            self.lemma_from_moves_sound(mode, from, pt, valid);
            self.lemma_sound_add(
                piece_moves(
                    mode,
                    pt,
                    rest,
                    valid,
                    self.pieces.side_bits(self.side.flipped()),
                    self.pieces.occ(),
                ),
                from_moves(
                    mode,
                    from,
                    attack_bits(pt, from.idx(), self.pieces.occ()) & valid,
                    self.pieces.side_bits(self.side.flipped()),
                    self.pieces.occ(),
                ),
            );
        }
    }

    /// The squares of a set of pieces of the side to move hold such pieces.
    proof fn lemma_holders(&self, kind: PieceType, other: PieceType, s: Square)
        requires
            agree(self.pieces, self.piece_array@),
            bit(
                self.pieces.bb(Piece::of(self.side, kind)) | self.pieces.bb(
                    Piece::of(self.side, other),
                ),
                s.idx(),
            ),
        ensures
            self.at(s) is Some,
            self.at(s)->0.side() == self.side,
            self.at(s)->0.kind() == kind || self.at(s)->0.kind() == other,
    {
        lemma_bit_or(
            self.pieces.bb(Piece::of(self.side, kind)),
            self.pieces.bb(Piece::of(self.side, other)),
            s.idx() as u64,
        );
        assert(self.pieces.has(Piece::of(self.side, kind), s) == (self.at(s) == Some(
            Piece::of(self.side, kind),
        )));
        assert(self.pieces.has(Piece::of(self.side, other), s) == (self.at(s) == Some(
            Piece::of(self.side, other),
        )));
    }

    /// The moves that the generators give for knights, king, bishops, rooks and queens
    /// are pseudo-legal.
    pub proof fn lemma_officer_moves_sound(&self, mode: GenMode)
        requires
            self.placed_ok(),
        ensures
            self.all_sound(self.officer_moves(mode)),
    {
        let valid = self.valid_targets();
        let their = self.pieces.side_bits(self.side.flipped());
        let occ = self.pieces.occ();
        let nb = self.pieces.bb(Piece::of(self.side, PieceType::Knight));
        let kn = squares(nb);
        let di = squares(self.pieces.diag_bits(self.side));
        let or = squares(self.pieces.ortho_bits(self.side));
        assert forall|i: int| 0 <= i < kn.len() implies {
            let p = self.at(#[trigger] kn[i]);
            p is Some && p->0.side() == self.side && p->0.kind() == PieceType::Knight
        } by {
            assert(kn.contains(kn[i]));
            lemma_squares_has(nb, 0, kn[i]);
            lemma_or_self(nb);
            self.lemma_holders(PieceType::Knight, PieceType::Knight, kn[i]);
        }
        assert forall|i: int| 0 <= i < di.len() implies {
            let p = self.at(#[trigger] di[i]);
            p is Some && p->0.side() == self.side && (p->0.kind() == PieceType::Bishop
                || p->0.kind() == PieceType::Queen)
        } by {
            assert(di.contains(di[i]));
            lemma_squares_has(self.pieces.diag_bits(self.side), 0, di[i]);
            self.lemma_holders(PieceType::Bishop, PieceType::Queen, di[i]);
        }
        assert forall|i: int| 0 <= i < or.len() implies {
            let p = self.at(#[trigger] or[i]);
            p is Some && p->0.side() == self.side && (p->0.kind() == PieceType::Rook
                || p->0.kind() == PieceType::Queen)
        } by {
            assert(or.contains(or[i]));
            lemma_squares_has(self.pieces.ortho_bits(self.side), 0, or[i]);
            self.lemma_holders(PieceType::Rook, PieceType::Queen, or[i]);
        }
        self.lemma_piece_moves_sound(mode, PieceType::Knight, kn, valid);
        self.lemma_piece_moves_sound(mode, PieceType::Bishop, di, valid);
        self.lemma_piece_moves_sound(mode, PieceType::Rook, or, valid);
        self.lemma_king_moves_sound(mode);
        let g1 = piece_moves(mode, PieceType::Knight, kn, valid, their, occ);
        let g2 = self.king_moves(mode);
        let g3 = piece_moves(mode, PieceType::Bishop, di, valid, their, occ);
        let g4 = piece_moves(mode, PieceType::Rook, or, valid, their, occ);
        self.lemma_sound_add(g1, g2);
        self.lemma_sound_add(g1 + g2, g3);
        self.lemma_sound_add(g1 + g2 + g3, g4);
    }

    /// The moves that the generators give for the king are pseudo-legal.
    pub proof fn lemma_king_moves_sound(&self, mode: GenMode)
        requires
            self.placed_ok(),
        ensures
            self.all_sound(self.king_moves(mode)),
    {
        let k = king_place(self.pieces, self.side);
        lemma_king_there(self.pieces, self.side);
        assert(self.pieces.has(Piece::of(self.side, PieceType::King), k) == (self.at(k) == Some(
            Piece::of(self.side, PieceType::King),
        )));
        self.lemma_from_moves_sound(mode, k, PieceType::King, !self.threats.all.inner);
    }
}

proof fn lemma_diagonal_row(s: int, d: int)
    requires
        0 <= s < 64,
        0 <= s + d < 64,
        (d == 7 && s % 8 != 0) || (d == 9 && s % 8 != 7) || (d == -9 && s % 8 != 0) || (d == -7
            && s % 8 != 7),
    ensures
        (s + d) / 8 == s / 8 + (if d > 0 {
            1int
        } else {
            -1
        }),
{
}

pub proof fn lemma_and_commutes(a: u64, b: u64)
    by (bit_vector)
    ensures
        a & b == b & a,
{
}

proof fn lemma_or_self(a: u64)
    by (bit_vector)
    ensures
        a | a == a,
{
}


proof fn lemma_pawn_hits_bv(s: u64)
    by (bit_vector)
    requires
        s < 64,
    ensures
        s % 8 != 0 && s + 7 < 64 ==> pawn_attack_bits(Colour::White, 1u64 << s) & (1u64 << ((s
            + 7) as u64)) != 0,
        s % 8 != 7 && s + 9 < 64 ==> pawn_attack_bits(Colour::White, 1u64 << s) & (1u64 << ((s
            + 9) as u64)) != 0,
        s % 8 != 0 && s >= 9 ==> pawn_attack_bits(Colour::Black, 1u64 << s) & (1u64 << ((s
            - 9) as u64)) != 0,
        s % 8 != 7 && s >= 7 ==> pawn_attack_bits(Colour::Black, 1u64 << s) & (1u64 << ((s
            - 7) as u64)) != 0,
{
}

impl Board {
    proof fn lemma_pawn_moves_sound(&self, froms: Seq<Square>, delta: int, kind: PawnGen)
        requires
            forall|i: int|
                0 <= i < froms.len() ==> self.all_sound(
                    pawn_entries(#[trigger] froms[i], delta, kind),
                ),
        ensures
            self.all_sound(pawn_moves(froms, delta, kind)),
        decreases froms.len(),
    {
        if froms.len() > 0 {
            let rest = froms.drop_last();
            assert forall|i: int| 0 <= i < rest.len() implies self.all_sound(
                pawn_entries(#[trigger] rest[i], delta, kind),
            ) by {
                assert(rest[i] == froms[i]);
            }
            self.lemma_pawn_moves_sound(rest, delta, kind);
            assert(self.all_sound(pawn_entries(froms[froms.len() - 1], delta, kind)));
            self.lemma_sound_add(
                pawn_moves(rest, delta, kind),
                pawn_entries(froms.last(), delta, kind),
            );
        }
    }

    proof fn lemma_push_one(&self, from: Square, m: Move)
        requires
            agree(self.pieces, self.piece_array@),
            bit(self.own_pawns(), from.idx()),
            0 <= from.idx() + ahead(self.side, 1) < 64,
            !bit(self.pieces.occ(), from.idx() + ahead(self.side, 1)),
            m.origin() == from,
            m.target() == Square::at(from.idx() + ahead(self.side, 1)),
            m.tag() == 0 || m.tag() == 1,
            m.promotes() == (from.idx() / 8 == promo_row(self.side)),
        ensures
            self.pseudo_legal(m),
    {
        let to = Square::at(from.idx() + ahead(self.side, 1));
        let pawn = Piece::of(self.side, PieceType::Pawn);
        assert(self.pieces.has(pawn, from) == (self.at(from) == Some(pawn)));
        assert(self.at(from) == Some(pawn));
        lemma_square_state(self.pieces, self.piece_array@, to);
        assert(from.pushed(self.side) == Some(to));
        assert(to.idx() / 8 == from.idx() / 8 + (if self.side == Colour::White {
            1int
        } else {
            -1
        }));
        assert(!self.double_push(m));
        assert(self.victim(m) is None);
        assert(self.pawn_move_ok(m));
    }

    /// A step ahead of a pawn of the side to move onto an empty square is pseudo-legal,
    /// as a plain move where it does not reach the last rank and as a promotion where
    /// it does.
    proof fn lemma_push_sound(&self, from: Square, kind: PawnGen)
        requires
            agree(self.pieces, self.piece_array@),
            bit(self.own_pawns(), from.idx()),
            0 <= from.idx() + ahead(self.side, 1) < 64,
            !bit(self.pieces.occ(), from.idx() + ahead(self.side, 1)),
            (from.idx() / 8 == promo_row(self.side)) == (kind != PawnGen::Quiet),
            kind != PawnGen::Capture,
        ensures
            self.all_sound(pawn_entries(from, ahead(self.side, 1), kind)),
    {
        let to = Square::at(from.idx() + ahead(self.side, 1));
        Move::lemma_packed(from, to, 0, 0);
        Move::lemma_packed(from, to, 0, 1);
        Move::lemma_packed(from, to, 1, 1);
        Move::lemma_packed(from, to, 2, 1);
        Move::lemma_packed(from, to, 3, 1);
        let entries = pawn_entries(from, ahead(self.side, 1), kind);
        assert forall|i: int| 0 <= i < entries.len() implies self.sound(
            (#[trigger] entries[i]).mov,
        ) by {
            self.lemma_push_one(from, entries[i].mov);
        }
    }

    /// A step of two ranks of a pawn on its starting rank across an empty square onto an
    /// empty square is pseudo-legal.
    proof fn lemma_double_push_sound(&self, from: Square)
        requires
            agree(self.pieces, self.piece_array@),
            bit(self.own_pawns(), from.idx()),
            from.idx() / 8 == 7 - promo_row(self.side),
            !bit(self.pieces.occ(), from.idx() + ahead(self.side, 1)),
            !bit(self.pieces.occ(), from.idx() + ahead(self.side, 2)),
        ensures
            self.all_sound(pawn_entries(from, ahead(self.side, 2), PawnGen::Quiet)),
    {
        let one = Square::at(from.idx() + ahead(self.side, 1));
        let to = Square::at(from.idx() + ahead(self.side, 2));
        let pawn = Piece::of(self.side, PieceType::Pawn);
        assert(self.pieces.has(pawn, from) == (self.at(from) == Some(pawn)));
        lemma_square_state(self.pieces, self.piece_array@, to);
        lemma_square_state(self.pieces, self.piece_array@, one);
        Move::lemma_packed(from, to, 0, 0);
        assert(from.pushed(self.side) == Some(one));
        assert(one.pushed(self.side) == Some(to));
        assert(from.seen_by(self.side).idx() / 8 == 1);
    }

    /// A capture by a pawn of the side to move, one step diagonally ahead onto a piece
    /// of the other side, is pseudo-legal if it promotes exactly where it reaches the
    /// last rank.
    proof fn lemma_capture_one(&self, from: Square, west: bool, m: Move)
        requires
            agree(self.pieces, self.piece_array@),
            bit(self.own_pawns(), from.idx()),
            from.idx() % 8 != (if west {
                0int
            } else {
                7
            }),
            0 <= from.idx() + side_step(self.side, west) < 64,
            bit(self.pieces.side_bits(self.side.flipped()), from.idx() + side_step(self.side, west)),
            m.origin() == from,
            m.target() == Square::at(from.idx() + side_step(self.side, west)),
            m.tag() == 0 || m.tag() == 1,
            m.promotes() == (from.idx() / 8 == promo_row(self.side)),
        ensures
            self.pseudo_legal(m),
    {
        let to = Square::at(from.idx() + side_step(self.side, west));
        let pawn = Piece::of(self.side, PieceType::Pawn);
        assert(self.pieces.has(pawn, from) == (self.at(from) == Some(pawn)));
        assert(self.at(from) == Some(pawn));
        lemma_square_state(self.pieces, self.piece_array@, to);
        lemma_pawn_hits_bv(from.idx() as u64);
        lemma_diagonal_row(from.idx(), side_step(self.side, west));
        assert(to.idx() / 8 == from.idx() / 8 + (if self.side == Colour::White {
            1int
        } else {
            -1
        }));
        assert(!self.double_push(m));
        assert(self.victim(m) is Some);
        assert(pawn_attack_bits(self.side, single(from.idx())) & single(to.idx()) != 0);
        assert(self.pawn_move_ok(m));
    }

    /// A capture by a pawn of the side to move, one step diagonally ahead onto a piece
    /// of the other side, is pseudo-legal, as a plain move where it does not reach the
    /// last rank and as a promotion where it does.
    proof fn lemma_capture_sound(&self, from: Square, west: bool, kind: PawnGen)
        requires
            agree(self.pieces, self.piece_array@),
            bit(self.own_pawns(), from.idx()),
            from.idx() % 8 != (if west {
                0int
            } else {
                7
            }),
            0 <= from.idx() + side_step(self.side, west) < 64,
            bit(self.pieces.side_bits(self.side.flipped()), from.idx() + side_step(self.side, west)),
            (from.idx() / 8 == promo_row(self.side)) == (kind != PawnGen::Capture),
            kind != PawnGen::Quiet,
        ensures
            self.all_sound(pawn_entries(from, side_step(self.side, west), kind)),
    {
        let to = Square::at(from.idx() + side_step(self.side, west));
        Move::lemma_packed(from, to, 0, 0);
        Move::lemma_packed(from, to, 0, 1);
        Move::lemma_packed(from, to, 1, 1);
        Move::lemma_packed(from, to, 2, 1);
        Move::lemma_packed(from, to, 3, 1);
        let entries = pawn_entries(from, side_step(self.side, west), kind);
        assert forall|i: int| 0 <= i < entries.len() implies self.sound(
            (#[trigger] entries[i]).mov,
        ) by {
            self.lemma_capture_one(from, west, entries[i].mov);
        }
    }

    proof fn lemma_capture_block_sound(&self, valid: u64, west: bool, promo: bool, kind: PawnGen)
        requires
            agree(self.pieces, self.piece_array@),
            promo == (kind != PawnGen::Capture),
            kind != PawnGen::Quiet,
        ensures
            self.all_sound(
                pawn_moves(
                    squares(self.capture_sources(valid, west, promo)),
                    side_step(self.side, west),
                    kind,
                ),
            ),
    {
        let froms = squares(self.capture_sources(valid, west, promo));
        assert forall|i: int| 0 <= i < froms.len() implies self.all_sound(
            pawn_entries(#[trigger] froms[i], side_step(self.side, west), kind),
        ) by {
            let s = froms[i];
            assert(froms.contains(s));
            lemma_squares_has(self.capture_sources(valid, west, promo), 0, s);
            self.lemma_capture_sources(valid, west, promo, s);
            self.lemma_capture_sound(s, west, kind);
        }
        self.lemma_pawn_moves_sound(froms, side_step(self.side, west), kind);
    }

    /// The pawn moves that the generators give, en-passant captures aside, are
    /// pseudo-legal.
    pub proof fn lemma_pawn_moves_all_sound(&self, valid: u64, queen_only: bool)
        requires
            self.placed_ok(),
        ensures
            self.all_sound(self.pawn_quiet_moves(valid)),
            self.all_sound(self.forward_promo_moves(valid, queen_only)),
            self.all_sound(self.pawn_cap_moves(valid, queen_only)),
    {
        let singles = squares(self.single_push_sources(valid));
        let doubles = squares(self.double_push_sources(valid));
        let promos = squares(self.promo_push_sources(valid));
        let pk = if queen_only {
            PawnGen::PromoQueen
        } else {
            PawnGen::PromoPush
        };
        let ck = if queen_only {
            PawnGen::PromoQueen
        } else {
            PawnGen::PromoCapture
        };
        assert forall|i: int| 0 <= i < singles.len() implies self.all_sound(
            pawn_entries(#[trigger] singles[i], ahead(self.side, 1), PawnGen::Quiet),
        ) by {
            let s = singles[i];
            assert(singles.contains(s));
            lemma_squares_has(self.single_push_sources(valid), 0, s);
            self.lemma_push_sources(valid, s);
            self.lemma_push_sound(s, PawnGen::Quiet);
        }
        assert forall|i: int| 0 <= i < doubles.len() implies self.all_sound(
            pawn_entries(#[trigger] doubles[i], ahead(self.side, 2), PawnGen::Quiet),
        ) by {
            let s = doubles[i];
            assert(doubles.contains(s));
            lemma_squares_has(self.double_push_sources(valid), 0, s);
            self.lemma_push_sources(valid, s);
            self.lemma_double_push_sound(s);
        }
        assert forall|i: int| 0 <= i < promos.len() implies self.all_sound(
            pawn_entries(#[trigger] promos[i], ahead(self.side, 1), pk),
        ) by {
            let s = promos[i];
            assert(promos.contains(s));
            lemma_squares_has(self.promo_push_sources(valid), 0, s);
            self.lemma_push_sources(valid, s);
            self.lemma_push_sound(s, pk);
        }
        self.lemma_pawn_moves_sound(singles, ahead(self.side, 1), PawnGen::Quiet);
        self.lemma_pawn_moves_sound(doubles, ahead(self.side, 2), PawnGen::Quiet);
        self.lemma_pawn_moves_sound(promos, ahead(self.side, 1), pk);
        self.lemma_sound_add(
            pawn_moves(singles, ahead(self.side, 1), PawnGen::Quiet),
            pawn_moves(doubles, ahead(self.side, 2), PawnGen::Quiet),
        );
        self.lemma_capture_block_sound(valid, true, false, PawnGen::Capture);
        self.lemma_capture_block_sound(valid, false, false, PawnGen::Capture);
        self.lemma_capture_block_sound(valid, true, true, ck);
        self.lemma_capture_block_sound(valid, false, true, ck);
        let c1 = pawn_moves(
            squares(self.capture_sources(valid, true, false)),
            west_step(self.side),
            PawnGen::Capture,
        );
        let c2 = pawn_moves(
            squares(self.capture_sources(valid, false, false)),
            east_step(self.side),
            PawnGen::Capture,
        );
        let c3 = pawn_moves(
            squares(self.capture_sources(valid, true, true)),
            west_step(self.side),
            ck,
        );
        let c4 = pawn_moves(
            squares(self.capture_sources(valid, false, true)),
            east_step(self.side),
            ck,
        );
        self.lemma_sound_add(c1, c2);
        self.lemma_sound_add(c1 + c2, c3);
        self.lemma_sound_add(c1 + c2 + c3, c4);
    }

    proof fn lemma_flagged_sound(&self)
        ensures
            self.all_sound(self.ep_moves()),
            self.all_sound(self.castling_if_free()),
    {
        match self.ep_sq {
            Some(ep) => {
                assert forall|from: Square|
                    (#[trigger] Move::flagged(from, ep, crate::chessmove::MoveFlags::EnPassant)).en_passant() by {
                    Move::lemma_packed(from, ep, 0, 2);
                }
            },
            None => {},
        }
        assert forall|from: Square, to: Square|
            (#[trigger] Move::flagged(from, to, crate::chessmove::MoveFlags::Castle)).castles() by {
            Move::lemma_packed(from, to, 0, 3);
        }
    }

    /// Every move that the generators give is one that the piece on its origin can make
    /// by the way it moves, as far as plain moves and promotions go: for each of them
    /// the question whether the move is pseudo-legal is answered with yes.
    pub proof fn lemma_generated_sound(&self)
        requires
            self.placed_ok(),
        ensures
            self.all_sound(self.pseudo_moves()),
            self.all_sound(self.capture_moves(false)),
            self.all_sound(self.capture_moves(true)),
            self.all_sound(self.quiet_moves()),
    {
        let v = self.valid_targets();
        self.lemma_pawn_moves_all_sound(v, false);
        self.lemma_pawn_moves_all_sound(v, true);
        self.lemma_officer_moves_sound(GenMode::All);
        self.lemma_officer_moves_sound(GenMode::Captures);
        self.lemma_officer_moves_sound(GenMode::Quiets);
        self.lemma_king_moves_sound(GenMode::All);
        self.lemma_king_moves_sound(GenMode::Captures);
        self.lemma_king_moves_sound(GenMode::Quiets);
        self.lemma_flagged_sound();
        let qp = self.pawn_quiet_moves(v);
        let pr = self.forward_promo_moves(v, false);
        let prq = self.forward_promo_moves(v, true);
        let c = self.pawn_cap_moves(v, false);
        let cq = self.pawn_cap_moves(v, true);
        let e = self.ep_moves();
        let z = self.castling_if_free();
        self.lemma_sound_add(qp, pr);
        self.lemma_sound_add(qp + pr, c);
        self.lemma_sound_add(qp + pr + c, e);
        self.lemma_sound_add(qp + pr + c + e, self.officer_moves(GenMode::All));
        self.lemma_sound_add(qp + pr + c + e + self.officer_moves(GenMode::All), z);
        self.lemma_sound_add(pr, c);
        self.lemma_sound_add(pr + c, e);
        self.lemma_sound_add(pr + c + e, self.officer_moves(GenMode::Captures));
        self.lemma_sound_add(prq, cq);
        self.lemma_sound_add(prq + cq, e);
        self.lemma_sound_add(prq + cq + e, self.officer_moves(GenMode::Captures));
        self.lemma_sound_add(qp, self.officer_moves(GenMode::Quiets));
        self.lemma_sound_add(qp + self.officer_moves(GenMode::Quiets), z);
    }
}

} // verus!
