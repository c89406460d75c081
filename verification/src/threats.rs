use vstd::prelude::*;
use crate::attacks::{
    attack_bits, bishop_bits, king_bits, knight_bits, pawn_attack_bits, rook_bits,
};
use crate::bits::{
    bit, lemma_bit_and, lemma_bit_or, lemma_bit_zero, lemma_lowest, lemma_squares_has, lowest,
    single, squares,
};
use crate::board::Board;
use crate::chessmove::Move;
use crate::piecelayout::PieceLayout;
use crate::position::{
    layout_of,
    attacked_by, attacked_squares, checking_pieces, king_place, lemma_king_there, one_king,
    union_attacks,
};
use crate::rays::{
    lemma_and_single, lemma_bishop_symmetric, lemma_leaper_symmetric, lemma_rook_symmetric,
};
use crate::types::{Colour, Piece, PieceType, Square};

verus! {

broadcast use crate::types::group_square;

/// The squares that the piece `p` attacks from `s`: for a pawn the two squares
/// diagonally ahead, for the others the squares they move to, as far as the pieces on
/// the board let them.
pub open spec fn piece_attacks(pieces: PieceLayout, p: Piece, s: Square) -> u64 {
    if p.kind() == PieceType::Pawn {
        pawn_attack_bits(p.side(), single(s.idx()))
    } else {
        attack_bits(p.kind(), s.idx(), pieces.occ())
    }
}

/// Whether a piece of `by` of kind `kind` stands on `s` and attacks `t`.
pub open spec fn hits_as(pieces: PieceLayout, by: Colour, kind: PieceType, s: Square, t: Square) -> bool {
    pieces.has(Piece::of(by, kind), s) && bit(
        piece_attacks(pieces, Piece::of(by, kind), s),
        t.idx(),
    )
}

/// Whether a piece of `by` other than the king stands on `s` and attacks `t`.
pub open spec fn hits_below_king(pieces: PieceLayout, by: Colour, s: Square, t: Square) -> bool {
    hits_as(pieces, by, PieceType::Pawn, s, t) || hits_as(pieces, by, PieceType::Knight, s, t)
        || hits_as(pieces, by, PieceType::Bishop, s, t) || hits_as(
        pieces,
        by,
        PieceType::Rook,
        s,
        t,
    ) || hits_as(pieces, by, PieceType::Queen, s, t)
}

/// Whether a piece of `by` stands on `s` and attacks `t`.
pub open spec fn hits(pieces: PieceLayout, by: Colour, s: Square, t: Square) -> bool {
    hits_below_king(pieces, by, s, t) || hits_as(pieces, by, PieceType::King, s, t)
}

/// Two sets meet exactly when a square is in both.
pub proof fn lemma_meets(x: u64, y: u64)
    ensures
        (x & y != 0) == (exists|s: Square| bit(x, #[trigger] s.idx()) && bit(y, s.idx())),
{
    if x & y != 0 {
        lemma_lowest(x & y);
        let i = lowest(x & y);
        lemma_bit_and(x, y, i as u64);
        let s = Square::at(i);
        assert(bit(x, s.idx()) && bit(y, s.idx()));
    } else {
        assert forall|s: Square| !(bit(x, #[trigger] s.idx()) && bit(y, s.idx())) by {
            lemma_bit_and(x, y, s.idx() as u64);
            lemma_bit_zero(s.idx() as u64);
        }
    }
}

proof fn lemma_pawns_bv(p: u64, s: u64, t: u64)
    by (bit_vector)
    requires
        s < 64,
        t < 64,
    ensures
        bit(p, s as int) && bit(pawn_attack_bits(Colour::White, 1u64 << s), t as int) ==> bit(
            pawn_attack_bits(Colour::White, p),
            t as int,
        ),
        bit(p, s as int) && bit(pawn_attack_bits(Colour::Black, 1u64 << s), t as int) ==> bit(
            pawn_attack_bits(Colour::Black, p),
            t as int,
        ),
        bit(pawn_attack_bits(Colour::White, p), t as int) ==> (t >= 9 && bit(p, t - 9) && bit(
            pawn_attack_bits(Colour::White, 1u64 << ((t - 9) as u64)),
            t as int,
        )) || (t >= 7 && bit(p, t - 7) && bit(
            pawn_attack_bits(Colour::White, 1u64 << ((t - 7) as u64)),
            t as int,
        )),
        bit(pawn_attack_bits(Colour::Black, p), t as int) ==> (t + 9 < 64 && bit(p, t + 9) && bit(
            pawn_attack_bits(Colour::Black, 1u64 << ((t + 9) as u64)),
            t as int,
        )) || (t + 7 < 64 && bit(p, t + 7) && bit(
            pawn_attack_bits(Colour::Black, 1u64 << ((t + 7) as u64)),
            t as int,
        )),
        bit(pawn_attack_bits(Colour::White, 1u64 << s), t as int) == bit(
            pawn_attack_bits(Colour::Black, 1u64 << t),
            s as int,
        ),
{
}

/// Pawns standing on `p` attack a square exactly when one of them does.
pub proof fn lemma_pawns_attack(side: Colour, p: u64, t: Square)
    ensures
        bit(pawn_attack_bits(side, p), t.idx()) == (exists|s: Square|
            bit(p, #[trigger] s.idx()) && bit(pawn_attack_bits(side, single(s.idx())), t.idx())),
{
    let ti = t.idx() as u64;
    lemma_pawns_bv(p, 0, ti);
    if bit(pawn_attack_bits(side, p), t.idx()) {
        let si: int = match side {
            Colour::White => if ti >= 9 && bit(p, ti - 9) && bit(
                pawn_attack_bits(Colour::White, 1u64 << ((ti - 9) as u64)),
                ti as int,
            ) {
                ti - 9
            } else {
                ti - 7
            },
            Colour::Black => if ti + 9 < 64 && bit(p, ti + 9) && bit(
                pawn_attack_bits(Colour::Black, 1u64 << ((ti + 9) as u64)),
                ti as int,
            ) {
                ti + 9
            } else {
                ti + 7
            },
        };
        let s = Square::at(si);
        assert(bit(p, s.idx()) && bit(pawn_attack_bits(side, single(s.idx())), t.idx()));
    }
    assert forall|s: Square|
        bit(p, #[trigger] s.idx()) && bit(
            pawn_attack_bits(side, single(s.idx())),
            t.idx(),
        ) implies bit(pawn_attack_bits(side, p), t.idx()) by {
        lemma_pawns_bv(p, s.idx() as u64, ti);
    }
}

/// The squares that pieces of one kind on `froms` attack together are those that one
/// of them attacks.
pub proof fn lemma_union_has(acc: u64, pt: PieceType, froms: Seq<Square>, occ: u64, t: int)
    requires
        0 <= t < 64,
    ensures
        bit(union_attacks(acc, pt, froms, occ), t) == (bit(acc, t) || exists|i: int|
            0 <= i < froms.len() && bit(attack_bits(pt, (#[trigger] froms[i]).idx(), occ), t)),
    decreases froms.len(),
{
    if froms.len() > 0 {
        let rest = froms.drop_last();
        lemma_union_has(acc, pt, rest, occ, t);
        lemma_bit_or(
            union_attacks(acc, pt, rest, occ),
            attack_bits(pt, froms.last().idx(), occ),
            t as u64,
        );
        if exists|i: int|
            0 <= i < rest.len() && bit(attack_bits(pt, (#[trigger] rest[i]).idx(), occ), t) {
            let i = choose|i: int|
                0 <= i < rest.len() && bit(attack_bits(pt, (#[trigger] rest[i]).idx(), occ), t);
            assert(froms[i] == rest[i]);
        }
        if bit(attack_bits(pt, froms.last().idx(), occ), t) {
            assert(froms[froms.len() - 1] == froms.last());
        }
        if exists|i: int|
            0 <= i < froms.len() && bit(attack_bits(pt, (#[trigger] froms[i]).idx(), occ), t) {
            let i = choose|i: int|
                0 <= i < froms.len() && bit(attack_bits(pt, (#[trigger] froms[i]).idx(), occ), t);
            if i < rest.len() {
                assert(rest[i] == froms[i]);
            }
        }
    }
}

/// The squares that pieces of one kind standing on `bb` attack together are those
/// that one of them attacks.
pub proof fn lemma_union_of_set(acc: u64, pt: PieceType, bb: u64, occ: u64, t: Square)
    ensures
        bit(union_attacks(acc, pt, squares(bb), occ), t.idx()) == (bit(acc, t.idx())
            || exists|s: Square|
            bit(bb, #[trigger] s.idx()) && bit(attack_bits(pt, s.idx(), occ), t.idx())),
{
    let froms = squares(bb);
    lemma_union_has(acc, pt, froms, occ, t.idx());
    if exists|i: int|
        0 <= i < froms.len() && bit(attack_bits(pt, (#[trigger] froms[i]).idx(), occ), t.idx()) {
        let i = choose|i: int|
            0 <= i < froms.len() && bit(
                attack_bits(pt, (#[trigger] froms[i]).idx(), occ),
                t.idx(),
            );
        let s = froms[i];
        assert(froms.contains(s));
        lemma_squares_has(bb, 0, s);
        assert(bit(bb, s.idx()) && bit(attack_bits(pt, s.idx(), occ), t.idx()));
    }
    if exists|s: Square|
        bit(bb, #[trigger] s.idx()) && bit(attack_bits(pt, s.idx(), occ), t.idx()) {
        let s = choose|s: Square|
            bit(bb, #[trigger] s.idx()) && bit(attack_bits(pt, s.idx(), occ), t.idx());
        lemma_squares_has(bb, 0, s);
        let i = choose|i: int| 0 <= i < froms.len() && froms[i] == s;
        assert(bit(attack_bits(pt, froms[i].idx(), occ), t.idx()));
    }
}


/// Whether some piece of `by` of kind `kind` attacks `t`.
pub open spec fn some_hits_as(pieces: PieceLayout, by: Colour, kind: PieceType, t: Square) -> bool {
    exists|s: Square| hits_as(pieces, by, kind, s, t)
}

/// Whether some piece of `by` attacks `t`.
pub open spec fn some_hits(pieces: PieceLayout, by: Colour, t: Square) -> bool {
    exists|s: Square| hits(pieces, by, s, t)
}

proof fn lemma_some_hits(pieces: PieceLayout, by: Colour, t: Square)
    ensures
        some_hits(pieces, by, t) == (some_hits_as(pieces, by, PieceType::Pawn, t) || some_hits_as(
            pieces,
            by,
            PieceType::Knight,
            t,
        ) || some_hits_as(pieces, by, PieceType::Bishop, t) || some_hits_as(
            pieces,
            by,
            PieceType::Rook,
            t,
        ) || some_hits_as(pieces, by, PieceType::Queen, t) || some_hits_as(
            pieces,
            by,
            PieceType::King,
            t,
        )),
{
    if some_hits(pieces, by, t) {
        let s = choose|s: Square| hits(pieces, by, s, t);
        assert(hits_as(pieces, by, PieceType::Pawn, s, t) || hits_as(
            pieces,
            by,
            PieceType::Knight,
            s,
            t,
        ) || hits_as(pieces, by, PieceType::Bishop, s, t) || hits_as(
            pieces,
            by,
            PieceType::Rook,
            s,
            t,
        ) || hits_as(pieces, by, PieceType::Queen, s, t) || hits_as(
            pieces,
            by,
            PieceType::King,
            s,
            t,
        ));
    }
    lemma_kind_hits(pieces, by, PieceType::Pawn, t);
    lemma_kind_hits(pieces, by, PieceType::Knight, t);
    lemma_kind_hits(pieces, by, PieceType::Bishop, t);
    lemma_kind_hits(pieces, by, PieceType::Rook, t);
    lemma_kind_hits(pieces, by, PieceType::Queen, t);
    lemma_kind_hits(pieces, by, PieceType::King, t);
}

proof fn lemma_kind_hits(pieces: PieceLayout, by: Colour, kind: PieceType, t: Square)
    ensures
        some_hits_as(pieces, by, kind, t) ==> some_hits(pieces, by, t),
{
    if some_hits_as(pieces, by, kind, t) {
        let s = choose|s: Square| hits_as(pieces, by, kind, s, t);
        assert(hits(pieces, by, s, t));
    }
}

/// Whether a square of `bb` holds a piece that attacks `t` with the attack `pt`.
pub open spec fn set_attacks(bb: u64, pt: PieceType, occ: u64, t: Square) -> bool {
    exists|s: Square| bit(bb, #[trigger] s.idx()) && bit(attack_bits(pt, s.idx(), occ), t.idx())
}

proof fn lemma_sliders(pieces: PieceLayout, by: Colour, t: Square)
    ensures
        (set_attacks(pieces.diag_bits(by), PieceType::Bishop, pieces.occ(), t) || set_attacks(
            pieces.ortho_bits(by),
            PieceType::Rook,
            pieces.occ(),
            t,
        )) == (some_hits_as(pieces, by, PieceType::Bishop, t) || some_hits_as(
            pieces,
            by,
            PieceType::Rook,
            t,
        ) || some_hits_as(pieces, by, PieceType::Queen, t)),
{
    let occ = pieces.occ();
    let b = pieces.bb(Piece::of(by, PieceType::Bishop));
    let r = pieces.bb(Piece::of(by, PieceType::Rook));
    let q = pieces.bb(Piece::of(by, PieceType::Queen));
    if set_attacks(pieces.diag_bits(by), PieceType::Bishop, occ, t) {
        let s = choose|s: Square|
            bit(pieces.diag_bits(by), #[trigger] s.idx()) && bit(
                attack_bits(PieceType::Bishop, s.idx(), occ),
                t.idx(),
            );
        lemma_bit_or(b, q, s.idx() as u64);
        lemma_bit_or(bishop_bits(s.idx(), occ), rook_bits(s.idx(), occ), t.idx() as u64);
        if bit(b, s.idx()) {
            assert(hits_as(pieces, by, PieceType::Bishop, s, t));
        } else {
            assert(hits_as(pieces, by, PieceType::Queen, s, t));
        }
    }
    if set_attacks(pieces.ortho_bits(by), PieceType::Rook, occ, t) {
        let s = choose|s: Square|
            bit(pieces.ortho_bits(by), #[trigger] s.idx()) && bit(
                attack_bits(PieceType::Rook, s.idx(), occ),
                t.idx(),
            );
        lemma_bit_or(r, q, s.idx() as u64);
        lemma_bit_or(bishop_bits(s.idx(), occ), rook_bits(s.idx(), occ), t.idx() as u64);
        if bit(r, s.idx()) {
            assert(hits_as(pieces, by, PieceType::Rook, s, t));
        } else {
            assert(hits_as(pieces, by, PieceType::Queen, s, t));
        }
    }
    if some_hits_as(pieces, by, PieceType::Bishop, t) {
        let s = choose|s: Square| hits_as(pieces, by, PieceType::Bishop, s, t);
        lemma_bit_or(b, q, s.idx() as u64);
        assert(bit(pieces.diag_bits(by), s.idx()) && bit(
            attack_bits(PieceType::Bishop, s.idx(), occ),
            t.idx(),
        ));
    }
    if some_hits_as(pieces, by, PieceType::Rook, t) {
        let s = choose|s: Square| hits_as(pieces, by, PieceType::Rook, s, t);
        lemma_bit_or(r, q, s.idx() as u64);
        assert(bit(pieces.ortho_bits(by), s.idx()) && bit(
            attack_bits(PieceType::Rook, s.idx(), occ),
            t.idx(),
        ));
    }
    if some_hits_as(pieces, by, PieceType::Queen, t) {
        let s = choose|s: Square| hits_as(pieces, by, PieceType::Queen, s, t);
        lemma_bit_or(b, q, s.idx() as u64);
        lemma_bit_or(r, q, s.idx() as u64);
        lemma_bit_or(bishop_bits(s.idx(), occ), rook_bits(s.idx(), occ), t.idx() as u64);
        if bit(bishop_bits(s.idx(), occ), t.idx()) {
            assert(bit(pieces.diag_bits(by), s.idx()) && bit(
                attack_bits(PieceType::Bishop, s.idx(), occ),
                t.idx(),
            ));
        } else {
            assert(bit(pieces.ortho_bits(by), s.idx()) && bit(
                attack_bits(PieceType::Rook, s.idx(), occ),
                t.idx(),
            ));
        }
    }
}

proof fn lemma_leapers(pieces: PieceLayout, by: Colour, t: Square)
    ensures
        set_attacks(
            pieces.bb(Piece::of(by, PieceType::Knight)),
            PieceType::Knight,
            pieces.occ(),
            t,
        ) == some_hits_as(pieces, by, PieceType::Knight, t),
        set_attacks(pieces.bb(Piece::of(by, PieceType::King)), PieceType::King, pieces.occ(), t)
            == some_hits_as(pieces, by, PieceType::King, t),
        bit(pawn_attack_bits(by, pieces.bb(Piece::of(by, PieceType::Pawn))), t.idx())
            == some_hits_as(pieces, by, PieceType::Pawn, t),
{
    let occ = pieces.occ();
    let n = pieces.bb(Piece::of(by, PieceType::Knight));
    let k = pieces.bb(Piece::of(by, PieceType::King));
    let p = pieces.bb(Piece::of(by, PieceType::Pawn));
    if set_attacks(n, PieceType::Knight, occ, t) {
        let s = choose|s: Square|
            bit(n, #[trigger] s.idx()) && bit(attack_bits(PieceType::Knight, s.idx(), occ), t.idx());
        assert(hits_as(pieces, by, PieceType::Knight, s, t));
    }
    if some_hits_as(pieces, by, PieceType::Knight, t) {
        let s = choose|s: Square| hits_as(pieces, by, PieceType::Knight, s, t);
        assert(bit(n, s.idx()) && bit(attack_bits(PieceType::Knight, s.idx(), occ), t.idx()));
    }
    if set_attacks(k, PieceType::King, occ, t) {
        let s = choose|s: Square|
            bit(k, #[trigger] s.idx()) && bit(attack_bits(PieceType::King, s.idx(), occ), t.idx());
        assert(hits_as(pieces, by, PieceType::King, s, t));
    }
    if some_hits_as(pieces, by, PieceType::King, t) {
        let s = choose|s: Square| hits_as(pieces, by, PieceType::King, s, t);
        assert(bit(k, s.idx()) && bit(attack_bits(PieceType::King, s.idx(), occ), t.idx()));
    }
    lemma_pawns_attack(by, p, t);
    if bit(pawn_attack_bits(by, p), t.idx()) {
        let s = choose|s: Square|
            bit(p, #[trigger] s.idx()) && bit(pawn_attack_bits(by, single(s.idx())), t.idx());
        assert(hits_as(pieces, by, PieceType::Pawn, s, t));
    }
    if some_hits_as(pieces, by, PieceType::Pawn, t) {
        let s = choose|s: Square| hits_as(pieces, by, PieceType::Pawn, s, t);
        assert(bit(p, s.idx()) && bit(pawn_attack_bits(by, single(s.idx())), t.idx()));
    }
}

/// The threats of a side are exactly the squares that one of its pieces attacks.
pub proof fn lemma_threats_all(pieces: PieceLayout, by: Colour, t: Square)
    requires
        one_king(pieces, by),
    ensures
        bit(attacked_squares(pieces, by), t.idx()) == some_hits(pieces, by, t),
{
    let occ = pieces.occ();
    let a = pawn_attack_bits(by, pieces.bb(Piece::of(by, PieceType::Pawn)));
    let kn = pieces.bb(Piece::of(by, PieceType::Knight));
    let b = union_attacks(a, PieceType::Knight, squares(kn), occ);
    let c = union_attacks(b, PieceType::Bishop, squares(pieces.diag_bits(by)), occ);
    let d = union_attacks(c, PieceType::Rook, squares(pieces.ortho_bits(by)), occ);
    let k = king_place(pieces, by);
    lemma_union_of_set(a, PieceType::Knight, kn, occ, t);
    lemma_union_of_set(b, PieceType::Bishop, pieces.diag_bits(by), occ, t);
    lemma_union_of_set(c, PieceType::Rook, pieces.ortho_bits(by), occ, t);
    lemma_bit_or(d, king_bits(single(k.idx())), t.idx() as u64);
    lemma_some_hits(pieces, by, t);
    lemma_sliders(pieces, by, t);
    lemma_leapers(pieces, by, t);
    lemma_king_there(pieces, by);
    let kb = pieces.bb(Piece::of(by, PieceType::King));
    if set_attacks(kb, PieceType::King, occ, t) {
        let s = choose|s: Square|
            bit(kb, #[trigger] s.idx()) && bit(attack_bits(PieceType::King, s.idx(), occ), t.idx());
        assert(pieces.has(Piece::of(by, PieceType::King), s));
        assert(s == k);
    }
    if bit(king_bits(single(k.idx())), t.idx()) {
        assert(bit(kb, k.idx()) && bit(attack_bits(PieceType::King, k.idx(), occ), t.idx()));
    }
}

/// Looking from a square for the pieces that attack it finds one exactly when a piece
/// attacks the square.
pub proof fn lemma_attacked_by(pieces: PieceLayout, t: Square, by: Colour)
    ensures
        attacked_by(pieces, t, by) == some_hits(pieces, by, t),
{
    let occ = pieces.occ();
    let ti = t.idx();
    let p = pieces.bb(Piece::of(by, PieceType::Pawn));
    let n = pieces.bb(Piece::of(by, PieceType::Knight));
    let k = pieces.bb(Piece::of(by, PieceType::King));
    lemma_and_single(pawn_attack_bits(by, p), ti);
    lemma_meets(n, knight_bits(single(ti)));
    lemma_meets(pieces.diag_bits(by), bishop_bits(ti, occ));
    lemma_meets(pieces.ortho_bits(by), rook_bits(ti, occ));
    lemma_meets(k, king_bits(single(ti)));
    lemma_some_hits(pieces, by, t);
    lemma_sliders(pieces, by, t);
    lemma_leapers(pieces, by, t);
    lemma_back(n, PieceType::Knight, occ, t);
    lemma_back(k, PieceType::King, occ, t);
    lemma_back(pieces.diag_bits(by), PieceType::Bishop, occ, t);
    lemma_back(pieces.ortho_bits(by), PieceType::Rook, occ, t);
}

proof fn lemma_back(bb: u64, pt: PieceType, occ: u64, t: Square)
    requires
        pt == PieceType::Knight || pt == PieceType::King || pt == PieceType::Bishop || pt
            == PieceType::Rook,
    ensures
        set_attacks(bb, pt, occ, t) == (exists|s: Square|
            bit(bb, #[trigger] s.idx()) && bit(attack_bits(pt, t.idx(), occ), s.idx())),
{
    assert forall|s: Square|
        bit(attack_bits(pt, t.idx(), occ), #[trigger] s.idx()) == bit(
            attack_bits(pt, s.idx(), occ),
            t.idx(),
        ) by {
        lemma_leaper_symmetric(s.idx() as u64, t.idx() as u64);
        lemma_bishop_symmetric(s.idx(), t.idx(), occ);
        lemma_rook_symmetric(s.idx(), t.idx(), occ);
    }
    if set_attacks(bb, pt, occ, t) {
        let s = choose|s: Square|
            bit(bb, #[trigger] s.idx()) && bit(attack_bits(pt, s.idx(), occ), t.idx());
        assert(bit(bb, s.idx()) && bit(attack_bits(pt, t.idx(), occ), s.idx()));
    }
    if exists|s: Square|
        bit(bb, #[trigger] s.idx()) && bit(attack_bits(pt, t.idx(), occ), s.idx()) {
        let s = choose|s: Square|
            bit(bb, #[trigger] s.idx()) && bit(attack_bits(pt, t.idx(), occ), s.idx());
        assert(bit(bb, s.idx()) && bit(attack_bits(pt, s.idx(), occ), t.idx()));
    }
}

/// The pieces counted as giving check are exactly the pieces of `by`, the king aside,
/// that attack the king of the other side.
pub proof fn lemma_checkers(pieces: PieceLayout, by: Colour, s: Square)
    ensures
        bit(checking_pieces(pieces, by), s.idx()) == hits_below_king(
            pieces,
            by,
            s,
            king_place(pieces, by.flipped()),
        ),
{
    let occ = pieces.occ();
    let t = king_place(pieces, by.flipped());
    let k = t.idx();
    let si = s.idx() as u64;
    let p = pieces.bb(Piece::of(by, PieceType::Pawn));
    let n = pieces.bb(Piece::of(by, PieceType::Knight));
    let b = pieces.bb(Piece::of(by, PieceType::Bishop));
    let r = pieces.bb(Piece::of(by, PieceType::Rook));
    let q = pieces.bb(Piece::of(by, PieceType::Queen));
    let c1 = pawn_attack_bits(by.flipped(), single(k)) & p;
    let c2 = knight_bits(single(k)) & n;
    let c3 = bishop_bits(k, occ) & pieces.diag_bits(by);
    let c4 = rook_bits(k, occ) & pieces.ortho_bits(by);
    lemma_bit_or(c1, c2, si);
    lemma_bit_or(c1 | c2, c3, si);
    lemma_bit_or((c1 | c2) | c3, c4, si);
    lemma_bit_and(pawn_attack_bits(by.flipped(), single(k)), p, si);
    lemma_bit_and(knight_bits(single(k)), n, si);
    lemma_bit_and(bishop_bits(k, occ), pieces.diag_bits(by), si);
    lemma_bit_and(rook_bits(k, occ), pieces.ortho_bits(by), si);
    lemma_bit_or(b, q, si);
    lemma_bit_or(r, q, si);
    lemma_bit_or(bishop_bits(s.idx(), occ), rook_bits(s.idx(), occ), k as u64);
    lemma_leaper_symmetric(si, k as u64);
    lemma_bishop_symmetric(s.idx(), k, occ);
    lemma_rook_symmetric(s.idx(), k, occ);
    lemma_pawns_bv(0, si, k as u64);
    lemma_pawns_bv(0, k as u64, si);
}

impl Board {
    /// In a sound position, what the board counts as an attack is an attack: for
    /// either side, the board counts a square as attacked exactly when a piece of that
    /// side attacks it; and the pieces kept as giving check are the pieces of the side
    /// not to move, the king aside, that attack the king of the side to move.
    pub proof fn lemma_threats_correct(&self, by: Colour, t: Square)
        requires
            self.wf(),
        ensures
            self.sees_attack(t, by) == some_hits(self.pieces, by, t),
            self.threats.all.has(t) == some_hits(self.pieces, self.side.flipped(), t),
            self.threats.checkers.has(t) == hits_below_king(
                self.pieces,
                self.side.flipped(),
                t,
                king_place(self.pieces, self.side),
            ),
    {
        lemma_threats_all(self.pieces, self.side.flipped(), t);
        lemma_attacked_by(self.pieces, t, by);
        lemma_checkers(self.pieces, self.side.flipped(), t);
    }
}


impl Board {
    /// A move that can be carried out can be made exactly when, once it is carried out,
    /// no piece of the other side attacks the king of the side that made it.
    pub proof fn lemma_legal_is_king_safety(&self, m: Move)
        requires
            self.applicable(m),
        ensures
            self.legal(m) == !some_hits(
                layout_of(self.mailbox_after(m)),
                self.side.flipped(),
                king_place(layout_of(self.mailbox_after(m)), self.side),
            ),
    {
        let l = layout_of(self.mailbox_after(m));
        lemma_attacked_by(l, king_place(l, self.side), self.side.flipped());
    }
}

} // verus!
