use vstd::prelude::*;
use crate::attacks::{
    attack_bits, attacks_by_type, bishop_bits, king_bits, knight_bits, pawn_attack_bits, rook_bits,
};
use crate::bits::{bit, lemma_bit_or, lemma_bit_single, lemma_bit_zero, lemma_lowest, lowest, single, squares};
use crate::castling::CastlingRights;
use crate::piecelayout::{PieceLayout, Threats};
use crate::squareset::SquareSet;
use crate::types::{Colour, Piece, PieceType, Square};
use crate::zobrist::{castling_key, ep_key, piece_key, side_key};

verus! {

broadcast use crate::types::group_square;

/// The five hashes of a position: of everything, of the pawns, of each side's pieces
/// other than pawns, of the minor pieces and kings, and of the major pieces and kings.
#[derive(Clone, Copy, Debug, PartialEq, Eq, Structural)]
pub struct Keys {
    pub zobrist: u64,
    pub pawn: u64,
    pub non_pawn_white: u64,
    pub non_pawn_black: u64,
    pub minor: u64,
    pub major: u64,
}

/// One of the hashes that are made of piece keys.
pub enum KeyClass {
    All,
    Pawn,
    NonPawn(Colour),
    Minor,
    Major,
}

/// Whether the key of `p` is part of the hash `class`. A king is part of both the minor
/// and the major hash.
pub open spec fn counts(class: KeyClass, p: Piece) -> bool {
    match class {
        KeyClass::All => true,
        KeyClass::Pawn => p.kind() == PieceType::Pawn,
        KeyClass::NonPawn(c) => p.kind() != PieceType::Pawn && p.side() == c,
        KeyClass::Minor => p.kind() == PieceType::Knight || p.kind() == PieceType::Bishop
            || p.kind() == PieceType::King,
        KeyClass::Major => p.kind() == PieceType::Rook || p.kind() == PieceType::Queen || p.kind()
            == PieceType::King,
    }
}

/// The keys of the pieces on the first `n` squares of `mb` that are part of the hash
/// `class`, combined by exclusive or.
pub open spec fn fold_keys(mb: Seq<Option<Piece>>, class: KeyClass, n: int) -> u64
    decreases n,
{
    if n <= 0 {
        0
    } else {
        match mb[n - 1] {
            Some(p) => if counts(class, p) {
                fold_keys(mb, class, n - 1) ^ piece_key(p, Square::at(n - 1))
            } else {
                fold_keys(mb, class, n - 1)
            },
            None => fold_keys(mb, class, n - 1),
        }
    }
}

/// The hash of everything: the keys of all pieces, then the side key where white is to
/// move, the key of the en-passant file where there is an en-passant square, and the key
/// of the castling rights.
pub open spec fn full_key(
    mb: Seq<Option<Piece>>,
    side: Colour,
    ep: Option<Square>,
    rights: CastlingRights,
) -> u64 {
    let a = fold_keys(mb, KeyClass::All, 64);
    let b = if side == Colour::White {
        a ^ side_key()
    } else {
        a
    };
    let c = match ep {
        Some(sq) => b ^ ep_key(sq.idx() % 8),
        None => b,
    };
    c ^ castling_key(rights.mask())
}

/// The five hashes of the position with the given pieces, side to move, en-passant
/// square and castling rights, computed from nothing.
pub open spec fn keys_of(
    mb: Seq<Option<Piece>>,
    side: Colour,
    ep: Option<Square>,
    rights: CastlingRights,
) -> Keys {
    Keys {
        zobrist: full_key(mb, side, ep, rights),
        pawn: fold_keys(mb, KeyClass::Pawn, 64),
        non_pawn_white: fold_keys(mb, KeyClass::NonPawn(Colour::White), 64),
        non_pawn_black: fold_keys(mb, KeyClass::NonPawn(Colour::Black), 64),
        minor: fold_keys(mb, KeyClass::Minor, 64),
        major: fold_keys(mb, KeyClass::Major, 64),
    }
}

/// Taking a key out twice changes nothing, and keys may be put in in any order.
pub proof fn lemma_xor_moves(x: u64, k: u64, c: u64)
    by (bit_vector)
    ensures
        (x ^ k) ^ k == x,
        (x ^ k) ^ c == (x ^ c) ^ k,
        x ^ 0 == x,
{
}

/// Taking a piece off a square takes its key out of every hash it is part of.
pub proof fn lemma_fold_lift(mb: Seq<Option<Piece>>, class: KeyClass, s: Square, p: Piece, n: int)
    requires
        mb.len() == 64,
        mb[s.idx()] == Some(p),
        0 <= n <= 64,
    ensures
        fold_keys(mb.update(s.idx(), None), class, n) == if n > s.idx() && counts(class, p) {
            fold_keys(mb, class, n) ^ piece_key(p, s)
        } else {
            fold_keys(mb, class, n)
        },
    decreases n,
{
    if n > 0 {
        lemma_fold_lift(mb, class, s, p, n - 1);
        let x = fold_keys(mb, class, n - 1);
        if n - 1 == s.idx() {
            lemma_xor_moves(x, piece_key(p, s), 0);
        } else if n - 1 > s.idx() {
            match mb[n - 1] {
                Some(q) => {
                    lemma_xor_moves(x, piece_key(p, s), piece_key(q, Square::at(n - 1)));
                },
                None => {},
            }
        }
    }
}

/// Putting a piece on an empty square puts its key into every hash it is part of.
pub proof fn lemma_fold_drop(mb: Seq<Option<Piece>>, class: KeyClass, s: Square, p: Piece, n: int)
    requires
        mb.len() == 64,
        mb[s.idx()] == None::<Piece>,
        0 <= n <= 64,
    ensures
        fold_keys(mb.update(s.idx(), Some(p)), class, n) == if n > s.idx() && counts(class, p) {
            fold_keys(mb, class, n) ^ piece_key(p, s)
        } else {
            fold_keys(mb, class, n)
        },
    decreases n,
{
    if n > 0 {
        lemma_fold_drop(mb, class, s, p, n - 1);
        let x = fold_keys(mb, class, n - 1);
        if n - 1 > s.idx() {
            match mb[n - 1] {
                Some(q) => {
                    lemma_xor_moves(x, piece_key(p, s), piece_key(q, Square::at(n - 1)));
                },
                None => {},
            }
        }
    }
}

/// Whether the twelve sets of `pieces` hold exactly what the mailbox `mb` holds.
pub open spec fn agree(pieces: PieceLayout, mb: Seq<Option<Piece>>) -> bool {
    mb.len() == 64 && forall|p: Piece, s: Square| #[trigger]
        pieces.has(p, s) == (mb[s.idx()] == Some(p))
}

/// The squares among the first `n` on which the mailbox `mb` holds `p`.
pub open spec fn placed(mb: Seq<Option<Piece>>, p: Piece, n: int) -> u64
    decreases n,
{
    if n <= 0 {
        0
    } else if mb[n - 1] == Some(p) {
        placed(mb, p, n - 1) | single(n - 1)
    } else {
        placed(mb, p, n - 1)
    }
}

/// The layout that holds exactly what the mailbox `mb` holds.
pub open spec fn layout_of(mb: Seq<Option<Piece>>) -> PieceLayout {
    PieceLayout {
        wp: placed(mb, Piece::WP, 64),
        wn: placed(mb, Piece::WN, 64),
        wb: placed(mb, Piece::WB, 64),
        wr: placed(mb, Piece::WR, 64),
        wq: placed(mb, Piece::WQ, 64),
        wk: placed(mb, Piece::WK, 64),
        bp: placed(mb, Piece::BP, 64),
        bn: placed(mb, Piece::BN, 64),
        bb: placed(mb, Piece::BB, 64),
        br: placed(mb, Piece::BR, 64),
        bq: placed(mb, Piece::BQ, 64),
        bk: placed(mb, Piece::BK, 64),
    }
}

proof fn lemma_placed(mb: Seq<Option<Piece>>, p: Piece, n: int, i: int)
    requires
        0 <= n <= 64,
        0 <= i < 64,
    ensures
        bit(placed(mb, p, n), i) == (i < n && mb[i] == Some(p)),
    decreases n,
{
    if n > 0 {
        lemma_placed(mb, p, n - 1, i);
        if mb[n - 1] == Some(p) {
            lemma_bit_or(placed(mb, p, n - 1), single(n - 1), i as u64);
            lemma_bit_single((n - 1) as u64, i as u64);
        }
    } else {
        lemma_bit_zero(i as u64);
    }
}

/// The layout of a mailbox agrees with it, and it is the only layout that does.
pub proof fn lemma_layout_of(pieces: PieceLayout, mb: Seq<Option<Piece>>)
    requires
        mb.len() == 64,
    ensures
        agree(layout_of(mb), mb),
        agree(pieces, mb) ==> pieces == layout_of(mb),
{
    let l = layout_of(mb);
    assert forall|p: Piece, s: Square| #[trigger] l.has(p, s) == (mb[s.idx()] == Some(p)) by {
        lemma_placed(mb, p, 64, s.idx());
    }
    if agree(pieces, mb) {
        pieces.lemma_same(l);
    }
}

/// The square of the king of `side`: the lowest square on which one stands.
pub open spec fn king_place(pieces: PieceLayout, side: Colour) -> Square {
    Square::at(lowest(pieces.bb(Piece::of(side, PieceType::King))))
}

/// Whether `side` has exactly one king.
pub open spec fn one_king(pieces: PieceLayout, side: Colour) -> bool {
    forall|s: Square| #[trigger]
        pieces.has(Piece::of(side, PieceType::King), s) == (s == king_place(pieces, side))
}

/// A side whose king stands on `k` and nowhere else has exactly one king.
pub proof fn lemma_one_king(pieces: PieceLayout, side: Colour, k: Square)
    requires
        forall|s: Square| #[trigger] pieces.has(Piece::of(side, PieceType::King), s) == (s == k),
    ensures
        one_king(pieces, side),
        king_place(pieces, side) == k,
        pieces.bb(Piece::of(side, PieceType::King)) != 0,
{
    let x = pieces.bb(Piece::of(side, PieceType::King));
    assert(pieces.has(Piece::of(side, PieceType::King), k));
    if x == 0 {
        lemma_bit_zero(k.idx() as u64);
    }
    lemma_lowest(x);
    assert(pieces.has(Piece::of(side, PieceType::King), Square::at(lowest(x))));
}

/// A side with exactly one king has a king.
pub proof fn lemma_king_there(pieces: PieceLayout, side: Colour)
    requires
        one_king(pieces, side),
    ensures
        pieces.bb(Piece::of(side, PieceType::King)) != 0,
        pieces.has(Piece::of(side, PieceType::King), king_place(pieces, side)),
{
    let k = king_place(pieces, side);
    assert(pieces.has(Piece::of(side, PieceType::King), k));
    if pieces.bb(Piece::of(side, PieceType::King)) == 0 {
        lemma_bit_zero(k.idx() as u64);
    }
}

/// `acc` together with the squares that pieces of kind `pt` on the squares `froms`
/// attack when `occ` is occupied.
pub open spec fn union_attacks(acc: u64, pt: PieceType, froms: Seq<Square>, occ: u64) -> u64
    decreases froms.len(),
{
    if froms.len() == 0 {
        acc
    } else {
        union_attacks(acc, pt, froms.drop_last(), occ) | attack_bits(pt, froms.last().idx(), occ)
    }
}

/// Every square that a piece of `by` attacks: the squares its pawns attack, then those
/// of its knights, of its bishops and queens along diagonals, of its rooks and queens
/// along ranks and files, and of its king.
pub open spec fn attacked_squares(pieces: PieceLayout, by: Colour) -> u64 {
    let occ = pieces.occ();
    let a = pawn_attack_bits(by, pieces.bb(Piece::of(by, PieceType::Pawn)));
    let b = union_attacks(
        a,
        PieceType::Knight,
        squares(pieces.bb(Piece::of(by, PieceType::Knight))),
        occ,
    );
    let c = union_attacks(b, PieceType::Bishop, squares(pieces.diag_bits(by)), occ);
    let d = union_attacks(c, PieceType::Rook, squares(pieces.ortho_bits(by)), occ);
    d | king_bits(single(king_place(pieces, by).idx()))
}

/// The pieces of `by` that attack the king of the other side: found by looking from
/// that king along each kind of attack.
pub open spec fn checking_pieces(pieces: PieceLayout, by: Colour) -> u64 {
    let occ = pieces.occ();
    let k = king_place(pieces, by.flipped()).idx();
    let a = pawn_attack_bits(by.flipped(), single(k)) & pieces.bb(Piece::of(by, PieceType::Pawn));
    let b = a | (knight_bits(single(k)) & pieces.bb(Piece::of(by, PieceType::Knight)));
    let c = b | (bishop_bits(k, occ) & pieces.diag_bits(by));
    c | (rook_bits(k, occ) & pieces.ortho_bits(by))
}

/// What the pieces of `by` threaten.
pub open spec fn threats_of(pieces: PieceLayout, by: Colour) -> Threats {
    Threats {
        all: SquareSet { inner: attacked_squares(pieces, by) },
        checkers: SquareSet { inner: checking_pieces(pieces, by) },
    }
}

/// Whether a piece of `by` attacks `sq`: found by looking from `sq` along each kind of
/// attack for a piece of `by` that moves that way.
pub open spec fn attacked_by(pieces: PieceLayout, sq: Square, by: Colour) -> bool {
    let occ = pieces.occ();
    let s = sq.idx();
    ||| pawn_attack_bits(by, pieces.bb(Piece::of(by, PieceType::Pawn))) & single(s) != 0
    ||| pieces.bb(Piece::of(by, PieceType::Knight)) & knight_bits(single(s)) != 0
    ||| pieces.diag_bits(by) & bishop_bits(s, occ) != 0
    ||| pieces.ortho_bits(by) & rook_bits(s, occ) != 0
    ||| pieces.bb(Piece::of(by, PieceType::King)) & king_bits(single(s)) != 0
}

/// `acc` together with the squares that pieces of kind `pt` on the squares `froms`
/// attack when `occ` is occupied. Not for pawns.
pub fn attacks_of_all(acc: SquareSet, pt: PieceType, froms: SquareSet, occ: SquareSet) -> (r:
    SquareSet)
    requires
        pt != PieceType::Pawn,
    ensures
        r.inner == union_attacks(acc.inner, pt, froms@, occ.inner),
{
    let mut rest = froms;
    let mut out = acc;
    let ghost done: Seq<Square> = Seq::empty();
    proof {
        assert(froms@ =~= done + rest@);
    }
    while rest.inner != 0
        invariant
            pt != PieceType::Pawn,
            froms@ == done + rest@,
            out.inner == union_attacks(acc.inner, pt, done, occ.inner),
        decreases rest@.len(),
    {
        let ghost before = rest@;
        let sq = rest.pop_first();
        let a = attacks_by_type(pt, sq, occ);
        proof {
            assert(done.push(sq).drop_last() =~= done);
            assert(froms@ =~= done.push(sq) + rest@);
            done = done.push(sq);
        }
        out = out.union(a);
    }
    proof {
        crate::bits::lemma_squares_zero();
        assert(done =~= froms@);
    }
    out
}

} // verus!
