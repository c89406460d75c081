use vstd::prelude::*;
use crate::board::{Board, ContHistIndex, FeatureUpdate, Undo, UpdateBuffer};
use crate::castling::CastlingRights;
use crate::chessmove::Move;
use crate::piecelayout::{PieceLayout, Threats};
use crate::position::{
    agree, attacked_by, counts, fold_keys, full_key, keys_of, king_place, layout_of,
    lemma_fold_drop, lemma_fold_lift, lemma_king_there, lemma_layout_of, lemma_one_king,
    lemma_xor_moves, one_king, threats_of, KeyClass, Keys,
};
use crate::squareset::{east, west, SquareSet};
use crate::types::{Colour, Piece, PieceType, Square};
use crate::zobrist::{
    castling_key, ep_key, hash_castling, hash_ep, hash_piece, hash_side, piece_key, side_key,
};
use crate::bits::single;

verus! {

broadcast use crate::types::group_square;

/// The mailbox `mb` with `sq` emptied where `cond` holds.
pub open spec fn opt_lift(mb: Seq<Option<Piece>>, cond: bool, sq: Square) -> Seq<Option<Piece>> {
    if cond {
        mb.update(sq.idx(), None)
    } else {
        mb
    }
}

/// The mailbox `mb` with `p` put on `sq` where `cond` holds.
pub open spec fn opt_drop(mb: Seq<Option<Piece>>, cond: bool, sq: Square, p: Piece) -> Seq<
    Option<Piece>,
> {
    if cond {
        mb.update(sq.idx(), Some(p))
    } else {
        mb
    }
}

/// The one-element list of `u` where `cond` holds, the empty list otherwise.
pub open spec fn opt_one(cond: bool, u: FeatureUpdate) -> Seq<FeatureUpdate> {
    if cond {
        seq![u]
    } else {
        Seq::empty()
    }
}

/// The square on which the king of `side` ends when it castles: on the g-file on the
/// king's wing, on the c-file on the queen's wing, on its own first rank.
pub open spec fn king_home(side: Colour, kingside: bool) -> Square {
    if kingside {
        Square::G1.seen_by(side)
    } else {
        Square::C1.seen_by(side)
    }
}

/// The square on which the rook of `side` ends when it castles: on the f-file on the
/// king's wing, on the d-file on the queen's wing.
pub open spec fn rook_home(side: Colour, kingside: bool) -> Square {
    if kingside {
        Square::F1.seen_by(side)
    } else {
        Square::D1.seen_by(side)
    }
}

/// The full hash after the side to move, the en-passant square and the castling rights
/// change, worked out from the hash before.
pub proof fn lemma_meta_shift(f: u64, s0: u64, e0: u64, c0: u64, e1: u64, sk: u64, c1: u64)
    by (bit_vector)
    ensures
        ((((((((f ^ s0) ^ e0) ^ c0) ^ e0) ^ c0) ^ e1) ^ sk) ^ c1) == ((f ^ (s0 ^ sk)) ^ e1) ^ c1,
        (((((f ^ s0) ^ e0) ^ c0) ^ e0) ^ sk) == ((f ^ (s0 ^ sk)) ^ c0),
        sk ^ sk == 0,
        0 ^ sk == sk,
        (((f ^ s0) ^ e0) ^ c0) ^ e1 == (((f ^ e1) ^ s0) ^ e0) ^ c0,
{
}

/// Changing one square of the mailbox changes the full hash by the key of the piece.
pub proof fn lemma_full_key_shift(
    mb: Seq<Option<Piece>>,
    mb2: Seq<Option<Piece>>,
    k: u64,
    side: Colour,
    ep: Option<Square>,
    rights: CastlingRights,
)
    requires
        fold_keys(mb2, KeyClass::All, 64) == fold_keys(mb, KeyClass::All, 64) ^ k,
    ensures
        full_key(mb2, side, ep, rights) == full_key(mb, side, ep, rights) ^ k,
{
    let f = fold_keys(mb, KeyClass::All, 64);
    let s0 = if side == Colour::White { side_key() } else { 0 };
    let e0 = match ep {
        Some(sq) => ep_key(sq.idx() % 8),
        None => 0,
    };
    let c0 = castling_key(rights.mask());
    lemma_xor_moves(f, 0, 0);
    lemma_xor_moves(f ^ s0, 0, 0);
    lemma_xor_moves(f ^ k, 0, 0);
    lemma_xor_moves((f ^ k) ^ s0, 0, 0);
    lemma_meta_shift(f, s0, e0, c0, k, 0, 0);
}

impl Board {
    /// Whether the counters have room for one more half move.
    pub open spec fn has_room(&self) -> bool {
        self.fifty_move_counter < u8::MAX && self.ply < usize::MAX && self.height < usize::MAX
    }

    /// The wing on which `m` castles: the king's wing (`true`) where its target is the
    /// rook that may castle there for the side to move, else the queen's wing (`false`)
    /// where it is the rook that may castle there.
    pub open spec fn castle_wing(&self, m: Move) -> Option<bool> {
        if Some(m.target()) == self.castle_perm.kingside_of(self.side) {
            Some(true)
        } else if Some(m.target()) == self.castle_perm.queenside_of(self.side) {
            Some(false)
        } else {
            None
        }
    }

    /// The square of the pawn that `m` captures en passant: one step behind its target.
    pub open spec fn ep_victim(&self, m: Move) -> Option<Square> {
        m.target().pushed(self.side.flipped())
    }

    /// Whether `m` can be carried out on the board at all: a piece of the side to move
    /// stands on its origin; a plain move, a promotion or an en-passant capture goes to a
    /// square that is empty or holds a piece of the other side that is no king; an
    /// en-passant capture is made by a pawn to an empty square with a pawn of the other
    /// side one step behind it; a promotion is made by a pawn; castling is made by the
    /// king towards a rook of its own that may castle, and the squares on which king and
    /// rook end hold no third piece. Nothing is asked of how the piece moves.
    pub open spec fn applicable(&self, m: Move) -> bool {
        match self.at(m.origin()) {
            None => false,
            Some(piece) => {
                &&& piece.side() == self.side
                &&& if m.castles() {
                    &&& piece.kind() == PieceType::King
                    &&& self.castle_wing(m) is Some
                    &&& self.at(m.target()) == Some(Piece::of(self.side, PieceType::Rook))
                    &&& {
                        let kd = king_home(self.side, self.castle_wing(m)->0);
                        let rd = rook_home(self.side, self.castle_wing(m)->0);
                        &&& (self.at(kd) is None || kd == m.origin() || kd == m.target())
                        &&& (self.at(rd) is None || rd == m.origin() || rd == m.target())
                    }
                } else {
                    &&& match self.at(m.target()) {
                        Some(c) => c.side() != self.side && c.kind() != PieceType::King,
                        None => true,
                    }
                    &&& (m.en_passant() ==> {
                        &&& piece.kind() == PieceType::Pawn
                        &&& self.at(m.target()) is None
                        &&& self.ep_victim(m) is Some
                        &&& self.at(self.ep_victim(m)->0) == Some(
                            Piece::of(self.side.flipped(), PieceType::Pawn),
                        )
                    })
                    &&& (m.promotes() ==> piece.kind() == PieceType::Pawn)
                }
            },
        }
    }

    /// The pieces that `m` takes off squares, in the order they are recorded: the moved
    /// piece, then a pawn captured en passant, then a piece captured on the target; for
    /// castling the king and then the rook, each only if it changes its square.
    pub open spec fn subs_of(&self, m: Move) -> Seq<FeatureUpdate> {
        let piece = self.at(m.origin())->0;
        if m.castles() {
            let wing = self.castle_wing(m)->0;
            let rook = Piece::of(self.side, PieceType::Rook);
            opt_one(
                m.origin() != king_home(self.side, wing),
                FeatureUpdate { sq: m.origin(), piece },
            ) + opt_one(
                m.target() != rook_home(self.side, wing),
                FeatureUpdate { sq: m.target(), piece: rook },
            )
        } else {
            seq![FeatureUpdate { sq: m.origin(), piece }] + opt_one(
                m.en_passant(),
                FeatureUpdate {
                    sq: self.ep_victim(m)->0,
                    piece: Piece::of(self.side.flipped(), PieceType::Pawn),
                },
            ) + opt_one(
                self.at(m.target()) is Some,
                FeatureUpdate { sq: m.target(), piece: self.at(m.target())->0 },
            )
        }
    }

    /// The piece that stands on the target of `m` once it is made: the piece a pawn
    /// promotes to, or the moved piece.
    pub open spec fn arriving(&self, m: Move) -> Piece {
        match m.promo_kind() {
            Some(kind) => Piece::of(self.side, kind),
            None => self.at(m.origin())->0,
        }
    }

    /// The pieces that `m` puts on squares, in the order they are recorded.
    pub open spec fn adds_of(&self, m: Move) -> Seq<FeatureUpdate> {
        let piece = self.at(m.origin())->0;
        if m.castles() {
            let wing = self.castle_wing(m)->0;
            let rook = Piece::of(self.side, PieceType::Rook);
            opt_one(
                m.origin() != king_home(self.side, wing),
                FeatureUpdate { sq: king_home(self.side, wing), piece },
            ) + opt_one(
                m.target() != rook_home(self.side, wing),
                FeatureUpdate { sq: rook_home(self.side, wing), piece: rook },
            )
        } else {
            seq![FeatureUpdate { sq: m.target(), piece: self.arriving(m) }]
        }
    }

    /// The mailbox once `m` is made: every piece that `m` takes off a square is gone
    /// from it, and every piece that `m` puts on a square stands there.
    pub open spec fn mailbox_after(&self, m: Move) -> Seq<Option<Piece>> {
        let mb = self.piece_array@;
        let piece = self.at(m.origin())->0;
        if m.castles() {
            let wing = self.castle_wing(m)->0;
            let kd = king_home(self.side, wing);
            let rd = rook_home(self.side, wing);
            let rook = Piece::of(self.side, PieceType::Rook);
            let a = opt_lift(mb, m.origin() != kd, m.origin());
            let b = opt_lift(a, m.target() != rd, m.target());
            let c = opt_drop(b, m.origin() != kd, kd, piece);
            opt_drop(c, m.target() != rd, rd, rook)
        } else {
            let a = mb.update(m.origin().idx(), None);
            let b = opt_lift(a, m.en_passant(), self.ep_victim(m)->0);
            let c = opt_lift(b, self.at(m.target()) is Some, m.target());
            c.update(m.target().idx(), Some(self.arriving(m)))
        }
    }

    /// The square on which the moved piece ends: for castling the king's square after
    /// castling, otherwise the target.
    pub open spec fn landing(&self, m: Move) -> Square {
        if m.castles() {
            king_home(self.side, self.castle_wing(m)->0)
        } else {
            m.target()
        }
    }

    /// Whether the king of the side that makes `m` is out of every attack once `m` is
    /// made.
    pub open spec fn king_safe_after(&self, m: Move) -> bool {
        let l = layout_of(self.mailbox_after(m));
        !attacked_by(l, king_place(l, self.side), self.side.flipped())
    }

    /// The half-move counter once `m` is made: back to nothing after a capture or a pawn
    /// move, one more otherwise.
    pub open spec fn fifty_after(&self, m: Move) -> int {
        if self.victim(m) is Some || self.at(m.origin())->0.kind() == PieceType::Pawn {
            0
        } else {
            self.fifty_move_counter + 1
        }
    }

    /// The en-passant square once `m` is made: the square that a pawn skipped with a
    /// double push, where a pawn of the other side stands beside the pushed pawn.
    pub open spec fn ep_after(&self, m: Move) -> Option<Square> {
        let l = layout_of(self.mailbox_after(m));
        let t = single(m.target().idx());
        if self.double_push(m) && (west(t) | east(t)) & l.kind_bits(PieceType::Pawn) & l.side_bits(
            self.side.flipped(),
        ) != 0 {
            m.origin().pushed(self.side)
        } else {
            None
        }
    }

    /// The castling rights once `m` is made: a rook that leaves the square of a right
    /// of its side takes that right away, a king takes both rights of its side away, and
    /// whatever lands on the square of a right takes that right away.
    pub open spec fn rights_after(&self, m: Move) -> CastlingRights {
        rights_shift(self.castle_perm, self.at(m.origin())->0, m.origin(), self.landing(m))
    }

    /// Whether the hashes are those of the mailbox with the given side to move,
    /// en-passant square and castling rights.
    pub open spec fn keyed_as(&self, side: Colour, ep: Option<Square>, rights: CastlingRights) -> bool {
        self.keys == keys_of(self.piece_array@, side, ep, rights)
    }
}

/// The rights `r` once `piece` has gone from `origin` to `landing`.
pub open spec fn rights_shift(r: CastlingRights, piece: Piece, origin: Square, landing: Square) -> CastlingRights {
    {
        let from = Some(origin);
        let a = if piece == Piece::WR {
            if from == r.wk {
                CastlingRights { wk: None, ..r }
            } else if from == r.wq {
                CastlingRights { wq: None, ..r }
            } else {
                r
            }
        } else if piece == Piece::BR {
            if from == r.bk {
                CastlingRights { bk: None, ..r }
            } else if from == r.bq {
                CastlingRights { bq: None, ..r }
            } else {
                r
            }
        } else if piece == Piece::WK {
            CastlingRights { wk: None, wq: None, ..r }
        } else if piece == Piece::BK {
            CastlingRights { bk: None, bq: None, ..r }
        } else {
            r
        };
        a.without(landing)
    }
}

impl Board {
    /// What is kept of the position when `m` is made.
    pub open spec fn snapshot(&self, m: Move) -> Undo {
        Undo {
            castle_perm: self.castle_perm,
            ep_square: self.ep_sq,
            fifty_move_counter: self.fifty_move_counter,
            threats: self.threats,
            cont_hist_index: Some(
                ContHistIndex { piece: self.at(m.origin())->0, square: m.history_target() },
            ),
            piece_layout: self.pieces,
            piece_array: self.piece_array,
            keys: self.keys,
        }
    }

    /// Whether `post` is the board that making `m` on `pre` leaves.
    pub open spec fn made(pre: Board, m: Move, post: Board) -> bool {
        &&& post.wf()
        &&& post.piece_array@ == pre.mailbox_after(m)
        &&& post.side == pre.side.flipped()
        &&& post.ep_sq == pre.ep_after(m)
        &&& post.castle_perm == pre.rights_after(m)
        &&& post.fifty_move_counter == pre.fifty_after(m)
        &&& post.ply == pre.ply + 1
        &&& post.height == pre.height + 1
        &&& post.history@ == pre.history@.push(pre.snapshot(m))
        &&& post.chess960 == pre.chess960
    }

    /// Whether two boards are in the same state: every field is the same, and the same
    /// records are kept of the moves made.
    pub open spec fn same_state(&self, other: Board) -> bool {
        &&& self.pieces == other.pieces
        &&& self.piece_array == other.piece_array
        &&& self.side == other.side
        &&& self.ep_sq == other.ep_sq
        &&& self.castle_perm == other.castle_perm
        &&& self.fifty_move_counter == other.fifty_move_counter
        &&& self.ply == other.ply
        &&& self.keys == other.keys
        &&& self.threats == other.threats
        &&& self.height == other.height
        &&& self.history@ == other.history@
        &&& self.chess960 == other.chess960
    }

    /// Whether `post` is the board that taking back the last move of `pre` leaves:
    /// everything that was kept is restored, the side to move changes back and the
    /// counters of half moves go down by one.
    pub open spec fn unmade(pre: Board, post: Board) -> bool {
        let u = pre.history@.last();
        &&& post.pieces == u.piece_layout
        &&& post.piece_array == u.piece_array
        &&& post.side == pre.side.flipped()
        &&& post.ep_sq == u.ep_square
        &&& post.castle_perm == u.castle_perm
        &&& post.fifty_move_counter == u.fifty_move_counter
        &&& post.ply == pre.ply - 1
        &&& post.keys == u.keys
        &&& post.threats == u.threats
        &&& post.height == pre.height - 1
        &&& post.history@ == pre.history@.drop_last()
        &&& post.chess960 == pre.chess960
    }

    fn lift(&mut self, sq: Square, piece: Piece, buf: &mut UpdateBuffer)
        requires
            agree(old(self).pieces, old(self).piece_array@),
            old(self).at(sq) == Some(piece),
            old(self).keys == keys_of(
                old(self).piece_array@,
                old(self).side,
                old(self).ep_sq,
                old(self).castle_perm,
            ),
            old(buf).sub_count < 4,
            old(buf).add_count <= 4,
        ensures
            final(self).piece_array@ == old(self).piece_array@.update(sq.idx(), None),
            agree(final(self).pieces, final(self).piece_array@),
            final(self).keys == keys_of(
                final(self).piece_array@,
                old(self).side,
                old(self).ep_sq,
                old(self).castle_perm,
            ),
            *final(self) == (Board {
                pieces: final(self).pieces,
                piece_array: final(self).piece_array,
                keys: final(self).keys,
                ..*old(self)
            }),
            final(buf).subs_view() == old(buf).subs_view().push(FeatureUpdate { sq, piece }),
            final(buf).adds_view() == old(buf).adds_view(),
            final(buf).sub_count == old(buf).sub_count + 1,
            final(buf).add_count == old(buf).add_count,
    {
        let ghost mb = self.piece_array@;
        let ghost mb2 = mb.update(sq.idx(), None);
        proof {
            lemma_fold_lift(mb, KeyClass::All, sq, piece, 64);
            lemma_fold_lift(mb, KeyClass::Pawn, sq, piece, 64);
            lemma_fold_lift(mb, KeyClass::NonPawn(Colour::White), sq, piece, 64);
            lemma_fold_lift(mb, KeyClass::NonPawn(Colour::Black), sq, piece, 64);
            lemma_fold_lift(mb, KeyClass::Minor, sq, piece, 64);
            lemma_fold_lift(mb, KeyClass::Major, sq, piece, 64);
            lemma_full_key_shift(
                mb,
                mb2,
                piece_key(piece, sq),
                self.side,
                self.ep_sq,
                self.castle_perm,
            );
        }
        self.pieces.clear_piece_at(sq, piece);
        self.piece_array[sq.index() as usize] = None;
        self.toggle_keys(sq, piece);
        buf.clear_piece(sq, piece);
    }

    fn put_down(&mut self, sq: Square, piece: Piece, buf: &mut UpdateBuffer)
        requires
            agree(old(self).pieces, old(self).piece_array@),
            old(self).at(sq) is None,
            old(self).keys == keys_of(
                old(self).piece_array@,
                old(self).side,
                old(self).ep_sq,
                old(self).castle_perm,
            ),
            old(buf).add_count < 4,
            old(buf).sub_count <= 4,
        ensures
            final(self).piece_array@ == old(self).piece_array@.update(sq.idx(), Some(piece)),
            agree(final(self).pieces, final(self).piece_array@),
            final(self).keys == keys_of(
                final(self).piece_array@,
                old(self).side,
                old(self).ep_sq,
                old(self).castle_perm,
            ),
            *final(self) == (Board {
                pieces: final(self).pieces,
                piece_array: final(self).piece_array,
                keys: final(self).keys,
                ..*old(self)
            }),
            final(buf).adds_view() == old(buf).adds_view().push(FeatureUpdate { sq, piece }),
            final(buf).subs_view() == old(buf).subs_view(),
            final(buf).add_count == old(buf).add_count + 1,
            final(buf).sub_count == old(buf).sub_count,
    {
        let ghost mb = self.piece_array@;
        let ghost mb2 = mb.update(sq.idx(), Some(piece));
        proof {
            lemma_fold_drop(mb, KeyClass::All, sq, piece, 64);
            lemma_fold_drop(mb, KeyClass::Pawn, sq, piece, 64);
            lemma_fold_drop(mb, KeyClass::NonPawn(Colour::White), sq, piece, 64);
            lemma_fold_drop(mb, KeyClass::NonPawn(Colour::Black), sq, piece, 64);
            lemma_fold_drop(mb, KeyClass::Minor, sq, piece, 64);
            lemma_fold_drop(mb, KeyClass::Major, sq, piece, 64);
            lemma_full_key_shift(
                mb,
                mb2,
                piece_key(piece, sq),
                self.side,
                self.ep_sq,
                self.castle_perm,
            );
        }
        self.pieces.set_piece_at(sq, piece);
        self.piece_array[sq.index() as usize] = Some(piece);
        self.toggle_keys(sq, piece);
        buf.add_piece(sq, piece);
    }

    fn toggle_keys(&mut self, sq: Square, piece: Piece)
        ensures
            final(self).keys.zobrist == old(self).keys.zobrist ^ piece_key(piece, sq),
            final(self).keys.pawn == if counts(KeyClass::Pawn, piece) {
                old(self).keys.pawn ^ piece_key(piece, sq)
            } else {
                old(self).keys.pawn
            },
            final(self).keys.non_pawn_white == if counts(KeyClass::NonPawn(Colour::White), piece) {
                old(self).keys.non_pawn_white ^ piece_key(piece, sq)
            } else {
                old(self).keys.non_pawn_white
            },
            final(self).keys.non_pawn_black == if counts(KeyClass::NonPawn(Colour::Black), piece) {
                old(self).keys.non_pawn_black ^ piece_key(piece, sq)
            } else {
                old(self).keys.non_pawn_black
            },
            final(self).keys.minor == if counts(KeyClass::Minor, piece) {
                old(self).keys.minor ^ piece_key(piece, sq)
            } else {
                old(self).keys.minor
            },
            final(self).keys.major == if counts(KeyClass::Major, piece) {
                old(self).keys.major ^ piece_key(piece, sq)
            } else {
                old(self).keys.major
            },
            *final(self) == (Board { keys: final(self).keys, ..*old(self) }),
    {
        let mut keys = self.keys;
        hash_piece(&mut keys.zobrist, piece, sq);
        if piece.piece_type() == PieceType::Pawn {
            hash_piece(&mut keys.pawn, piece, sq);
        } else {
            match piece.colour() {
                Colour::White => hash_piece(&mut keys.non_pawn_white, piece, sq),
                Colour::Black => hash_piece(&mut keys.non_pawn_black, piece, sq),
            }
            if piece.piece_type() == PieceType::King {
                hash_piece(&mut keys.major, piece, sq);
                hash_piece(&mut keys.minor, piece, sq);
            } else if piece.piece_type() == PieceType::Queen || piece.piece_type()
                == PieceType::Rook {
                hash_piece(&mut keys.major, piece, sq);
            } else {
                hash_piece(&mut keys.minor, piece, sq);
            }
        }
        self.keys = keys;
    }
}


/// Where king and rook end when they castle.
pub proof fn lemma_homes(side: Colour)
    ensures
        king_home(side, true).idx() == (if side == Colour::White { 6int } else { 62 }),
        king_home(side, false).idx() == (if side == Colour::White { 2int } else { 58 }),
        rook_home(side, true).idx() == (if side == Colour::White { 5int } else { 61 }),
        rook_home(side, false).idx() == (if side == Colour::White { 3int } else { 59 }),
{
    reveal(Square::idx);
    reveal(Square::at);
}

impl Board {
    fn shift_castle(&mut self, m: Move, piece: Piece, buf: &mut UpdateBuffer) -> (ok: bool)
        requires
            old(self).placed_ok(),
            old(self).keys == keys_of(
                old(self).piece_array@,
                old(self).side,
                old(self).ep_sq,
                old(self).castle_perm,
            ),
            old(self).at(m.origin()) == Some(piece),
            piece.side() == old(self).side,
            m.castles(),
            old(buf).add_count == 0,
            old(buf).sub_count == 0,
            old(buf).adds_view() == Seq::<FeatureUpdate>::empty(),
            old(buf).subs_view() == Seq::<FeatureUpdate>::empty(),
        ensures
            ok == old(self).applicable(m),
            !ok ==> *final(self) == *old(self),
            ok ==> final(self).piece_array@ == old(self).mailbox_after(m),
            ok ==> agree(final(self).pieces, final(self).piece_array@),
            ok ==> final(self).keys == keys_of(
                final(self).piece_array@,
                old(self).side,
                old(self).ep_sq,
                old(self).castle_perm,
            ),
            *final(self) == (Board {
                pieces: final(self).pieces,
                piece_array: final(self).piece_array,
                keys: final(self).keys,
                ..*old(self)
            }),
            ok ==> final(buf).adds_view() == old(self).adds_of(m),
            ok ==> final(buf).subs_view() == old(self).subs_of(m),
            final(buf).wf(),
    {
        let from = m.from();
        let to = m.to();
        let side = self.side;
        if piece.piece_type() != PieceType::King {
            return false;
        }
        let kingside = if Some(to) == self.castle_perm.kingside(side) {
            true
        } else if Some(to) == self.castle_perm.queenside(side) {
            false
        } else {
            return false;
        };
        let rook = Piece::new(side, PieceType::Rook);
        if self.piece_at(to) != Some(rook) {
            return false;
        }
        let kd = (if kingside { Square::G1 } else { Square::C1 }).relative_to(side);
        let rd = (if kingside { Square::F1 } else { Square::D1 }).relative_to(side);
        proof {
            lemma_homes(side);
        }
        if !(self.piece_at(kd).is_none() || kd == from || kd == to) {
            return false;
        }
        if !(self.piece_at(rd).is_none() || rd == from || rd == to) {
            return false;
        }
        if from != kd {
            self.lift(from, piece, buf);
        }
        if to != rd {
            self.lift(to, rook, buf);
        }
        if from != kd {
            self.put_down(kd, piece, buf);
        }
        if to != rd {
            self.put_down(rd, rook, buf);
        }
        proof {
            assert(buf.subs_view() =~= old(self).subs_of(m));
            assert(buf.adds_view() =~= old(self).adds_of(m));
        }
        true
    }

    fn shift_plain(&mut self, m: Move, piece: Piece, buf: &mut UpdateBuffer) -> (ok: bool)
        requires
            old(self).placed_ok(),
            old(self).keys == keys_of(
                old(self).piece_array@,
                old(self).side,
                old(self).ep_sq,
                old(self).castle_perm,
            ),
            old(self).at(m.origin()) == Some(piece),
            piece.side() == old(self).side,
            !m.castles(),
            old(buf).add_count == 0,
            old(buf).sub_count == 0,
            old(buf).adds_view() == Seq::<FeatureUpdate>::empty(),
            old(buf).subs_view() == Seq::<FeatureUpdate>::empty(),
        ensures
            ok == old(self).applicable(m),
            !ok ==> *final(self) == *old(self),
            ok ==> final(self).piece_array@ == old(self).mailbox_after(m),
            ok ==> agree(final(self).pieces, final(self).piece_array@),
            ok ==> final(self).keys == keys_of(
                final(self).piece_array@,
                old(self).side,
                old(self).ep_sq,
                old(self).castle_perm,
            ),
            *final(self) == (Board {
                pieces: final(self).pieces,
                piece_array: final(self).piece_array,
                keys: final(self).keys,
                ..*old(self)
            }),
            ok ==> final(buf).adds_view() == old(self).adds_of(m),
            ok ==> final(buf).subs_view() == old(self).subs_of(m),
            final(buf).wf(),
    {
        let from = m.from();
        let to = m.to();
        let side = self.side;
        let captured = self.piece_at(to);
        match captured {
            Some(c) => {
                if c.colour() == side || c.piece_type() == PieceType::King {
                    return false;
                }
            },
            None => {},
        }
        let enemy_pawn = Piece::new(side.flip(), PieceType::Pawn);
        let mut ep_victim: Option<Square> = None;
        if m.is_ep() {
            if piece.piece_type() != PieceType::Pawn || captured.is_some() {
                return false;
            }
            match to.pawn_push(side.flip()) {
                Some(v) => {
                    if self.piece_at(v) != Some(enemy_pawn) {
                        return false;
                    }
                    ep_victim = Some(v);
                },
                None => {
                    return false;
                },
            }
        }
        if m.is_promo() && piece.piece_type() != PieceType::Pawn {
            return false;
        }
        self.lift(from, piece, buf);
        if let Some(v) = ep_victim {
            self.lift(v, enemy_pawn, buf);
        }
        if let Some(c) = captured {
            self.lift(to, c, buf);
        }
        let arriving = match m.promotion_type() {
            Some(kind) => Piece::new(side, kind),
            None => piece,
        };
        self.put_down(to, arriving, buf);
        proof {
            assert(buf.subs_view() =~= old(self).subs_of(m));
            assert(buf.adds_view() =~= old(self).adds_of(m));
        }
        true
    }

    /// Makes `m` and records in `update_buffer` what it changed on the board. Returns
    /// whether the move was made: a move that cannot be carried out, or that leaves the
    /// king of the side that makes it attacked, is not made, and the board is then as it
    /// was.
    pub fn make_move_base(&mut self, m: Move, update_buffer: &mut UpdateBuffer) -> (applied: bool)
        requires
            old(self).wf(),
            old(self).has_room(),
        ensures
            applied == (old(self).applicable(m) && old(self).king_safe_after(m)),
            !applied ==> *final(self) == *old(self),
            applied ==> Board::made(*old(self), m, *final(self)),
            applied ==> final(update_buffer).adds_view() == old(self).adds_of(m),
            applied ==> final(update_buffer).subs_view() == old(self).subs_of(m),
            final(update_buffer).wf(),
    {
        update_buffer.clear();
        let from = m.from();
        let to = m.to();
        let side = self.side;
        let piece = match self.moved_piece(m) {
            Some(p) => p,
            None => {
                return false;
            },
        };
        if piece.colour() != side {
            return false;
        }
        let captured = self.captured_piece(m);
        let is_double_push = self.is_double_pawn_push(m);
        let saved_state = Undo {
            castle_perm: self.castle_perm,
            ep_square: self.ep_sq,
            fifty_move_counter: self.fifty_move_counter,
            threats: self.threats,
            cont_hist_index: Some(ContHistIndex { piece, square: m.history_to_square() }),
            piece_layout: self.pieces,
            piece_array: self.piece_array,
            keys: self.keys,
        };
        let mut landing = to;
        if m.is_castle() {
            if !self.shift_castle(m, piece, update_buffer) {
                return false;
            }
            let kingside = Some(to) == self.castle_perm.kingside(side);
            landing = (if kingside { Square::G1 } else { Square::C1 }).relative_to(side);
        } else {
            if !self.shift_plain(m, piece, update_buffer) {
                return false;
            }
        }
        proof {
            lemma_layout_of(self.pieces, self.piece_array@);
            old(self).lemma_kings_after(m);
        }

        self.fifty_move_counter = if captured.is_some() || piece.piece_type() == PieceType::Pawn {
            0
        } else {
            self.fifty_move_counter + 1
        };
        self.ep_sq = None;
        if is_double_push {
            let t = to.as_set();
            let beside = t.west_one().union(t.east_one());
            if beside.intersection(self.pieces.all_pawns()).intersection(
                self.pieces.occupied_co(side.flip()),
            ).non_empty() {
                self.ep_sq = from.pawn_push(side);
            }
        }
        self.side = side.flip();

        let our_king = self.king_sq(side);
        if self.sq_attacked(our_king, self.side) {
            self.side = side;
            self.ep_sq = saved_state.ep_square;
            self.fifty_move_counter = saved_state.fifty_move_counter;
            self.pieces = saved_state.piece_layout;
            self.piece_array = saved_state.piece_array;
            self.keys = saved_state.keys;
            return false;
        }
        self.settle(saved_state, piece, from, landing);
        true
    }

    fn settle(&mut self, saved_state: Undo, piece: Piece, from: Square, landing: Square)
        requires
            old(self).placed_ok(),
            old(self).keyed_as(
                old(self).side.flipped(),
                saved_state.ep_square,
                old(self).castle_perm,
            ),
            old(self).ply < usize::MAX,
            old(self).height < usize::MAX,
        ensures
            final(self).wf(),
            final(self).castle_perm == rights_shift(old(self).castle_perm, piece, from, landing),
            final(self).ply == old(self).ply + 1,
            final(self).height == old(self).height + 1,
            final(self).history@ == old(self).history@.push(saved_state),
            final(self).piece_array == old(self).piece_array,
            final(self).side == old(self).side,
            final(self).ep_sq == old(self).ep_sq,
            final(self).fifty_move_counter == old(self).fifty_move_counter,
            final(self).chess960 == old(self).chess960,
    {
        let ghost mb = self.piece_array@;
        let ghost f = fold_keys(mb, KeyClass::All, 64);
        let ghost s0 = if self.side == Colour::Black { side_key() } else { 0 };
        let ghost e0 = match saved_state.ep_square {
            Some(sq) => ep_key(sq.idx() % 8),
            None => 0,
        };
        let ghost c0 = castling_key(self.castle_perm.mask());

        let mut key = self.keys.zobrist;
        match saved_state.ep_square {
            Some(ep_sq) => hash_ep(&mut key, ep_sq),
            None => {},
        }
        hash_castling(&mut key, self.castle_perm);

        let mut new_rights = self.castle_perm;
        if piece == Piece::WR {
            if Some(from) == self.castle_perm.wk {
                new_rights.wk = None;
            } else if Some(from) == self.castle_perm.wq {
                new_rights.wq = None;
            }
        } else if piece == Piece::BR {
            if Some(from) == self.castle_perm.bk {
                new_rights.bk = None;
            } else if Some(from) == self.castle_perm.bq {
                new_rights.bq = None;
            }
        } else if piece == Piece::WK {
            new_rights.wk = None;
            new_rights.wq = None;
        } else if piece == Piece::BK {
            new_rights.bk = None;
            new_rights.bq = None;
        }
        new_rights.remove(landing);
        self.castle_perm = new_rights;

        match self.ep_sq {
            Some(ep_sq) => hash_ep(&mut key, ep_sq),
            None => {},
        }
        hash_side(&mut key);
        hash_castling(&mut key, self.castle_perm);
        self.keys.zobrist = key;
        proof {
            let e1 = match self.ep_sq {
                Some(sq) => ep_key(sq.idx() % 8),
                None => 0,
            };
            let c1 = castling_key(self.castle_perm.mask());
            lemma_xor_moves(f, 0, 0);
            lemma_xor_moves(f ^ s0, 0, 0);
            lemma_xor_moves(f ^ (s0 ^ side_key()), 0, 0);
            lemma_xor_moves(((f ^ s0) ^ e0) ^ c0, 0, 0);
            lemma_xor_moves(((((f ^ s0) ^ e0) ^ c0) ^ e0) ^ c0, 0, 0);
            lemma_meta_shift(f, s0, e0, c0, e1, side_key(), c1);
        }

        self.ply = self.ply + 1;
        self.height = self.height + 1;
        self.threats = self.generate_threats(self.side.flip());
        self.history.push(saved_state);
    }

    /// Once an applicable move is made, each side still has exactly one king.
    pub proof fn lemma_kings_after(&self, m: Move)
        requires
            self.placed_ok(),
            self.applicable(m),
        ensures
            one_king(layout_of(self.mailbox_after(m)), Colour::White),
            one_king(layout_of(self.mailbox_after(m)), Colour::Black),
    {
        let mb = self.piece_array@;
        let mb2 = self.mailbox_after(m);
        let l = layout_of(mb2);
        lemma_layout_of(l, mb2);
        lemma_homes(self.side);
        let us = self.side;
        let them = self.side.flipped();
        let their_king = king_place(self.pieces, them);
        let our_king = king_place(self.pieces, us);
        let piece = self.at(m.origin())->0;
        assert(self.pieces.has(Piece::of(them, PieceType::King), their_king));
        assert(self.pieces.has(Piece::of(us, PieceType::King), our_king));
        assert forall|s: Square| #[trigger]
            l.has(Piece::of(them, PieceType::King), s) == (s == their_king) by {
            assert(self.pieces.has(Piece::of(them, PieceType::King), s) == (s == their_king));
        }
        lemma_one_king(l, them, their_king);
        let k2 = if piece.kind() == PieceType::King {
            self.landing(m)
        } else {
            our_king
        };
        assert forall|s: Square| #[trigger] l.has(Piece::of(us, PieceType::King), s) == (s == k2) by {
            assert(self.pieces.has(Piece::of(us, PieceType::King), s) == (s == our_king));
            assert(self.pieces.has(Piece::of(us, PieceType::King), m.origin()) == (m.origin()
                == our_king));
        }
        lemma_one_king(l, us, k2);
    }
}


impl Board {
    /// Makes `m` without keeping what it changed on the board. Returns whether the move
    /// was made.
    pub fn make_move_simple(&mut self, m: Move) -> (applied: bool)
        requires
            old(self).wf(),
            old(self).has_room(),
        ensures
            applied == (old(self).applicable(m) && old(self).king_safe_after(m)),
            !applied ==> *final(self) == *old(self),
            applied ==> Board::made(*old(self), m, *final(self)),
    {
        let mut update_buffer = UpdateBuffer::new();
        self.make_move_base(m, &mut update_buffer)
    }

    /// Takes back the last move made.
    pub fn unmake_move_base(&mut self)
        requires
            old(self).history@.len() > 0,
            old(self).height > 0,
            old(self).ply > 0,
        ensures
            Board::unmade(*old(self), *final(self)),
    {
        let undo = self.history.pop().unwrap();
        self.height = self.height - 1;
        self.ply = self.ply - 1;
        self.side = self.side.flip();
        self.keys = undo.keys;
        self.castle_perm = undo.castle_perm;
        self.ep_sq = undo.ep_square;
        self.fifty_move_counter = undo.fifty_move_counter;
        self.threats = undo.threats;
        self.pieces = undo.piece_layout;
        self.piece_array = undo.piece_array;
    }

    /// Whether `u` is what a null move keeps of `pre`: the en-passant square, the
    /// threats and the full hash, and nothing else.
    pub open spec fn null_record(pre: Board, u: Undo) -> bool {
        &&& u.ep_square == pre.ep_sq
        &&& u.threats == pre.threats
        &&& u.keys == (Keys {
            zobrist: pre.keys.zobrist,
            pawn: 0,
            non_pawn_white: 0,
            non_pawn_black: 0,
            minor: 0,
            major: 0,
        })
        &&& u.castle_perm == CastlingRights::none_spec()
        &&& u.fifty_move_counter == 0
        &&& u.cont_hist_index == None::<ContHistIndex>
        &&& u.piece_layout == PieceLayout::new_spec()
        &&& forall|i: int| 0 <= i < 64 ==> u.piece_array@[i] == None::<Piece>
    }

    /// Whether `post` is the board that passing the move on `pre` leaves: the other
    /// side is to move, there is no en-passant square, the counters of half moves played
    /// go up by one, and hashes and threats follow.
    pub open spec fn nulled(pre: Board, post: Board) -> bool {
        &&& post.wf()
        &&& post.pieces == pre.pieces
        &&& post.piece_array == pre.piece_array
        &&& post.side == pre.side.flipped()
        &&& post.ep_sq == None::<Square>
        &&& post.castle_perm == pre.castle_perm
        &&& post.fifty_move_counter == pre.fifty_move_counter
        &&& post.ply == pre.ply + 1
        &&& post.height == pre.height + 1
        &&& post.history@.len() == pre.history@.len() + 1
        &&& post.history@.drop_last() == pre.history@
        &&& Board::null_record(pre, post.history@.last())
        &&& post.chess960 == pre.chess960
    }

    /// Whether `post` is the board that taking back a null move of `pre` leaves.
    pub open spec fn unnulled(pre: Board, post: Board) -> bool {
        let u = pre.history@.last();
        &&& post.pieces == pre.pieces
        &&& post.piece_array == pre.piece_array
        &&& post.side == pre.side.flipped()
        &&& post.ep_sq == u.ep_square
        &&& post.castle_perm == pre.castle_perm
        &&& post.fifty_move_counter == pre.fifty_move_counter
        &&& post.ply == pre.ply - 1
        &&& post.keys == (Keys { zobrist: u.keys.zobrist, ..pre.keys })
        &&& post.threats == u.threats
        &&& post.height == pre.height - 1
        &&& post.history@ == pre.history@.drop_last()
        &&& post.chess960 == pre.chess960
    }

    /// Passes the move: the other side is to move in the same position.
    pub fn make_nullmove(&mut self)
        requires
            old(self).wf(),
            old(self).ply < usize::MAX,
            old(self).height < usize::MAX,
        ensures
            Board::nulled(*old(self), *final(self)),
    {
        let undo = Undo {
            castle_perm: CastlingRights::none(),
            ep_square: self.ep_sq,
            fifty_move_counter: 0,
            threats: self.threats,
            cont_hist_index: None,
            piece_layout: PieceLayout::new(),
            piece_array: [None;64],
            keys: Keys {
                zobrist: self.keys.zobrist,
                pawn: 0,
                non_pawn_white: 0,
                non_pawn_black: 0,
                minor: 0,
                major: 0,
            },
        };
        proof {
            undo.piece_layout.lemma_same(PieceLayout::new_spec());
        }
        let ghost f = fold_keys(self.piece_array@, KeyClass::All, 64);
        let ghost s0 = if self.side == Colour::White { side_key() } else { 0 };
        let ghost e0 = match self.ep_sq {
            Some(sq) => ep_key(sq.idx() % 8),
            None => 0,
        };
        let ghost c0 = castling_key(self.castle_perm.mask());
        let mut key = self.keys.zobrist;
        match self.ep_sq {
            Some(ep_sq) => hash_ep(&mut key, ep_sq),
            None => {},
        }
        hash_side(&mut key);
        self.keys.zobrist = key;
        proof {
            lemma_xor_moves(f, 0, 0);
            lemma_xor_moves(f ^ s0, 0, 0);
            lemma_xor_moves(f ^ (s0 ^ side_key()), 0, 0);
            lemma_xor_moves(((f ^ s0) ^ e0) ^ c0, 0, 0);
            lemma_meta_shift(f, s0, e0, c0, 0, side_key(), 0);
        }
        self.ep_sq = None;
        self.side = self.side.flip();
        self.ply = self.ply + 1;
        self.height = self.height + 1;
        self.threats = self.generate_threats(self.side.flip());
        self.history.push(undo);
        proof {
            assert(self.history@.drop_last() =~= old(self).history@);
        }
    }

    /// Takes back a null move.
    pub fn unmake_nullmove(&mut self)
        requires
            old(self).history@.len() > 0,
            old(self).height > 0,
            old(self).ply > 0,
        ensures
            Board::unnulled(*old(self), *final(self)),
    {
        self.height = self.height - 1;
        self.ply = self.ply - 1;
        self.side = self.side.flip();
        let undo = self.history.pop().unwrap();
        self.ep_sq = undo.ep_square;
        self.threats = undo.threats;
        self.keys.zobrist = undo.keys.zobrist;
    }

    /// Whether the last move made and not taken back was a null move: its record keeps
    /// no king.
    pub fn last_move_was_nullmove(&self) -> (r: bool)
        ensures
            r == (self.history@.len() > 0 && self.history@.last().piece_layout.kind_bits(
                PieceType::King,
            ) == 0),
    {
        let n = self.history.len();
        if n > 0 {
            self.history[n - 1].piece_layout.all_kings().is_empty()
        } else {
            false
        }
    }

    /// A guess at the full hash after `m`, made without making it: the side changes,
    /// the moved piece leaves its origin and stands on the target, and what stood on the
    /// target is gone. The guess is wrong for castling, promotions and en-passant
    /// captures, and wherever en-passant square or castling rights change.
    pub open spec fn guessed_key(&self, m: Move) -> u64 {
        let piece = self.at(m.origin())->0;
        let a = ((self.keys.zobrist ^ side_key()) ^ piece_key(piece, m.origin())) ^ piece_key(
            piece,
            m.target(),
        );
        match self.at(m.target()) {
            Some(c) => a ^ piece_key(c, m.target()),
            None => a,
        }
    }

    /// A guess at the full hash after `m`, made without making it.
    pub fn key_after(&self, m: Move) -> (r: u64)
        requires
            self.at(m.origin()) is Some,
        ensures
            r == self.guessed_key(m),
    {
        let src = m.from();
        let tgt = m.to();
        let piece = self.moved_piece(m).unwrap();
        let captured = self.piece_at(tgt);
        let mut new_key = self.keys.zobrist;
        hash_side(&mut new_key);
        hash_piece(&mut new_key, piece, src);
        hash_piece(&mut new_key, piece, tgt);
        match captured {
            Some(c) => hash_piece(&mut new_key, c, tgt),
            None => {},
        }
        new_key
    }

    /// The full hash after a null move where there is no en-passant square.
    pub fn key_after_null_move(&self) -> (r: u64)
        ensures
            r == self.keys.zobrist ^ side_key(),
    {
        let mut new_key = self.keys.zobrist;
        hash_side(&mut new_key);
        new_key
    }

    /// Taking back a move that was made leaves the board as it was before the move:
    /// every field, every hash and the threats.
    pub proof fn lemma_make_unmake(pre: Board, m: Move, mid: Board, post: Board)
        requires
            Board::made(pre, m, mid),
            Board::unmade(mid, post),
        ensures
            post.same_state(pre),
    {
        assert(mid.history@.drop_last() =~= pre.history@);
    }

    /// Taking back a null move leaves the board as it was before it.
    pub proof fn lemma_null_unnull(pre: Board, mid: Board, post: Board)
        requires
            pre.wf(),
            Board::nulled(pre, mid),
            Board::unnulled(mid, post),
        ensures
            post.same_state(pre),
    {
    }

    /// A move that was made leaves hashes that are those of the new position computed
    /// from nothing, and threats that are those of the side that moved.
    pub proof fn lemma_made_sound(pre: Board, m: Move, post: Board)
        requires
            Board::made(pre, m, post),
        ensures
            post.keys == keys_of(post.piece_array@, post.side, post.ep_sq, post.castle_perm),
            post.threats == threats_of(post.pieces, post.side.flipped()),
            post.pieces == layout_of(post.piece_array@),
    {
        lemma_layout_of(post.pieces, post.piece_array@);
    }

    /// Whether `boards` is a game in which `moves` were made one after the other.
    pub open spec fn played(boards: Seq<Board>, moves: Seq<Move>) -> bool {
        &&& boards.len() == moves.len() + 1
        &&& forall|i: int|
            0 <= i < moves.len() ==> Board::made(#[trigger] boards[i], moves[i], boards[i + 1])
    }

    /// After any line of moves made from a sound position, the hashes of every position
    /// on the way are those of the position computed from nothing.
    pub proof fn lemma_keys_along(boards: Seq<Board>, moves: Seq<Move>, k: int)
        requires
            Board::played(boards, moves),
            boards[0].wf(),
            0 <= k <= moves.len(),
        ensures
            boards[k].wf(),
            boards[k].keys == keys_of(
                boards[k].piece_array@,
                boards[k].side,
                boards[k].ep_sq,
                boards[k].castle_perm,
            ),
    {
        if k > 0 {
            assert(Board::made(boards[k - 1], moves[k - 1], boards[k - 1 + 1]));
        }
    }
}


proof fn lemma_guess_bv(k: u64, sk: u64, pf: u64, pt: u64, pc: u64)
    by (bit_vector)
    ensures
        (((k ^ pf) ^ pc) ^ pt) ^ sk == (((k ^ sk) ^ pf) ^ pt) ^ pc,
        ((k ^ pf) ^ pt) ^ sk == ((k ^ sk) ^ pf) ^ pt,
{
}

proof fn lemma_side_flip(
    mb: Seq<Option<Piece>>,
    side: Colour,
    ep: Option<Square>,
    rights: CastlingRights,
)
    ensures
        full_key(mb, side.flipped(), ep, rights) == full_key(mb, side, ep, rights) ^ side_key(),
{
    let f = fold_keys(mb, KeyClass::All, 64);
    let sk = side_key();
    let e0 = match ep {
        Some(sq) => ep_key(sq.idx() % 8),
        None => 0,
    };
    let c0 = castling_key(rights.mask());
    lemma_xor_moves(f, sk, 0);
    lemma_xor_moves(f ^ sk, 0, 0);
    lemma_xor_moves(f, e0, sk);
    lemma_xor_moves(f ^ e0, c0, sk);
    lemma_xor_moves((f ^ sk) ^ e0, c0, sk);
    lemma_xor_moves(f ^ sk, e0, sk);
    lemma_xor_moves((f ^ e0) ^ c0, sk, 0);
    lemma_xor_moves(f ^ c0, sk, 0);
    lemma_xor_moves(f, c0, sk);
    lemma_xor_moves(f ^ sk, c0, sk);
}

impl Board {
    /// The guess at the hash after a move is right for a plain move that was made,
    /// where there was no en-passant square before it, there is none after it, and the
    /// castling rights stay as they were.
    pub proof fn lemma_key_after(pre: Board, m: Move, post: Board)
        requires
            pre.wf(),
            Board::made(pre, m, post),
            pre.applicable(m),
            m.tag() == 0,
            pre.ep_sq is None,
            post.ep_sq is None,
            post.castle_perm == pre.castle_perm,
        ensures
            post.keys.zobrist == pre.guessed_key(m),
    {
        let mb = pre.piece_array@;
        let from = m.origin();
        let to = m.target();
        let piece = pre.at(from)->0;
        let side = pre.side;
        let r = pre.castle_perm;
        let a = mb.update(from.idx(), None);
        lemma_fold_lift(mb, KeyClass::All, from, piece, 64);
        lemma_full_key_shift(mb, a, piece_key(piece, from), side, None, r);
        let k = pre.keys.zobrist;
        match pre.at(to) {
            Some(c) => {
                let b = a.update(to.idx(), None);
                lemma_fold_lift(a, KeyClass::All, to, c, 64);
                lemma_full_key_shift(a, b, piece_key(c, to), side, None, r);
                let d = b.update(to.idx(), Some(piece));
                lemma_fold_drop(b, KeyClass::All, to, piece, 64);
                lemma_full_key_shift(b, d, piece_key(piece, to), side, None, r);
                assert(d == pre.mailbox_after(m));
                lemma_side_flip(d, side, None, r);
                lemma_guess_bv(
                    k,
                    side_key(),
                    piece_key(piece, from),
                    piece_key(piece, to),
                    piece_key(c, to),
                );
            },
            None => {
                let d = a.update(to.idx(), Some(piece));
                lemma_fold_drop(a, KeyClass::All, to, piece, 64);
                lemma_full_key_shift(a, d, piece_key(piece, to), side, None, r);
                assert(d == pre.mailbox_after(m));
                lemma_side_flip(d, side, None, r);
                lemma_guess_bv(k, side_key(), piece_key(piece, from), piece_key(piece, to), 0);
            },
        }
    }
}

} // verus!
