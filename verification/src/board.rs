use vstd::prelude::*;
use crate::attacks::{bishop_attacks, king_attacks, knight_attacks, pawn_attacks_of, rook_attacks};
use crate::bits::{bit, single, squares};
use crate::castling::CastlingRights;
use crate::chessmove::Move;
use crate::piecelayout::{PieceLayout, Threats};
use crate::position::{
    agree, attacked_by, attacked_squares, attacks_of_all, checking_pieces, fold_keys, full_key,
    keys_of, king_place, lemma_king_there, one_king, threats_of, KeyClass, Keys,
};
use crate::squareset::{SquareSet, RANK_2, RANK_4, RANK_5, RANK_7};
use crate::types::{Col, Colour, Piece, PieceType, Square};
use crate::zobrist::{hash_castling, hash_ep, hash_piece, hash_side};

verus! {

broadcast use crate::types::group_square;

/// A piece that came to stand on a square, or that left it.
#[derive(Clone, Copy, Debug, PartialEq, Eq, Structural)]
pub struct FeatureUpdate {
    pub sq: Square,
    pub piece: Piece,
}

/// The piece that a move moved, with the squares it left and went to.
#[derive(Clone, Copy, Debug, PartialEq, Eq, Structural)]
pub struct MovedPiece {
    pub from: Square,
    pub to: Square,
    pub piece: Piece,
}

/// What a move changed on the board: the pieces it put on squares and the pieces it
/// took off squares, at most four of each.
#[derive(Clone, Copy, Debug, PartialEq, Eq)]
pub struct UpdateBuffer {
    pub add: [FeatureUpdate; 4],
    pub add_count: usize,
    pub sub: [FeatureUpdate; 4],
    pub sub_count: usize,
}

impl UpdateBuffer {
    /// Whether the counts fit the buffer.
    pub open spec fn wf(&self) -> bool {
        self.add_count <= 4 && self.sub_count <= 4
    }

    /// The pieces put on squares, in the order they were recorded.
    pub open spec fn adds_view(&self) -> Seq<FeatureUpdate> {
        self.add@.take(self.add_count as int)
    }

    /// The pieces taken off squares, in the order they were recorded.
    pub open spec fn subs_view(&self) -> Seq<FeatureUpdate> {
        self.sub@.take(self.sub_count as int)
    }

    /// The buffer that records nothing.
    pub fn new() -> (r: UpdateBuffer)
        ensures
            r.wf(),
            r.adds_view() == Seq::<FeatureUpdate>::empty(),
            r.subs_view() == Seq::<FeatureUpdate>::empty(),
    {
        let z = FeatureUpdate { sq: Square::A1, piece: Piece::WP };
        let r = UpdateBuffer { add: [z; 4], add_count: 0, sub: [z; 4], sub_count: 0 };
        assert(r.adds_view() =~= Seq::<FeatureUpdate>::empty());
        assert(r.subs_view() =~= Seq::<FeatureUpdate>::empty());
        r
    }

    /// Forgets what was recorded.
    pub fn clear(&mut self)
        ensures
            final(self).wf(),
            final(self).adds_view() == Seq::<FeatureUpdate>::empty(),
            final(self).subs_view() == Seq::<FeatureUpdate>::empty(),
            final(self).add_count == 0,
            final(self).sub_count == 0,
    {
        self.add_count = 0;
        self.sub_count = 0;
        assert(self.adds_view() =~= Seq::<FeatureUpdate>::empty());
        assert(self.subs_view() =~= Seq::<FeatureUpdate>::empty());
    }

    /// Records that `piece` came to stand on `sq`.
    pub fn add_piece(&mut self, sq: Square, piece: Piece)
        requires
            old(self).add_count < 4,
            old(self).sub_count <= 4,
        ensures
            final(self).wf(),
            final(self).adds_view() == old(self).adds_view().push(FeatureUpdate { sq, piece }),
            final(self).subs_view() == old(self).subs_view(),
            final(self).add_count == old(self).add_count + 1,
            final(self).sub_count == old(self).sub_count,
    {
        let n = self.add_count;
        self.add[n] = FeatureUpdate { sq, piece };
        self.add_count = n + 1;
        assert(self.adds_view() =~= old(self).adds_view().push(FeatureUpdate { sq, piece }));
        assert(self.subs_view() =~= old(self).subs_view());
    }

    /// Records that `piece` left `sq`.
    pub fn clear_piece(&mut self, sq: Square, piece: Piece)
        requires
            old(self).sub_count < 4,
            old(self).add_count <= 4,
        ensures
            final(self).wf(),
            final(self).subs_view() == old(self).subs_view().push(FeatureUpdate { sq, piece }),
            final(self).adds_view() == old(self).adds_view(),
            final(self).sub_count == old(self).sub_count + 1,
            final(self).add_count == old(self).add_count,
    {
        let n = self.sub_count;
        self.sub[n] = FeatureUpdate { sq, piece };
        self.sub_count = n + 1;
        assert(self.subs_view() =~= old(self).subs_view().push(FeatureUpdate { sq, piece }));
        assert(self.adds_view() =~= old(self).adds_view());
    }

    /// Records that `piece` left `from` and came to stand on `to`.
    pub fn move_piece(&mut self, from: Square, to: Square, piece: Piece)
        requires
            old(self).sub_count < 4,
            old(self).add_count < 4,
        ensures
            final(self).wf(),
            final(self).subs_view() == old(self).subs_view().push(
                FeatureUpdate { sq: from, piece },
            ),
            final(self).adds_view() == old(self).adds_view().push(FeatureUpdate { sq: to, piece }),
            final(self).sub_count == old(self).sub_count + 1,
            final(self).add_count == old(self).add_count + 1,
    {
        self.clear_piece(from, piece);
        self.add_piece(to, piece);
    }

    /// The pieces put on squares, in the order they were recorded.
    pub fn adds(&self) -> (r: Vec<FeatureUpdate>)
        requires
            self.wf(),
        ensures
            r@ == self.adds_view(),
    {
        let mut r: Vec<FeatureUpdate> = Vec::new();
        let mut i: usize = 0;
        while i < self.add_count
            invariant
                self.wf(),
                i <= self.add_count,
                r@ == self.add@.take(i as int),
            decreases self.add_count - i,
        {
            r.push(self.add[i]);
            i = i + 1;
            assert(r@ =~= self.add@.take(i as int));
        }
        r
    }

    /// The pieces taken off squares, in the order they were recorded.
    pub fn subs(&self) -> (r: Vec<FeatureUpdate>)
        requires
            self.wf(),
        ensures
            r@ == self.subs_view(),
    {
        let mut r: Vec<FeatureUpdate> = Vec::new();
        let mut i: usize = 0;
        while i < self.sub_count
            invariant
                self.wf(),
                i <= self.sub_count,
                r@ == self.sub@.take(i as int),
            decreases self.sub_count - i,
        {
            r.push(self.sub[i]);
            i = i + 1;
            assert(r@ =~= self.sub@.take(i as int));
        }
        r
    }
}

/// The piece that a move moved and the square it went to: the first key of the
/// continuation history.
#[derive(Clone, Copy, Debug, PartialEq, Eq, Structural)]
pub struct ContHistIndex {
    pub piece: Piece,
    pub square: Square,
}

/// What is kept of a position when a move is made, so that the move can be taken back.
/// A null move keeps the en-passant square, the threats and the full hash only, and
/// leaves the layout without pieces.
#[derive(Clone, Copy, Debug, PartialEq, Eq)]
pub struct Undo {
    pub castle_perm: CastlingRights,
    pub ep_square: Option<Square>,
    pub fifty_move_counter: u8,
    pub threats: Threats,
    pub cont_hist_index: Option<ContHistIndex>,
    pub piece_layout: PieceLayout,
    pub piece_array: [Option<Piece>; 64],
    pub keys: Keys,
}

/// A chess position with the moves that led to it since it was set up.
#[derive(Clone, Debug, PartialEq, Eq)]
pub struct Board {
    /// The squares on which each piece stands.
    pub pieces: PieceLayout,
    /// The piece on each square.
    pub piece_array: [Option<Piece>; 64],
    /// The side to move.
    pub side: Colour,
    /// The square a pawn skipped with its double push on the move before, where a pawn
    /// of the side to move stands beside the pushed pawn.
    pub ep_sq: Option<Square>,
    /// The rooks that may still castle.
    pub castle_perm: CastlingRights,
    /// The number of half moves since the last capture or pawn move.
    pub fifty_move_counter: u8,
    /// The number of half moves since the start of the game.
    pub ply: usize,
    /// The hashes of the position.
    pub keys: Keys,
    /// What the side that is not to move attacks.
    pub threats: Threats,
    /// The number of half moves made since the root of the search.
    pub height: usize,
    /// One record for each move made and not taken back.
    pub history: Vec<Undo>,
    /// Whether the rules of Chess960 hold: castling rights are read by file letter,
    /// and a king may castle from any file.
    pub chess960: bool,
}

impl Board {
    /// The piece on `sq`.
    pub open spec fn at(&self, sq: Square) -> Option<Piece> {
        self.piece_array@[sq.idx()]
    }

    /// Whether the mailbox and the piece layout hold the same pieces, and each side has
    /// exactly one king.
    pub open spec fn placed_ok(&self) -> bool {
        &&& agree(self.pieces, self.piece_array@)
        &&& one_king(self.pieces, Colour::White)
        &&& one_king(self.pieces, Colour::Black)
    }

    /// Whether the position is sound: mailbox and layout agree, each side has one king,
    /// the hashes are those of the position computed from nothing, and the threats are
    /// those of the side that is not to move.
    pub open spec fn wf(&self) -> bool {
        &&& self.placed_ok()
        &&& self.keys == keys_of(self.piece_array@, self.side, self.ep_sq, self.castle_perm)
        &&& self.threats == threats_of(self.pieces, self.side.flipped())
    }

    /// A board without pieces, white to move.
    pub fn new() -> (r: Board)
        ensures
            r.is_blank(),
            r.chess960 == false,
    {
        let mut out = Board {
            pieces: PieceLayout::new(),
            piece_array: [None;64],
            side: Colour::White,
            ep_sq: None,
            castle_perm: CastlingRights::none(),
            fifty_move_counter: 0,
            ply: 0,
            keys: Keys {
                zobrist: 0,
                pawn: 0,
                non_pawn_white: 0,
                non_pawn_black: 0,
                minor: 0,
                major: 0,
            },
            threats: Threats::none(),
            height: 0,
            history: Vec::new(),
            chess960: false,
        };
        out.reset();
        out
    }

    /// Whether the board holds no piece, has white to move, and has every counter, hash
    /// and right at nothing.
    pub open spec fn is_blank(&self) -> bool {
        &&& self.pieces == PieceLayout::new_spec()
        &&& forall|i: int| 0 <= i < 64 ==> self.piece_array@[i] == None::<Piece>
        &&& agree(self.pieces, self.piece_array@)
        &&& self.side == Colour::White
        &&& self.ep_sq == None::<Square>
        &&& self.castle_perm == CastlingRights::none_spec()
        &&& self.fifty_move_counter == 0
        &&& self.ply == 0
        &&& self.height == 0
        &&& self.keys == (Keys {
            zobrist: 0,
            pawn: 0,
            non_pawn_white: 0,
            non_pawn_black: 0,
            minor: 0,
            major: 0,
        })
        &&& self.threats.all.inner == 0
        &&& self.threats.checkers.inner == 0
        &&& self.history@.len() == 0
    }

    /// Takes every piece off the board and sets every counter, hash and right to
    /// nothing. The rules in force stay.
    pub fn reset(&mut self)
        ensures
            final(self).is_blank(),
            final(self).chess960 == old(self).chess960,
    {
        self.pieces.reset();
        self.piece_array = [None;64];
        self.side = Colour::White;
        self.ep_sq = None;
        self.fifty_move_counter = 0;
        self.height = 0;
        self.ply = 0;
        self.castle_perm = CastlingRights::none();
        self.keys = Keys {
            zobrist: 0,
            pawn: 0,
            non_pawn_white: 0,
            non_pawn_black: 0,
            minor: 0,
            major: 0,
        };
        self.threats = Threats::none();
        self.history.clear();
        proof {
            assert(self.pieces == PieceLayout::new_spec());
            assert forall|i: int| 0 <= i < 64 implies self.piece_array@[i] == None::<Piece> by {
                vstd::array::axiom_spec_array_fill_for_copy_type::<Option<Piece>, 64>(None);
                assert(self.piece_array[i] == None::<Piece>);
            }
            assert forall|p: Piece, s: Square| #[trigger]
                self.pieces.has(p, s) == (self.piece_array@[s.idx()] == Some(p)) by {
                assert(self.pieces.bb(p) == 0);
                crate::bits::lemma_bit_zero(s.idx() as u64);
                assert(!bit(0u64, s.idx()));
                assert(self.piece_array@[s.idx()] == None::<Piece>);
            }
        }
    }

    /// Sets whether the rules of Chess960 hold.
    pub fn set_chess960(&mut self, on: bool)
        ensures
            *final(self) == (Board { chess960: on, ..*old(self) }),
    {
        self.chess960 = on;
    }

    /// The en-passant square.
    pub fn ep_sq(&self) -> (r: Option<Square>)
        ensures
            r == self.ep_sq,
    {
        self.ep_sq
    }

    /// The en-passant square, to be changed in place.
    pub fn ep_sq_mut(&mut self) -> (r: &mut Option<Square>)
        ensures
            *r == old(self).ep_sq,
            *final(self) == (Board { ep_sq: *final(r), ..*old(self) }),
    {
        &mut self.ep_sq
    }

    /// The side to move, to be changed in place.
    pub fn turn_mut(&mut self) -> (r: &mut Colour)
        ensures
            *r == old(self).side,
            *final(self) == (Board { side: *final(r), ..*old(self) }),
    {
        &mut self.side
    }

    /// The half-move counter, to be changed in place.
    pub fn halfmove_clock_mut(&mut self) -> (r: &mut u8)
        ensures
            *r == old(self).fifty_move_counter,
            *final(self) == (Board { fifty_move_counter: *final(r), ..*old(self) }),
    {
        &mut self.fifty_move_counter
    }

    /// The castling rights, to be changed in place.
    pub fn castling_rights_mut(&mut self) -> (r: &mut CastlingRights)
        ensures
            *r == old(self).castle_perm,
            *final(self) == (Board { castle_perm: *final(r), ..*old(self) }),
    {
        &mut self.castle_perm
    }

    /// Sets the number of half moves played from the number of the move to come.
    pub fn set_fullmove_clock(&mut self, fullmove_clock: u16)
        requires
            fullmove_clock >= 1,
        ensures
            final(self).ply == (fullmove_clock - 1) * 2 + (if old(self).side == Colour::Black {
                1int
            } else {
                0
            }),
            *final(self) == (Board { ply: final(self).ply, ..*old(self) }),
    {
        self.ply = (fullmove_clock as usize - 1) * 2 + (if self.side == Colour::Black {
            1
        } else {
            0
        });
    }

    /// The hash of everything.
    pub fn zobrist_key(&self) -> (r: u64)
        ensures
            r == self.keys.zobrist,
    {
        self.keys.zobrist
    }

    /// The hash of the pawns.
    pub fn pawn_key(&self) -> (r: u64)
        ensures
            r == self.keys.pawn,
    {
        self.keys.pawn
    }

    /// The hash of the pieces of `colour` other than pawns.
    pub fn non_pawn_key(&self, colour: Colour) -> (r: u64)
        ensures
            r == (match colour {
                Colour::White => self.keys.non_pawn_white,
                Colour::Black => self.keys.non_pawn_black,
            }),
    {
        match colour {
            Colour::White => self.keys.non_pawn_white,
            Colour::Black => self.keys.non_pawn_black,
        }
    }

    /// The hash of the minor pieces and kings.
    pub fn minor_key(&self) -> (r: u64)
        ensures
            r == self.keys.minor,
    {
        self.keys.minor
    }

    /// The hash of the major pieces and kings.
    pub fn major_key(&self) -> (r: u64)
        ensures
            r == self.keys.major,
    {
        self.keys.major
    }

    /// The five hashes: full, pawns, other pieces by side (white first), minor, major.
    pub fn all_keys(&self) -> (r: (u64, u64, [u64; 2], u64, u64))
        ensures
            r.0 == self.keys.zobrist,
            r.1 == self.keys.pawn,
            r.2@ == seq![self.keys.non_pawn_white, self.keys.non_pawn_black],
            r.3 == self.keys.minor,
            r.4 == self.keys.major,
    {
        let np: [u64; 2] = [self.keys.non_pawn_white, self.keys.non_pawn_black];
        assert(np@ =~= seq![self.keys.non_pawn_white, self.keys.non_pawn_black]);
        (self.keys.zobrist, self.keys.pawn, np, self.keys.minor, self.keys.major)
    }

    /// The number of pieces on the board.
    pub fn n_men(&self) -> (r: u8)
        ensures
            r == squares(self.pieces.occ()).len(),
    {
        self.pieces.occupied().count() as u8
    }

    /// The number of half moves since the start of the game.
    pub fn ply(&self) -> (r: usize)
        ensures
            r == self.ply,
    {
        self.ply
    }

    /// What the side that is not to move attacks.
    pub fn threats(&self) -> (r: &Threats)
        ensures
            *r == self.threats,
    {
        &self.threats
    }

    /// The square of the king of `side`.
    pub fn king_sq(&self, side: Colour) -> (r: Square)
        requires
            one_king(self.pieces, side),
        ensures
            r == king_place(self.pieces, side),
            self.pieces.has(Piece::of(side, PieceType::King), r),
    {
        proof {
            lemma_king_there(self.pieces, side);
        }
        self.pieces.king(side).first()
    }

    /// Whether the side to move is in check.
    pub fn in_check(&self) -> (r: bool)
        ensures
            r == (self.threats.checkers.inner != 0),
    {
        self.threats.checkers.non_empty()
    }

    /// Makes the position the root of the search.
    pub fn zero_height(&mut self)
        ensures
            *final(self) == (Board { height: 0, ..*old(self) }),
    {
        self.height = 0;
    }

    /// The number of half moves made since the root of the search.
    pub fn height(&self) -> (r: usize)
        ensures
            r == self.height,
    {
        self.height
    }

    /// The side to move.
    pub fn turn(&self) -> (r: Colour)
        ensures
            r == self.side,
    {
        self.side
    }

    /// The castling rights.
    pub fn castling_rights(&self) -> (r: CastlingRights)
        ensures
            r == self.castle_perm,
    {
        self.castle_perm
    }

    /// The number of half moves since the last capture or pawn move.
    pub fn fifty_move_counter(&self) -> (r: u8)
        ensures
            r == self.fifty_move_counter,
    {
        self.fifty_move_counter
    }

    /// The number of the move to come: one more than the full moves played.
    pub fn full_move_number(&self) -> (r: usize)
        ensures
            r == self.ply / 2 + 1,
    {
        self.ply / 2 + 1
    }

    /// The piece on `sq`.
    pub fn piece_at(&self, sq: Square) -> (r: Option<Piece>)
        ensures
            r == self.at(sq),
    {
        self.piece_array[sq.index() as usize]
    }

    /// The place in the mailbox that holds the piece on `sq`.
    pub fn piece_at_mut(&mut self, sq: Square) -> (r: &mut Option<Piece>)
        ensures
            *r == old(self).at(sq),
            final(self).piece_array@ == old(self).piece_array@.update(sq.idx(), *final(r)),
            *final(self) == (Board { piece_array: final(self).piece_array, ..*old(self) }),
    {
        &mut self.piece_array[sq.index() as usize]
    }

    /// Puts `piece` on `sq`, in the layout and in the mailbox.
    pub fn add_piece(&mut self, sq: Square, piece: Piece)
        ensures
            final(self).pieces == old(self).pieces.put(piece, sq),
            final(self).piece_array@ == old(self).piece_array@.update(sq.idx(), Some(piece)),
            *final(self) == (Board {
                pieces: final(self).pieces,
                piece_array: final(self).piece_array,
                ..*old(self)
            }),
            agree(old(self).pieces, old(self).piece_array@) && old(self).at(sq) is None ==> agree(
                final(self).pieces,
                final(self).piece_array@,
            ),
    {
        self.pieces.set_piece_at(sq, piece);
        self.piece_array[sq.index() as usize] = Some(piece);
    }

    /// The piece that `m` moves.
    pub fn moved_piece(&self, m: Move) -> (r: Option<Piece>)
        ensures
            r == self.at(m.origin()),
    {
        self.piece_at(m.from())
    }

    /// The piece that `m` would capture on its target. Castling captures nothing.
    pub open spec fn victim(&self, m: Move) -> Option<Piece> {
        if m.castles() {
            None
        } else {
            self.at(m.target())
        }
    }

    /// The piece that `m` would capture on its target. Castling captures nothing.
    pub fn captured_piece(&self, m: Move) -> (r: Option<Piece>)
        ensures
            r == self.victim(m),
    {
        if m.is_castle() {
            return None;
        }
        self.piece_at(m.to())
    }

    /// Whether `m` would capture a piece on its target.
    pub fn is_capture(&self, m: Move) -> (r: bool)
        ensures
            r == (self.victim(m) is Some),
    {
        self.captured_piece(m).is_some()
    }

    /// Whether `m` takes a pawn from the second or seventh rank to the fourth or fifth.
    pub open spec fn double_push(&self, m: Move) -> bool {
        &&& (m.origin().idx() / 8 == 1 || m.origin().idx() / 8 == 6)
        &&& (m.target().idx() / 8 == 3 || m.target().idx() / 8 == 4)
        &&& match self.at(m.origin()) {
            Some(p) => p.kind() == PieceType::Pawn,
            None => false,
        }
    }

    /// Whether `m` takes a pawn from the second or seventh rank to the fourth or fifth.
    pub fn is_double_pawn_push(&self, m: Move) -> (r: bool)
        ensures
            r == self.double_push(m),
    {
        let fr: u8 = m.from().index() / 8;
        if !(fr == 1 || fr == 6) {
            return false;
        }
        let tr: u8 = m.to().index() / 8;
        if !(tr == 3 || tr == 4) {
            return false;
        }
        match self.moved_piece(m) {
            Some(p) => p.piece_type() == PieceType::Pawn,
            None => false,
        }
    }

    /// Whether `m` promotes, captures en passant or captures on its target.
    pub fn is_tactical(&self, m: Move) -> (r: bool)
        ensures
            r == (m.promotes() || m.en_passant() || self.victim(m) is Some),
    {
        m.is_promo() || m.is_ep() || self.is_capture(m)
    }

    /// The five hashes of the position, computed from nothing.
    pub fn generate_pos_keys(&self) -> (r: Keys)
        ensures
            r == keys_of(self.piece_array@, self.side, self.ep_sq, self.castle_perm),
    {
        let mut key: u64 = 0;
        let mut pawn_key: u64 = 0;
        let mut npw: u64 = 0;
        let mut npb: u64 = 0;
        let mut minor_key: u64 = 0;
        let mut major_key: u64 = 0;
        let mut i: u8 = 0;
        let ghost mb = self.piece_array@;
        while i < 64
            invariant
                i <= 64,
                mb == self.piece_array@,
                key == fold_keys(mb, KeyClass::All, i as int),
                pawn_key == fold_keys(mb, KeyClass::Pawn, i as int),
                npw == fold_keys(mb, KeyClass::NonPawn(Colour::White), i as int),
                npb == fold_keys(mb, KeyClass::NonPawn(Colour::Black), i as int),
                minor_key == fold_keys(mb, KeyClass::Minor, i as int),
                major_key == fold_keys(mb, KeyClass::Major, i as int),
            decreases 64 - i,
        {
            let sq = Square::from_index(i).unwrap();
            match self.piece_array[i as usize] {
                Some(piece) => {
                    hash_piece(&mut key, piece, sq);
                    if piece.piece_type() == PieceType::Pawn {
                        hash_piece(&mut pawn_key, piece, sq);
                    } else {
                        match piece.colour() {
                            Colour::White => hash_piece(&mut npw, piece, sq),
                            Colour::Black => hash_piece(&mut npb, piece, sq),
                        }
                        if piece.piece_type() == PieceType::King {
                            hash_piece(&mut major_key, piece, sq);
                            hash_piece(&mut minor_key, piece, sq);
                        } else if piece.piece_type() == PieceType::Queen || piece.piece_type()
                            == PieceType::Rook {
                            hash_piece(&mut major_key, piece, sq);
                        } else {
                            hash_piece(&mut minor_key, piece, sq);
                        }
                    }
                },
                None => {},
            }
            i = i + 1;
        }
        if self.side == Colour::White {
            hash_side(&mut key);
        }
        match self.ep_sq {
            Some(ep_sq) => hash_ep(&mut key, ep_sq),
            None => {},
        }
        hash_castling(&mut key, self.castle_perm);
        Keys {
            zobrist: key,
            pawn: pawn_key,
            non_pawn_white: npw,
            non_pawn_black: npb,
            minor: minor_key,
            major: major_key,
        }
    }

    /// Sets the hashes to those of the position, computed from nothing.
    pub fn regenerate_zobrist(&mut self)
        ensures
            final(self).keys == keys_of(
                old(self).piece_array@,
                old(self).side,
                old(self).ep_sq,
                old(self).castle_perm,
            ),
            *final(self) == (Board { keys: final(self).keys, ..*old(self) }),
    {
        self.keys = self.generate_pos_keys();
    }

    /// Sets the threats to those of the side that is not to move.
    pub fn regenerate_threats(&mut self)
        requires
            one_king(old(self).pieces, Colour::White),
            one_king(old(self).pieces, Colour::Black),
        ensures
            final(self).threats == threats_of(old(self).pieces, old(self).side.flipped()),
            *final(self) == (Board { threats: final(self).threats, ..*old(self) }),
    {
        self.threats = self.generate_threats(self.side.flip());
    }

    /// What the pieces of `side` threaten.
    pub fn generate_threats(&self, side: Colour) -> (r: Threats)
        requires
            one_king(self.pieces, Colour::White),
            one_king(self.pieces, Colour::Black),
        ensures
            r == threats_of(self.pieces, side),
    {
        let their_pawns = self.pieces.pawns(side);
        let their_knights = self.pieces.knights(side);
        let their_diags = self.pieces.diags(side);
        let their_orthos = self.pieces.orthos(side);
        let their_king = self.king_sq(side);
        let blockers = self.pieces.occupied();

        let a = pawn_attacks_of(side, their_pawns);
        let b = attacks_of_all(a, PieceType::Knight, their_knights, blockers);
        let c = attacks_of_all(b, PieceType::Bishop, their_diags, blockers);
        let d = attacks_of_all(c, PieceType::Rook, their_orthos, blockers);
        let threats = d.union(king_attacks(their_king));

        let our_king = self.king_sq(side.flip());
        let king_bb = our_king.as_set();
        let backwards_from_king = pawn_attacks_of(side.flip(), king_bb);
        let c1 = backwards_from_king.intersection(their_pawns);
        let c2 = c1.union(knight_attacks(our_king).intersection(their_knights));
        let c3 = c2.union(bishop_attacks(our_king, blockers).intersection(their_diags));
        let checkers = c3.union(rook_attacks(our_king, blockers).intersection(their_orthos));
        Threats { all: threats, checkers }
    }

    /// What the pieces of the side `C` threaten.
    pub fn generate_threats_from<C: Col>(&self) -> (r: Threats)
        requires
            one_king(self.pieces, Colour::White),
            one_king(self.pieces, Colour::Black),
        ensures
            r == threats_of(self.pieces, C::side()),
    {
        self.generate_threats(C::colour())
    }

    /// Whether the board counts `sq` as attacked by `by`. For the side that is not to
    /// move the answer is read from the threats kept with the position; for the side
    /// to move it is worked out from the pieces.
    pub open spec fn sees_attack(&self, sq: Square, by: Colour) -> bool {
        if by != self.side {
            self.threats.all.has(sq)
        } else {
            attacked_by(self.pieces, sq, by)
        }
    }

    /// Whether `side` attacks `sq`.
    pub fn sq_attacked(&self, sq: Square, side: Colour) -> (r: bool)
        ensures
            r == self.sees_attack(sq, side),
    {
        if side != self.side {
            return self.threats.all.contains_square(sq);
        }
        let sq_bb = sq.as_set();
        let our_pawns = self.pieces.pawns(side);
        let our_knights = self.pieces.knights(side);
        let our_diags = self.pieces.diags(side);
        let our_orthos = self.pieces.orthos(side);
        let our_king = self.pieces.king(side);
        let blockers = self.pieces.occupied();

        if pawn_attacks_of(side, our_pawns).intersection(sq_bb).non_empty() {
            return true;
        }
        if our_knights.intersection(knight_attacks(sq)).non_empty() {
            return true;
        }
        if our_diags.intersection(bishop_attacks(sq, blockers)).non_empty() {
            return true;
        }
        if our_orthos.intersection(rook_attacks(sq, blockers)).non_empty() {
            return true;
        }
        if our_king.intersection(king_attacks(sq)).non_empty() {
            return true;
        }
        false
    }

    /// Whether the side `C` attacks `sq`.
    pub fn sq_attacked_by<C: Col>(&self, sq: Square) -> (r: bool)
        ensures
            r == self.sees_attack(sq, C::side()),
    {
        self.sq_attacked(sq, C::colour())
    }

    /// Whether `by` attacks any of `squares`.
    pub fn any_attacked(&self, squares: SquareSet, by: Colour) -> (r: bool)
        ensures
            r == if by != self.side {
                squares.inner & self.threats.all.inner != 0
            } else {
                exists|i: int|
                    0 <= i < squares@.len() && attacked_by(self.pieces, #[trigger] squares@[i], by)
            },
    {
        if by != self.side {
            squares.intersection(self.threats.all).non_empty()
        } else {
            let mut rest = squares;
            let ghost done: Seq<Square> = Seq::empty();
            proof {
                assert(squares@ =~= done + rest@);
            }
            while rest.inner != 0
                invariant
                    by == self.side,
                    squares@ == done + rest@,
                    forall|i: int|
                        0 <= i < done.len() ==> !attacked_by(self.pieces, #[trigger] done[i], by),
                decreases rest@.len(),
            {
                let sq = rest.pop_first();
                if self.sq_attacked(sq, by) {
                    proof {
                        assert(squares@[done.len() as int] == sq);
                    }
                    return true;
                }
                proof {
                    assert(squares@ =~= done.push(sq) + rest@);
                    done = done.push(sq);
                }
            }
            proof {
                crate::bits::lemma_squares_zero();
                assert(done =~= squares@);
            }
            false
        }
    }
}

} // verus!
