use vstd::prelude::*;
use crate::attacks::{attack_bits, attacks_by_type, between_bits, pawn_attack_bits, pawn_attacks_of, ray_between};
use crate::bits::{bit, single};
use crate::board::Board;
use crate::chessmove::Move;
use crate::makemove::{king_home, rook_home};
use crate::squareset::{SquareSet, RANK_1, RANK_8};
use crate::types::{Colour, Piece, PieceType, Square};

verus! {

broadcast use crate::types::group_square;

impl Board {
    /// Whether `m`, a castling move, can be played as far as the board tells: the king
    /// stands on its origin, origin and target are on the first rank of the side to
    /// move, the target is the rook that may castle on that wing, no third piece stands
    /// between king and rook, on the king's way or where king and rook end, and neither
    /// the king's square nor a square on its way is attacked. Whether the king ends on an
    /// attacked square is not asked.
    pub open spec fn castle_allowed(&self, m: Move) -> bool {
        let side = self.side;
        let from = m.origin();
        let to = m.target();
        let home = if side == Colour::White {
            RANK_1
        } else {
            RANK_8
        };
        let kingside = to.idx() > from.idx();
        let king_dst = king_home(side, kingside);
        let rook_dst = rook_home(side, kingside);
        let king_path = between_bits(from.idx(), king_dst.idx());
        let rook_path = between_bits(from.idx(), to.idx());
        let castle_occ = (self.pieces.occ() ^ single(from.idx())) ^ single(to.idx());
        &&& match self.at(from) {
            Some(p) => p.kind() == PieceType::King,
            None => false,
        }
        &&& single(to.idx()) & home != 0
        &&& single(from.idx()) & home != 0
        &&& Some(to) == (if kingside {
            self.castle_perm.kingside_of(side)
        } else {
            self.castle_perm.queenside_of(side)
        })
        &&& castle_occ & (((king_path | rook_path) | single(king_dst.idx())) | single(
            rook_dst.idx(),
        )) == 0
        &&& (king_path | single(from.idx())) & self.threats.all.inner == 0
    }

    /// Whether `m`, a move of a pawn of the side to move, moves as a pawn does. It
    /// promotes exactly when it reaches the first or the last rank. An en-passant
    /// capture goes to the en-passant square; a double push starts on the pawn's own
    /// second rank and crosses an empty square; a move to an empty square is one step
    /// ahead; a capture is one step diagonally ahead.
    pub open spec fn pawn_move_ok(&self, m: Move) -> bool {
        let side = self.side;
        let from = m.origin();
        let to = m.target();
        &&& m.promotes() == (to.idx() / 8 == 7 || to.idx() / 8 == 0)
        &&& if m.en_passant() {
            Some(to) == self.ep_sq
        } else if self.double_push(m) {
            &&& from.seen_by(side).idx() / 8 == 1
            &&& match from.pushed(side) {
                Some(one) => self.at(one) is None && Some(to) == one.pushed(side),
                None => false,
            }
        } else if self.victim(m) is None {
            Some(to) == from.pushed(side)
        } else {
            pawn_attack_bits(side, single(from.idx())) & single(to.idx()) != 0
        }
    }

    /// Whether `m` is pseudo-legal: a move that the piece on its origin can make by
    /// the way it moves, whether or not it leaves the king attacked. A piece of the side
    /// to move stands on the origin; what stands on the target, castling aside, is no
    /// piece of the side to move; only a pawn promotes, captures en passant or makes a
    /// double push, and a double push captures nothing; only a king castles.
    pub open spec fn pseudo_legal(&self, m: Move) -> bool {
        match self.at(m.origin()) {
            None => false,
            Some(p) => {
                &&& p.side() == self.side
                &&& match self.victim(m) {
                    Some(c) => c.side() != self.side && !self.double_push(m),
                    None => true,
                }
                &&& (p.kind() != PieceType::Pawn ==> !m.en_passant() && !m.promotes())
                &&& (m.castles() ==> p.kind() == PieceType::King)
                &&& if m.castles() {
                    self.castle_allowed(m)
                } else if p.kind() == PieceType::Pawn {
                    self.pawn_move_ok(m)
                } else {
                    single(m.target().idx()) & attack_bits(
                        p.kind(),
                        m.origin().idx(),
                        self.pieces.occ(),
                    ) != 0
                }
            },
        }
    }

    /// Whether `m`, a castling move, can be played as far as the board tells.
    pub fn is_pseudo_legal_castling(&self, m: Move) -> (r: bool)
        ensures
            r == self.castle_allowed(m),
    {
        let from = m.from();
        let to = m.to();
        let moved = match self.piece_at(from) {
            Some(p) => p,
            None => {
                return false;
            },
        };
        if moved.piece_type() != PieceType::King {
            return false;
        }
        let home_rank = if self.side == Colour::White {
            SquareSet { inner: RANK_1 }
        } else {
            SquareSet { inner: RANK_8 }
        };
        if to.as_set().intersection(home_rank).is_empty() {
            return false;
        }
        if from.as_set().intersection(home_rank).is_empty() {
            return false;
        }
        let kingside = to.index() > from.index();
        let right = if kingside {
            self.castle_perm.kingside(self.side)
        } else {
            self.castle_perm.queenside(self.side)
        };
        if Some(to) != right {
            return false;
        }
        let king_dst = (if kingside { Square::G1 } else { Square::C1 }).relative_to(self.side);
        let rook_dst = (if kingside { Square::F1 } else { Square::D1 }).relative_to(self.side);
        let king_path = ray_between(from, king_dst);
        let rook_path = ray_between(from, to);
        let castle_occ = self.pieces.occupied().toggled(from.as_set()).toggled(to.as_set());
        castle_occ.intersection(
            king_path.union(rook_path).union(king_dst.as_set()).union(rook_dst.as_set()),
        ).is_empty() && !self.any_attacked(king_path.union(from.as_set()), self.side.flip())
    }

    fn is_pseudo_legal_pawn(&self, m: Move) -> (r: bool)
        requires
            self.at(m.origin()) is Some,
        ensures
            r == self.pawn_move_ok(m),
    {
        let from = m.from();
        let to = m.to();
        let side = self.side;
        let tr: u8 = to.index() / 8;
        let should_be_promoting = tr == 7 || tr == 0;
        if should_be_promoting != m.is_promo() {
            return false;
        }
        if m.is_ep() {
            return Some(to) == self.ep_sq;
        }
        if self.is_double_pawn_push(m) {
            if from.relative_to(side).index() / 8 != 1 {
                return false;
            }
            let one_forward = match from.pawn_push(side) {
                Some(sq) => sq,
                None => {
                    return false;
                },
            };
            return self.piece_at(one_forward).is_none() && Some(to) == one_forward.pawn_push(side);
        }
        if self.captured_piece(m).is_none() {
            return Some(to) == from.pawn_push(side);
        }
        pawn_attacks_of(side, from.as_set()).intersection(to.as_set()).non_empty()
    }

    /// Whether `m` is pseudo-legal in the position: whether the piece on its origin can
    /// make it by the way it moves.
    pub fn is_pseudo_legal(&self, m: Move) -> (r: bool)
        ensures
            r == self.pseudo_legal(m),
    {
        let from = m.from();
        let to = m.to();
        let moved_piece = match self.piece_at(from) {
            Some(p) => p,
            None => {
                return false;
            },
        };
        let captured_piece = self.captured_piece(m);
        let is_pawn_double_push = self.is_double_pawn_push(m);
        if moved_piece.colour() != self.side {
            return false;
        }
        match captured_piece {
            Some(c) => {
                if c.colour() == self.side {
                    return false;
                }
            },
            None => {},
        }
        if moved_piece.piece_type() != PieceType::Pawn && (is_pawn_double_push || m.is_ep()
            || m.is_promo()) {
            return false;
        }
        if moved_piece.piece_type() != PieceType::King && m.is_castle() {
            return false;
        }
        if captured_piece.is_some() && is_pawn_double_push {
            return false;
        }
        if m.is_castle() {
            return self.is_pseudo_legal_castling(m);
        }
        if moved_piece.piece_type() == PieceType::Pawn {
            return self.is_pseudo_legal_pawn(m);
        }
        to.as_set().intersection(
            attacks_by_type(moved_piece.piece_type(), from, self.pieces.occupied()),
        ).non_empty()
    }
}

} // verus!
