use vstd::prelude::*;
use crate::board::Board;
use crate::position::{agree, one_king};
use crate::types::{Colour, Piece, PieceType, Square};

verus! {

broadcast use crate::types::group_square;

impl Board {
    fn layout_agrees(&self) -> (r: bool)
        ensures
            r == agree(self.pieces, self.piece_array@),
    {
        let all: [Piece; 12] = [
            Piece::WP,
            Piece::WN,
            Piece::WB,
            Piece::WR,
            Piece::WQ,
            Piece::WK,
            Piece::BP,
            Piece::BN,
            Piece::BB,
            Piece::BR,
            Piece::BQ,
            Piece::BK,
        ];
        let mut i: u8 = 0;
        while i < 64
            invariant
                i <= 64,
                forall|k: int| 0 <= k < 12 ==> (#[trigger] all@[k]).idx() == k,
                forall|p: Piece, s: Square|
                    s.idx() < i ==> #[trigger] self.pieces.has(p, s) == (self.piece_array@[s.idx()]
                        == Some(p)),
            decreases 64 - i,
        {
            let sq = Square::from_index(i).unwrap();
            let here = self.piece_array[i as usize];
            let mut k: usize = 0;
            while k < 12
                invariant
                    k <= 12,
                    i < 64,
                    sq.idx() == i,
                    here == self.piece_array@[i as int],
                    forall|j: int| 0 <= j < 12 ==> (#[trigger] all@[j]).idx() == j,
                    forall|p: Piece|
                        p.idx() < k ==> #[trigger] self.pieces.has(p, sq) == (here == Some(p)),
                decreases 12 - k,
            {
                let p = all[k];
                if self.pieces.piece_bb(p).contains_square(sq) != (here == Some(p)) {
                    proof {
                        assert(self.pieces.has(p, sq) != (self.piece_array@[sq.idx()] == Some(p)));
                    }
                    return false;
                }
                proof {
                    assert forall|q: Piece| q.idx() < k + 1 implies #[trigger] self.pieces.has(
                        q,
                        sq,
                    ) == (here == Some(q)) by {
                        if q.idx() == k {
                            assert(all@[k as int].idx() == q.idx());
                        }
                    }
                }
                k = k + 1;
            }
            i = i + 1;
        }
        true
    }

    /// Whether the position is sound: mailbox and layout hold the same pieces, each
    /// side has exactly one king, and hashes and threats are those of the position
    /// computed from nothing.
    pub fn check_validity(&self) -> (r: bool)
        ensures
            r == self.wf(),
    {
        if !self.layout_agrees() {
            return false;
        }
        if !self.single_king(Colour::White) || !self.single_king(Colour::Black) {
            proof {
                if self.wf() {
                    self.lemma_kings_once();
                }
            }
            return false;
        }
        self.keys == self.generate_pos_keys() && self.threats == self.generate_threats(
            self.side.flip(),
        )
    }

    proof fn lemma_kings_once(&self)
        requires
            self.placed_ok(),
        ensures
            crate::fen::stands_once(self.piece_array@, Piece::WK),
            crate::fen::stands_once(self.piece_array@, Piece::BK),
    {
        let kw = crate::position::king_place(self.pieces, Colour::White);
        let kb = crate::position::king_place(self.pieces, Colour::Black);
        assert forall|s: Square| (#[trigger] self.piece_array@[s.idx()] == Some(Piece::WK)) == (s
            == kw) by {
            assert(self.pieces.has(Piece::WK, s) == (s == kw));
        }
        assert(crate::fen::only_at(self.piece_array@, Piece::WK, kw));
        assert forall|s: Square| (#[trigger] self.piece_array@[s.idx()] == Some(Piece::BK)) == (s
            == kb) by {
            assert(self.pieces.has(Piece::BK, s) == (s == kb));
        }
        assert(crate::fen::only_at(self.piece_array@, Piece::BK, kb));
    }
}

} // verus!
