use vstd::prelude::*;
use crate::board::Board;
use crate::castling::CastlingRights;
use crate::position::{agree, king_place, lemma_one_king, one_king};
use crate::types::{Colour, Piece, PieceType, Square};

verus! {

broadcast use crate::types::group_square;

/// The position of the empty slot number `k` among the slots from `from` on, counted
/// from 0; the number of slots where there is none.
pub open spec fn nth_empty(slots: Seq<Option<PieceType>>, k: int, from: int) -> int
    decreases slots.len() - from,
{
    if from < 0 || from >= slots.len() {
        slots.len() as int
    } else if slots[from] is None {
        if k <= 0 {
            from
        } else {
            nth_empty(slots, k - 1, from + 1)
        }
    } else {
        nth_empty(slots, k, from + 1)
    }
}

/// The slots with `pt` put into empty slot number `k`, if there is one.
pub open spec fn fill(slots: Seq<Option<PieceType>>, k: int, pt: PieceType) -> Seq<
    Option<PieceType>,
> {
    if nth_empty(slots, k, 0) < slots.len() {
        slots.update(nth_empty(slots, k, 0), Some(pt))
    } else {
        slots
    }
}

/// The two empty slots that the knights take for the digit `n`: the pairs of five slots
/// in order, from (0, 1) for 0 to (3, 4) for 9.
pub open spec fn knight_pair(n: int) -> (int, int) {
    if n == 0 {
        (0, 1)
    } else if n == 1 {
        (0, 2)
    } else if n == 2 {
        (0, 3)
    } else if n == 3 {
        (0, 4)
    } else if n == 4 {
        (1, 2)
    } else if n == 5 {
        (1, 3)
    } else if n == 6 {
        (1, 4)
    } else if n == 7 {
        (2, 3)
    } else if n == 8 {
        (2, 4)
    } else {
        (3, 4)
    }
}

/// The slots of the first rank before the rooks and the king are placed: a bishop on
/// the light square that `n % 4` names (b, d, f, h), a bishop on the dark square that the
/// next digit in base four names (a, c, e, g), the queen on the empty slot that the next
/// digit in base six names, and the knights on the two empty slots that the rest names.
pub open spec fn scharnagl_minor(n: int) -> Seq<Option<PieceType>> {
    let s0 = Seq::new(8, |i: int| None::<PieceType>);
    let s1 = s0.update(1 + 2 * (n % 4), Some(PieceType::Bishop));
    let s2 = s1.update(2 * ((n / 4) % 4), Some(PieceType::Bishop));
    let s3 = fill(s2, (n / 16) % 6, PieceType::Queen);
    fill(fill(s3, knight_pair(n / 96).1, PieceType::Knight), knight_pair(n / 96).0, PieceType::Knight)
}

/// The slots of the first rank for the number `n`: after the bishops, the queen and
/// the knights, a rook, the king and a rook take the three empty slots in that order.
pub open spec fn scharnagl_slots(n: int) -> Seq<Option<PieceType>> {
    fill(fill(fill(scharnagl_minor(n), 0, PieceType::Rook), 0, PieceType::King), 0, PieceType::Rook)
}

/// The first rank for the number `n`, from the a-file to the h-file.
pub open spec fn scharnagl_rank(n: int) -> Seq<PieceType> {
    Seq::new(
        8,
        |i: int|
            match scharnagl_slots(n)[i] {
                Some(pt) => pt,
                None => PieceType::Pawn,
            },
    )
}

/// The number of empty slots from `from` on.
pub open spec fn empties(slots: Seq<Option<PieceType>>, from: int) -> int
    decreases slots.len() - from,
{
    if from < 0 || from >= slots.len() {
        0
    } else if slots[from] is None {
        1 + empties(slots, from + 1)
    } else {
        empties(slots, from + 1)
    }
}

proof fn lemma_nth_empty(slots: Seq<Option<PieceType>>, k: int, from: int)
    requires
        0 <= from <= slots.len(),
        0 <= k,
    ensures
        from <= nth_empty(slots, k, from) <= slots.len(),
        k < empties(slots, from) ==> nth_empty(slots, k, from) < slots.len() && slots[nth_empty(
            slots,
            k,
            from,
        )] is None,
        empties(slots, from) >= 0,
    decreases slots.len() - from,
{
    if from < slots.len() {
        lemma_nth_empty(slots, k, from + 1);
        if k > 0 {
            lemma_nth_empty(slots, k - 1, from + 1);
        }
    }
}

proof fn lemma_empties_update(slots: Seq<Option<PieceType>>, i: int, pt: PieceType, from: int)
    requires
        0 <= i < slots.len(),
        0 <= from <= slots.len(),
    ensures
        empties(slots.update(i, Some(pt)), from) >= empties(slots, from) - 1,
        empties(slots.update(i, Some(pt)), from) <= empties(slots, from),
        from > i ==> empties(slots.update(i, Some(pt)), from) == empties(slots, from),
        slots[i] is None && from <= i ==> empties(slots.update(i, Some(pt)), from) == empties(
            slots,
            from,
        ) - 1,
    decreases slots.len() - from,
{
    if from < slots.len() {
        lemma_empties_update(slots, i, pt, from + 1);
    }
}

proof fn lemma_fill(slots: Seq<Option<PieceType>>, k: int, pt: PieceType)
    requires
        0 <= k < empties(slots, 0),
    ensures
        empties(fill(slots, k, pt), 0) == empties(slots, 0) - 1,
        fill(slots, k, pt).len() == slots.len(),
        forall|j: int|
            0 <= j < slots.len() ==> #[trigger] fill(slots, k, pt)[j] == (if j == nth_empty(
                slots,
                k,
                0,
            ) {
                Some(pt)
            } else {
                slots[j]
            }),
        0 <= nth_empty(slots, k, 0) < slots.len(),
        slots[nth_empty(slots, k, 0)] is None,
{
    lemma_nth_empty(slots, k, 0);
    lemma_empties_update(slots, nth_empty(slots, k, 0), pt, 0);
}

/// Whether the king of the rank stands on file number `k` and nowhere else.
pub open spec fn king_only_on(rank: Seq<PieceType>, k: int) -> bool {
    0 <= k < 8 && forall|i: int| 0 <= i < 8 ==> (#[trigger] rank[i] == PieceType::King) == (i == k)
}

/// Whether the rank has exactly one king.
pub open spec fn has_one_king(rank: Seq<PieceType>) -> bool {
    exists|k: int| king_only_on(rank, k)
}

/// Every number below 960 gives a first rank with exactly one king.
pub proof fn lemma_scharnagl_king(n: int)
    requires
        0 <= n < 960,
    ensures
        has_one_king(scharnagl_rank(n)),
{
    let s0 = Seq::new(8, |i: int| None::<PieceType>);
    let b1 = 1 + 2 * (n % 4);
    let b2 = 2 * ((n / 4) % 4);
    let s1 = s0.update(b1, Some(PieceType::Bishop));
    let s2 = s1.update(b2, Some(PieceType::Bishop));
    assert(empties(s0, 0) == 8) by {
        reveal_with_fuel(empties, 10);
    }
    lemma_empties_update(s0, b1, PieceType::Bishop, 0);
    lemma_empties_update(s1, b2, PieceType::Bishop, 0);
    assert(empties(s2, 0) == 6);
    let q = (n / 16) % 6;
    lemma_fill(s2, q, PieceType::Queen);
    let s3 = fill(s2, q, PieceType::Queen);
    let kp = knight_pair(n / 96);
    lemma_fill(s3, kp.1, PieceType::Knight);
    let s4a = fill(s3, kp.1, PieceType::Knight);
    lemma_fill(s4a, kp.0, PieceType::Knight);
    let s4 = fill(s4a, kp.0, PieceType::Knight);
    assert(s4 == scharnagl_minor(n));
    lemma_fill(s4, 0, PieceType::Rook);
    let s5 = fill(s4, 0, PieceType::Rook);
    lemma_fill(s5, 0, PieceType::King);
    let s6 = fill(s5, 0, PieceType::King);
    lemma_fill(s6, 0, PieceType::Rook);
    let s7 = fill(s6, 0, PieceType::Rook);
    assert(s7 == scharnagl_slots(n));
    let k = nth_empty(s5, 0, 0);
    assert forall|i: int| 0 <= i < 8 implies (#[trigger] scharnagl_rank(n)[i] == PieceType::King)
        == (i == k) by {
        assert(s7[i] == (if i == nth_empty(s6, 0, 0) {
            Some(PieceType::Rook)
        } else {
            s6[i]
        }));
        assert(s6[i] == (if i == k {
            Some(PieceType::King)
        } else {
            s5[i]
        }));
        assert(s5[i] == (if i == nth_empty(s4, 0, 0) {
            Some(PieceType::Rook)
        } else {
            s4[i]
        }));
        assert(s4[i] == (if i == nth_empty(s4a, kp.0, 0) {
            Some(PieceType::Knight)
        } else {
            s4a[i]
        }));
        assert(s4a[i] == (if i == nth_empty(s3, kp.1, 0) {
            Some(PieceType::Knight)
        } else {
            s3[i]
        }));
        assert(s3[i] == (if i == nth_empty(s2, q, 0) {
            Some(PieceType::Queen)
        } else {
            s2[i]
        }));
    }
    assert(king_only_on(scharnagl_rank(n), k));
}

fn fill_slot(out: &mut [Option<PieceType>; 8], k: usize, pt: PieceType)
    ensures
        final(out)@ == fill(old(out)@, k as int, pt),
{
    let mut i: usize = 0;
    let mut left: usize = k;
    while i < 8
        invariant
            i <= 8,
            out@ == old(out)@,
            nth_empty(out@, k as int, 0) == nth_empty(out@, left as int, i as int),
        decreases 8 - i,
    {
        if out[i].is_none() {
            if left == 0 {
                out[i] = Some(pt);
                return ;
            }
            left = left - 1;
        }
        i = i + 1;
    }
}

impl Board {
    /// The first rank of the starting position with the number `scharnagl`, from the
    /// a-file to the h-file.
    pub fn get_scharnagl_backrank(scharnagl: usize) -> (r: [PieceType; 8])
        requires
            scharnagl < 960,
        ensures
            r@ == scharnagl_rank(scharnagl as int),
    {
        let mut out: [Option<PieceType>; 8] = [None;8];
        let n = scharnagl;
        let n2 = n / 4;
        let b1 = n % 4;
        out[1 + 2 * b1] = Some(PieceType::Bishop);
        let n3 = n2 / 4;
        let b2 = n2 % 4;
        out[2 * b2] = Some(PieceType::Bishop);
        let n4 = n3 / 6;
        let q = n3 % 6;
        proof {
            assert(out@ =~= Seq::new(8, |i: int| None::<PieceType>).update(
                1 + 2 * (n as int % 4),
                Some(PieceType::Bishop),
            ).update(2 * ((n as int / 4) % 4), Some(PieceType::Bishop)));
            assert(n3 == n / 16);
            assert(n4 == n / 96);
        }
        fill_slot(&mut out, q, PieceType::Queen);
        let (k1, k2): (usize, usize) = if n4 == 0 {
            (0, 1)
        } else if n4 == 1 {
            (0, 2)
        } else if n4 == 2 {
            (0, 3)
        } else if n4 == 3 {
            (0, 4)
        } else if n4 == 4 {
            (1, 2)
        } else if n4 == 5 {
            (1, 3)
        } else if n4 == 6 {
            (1, 4)
        } else if n4 == 7 {
            (2, 3)
        } else if n4 == 8 {
            (2, 4)
        } else {
            (3, 4)
        };
        fill_slot(&mut out, k2, PieceType::Knight);
        fill_slot(&mut out, k1, PieceType::Knight);
        fill_slot(&mut out, 0, PieceType::Rook);
        fill_slot(&mut out, 0, PieceType::King);
        fill_slot(&mut out, 0, PieceType::Rook);
        let mut r: [PieceType; 8] = [PieceType::Pawn;8];
        let mut i: usize = 0;
        while i < 8
            invariant
                i <= 8,
                out@ == scharnagl_slots(scharnagl as int),
                forall|j: int| 0 <= j < i ==> #[trigger] r@[j] == scharnagl_rank(scharnagl as int)[j],
                forall|j: int| i <= j < 8 ==> #[trigger] r@[j] == PieceType::Pawn,
            decreases 8 - i,
        {
            match out[i] {
                Some(pt) => {
                    r[i] = pt;
                },
                None => {},
            }
            i = i + 1;
        }
        proof {
            assert(r@ =~= scharnagl_rank(scharnagl as int));
        }
        r
    }
}


/// The file of rook number `k` of the rank among the files from `from` on, counted from
/// 0; 8 where there is none.
pub open spec fn nth_rook(rank: Seq<PieceType>, k: int, from: int) -> int
    decreases 8 - from,
{
    if from < 0 || from >= 8 {
        8
    } else if rank[from] == PieceType::Rook {
        if k <= 0 {
            from
        } else {
            nth_rook(rank, k - 1, from + 1)
        }
    } else {
        nth_rook(rank, k, from + 1)
    }
}

/// The right on the rook number `k` of the rank that begins on square number `base`,
/// if there is such a rook.
pub open spec fn rook_right(rank: Seq<PieceType>, k: int, base: int) -> Option<Square> {
    if nth_rook(rank, k, 0) < 8 {
        Some(Square::at(base + nth_rook(rank, k, 0)))
    } else {
        None
    }
}

/// The mailbox of a starting position with the first ranks `white` and `black`: the
/// pieces of the ranks on the first and eighth rank, pawns on the second and seventh.
pub open spec fn setup_mailbox(white: Seq<PieceType>, black: Seq<PieceType>) -> Seq<
    Option<Piece>,
> {
    Seq::new(
        64,
        |i: int|
            if i < 8 {
                Some(Piece::of(Colour::White, white[i]))
            } else if i < 16 {
                Some(Piece::WP)
            } else if i < 48 {
                None
            } else if i < 56 {
                Some(Piece::BP)
            } else {
                Some(Piece::of(Colour::Black, black[i - 56]))
            },
    )
}

/// The castling rights of a starting position: for each side, the queen's wing goes
/// with the first rook of its rank and the king's wing with the second.
pub open spec fn setup_rights(white: Seq<PieceType>, black: Seq<PieceType>) -> CastlingRights {
    CastlingRights {
        wk: rook_right(white, 1, 0),
        wq: rook_right(white, 0, 0),
        bk: rook_right(black, 1, 56),
        bq: rook_right(black, 0, 56),
    }
}

fn find_rook(rank: &[PieceType; 8], k: usize, base: u8) -> (r: Option<Square>)
    requires
        base <= 56,
    ensures
        r == rook_right(rank@, k as int, base as int),
{
    let mut i: u8 = 0;
    let mut left: usize = k;
    while i < 8
        invariant
            i <= 8,
            base <= 56,
            nth_rook(rank@, k as int, 0) == nth_rook(rank@, left as int, i as int),
        decreases 8 - i,
    {
        if rank[i as usize] == PieceType::Rook {
            if left == 0 {
                return Square::from_index(base + i);
            }
            left = left - 1;
        }
        i = i + 1;
    }
    None
}

impl Board {
    /// Whether the board is the starting position with the first ranks `white` and
    /// `black`: sound, white to move, at the root of a search and with no move made.
    pub open spec fn is_setup(&self, white: Seq<PieceType>, black: Seq<PieceType>) -> bool {
        &&& self.wf()
        &&& self.piece_array@ == setup_mailbox(white, black)
        &&& self.side == Colour::White
        &&& self.ep_sq == None::<Square>
        &&& self.castle_perm == setup_rights(white, black)
        &&& self.fifty_move_counter == 0
        &&& self.ply == 0
        &&& self.height == 0
        &&& self.history@.len() == 0
    }

    fn set_up(&mut self, white: &[PieceType; 8], black: &[PieceType; 8])
        requires
            has_one_king(white@),
            has_one_king(black@),
        ensures
            final(self).is_setup(white@, black@),
            final(self).chess960 == old(self).chess960,
    {
        self.reset();
        let mut i: u8 = 0;
        let ghost target = setup_mailbox(white@, black@);
        while i < 8
            invariant
                i <= 8,
                target == setup_mailbox(white@, black@),
                agree(self.pieces, self.piece_array@),
                forall|j: int|
                    0 <= j < 64 ==> #[trigger] self.piece_array@[j] == (if j % 8 < i {
                        target[j]
                    } else {
                        None
                    }),
                self.side == Colour::White,
                self.ep_sq == None::<Square>,
                self.fifty_move_counter == 0,
                self.ply == 0,
                self.height == 0,
                self.history@.len() == 0,
                self.chess960 == old(self).chess960,
            decreases 8 - i,
        {
            let s1 = Square::from_index(i).unwrap();
            let s2 = Square::from_index(8 + i).unwrap();
            let s7 = Square::from_index(48 + i).unwrap();
            let s8 = Square::from_index(56 + i).unwrap();
            self.add_piece(s1, Piece::new(Colour::White, white[i as usize]));
            self.add_piece(s2, Piece::new(Colour::White, PieceType::Pawn));
            self.add_piece(s8, Piece::new(Colour::Black, black[i as usize]));
            self.add_piece(s7, Piece::new(Colour::Black, PieceType::Pawn));
            i = i + 1;
        }
        proof {
            assert(self.piece_array@ =~= target);
            let kw = choose|k: int| king_only_on(white@, k);
            let kb = choose|k: int| king_only_on(black@, k);
            assert forall|s: Square| #[trigger]
                self.pieces.has(Piece::of(Colour::White, PieceType::King), s) == (s == Square::at(
                    kw,
                )) by {
                assert(self.pieces.has(Piece::WK, s) == (target[s.idx()] == Some(Piece::WK)));
                if s.idx() < 8 {
                    assert((white@[s.idx()] == PieceType::King) == (s.idx() == kw));
                }
            }
            lemma_one_king(self.pieces, Colour::White, Square::at(kw));
            assert forall|s: Square| #[trigger]
                self.pieces.has(Piece::of(Colour::Black, PieceType::King), s) == (s == Square::at(
                    56 + kb,
                )) by {
                assert(self.pieces.has(Piece::BK, s) == (target[s.idx()] == Some(Piece::BK)));
                if s.idx() >= 56 {
                    assert((black@[s.idx() - 56] == PieceType::King) == (s.idx() - 56 == kb));
                }
            }
            lemma_one_king(self.pieces, Colour::Black, Square::at(56 + kb));
        }
        self.castle_perm = CastlingRights {
            wk: find_rook(white, 1, 0),
            wq: find_rook(white, 0, 0),
            bk: find_rook(black, 1, 56),
            bq: find_rook(black, 0, 56),
        };
        self.keys = self.generate_pos_keys();
        self.threats = self.generate_threats(self.side.flip());
    }

    /// Sets up the starting position of Chess960 with the number `scharnagl`, the same
    /// first rank for both sides.
    pub fn set_frc_idx(&mut self, scharnagl: usize)
        requires
            scharnagl < 960,
        ensures
            final(self).is_setup(
                scharnagl_rank(scharnagl as int),
                scharnagl_rank(scharnagl as int),
            ),
            final(self).chess960 == old(self).chess960,
    {
        let backrank = Board::get_scharnagl_backrank(scharnagl);
        proof {
            lemma_scharnagl_king(scharnagl as int);
        }
        self.set_up(&backrank, &backrank);
    }

    /// Sets up the starting position of double Chess960 with the number `scharnagl`:
    /// white's first rank has the number `scharnagl % 960`, black's `scharnagl / 960`.
    pub fn set_dfrc_idx(&mut self, scharnagl: usize)
        requires
            scharnagl < 960 * 960,
        ensures
            final(self).is_setup(
                scharnagl_rank(scharnagl as int % 960),
                scharnagl_rank(scharnagl as int / 960),
            ),
            final(self).chess960 == old(self).chess960,
    {
        let white_backrank = Board::get_scharnagl_backrank(scharnagl % 960);
        let black_backrank = Board::get_scharnagl_backrank(scharnagl / 960);
        proof {
            lemma_scharnagl_king(scharnagl as int % 960);
            lemma_scharnagl_king(scharnagl as int / 960);
        }
        self.set_up(&white_backrank, &black_backrank);
    }

    /// The starting position of Chess960 with the number `scharnagl`.
    pub fn from_frc_idx(scharnagl: usize) -> (r: Board)
        requires
            scharnagl < 960,
        ensures
            r.is_setup(scharnagl_rank(scharnagl as int), scharnagl_rank(scharnagl as int)),
            !r.chess960,
    {
        let mut out = Board::new();
        out.set_frc_idx(scharnagl);
        out
    }

    /// The starting position of double Chess960 with the number `scharnagl`.
    pub fn from_dfrc_idx(scharnagl: usize) -> (r: Board)
        requires
            scharnagl < 960 * 960,
        ensures
            r.is_setup(
                scharnagl_rank(scharnagl as int % 960),
                scharnagl_rank(scharnagl as int / 960),
            ),
            !r.chess960,
    {
        let mut out = Board::new();
        out.set_dfrc_idx(scharnagl);
        out
    }

    /// The first rank of the orthodox starting position.
    pub open spec fn orthodox_rank() -> Seq<PieceType> {
        seq![
            PieceType::Rook,
            PieceType::Knight,
            PieceType::Bishop,
            PieceType::Queen,
            PieceType::King,
            PieceType::Bishop,
            PieceType::Knight,
            PieceType::Rook,
        ]
    }

    /// Sets up the orthodox starting position.
    pub fn set_startpos(&mut self)
        ensures
            final(self).is_setup(Board::orthodox_rank(), Board::orthodox_rank()),
            final(self).chess960 == old(self).chess960,
    {
        let rank: [PieceType; 8] = [
            PieceType::Rook,
            PieceType::Knight,
            PieceType::Bishop,
            PieceType::Queen,
            PieceType::King,
            PieceType::Bishop,
            PieceType::Knight,
            PieceType::Rook,
        ];
        proof {
            assert(rank@ =~= Board::orthodox_rank());
            assert(king_only_on(rank@, 4));
        }
        self.set_up(&rank, &rank);
    }
}

impl Default for Board {
    /// The orthodox starting position.
    fn default() -> (r: Board)
        ensures
            r.is_setup(Board::orthodox_rank(), Board::orthodox_rank()),
            !r.chess960,
    {
        let mut out = Board::new();
        out.set_startpos();
        out
    }
}

} // verus!
