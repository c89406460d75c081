use vstd::prelude::*;

verus! {

/// The middlegame bonus of knight, bishop, rook, queen and king, in that order: for each piece eight ranks of four files, a to d; the files e to h mirror them.
pub const PIECE_BONUS_MG: [i32; 160] = [
    -175, -92, -74, -73, -77, -41, -27, -15,
    -61, -17, 6, 12, -35, 8, 40, 49,
    -34, 13, 44, 51, -9, 22, 58, 53,
    -67, -27, 4, 37, -201, -83, -56, -26,
    -37, -4, -6, -16, -11, 6, 13, 3,
    -5, 15, -4, 12, -4, 8, 18, 27,
    -8, 20, 15, 22, -11, 4, 1, 8,
    -12, -10, 4, 0, -34, 1, -10, -16,
    -31, -20, -14, -5, -21, -13, -8, 6,
    -25, -11, -1, 3, -13, -5, -4, -6,
    -27, -15, -4, 3, -22, -2, 6, 12,
    -2, 12, 16, 18, -17, -19, -1, 9,
    3, -5, -5, 4, -3, 5, 8, 12,
    -3, 6, 13, 7, 4, 5, 9, 8,
    0, 14, 12, 5, -4, 10, 6, 8,
    -5, 6, 10, 8, -2, -2, 1, -2,
    271, 327, 271, 198, 278, 303, 234, 179,
    195, 258, 169, 120, 164, 190, 138, 98,
    154, 179, 105, 70, 123, 145, 81, 31,
    88, 120, 65, 33, 59, 89, 45, -1,
];

/// The endgame bonus of knight, bishop, rook, queen and king, laid out as the middlegame bonus.
pub const PIECE_BONUS_EG: [i32; 160] = [
    -96, -65, -49, -21, -67, -54, -18, 8,
    -40, -27, -8, 29, -35, -2, 13, 28,
    -45, -16, 9, 39, -51, -44, -16, 17,
    -69, -50, -51, 12, -100, -88, -56, -17,
    -40, -21, -26, -8, -26, -9, -12, 1,
    -11, -1, -1, 7, -14, -4, 0, 12,
    -12, -1, -10, 11, -21, 4, 3, 4,
    -22, -14, -1, 1, -32, -29, -26, -17,
    -9, -13, -10, -9, -12, -9, -1, -2,
    6, -8, -2, -6, -6, 1, -9, 7,
    -5, 8, 7, -6, 6, 1, -7, 10,
    4, 5, 20, -5, 18, 0, 19, 13,
    -69, -57, -47, -26, -54, -31, -22, -4,
    -39, -18, -9, 3, -23, -3, 13, 24,
    -29, -6, 9, 21, -38, -18, -11, 1,
    -50, -27, -24, -8, -74, -52, -43, -34,
    1, 45, 85, 76, 53, 100, 133, 135,
    88, 130, 169, 175, 103, 156, 172, 172,
    96, 166, 199, 199, 92, 172, 184, 191,
    47, 121, 116, 131, 11, 59, 73, 78,
];

/// The middlegame bonus of the pawn: eight ranks of eight files.
pub const PAWN_BONUS_MG: [i32; 64] = [
    0, 0, 0, 0, 0, 0, 0, 0,
    2, 4, 11, 18, 16, 21, 9, -3,
    -9, -15, 11, 15, 31, 23, 6, -20,
    -3, -20, 8, 19, 39, 17, 2, -5,
    11, -4, -11, 2, 11, 0, -12, 5,
    3, -11, -6, 22, -8, -5, -14, -11,
    -7, 6, -2, -11, 4, -14, 10, -9,
    0, 0, 0, 0, 0, 0, 0, 0,
];

/// The endgame bonus of the pawn: eight ranks of eight files.
pub const PAWN_BONUS_EG: [i32; 64] = [
    0, 0, 0, 0, 0, 0, 0, 0,
    -8, -6, 9, 5, 16, 6, -6, -18,
    -9, -7, -10, 5, 2, 3, -8, -5,
    7, 1, -8, -2, -14, -13, -11, -6,
    12, 6, 2, -6, -5, -4, 14, 9,
    27, 18, 19, 29, 30, 9, 8, 14,
    -1, -14, 13, 22, 24, 17, 7, 7,
    0, 0, 0, 0, 0, 0, 0, 0,
];

/// A score with a middlegame part and an endgame part.
#[derive(Clone, Copy, Debug, PartialEq, Eq, Structural)]
pub struct S(pub i32, pub i32);

impl S {
    /// The score with both parts turned round.
    pub fn neg(self) -> (r: S)
        requires
            self.0 > i32::MIN,
            self.1 > i32::MIN,
        ensures
            r.0 == -self.0,
            r.1 == -self.1,
    {
        S(-self.0, -self.1)
    }
}

/// The place of the bonus of piece number `piece` (0 for the pawn, 5 for the king) on
/// the square `sq` as white sees the board from above: rank by rank from a1.
pub open spec fn bonus_slot(piece: int, sq: int) -> int {
    if piece == 0 {
        sq
    } else {
        (piece - 1) * 32 + (sq / 8) * 4 + (if sq % 8 >= 4 {
            7 - sq % 8
        } else {
            sq % 8
        })
    }
}

/// The bonus of piece number `piece` on square number `sq`.
pub open spec fn bonus(piece: int, sq: int) -> S {
    if piece == 0 {
        S(PAWN_BONUS_MG[bonus_slot(piece, sq)], PAWN_BONUS_EG[bonus_slot(piece, sq)])
    } else {
        S(PIECE_BONUS_MG[bonus_slot(piece, sq)], PIECE_BONUS_EG[bonus_slot(piece, sq)])
    }
}

/// The bonus of piece number `piece` on square number `sq`.
fn bonus_of(piece: usize, sq: usize) -> (r: S)
    requires
        piece < 6,
        sq < 64,
    ensures
        r == bonus(piece as int, sq as int),
{
    if piece == 0 {
        S(PAWN_BONUS_MG[sq], PAWN_BONUS_EG[sq])
    } else {
        let f = sq % 8;
        let i = (piece - 1) * 32 + (sq / 8) * 4 + (if f >= 4 { 7 - f } else { f });
        S(PIECE_BONUS_MG[i], PIECE_BONUS_EG[i])
    }
}

/// Whether `pst` is the table of piece-square scores: thirteen rows of 64 scores, row 0
/// at nothing, rows 1 to 6 for the white pieces from pawn to king, rows 7 to 12 for the
/// black ones. A white piece on a square has the bonus of the square mirrored across the
/// middle of the board; a black piece has the bonus of its square, turned round.
pub open spec fn is_sf_pst(pst: Seq<Vec<S>>) -> bool {
    &&& pst.len() == 13
    &&& forall|p: int| 0 <= p < 13 ==> (#[trigger] pst[p])@.len() == 64
    &&& forall|sq: int| 0 <= sq < 64 ==> (#[trigger] pst[0]@[sq]) == S(0, 0)
    &&& forall|p: int, sq: int|
        1 <= p <= 6 && 0 <= sq < 64 ==> (#[trigger] pst[p]@[sq]) == bonus(
            p - 1,
            sq + 56 - 16 * (sq / 8),
        )
    &&& forall|p: int, sq: int|
        7 <= p <= 12 && 0 <= sq < 64 ==> (#[trigger] pst[p]@[sq]).0 == -bonus(p - 7, sq).0
            && pst[p]@[sq].1 == -bonus(p - 7, sq).1
}

/// The table of piece-square scores.
pub fn construct_sf_pst() -> (pst: Vec<Vec<S>>)
    ensures
        is_sf_pst(pst@),
{
    let mut pst: Vec<Vec<S>> = Vec::new();
    let mut p: usize = 0;
    while p < 13
        invariant
            p <= 13,
            pst@.len() == p,
            forall|q: int| 0 <= q < p ==> (#[trigger] pst@[q])@.len() == 64,
            forall|sq: int| 0 <= sq < 64 && p > 0 ==> (#[trigger] pst@[0]@[sq]) == S(0, 0),
            forall|q: int, sq: int|
                1 <= q <= 6 && q < p && 0 <= sq < 64 ==> (#[trigger] pst@[q]@[sq]) == bonus(
                    q - 1,
                    sq + 56 - 16 * (sq / 8),
                ),
            forall|q: int, sq: int|
                7 <= q < p && 0 <= sq < 64 ==> (#[trigger] pst@[q]@[sq]).0 == -bonus(q - 7, sq).0
                    && pst@[q]@[sq].1 == -bonus(q - 7, sq).1,
        decreases 13 - p,
    {
        let mut row: Vec<S> = Vec::new();
        let mut sq: usize = 0;
        while sq < 64
            invariant
                sq <= 64,
                p < 13,
                row@.len() == sq,
                forall|i: int| 0 <= i < sq && p == 0 ==> (#[trigger] row@[i]) == S(0, 0),
                forall|i: int|
                    0 <= i < sq && 1 <= p <= 6 ==> (#[trigger] row@[i]) == bonus(
                        p - 1,
                        i + 56 - 16 * (i / 8),
                    ),
                forall|i: int|
                    0 <= i < sq && p >= 7 ==> (#[trigger] row@[i]).0 == -bonus(p - 7, i).0
                        && row@[i].1 == -bonus(p - 7, i).1,
            decreases 64 - sq,
        {
            let v = if p == 0 {
                S(0, 0)
            } else if p <= 6 {
                bonus_of(p - 1, sq + 56 - 16 * (sq / 8))
            } else {
                let b = bonus_of(p - 7, sq);
                proof {
                    lemma_bonus_small(p - 7, sq as int);
                }
                b.neg()
            };
            row.push(v);
            sq = sq + 1;
        }
        pst.push(row);
        p = p + 1;
    }
    pst
}

/// The score of piece number `piece` on square number `sq` in the table `pst`.
pub fn pst_value(piece: u8, sq: u8, pst: &Vec<Vec<S>>) -> (r: S)
    requires
        piece < pst@.len(),
        sq < pst@[piece as int]@.len(),
    ensures
        r == pst@[piece as int]@[sq as int],
{
    pst[piece as usize][sq as usize]
}

/// No bonus is as small as the smallest number.
proof fn lemma_bonus_small(piece: int, sq: int)
    requires
        0 <= piece < 6,
        0 <= sq < 64,
    ensures
        bonus(piece, sq).0 > -100000,
        bonus(piece, sq).1 > -100000,
        bonus(piece, sq).0 < 100000,
        bonus(piece, sq).1 < 100000,
{
    let i = bonus_slot(piece, sq);
    if piece == 0 {
        assert(forall|j: int| 0 <= j < 64 ==> -100000 < #[trigger] PAWN_BONUS_MG[j] < 100000);
        assert(forall|j: int| 0 <= j < 64 ==> -100000 < #[trigger] PAWN_BONUS_EG[j] < 100000);
    } else {
        assert(forall|j: int| 0 <= j < 160 ==> -100000 < #[trigger] PIECE_BONUS_MG[j] < 100000);
        assert(forall|j: int| 0 <= j < 160 ==> -100000 < #[trigger] PIECE_BONUS_EG[j] < 100000);
    }
}

/// The scores of a white piece are those of the black piece of its kind on the square
/// mirrored across the middle of the board, turned round.
pub proof fn lemma_pst_mirrored(pst: Seq<Vec<S>>, w: int, sq: int)
    requires
        is_sf_pst(pst),
        1 <= w <= 6,
        0 <= sq < 64,
    ensures
        pst[w]@[sq].0 == -pst[w + 6]@[sq + 56 - 16 * (sq / 8)].0,
        pst[w]@[sq].1 == -pst[w + 6]@[sq + 56 - 16 * (sq / 8)].1,
{
    let m = sq + 56 - 16 * (sq / 8);
    assert(pst[w]@[sq] == bonus(w - 1, m));
    assert(pst[w + 6]@[m].0 == -bonus(w + 6 - 7, m).0);
}

} // verus!
