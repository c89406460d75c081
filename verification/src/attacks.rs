use vstd::prelude::*;
use crate::bits::{bit, single};
use crate::squareset::{
    east, north, north_east, north_west, south, south_east, south_west, west, SquareSet,
};
use crate::types::{Col, Colour, PieceType, Square};

verus! {

broadcast use crate::types::group_square;

/// The squares a knight's jump away from any square of `b`.
pub open spec fn knight_bits(b: u64) -> u64 {
    ((b << 17) & 0xfefe_fefe_fefe_fefe) | ((b << 15) & 0x7f7f_7f7f_7f7f_7f7f) | ((b << 10)
        & 0xfcfc_fcfc_fcfc_fcfc) | ((b << 6) & 0x3f3f_3f3f_3f3f_3f3f) | ((b >> 17)
        & 0x7f7f_7f7f_7f7f_7f7f) | ((b >> 15) & 0xfefe_fefe_fefe_fefe) | ((b >> 10)
        & 0x3f3f_3f3f_3f3f_3f3f) | ((b >> 6) & 0xfcfc_fcfc_fcfc_fcfc)
}

/// The squares next to any square of `b`.
pub open spec fn king_bits(b: u64) -> u64 {
    north(b) | south(b) | east(b) | west(b) | north_east(b) | north_west(b) | south_east(b)
        | south_west(b)
}

/// The squares that pawns of `side` standing on `b` attack.
pub open spec fn pawn_attack_bits(side: Colour, b: u64) -> u64 {
    match side {
        Colour::White => north_east(b) | north_west(b),
        Colour::Black => south_east(b) | south_west(b),
    }
}

/// The distance between two numbers.
pub open spec fn gap(a: int, b: int) -> int {
    if a > b {
        a - b
    } else {
        b - a
    }
}

/// Whether squares `s` and `t` are a knight's jump apart.
pub open spec fn knight_step(s: int, t: int) -> bool {
    (gap(s % 8, t % 8) == 1 && gap(s / 8, t / 8) == 2) || (gap(s % 8, t % 8) == 2 && gap(
        s / 8,
        t / 8,
    ) == 1)
}

/// Whether squares `s` and `t` are different and touch.
pub open spec fn king_step(s: int, t: int) -> bool {
    s != t && gap(s % 8, t % 8) <= 1 && gap(s / 8, t / 8) <= 1
}

/// Whether a pawn of `side` on square `s` attacks square `t`.
pub open spec fn pawn_step(side: Colour, s: int, t: int) -> bool {
    gap(s % 8, t % 8) == 1 && match side {
        Colour::White => t / 8 == s / 8 + 1,
        Colour::Black => s / 8 == t / 8 + 1,
    }
}

/// A knight on `s` attacks exactly the squares a knight's jump away.
pub proof fn lemma_knight_geometry(s: u64, t: u64)
    by (bit_vector)
    requires
        s < 64,
        t < 64,
    ensures
        bit(knight_bits(1u64 << s), t as int) == knight_step(s as int, t as int),
{
}

/// A king on `s` attacks exactly the squares that touch `s`.
pub proof fn lemma_king_geometry(s: u64, t: u64)
    by (bit_vector)
    requires
        s < 64,
        t < 64,
    ensures
        bit(king_bits(1u64 << s), t as int) == king_step(s as int, t as int),
{
}

/// A white pawn on `s` attacks exactly the two squares diagonally ahead of it, and a
/// black pawn the two diagonally below.
pub proof fn lemma_pawn_geometry(s: u64, t: u64)
    by (bit_vector)
    requires
        s < 64,
        t < 64,
    ensures
        bit(pawn_attack_bits(Colour::White, 1u64 << s), t as int) == pawn_step(
            Colour::White,
            s as int,
            t as int,
        ),
        bit(pawn_attack_bits(Colour::Black, 1u64 << s), t as int) == pawn_step(
            Colour::Black,
            s as int,
            t as int,
        ),
{
}

/// Unions may be regrouped and reordered, and the empty set adds nothing.
pub proof fn lemma_or_assoc(a: u64, b: u64, c: u64)
    by (bit_vector)
    ensures
        a | (b | c) == (a | b) | c,
        a | 0 == a,
        0 | a == a,
        a | b == b | a,
{
}

/// The squares that a sliding piece reaches from file `f` and rank `r` in steps of
/// (`df`, `dr`), at most `n` of them: each square up to the edge of the board or up to
/// and including the first occupied one.
pub open spec fn ray(f: int, r: int, df: int, dr: int, occ: u64, n: nat) -> u64
    decreases n,
{
    let nf = f + df;
    let nr = r + dr;
    if n == 0 || !(0 <= nf < 8 && 0 <= nr < 8) {
        0
    } else if occ & single(nr * 8 + nf) != 0 {
        single(nr * 8 + nf)
    } else {
        single(nr * 8 + nf) | ray(nf, nr, df, dr, occ, (n - 1) as nat)
    }
}

/// The squares that a rook on square `s` attacks when `occ` is occupied.
pub open spec fn rook_bits(s: int, occ: u64) -> u64 {
    ray(s % 8, s / 8, 0, 1, occ, 7) | ray(s % 8, s / 8, 0, -1, occ, 7) | ray(
        s % 8,
        s / 8,
        1,
        0,
        occ,
        7,
    ) | ray(s % 8, s / 8, -1, 0, occ, 7)
}

/// The squares that a bishop on square `s` attacks when `occ` is occupied.
pub open spec fn bishop_bits(s: int, occ: u64) -> u64 {
    ray(s % 8, s / 8, 1, 1, occ, 7) | ray(s % 8, s / 8, 1, -1, occ, 7) | ray(
        s % 8,
        s / 8,
        -1,
        1,
        occ,
        7,
    ) | ray(s % 8, s / 8, -1, -1, occ, 7)
}

/// The squares that a piece of kind `pt` on square `s` attacks when `occ` is occupied.
/// A pawn's attacks depend on its colour and are not given here.
pub open spec fn attack_bits(pt: PieceType, s: int, occ: u64) -> u64 {
    match pt {
        PieceType::Pawn => 0,
        PieceType::Knight => knight_bits(single(s)),
        PieceType::Bishop => bishop_bits(s, occ),
        PieceType::Rook => rook_bits(s, occ),
        PieceType::Queen => bishop_bits(s, occ) | rook_bits(s, occ),
        PieceType::King => king_bits(single(s)),
    }
}

/// -1, 0 or 1 as `d` is negative, zero or positive.
pub open spec fn sign(d: int) -> int {
    if d < 0 {
        -1
    } else if d > 0 {
        1
    } else {
        0
    }
}

/// The squares passed when stepping by (`df`, `dr`) from file `f` and rank `r` until
/// file `tf` and rank `tr` is reached, the end points left out; at most `n` steps.
pub open spec fn walk(f: int, r: int, df: int, dr: int, tf: int, tr: int, n: nat) -> u64
    decreases n,
{
    let nf = f + df;
    let nr = r + dr;
    if n == 0 || (nf == tf && nr == tr) || !(0 <= nf < 8 && 0 <= nr < 8) {
        0
    } else {
        single(nr * 8 + nf) | walk(nf, nr, df, dr, tf, tr, (n - 1) as nat)
    }
}

/// Whether squares `a` and `b` differ and share a rank, a file or a diagonal.
pub open spec fn aligned(a: int, b: int) -> bool {
    a != b && (a % 8 == b % 8 || a / 8 == b / 8 || gap(a % 8, b % 8) == gap(a / 8, b / 8))
}

/// The squares strictly between `a` and `b` where the two share a rank, a file or a
/// diagonal; no square otherwise.
pub open spec fn between_bits(a: int, b: int) -> u64 {
    if aligned(a, b) {
        walk(a % 8, a / 8, sign(b % 8 - a % 8), sign(b / 8 - a / 8), b % 8, b / 8, 7)
    } else {
        0
    }
}

fn ray_attacks(sq: Square, df: i8, dr: i8, occ: u64) -> (acc: u64)
    requires
        -1 <= df <= 1,
        -1 <= dr <= 1,
    ensures
        acc == ray(sq.idx() % 8, sq.idx() / 8, df as int, dr as int, occ, 7),
{
    let i: u8 = sq.index();
    let mut f: i8 = (i % 8) as i8;
    let mut r: i8 = (i / 8) as i8;
    let mut acc: u64 = 0;
    let mut n: u8 = 7;
    let mut go = true;
    let ghost total = ray(sq.idx() % 8, sq.idx() / 8, df as int, dr as int, occ, 7);
    proof {
        lemma_or_assoc(total, 0, 0);
    }
    while go && n > 0
        invariant
            -1 <= df <= 1,
            -1 <= dr <= 1,
            0 <= f < 8,
            0 <= r < 8,
            n <= 7,
            total == acc | (if go {
                ray(f as int, r as int, df as int, dr as int, occ, n as nat)
            } else {
                0
            }),
        decreases (if go { 1int } else { 0int }) + n,
    {
        let nf: i8 = f + df;
        let nr: i8 = r + dr;
        if nf < 0 || nf > 7 || nr < 0 || nr > 7 {
            go = false;
        } else {
            let b: u64 = 1u64 << ((nr * 8 + nf) as u64);
            proof {
                let rest = ray(nf as int, nr as int, df as int, dr as int, occ, (n - 1) as nat);
                lemma_or_assoc(acc, b, rest);
                lemma_or_assoc(acc | b, 0, 0);
            }
            acc = acc | b;
            if occ & b != 0 {
                go = false;
            }
            f = nf;
            r = nr;
            n = n - 1;
        }
    }
    proof {
        lemma_or_assoc(acc, 0, 0);
    }
    acc
}

/// The squares that a bishop on `sq` attacks when `blockers` are occupied.
pub fn bishop_attacks(sq: Square, blockers: SquareSet) -> (r: SquareSet)
    ensures
        r.inner == bishop_bits(sq.idx(), blockers.inner),
{
    let occ = blockers.inner;
    SquareSet {
        inner: ray_attacks(sq, 1, 1, occ) | ray_attacks(sq, 1, -1, occ) | ray_attacks(
            sq,
            -1,
            1,
            occ,
        ) | ray_attacks(sq, -1, -1, occ),
    }
}

/// The squares that a rook on `sq` attacks when `blockers` are occupied.
pub fn rook_attacks(sq: Square, blockers: SquareSet) -> (r: SquareSet)
    ensures
        r.inner == rook_bits(sq.idx(), blockers.inner),
{
    let occ = blockers.inner;
    SquareSet {
        inner: ray_attacks(sq, 0, 1, occ) | ray_attacks(sq, 0, -1, occ) | ray_attacks(
            sq,
            1,
            0,
            occ,
        ) | ray_attacks(sq, -1, 0, occ),
    }
}

/// The squares that a knight on `sq` attacks.
pub fn knight_attacks(sq: Square) -> (r: SquareSet)
    ensures
        r.inner == knight_bits(single(sq.idx())),
{
    let b: u64 = 1u64 << (sq.index() as u64);
    SquareSet {
        inner: ((b << 17) & 0xfefe_fefe_fefe_fefe) | ((b << 15) & 0x7f7f_7f7f_7f7f_7f7f) | ((b
            << 10) & 0xfcfc_fcfc_fcfc_fcfc) | ((b << 6) & 0x3f3f_3f3f_3f3f_3f3f) | ((b >> 17)
            & 0x7f7f_7f7f_7f7f_7f7f) | ((b >> 15) & 0xfefe_fefe_fefe_fefe) | ((b >> 10)
            & 0x3f3f_3f3f_3f3f_3f3f) | ((b >> 6) & 0xfcfc_fcfc_fcfc_fcfc),
    }
}

/// The squares that a king on `sq` attacks.
pub fn king_attacks(sq: Square) -> (r: SquareSet)
    ensures
        r.inner == king_bits(single(sq.idx())),
{
    let s = sq.as_set();
    SquareSet {
        inner: s.north_one().inner | s.south_one().inner | s.east_one().inner | s.west_one().inner
            | s.north_east_one().inner | s.north_west_one().inner | s.south_east_one().inner
            | s.south_west_one().inner,
    }
}

/// The squares that pawns of `side` standing on `bb` attack.
pub fn pawn_attacks_of(side: Colour, bb: SquareSet) -> (r: SquareSet)
    ensures
        r.inner == pawn_attack_bits(side, bb.inner),
{
    match side {
        Colour::White => bb.north_east_one().union(bb.north_west_one()),
        Colour::Black => bb.south_east_one().union(bb.south_west_one()),
    }
}

/// The squares that pawns of the side `C` standing on `bb` attack.
pub fn pawn_attacks<C: Col>(bb: SquareSet) -> (r: SquareSet)
    ensures
        r.inner == pawn_attack_bits(C::side(), bb.inner),
{
    pawn_attacks_of(C::colour(), bb)
}

/// The squares that a piece of kind `pt` on `sq` attacks when `blockers` are occupied.
/// Not for pawns, whose attacks depend on their colour.
pub fn attacks_by_type(pt: PieceType, sq: Square, blockers: SquareSet) -> (r: SquareSet)
    requires
        pt != PieceType::Pawn,
    ensures
        r.inner == attack_bits(pt, sq.idx(), blockers.inner),
{
    match pt {
        PieceType::Bishop => bishop_attacks(sq, blockers),
        PieceType::Rook => rook_attacks(sq, blockers),
        PieceType::Queen => bishop_attacks(sq, blockers).union(rook_attacks(sq, blockers)),
        PieceType::Knight => knight_attacks(sq),
        _ => king_attacks(sq),
    }
}

/// The squares strictly between `a` and `b` where the two share a rank, a file or a
/// diagonal; no square otherwise.
pub fn ray_between(a: Square, b: Square) -> (res: SquareSet)
    ensures
        res.inner == between_bits(a.idx(), b.idx()),
{
    let ia: u8 = a.index();
    let ib: u8 = b.index();
    let fa: i8 = (ia % 8) as i8;
    let ra: i8 = (ia / 8) as i8;
    let fb: i8 = (ib % 8) as i8;
    let rb: i8 = (ib / 8) as i8;
    let gf: i8 = if fa > fb { fa - fb } else { fb - fa };
    let gr: i8 = if ra > rb { ra - rb } else { rb - ra };
    if ia == ib || !(fa == fb || ra == rb || gf == gr) {
        return SquareSet { inner: 0 };
    }
    let df: i8 = if fb < fa { -1 } else if fb > fa { 1 } else { 0 };
    let dr: i8 = if rb < ra { -1 } else if rb > ra { 1 } else { 0 };
    let mut f: i8 = fa;
    let mut r: i8 = ra;
    let mut acc: u64 = 0;
    let mut n: u8 = 7;
    let mut go = true;
    let ghost total = between_bits(a.idx(), b.idx());
    proof {
        lemma_or_assoc(total, 0, 0);
    }
    while go && n > 0
        invariant
            -1 <= df <= 1,
            -1 <= dr <= 1,
            0 <= f < 8,
            0 <= r < 8,
            n <= 7,
            total == acc | (if go {
                walk(f as int, r as int, df as int, dr as int, fb as int, rb as int, n as nat)
            } else {
                0
            }),
        decreases (if go { 1int } else { 0int }) + n,
    {
        let nf: i8 = f + df;
        let nr: i8 = r + dr;
        if (nf == fb && nr == rb) || nf < 0 || nf > 7 || nr < 0 || nr > 7 {
            go = false;
        } else {
            let bb: u64 = 1u64 << ((nr * 8 + nf) as u64);
            proof {
                let rest = walk(
                    nf as int,
                    nr as int,
                    df as int,
                    dr as int,
                    fb as int,
                    rb as int,
                    (n - 1) as nat,
                );
                lemma_or_assoc(acc, bb, rest);
            }
            acc = acc | bb;
            f = nf;
            r = nr;
            n = n - 1;
        }
    }
    proof {
        lemma_or_assoc(acc, 0, 0);
    }
    SquareSet { inner: acc }
}

} // verus!
