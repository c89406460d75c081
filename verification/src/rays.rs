use vstd::prelude::*;
use crate::attacks::{
    aligned, between_bits, bishop_bits, gap, king_bits, knight_bits, ray, rook_bits, sign, walk,
};
use crate::bits::{bit, lemma_bit_or, lemma_bit_single, lemma_bit_zero, single};

verus! {

/// The distance between the square on file `f` and rank `r` and square number `t`,
/// counted in king's steps.
pub open spec fn dist(f: int, r: int, t: int) -> int {
    if gap(t % 8, f) > gap(t / 8, r) {
        gap(t % 8, f)
    } else {
        gap(t / 8, r)
    }
}

/// Whether square number `t` lies on the line that starts beside the square on file
/// `f` and rank `r` and goes on in steps of (`df`, `dr`).
pub open spec fn on_ray(f: int, r: int, df: int, dr: int, t: int) -> bool {
    dist(f, r, t) >= 1 && t % 8 == f + dist(f, r, t) * df && t / 8 == r + dist(f, r, t) * dr
}

/// Whether the first `j - 1` squares of the line from the square on file `f` and rank
/// `r` in steps of (`df`, `dr`) are outside `occ`.
pub open spec fn clear_to(f: int, r: int, df: int, dr: int, occ: u64, j: int) -> bool
    decreases j,
{
    j <= 1 || (!bit(occ, (r + dr) * 8 + (f + df)) && clear_to(f + df, r + dr, df, dr, occ, j - 1))
}

/// Whether (`df`, `dr`) is one of the eight steps of a king.
pub open spec fn is_step(df: int, dr: int) -> bool {
    -1 <= df <= 1 && -1 <= dr <= 1 && !(df == 0 && dr == 0)
}

/// A sliding piece reaches exactly the squares on its line that are near enough and
/// have no occupied square before them.
pub proof fn lemma_ray_has(f: int, r: int, df: int, dr: int, occ: u64, n: nat, t: int)
    requires
        0 <= f < 8,
        0 <= r < 8,
        is_step(df, dr),
        0 <= t < 64,
        n <= 7,
    ensures
        bit(ray(f, r, df, dr, occ, n), t) == (on_ray(f, r, df, dr, t) && dist(f, r, t) <= n
            && clear_to(f, r, df, dr, occ, dist(f, r, t))),
    decreases n,
{
    let nf = f + df;
    let nr = r + dr;
    lemma_mul_step(dist(f, r, t), df);
    lemma_mul_step(dist(f, r, t), dr);
    lemma_mul_step(dist(nf, nr, t), df);
    lemma_mul_step(dist(nf, nr, t), dr);
    if n == 0 || !(0 <= nf < 8 && 0 <= nr < 8) {
        lemma_bit_zero(t as u64);
    } else {
        let b = single(nr * 8 + nf);
        lemma_bit_single((nr * 8 + nf) as u64, t as u64);
        if occ & b != 0 {
            lemma_and_single(occ, nr * 8 + nf);
        } else {
            lemma_and_single(occ, nr * 8 + nf);
            lemma_ray_has(nf, nr, df, dr, occ, (n - 1) as nat, t);
            lemma_bit_or(b, ray(nf, nr, df, dr, occ, (n - 1) as nat), t as u64);
        }
    }
}

/// A number times a step of -1, 0 or 1.
pub proof fn lemma_mul_step(j: int, d: int)
    requires
        -1 <= d <= 1,
    ensures
        j * d == (if d == 1 {
            j
        } else if d == -1 {
            -j
        } else {
            0
        }),
{
    assert(j * d == (if d == 1 {
        j
    } else if d == -1 {
        -j
    } else {
        0
    })) by (nonlinear_arith)
        requires
            -1 <= d <= 1,
    ;
}

/// A set meets a single square exactly when it holds it.
pub proof fn lemma_and_single(x: u64, i: int)
    requires
        0 <= i < 64,
    ensures
        (x & single(i) != 0) == bit(x, i),
{
    lemma_and_single_bv(x, i as u64);
}

proof fn lemma_and_single_bv(x: u64, i: u64)
    by (bit_vector)
    requires
        i < 64,
    ensures
        (x & (1u64 << i) != 0) == ((x >> i) & 1 == 1),
{
}

/// The squares before the end of a line are clear exactly when all but the last are
/// and the last is.
pub proof fn lemma_clear_last(f: int, r: int, df: int, dr: int, occ: u64, j: int)
    requires
        j >= 2,
    ensures
        clear_to(f, r, df, dr, occ, j) == (clear_to(f, r, df, dr, occ, j - 1) && !bit(
            occ,
            (r + (j - 1) * dr) * 8 + (f + (j - 1) * df),
        )),
    decreases j,
{
    assert(clear_to(f, r, df, dr, occ, j) == (!bit(occ, (r + dr) * 8 + (f + df)) && clear_to(
        f + df,
        r + dr,
        df,
        dr,
        occ,
        j - 1,
    )));
    if j > 2 {
        lemma_clear_last(f + df, r + dr, df, dr, occ, j - 1);
        assert((r + dr + (j - 2) * dr) * 8 + (f + df + (j - 2) * df) == (r + (j - 1) * dr) * 8 + (f
            + (j - 1) * df)) by (nonlinear_arith);
        assert(clear_to(f, r, df, dr, occ, j - 1) == (!bit(occ, (r + dr) * 8 + (f + df))
            && clear_to(f + df, r + dr, df, dr, occ, j - 2)));
    } else {
        assert((j - 1) * dr == dr && (j - 1) * df == df) by (nonlinear_arith)
            requires
                j == 2,
        ;
        assert(clear_to(f + df, r + dr, df, dr, occ, 1));
        assert(clear_to(f, r, df, dr, occ, 1));
    }
}

/// A line is clear from one end exactly when it is clear from the other.
pub proof fn lemma_clear_back(f: int, r: int, df: int, dr: int, occ: u64, j: int)
    requires
        j >= 1,
    ensures
        clear_to(f, r, df, dr, occ, j) == clear_to(f + j * df, r + j * dr, -df, -dr, occ, j),
    decreases j,
{
    if j >= 2 {
        lemma_clear_last(f, r, df, dr, occ, j);
        lemma_clear_back(f, r, df, dr, occ, j - 1);
        let tf = f + j * df;
        let tr = r + j * dr;
        assert(tf - df == f + (j - 1) * df && tr - dr == r + (j - 1) * dr) by (nonlinear_arith)
            requires
                tf == f + j * df,
                tr == r + j * dr,
        ;
    }
}

/// Along one line, a sliding piece on one square reaches another exactly when one on
/// the other reaches the first along the line back.
pub proof fn lemma_ray_back(s: int, t: int, df: int, dr: int, occ: u64)
    requires
        0 <= s < 64,
        0 <= t < 64,
        is_step(df, dr),
    ensures
        bit(ray(s % 8, s / 8, df, dr, occ, 7), t) == bit(ray(t % 8, t / 8, -df, -dr, occ, 7), s),
{
    lemma_ray_has(s % 8, s / 8, df, dr, occ, 7, t);
    lemma_ray_has(t % 8, t / 8, -df, -dr, occ, 7, s);
    let j = dist(s % 8, s / 8, t);
    if on_ray(s % 8, s / 8, df, dr, t) {
        lemma_clear_back(s % 8, s / 8, df, dr, occ, j);
        assert(j * df == t % 8 - s % 8);
        assert(j * dr == t / 8 - s / 8);
        assert(j * (-df) == -(j * df)) by (nonlinear_arith);
        assert(j * (-dr) == -(j * dr)) by (nonlinear_arith);
    }
    let k = dist(t % 8, t / 8, s);
    if on_ray(t % 8, t / 8, -df, -dr, s) {
        lemma_clear_back(t % 8, t / 8, -df, -dr, occ, k);
        assert(k * (-df) == -(k * df)) by (nonlinear_arith);
        assert(k * (-dr) == -(k * dr)) by (nonlinear_arith);
    }
}

/// A rook on one square attacks another exactly when a rook on the other attacks the
/// first.
pub proof fn lemma_rook_symmetric(s: int, t: int, occ: u64)
    requires
        0 <= s < 64,
        0 <= t < 64,
    ensures
        bit(rook_bits(s, occ), t) == bit(rook_bits(t, occ), s),
{
    lemma_ray_back(s, t, 0, 1, occ);
    lemma_ray_back(s, t, 0, -1, occ);
    lemma_ray_back(s, t, 1, 0, occ);
    lemma_ray_back(s, t, -1, 0, occ);
    lemma_or4(
        ray(s % 8, s / 8, 0, 1, occ, 7),
        ray(s % 8, s / 8, 0, -1, occ, 7),
        ray(s % 8, s / 8, 1, 0, occ, 7),
        ray(s % 8, s / 8, -1, 0, occ, 7),
        t,
    );
    lemma_or4(
        ray(t % 8, t / 8, 0, 1, occ, 7),
        ray(t % 8, t / 8, 0, -1, occ, 7),
        ray(t % 8, t / 8, 1, 0, occ, 7),
        ray(t % 8, t / 8, -1, 0, occ, 7),
        s,
    );
}

/// A bishop on one square attacks another exactly when a bishop on the other attacks
/// the first.
pub proof fn lemma_bishop_symmetric(s: int, t: int, occ: u64)
    requires
        0 <= s < 64,
        0 <= t < 64,
    ensures
        bit(bishop_bits(s, occ), t) == bit(bishop_bits(t, occ), s),
{
    lemma_ray_back(s, t, 1, 1, occ);
    lemma_ray_back(s, t, 1, -1, occ);
    lemma_ray_back(s, t, -1, 1, occ);
    lemma_ray_back(s, t, -1, -1, occ);
    lemma_or4(
        ray(s % 8, s / 8, 1, 1, occ, 7),
        ray(s % 8, s / 8, 1, -1, occ, 7),
        ray(s % 8, s / 8, -1, 1, occ, 7),
        ray(s % 8, s / 8, -1, -1, occ, 7),
        t,
    );
    lemma_or4(
        ray(t % 8, t / 8, 1, 1, occ, 7),
        ray(t % 8, t / 8, 1, -1, occ, 7),
        ray(t % 8, t / 8, -1, 1, occ, 7),
        ray(t % 8, t / 8, -1, -1, occ, 7),
        s,
    );
}

/// A square is in the union of four sets exactly when it is in one of them.
pub proof fn lemma_or4(a: u64, b: u64, c: u64, d: u64, i: int)
    requires
        0 <= i < 64,
    ensures
        bit(((a | b) | c) | d, i) == (bit(a, i) || bit(b, i) || bit(c, i) || bit(d, i)),
{
    lemma_bit_or(a, b, i as u64);
    lemma_bit_or(a | b, c, i as u64);
    lemma_bit_or((a | b) | c, d, i as u64);
}

/// A knight on one square attacks another exactly when a knight on the other attacks
/// the first; and so for kings.
pub proof fn lemma_leaper_symmetric(s: u64, t: u64)
    by (bit_vector)
    requires
        s < 64,
        t < 64,
    ensures
        bit(knight_bits(1u64 << s), t as int) == bit(knight_bits(1u64 << t), s as int),
        bit(king_bits(1u64 << s), t as int) == bit(king_bits(1u64 << t), s as int),
{
}


/// Walking along a line towards a square on it passes exactly the squares of the line
/// that are nearer than that square.
pub proof fn lemma_walk_has(f: int, r: int, df: int, dr: int, t: int, n: nat, m: int)
    requires
        0 <= f < 8,
        0 <= r < 8,
        is_step(df, dr),
        0 <= t < 64,
        0 <= m < 64,
        on_ray(f, r, df, dr, t),
        dist(f, r, t) <= n + 1,
        n <= 7,
    ensures
        bit(walk(f, r, df, dr, t % 8, t / 8, n), m) == (on_ray(f, r, df, dr, m) && dist(f, r, m)
            < dist(f, r, t)),
    decreases n,
{
    let nf = f + df;
    let nr = r + dr;
    lemma_mul_step(dist(f, r, t), df);
    lemma_mul_step(dist(f, r, t), dr);
    lemma_mul_step(dist(f, r, m), df);
    lemma_mul_step(dist(f, r, m), dr);
    lemma_mul_step(dist(nf, nr, t), df);
    lemma_mul_step(dist(nf, nr, t), dr);
    lemma_mul_step(dist(nf, nr, m), df);
    lemma_mul_step(dist(nf, nr, m), dr);
    if n == 0 || (nf == t % 8 && nr == t / 8) || !(0 <= nf < 8 && 0 <= nr < 8) {
        lemma_bit_zero(m as u64);
    } else {
        lemma_bit_single((nr * 8 + nf) as u64, m as u64);
        lemma_walk_has(nf, nr, df, dr, t, (n - 1) as nat, m);
        lemma_bit_or(
            single(nr * 8 + nf),
            walk(nf, nr, df, dr, t % 8, t / 8, (n - 1) as nat),
            m as u64,
        );
    }
}

/// Whether square number `m` lies strictly between the squares `a` and `b`, which
/// share a rank, a file or a diagonal: on the line from `a` towards `b`, and nearer to
/// `a` than `b` is.
pub open spec fn lies_between(a: int, b: int, m: int) -> bool {
    aligned(a, b) && on_ray(a % 8, a / 8, sign(b % 8 - a % 8), sign(b / 8 - a / 8), m) && dist(
        a % 8,
        a / 8,
        m,
    ) < dist(a % 8, a / 8, b)
}

/// The squares between two squares are exactly the squares that lie strictly between
/// them on a rank, a file or a diagonal that both share.
pub proof fn lemma_between_has(a: int, b: int, m: int)
    requires
        0 <= a < 64,
        0 <= b < 64,
        0 <= m < 64,
    ensures
        bit(between_bits(a, b), m) == lies_between(a, b, m),
{
    if aligned(a, b) {
        let df = sign(b % 8 - a % 8);
        let dr = sign(b / 8 - a / 8);
        lemma_mul_step(dist(a % 8, a / 8, b), df);
        lemma_mul_step(dist(a % 8, a / 8, b), dr);
        lemma_walk_has(a % 8, a / 8, df, dr, b, 7, m);
    } else {
        lemma_bit_zero(m as u64);
    }
}

} // verus!
