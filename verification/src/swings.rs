use vstd::prelude::*;
use crate::attacks::{
    attack_bits, bishop_bits, king_step, knight_step, lemma_king_geometry, lemma_knight_geometry,
    rook_bits,
};
use crate::bits::{bit, lemma_bit_or, lemma_bit_zero};
use crate::rays::{clear_to, dist, lemma_mul_step, lemma_or4, lemma_ray_has, on_ray};
use crate::types::PieceType;

verus! {

/// Whether a piece of kind `kind` on square number `s` attacks square number `t` on an
/// empty board.
pub open spec fn reaches(kind: PieceType, s: int, t: int) -> bool {
    bit(attack_bits(kind, s, 0), t)
}

/// 1 where `c` holds, 0 where it does not.
pub open spec fn one_if(c: bool) -> int {
    if c {
        1
    } else {
        0
    }
}

/// The number of squares below `b` on the rank of square `s`, on file `f`, towards the
/// h-file.
pub open spec fn run_east(f: int, s: int, b: int) -> int {
    one_if(f + 1 <= 7 && s + 1 < b)
        + one_if(f + 2 <= 7 && s + 2 < b)
        + one_if(f + 3 <= 7 && s + 3 < b)
        + one_if(f + 4 <= 7 && s + 4 < b)
        + one_if(f + 5 <= 7 && s + 5 < b)
        + one_if(f + 6 <= 7 && s + 6 < b)
        + one_if(f + 7 <= 7 && s + 7 < b)
}

/// The number of squares below `b` on the file of square `s`, on rank `r`, above it.
pub open spec fn run_north(r: int, s: int, b: int) -> int {
    one_if(r + 1 <= 7 && s + 8 < b)
        + one_if(r + 2 <= 7 && s + 16 < b)
        + one_if(r + 3 <= 7 && s + 24 < b)
        + one_if(r + 4 <= 7 && s + 32 < b)
        + one_if(r + 5 <= 7 && s + 40 < b)
        + one_if(r + 6 <= 7 && s + 48 < b)
        + one_if(r + 7 <= 7 && s + 56 < b)
}

/// The number of squares below `b` on the diagonal of square `s` upwards towards the
/// h-file.
pub open spec fn run_north_east(f: int, r: int, s: int, b: int) -> int {
    one_if(f + 1 <= 7 && r + 1 <= 7 && s + 9 < b)
        + one_if(f + 2 <= 7 && r + 2 <= 7 && s + 18 < b)
        + one_if(f + 3 <= 7 && r + 3 <= 7 && s + 27 < b)
        + one_if(f + 4 <= 7 && r + 4 <= 7 && s + 36 < b)
        + one_if(f + 5 <= 7 && r + 5 <= 7 && s + 45 < b)
        + one_if(f + 6 <= 7 && r + 6 <= 7 && s + 54 < b)
        + one_if(f + 7 <= 7 && r + 7 <= 7 && s + 63 < b)
}

/// The number of squares below `b` on the diagonal of square `s` upwards towards the
/// a-file.
pub open spec fn run_north_west(f: int, r: int, s: int, b: int) -> int {
    one_if(f - 1 >= 0 && r + 1 <= 7 && s + 7 < b)
        + one_if(f - 2 >= 0 && r + 2 <= 7 && s + 14 < b)
        + one_if(f - 3 >= 0 && r + 3 <= 7 && s + 21 < b)
        + one_if(f - 4 >= 0 && r + 4 <= 7 && s + 28 < b)
        + one_if(f - 5 >= 0 && r + 5 <= 7 && s + 35 < b)
        + one_if(f - 6 >= 0 && r + 6 <= 7 && s + 42 < b)
        + one_if(f - 7 >= 0 && r + 7 <= 7 && s + 49 < b)
}

/// The number of squares above `s` and below `b` that a piece of kind `kind` on `s`
/// attacks on an empty board, counted line by line.
pub open spec fn reached_by_line(kind: PieceType, s: int, b: int) -> int {
    let f = s % 8;
    let r = s / 8;
    match kind {
        PieceType::Pawn => 0,
        PieceType::Knight => one_if(f - 2 >= 0 && r + 1 <= 7 && s + 6 < b) + one_if(
            f + 2 <= 7 && r + 1 <= 7 && s + 10 < b,
        ) + one_if(f - 1 >= 0 && r + 2 <= 7 && s + 15 < b) + one_if(
            f + 1 <= 7 && r + 2 <= 7 && s + 17 < b,
        ),
        PieceType::Bishop => run_north_east(f, r, s, b) + run_north_west(f, r, s, b),
        PieceType::Rook => run_east(f, s, b) + run_north(r, s, b),
        PieceType::Queen => run_east(f, s, b) + run_north(r, s, b) + run_north_east(f, r, s, b)
            + run_north_west(f, r, s, b),
        PieceType::King => one_if(f + 1 <= 7 && s + 1 < b) + one_if(r + 1 <= 7 && s + 8 < b) + one_if(
            f + 1 <= 7 && r + 1 <= 7 && s + 9 < b,
        ) + one_if(f - 1 >= 0 && r + 1 <= 7 && s + 7 < b),
    }
}

/// The number of squares above `s` and below `b` that a piece of kind `kind` on `s`
/// attacks on an empty board, counted square by square.
pub open spec fn reached_above(kind: PieceType, s: int, b: int) -> int
    decreases b - s,
{
    if b <= s + 1 {
        0
    } else {
        reached_above(kind, s, b - 1) + one_if(reaches(kind, s, b - 1))
    }
}

/// The number of moves of a piece of kind `kind` from a square below `a` to a higher
/// square that it attacks on an empty board.
pub open spec fn total_below(kind: PieceType, a: int) -> int
    decreases a,
{
    if a <= 0 {
        0
    } else {
        total_below(kind, a - 1) + reached_above(kind, a - 1, 64)
    }
}

/// The same number, counted line by line.
pub open spec fn total_by_line(kind: PieceType, a: int) -> int
    decreases a,
{
    if a <= 0 {
        0
    } else {
        total_by_line(kind, a - 1) + reached_by_line(kind, a - 1, 64)
    }
}

proof fn lemma_empty_clear(f: int, r: int, df: int, dr: int, j: int)
    ensures
        clear_to(f, r, df, dr, 0, j),
    decreases j,
{
    if j > 1 {
        lemma_empty_clear(f + df, r + dr, df, dr, j - 1);
        let i = (r + dr) * 8 + (f + df);
        if 0 <= i < 64 {
            lemma_bit_zero(i as u64);
        }
    }
}

proof fn lemma_line(s: int, t: int, df: int, dr: int)
    requires
        0 <= s < 64,
        0 <= t < 64,
        crate::rays::is_step(df, dr),
    ensures
        bit(crate::attacks::ray(s % 8, s / 8, df, dr, 0, 7), t) == on_ray(s % 8, s / 8, df, dr, t),
{
    lemma_ray_has(s % 8, s / 8, df, dr, 0, 7, t);
    lemma_empty_clear(s % 8, s / 8, df, dr, dist(s % 8, s / 8, t));
    lemma_mul_step(dist(s % 8, s / 8, t), df);
    lemma_mul_step(dist(s % 8, s / 8, t), dr);
}

/// On an empty board a rook attacks the squares of its rank and file.
pub proof fn lemma_rook_reach(s: int, t: int)
    requires
        0 <= s < 64,
        0 <= t < 64,
        s != t,
    ensures
        reaches(PieceType::Rook, s, t) == (t / 8 == s / 8 || t % 8 == s % 8),
{
    let f = s % 8;
    let r = s / 8;
    lemma_line(s, t, 0, 1);
    lemma_line(s, t, 0, -1);
    lemma_line(s, t, 1, 0);
    lemma_line(s, t, -1, 0);
    lemma_mul_step(dist(f, r, t), 0);
    lemma_mul_step(dist(f, r, t), 1);
    lemma_mul_step(dist(f, r, t), -1);
    lemma_or4(
        crate::attacks::ray(f, r, 0, 1, 0, 7),
        crate::attacks::ray(f, r, 0, -1, 0, 7),
        crate::attacks::ray(f, r, 1, 0, 0, 7),
        crate::attacks::ray(f, r, -1, 0, 0, 7),
        t,
    );
}

/// On an empty board a bishop attacks the squares of its diagonals.
pub proof fn lemma_bishop_reach(s: int, t: int)
    requires
        0 <= s < 64,
        0 <= t < 64,
        s != t,
    ensures
        reaches(PieceType::Bishop, s, t) == (t / 8 - s / 8 == t % 8 - s % 8 || t / 8 - s / 8 == s
            % 8 - t % 8),
{
    let f = s % 8;
    let r = s / 8;
    lemma_line(s, t, 1, 1);
    lemma_line(s, t, 1, -1);
    lemma_line(s, t, -1, 1);
    lemma_line(s, t, -1, -1);
    lemma_mul_step(dist(f, r, t), 1);
    lemma_mul_step(dist(f, r, t), -1);
    lemma_or4(
        crate::attacks::ray(f, r, 1, 1, 0, 7),
        crate::attacks::ray(f, r, 1, -1, 0, 7),
        crate::attacks::ray(f, r, -1, 1, 0, 7),
        crate::attacks::ray(f, r, -1, -1, 0, 7),
        t,
    );
}

proof fn lemma_step_rook(s: int, t: int)
    requires
        0 <= s < t < 64,
    ensures
        one_if(t / 8 == s / 8 || t % 8 == s % 8) == (run_east(s % 8, s, t + 1) + run_north(
            s / 8,
            s,
            t + 1,
        )) - (run_east(s % 8, s, t) + run_north(s / 8, s, t)),
{
}

proof fn lemma_step_bishop(s: int, t: int)
    requires
        0 <= s < t < 64,
    ensures
        one_if(t / 8 - s / 8 == t % 8 - s % 8 || t / 8 - s / 8 == s % 8 - t % 8) == (run_north_east(
            s % 8,
            s / 8,
            s,
            t + 1,
        ) + run_north_west(s % 8, s / 8, s, t + 1)) - (run_north_east(s % 8, s / 8, s, t)
            + run_north_west(s % 8, s / 8, s, t)),
{
}

proof fn lemma_step_leapers(s: int, t: int)
    requires
        0 <= s < t < 64,
    ensures
        one_if(knight_step(s, t)) == reached_by_line(PieceType::Knight, s, t + 1)
            - reached_by_line(PieceType::Knight, s, t),
        one_if(king_step(s, t)) == reached_by_line(PieceType::King, s, t + 1) - reached_by_line(
            PieceType::King,
            s,
            t,
        ),
{
}

/// One more square counted adds one where the piece attacks it.
pub proof fn lemma_step(kind: PieceType, s: int, t: int)
    requires
        0 <= s < t < 64,
        kind != PieceType::Pawn,
    ensures
        one_if(reaches(kind, s, t)) == reached_by_line(kind, s, t + 1) - reached_by_line(kind, s, t),
{
    match kind {
        PieceType::Knight => {
            lemma_knight_geometry(s as u64, t as u64);
            lemma_step_leapers(s, t);
        },
        PieceType::King => {
            lemma_king_geometry(s as u64, t as u64);
            lemma_step_leapers(s, t);
        },
        PieceType::Rook => {
            lemma_rook_reach(s, t);
            lemma_step_rook(s, t);
        },
        PieceType::Bishop => {
            lemma_bishop_reach(s, t);
            lemma_step_bishop(s, t);
        },
        _ => {
            lemma_rook_reach(s, t);
            lemma_bishop_reach(s, t);
            lemma_step_rook(s, t);
            lemma_step_bishop(s, t);
            lemma_bit_or(bishop_bits(s, 0), rook_bits(s, 0), t as u64);
        },
    }
}

/// Counting square by square and counting line by line give the same number.
pub proof fn lemma_reached_above(kind: PieceType, s: int, b: int)
    requires
        0 <= s < b <= 64,
        kind != PieceType::Pawn,
    ensures
        reached_above(kind, s, b) == reached_by_line(kind, s, b),
    decreases b - s,
{
    if b > s + 1 {
        lemma_reached_above(kind, s, b - 1);
        lemma_step(kind, s, b - 1);
    }
}

proof fn lemma_total_below(kind: PieceType, a: int)
    requires
        0 <= a <= 64,
        kind != PieceType::Pawn,
    ensures
        total_below(kind, a) == total_by_line(kind, a),
    decreases a,
{
    if a > 0 {
        lemma_total_below(kind, a - 1);
        if a - 1 < 63 {
            lemma_reached_above(kind, a - 1, 64);
        }
    }
}

proof fn lemma_sum_knight()
    ensures
        total_by_line(PieceType::Knight, 64) == 168,
{
    assert(total_by_line(PieceType::Knight, 8) == 26) by {
        reveal_with_fuel(total_by_line, 9);
    }
    assert(total_by_line(PieceType::Knight, 16) == 52) by {
        reveal_with_fuel(total_by_line, 9);
    }
    assert(total_by_line(PieceType::Knight, 24) == 78) by {
        reveal_with_fuel(total_by_line, 9);
    }
    assert(total_by_line(PieceType::Knight, 32) == 104) by {
        reveal_with_fuel(total_by_line, 9);
    }
    assert(total_by_line(PieceType::Knight, 40) == 130) by {
        reveal_with_fuel(total_by_line, 9);
    }
    assert(total_by_line(PieceType::Knight, 48) == 156) by {
        reveal_with_fuel(total_by_line, 9);
    }
    assert(total_by_line(PieceType::Knight, 56) == 168) by {
        reveal_with_fuel(total_by_line, 9);
    }
    assert(total_by_line(PieceType::Knight, 64) == 168) by {
        reveal_with_fuel(total_by_line, 9);
    }
}

proof fn lemma_sum_bishop()
    ensures
        total_by_line(PieceType::Bishop, 64) == 280,
{
    assert(total_by_line(PieceType::Bishop, 8) == 56) by {
        reveal_with_fuel(total_by_line, 9);
    }
    assert(total_by_line(PieceType::Bishop, 16) == 110) by {
        reveal_with_fuel(total_by_line, 9);
    }
    assert(total_by_line(PieceType::Bishop, 24) == 160) by {
        reveal_with_fuel(total_by_line, 9);
    }
    assert(total_by_line(PieceType::Bishop, 32) == 204) by {
        reveal_with_fuel(total_by_line, 9);
    }
    assert(total_by_line(PieceType::Bishop, 40) == 240) by {
        reveal_with_fuel(total_by_line, 9);
    }
    assert(total_by_line(PieceType::Bishop, 48) == 266) by {
        reveal_with_fuel(total_by_line, 9);
    }
    assert(total_by_line(PieceType::Bishop, 56) == 280) by {
        reveal_with_fuel(total_by_line, 9);
    }
    assert(total_by_line(PieceType::Bishop, 64) == 280) by {
        reveal_with_fuel(total_by_line, 9);
    }
}

proof fn lemma_sum_rook()
    ensures
        total_by_line(PieceType::Rook, 64) == 448,
{
    assert(total_by_line(PieceType::Rook, 8) == 84) by {
        reveal_with_fuel(total_by_line, 9);
    }
    assert(total_by_line(PieceType::Rook, 16) == 160) by {
        reveal_with_fuel(total_by_line, 9);
    }
    assert(total_by_line(PieceType::Rook, 24) == 228) by {
        reveal_with_fuel(total_by_line, 9);
    }
    assert(total_by_line(PieceType::Rook, 32) == 288) by {
        reveal_with_fuel(total_by_line, 9);
    }
    assert(total_by_line(PieceType::Rook, 40) == 340) by {
        reveal_with_fuel(total_by_line, 9);
    }
    assert(total_by_line(PieceType::Rook, 48) == 384) by {
        reveal_with_fuel(total_by_line, 9);
    }
    assert(total_by_line(PieceType::Rook, 56) == 420) by {
        reveal_with_fuel(total_by_line, 9);
    }
    assert(total_by_line(PieceType::Rook, 64) == 448) by {
        reveal_with_fuel(total_by_line, 9);
    }
}

proof fn lemma_sum_queen(a: int)
    requires
        0 <= a <= 64,
    ensures
        total_by_line(PieceType::Queen, a) == total_by_line(PieceType::Rook, a) + total_by_line(
            PieceType::Bishop,
            a,
        ),
    decreases a,
{
    if a > 0 {
        lemma_sum_queen(a - 1);
    }
}

proof fn lemma_sum_king()
    ensures
        total_by_line(PieceType::King, 64) == 210,
{
    assert(total_by_line(PieceType::King, 8) == 29) by {
        reveal_with_fuel(total_by_line, 9);
    }
    assert(total_by_line(PieceType::King, 16) == 58) by {
        reveal_with_fuel(total_by_line, 9);
    }
    assert(total_by_line(PieceType::King, 24) == 87) by {
        reveal_with_fuel(total_by_line, 9);
    }
    assert(total_by_line(PieceType::King, 32) == 116) by {
        reveal_with_fuel(total_by_line, 9);
    }
    assert(total_by_line(PieceType::King, 40) == 145) by {
        reveal_with_fuel(total_by_line, 9);
    }
    assert(total_by_line(PieceType::King, 48) == 174) by {
        reveal_with_fuel(total_by_line, 9);
    }
    assert(total_by_line(PieceType::King, 56) == 203) by {
        reveal_with_fuel(total_by_line, 9);
    }
    assert(total_by_line(PieceType::King, 64) == 210) by {
        reveal_with_fuel(total_by_line, 9);
    }
}

/// The number of moves from a lower to a higher square, on an empty board, of the kinds
/// of piece that come before place `k` in the order knight, bishop, rook, queen, king.
pub open spec fn kinds_before(k: int) -> int {
    if k <= 0 {
        0
    } else if k == 1 {
        168
    } else if k == 2 {
        448
    } else if k == 3 {
        896
    } else if k == 4 {
        1624
    } else {
        1834
    }
}

/// The number of moves from a lower to a higher square that each kind of piece can
/// make on an empty board: 168 for the knight, 280 for the bishop, 448 for the rook, 728
/// for the queen and 210 for the king.
pub proof fn lemma_totals()
    ensures
        total_below(PieceType::Knight, 64) == 168,
        total_below(PieceType::Bishop, 64) == 280,
        total_below(PieceType::Rook, 64) == 448,
        total_below(PieceType::Queen, 64) == 728,
        total_below(PieceType::King, 64) == 210,
{
    lemma_total_below(PieceType::Knight, 64);
    lemma_total_below(PieceType::Bishop, 64);
    lemma_total_below(PieceType::Rook, 64);
    lemma_total_below(PieceType::Queen, 64);
    lemma_total_below(PieceType::King, 64);
    lemma_sum_knight();
    lemma_sum_bishop();
    lemma_sum_rook();
    lemma_sum_queen(64);
    lemma_sum_king();
}

} // verus!
