use vstd::prelude::*;
use crate::board::Board;
use crate::castling::CastlingRights;
use crate::fen::{
    field, field_start, file_right, has_lower, has_upper, is_number, number_upto, only_at,
    parse_castling, parse_ep, parse_fen, parse_fullmove, parse_halfmove, parse_info, parse_side,
    place_byte, place_of, placed_upto, plain_right, rights_upto, space_from, stands_once, FenError,
    FenInfo, ParsedFen, Placement,
};
use crate::notation::{
    as_chars, decimal, ep_text, placement_run, placement_text, reading_square, rights_text,
    with_run,
};
use crate::position::king_place;
use crate::types::{Colour, Piece, PieceType, Square};

verus! {

broadcast use crate::types::group_square;

/// Whether `s` holds no space.
pub open spec fn no_space(s: Seq<u8>) -> bool {
    forall|i: int| 0 <= i < s.len() ==> #[trigger] s[i] != 32
}

proof fn lemma_number_prefix(s: Seq<u8>, t: Seq<u8>, n: int)
    requires
        0 <= n <= s.len(),
        n <= t.len(),
        forall|i: int| 0 <= i < n ==> s[i] == t[i],
    ensures
        number_upto(s, n) == number_upto(t, n),
    decreases n,
{
    if n > 0 {
        lemma_number_prefix(s, t, n - 1);
    }
}

/// The digits of a number, read as a number, give the number back.
pub proof fn lemma_number_back(s: Seq<u8>, n: nat)
    requires
        as_chars(s) == decimal(n),
    ensures
        is_number(s),
        number_upto(s, s.len() as int) == n,
        no_space(s),
    decreases n,
{
    if n < 10 {
        assert(as_chars(s).len() == 1);
        assert(as_chars(s)[0] == s[0] as char);
        assert(s[0] == 48 + n);
        reveal_with_fuel(number_upto, 2);
    } else {
        let t = s.drop_last();
        let l = s.len() - 1;
        assert(as_chars(s).len() == decimal(n / 10).len() + 1);
        assert(as_chars(t) =~= decimal(n / 10)) by {
            assert forall|i: int| 0 <= i < t.len() implies as_chars(t)[i] == decimal(n / 10)[i] by {
                assert(as_chars(s)[i] == s[i] as char);
            }
        }
        lemma_number_back(t, n / 10);
        lemma_number_prefix(s, t, l);
        assert(as_chars(s)[l] == s[l] as char);
        assert(s[l] == 48 + n % 10);
        assert forall|i: int| 0 <= i < s.len() implies 48 <= #[trigger] s[i] <= 57 && s[i] != 32 by {
            if i < l {
                assert(t[i] == s[i]);
            }
        }
    }
}

/// The text of an en-passant square, read, gives the square back.
pub proof fn lemma_ep_back(s: Seq<u8>, ep: Option<Square>)
    requires
        as_chars(s) == ep_text(ep),
    ensures
        parse_ep(Some(s)) == Ok::<Option<Square>, crate::fen::FenError>(ep),
        no_space(s),
        s.len() > 0,
{
    match ep {
        Some(sq) => {
            let nb = sq.name_bytes();
            assert(as_chars(s).len() == 2);
            assert(as_chars(s)[0] == s[0] as char);
            assert(as_chars(s)[1] == s[1] as char);
            assert(as_chars(nb)[0] == nb[0] as char);
            assert(as_chars(nb)[1] == nb[1] as char);
            assert(s[0] == 97 + sq.idx() % 8);
            assert(s[1] == 49 + sq.idx() / 8);
            assert((s[1] - 49) * 8 + (s[0] - 97) == sq.idx());
            assert(!(s =~= seq![45u8]));
        },
        None => {
            assert(as_chars(s).len() == 1);
            assert(as_chars(s)[0] == s[0] as char);
            assert(s =~= seq![45u8]);
        },
    }
}

/// A run of bytes without a space, at the end of the text or before a space, is read
/// up to its end.
pub proof fn lemma_space_from(s: Seq<u8>, i: int, end: int)
    requires
        0 <= i <= end <= s.len(),
        forall|j: int| i <= j < end ==> #[trigger] s[j] != 32,
        end == s.len() || s[end] == 32,
    ensures
        space_from(s, i) == end,
    decreases end - i,
{
    if i < end {
        lemma_space_from(s, i + 1, end);
    }
}

/// Bytes that stand for the same characters are the same bytes.
pub proof fn lemma_chars_injective(s: Seq<u8>, t: Seq<u8>)
    requires
        as_chars(s) == as_chars(t),
    ensures
        s == t,
{
    assert(as_chars(s).len() == s.len());
    assert(as_chars(t).len() == t.len());
    assert forall|i: int| 0 <= i < s.len() implies s[i] == t[i] by {
        assert(as_chars(s)[i] == s[i] as char);
        assert(as_chars(t)[i] == t[i] as char);
    }
    assert(s =~= t);
}

/// The characters of two runs of bytes put together.
pub proof fn lemma_chars_add(s: Seq<u8>, t: Seq<u8>)
    ensures
        as_chars(s + t) == as_chars(s) + as_chars(t),
{
    assert(as_chars(s + t) =~= as_chars(s) + as_chars(t));
}

/// The digit for a run of `run` empty squares, if there is a run.
pub open spec fn run_bytes(run: int) -> Seq<u8> {
    if run > 0 {
        seq![(48 + run) as u8]
    } else {
        Seq::empty()
    }
}

/// The bytes that the square at place `k` of the reading order adds to the piece
/// placement.
pub open spec fn step_bytes(mb: Seq<Option<Piece>>, k: int) -> Seq<u8> {
    let run = placement_run(mb, k);
    let a = match mb[reading_square(k)] {
        Some(p) => run_bytes(run).push(p.letter()),
        None => Seq::empty(),
    };
    let run2 = match mb[reading_square(k)] {
        Some(_) => 0,
        None => run + 1,
    };
    if k % 8 == 7 {
        if k != 63 {
            (a + run_bytes(run2)).push(47u8)
        } else {
            a + run_bytes(run2)
        }
    } else {
        a
    }
}

/// The piece placement of the first `n` squares read, as bytes.
pub open spec fn placement_bytes(mb: Seq<Option<Piece>>, n: int) -> Seq<u8>
    decreases n,
{
    if n <= 0 {
        Seq::empty()
    } else {
        placement_bytes(mb, n - 1) + step_bytes(mb, n - 1)
    }
}

proof fn lemma_run_bound(mb: Seq<Option<Piece>>, n: int)
    requires
        0 <= n <= 64,
    ensures
        0 <= placement_run(mb, n) <= n % 8,
    decreases n,
{
    if n > 0 && (n - 1) % 8 != 7 {
        lemma_run_bound(mb, n - 1);
    }
}

proof fn lemma_placement_bytes(mb: Seq<Option<Piece>>, n: int)
    requires
        0 <= n <= 64,
    ensures
        as_chars(placement_bytes(mb, n)) == placement_text(mb, n),
    decreases n,
{
    if n <= 0 {
        assert(as_chars(placement_bytes(mb, n)) =~= placement_text(mb, n));
    } else {
        let k = n - 1;
        lemma_placement_bytes(mb, k);
        lemma_run_bound(mb, k);
        lemma_chars_add(placement_bytes(mb, k), step_bytes(mb, k));
        let run = placement_run(mb, k);
        let text = placement_text(mb, k);
        let a = match mb[reading_square(k)] {
            Some(p) => with_run(text, run).push(p.letter() as char),
            None => text,
        };
        let ab = match mb[reading_square(k)] {
            Some(p) => run_bytes(run).push(p.letter()),
            None => Seq::<u8>::empty(),
        };
        let run2 = match mb[reading_square(k)] {
            Some(_) => 0,
            None => run + 1,
        };
        assert(text + as_chars(ab) =~= a);
        assert(text + as_chars(ab + run_bytes(run2)) =~= with_run(a, run2));
        assert(text + as_chars((ab + run_bytes(run2)).push(47u8)) =~= with_run(a, run2).push('/'));
    }
}

/// The board on which the first `n` squares read hold what `mb` holds, and the others
/// hold nothing.
pub open spec fn read_upto(mb: Seq<Option<Piece>>, n: int) -> Seq<Option<Piece>> {
    Seq::new(
        64,
        |i: int|
            if reading_square(i) < n {
                mb[i]
            } else {
                None
            },
    )
}

/// Where the reading of a piece placement stands once the first `n` squares are read:
/// the pieces put so far, and the rank and file that come next.
pub open spec fn read_state(mb: Seq<Option<Piece>>, n: int) -> Placement {
    Placement {
        mb: read_upto(mb, n),
        rank: if n == 64 {
            0
        } else {
            7 - n / 8
        },
        file: if n == 64 {
            8
        } else {
            n % 8 - placement_run(mb, n)
        },
    }
}

proof fn lemma_placed_prefix(s: Seq<u8>, t: Seq<u8>, n: int)
    requires
        0 <= n <= s.len(),
        n <= t.len(),
        forall|i: int| 0 <= i < n ==> s[i] == t[i],
    ensures
        placed_upto(s, n) == placed_upto(t, n),
    decreases n,
{
    if n > 0 {
        lemma_placed_prefix(s, t, n - 1);
    }
}

proof fn lemma_feed(t: Seq<u8>, n: int, p: Placement, b: u8)
    requires
        0 <= n < t.len(),
        placed_upto(t, n) == Ok::<Placement, FenError>(p),
        t[n] == b,
    ensures
        placed_upto(t, n + 1) == place_byte(p, b),
{
}

proof fn lemma_letter(p: Piece)
    ensures
        Piece::of_letter(p.letter()) == Some(p),
        p.letter() != 47,
        p.letter() != 32,
        !(49 <= p.letter() <= 56),
{
}

proof fn lemma_read_step(mb: Seq<Option<Piece>>, k: int)
    requires
        mb.len() == 64,
        0 <= k < 64,
    ensures
        0 <= reading_square(k) < 64,
        reading_square(k) == (7 - k / 8) * 8 + k % 8,
        read_upto(mb, k + 1) == read_upto(mb, k).update(reading_square(k), mb[reading_square(k)]),
        mb[reading_square(k)] is None ==> read_upto(mb, k + 1) == read_upto(mb, k),
{
    let r = reading_square(k);
    assert forall|i: int| 0 <= i < 64 implies (reading_square(i) == k) == (i == r) by {
    }
    assert(read_upto(mb, k + 1) =~= read_upto(mb, k).update(r, mb[r]));
    if mb[r] is None {
        assert(read_upto(mb, k + 1) =~= read_upto(mb, k));
    }
}

proof fn lemma_placed_step(mb: Seq<Option<Piece>>, k: int)
    requires
        mb.len() == 64,
        0 <= k < 64,
        placed_upto(placement_bytes(mb, k), placement_bytes(mb, k).len() as int) == Ok::<
            Placement,
            FenError,
        >(read_state(mb, k)),
    ensures
        placed_upto(placement_bytes(mb, k + 1), placement_bytes(mb, k + 1).len() as int) == Ok::<
            Placement,
            FenError,
        >(read_state(mb, k + 1)),
{
    let pre = placement_bytes(mb, k);
    let l = pre.len() as int;
    let u = step_bytes(mb, k);
    let t = placement_bytes(mb, k + 1);
    assert(t == pre + u);
    let run = placement_run(mb, k);
    let p0 = read_state(mb, k);
    let rank = 7 - k / 8;
    lemma_placed_prefix(t, pre, l);
    lemma_run_bound(mb, k);
    lemma_run_bound(mb, k + 1);
    lemma_read_step(mb, k);
    let r = reading_square(k);
    match mb[r] {
        Some(p) => {
            lemma_letter(p);
            assert(placement_run(mb, k + 1) == 0);
            let j: int = if run > 0 {
                1
            } else {
                0
            };
            let p1 = Placement { mb: p0.mb, rank, file: k % 8 };
            if run > 0 {
                assert(t[l] == 48 + run);
                lemma_feed(t, l, p0, t[l]);
            }
            assert(placed_upto(t, l + j) == Ok::<Placement, FenError>(p1));
            assert(t[l + j] == p.letter());
            lemma_feed(t, l + j, p1, t[l + j]);
            let p2 = Placement { mb: read_upto(mb, k + 1), rank, file: k % 8 + 1 };
            assert(rank * 8 + k % 8 == r);
            assert(placed_upto(t, l + j + 1) == Ok::<Placement, FenError>(p2));
            if k % 8 == 7 && k != 63 {
                assert(t[l + j + 1] == 47);
                lemma_feed(t, l + j + 1, p2, 47);
                assert(t.len() == l + j + 2);
            } else {
                assert(t.len() == l + j + 1);
            }
        },
        None => {
            if k % 8 == 7 {
                assert(t[l] == 48 + run + 1);
                lemma_feed(t, l, p0, t[l]);
                let p1 = Placement { mb: read_upto(mb, k + 1), rank, file: 8 };
                assert(placed_upto(t, l + 1) == Ok::<Placement, FenError>(p1));
                if k != 63 {
                    assert(t[l + 1] == 47);
                    lemma_feed(t, l + 1, p1, 47);
                    assert(t.len() == l + 2);
                } else {
                    assert(t.len() == l + 1);
                }
            } else {
                assert(t =~= pre);
                assert(placement_run(mb, k + 1) == run + 1);
            }
        },
    }
}

/// The piece placement of a board, read, gives the board back: the reading ends at the
/// end of the first rank with every piece on its square.
pub proof fn lemma_placement_back(mb: Seq<Option<Piece>>, n: int)
    requires
        mb.len() == 64,
        0 <= n <= 64,
    ensures
        placed_upto(placement_bytes(mb, n), placement_bytes(mb, n).len() as int) == Ok::<
            Placement,
            FenError,
        >(read_state(mb, n)),
        no_space(placement_bytes(mb, n)),
        n == 64 ==> read_state(mb, n).mb == mb,
    decreases n,
{
    if n <= 0 {
        assert(read_upto(mb, 0) =~= Seq::new(64, |i: int| None::<Piece>));
    } else {
        lemma_placement_back(mb, n - 1);
        lemma_placed_step(mb, n - 1);
        lemma_run_bound(mb, n - 1);
        match mb[reading_square(n - 1)] {
            Some(p) => {
                lemma_letter(p);
            },
            None => {},
        }
        if n == 64 {
            assert(read_upto(mb, 64) =~= mb);
        }
    }
}

/// The letter of one castling right, as bytes.
pub open spec fn right_byte(right: Option<Square>, frc: bool, plain: u8, base: u8) -> Seq<u8> {
    match right {
        None => Seq::empty(),
        Some(sq) => if frc {
            seq![(base + sq.idx() % 8) as u8]
        } else {
            seq![plain]
        },
    }
}

/// The castling rights as bytes.
pub open spec fn rights_bytes(r: CastlingRights, frc: bool) -> Seq<u8> {
    if r == CastlingRights::none_spec() {
        seq![45u8]
    } else {
        ((right_byte(r.wk, frc, 75, 65) + right_byte(r.wq, frc, 81, 65)) + right_byte(
            r.bk,
            frc,
            107,
            97,
        )) + right_byte(r.bq, frc, 113, 97)
    }
}

proof fn lemma_rights_bytes(r: CastlingRights, frc: bool)
    ensures
        as_chars(rights_bytes(r, frc)) == rights_text(r, frc),
{
    assert(as_chars(rights_bytes(r, frc)) =~= rights_text(r, frc));
}

/// Whether a castling right can be told from its letter: under the orthodox rules it
/// is on `corner`; under the rules of Chess960 rook and king stand on rank `rank`, the
/// rook towards the h-file of the king on the king's wing and towards the a-file on the
/// queen's wing.
pub open spec fn right_written(
    right: Option<Square>,
    frc: bool,
    corner: Square,
    rank: int,
    king: Square,
    kingside: bool,
) -> bool {
    match right {
        None => true,
        Some(q) => if frc {
            &&& q.idx() / 8 == rank
            &&& king.idx() / 8 == rank
            &&& if kingside {
                q.idx() % 8 > king.idx() % 8
            } else {
                q.idx() % 8 < king.idx() % 8
            }
        } else {
            q == corner
        },
    }
}

/// Whether each castling right of `r` can be told from its letter, for kings on `wk`
/// and `bk`.
pub open spec fn rights_written(r: CastlingRights, frc: bool, wk: Square, bk: Square) -> bool {
    &&& right_written(r.wk, frc, Square::H1, 0, wk, true)
    &&& right_written(r.wq, frc, Square::A1, 0, wk, false)
    &&& right_written(r.bk, frc, Square::H8, 7, bk, true)
    &&& right_written(r.bq, frc, Square::A8, 7, bk, false)
}

/// The rights `r` with the right at place `slot` set to `right`: white's king's wing,
/// white's queen's wing, black's king's wing, black's queen's wing.
pub open spec fn with_right(r: CastlingRights, slot: int, right: Option<Square>) -> CastlingRights {
    if slot == 0 {
        CastlingRights { wk: right, ..r }
    } else if slot == 1 {
        CastlingRights { wq: right, ..r }
    } else if slot == 2 {
        CastlingRights { bk: right, ..r }
    } else {
        CastlingRights { bq: right, ..r }
    }
}

/// The letter of the right at place `slot`, as bytes.
pub open spec fn slot_byte(right: Option<Square>, frc: bool, slot: int) -> Seq<u8> {
    if slot == 0 {
        right_byte(right, frc, 75, 65)
    } else if slot == 1 {
        right_byte(right, frc, 81, 65)
    } else if slot == 2 {
        right_byte(right, frc, 107, 97)
    } else {
        right_byte(right, frc, 113, 97)
    }
}

/// Whether the right at place `slot` can be told from its letter.
pub open spec fn slot_written(
    right: Option<Square>,
    frc: bool,
    slot: int,
    wk: Square,
    bk: Square,
) -> bool {
    if slot == 0 {
        right_written(right, frc, Square::H1, 0, wk, true)
    } else if slot == 1 {
        right_written(right, frc, Square::A1, 0, wk, false)
    } else if slot == 2 {
        right_written(right, frc, Square::H8, 7, bk, true)
    } else {
        right_written(right, frc, Square::A8, 7, bk, false)
    }
}

proof fn lemma_rights_feed(
    s: Seq<u8>,
    n: int,
    r0: CastlingRights,
    right: Option<Square>,
    slot: int,
    frc: bool,
    wk: Square,
    bk: Square,
)
    requires
        0 <= slot < 4,
        0 <= n,
        n + slot_byte(right, frc, slot).len() <= s.len(),
        rights_upto(s, n, frc, wk, bk) == Ok::<CastlingRights, FenError>(r0),
        slot_written(right, frc, slot, wk, bk),
        right is Some ==> s[n] == slot_byte(right, frc, slot)[0],
        right is None ==> with_right(r0, slot, right) == r0,
    ensures
        rights_upto(s, n + slot_byte(right, frc, slot).len(), frc, wk, bk) == Ok::<
            CastlingRights,
            FenError,
        >(with_right(r0, slot, right)),
        right is Some ==> s[n] != 32 && s[n] != 45 && (if slot < 2 {
            65 <= s[n] <= 90
        } else {
            97 <= s[n] <= 122
        }),
{
    match right {
        Some(q) => {
            assert(rights_upto(s, n + 1, frc, wk, bk) == (if frc {
                file_right(r0, s[n], wk, bk)
            } else {
                plain_right(r0, s[n])
            }));
            if frc {
                if slot < 2 {
                    assert(s[n] - 65 == q.idx());
                } else {
                    assert(56 + (s[n] - 97) == q.idx());
                }
            }
        },
        None => {},
    }
}

proof fn lemma_rights_walk(r: CastlingRights, frc: bool, wk: Square, bk: Square)
    requires
        rights_written(r, frc, wk, bk),
        r != CastlingRights::none_spec(),
    ensures
        rights_upto(rights_bytes(r, frc), rights_bytes(r, frc).len() as int, frc, wk, bk) == Ok::<
            CastlingRights,
            FenError,
        >(r),
        rights_bytes(r, frc).len() > 0,
        forall|i: int|
            0 <= i < rights_bytes(r, frc).len() ==> {
                let c = #[trigger] rights_bytes(r, frc)[i];
                &&& c != 32
                &&& c != 45
                &&& (65 <= c <= 90 ==> r.wk is Some || r.wq is Some)
                &&& (97 <= c <= 122 ==> r.bk is Some || r.bq is Some)
            },
{
    let s = rights_bytes(r, frc);
    let b1 = slot_byte(r.wk, frc, 0);
    let b2 = slot_byte(r.wq, frc, 1);
    let b3 = slot_byte(r.bk, frc, 2);
    let b4 = slot_byte(r.bq, frc, 3);
    let n1 = b1.len() as int;
    let n2 = n1 + b2.len();
    let n3 = n2 + b3.len();
    let n4 = n3 + b4.len();
    assert(s == ((b1 + b2) + b3) + b4);
    assert(b1.len() == (if r.wk is Some { 1int } else { 0 }));
    assert(b2.len() == (if r.wq is Some { 1int } else { 0 }));
    assert(b3.len() == (if r.bk is Some { 1int } else { 0 }));
    assert(b4.len() == (if r.bq is Some { 1int } else { 0 }));
    assert(s.len() == n4);
    let z = CastlingRights::none_spec();
    let r1 = with_right(z, 0, r.wk);
    let r2 = with_right(r1, 1, r.wq);
    let r3 = with_right(r2, 2, r.bk);
    assert(with_right(r3, 3, r.bq) == r);
    assert(rights_upto(s, 0, frc, wk, bk) == Ok::<CastlingRights, FenError>(z));
    if r.wk is Some {
        assert(s[0] == b1[0]);
    }
    lemma_rights_feed(s, 0, z, r.wk, 0, frc, wk, bk);
    if r.wq is Some {
        assert(s[n1] == b2[0]);
    }
    lemma_rights_feed(s, n1, r1, r.wq, 1, frc, wk, bk);
    if r.bk is Some {
        assert(s[n2] == b3[0]);
    }
    lemma_rights_feed(s, n2, r2, r.bk, 2, frc, wk, bk);
    if r.bq is Some {
        assert(s[n3] == b4[0]);
    }
    lemma_rights_feed(s, n3, r3, r.bq, 3, frc, wk, bk);
    assert forall|i: int| 0 <= i < s.len() implies {
        let c = #[trigger] s[i];
        &&& c != 32
        &&& c != 45
        &&& (65 <= c <= 90 ==> r.wk is Some || r.wq is Some)
        &&& (97 <= c <= 122 ==> r.bk is Some || r.bq is Some)
    } by {
        if i < n1 {
            assert(i == 0);
        } else if i < n2 {
            assert(i == n1);
        } else if i < n3 {
            assert(i == n2);
        } else {
            assert(i == n3);
        }
    }
}

/// The castling rights as bytes, read, give the rights back.
pub proof fn lemma_rights_back(r: CastlingRights, frc: bool, wk: Square, bk: Square)
    requires
        rights_written(r, frc, wk, bk),
    ensures
        parse_castling(Some(rights_bytes(r, frc)), frc, wk, bk) == Ok::<CastlingRights, FenError>(r),
        no_space(rights_bytes(r, frc)),
        rights_bytes(r, frc).len() > 0,
{
    let s = rights_bytes(r, frc);
    if r != CastlingRights::none_spec() {
        lemma_rights_walk(r, frc, wk, bk);
        assert(s[0] != 45);
        assert(!(s =~= seq![45u8]));
        if has_upper(s) {
            let i = choose|i: int| 0 <= i < s.len() && 65 <= #[trigger] s[i] <= 90;
            assert(r.wk is Some || r.wq is Some);
        }
        if has_lower(s) {
            let i = choose|i: int| 0 <= i < s.len() && 97 <= #[trigger] s[i] <= 122;
            assert(r.bk is Some || r.bq is Some);
        }
    }
}

proof fn lemma_field_chars(s: Seq<u8>, t: Seq<char>, o: int, f: Seq<char>)
    requires
        as_chars(s) == t,
        0 <= o,
        o + f.len() <= t.len(),
        forall|j: int| 0 <= j < f.len() ==> t[o + j] == #[trigger] f[j],
    ensures
        as_chars(s.subrange(o, o + f.len())) == f,
{
    assert(as_chars(s).len() == s.len());
    assert(as_chars(s.subrange(o, o + f.len())) =~= f) by {
        assert forall|j: int| 0 <= j < f.len() implies as_chars(s.subrange(o, o + f.len()))[j]
            == f[j] by {
            assert(as_chars(s)[o + j] == s[o + j] as char);
        }
    }
}

proof fn lemma_field_at(s: Seq<u8>, k: nat, o: int, len: int)
    requires
        field_start(s, k) == Some(o),
        0 <= o,
        0 <= len,
        o + len <= s.len(),
        no_space(s.subrange(o, o + len)),
        o + len == s.len() || s[o + len] == 32,
    ensures
        space_from(s, o) == o + len,
        field(s, k) == Some(s.subrange(o, o + len)),
        o + len < s.len() ==> field_start(s, k + 1) == Some(o + len + 1),
{
    assert forall|j: int| o <= j < o + len implies #[trigger] s[j] != 32 by {
        assert(s.subrange(o, o + len)[j - o] == s[j]);
    }
    lemma_space_from(s, o, o + len);
}

proof fn lemma_kings(b: Board)
    requires
        b.placed_ok(),
    ensures
        stands_once(b.piece_array@, Piece::WK),
        stands_once(b.piece_array@, Piece::BK),
        place_of(b.piece_array@, Piece::WK) == king_place(b.pieces, Colour::White),
        place_of(b.piece_array@, Piece::BK) == king_place(b.pieces, Colour::Black),
{
    let mb = b.piece_array@;
    let w = king_place(b.pieces, Colour::White);
    let k = king_place(b.pieces, Colour::Black);
    assert(Piece::of(Colour::White, PieceType::King) == Piece::WK);
    assert(Piece::of(Colour::Black, PieceType::King) == Piece::BK);
    assert forall|s: Square| (#[trigger] mb[s.idx()] == Some(Piece::WK)) == (s == w) by {
        assert(b.pieces.has(Piece::WK, s) == (mb[s.idx()] == Some(Piece::WK)));
    }
    assert forall|s: Square| (#[trigger] mb[s.idx()] == Some(Piece::BK)) == (s == k) by {
        assert(b.pieces.has(Piece::BK, s) == (mb[s.idx()] == Some(Piece::BK)));
    }
    assert(only_at(mb, Piece::WK, w));
    assert(only_at(mb, Piece::BK, k));
    let w2 = place_of(mb, Piece::WK);
    let k2 = place_of(mb, Piece::BK);
    assert(only_at(mb, Piece::WK, w2));
    assert(only_at(mb, Piece::BK, k2));
    assert(mb[w.idx()] == Some(Piece::WK));
    assert(mb[k.idx()] == Some(Piece::BK));
}

impl Board {
    /// Whether the position can be told from its position string: the half-move
    /// counter is no more than 100, the number of the move is one that a string may
    /// hold, and each castling right can be told from its letter.
    pub open spec fn tellable(&self) -> bool {
        &&& self.placed_ok()
        &&& self.fifty_move_counter <= 100
        &&& self.ply / 2 + 1 <= usize::MAX / 2
        &&& rights_written(
            self.castle_perm,
            self.chess960,
            king_place(self.pieces, Colour::White),
            king_place(self.pieces, Colour::Black),
        )
    }

    /// What the position string of the board says: the pieces, the side to move, the
    /// castling rights, the en-passant square and the half-move counter of the board, and
    /// the number of half moves up to the move that the string names.
    pub open spec fn told(&self) -> ParsedFen {
        ParsedFen {
            mb: self.piece_array@,
            side: self.side,
            rights: self.castle_perm,
            ep: self.ep_sq,
            halfmove: self.fifty_move_counter as int,
            ply: (self.ply / 2) * 2 + (if self.side == Colour::Black {
                1int
            } else {
                0
            }),
        }
    }
}

/// The six parts of the position string of `b`: piece placement, side to move,
/// castling rights, en-passant square, half-move counter and number of the move.
pub open spec fn text_part(b: Board, k: int) -> Seq<char> {
    if k == 0 {
        placement_text(b.piece_array@, 64)
    } else if k == 1 {
        seq![if b.side == Colour::White {
            'w'
        } else {
            'b'
        }]
    } else if k == 2 {
        rights_text(b.castle_perm, b.chess960)
    } else if k == 3 {
        ep_text(b.ep_sq)
    } else if k == 4 {
        decimal(b.fifty_move_counter as nat)
    } else {
        decimal((b.ply / 2 + 1) as nat)
    }
}

/// Where part `k` of the position string of `b` begins.
pub open spec fn part_start(b: Board, k: int) -> int
    decreases k,
{
    if k <= 0 {
        0
    } else {
        part_start(b, k - 1) + text_part(b, k - 1).len() + 1
    }
}

proof fn lemma_text_parts(b: Board)
    ensures
        b.fen_text().len() == part_start(b, 5) + text_part(b, 5).len(),
        forall|k: int, j: int|
            0 <= k < 6 && 0 <= j < text_part(b, k).len() ==> b.fen_text()[part_start(b, k) + j]
                == #[trigger] text_part(b, k)[j],
        forall|k: int| 1 <= k < 6 ==> b.fen_text()[#[trigger] part_start(b, k) - 1] == ' ',
{
    reveal_with_fuel(part_start, 6);
    let t = b.fen_text();
    let t0 = text_part(b, 0);
    let t1 = text_part(b, 1);
    let t2 = text_part(b, 2);
    let t3 = text_part(b, 3);
    let t4 = text_part(b, 4);
    let t5 = text_part(b, 5);
    let x1 = t0.push(' ').push(t1[0]).push(' ');
    let x2 = (x1 + t2).push(' ');
    let x3 = (x2 + t3).push(' ');
    let x4 = (x3 + t4).push(' ');
    assert(t == x4 + t5);
    assert(x1.len() == part_start(b, 2));
    assert(x2.len() == part_start(b, 3));
    assert(x3.len() == part_start(b, 4));
    assert(x4.len() == part_start(b, 5));
    assert forall|k: int, j: int| 0 <= k < 6 && 0 <= j < text_part(b, k).len() implies t[part_start(
        b,
        k,
    ) + j] == #[trigger] text_part(b, k)[j] by {
        let i = part_start(b, k) + j;
        if k == 5 {
            assert(t[i] == t5[j]);
        } else {
            assert(t[i] == x4[i]);
            if k == 4 {
                assert(x4[i] == t4[j]);
            } else {
                assert(x4[i] == x3[i]);
                if k == 3 {
                    assert(x3[i] == t3[j]);
                } else {
                    assert(x3[i] == x2[i]);
                    if k == 2 {
                        assert(x2[i] == t2[j]);
                    } else {
                        assert(x2[i] == x1[i]);
                    }
                }
            }
        }
    }
    assert forall|k: int| 1 <= k < 6 implies t[#[trigger] part_start(b, k) - 1] == ' ' by {
        let i = part_start(b, k) - 1;
        if k == 5 {
            assert(t[i] == x4[i]);
        } else if k == 4 {
            assert(t[i] == x4[i]);
            assert(x4[i] == x3[i]);
        } else if k == 3 {
            assert(t[i] == x4[i]);
            assert(x4[i] == x3[i]);
            assert(x3[i] == x2[i]);
        } else {
            assert(t[i] == x4[i]);
            assert(x4[i] == x3[i]);
            assert(x3[i] == x2[i]);
            assert(x2[i] == x1[i]);
        }
    }
}

/// The bytes of `s` where part `k` of the position string of `b` stands.
pub open spec fn byte_part(b: Board, s: Seq<u8>, k: int) -> Seq<u8> {
    s.subrange(part_start(b, k), part_start(b, k) + text_part(b, k).len())
}

proof fn lemma_part_chars(b: Board, s: Seq<u8>, k: int)
    requires
        as_chars(s) == b.fen_text(),
        0 <= k < 6,
    ensures
        as_chars(byte_part(b, s, k)) == text_part(b, k),
        0 <= part_start(b, k),
        part_start(b, k) + text_part(b, k).len() <= s.len(),
        k < 5 ==> part_start(b, k) + text_part(b, k).len() < s.len() && s[part_start(b, k)
            + text_part(b, k).len()] == 32,
        k == 5 ==> part_start(b, k) + text_part(b, k).len() == s.len(),
{
    reveal_with_fuel(part_start, 6);
    lemma_text_parts(b);
    assert(as_chars(s).len() == s.len());
    lemma_field_chars(s, b.fen_text(), part_start(b, k), text_part(b, k));
    if k < 5 {
        let e = part_start(b, k + 1) - 1;
        assert(e == part_start(b, k) + text_part(b, k).len());
        assert(b.fen_text()[e] == ' ');
        assert(as_chars(s)[e] == s[e] as char);
    }
}

proof fn lemma_fields(b: Board, s: Seq<u8>)
    requires
        as_chars(s) == b.fen_text(),
        forall|k: int| 0 <= k < 6 ==> no_space(#[trigger] byte_part(b, s, k)),
    ensures
        space_from(s, 0) == text_part(b, 0).len(),
        space_from(s, 0) < s.len(),
        forall|k: nat| k < 6 ==> #[trigger] field(s, k) == Some(byte_part(b, s, k as int)),
{
    reveal_with_fuel(part_start, 6);
    lemma_part_chars(b, s, 0);
    lemma_part_chars(b, s, 1);
    lemma_part_chars(b, s, 2);
    lemma_part_chars(b, s, 3);
    lemma_part_chars(b, s, 4);
    lemma_part_chars(b, s, 5);
    assert(no_space(byte_part(b, s, 0)));
    assert(no_space(byte_part(b, s, 1)));
    assert(no_space(byte_part(b, s, 2)));
    assert(no_space(byte_part(b, s, 3)));
    assert(no_space(byte_part(b, s, 4)));
    assert(no_space(byte_part(b, s, 5)));
    assert(field_start(s, 0) == Some(0int));
    lemma_field_at(s, 0, part_start(b, 0), text_part(b, 0).len() as int);
    lemma_field_at(s, 1, part_start(b, 1), text_part(b, 1).len() as int);
    lemma_field_at(s, 2, part_start(b, 2), text_part(b, 2).len() as int);
    lemma_field_at(s, 3, part_start(b, 3), text_part(b, 3).len() as int);
    lemma_field_at(s, 4, part_start(b, 4), text_part(b, 4).len() as int);
    lemma_field_at(s, 5, part_start(b, 5), text_part(b, 5).len() as int);
}

proof fn lemma_rights_read(
    s: Seq<u8>,
    n: int,
    frc: bool,
    wk: Square,
    bk: Square,
    r: CastlingRights,
)
    requires
        0 <= n <= s.len(),
        rights_upto(s, n, frc, wk, bk) == Ok::<CastlingRights, FenError>(r),
        frc ==> forall|i: int|
            0 <= i < n ==> (65 <= #[trigger] s[i] <= 90 ==> wk.idx() / 8 == 0) && (97 <= s[i] <= 122
                ==> bk.idx() / 8 == 7),
    ensures
        rights_written(r, frc, wk, bk),
    decreases n,
{
    if n > 0 {
        match rights_upto(s, n - 1, frc, wk, bk) {
            Ok(r0) => {
                lemma_rights_read(s, n - 1, frc, wk, bk, r0);
                let c = s[n - 1];
                if frc {
                    assert(file_right(r0, c, wk, bk) == Ok::<CastlingRights, FenError>(r));
                    if 65 <= c <= 90 {
                        assert(Square::at(c - 65).idx() == c - 65);
                    } else {
                        assert(Square::at(56 + (c - 97)).idx() == 56 + (c - 97));
                    }
                } else {
                    assert(plain_right(r0, c) == Ok::<CastlingRights, FenError>(r));
                }
            },
            Err(e) => {},
        }
    }
}

impl Board {
    /// The position string of a board, read, gives the board back: its pieces, side to
    /// move, castling rights, en-passant square and half-move counter, and the number of
    /// half moves up to the move that the string names.
    pub proof fn lemma_fen_read_back(&self, s: Seq<u8>)
        requires
            self.tellable(),
            as_chars(s) == self.fen_text(),
        ensures
            parse_fen(s, self.chess960) == Ok::<ParsedFen, FenError>(self.told()),
    {
        let b = *self;
        let mb = self.piece_array@;
        let wk = king_place(self.pieces, Colour::White);
        let bk = king_place(self.pieces, Colour::Black);
        lemma_part_chars(b, s, 0);
        lemma_part_chars(b, s, 1);
        lemma_part_chars(b, s, 2);
        lemma_part_chars(b, s, 3);
        lemma_part_chars(b, s, 4);
        lemma_part_chars(b, s, 5);
        let f0 = byte_part(b, s, 0);
        let f1 = byte_part(b, s, 1);
        let f2 = byte_part(b, s, 2);
        let f3 = byte_part(b, s, 3);
        let f4 = byte_part(b, s, 4);
        let f5 = byte_part(b, s, 5);
        lemma_placement_bytes(mb, 64);
        lemma_chars_injective(f0, placement_bytes(mb, 64));
        lemma_placement_back(mb, 64);
        assert(as_chars(f1)[0] == f1[0] as char);
        assert(f1 =~= seq![if self.side == Colour::White {
            119u8
        } else {
            98u8
        }]);
        lemma_rights_bytes(self.castle_perm, self.chess960);
        lemma_chars_injective(f2, rights_bytes(self.castle_perm, self.chess960));
        lemma_rights_back(self.castle_perm, self.chess960, wk, bk);
        lemma_ep_back(f3, self.ep_sq);
        lemma_number_back(f4, self.fifty_move_counter as nat);
        lemma_number_back(f5, (self.ply / 2 + 1) as nat);
        lemma_fields(b, s);
        lemma_kings(b);
        assert(field(s, 1) == Some(f1));
        assert(field(s, 2) == Some(f2));
        assert(field(s, 3) == Some(f3));
        assert(field(s, 4) == Some(f4));
        assert(field(s, 5) == Some(f5));
        lemma_placed_prefix(s, f0, f0.len() as int);
        assert(parse_side(Some(f1)) == Ok::<Colour, FenError>(self.side));
        assert(parse_halfmove(Some(f4)) == Ok::<int, FenError>(self.fifty_move_counter as int));
        assert(parse_fullmove(Some(f5)) == Ok::<int, FenError>(self.ply / 2 + 1));
        assert(parse_info(s, self.chess960, wk, bk) == Ok::<FenInfo, FenError>(
            FenInfo {
                side: self.side,
                rights: self.castle_perm,
                ep: self.ep_sq,
                halfmove: self.fifty_move_counter as int,
                ply: self.told().ply,
            },
        ));
    }

    /// A board that a position string has set up can be told from its own position
    /// string.
    pub proof fn lemma_read_is_tellable(&self, s: Seq<u8>)
        requires
            parse_fen(s, self.chess960) is Ok,
            self.holds_parsed(parse_fen(s, self.chess960)->Ok_0),
        ensures
            self.tellable(),
            self.told().ply == self.ply,
    {
        let frc = self.chess960;
        let p = placed_upto(s, space_from(s, 0))->Ok_0;
        lemma_kings(*self);
        let wk = king_place(self.pieces, Colour::White);
        let bk = king_place(self.pieces, Colour::Black);
        assert(p.mb == self.piece_array@);
        let info = parse_info(s, frc, wk, bk)->Ok_0;
        assert(parse_info(s, frc, wk, bk) is Ok);
        let part = field(s, 2)->0;
        assert(parse_castling(field(s, 2), frc, wk, bk) == Ok::<CastlingRights, FenError>(
            self.castle_perm,
        ));
        if part =~= seq![45u8] {
        } else {
            if frc {
                assert forall|i: int| 0 <= i < part.len() implies (65 <= #[trigger] part[i] <= 90
                    ==> wk.idx() / 8 == 0) && (97 <= part[i] <= 122 ==> bk.idx() / 8 == 7) by {
                    if 65 <= part[i] <= 90 {
                        assert(has_upper(part));
                    }
                    if 97 <= part[i] <= 122 {
                        assert(has_lower(part));
                    }
                }
            }
            lemma_rights_read(part, part.len() as int, frc, wk, bk, self.castle_perm);
        }
        let full = parse_fullmove(field(s, 5))->Ok_0;
        assert(parse_fullmove(field(s, 5)) is Ok);
        assert(parse_halfmove(field(s, 4)) is Ok);
        assert(self.ply == (full - 1) * 2 + (if self.side == Colour::Black {
            1int
        } else {
            0
        }));
        assert(self.ply / 2 + 1 == full);
    }

    /// A position string that a board wrote is read and written again as it stands:
    /// the board that it sets up writes the same string.
    pub proof fn lemma_fen_round_trip(&self, s: Seq<u8>, read: Board)
        requires
            self.tellable(),
            as_chars(s) == self.fen_text(),
            read.chess960 == self.chess960,
            parse_fen(s, self.chess960) is Ok ==> read.holds_parsed(
                parse_fen(s, self.chess960)->Ok_0,
            ),
        ensures
            parse_fen(s, self.chess960) is Ok,
            read.fen_text() == as_chars(s),
    {
        self.lemma_fen_read_back(s);
        assert(read.ply / 2 == self.ply / 2);
    }
}

} // verus!
