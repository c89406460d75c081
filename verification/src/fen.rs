use vstd::prelude::*;
use vstd::slice::slice_subrange;
use vstd::string::is_ascii;
use vstd::string::StringSliceAdditionalSpecFns;
use crate::bits::{bit, lemma_bit_zero, lemma_lowest, lowest};
use crate::board::Board;
use crate::castling::CastlingRights;
use crate::position::{agree, keys_of, king_place, lemma_one_king, one_king, threats_of};
use crate::types::{Colour, File, Piece, PieceType, Rank, Square};

verus! {

broadcast use crate::types::group_square;

/// Why a position string was refused.
#[derive(Clone, Copy, Debug, PartialEq, Eq, Structural)]
pub enum FenError {
    /// The string holds a character outside ASCII.
    NotAscii,
    /// No space follows the piece placement.
    MissingSpace,
    /// The piece placement holds a character that is no piece, digit or slash.
    UnexpectedCharacter(u8),
    /// The piece placement has more than eight ranks.
    TooManyRanks,
    /// A rank of the piece placement has more than eight squares.
    RankTooLong,
    /// A side does not have exactly one king.
    KingCount,
    /// The side to move is neither `w` nor `b`.
    InvalidSide,
    /// The castling rights are missing.
    MissingCastling,
    /// The castling rights hold a character that names no right.
    InvalidCastling,
    /// A right is given to a side whose king is not on its first rank.
    KingNotOnBackRank,
    /// A right is given on the file of the king.
    CastlingOnKingFile,
    /// The en-passant square is missing.
    MissingEnPassant,
    /// The en-passant square is neither `-` nor a square.
    InvalidEnPassant,
    /// The half-move counter is missing.
    MissingHalfmove,
    /// The half-move counter is no number, or it is over 100.
    InvalidHalfmove,
    /// The number of the move is missing.
    MissingFullmove,
    /// The number of the move is no number, it is 0, or it is too large to count
    /// half moves with.
    InvalidFullmove,
}

/// The position of the first space of `s` at or after `i`, or the length of `s`.
pub open spec fn space_from(s: Seq<u8>, i: int) -> int
    decreases s.len() - i,
{
    if i < 0 || i >= s.len() {
        s.len() as int
    } else if s[i] == 32 {
        i
    } else {
        space_from(s, i + 1)
    }
}

/// Where field number `k` of `s` begins, counting the piece placement as field 0: one
/// past the space that ends the field before. `None` where `s` has no such field.
pub open spec fn field_start(s: Seq<u8>, k: nat) -> Option<int>
    decreases k,
{
    if k == 0 {
        Some(0)
    } else {
        match field_start(s, (k - 1) as nat) {
            Some(p) => if space_from(s, p) < s.len() {
                Some(space_from(s, p) + 1)
            } else {
                None
            },
            None => None,
        }
    }
}

/// Field number `k` of `s`: the bytes from its beginning up to the next space.
pub open spec fn field(s: Seq<u8>, k: nat) -> Option<Seq<u8>> {
    match field_start(s, k) {
        Some(p) => Some(s.subrange(p, space_from(s, p))),
        None => None,
    }
}

/// The pieces placed so far, and the rank and file of the square that comes next.
pub struct Placement {
    pub mb: Seq<Option<Piece>>,
    pub rank: int,
    pub file: int,
}

/// The placement after one more byte: a slash goes to the start of the rank below, a
/// digit from 1 to 8 skips that many squares, a piece letter puts the piece on the next
/// square.
pub open spec fn place_byte(p: Placement, b: u8) -> Result<Placement, FenError> {
    if b == 47 {
        if p.rank == 0 {
            Err(FenError::TooManyRanks)
        } else {
            Ok(Placement { mb: p.mb, rank: p.rank - 1, file: 0 })
        }
    } else if 49 <= b <= 56 {
        if p.file + (b - 48) > 8 {
            Err(FenError::RankTooLong)
        } else {
            Ok(Placement { mb: p.mb, rank: p.rank, file: p.file + (b - 48) })
        }
    } else {
        match Piece::of_letter(b) {
            Some(piece) => if p.file >= 8 {
                Err(FenError::RankTooLong)
            } else {
                Ok(
                    Placement {
                        mb: p.mb.update(p.rank * 8 + p.file, Some(piece)),
                        rank: p.rank,
                        file: p.file + 1,
                    },
                )
            },
            None => Err(FenError::UnexpectedCharacter(b)),
        }
    }
}

/// The placement after the first `n` bytes of `s`, begun on an empty board at a8.
pub open spec fn placed_upto(s: Seq<u8>, n: int) -> Result<Placement, FenError>
    decreases n,
{
    if n <= 0 {
        Ok(Placement { mb: Seq::new(64, |i: int| None::<Piece>), rank: 7, file: 0 })
    } else {
        match placed_upto(s, n - 1) {
            Ok(p) => place_byte(p, s[n - 1]),
            Err(e) => Err(e),
        }
    }
}

/// Whether `p` stands on `k` and on no other square of `mb`.
pub open spec fn only_at(mb: Seq<Option<Piece>>, p: Piece, k: Square) -> bool {
    forall|s: Square| (#[trigger] mb[s.idx()] == Some(p)) == (s == k)
}

/// Whether `p` stands on exactly one square of `mb`.
pub open spec fn stands_once(mb: Seq<Option<Piece>>, p: Piece) -> bool {
    exists|k: Square| only_at(mb, p, k)
}

/// The side that `part` names.
pub open spec fn parse_side(part: Option<Seq<u8>>) -> Result<Colour, FenError> {
    match part {
        None => Err(FenError::InvalidSide),
        Some(s) => if s =~= seq![119u8] {
            Ok(Colour::White)
        } else if s =~= seq![98u8] {
            Ok(Colour::Black)
        } else {
            Err(FenError::InvalidSide)
        },
    }
}

/// The rights after one more letter of the orthodox form: `K`, `Q`, `k` and `q` give
/// the rights on h1, a1, h8 and a8.
pub open spec fn plain_right(r: CastlingRights, c: u8) -> Result<CastlingRights, FenError> {
    if c == 75 {
        Ok(CastlingRights { wk: Some(Square::H1), ..r })
    } else if c == 81 {
        Ok(CastlingRights { wq: Some(Square::A1), ..r })
    } else if c == 107 {
        Ok(CastlingRights { bk: Some(Square::H8), ..r })
    } else if c == 113 {
        Ok(CastlingRights { bq: Some(Square::A8), ..r })
    } else {
        Err(FenError::InvalidCastling)
    }
}

/// The rights after one more letter of the form that names the rook's file: an upper
/// case letter gives white a right on that file of the first rank, a lower case letter
/// gives black one on the eighth. The right is on the king's wing where the file lies
/// towards the h-file of the king, else on the queen's wing.
pub open spec fn file_right(r: CastlingRights, c: u8, wk: Square, bk: Square) -> Result<
    CastlingRights,
    FenError,
> {
    if 65 <= c <= 90 {
        if c - 65 >= 8 {
            Err(FenError::InvalidCastling)
        } else if c - 65 == wk.idx() % 8 {
            Err(FenError::CastlingOnKingFile)
        } else if c - 65 > wk.idx() % 8 {
            Ok(CastlingRights { wk: Some(Square::at(c - 65)), ..r })
        } else {
            Ok(CastlingRights { wq: Some(Square::at(c - 65)), ..r })
        }
    } else if 97 <= c <= 122 {
        if c - 97 >= 8 {
            Err(FenError::InvalidCastling)
        } else if c - 97 == bk.idx() % 8 {
            Err(FenError::CastlingOnKingFile)
        } else if c - 97 > bk.idx() % 8 {
            Ok(CastlingRights { bk: Some(Square::at(56 + (c - 97))), ..r })
        } else {
            Ok(CastlingRights { bq: Some(Square::at(56 + (c - 97))), ..r })
        }
    } else {
        Err(FenError::InvalidCastling)
    }
}

/// The rights after the first `n` letters of `s`.
pub open spec fn rights_upto(s: Seq<u8>, n: int, frc: bool, wk: Square, bk: Square) -> Result<
    CastlingRights,
    FenError,
>
    decreases n,
{
    if n <= 0 {
        Ok(CastlingRights::none_spec())
    } else {
        match rights_upto(s, n - 1, frc, wk, bk) {
            Ok(r) => if frc {
                file_right(r, s[n - 1], wk, bk)
            } else {
                plain_right(r, s[n - 1])
            },
            Err(e) => Err(e),
        }
    }
}

/// Whether `s` holds an upper case letter.
pub open spec fn has_upper(s: Seq<u8>) -> bool {
    exists|i: int| 0 <= i < s.len() && 65 <= #[trigger] s[i] <= 90
}

/// Whether `s` holds a lower case letter.
pub open spec fn has_lower(s: Seq<u8>) -> bool {
    exists|i: int| 0 <= i < s.len() && 97 <= #[trigger] s[i] <= 122
}

/// The castling rights that `part` names, for kings on `wk` and `bk`. Under the rules
/// of Chess960 (`frc`) each letter names the file of a rook.
pub open spec fn parse_castling(part: Option<Seq<u8>>, frc: bool, wk: Square, bk: Square) -> Result<
    CastlingRights,
    FenError,
> {
    match part {
        None => Err(FenError::MissingCastling),
        Some(s) => if s =~= seq![45u8] {
            Ok(CastlingRights::none_spec())
        } else if frc && wk.idx() / 8 != 0 && has_upper(s) {
            Err(FenError::KingNotOnBackRank)
        } else if frc && bk.idx() / 8 != 7 && has_lower(s) {
            Err(FenError::KingNotOnBackRank)
        } else {
            rights_upto(s, s.len() as int, frc, wk, bk)
        },
    }
}

/// The en-passant square that `part` names.
pub open spec fn parse_ep(part: Option<Seq<u8>>) -> Result<Option<Square>, FenError> {
    match part {
        None => Err(FenError::MissingEnPassant),
        Some(s) => if s =~= seq![45u8] {
            Ok(None)
        } else if s.len() == 2 && 97 <= s[0] <= 104 && 49 <= s[1] <= 56 {
            Ok(Some(Square::at((s[1] - 49) * 8 + (s[0] - 97))))
        } else {
            Err(FenError::InvalidEnPassant)
        },
    }
}

/// Whether `s` is one or more digits.
pub open spec fn is_number(s: Seq<u8>) -> bool {
    s.len() > 0 && forall|i: int| 0 <= i < s.len() ==> 48 <= #[trigger] s[i] <= 57
}

/// The number that the first `n` digits of `s` write.
pub open spec fn number_upto(s: Seq<u8>, n: int) -> int
    decreases n,
{
    if n <= 0 {
        0
    } else {
        number_upto(s, n - 1) * 10 + (s[n - 1] - 48)
    }
}

/// The number that `s` writes where it is a number up to `max`.
pub open spec fn parse_number(s: Seq<u8>, max: int) -> Option<int> {
    if is_number(s) && number_upto(s, s.len() as int) <= max {
        Some(number_upto(s, s.len() as int))
    } else {
        None
    }
}

/// The half-move counter that `part` names: a number up to 100.
pub open spec fn parse_halfmove(part: Option<Seq<u8>>) -> Result<int, FenError> {
    match part {
        None => Err(FenError::MissingHalfmove),
        Some(s) => match parse_number(s, 100) {
            Some(n) => Ok(n),
            None => Err(FenError::InvalidHalfmove),
        },
    }
}

/// The number of the move that `part` names: a number from 1 up to half of what a
/// machine word holds.
pub open spec fn parse_fullmove(part: Option<Seq<u8>>) -> Result<int, FenError> {
    match part {
        None => Err(FenError::MissingFullmove),
        Some(s) => match parse_number(s, usize::MAX as int / 2) {
            Some(n) => if n >= 1 {
                Ok(n)
            } else {
                Err(FenError::InvalidFullmove)
            },
            None => Err(FenError::InvalidFullmove),
        },
    }
}

/// What a position string says.
pub struct ParsedFen {
    pub mb: Seq<Option<Piece>>,
    pub side: Colour,
    pub rights: CastlingRights,
    pub ep: Option<Square>,
    pub halfmove: int,
    pub ply: int,
}

/// The square on which `p` stands in `mb`, for a piece that stands there once.
pub open spec fn place_of(mb: Seq<Option<Piece>>, p: Piece) -> Square {
    choose|k: Square| only_at(mb, p, k)
}

/// What the fields after the piece placement say.
pub struct FenInfo {
    pub side: Colour,
    pub rights: CastlingRights,
    pub ep: Option<Square>,
    pub halfmove: int,
    pub ply: int,
}

/// What the fields of `s` after the piece placement say, for kings on `wk` and `bk`:
/// side to move, castling rights, en-passant square, half-move counter and number of the
/// move, read in that order. What follows them is not read.
pub open spec fn parse_info(s: Seq<u8>, frc: bool, wk: Square, bk: Square) -> Result<
    FenInfo,
    FenError,
> {
    match parse_side(field(s, 1)) {
        Err(e) => Err(e),
        Ok(side) => match parse_castling(field(s, 2), frc, wk, bk) {
            Err(e) => Err(e),
            Ok(rights) => match parse_ep(field(s, 3)) {
                Err(e) => Err(e),
                Ok(ep) => match parse_halfmove(field(s, 4)) {
                    Err(e) => Err(e),
                    Ok(halfmove) => match parse_fullmove(field(s, 5)) {
                        Err(e) => Err(e),
                        Ok(fullmove) => Ok(
                            FenInfo {
                                side,
                                rights,
                                ep,
                                halfmove,
                                ply: (fullmove - 1) * 2 + (if side == Colour::Black {
                                    1int
                                } else {
                                    0
                                }),
                            },
                        ),
                    },
                },
            },
        },
    }
}

/// What the position string `s` says, or why it is refused. The piece placement is
/// read first, then the other fields. The first fault found is the one reported.
pub open spec fn parse_fen(s: Seq<u8>, frc: bool) -> Result<ParsedFen, FenError> {
    if space_from(s, 0) >= s.len() {
        Err(FenError::MissingSpace)
    } else {
        match placed_upto(s, space_from(s, 0)) {
            Err(e) => Err(e),
            Ok(p) => if !stands_once(p.mb, Piece::WK) || !stands_once(p.mb, Piece::BK) {
                Err(FenError::KingCount)
            } else {
                match parse_info(s, frc, place_of(p.mb, Piece::WK), place_of(p.mb, Piece::BK)) {
                    Err(e) => Err(e),
                    Ok(info) => Ok(
                        ParsedFen {
                            mb: p.mb,
                            side: info.side,
                            rights: info.rights,
                            ep: info.ep,
                            halfmove: info.halfmove,
                            ply: info.ply,
                        },
                    ),
                }
            },
        }
    }
}

proof fn lemma_placed_err(s: Seq<u8>, i: int, n: int, e: FenError)
    requires
        0 <= i <= n,
        placed_upto(s, i) == Err::<Placement, FenError>(e),
    ensures
        placed_upto(s, n) == Err::<Placement, FenError>(e),
    decreases n - i,
{
    if i < n {
        lemma_placed_err(s, i, n - 1, e);
    }
}

proof fn lemma_rights_err(s: Seq<u8>, i: int, n: int, frc: bool, wk: Square, bk: Square, e: FenError)
    requires
        0 <= i <= n,
        rights_upto(s, i, frc, wk, bk) == Err::<CastlingRights, FenError>(e),
    ensures
        rights_upto(s, n, frc, wk, bk) == Err::<CastlingRights, FenError>(e),
    decreases n - i,
{
    if i < n {
        lemma_rights_err(s, i, n - 1, frc, wk, bk, e);
    }
}

proof fn lemma_number_grows(s: Seq<u8>, i: int, n: int)
    requires
        0 <= i <= n <= s.len(),
        forall|j: int| 0 <= j < s.len() ==> 48 <= #[trigger] s[j] <= 57,
    ensures
        0 <= number_upto(s, i) <= number_upto(s, n),
    decreases n,
{
    if n > 0 {
        if i < n {
            lemma_number_grows(s, i, n - 1);
        } else {
            lemma_number_grows(s, i - 1, n - 1);
        }
    }
}

fn find_space(s: &[u8], from: usize) -> (r: usize)
    requires
        from <= s@.len(),
    ensures
        r == space_from(s@, from as int),
        from <= r <= s@.len(),
{
    let mut i = from;
    while i < s.len() && s[i] != 32
        invariant
            from <= i <= s@.len(),
            space_from(s@, from as int) == space_from(s@, i as int),
        decreases s@.len() - i,
    {
        i = i + 1;
    }
    i
}

fn next_field<'a>(s: &'a [u8], prev_end: usize) -> (r: Option<(&'a [u8], usize)>)
    requires
        prev_end <= s@.len(),
    ensures
        match r {
            None => prev_end == s@.len(),
            Some((part, end)) => prev_end < s@.len() && end == space_from(s@, prev_end + 1)
                && part@ == s@.subrange(prev_end + 1, end as int) && end <= s@.len(),
        },
{
    if prev_end < s.len() {
        let end = find_space(s, prev_end + 1);
        Some((slice_subrange(s, prev_end + 1, end), end))
    } else {
        None
    }
}

fn read_number(s: &[u8], max: usize) -> (r: Option<usize>)
    requires
        max >= 9,
    ensures
        match r {
            Some(n) => parse_number(s@, max as int) == Some(n as int),
            None => parse_number(s@, max as int) is None,
        },
{
    if s.len() == 0 {
        return None;
    }
    let mut acc: usize = 0;
    let mut i: usize = 0;
    while i < s.len()
        invariant
            max >= 9,
            i <= s@.len(),
            acc == number_upto(s@, i as int),
            acc <= max,
            forall|j: int| 0 <= j < i ==> 48 <= #[trigger] s@[j] <= 57,
        decreases s@.len() - i,
    {
        let c = s[i];
        if c < 48 || c > 57 {
            return None;
        }
        let d: usize = (c - 48) as usize;
        if acc > (max - d) / 10 {
            proof {
                if is_number(s@) {
                    lemma_number_grows(s@, i as int + 1, s@.len() as int);
                }
            }
            return None;
        }
        acc = acc * 10 + d;
        i = i + 1;
    }
    Some(acc)
}

fn holds_between(s: &[u8], lo: u8, hi: u8) -> (r: bool)
    ensures
        r == exists|i: int| 0 <= i < s@.len() && lo <= #[trigger] s@[i] <= hi,
{
    let mut i: usize = 0;
    while i < s.len()
        invariant
            i <= s@.len(),
            forall|j: int| 0 <= j < i ==> !(lo <= #[trigger] s@[j] <= hi),
        decreases s@.len() - i,
    {
        if lo <= s[i] && s[i] <= hi {
            return true;
        }
        i = i + 1;
    }
    false
}

impl Board {
    fn set_placement(&mut self, s: &[u8], end: usize) -> (r: Result<(), FenError>)
        requires
            old(self).is_blank(),
            end <= s@.len(),
        ensures
            match placed_upto(s@, end as int) {
                Ok(p) => r is Ok && final(self).piece_array@ == p.mb && agree(
                    final(self).pieces,
                    final(self).piece_array@,
                ),
                Err(e) => r == Err::<(), FenError>(e),
            },
            *final(self) == (Board {
                pieces: final(self).pieces,
                piece_array: final(self).piece_array,
                ..*old(self)
            }),
    {
        let mut rank: u8 = 7;
        let mut file: u8 = 0;
        let mut i: usize = 0;
        proof {
            assert(self.piece_array@ =~= Seq::new(64, |i: int| None::<Piece>));
        }
        while i < end
            invariant
                i <= end <= s@.len(),
                rank <= 7,
                file <= 8,
                placed_upto(s@, i as int) == Ok::<Placement, FenError>(
                    Placement { mb: self.piece_array@, rank: rank as int, file: file as int },
                ),
                agree(self.pieces, self.piece_array@),
                forall|q: Square|
                    (q.idx() / 8 < rank || (q.idx() / 8 == rank && q.idx() % 8 >= file))
                        ==> #[trigger] self.piece_array@[q.idx()] == None::<Piece>,
                *self == (Board {
                    pieces: self.pieces,
                    piece_array: self.piece_array,
                    ..*old(self)
                }),
            decreases end - i,
        {
            let c = s[i];
            if c == 47 {
                if rank == 0 {
                    proof {
                        lemma_placed_err(s@, i as int + 1, end as int, FenError::TooManyRanks);
                    }
                    return Err(FenError::TooManyRanks);
                }
                rank = rank - 1;
                file = 0;
            } else if c >= 49 && c <= 56 {
                let n: u8 = c - 48;
                if file + n > 8 {
                    proof {
                        lemma_placed_err(s@, i as int + 1, end as int, FenError::RankTooLong);
                    }
                    return Err(FenError::RankTooLong);
                }
                file = file + n;
            } else {
                match Piece::from_byte(c) {
                    Some(piece) => {
                        if file >= 8 {
                            proof {
                                lemma_placed_err(
                                    s@,
                                    i as int + 1,
                                    end as int,
                                    FenError::RankTooLong,
                                );
                            }
                            return Err(FenError::RankTooLong);
                        }
                        let sq = Square::from_index(rank * 8 + file).unwrap();
                        self.add_piece(sq, piece);
                        file = file + 1;
                    },
                    None => {
                        proof {
                            lemma_placed_err(
                                s@,
                                i as int + 1,
                                end as int,
                                FenError::UnexpectedCharacter(c),
                            );
                        }
                        return Err(FenError::UnexpectedCharacter(c));
                    },
                }
            }
            i = i + 1;
        }
        Ok(())
    }

    pub(crate) fn single_king(&self, side: Colour) -> (r: bool)
        requires
            agree(self.pieces, self.piece_array@),
        ensures
            r == stands_once(self.piece_array@, Piece::of(side, PieceType::King)),
            r ==> one_king(self.pieces, side) && king_place(self.pieces, side) == place_of(
                self.piece_array@,
                Piece::of(side, PieceType::King),
            ),
    {
        let bb: u64 = self.pieces.king(side).inner;
        let ghost k = Piece::of(side, PieceType::King);
        let ghost mb = self.piece_array@;
        if bb == 0 {
            proof {
                assert forall|sq: Square| !only_at(mb, k, sq) by {
                    lemma_bit_zero(sq.idx() as u64);
                    assert(self.pieces.has(k, sq) == (mb[sq.idx()] == Some(k)));
                }
            }
            return false;
        }
        let rest: u64 = bb & (bb - 1);
        proof {
            lemma_lowest(bb);
        }
        if rest == 0 {
            proof {
                let kp = Square::at(lowest(bb));
                assert forall|sq: Square| #[trigger] self.pieces.has(k, sq) == (sq == kp) by {
                    lemma_bit_zero(sq.idx() as u64);
                    assert(bit(rest, sq.idx()) == (bit(bb, sq.idx()) && sq.idx() != lowest(bb)));
                }
                lemma_one_king(self.pieces, side, kp);
                assert forall|sq: Square| (#[trigger] mb[sq.idx()] == Some(k)) == (sq == kp) by {
                    assert(self.pieces.has(k, sq) == (mb[sq.idx()] == Some(k)));
                }
                assert(only_at(mb, k, kp));
                let c = place_of(mb, k);
                assert(only_at(mb, k, c));
                assert((mb[kp.idx()] == Some(k)) == (kp == c));
            }
            true
        } else {
            proof {
                lemma_lowest(rest);
                let a = Square::at(lowest(bb));
                let b = Square::at(lowest(rest));
                assert(bit(rest, b.idx()) == (bit(bb, b.idx()) && b.idx() != lowest(bb)));
                assert(self.pieces.has(k, a) == (mb[a.idx()] == Some(k)));
                assert(self.pieces.has(k, b) == (mb[b.idx()] == Some(k)));
                assert forall|sq: Square| !only_at(mb, k, sq) by {
                    if only_at(mb, k, sq) {
                        assert((mb[a.idx()] == Some(k)) == (a == sq));
                        assert((mb[b.idx()] == Some(k)) == (b == sq));
                    }
                }
            }
            false
        }
    }

    fn set_side(&mut self, side_part: Option<&[u8]>) -> (r: Result<(), FenError>)
        ensures
            match parse_side(
                match side_part {
                    Some(p) => Some(p@),
                    None => None,
                },
            ) {
                Ok(side) => r is Ok && *final(self) == (Board { side, ..*old(self) }),
                Err(e) => r == Err::<(), FenError>(e) && *final(self) == *old(self),
            },
    {
        match side_part {
            None => Err(FenError::InvalidSide),
            Some(p) => {
                if p.len() == 1 && p[0] == 119 {
                    proof {
                        assert(p@ =~= seq![119u8]);
                    }
                    self.side = Colour::White;
                    Ok(())
                } else if p.len() == 1 && p[0] == 98 {
                    proof {
                        assert(p@ =~= seq![98u8]);
                    }
                    self.side = Colour::Black;
                    Ok(())
                } else {
                    proof {
                        if p@ =~= seq![119u8] {
                            assert(p@[0] == 119u8);
                        }
                        if p@ =~= seq![98u8] {
                            assert(p@[0] == 98u8);
                        }
                    }
                    Err(FenError::InvalidSide)
                }
            },
        }
    }

    fn set_castling(&mut self, castling_part: Option<&[u8]>) -> (r: Result<(), FenError>)
        requires
            one_king(old(self).pieces, Colour::White),
            one_king(old(self).pieces, Colour::Black),
            old(self).castle_perm == CastlingRights::none_spec(),
        ensures
            match parse_castling(
                match castling_part {
                    Some(p) => Some(p@),
                    None => None,
                },
                old(self).chess960,
                king_place(old(self).pieces, Colour::White),
                king_place(old(self).pieces, Colour::Black),
            ) {
                Ok(rights) => r is Ok && *final(self) == (Board {
                    castle_perm: rights,
                    ..*old(self)
                }),
                Err(e) => r == Err::<(), FenError>(e),
            },
            *final(self) == (Board { castle_perm: final(self).castle_perm, ..*old(self) }),
    {
        let castling = match castling_part {
            None => {
                return Err(FenError::MissingCastling);
            },
            Some(p) => p,
        };
        if castling.len() == 1 && castling[0] == 45 {
            proof {
                assert(castling@ =~= seq![45u8]);
            }
            self.castle_perm = CastlingRights::none();
            return Ok(());
        }
        proof {
            if castling@ =~= seq![45u8] {
                assert(castling@[0] == 45u8);
            }
        }
        let frc = self.chess960;
        let white_king = self.king_sq(Colour::White);
        let black_king = self.king_sq(Colour::Black);
        if frc {
            if white_king.index() / 8 != 0 && holds_between(castling, 65, 90) {
                return Err(FenError::KingNotOnBackRank);
            }
            if black_king.index() / 8 != 7 && holds_between(castling, 97, 122) {
                return Err(FenError::KingNotOnBackRank);
            }
        }
        let wkf: u8 = white_king.index() % 8;
        let bkf: u8 = black_king.index() % 8;
        let mut i: usize = 0;
        let n = castling.len();
        while i < n
            invariant
                i <= n == castling@.len(),
                !(castling@ =~= seq![45u8]),
                castling_part == Some(castling),
                white_king == king_place(old(self).pieces, Colour::White),
                black_king == king_place(old(self).pieces, Colour::Black),
                !(frc && white_king.idx() / 8 != 0 && has_upper(castling@)),
                !(frc && black_king.idx() / 8 != 7 && has_lower(castling@)),
                wkf == white_king.idx() % 8,
                bkf == black_king.idx() % 8,
                frc == self.chess960,
                rights_upto(castling@, i as int, frc, white_king, black_king) == Ok::<
                    CastlingRights,
                    FenError,
                >(self.castle_perm),
                *self == (Board { castle_perm: self.castle_perm, ..*old(self) }),
            decreases n - i,
        {
            let c = castling[i];
            let mut bad: Option<FenError> = None;
            if !frc {
                if c == 75 {
                    self.castle_perm.wk = Some(Square::H1);
                } else if c == 81 {
                    self.castle_perm.wq = Some(Square::A1);
                } else if c == 107 {
                    self.castle_perm.bk = Some(Square::H8);
                } else if c == 113 {
                    self.castle_perm.bq = Some(Square::A8);
                } else {
                    bad = Some(FenError::InvalidCastling);
                }
            } else if c >= 65 && c <= 90 {
                let f: u8 = c - 65;
                if f >= 8 {
                    bad = Some(FenError::InvalidCastling);
                } else if f == wkf {
                    bad = Some(FenError::CastlingOnKingFile);
                } else {
                    let sq = Square::from_index(f).unwrap();
                    if f > wkf {
                        self.castle_perm.wk = Some(sq);
                    } else {
                        self.castle_perm.wq = Some(sq);
                    }
                }
            } else if c >= 97 && c <= 122 {
                let f: u8 = c - 97;
                if f >= 8 {
                    bad = Some(FenError::InvalidCastling);
                } else if f == bkf {
                    bad = Some(FenError::CastlingOnKingFile);
                } else {
                    let sq = Square::from_index(56 + f).unwrap();
                    if f > bkf {
                        self.castle_perm.bk = Some(sq);
                    } else {
                        self.castle_perm.bq = Some(sq);
                    }
                }
            } else {
                bad = Some(FenError::InvalidCastling);
            }
            match bad {
                Some(e) => {
                    proof {
                        lemma_rights_err(
                            castling@,
                            i as int + 1,
                            n as int,
                            frc,
                            white_king,
                            black_king,
                            e,
                        );
                    }
                    return Err(e);
                },
                None => {},
            }
            i = i + 1;
        }
        Ok(())
    }

    fn set_ep(&mut self, ep_part: Option<&[u8]>) -> (r: Result<(), FenError>)
        ensures
            match parse_ep(
                match ep_part {
                    Some(p) => Some(p@),
                    None => None,
                },
            ) {
                Ok(ep) => r is Ok && *final(self) == (Board { ep_sq: ep, ..*old(self) }),
                Err(e) => r == Err::<(), FenError>(e) && *final(self) == *old(self),
            },
    {
        match ep_part {
            None => Err(FenError::MissingEnPassant),
            Some(p) => {
                if p.len() == 1 && p[0] == 45 {
                    proof {
                        assert(p@ =~= seq![45u8]);
                    }
                    self.ep_sq = None;
                    return Ok(());
                }
                proof {
                    if p@ =~= seq![45u8] {
                        assert(p@[0] == 45u8);
                    }
                }
                if p.len() != 2 {
                    return Err(FenError::InvalidEnPassant);
                }
                if !(p[0] >= 97 && p[0] <= 104 && p[1] >= 49 && p[1] <= 56) {
                    return Err(FenError::InvalidEnPassant);
                }
                let file = File::from_index(p[0] - 97).unwrap();
                let rank = Rank::from_index(p[1] - 49).unwrap();
                self.ep_sq = Some(Square::from_rank_file(rank, file));
                Ok(())
            },
        }
    }

    fn set_halfmove(&mut self, halfmove_part: Option<&[u8]>) -> (r: Result<(), FenError>)
        ensures
            *final(self) == (Board {
                fifty_move_counter: final(self).fifty_move_counter,
                ..*old(self)
            }),
            match parse_halfmove(
                match halfmove_part {
                    Some(p) => Some(p@),
                    None => None,
                },
            ) {
                Ok(n) => r is Ok && 0 <= n <= 100 && final(self).fifty_move_counter == n,
                Err(e) => r == Err::<(), FenError>(e),
            },
    {
        match halfmove_part {
            None => Err(FenError::MissingHalfmove),
            Some(p) => match read_number(p, 100) {
                Some(n) => {
                    self.fifty_move_counter = n as u8;
                    Ok(())
                },
                None => Err(FenError::InvalidHalfmove),
            },
        }
    }

    fn set_fullmove(&mut self, fullmove_part: Option<&[u8]>) -> (r: Result<(), FenError>)
        ensures
            match parse_fullmove(
                match fullmove_part {
                    Some(p) => Some(p@),
                    None => None,
                },
            ) {
                Ok(n) => r is Ok && *final(self) == (Board {
                    ply: ((n - 1) * 2 + (if old(self).side == Colour::Black {
                        1int
                    } else {
                        0
                    })) as usize,
                    ..*old(self)
                }) && final(self).ply == (n - 1) * 2 + (if old(self).side == Colour::Black {
                    1int
                } else {
                    0
                }),
                Err(e) => r == Err::<(), FenError>(e) && *final(self) == *old(self),
            },
    {
        match fullmove_part {
            None => Err(FenError::MissingFullmove),
            Some(p) => match read_number(p, usize::MAX / 2) {
                Some(n) => {
                    if n < 1 {
                        return Err(FenError::InvalidFullmove);
                    }
                    let mut ply: usize = (n - 1) * 2;
                    if self.side == Colour::Black {
                        ply = ply + 1;
                    }
                    self.ply = ply;
                    Ok(())
                },
                None => Err(FenError::InvalidFullmove),
            },
        }
    }
}


impl Board {
    /// The position string of the orthodox starting position.
    pub const STARTING_FEN: &'static str =
        "rnbqkbnr/pppppppp/8/8/8/8/PPPPPPPP/RNBQKBNR w KQkq - 0 1";

    /// The position string of the orthodox starting position, with the castling rights
    /// written by the files of the rooks.
    pub const STARTING_FEN_960: &'static str =
        "rnbqkbnr/pppppppp/8/8/8/8/PPPPPPPP/RNBQKBNR w AHah - 0 1";

    /// Whether the board is the sound position that `p` describes, at the root of a
    /// search and with no move made.
    pub open spec fn holds_parsed(&self, p: ParsedFen) -> bool {
        &&& self.wf()
        &&& self.piece_array@ == p.mb
        &&& self.side == p.side
        &&& self.castle_perm == p.rights
        &&& self.ep_sq == p.ep
        &&& self.fifty_move_counter == p.halfmove
        &&& self.ply == p.ply
        &&& self.height == 0
        &&& self.history@.len() == 0
    }

    fn set_info(&mut self, fen: &[u8], sp: usize) -> (r: Result<(), FenError>)
        requires
            sp == space_from(fen@, 0),
            sp < fen@.len(),
            one_king(old(self).pieces, Colour::White),
            one_king(old(self).pieces, Colour::Black),
            old(self).castle_perm == CastlingRights::none_spec(),
        ensures
            match parse_info(
                fen@,
                old(self).chess960,
                king_place(old(self).pieces, Colour::White),
                king_place(old(self).pieces, Colour::Black),
            ) {
                Ok(info) => r is Ok && final(self).side == info.side && final(self).castle_perm
                    == info.rights && final(self).ep_sq == info.ep
                    && final(self).fifty_move_counter == info.halfmove
                    && final(self).ply == info.ply,
                Err(e) => r == Err::<(), FenError>(e),
            },
            *final(self) == (Board {
                side: final(self).side,
                castle_perm: final(self).castle_perm,
                ep_sq: final(self).ep_sq,
                fifty_move_counter: final(self).fifty_move_counter,
                ply: final(self).ply,
                ..*old(self)
            }),
    {
        let ghost s = fen@;
        proof {
            assert(field_start(s, 0) == Some(0int));
            assert(field_start(s, 1) == Some(sp as int + 1));
        }
        let f1 = next_field(fen, sp);
        let (p1, e1) = match f1 {
            Some((p, e)) => (Some(p), e),
            None => (None, fen.len()),
        };
        match self.set_side(p1) {
            Err(e) => {
                return Err(e);
            },
            Ok(()) => {},
        }
        proof {
            assert(field_start(s, 2) == if e1 < s.len() {
                Some(e1 as int + 1)
            } else {
                None
            });
        }
        let f2 = next_field(fen, e1);
        let (p2, e2) = match f2 {
            Some((p, e)) => (Some(p), e),
            None => (None, fen.len()),
        };
        match self.set_castling(p2) {
            Err(e) => {
                return Err(e);
            },
            Ok(()) => {},
        }
        proof {
            assert(field_start(s, 3) == if e2 < s.len() {
                Some(e2 as int + 1)
            } else {
                None
            });
        }
        let f3 = next_field(fen, e2);
        let (p3, e3) = match f3 {
            Some((p, e)) => (Some(p), e),
            None => (None, fen.len()),
        };
        match self.set_ep(p3) {
            Err(e) => {
                return Err(e);
            },
            Ok(()) => {},
        }
        proof {
            assert(field_start(s, 4) == if e3 < s.len() {
                Some(e3 as int + 1)
            } else {
                None
            });
        }
        let f4 = next_field(fen, e3);
        let (p4, e4) = match f4 {
            Some((p, e)) => (Some(p), e),
            None => (None, fen.len()),
        };
        match self.set_halfmove(p4) {
            Err(e) => {
                return Err(e);
            },
            Ok(()) => {},
        }
        proof {
            assert(field_start(s, 5) == if e4 < s.len() {
                Some(e4 as int + 1)
            } else {
                None
            });
        }
        let f5 = next_field(fen, e4);
        let p5 = match f5 {
            Some((p, e)) => Some(p),
            None => None,
        };
        self.set_fullmove(p5)
    }

    /// Sets the board up from the bytes of a position string. A string that is refused
    /// leaves the board without pieces.
    pub fn set_from_fen_bytes(&mut self, fen: &[u8]) -> (r: Result<(), FenError>)
        ensures
            match parse_fen(fen@, old(self).chess960) {
                Ok(p) => r is Ok && final(self).holds_parsed(p),
                Err(e) => r == Err::<(), FenError>(e) && final(self).is_blank(),
            },
            final(self).chess960 == old(self).chess960,
    {
        self.reset();
        let sp = find_space(fen, 0);
        if sp >= fen.len() {
            return Err(FenError::MissingSpace);
        }
        match self.set_placement(fen, sp) {
            Err(e) => {
                self.reset();
                return Err(e);
            },
            Ok(()) => {},
        }
        if !self.single_king(Colour::White) || !self.single_king(Colour::Black) {
            self.reset();
            return Err(FenError::KingCount);
        }
        match self.set_info(fen, sp) {
            Err(e) => {
                self.reset();
                return Err(e);
            },
            Ok(()) => {},
        }
        self.keys = self.generate_pos_keys();
        self.threats = self.generate_threats(self.side.flip());
        Ok(())
    }

    /// Sets the board up from a position string: the piece placement from the eighth
    /// rank to the first, the side to move, the castling rights, the en-passant square,
    /// the half-move counter and the number of the move. A string that is refused
    /// leaves the board without pieces.
    pub fn set_from_fen(&mut self, fen: &str) -> (r: Result<(), FenError>)
        ensures
            !is_ascii(fen) ==> r == Err::<(), FenError>(FenError::NotAscii),
            !is_ascii(fen) ==> final(self).is_blank(),
            is_ascii(fen) ==> match parse_fen(fen.spec_bytes(), old(self).chess960) {
                Ok(p) => r is Ok && final(self).holds_parsed(p),
                Err(e) => r == Err::<(), FenError>(e) && final(self).is_blank(),
            },
            final(self).chess960 == old(self).chess960,
    {
        if !fen.is_ascii() {
            self.reset();
            return Err(FenError::NotAscii);
        }
        self.set_from_fen_bytes(fen.as_bytes())
    }

    /// The board set up from a position string, under the orthodox rules.
    pub fn from_fen(fen: &str) -> (r: Result<Board, FenError>)
        ensures
            !is_ascii(fen) ==> r == Err::<Board, FenError>(FenError::NotAscii),
            is_ascii(fen) ==> match parse_fen(fen.spec_bytes(), false) {
                Ok(p) => r is Ok && r->Ok_0.holds_parsed(p) && !r->Ok_0.chess960,
                Err(e) => r == Err::<Board, FenError>(e),
            },
    {
        let mut out = Board::new();
        match out.set_from_fen(fen) {
            Ok(()) => Ok(out),
            Err(e) => Err(e),
        }
    }
}

} // verus!
