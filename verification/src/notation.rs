use vstd::prelude::*;
use vstd::string::is_ascii;
use vstd::string::StringSliceAdditionalSpecFns;
use crate::attacks::{attack_bits, attacks_by_type};
use crate::bits::squares;
use crate::board::Board;
use crate::castling::CastlingRights;
use crate::chessmove::Move;
use crate::movelist::{capped, MoveList, MoveListEntry};
use crate::outcome::CheckState;
use crate::squareset::{file_bits, rank_bits, SquareSet};
use crate::types::{Colour, Piece, PieceType, Square};

verus! {

broadcast use crate::types::group_square;

/// `String::push`: the character is added at the end of the string.
#[verifier::external_body]
pub(crate) fn push_char(s: &mut String, c: char)
    ensures
        final(s)@ == old(s)@.push(c),
{
    s.push(c)
}

/// The characters that the bytes of `s` stand for, one for one.
pub open spec fn as_chars(s: Seq<u8>) -> Seq<char> {
    Seq::new(s.len(), |i: int| s[i] as char)
}

/// The digits of `n` in base ten, without leading zeros.
pub open spec fn decimal(n: nat) -> Seq<char>
    decreases n,
{
    if n < 10 {
        seq![(48 + n) as u8 as char]
    } else {
        decimal(n / 10).push((48 + n % 10) as u8 as char)
    }
}

/// Adds the digits of `n` in base ten to `s`.
pub(crate) fn push_decimal(s: &mut String, n: usize)
    ensures
        final(s)@ == old(s)@ + decimal(n as nat),
    decreases n,
{
    if n >= 10 {
        push_decimal(s, n / 10);
    }
    let d: u8 = 48 + (n % 10) as u8;
    push_char(s, d as char);
    proof {
        if n < 10 {
            assert(old(s)@.push(d as char) =~= old(s)@ + decimal(n as nat));
        } else {
            assert((old(s)@ + decimal((n / 10) as nat)).push(d as char) =~= old(s)@ + decimal(
                n as nat,
            ));
        }
    }
}

/// Why a move in coordinate notation was refused.
#[derive(Clone, Copy, Debug, PartialEq, Eq, Structural)]
pub enum MoveParseError {
    /// The text is not four or five bytes long; with the length it has.
    InvalidLength(usize),
    /// The first byte is no file from `a` to `h`.
    InvalidFromSquareFile(u8),
    /// The second byte is no rank from `1` to `8`.
    InvalidFromSquareRank(u8),
    /// The third byte is no file from `a` to `h`.
    InvalidToSquareFile(u8),
    /// The fourth byte is no rank from `1` to `8`.
    InvalidToSquareRank(u8),
    /// The fifth byte is none of `n`, `b`, `r`, `q`, `k`.
    InvalidPromotionPiece(u8),
    /// No pseudo-legal move of the position is written that way.
    IllegalMove,
}

/// The square that `m` is written as going to: for castling under the orthodox rules
/// towards a rook in a corner, the square two files from the king's start on the rook's
/// side; otherwise the target.
pub open spec fn written_to(m: Move, chess960: bool) -> Square {
    if !chess960 && m.castles() {
        if m.target() == Square::A1 {
            Square::C1
        } else if m.target() == Square::H1 {
            Square::G1
        } else if m.target() == Square::A8 {
            Square::C8
        } else if m.target() == Square::H8 {
            Square::G8
        } else {
            m.target()
        }
    } else {
        m.target()
    }
}

impl Move {
    /// The move in coordinate notation: the origin, the square it is written as going
    /// to, and for a promotion the lower-case letter of the new piece.
    pub open spec fn uci_text(self, chess960: bool) -> Seq<char> {
        (as_chars(self.origin().name_bytes()) + as_chars(
            written_to(self, chess960).name_bytes(),
        )) + (match self.promo_kind() {
            Some(kind) => seq![kind.promo_letter()->0],
            None => Seq::empty(),
        })
    }

    /// The square that the move is written as going to.
    pub fn written_square(self, chess960: bool) -> (r: Square)
        ensures
            r == written_to(self, chess960),
    {
        if !chess960 && self.is_castle() {
            let t = self.to();
            if t == Square::A1 {
                Square::C1
            } else if t == Square::H1 {
                Square::G1
            } else if t == Square::A8 {
                Square::C8
            } else if t == Square::H8 {
                Square::G8
            } else {
                t
            }
        } else {
            self.to()
        }
    }

    /// The move in coordinate notation, such as `e2e4` or `e7e8q`.
    pub fn display(self, chess960: bool) -> (r: String)
        ensures
            r@ == self.uci_text(chess960),
    {
        let mut out = String::new();
        let a = self.from().name();
        let b = self.written_square(chess960).name();
        push_char(&mut out, a[0] as char);
        push_char(&mut out, a[1] as char);
        push_char(&mut out, b[0] as char);
        push_char(&mut out, b[1] as char);
        match self.promotion_type() {
            Some(kind) => match kind.promo_char() {
                Some(c) => push_char(&mut out, c),
                None => {},
            },
            None => {},
        }
        proof {
            assert(out@ =~= self.uci_text(chess960));
        }
        out
    }
}

impl Board {
    /// The square a move is written as going to: for castling under the orthodox
    /// rules towards a rook in a corner, the square two files from the king's start on
    /// the rook's side; otherwise the target.
    pub open spec fn written_target(&self, m: Move) -> Square {
        written_to(m, self.chess960)
    }

    /// Whether `m` is written as going from `from` to `to`, with the promotion letter
    /// `promo` if there is one.
    pub open spec fn written_as(&self, m: Move, from: Square, to: Square, promo: Option<u8>) -> bool {
        &&& m.origin() == from
        &&& self.written_target(m) == to
        &&& match promo {
            None => true,
            Some(c) => match m.promo_kind() {
                Some(kind) => kind.promo_letter() == Some(c as char),
                None => false,
            },
        }
    }

    /// The first of `entries` that is written as given.
    pub open spec fn first_written(
        &self,
        entries: Seq<MoveListEntry>,
        from: Square,
        to: Square,
        promo: Option<u8>,
    ) -> Option<Move>
        decreases entries.len(),
    {
        if entries.len() == 0 {
            None
        } else {
            match self.first_written(entries.drop_last(), from, to, promo) {
                Some(m) => Some(m),
                None => if self.written_as(entries.last().mov, from, to, promo) {
                    Some(entries.last().mov)
                } else {
                    None
                },
            }
        }
    }

    /// The move that the bytes `s` write in coordinate notation: the file and rank of
    /// the origin, the file and rank of the target, and for a promotion the letter of the
    /// new piece. It is the first pseudo-legal move of the position that is written so.
    pub open spec fn uci_move(&self, s: Seq<u8>) -> Result<Move, MoveParseError> {
        if !(4 <= s.len() <= 5) {
            Err(MoveParseError::InvalidLength(s.len() as usize))
        } else if !(97 <= s[0] <= 104) {
            Err(MoveParseError::InvalidFromSquareFile(s[0]))
        } else if !(49 <= s[1] <= 56) {
            Err(MoveParseError::InvalidFromSquareRank(s[1]))
        } else if !(97 <= s[2] <= 104) {
            Err(MoveParseError::InvalidToSquareFile(s[2]))
        } else if !(49 <= s[3] <= 56) {
            Err(MoveParseError::InvalidToSquareRank(s[3]))
        } else if s.len() == 5 && !(s[4] == 110 || s[4] == 98 || s[4] == 114 || s[4] == 113 || s[4]
            == 107) {
            Err(MoveParseError::InvalidPromotionPiece(s[4]))
        } else {
            match self.first_written(
                capped(self.pseudo_moves()),
                Square::at((s[1] - 49) * 8 + (s[0] - 97)),
                Square::at((s[3] - 49) * 8 + (s[2] - 97)),
                if s.len() == 5 {
                    Some(s[4])
                } else {
                    None
                },
            ) {
                Some(m) => Ok(m),
                None => Err(MoveParseError::IllegalMove),
            }
        }
    }

    fn is_written_as(&self, m: Move, from: Square, to: Square, promo: Option<u8>) -> (r: bool)
        ensures
            r == self.written_as(m, from, to, promo),
    {
        let m_to = m.written_square(self.chess960);
        if !(m.from() == from && m_to == to) {
            return false;
        }
        match promo {
            None => true,
            Some(c) => match m.promotion_type() {
                Some(kind) => match kind.promo_char() {
                    Some(l) => l == c as char,
                    None => false,
                },
                None => false,
            },
        }
    }

    /// The move that the bytes `uci` write in coordinate notation.
    pub fn parse_uci_bytes(&self, uci: &[u8]) -> (r: Result<Move, MoveParseError>)
        requires
            self.wf(),
        ensures
            r == self.uci_move(uci@),
    {
        let n = uci.len();
        if !(4 <= n && n <= 5) {
            return Err(MoveParseError::InvalidLength(n));
        }
        if !(97 <= uci[0] && uci[0] <= 104) {
            return Err(MoveParseError::InvalidFromSquareFile(uci[0]));
        }
        if !(49 <= uci[1] && uci[1] <= 56) {
            return Err(MoveParseError::InvalidFromSquareRank(uci[1]));
        }
        if !(97 <= uci[2] && uci[2] <= 104) {
            return Err(MoveParseError::InvalidToSquareFile(uci[2]));
        }
        if !(49 <= uci[3] && uci[3] <= 56) {
            return Err(MoveParseError::InvalidToSquareRank(uci[3]));
        }
        if n == 5 && !(uci[4] == 110 || uci[4] == 98 || uci[4] == 114 || uci[4] == 113 || uci[4]
            == 107) {
            return Err(MoveParseError::InvalidPromotionPiece(uci[4]));
        }
        let from = Square::from_index((uci[1] - 49) * 8 + (uci[0] - 97)).unwrap();
        let to = Square::from_index((uci[3] - 49) * 8 + (uci[2] - 97)).unwrap();
        let promo = if n == 5 { Some(uci[4]) } else { None };
        let mut list = MoveList::new();
        self.generate_moves(&mut list);
        let len = list.len();
        let mut i: usize = 0;
        proof {
            assert(list@.take(0) =~= Seq::<MoveListEntry>::empty());
        }
        while i < len
            invariant
                i <= len == list@.len(),
                self.uci_move(uci@) == (match self.first_written(list@, from, to, promo) {
                    Some(m) => Ok::<Move, MoveParseError>(m),
                    None => Err::<Move, MoveParseError>(MoveParseError::IllegalMove),
                }),
                self.first_written(list@.take(i as int), from, to, promo) is None,
            decreases len - i,
        {
            let m = list.get(i).mov;
            proof {
                assert(list@.take(i as int + 1).drop_last() =~= list@.take(i as int));
            }
            if self.is_written_as(m, from, to, promo) {
                proof {
                    self.lemma_first_written_stays(list@, i as int + 1, from, to, promo);
                }
                return Ok(m);
            }
            i = i + 1;
        }
        proof {
            assert(list@.take(len as int) =~= list@);
        }
        Err(MoveParseError::IllegalMove)
    }

    proof fn lemma_first_written_stays(
        &self,
        entries: Seq<MoveListEntry>,
        i: int,
        from: Square,
        to: Square,
        promo: Option<u8>,
    )
        requires
            0 <= i <= entries.len(),
            self.first_written(entries.take(i), from, to, promo) is Some,
        ensures
            self.first_written(entries, from, to, promo) == self.first_written(
                entries.take(i),
                from,
                to,
                promo,
            ),
        decreases entries.len() - i,
    {
        if i < entries.len() {
            assert(entries.take(i + 1).drop_last() =~= entries.take(i));
            self.lemma_first_written_stays(entries, i + 1, from, to, promo);
        } else {
            assert(entries.take(i) =~= entries);
        }
    }

    /// The move that `uci` writes in coordinate notation, such as `e2e4` or `e7e8q`.
    /// Under the orthodox rules castling is written as the king's move of two files.
    pub fn parse_uci(&self, uci: &str) -> (r: Result<Move, MoveParseError>)
        requires
            self.wf(),
        ensures
            r == self.uci_move(uci.spec_bytes()),
    {
        self.parse_uci_bytes(uci.as_bytes())
    }
}


/// The square that comes at place `k` when the board is read from a8 to h1, rank by
/// rank.
pub open spec fn reading_square(k: int) -> int {
    (7 - k / 8) * 8 + k % 8
}

/// The number of empty squares that end the first `n` squares read, within their rank.
pub open spec fn placement_run(mb: Seq<Option<Piece>>, n: int) -> int
    decreases n,
{
    if n <= 0 || (n - 1) % 8 == 7 {
        0
    } else {
        match mb[reading_square(n - 1)] {
            Some(_) => 0,
            None => placement_run(mb, n - 1) + 1,
        }
    }
}

/// The text with a digit for a run of `run` empty squares added, if there is a run.
pub open spec fn with_run(text: Seq<char>, run: int) -> Seq<char> {
    if run > 0 {
        text.push((48 + run) as u8 as char)
    } else {
        text
    }
}

/// The piece placement of the first `n` squares read: a letter for each piece, a digit
/// for each run of empty squares once it ends, and a slash after each rank but the last.
pub open spec fn placement_text(mb: Seq<Option<Piece>>, n: int) -> Seq<char>
    decreases n,
{
    if n <= 0 {
        Seq::empty()
    } else {
        let k = n - 1;
        let run = placement_run(mb, k);
        let a = match mb[reading_square(k)] {
            Some(p) => with_run(placement_text(mb, k), run).push(p.letter() as char),
            None => placement_text(mb, k),
        };
        let run2 = match mb[reading_square(k)] {
            Some(_) => 0,
            None => run + 1,
        };
        if k % 8 == 7 {
            if k != 63 {
                with_run(a, run2).push('/')
            } else {
                with_run(a, run2)
            }
        } else {
            a
        }
    }
}

/// The letter of one castling right: nothing where the right is not there; under the
/// orthodox rules the letter `plain`; under the rules of Chess960 the letter of the
/// rook's file, counted from `base` (`A` for white, `a` for black).
pub open spec fn right_letter(right: Option<Square>, frc: bool, plain: char, base: u8) -> Seq<char> {
    match right {
        None => Seq::empty(),
        Some(sq) => if frc {
            seq![(base + sq.idx() % 8) as u8 as char]
        } else {
            seq![plain]
        },
    }
}

/// The castling rights as text: a dash where there is none, else a letter for each
/// right there is, white's king's wing first, then white's queen's wing, then black's.
/// Under the orthodox rules the letters are `K`, `Q`, `k`, `q`; under the rules of
/// Chess960 (`frc`) each letter names the file of the rook.
pub open spec fn rights_text(r: CastlingRights, frc: bool) -> Seq<char> {
    if r == CastlingRights::none_spec() {
        seq!['-']
    } else {
        ((right_letter(r.wk, frc, 'K', 65) + right_letter(r.wq, frc, 'Q', 65)) + right_letter(
            r.bk,
            frc,
            'k',
            97,
        )) + right_letter(r.bq, frc, 'q', 97)
    }
}

/// The en-passant square as text: its name, or a dash.
pub open spec fn ep_text(ep: Option<Square>) -> Seq<char> {
    match ep {
        Some(sq) => as_chars(sq.name_bytes()),
        None => seq!['-'],
    }
}

impl Board {
    /// The position as a position string: piece placement, side to move, castling
    /// rights, en-passant square, half-move counter and number of the move, with one
    /// space between them.
    pub open spec fn fen_text(&self) -> Seq<char> {
        ((((placement_text(self.piece_array@, 64).push(' ').push(
            if self.side == Colour::White {
                'w'
            } else {
                'b'
            },
        ).push(' ') + rights_text(self.castle_perm, self.chess960)).push(' ') + ep_text(self.ep_sq)).push(' ')
            + decimal(self.fifty_move_counter as nat)).push(' ')) + decimal(
            (self.ply / 2 + 1) as nat,
        )
    }

    fn push_placement(&self, out: &mut String)
        ensures
            final(out)@ == old(out)@ + placement_text(self.piece_array@, 64),
    {
        let mut k: u8 = 0;
        let mut run: u8 = 0;
        let ghost mb = self.piece_array@;
        proof {
            assert(old(out)@ + placement_text(mb, 0) =~= old(out)@);
        }
        while k < 64
            invariant
                k <= 64,
                mb == self.piece_array@,
                0 <= run <= 8,
                run <= k % 8,
                run == placement_run(mb, k as int),
                out@ == old(out)@ + placement_text(mb, k as int),
            decreases 64 - k,
        {
            let sq: u8 = (7 - k / 8) * 8 + k % 8;
            let ghost before = placement_text(mb, k as int);
            let ghost start = out@;
            match self.piece_array[sq as usize] {
                Some(p) => {
                    if run > 0 {
                        push_char(out, (48 + run) as char);
                    }
                    push_char(out, p.byte() as char);
                    run = 0;
                },
                None => {
                    run = run + 1;
                },
            }
            if k % 8 == 7 {
                if run > 0 {
                    push_char(out, (48 + run) as char);
                }
                run = 0;
                if k != 63 {
                    push_char(out, '/');
                }
            }
            k = k + 1;
            proof {
                assert(out@ =~= old(out)@ + placement_text(mb, k as int));
            }
        }
    }

    /// The position as a position string.
    pub fn fen(&self) -> (r: String)
        ensures
            r@ == self.fen_text(),
    {
        let mut out = String::new();
        self.push_placement(&mut out);
        proof {
            assert(out@ =~= placement_text(self.piece_array@, 64));
        }
        push_char(&mut out, ' ');
        push_char(&mut out, if self.side == Colour::White { 'w' } else { 'b' });
        push_char(&mut out, ' ');
        push_rights(&mut out, self.castle_perm, self.chess960);
        push_char(&mut out, ' ');
        push_ep(&mut out, self.ep_sq);
        push_char(&mut out, ' ');
        push_decimal(&mut out, self.fifty_move_counter as usize);
        push_char(&mut out, ' ');
        push_decimal(&mut out, self.ply / 2 + 1);
        out
    }
}

proof fn lemma_six(
    a: Seq<char>,
    t1: Seq<char>,
    t2: Seq<char>,
    t3: Seq<char>,
    t4: Seq<char>,
    t5: Seq<char>,
    t6: Seq<char>,
)
    ensures
        (((((a + t1) + t2) + t3) + t4) + t5) + t6 == a + (((((t1 + t2) + t3) + t4) + t5) + t6),
{
    assert((((((a + t1) + t2) + t3) + t4) + t5) + t6 =~= a + (((((t1 + t2) + t3) + t4) + t5) + t6));
}

fn file_char(sq: Square) -> (c: char)
    ensures
        c == file_letter(sq),
{
    (97 + sq.index() % 8) as char
}

fn rank_char(sq: Square) -> (c: char)
    ensures
        c == rank_digit(sq),
{
    (49 + sq.index() / 8) as char
}

fn push_opt(out: &mut String, cond: bool, c: char)
    ensures
        final(out)@ == old(out)@ + opt_char(cond, c),
{
    if cond {
        push_char(out, c);
    }
    proof {
        assert(out@ =~= old(out)@ + opt_char(cond, c));
    }
}

fn push_prefix(out: &mut String, kind: PieceType, cap: bool, fl: char)
    ensures
        final(out)@ == old(out)@ + (if kind == PieceType::Pawn {
            opt_char(cap, fl)
        } else {
            kind_letter(kind)
        }),
{
    match kind {
        PieceType::Pawn => {
            if cap {
                push_char(out, fl);
            }
        },
        PieceType::Knight => push_char(out, 'N'),
        PieceType::Bishop => push_char(out, 'B'),
        PieceType::Rook => push_char(out, 'R'),
        PieceType::Queen => push_char(out, 'Q'),
        PieceType::King => push_char(out, 'K'),
    }
    proof {
        assert(out@ =~= old(out)@ + (if kind == PieceType::Pawn {
            opt_char(cap, fl)
        } else {
            kind_letter(kind)
        }));
    }
}

fn push_promo(out: &mut String, kind: Option<PieceType>)
    ensures
        final(out)@ == old(out)@ + promo_text(kind),
{
    match kind {
        Some(PieceType::Knight) => {
            push_char(out, '=');
            push_char(out, 'N');
        },
        Some(PieceType::Bishop) => {
            push_char(out, '=');
            push_char(out, 'B');
        },
        Some(PieceType::Rook) => {
            push_char(out, '=');
            push_char(out, 'R');
        },
        Some(PieceType::Queen) => {
            push_char(out, '=');
            push_char(out, 'Q');
        },
        _ => {},
    }
    proof {
        assert(out@ =~= old(out)@ + promo_text(kind));
    }
}

fn push_right(out: &mut String, right: Option<Square>, frc: bool, plain: char, base: u8)
    requires
        base == 65 || base == 97,
    ensures
        final(out)@ == old(out)@ + right_letter(right, frc, plain, base),
{
    match right {
        None => {},
        Some(sq) => {
            if frc {
                push_char(out, (base + sq.index() % 8) as char);
            } else {
                push_char(out, plain);
            }
        },
    }
    proof {
        assert(out@ =~= old(out)@ + right_letter(right, frc, plain, base));
    }
}

fn push_rights(out: &mut String, rights: CastlingRights, frc: bool)
    ensures
        final(out)@ == old(out)@ + rights_text(rights, frc),
{
    if rights.is_none() {
        push_char(out, '-');
        proof {
            assert(out@ =~= old(out)@ + rights_text(rights, frc));
        }
    } else {
        push_right(out, rights.wk, frc, 'K', 65);
        push_right(out, rights.wq, frc, 'Q', 65);
        push_right(out, rights.bk, frc, 'k', 97);
        push_right(out, rights.bq, frc, 'q', 97);
        proof {
            let a = right_letter(rights.wk, frc, 'K', 65);
            let b = right_letter(rights.wq, frc, 'Q', 65);
            let c = right_letter(rights.bk, frc, 'k', 97);
            let d = right_letter(rights.bq, frc, 'q', 97);
            assert((((old(out)@ + a) + b) + c) + d =~= old(out)@ + (((a + b) + c) + d));
        }
    }
}

fn push_ep(out: &mut String, ep: Option<Square>)
    ensures
        final(out)@ == old(out)@ + ep_text(ep),
{
    match ep {
        Some(sq) => {
            let name = sq.name();
            push_char(out, name[0] as char);
            push_char(out, name[1] as char);
        },
        None => {
            push_char(out, '-');
        },
    }
    proof {
        assert(out@ =~= old(out)@ + ep_text(ep));
    }
}


/// The letter that stands for a piece of kind `kind` in a move written in words; none
/// for the pawn.
pub open spec fn kind_letter(kind: PieceType) -> Seq<char> {
    match kind {
        PieceType::Pawn => Seq::empty(),
        PieceType::Knight => seq!['N'],
        PieceType::Bishop => seq!['B'],
        PieceType::Rook => seq!['R'],
        PieceType::Queen => seq!['Q'],
        PieceType::King => seq!['K'],
    }
}

/// The letter of the file of `sq`.
pub open spec fn file_letter(sq: Square) -> char {
    (97 + sq.idx() % 8) as u8 as char
}

/// The digit of the rank of `sq`.
pub open spec fn rank_digit(sq: Square) -> char {
    (49 + sq.idx() / 8) as u8 as char
}

/// The text `c` where `cond` holds, nothing otherwise.
pub open spec fn opt_char(cond: bool, c: char) -> Seq<char> {
    if cond {
        seq![c]
    } else {
        Seq::empty()
    }
}

/// The mark of a promotion to `kind`: an equals sign and the letter of the piece.
pub open spec fn promo_text(kind: Option<PieceType>) -> Seq<char> {
    match kind {
        Some(PieceType::Knight) => seq!['=', 'N'],
        Some(PieceType::Bishop) => seq!['=', 'B'],
        Some(PieceType::Rook) => seq!['=', 'R'],
        Some(PieceType::Queen) => seq!['=', 'Q'],
        _ => Seq::empty(),
    }
}

/// The mark of what a move does to the king of the other side.
pub open spec fn check_text(c: CheckState) -> Seq<char> {
    match c {
        CheckState::Nothing => Seq::empty(),
        CheckState::Check => seq!['+'],
        CheckState::Checkmate => seq!['#'],
    }
}

impl Board {
    /// Whether `m`, made by the piece `p`, is written as a capture: it captures on its
    /// target, or it is a pawn's move to the en-passant square.
    pub open spec fn written_capture(&self, m: Move, p: Piece) -> bool {
        self.victim(m) is Some || (p.kind() == PieceType::Pawn && Some(m.target()) == self.ep_sq)
    }

    /// The pieces like `p` that attack the target of `m`: those that the origin may
    /// have to be told apart from. None for a pawn.
    pub open spec fn rivals(&self, m: Move, p: Piece) -> u64 {
        if p.kind() == PieceType::Pawn {
            0
        } else {
            attack_bits(p.kind(), m.target().idx(), self.pieces.occ()) & self.pieces.bb(p)
        }
    }

    /// Whether the file of the origin is written: more than one piece like `p` attacks
    /// the target, and the file tells the origin apart or neither file nor rank does.
    pub open spec fn writes_file(&self, m: Move, p: Piece) -> bool {
        let r = self.rivals(m, p);
        let by_file = squares(r & file_bits(m.origin().idx() % 8)).len() == 1;
        let by_rank = squares(r & rank_bits(m.origin().idx() / 8)).len() == 1;
        squares(r).len() > 1 && ((!by_file && !by_rank) || by_file)
    }

    /// Whether the rank of the origin is written: more than one piece like `p` attacks
    /// the target, and the rank tells the origin apart while the file does not, or
    /// neither does.
    pub open spec fn writes_rank(&self, m: Move, p: Piece) -> bool {
        let r = self.rivals(m, p);
        let by_file = squares(r & file_bits(m.origin().idx() % 8)).len() == 1;
        let by_rank = squares(r & rank_bits(m.origin().idx() / 8)).len() == 1;
        squares(r).len() > 1 && ((!by_file && !by_rank) || (by_rank && !by_file))
    }

    /// The move `m` of the piece `p` in words, without the mark of check: the letter of
    /// the piece, or for a capturing pawn the letter of its file; the file and the rank of
    /// the origin as far as they are needed; `x` for a capture; the target; and the
    /// mark of a promotion.
    pub open spec fn san_body(&self, m: Move, p: Piece) -> Seq<char> {
        let cap = self.written_capture(m, p);
        (if p.kind() == PieceType::Pawn {
            opt_char(cap, file_letter(m.origin()))
        } else {
            kind_letter(p.kind())
        }) + opt_char(self.writes_file(m, p), file_letter(m.origin())) + opt_char(
            self.writes_rank(m, p),
            rank_digit(m.origin()),
        ) + opt_char(cap, 'x') + as_chars(m.target().name_bytes()) + promo_text(m.promo_kind())
    }

    /// The move `m` in words. Castling is `O-O` towards a rook on a higher square and
    /// `O-O-O` otherwise. A check is marked with `+` and a mate with `#`. There is no
    /// text for a move from an empty square.
    pub open spec fn san_text(&self, m: Move) -> Option<Seq<char>> {
        let check = check_text(self.gives_state(m));
        if m.castles() {
            if m.target().idx() > m.origin().idx() {
                Some(seq!['O', '-', 'O'] + check)
            } else {
                Some(seq!['O', '-', 'O', '-', 'O'] + check)
            }
        } else {
            match self.at(m.origin()) {
                None => None,
                Some(p) => Some(self.san_body(m, p) + check),
            }
        }
    }

    /// Boards in the same state write a move with the same words.
    pub proof fn lemma_same_san(&self, other: Board, m: Move)
        requires
            self.same_state(other),
        ensures
            self.san_text(m) == other.san_text(m),
    {
        self.lemma_same_moves(other);
        self.lemma_after_same(other, m);
    }

    fn san_flags(&self, m: Move, p: Piece) -> (r: (bool, bool, bool))
        ensures
            r.0 == self.written_capture(m, p),
            r.1 == self.writes_file(m, p),
            r.2 == self.writes_rank(m, p),
    {
        let from = m.from();
        let to_sq = m.to();
        let kind = p.piece_type();
        let is_capture = self.is_capture(m) || (kind == PieceType::Pawn && Some(to_sq)
            == self.ep_sq);
        let possible_ambiguous_attackers = if kind == PieceType::Pawn {
            SquareSet::empty()
        } else {
            attacks_by_type(kind, to_sq, self.pieces.occupied()).intersection(
                self.pieces.piece_bb(p),
            )
        };
        let needs_disambiguation = possible_ambiguous_attackers.count() > 1;
        let from_file = SquareSet::file_mask(from.file());
        let from_rank = SquareSet::rank_mask(from.rank());
        let by_file = possible_ambiguous_attackers.intersection(from_file).count() == 1;
        let by_rank = possible_ambiguous_attackers.intersection(from_rank).count() == 1;
        let needs_both = !by_file && !by_rank;
        (
            is_capture,
            needs_disambiguation && (needs_both || by_file),
            needs_disambiguation && (needs_both || (by_rank && !by_file)),
        )
    }

    fn push_san_body(&self, out: &mut String, m: Move, p: Piece)
        ensures
            final(out)@ == old(out)@ + self.san_body(m, p),
    {
        let from = m.from();
        let (cap, with_file, with_rank) = self.san_flags(m, p);
        let fl = file_char(from);
        let rd = rank_char(from);
        let ghost t1 = if p.kind() == PieceType::Pawn {
            opt_char(cap, fl)
        } else {
            kind_letter(p.kind())
        };
        let ghost t2 = opt_char(with_file, fl);
        let ghost t3 = opt_char(with_rank, rd);
        let ghost t4 = opt_char(cap, 'x');
        let ghost t5 = ep_text(Some(m.target()));
        let ghost t6 = promo_text(m.promo_kind());
        push_prefix(out, p.piece_type(), cap, fl);
        push_opt(out, with_file, fl);
        push_opt(out, with_rank, rd);
        push_opt(out, cap, 'x');
        push_ep(out, Some(m.to()));
        push_promo(out, m.promotion_type());
        proof {
            assert(out@ == (((((old(out)@ + t1) + t2) + t3) + t4) + t5) + t6);
            assert(self.san_body(m, p) == ((((t1 + t2) + t3) + t4) + t5) + t6);
            lemma_six(old(out)@, t1, t2, t3, t4, t5, t6);
        }
    }

    /// The move `m` in words, with the marks of check and mate. The board is left as
    /// it was.
    pub fn san(&mut self, m: Move) -> (r: Option<String>)
        requires
            old(self).wf(),
            old(self).room_for(2),
        ensures
            match r {
                Some(s) => old(self).san_text(m) == Some(s@),
                None => old(self).san_text(m) is None,
            },
            final(self).same_state(*old(self)),
    {
        let state = self.gives(m);
        proof {
            let now = *self;
            now.lemma_same_san(*old(self), m);
            now.lemma_same_moves(*old(self));
        }
        let mut out = String::new();
        if m.is_castle() {
            push_char(&mut out, 'O');
            push_char(&mut out, '-');
            push_char(&mut out, 'O');
            if !(m.to().index() > m.from().index()) {
                push_char(&mut out, '-');
                push_char(&mut out, 'O');
            }
        } else {
            match self.piece_at(m.from()) {
                None => {
                    return None;
                },
                Some(p) => {
                    self.push_san_body(&mut out, m, p);
                },
            }
        }
        let ghost body = out@;
        match state {
            CheckState::Nothing => {},
            CheckState::Check => push_char(&mut out, '+'),
            CheckState::Checkmate => push_char(&mut out, '#'),
        }
        proof {
            assert(out@ =~= body + check_text(state));
            if m.castles() {
                if m.target().idx() > m.origin().idx() {
                    assert(body =~= seq!['O', '-', 'O']);
                } else {
                    assert(body =~= seq!['O', '-', 'O', '-', 'O']);
                }
            } else {
                assert(body =~= self.san_body(m, self.at(m.origin())->0));
            }
        }
        Some(out)
    }
}


/// The line `moves` from move number `i` on in words, played from the position `b`:
/// each move as the position before it writes it, or `???` where it has no text, with a
/// space after each. A move that cannot be made leaves the position as it is.
pub open spec fn pv_text(b: Board, moves: Seq<Move>, i: int) -> Seq<char>
    decreases moves.len() - i,
{
    if i < 0 || i >= moves.len() {
        Seq::empty()
    } else {
        pv_word(b, moves[i]).push(' ') + pv_text(
            if b.legal(moves[i]) {
                b.after(moves[i])
            } else {
                b
            },
            moves,
            i + 1,
        )
    }
}

/// Boards in the same state write a line with the same words.
pub proof fn lemma_same_pv(a: Board, b: Board, moves: Seq<Move>, i: int)
    requires
        a.same_state(b),
    ensures
        pv_text(a, moves, i) == pv_text(b, moves, i),
    decreases moves.len() - i,
{
    if 0 <= i < moves.len() {
        a.lemma_same_san(b, moves[i]);
        a.lemma_same_moves(b);
        a.lemma_after_same(b, moves[i]);
        if !a.legal(moves[i]) {
            lemma_same_pv(a, b, moves, i + 1);
        }
    }
}

fn push_seq(out: &mut String, word: &String)
    ensures
        final(out)@ == old(out)@ + word@,
{
    out.append(word.as_str());
}

/// The word for `m` in a line: its text, or `???` where it has none.
pub open spec fn pv_word(b: Board, m: Move) -> Seq<char> {
    match b.san_text(m) {
        Some(t) => t,
        None => seq!['?', '?', '?'],
    }
}

impl Board {
    fn pv_step(&mut self, out: &mut String, m: Move) -> (applied: bool)
        requires
            old(self).wf(),
            old(self).room_for(2),
        ensures
            final(out)@ == old(out)@ + pv_word(*old(self), m).push(' '),
            applied == old(self).legal(m),
            applied ==> Board::made(*old(self), m, old(self).after(m)),
            applied ==> final(self).same_state(old(self).after(m)),
            !applied ==> final(self).same_state(*old(self)),
            final(self).wf(),
            final(self).fifty_move_counter <= old(self).fifty_move_counter + 1,
            final(self).ply <= old(self).ply + 1,
            final(self).height <= old(self).height + 1,
    {
        let word = self.san(m);
        let ghost before = out@;
        match word {
            Some(w) => {
                push_seq(out, &w);
            },
            None => {
                push_char(out, '?');
                push_char(out, '?');
                push_char(out, '?');
                proof {
                    assert(out@ =~= before + seq!['?', '?', '?']);
                }
            },
        }
        push_char(out, ' ');
        proof {
            assert(out@ =~= before + pv_word(*old(self), m).push(' '));
        }
        let ghost now = *self;
        proof {
            now.lemma_same_moves(*old(self));
        }
        let applied = self.make_move_simple(m);
        proof {
            if applied {
                let mid = *self;
                now.lemma_same_made(*old(self), m, mid);
                old(self).lemma_after(m, mid);
            }
        }
        applied
    }

    /// The line `pv` in words, played from the position. The board is left as it was.
    pub fn pv_san(&mut self, pv: &[Move]) -> (r: String)
        requires
            old(self).wf(),
            old(self).room_for(pv@.len() as int + 2),
        ensures
            r@ == pv_text(*old(self), pv@, 0),
            final(self).same_state(*old(self)),
    {
        let mut out = String::new();
        let mut moves_made: usize = 0;
        let n = pv.len();
        let mut i: usize = 0;
        let ghost trail: Seq<Board> = seq![*old(self)];
        let ghost made_moves: Seq<Move> = Seq::empty();
        proof {
            assert(out@ + pv_text(*old(self), pv@, 0) =~= pv_text(*old(self), pv@, 0));
        }
        while i < n
            invariant
                i <= n == pv@.len(),
                moves_made <= i,
                trail.len() == moves_made + 1,
                made_moves.len() == moves_made,
                trail[0] == *old(self),
                forall|j: int|
                    0 <= j < moves_made ==> Board::made(
                        #[trigger] trail[j],
                        made_moves[j],
                        trail[j + 1],
                    ),
                self.same_state(trail[moves_made as int]),
                self.wf(),
                self.room_for(n + 2 - moves_made),
                out@ + pv_text(*self, pv@, i as int) == pv_text(*old(self), pv@, 0),
            decreases n - i,
        {
            let m = pv[i];
            let ghost pre = *self;
            let ghost before = out@;
            let applied = self.pv_step(&mut out, m);
            proof {
                let next = if pre.legal(m) {
                    pre.after(m)
                } else {
                    pre
                };
                lemma_same_pv(*self, next, pv@, i as int + 1);
                assert(pv_text(pre, pv@, i as int) == pv_word(pre, m).push(' ') + pv_text(
                    next,
                    pv@,
                    i as int + 1,
                ));
                assert(out@ + pv_text(*self, pv@, i as int + 1) =~= before + pv_text(
                    pre,
                    pv@,
                    i as int,
                ));
                if applied {
                    pre.lemma_same_made(trail[moves_made as int], m, pre.after(m));
                    trail = trail.push(pre.after(m));
                    made_moves = made_moves.push(m);
                }
            }
            if applied {
                moves_made = moves_made + 1;
            }
            i = i + 1;
        }
        let mut k: usize = moves_made;
        while k > 0
            invariant
                k <= moves_made,
                trail.len() == moves_made + 1,
                made_moves.len() == moves_made,
                trail[0] == *old(self),
                forall|j: int|
                    0 <= j < moves_made ==> Board::made(
                        #[trigger] trail[j],
                        made_moves[j],
                        trail[j + 1],
                    ),
                self.same_state(trail[k as int]),
            decreases k,
        {
            proof {
                assert(Board::made(trail[k - 1], made_moves[k - 1], trail[k - 1 + 1]));
            }
            self.unmake_move_base();
            proof {
                assert(Board::unmade(trail[k as int], *self));
                Board::lemma_make_unmake(trail[k - 1], made_moves[k - 1], trail[k as int], *self);
            }
            k = k - 1;
        }
        out
    }
}

} // verus!
