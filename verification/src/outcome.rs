use vstd::prelude::*;
use crate::bits::squares;
use crate::board::Board;
use crate::chessmove::Move;
use crate::movelist::{capped, MoveList, MoveListEntry};
use crate::squareset::{DARK_SQUARES, LIGHT_SQUARES, SquareSet};
use crate::types::{Col, Colour, Piece, PieceType};

verus! {

broadcast use crate::types::group_square;

/// How a game stands or ended.
#[derive(Clone, Copy, Debug, PartialEq, Eq, Hash, Structural)]
pub enum GameOutcome {
    WhiteWin(WinType),
    BlackWin(WinType),
    Draw(DrawType),
    Ongoing,
}

/// How a game was won.
#[derive(Clone, Copy, Debug, PartialEq, Eq, Hash, Structural)]
pub enum WinType {
    Mate,
    TB,
    Adjudication,
}

/// How a game was drawn.
#[derive(Clone, Copy, Debug, PartialEq, Eq, Hash, Structural)]
pub enum DrawType {
    TB,
    FiftyMoves,
    Repetition,
    Stalemate,
    InsufficientMaterial,
    Adjudication,
}

/// Everything that a board holds but the records of the moves made.
pub struct Core {
    pub pieces: crate::piecelayout::PieceLayout,
    pub piece_array: [Option<Piece>; 64],
    pub side: Colour,
    pub ep_sq: Option<crate::types::Square>,
    pub castle_perm: crate::castling::CastlingRights,
    pub fifty_move_counter: u8,
    pub ply: usize,
    pub keys: crate::position::Keys,
    pub threats: crate::piecelayout::Threats,
    pub height: usize,
    pub chess960: bool,
}

/// Whether making `m` on a board that holds `core` and the records `history` can leave
/// the board `post`.
pub open spec fn led_to(core: Core, history: Seq<crate::board::Undo>, m: Move, post: Board) -> bool {
    exists|pre: Board|
        pre.essence() == core && pre.history@ == history && #[trigger] Board::made(pre, m, post)
}

/// The board that making `m` leaves on a board that holds `core` and the records
/// `history`.
pub open spec fn after_of(core: Core, history: Seq<crate::board::Undo>, m: Move) -> Board {
    choose|post: Board| led_to(core, history, m, post)
}

/// What a move does to the king of the other side.
#[derive(Clone, Copy, Debug, PartialEq, Eq, Hash, Structural)]
pub enum CheckState {
    Nothing,
    Check,
    Checkmate,
}

impl GameOutcome {
    /// The result of a game that is over as a number: 2 where white won, 1 for a draw,
    /// 0 where black won.
    pub fn as_packed_u8(self) -> (r: u8)
        requires
            self != GameOutcome::Ongoing,
        ensures
            r == (match self {
                GameOutcome::WhiteWin(_) => 2u8,
                GameOutcome::BlackWin(_) => 0u8,
                _ => 1u8,
            }),
    {
        match self {
            GameOutcome::WhiteWin(_) => 2,
            GameOutcome::BlackWin(_) => 0,
            _ => 1,
        }
    }
}

impl Board {
    /// Whether `m` can be made: it can be carried out and leaves the king of the side
    /// that makes it out of every attack.
    pub open spec fn legal(&self, m: Move) -> bool {
        self.applicable(m) && self.king_safe_after(m)
    }

    /// Boards in the same state have the same moves, and the same moves can be made on
    /// them.
    pub proof fn lemma_same_moves(&self, other: Board)
        requires
            self.same_state(other),
        ensures
            self.pseudo_moves() == other.pseudo_moves(),
            self.capture_moves(false) == other.capture_moves(false),
            self.capture_moves(true) == other.capture_moves(true),
            self.quiet_moves() == other.quiet_moves(),
            forall|m: Move| self.legal(m) == other.legal(m),
            forall|m: Move| self.pseudo_legal(m) == other.pseudo_legal(m),
            self.wf() == other.wf(),
            self.has_room() == other.has_room(),
    {
    }

    /// Boards in the same state are left in the same states by the same move.
    pub proof fn lemma_same_made(&self, other: Board, m: Move, post: Board)
        requires
            self.same_state(other),
        ensures
            Board::made(*self, m, post) == Board::made(other, m, post),
    {
    }

    /// The moves among `entries` that can be made, in the same order.
    pub open spec fn legal_of(&self, entries: Seq<MoveListEntry>) -> Seq<Move>
        decreases entries.len(),
    {
        if entries.len() == 0 {
            Seq::empty()
        } else if self.legal(entries.last().mov) {
            self.legal_of(entries.drop_last()).push(entries.last().mov)
        } else {
            self.legal_of(entries.drop_last())
        }
    }

    /// The legal moves of the position: the pseudo-legal moves that a move list holds
    /// and that can be made.
    pub open spec fn legal_line(&self) -> Seq<Move> {
        self.legal_of(capped(self.pseudo_moves()))
    }

    /// Everything that the board holds but the records of the moves made.
    pub open spec fn essence(&self) -> Core {
        Core {
            pieces: self.pieces,
            piece_array: self.piece_array,
            side: self.side,
            ep_sq: self.ep_sq,
            castle_perm: self.castle_perm,
            fifty_move_counter: self.fifty_move_counter,
            ply: self.ply,
            keys: self.keys,
            threats: self.threats,
            height: self.height,
            chess960: self.chess960,
        }
    }

    /// The board that making `m` leaves.
    pub open spec fn after(&self, m: Move) -> Board {
        after_of(self.essence(), self.history@, m)
    }

    /// Every board that making `m` can leave is in the state of `after(m)`.
    pub proof fn lemma_after(&self, m: Move, post: Board)
        requires
            Board::made(*self, m, post),
        ensures
            post.same_state(self.after(m)),
            Board::made(*self, m, self.after(m)),
    {
        let other = self.after(m);
        assert(self.essence() == self.essence() && self.history@ == self.history@ && Board::made(
            *self,
            m,
            post,
        ));
        assert(led_to(self.essence(), self.history@, m, post));
        assert(led_to(self.essence(), self.history@, m, other));
        let pre = choose|pre: Board|
            pre.essence() == self.essence() && pre.history@ == self.history@ && Board::made(
                pre,
                m,
                other,
            );
        pre.lemma_same_moves(*self);
        assert(Board::made(*self, m, other));
        Board::lemma_made_sound(*self, m, post);
        Board::lemma_made_sound(*self, m, other);
        assert(post.piece_array@ == other.piece_array@);
        assert(post.piece_array =~= other.piece_array);
        assert(post.pieces == other.pieces);
        assert(post.keys == other.keys);
        assert(post.threats == other.threats);
        assert(post.history@ == other.history@);
    }

    /// Boards in the same state are left in the same state by the same move.
    pub proof fn lemma_after_same(&self, other: Board, m: Move)
        requires
            self.same_state(other),
        ensures
            self.after(m) == other.after(m),
    {
        assert(self.piece_array =~= other.piece_array);
        assert(self.essence() == other.essence());
    }

    /// The legal moves of the position. The board is left as it was.
    pub fn legal_moves(&mut self) -> (r: Vec<Move>)
        requires
            old(self).wf(),
            old(self).has_room(),
        ensures
            r@ == old(self).legal_line(),
            final(self).same_state(*old(self)),
    {
        let mut move_list = MoveList::new();
        self.generate_moves(&mut move_list);
        let mut legal_moves: Vec<Move> = Vec::new();
        let n = move_list.len();
        let mut i: usize = 0;
        proof {
            assert(move_list@.take(0) =~= Seq::<MoveListEntry>::empty());
        }
        while i < n
            invariant
                i <= n == move_list@.len(),
                old(self).wf(),
                old(self).has_room(),
                self.same_state(*old(self)),
                move_list@ == capped(old(self).pseudo_moves()),
                legal_moves@ == old(self).legal_of(move_list@.take(i as int)),
            decreases n - i,
        {
            let m = move_list.get(i).mov;
            let ghost pre = *self;
            proof {
                pre.lemma_same_moves(*old(self));
                assert(move_list@.take(i as int + 1).drop_last() =~= move_list@.take(i as int));
            }
            if self.make_move_simple(m) {
                let ghost mid = *self;
                self.unmake_move_base();
                proof {
                    Board::lemma_make_unmake(pre, m, mid, *self);
                }
                legal_moves.push(m);
            }
            i = i + 1;
        }
        proof {
            assert(move_list@.take(n as int) =~= move_list@);
        }
        legal_moves
    }

    fn any_legal_move(&mut self) -> (r: bool)
        requires
            old(self).wf(),
            old(self).has_room(),
        ensures
            r == (old(self).legal_line().len() > 0),
            final(self).same_state(*old(self)),
    {
        let mut move_list = MoveList::new();
        self.generate_moves(&mut move_list);
        let n = move_list.len();
        let mut i: usize = 0;
        proof {
            assert(move_list@.take(0) =~= Seq::<MoveListEntry>::empty());
        }
        while i < n
            invariant
                i <= n == move_list@.len(),
                old(self).wf(),
                old(self).has_room(),
                self.same_state(*old(self)),
                move_list@ == capped(old(self).pseudo_moves()),
                old(self).legal_of(move_list@.take(i as int)).len() == 0,
            decreases n - i,
        {
            let m = move_list.get(i).mov;
            let ghost pre = *self;
            proof {
                pre.lemma_same_moves(*old(self));
                assert(move_list@.take(i as int + 1).drop_last() =~= move_list@.take(i as int));
            }
            if self.make_move_simple(m) {
                let ghost mid = *self;
                self.unmake_move_base();
                proof {
                    Board::lemma_make_unmake(pre, m, mid, *self);
                    old(self).lemma_legal_grows(move_list@, i as int + 1);
                }
                return true;
            }
            i = i + 1;
        }
        proof {
            assert(move_list@.take(n as int) =~= move_list@);
        }
        false
    }

    proof fn lemma_legal_grows(&self, entries: Seq<MoveListEntry>, i: int)
        requires
            0 <= i <= entries.len(),
        ensures
            self.legal_of(entries.take(i)).len() <= self.legal_of(entries).len(),
        decreases entries.len() - i,
    {
        if i < entries.len() {
            self.lemma_legal_grows(entries, i + 1);
            assert(entries.take(i + 1).drop_last() =~= entries.take(i));
        } else {
            assert(entries.take(i) =~= entries);
        }
    }

    /// Asserts that the side to move is mated. For a position in which it is.
    pub fn assert_mated(&mut self)
        requires
            old(self).wf(),
            old(self).has_room(),
            old(self).threats.checkers.inner != 0,
            old(self).legal_line().len() == 0,
        ensures
            final(self).same_state(*old(self)),
    {
        let in_check = self.in_check();
        let any = self.any_legal_move();
        assert(in_check && !any);
    }

    /// What `m` does to the king of the other side: nothing where `m` cannot be made or
    /// gives no check; mate where it gives check and the other side has no legal move.
    pub open spec fn gives_state(&self, m: Move) -> CheckState {
        if !self.legal(m) {
            CheckState::Nothing
        } else {
            self.after(m).reply_state()
        }
    }

    /// What `m` does to the king of the other side. The board is left as it was.
    pub fn gives(&mut self, m: Move) -> (r: CheckState)
        requires
            old(self).wf(),
            old(self).fifty_move_counter < u8::MAX - 1,
            old(self).ply < usize::MAX - 1,
            old(self).height < usize::MAX - 1,
        ensures
            r == old(self).gives_state(m),
            final(self).same_state(*old(self)),
    {
        let ghost pre = *self;
        if !self.make_move_simple(m) {
            return CheckState::Nothing;
        }
        let ghost mid = *self;
        let r = self.check_state();
        proof {
            pre.lemma_after(m, mid);
            mid.lemma_same_reply(pre.after(m));
        }
        self.unmake_move_base();
        proof {
            Board::lemma_make_unmake(pre, m, mid, *self);
        }
        r
    }

    /// What the move made last did to the king of the side to move now.
    pub open spec fn reply_state(&self) -> CheckState {
        if self.threats.checkers.inner == 0 {
            CheckState::Nothing
        } else if self.legal_line().len() > 0 {
            CheckState::Check
        } else {
            CheckState::Checkmate
        }
    }

    proof fn lemma_same_legal_of(&self, other: Board, entries: Seq<MoveListEntry>)
        requires
            self.same_state(other),
        ensures
            self.legal_of(entries) == other.legal_of(entries),
        decreases entries.len(),
    {
        self.lemma_same_moves(other);
        if entries.len() > 0 {
            self.lemma_same_legal_of(other, entries.drop_last());
        }
    }

    /// Boards in the same state have the same legal moves.
    pub proof fn lemma_same_reply(&self, other: Board)
        requires
            self.same_state(other),
        ensures
            self.reply_state() == other.reply_state(),
            self.legal_line() == other.legal_line(),
    {
        self.lemma_same_moves(other);
        self.lemma_same_legal_of(other, capped(self.pseudo_moves()));
    }

    fn check_state(&mut self) -> (r: CheckState)
        requires
            old(self).wf(),
            old(self).has_room(),
        ensures
            r == old(self).reply_state(),
            final(self).same_state(*old(self)),
            final(self).history@ == old(self).history@,
            final(self).height == old(self).height,
            final(self).ply == old(self).ply,
            final(self).side == old(self).side,
            final(self).chess960 == old(self).chess960,
    {
        if self.in_check() {
            if self.any_legal_move() {
                CheckState::Check
            } else {
                CheckState::Checkmate
            }
        } else {
            CheckState::Nothing
        }
    }

    /// Whether the record `d` moves back holds the hash of the position now, where `d`
    /// is odd, at least 3, and below both the half-move counter and the number of
    /// records.
    pub open spec fn repeats_at(&self, d: int) -> bool {
        &&& d >= 3
        &&& d % 2 == 1
        &&& d < self.fifty_move_counter
        &&& d < self.history@.len()
        &&& self.history@[self.history@.len() - 1 - d].keys.zobrist == self.keys.zobrist
    }

    /// The number of distances below `d` at which the position now is repeated.
    pub open spec fn repeats_below(&self, d: int) -> nat
        decreases d,
    {
        if d <= 0 {
            0
        } else if self.repeats_at(d - 1) {
            self.repeats_below(d - 1) + 1
        } else {
            self.repeats_below(d - 1)
        }
    }

    /// Whether the position counts as repeated: it occurred before within the search,
    /// less than `height` moves back, or it occurred twice before at all. Only positions
    /// since the last capture or pawn move are looked at, and only those with the same
    /// side to move, the nearest four moves back.
    pub open spec fn repeated(&self) -> bool {
        (exists|d: int| #[trigger] self.repeats_at(d) && d < self.height) || self.repeats_below(
            self.history@.len() as int,
        ) >= 2
    }

    proof fn lemma_repeats_step(&self, d: int)
        requires
            d >= 0,
        ensures
            self.repeats_below(d + 2) == self.repeats_below(d) + (if self.repeats_at(d) {
                1nat
            } else {
                0
            }) + (if self.repeats_at(d + 1) {
                1nat
            } else {
                0
            }),
    {
        assert(self.repeats_below(d + 2) == self.repeats_below(d + 1) + (if self.repeats_at(d + 1) {
            1nat
        } else {
            0
        }));
    }

    proof fn lemma_repeats_none(&self, from: int, to: int)
        requires
            0 <= from <= to,
            forall|d: int| from <= d < to ==> !self.repeats_at(d),
        ensures
            self.repeats_below(to) == self.repeats_below(from),
        decreases to - from,
    {
        if from < to {
            self.lemma_repeats_none(from, to - 1);
        }
    }

    /// Whether the position counts as repeated.
    pub fn is_repetition(&self) -> (r: bool)
        ensures
            r == self.repeated(),
    {
        let mut counter: u8 = 0;
        let moves_since_zeroing = self.fifty_move_counter as usize;
        let n = self.history.len();
        let mut dist_back: usize = 3;
        proof {
            self.lemma_repeats_none(0, 3);
        }
        while dist_back < moves_since_zeroing && dist_back < n
            invariant
                n == self.history@.len(),
                moves_since_zeroing == self.fifty_move_counter,
                dist_back >= 3,
                dist_back % 2 == 1,
                dist_back <= 257,
                counter < 2,
                counter == self.repeats_below(dist_back as int),
                forall|d: int| #[trigger] self.repeats_at(d) && d < dist_back ==> d >= self.height,
            decreases n + 2 - dist_back,
        {
            proof {
                self.lemma_repeats_step(dist_back as int);
            }
            if self.history[n - 1 - dist_back].keys.zobrist == self.keys.zobrist {
                if dist_back < self.height {
                    return true;
                }
                counter = counter + 1;
                if counter >= 2 {
                    proof {
                        self.lemma_repeats_mono(dist_back as int + 2, n as int);
                    }
                    return true;
                }
            }
            dist_back = dist_back + 2;
        }
        proof {
            if dist_back < n {
                self.lemma_repeats_none(dist_back as int, n as int);
            } else {
                self.lemma_repeats_none(n as int, dist_back as int);
            }
            assert forall|d: int| #[trigger] self.repeats_at(d) implies d >= self.height by {
                if d >= dist_back {
                }
            }
        }
        false
    }

    proof fn lemma_repeats_mono(&self, from: int, to: int)
        requires
            0 <= from,
        ensures
            from <= to ==> self.repeats_below(from) <= self.repeats_below(to),
            to <= from ==> self.repeats_below(to) <= self.repeats_below(from),
        decreases (if from <= to { to - from } else { from - to }),
    {
        if from < to {
            self.lemma_repeats_mono(from, to - 1);
        } else if to < from {
            if to >= 0 {
                self.lemma_repeats_mono(from - 1, to);
            } else {
                self.lemma_repeats_mono(from, 0);
            }
        }
    }

    /// Whether the search should count the position as drawn: away from the root, and
    /// either a hundred half moves went by without capture or pawn move, or the position
    /// is repeated.
    pub fn is_draw(&self) -> (r: bool)
        ensures
            r == ((self.fifty_move_counter >= 100 || self.repeated()) && self.height != 0),
    {
        (self.fifty_move_counter >= 100 || self.is_repetition()) && self.height != 0
    }

    /// Whether `side` could not mate even with the help of the other side: it has no
    /// pawn, rook or queen, and either a knight as its only piece beside the king while
    /// the other side has nothing but king and queens; or, without knights, bishops that
    /// all stand on squares of one colour together with those of the other side, with no
    /// pawn or knight left on the board; or the king alone.
    pub open spec fn lacks_material(&self, side: Colour) -> bool {
        let l = self.pieces;
        if (l.bb(Piece::of(side, PieceType::Pawn)) | l.bb(Piece::of(side, PieceType::Rook))) | l.bb(
            Piece::of(side, PieceType::Queen),
        ) != 0 {
            false
        } else if l.bb(Piece::of(side, PieceType::Knight)) != 0 {
            squares(l.side_bits(side)).len() <= 2 && (l.side_bits(side.flipped()) & !l.kind_bits(
                PieceType::King,
            )) & !l.kind_bits(PieceType::Queen) == 0
        } else if l.bb(Piece::of(side, PieceType::Bishop)) != 0 {
            (l.kind_bits(PieceType::Bishop) & DARK_SQUARES == 0 || l.kind_bits(PieceType::Bishop)
                & LIGHT_SQUARES == 0) && l.kind_bits(PieceType::Pawn) == 0 && l.kind_bits(
                PieceType::Knight,
            ) == 0
        } else {
            true
        }
    }

    /// Whether the side `C` could not mate even with the help of the other side.
    pub fn has_insufficient_material<C: Col>(&self) -> (r: bool)
        ensures
            r == self.lacks_material(C::side()),
    {
        self.insufficient_for(C::colour())
    }

    fn insufficient_for(&self, side: Colour) -> (r: bool)
        ensures
            r == self.lacks_material(side),
    {
        if self.pieces.pawns(side).union(self.pieces.rooks(side)).union(
            self.pieces.queens(side),
        ).non_empty() {
            return false;
        }
        if self.pieces.knights(side).non_empty() {
            let kings = self.pieces.all_kings();
            let queens = self.pieces.all_queens();
            return self.pieces.our_pieces(side).count() <= 2 && self.pieces.their_pieces(
                side,
            ).intersection(kings.complement()).intersection(queens.complement()).is_empty();
        }
        if self.pieces.bishops(side).non_empty() {
            let bishops = self.pieces.all_bishops();
            let same_color = bishops.intersection(SquareSet { inner: DARK_SQUARES }).is_empty()
                || bishops.intersection(SquareSet { inner: LIGHT_SQUARES }).is_empty();
            let pawns = self.pieces.all_pawns();
            let knights = self.pieces.all_knights();
            return same_color && pawns.is_empty() && knights.is_empty();
        }
        true
    }

    /// Whether neither side could mate.
    pub fn is_insufficient_material(&self) -> (r: bool)
        ensures
            r == (self.lacks_material(Colour::White) && self.lacks_material(Colour::Black)),
    {
        self.insufficient_for(Colour::White) && self.insufficient_for(Colour::Black)
    }

    /// Whether the position now occurred twice before, looking back from the record
    /// `d` moves back in steps of two, with `reps` occurrences counted so far. The look
    /// back ends at a record made right after a capture or pawn move.
    pub open spec fn thrice_from(&self, d: int, reps: int) -> bool
        decreases self.history@.len() + 2 - d,
    {
        if d < 0 || d >= self.history@.len() {
            false
        } else {
            let u = self.history@[self.history@.len() - 1 - d];
            let reps2 = if u.keys.zobrist == self.keys.zobrist {
                reps + 1
            } else {
                reps
            };
            if reps2 == 3 {
                true
            } else if u.fifty_move_counter == 0 {
                false
            } else {
                self.thrice_from(d + 2, reps2)
            }
        }
    }

    /// How the game stands: drawn by the fifty-move rule, by a third occurrence of the
    /// position, or for want of material, in that order; else going on where the side to
    /// move has a legal move; else lost by the side to move where it is in check, and
    /// drawn by stalemate where it is not.
    pub open spec fn outcome_now(&self) -> GameOutcome {
        if self.fifty_move_counter >= 100 {
            GameOutcome::Draw(DrawType::FiftyMoves)
        } else if self.thrice_from(1, 1) {
            GameOutcome::Draw(DrawType::Repetition)
        } else if self.lacks_material(Colour::White) && self.lacks_material(Colour::Black) {
            GameOutcome::Draw(DrawType::InsufficientMaterial)
        } else if self.legal_line().len() > 0 {
            GameOutcome::Ongoing
        } else if self.threats.checkers.inner != 0 {
            match self.side {
                Colour::White => GameOutcome::BlackWin(WinType::Mate),
                Colour::Black => GameOutcome::WhiteWin(WinType::Mate),
            }
        } else {
            GameOutcome::Draw(DrawType::Stalemate)
        }
    }

    /// How the game stands. The board is left as it was.
    pub fn outcome(&mut self) -> (r: GameOutcome)
        requires
            old(self).wf(),
            old(self).has_room(),
        ensures
            r == old(self).outcome_now(),
            final(self).same_state(*old(self)),
    {
        if self.fifty_move_counter >= 100 {
            return GameOutcome::Draw(DrawType::FiftyMoves);
        }
        let mut reps: u8 = 1;
        let n = self.history.len();
        let mut d: usize = 1;
        let mut go = true;
        while go && d < n
            invariant
                n == self.history@.len(),
                *self == *old(self),
                self.fifty_move_counter < 100,
                1 <= reps < 3,
                d >= 1,
                go ==> self.thrice_from(1, 1) == self.thrice_from(d as int, reps as int),
                !go ==> !self.thrice_from(1, 1),
            decreases n + 2 - d + (if go { 1int } else { 0 }),
        {
            let undo_key = self.history[n - 1 - d].keys.zobrist;
            let undo_fifty = self.history[n - 1 - d].fifty_move_counter;
            proof {
                let u = self.history@[n - 1 - d];
                let reps2 = if u.keys.zobrist == self.keys.zobrist {
                    reps + 1
                } else {
                    reps as int
                };
                assert(self.thrice_from(d as int, reps as int) == (if reps2 == 3 {
                    true
                } else if u.fifty_move_counter == 0 {
                    false
                } else {
                    self.thrice_from(d + 2, reps2)
                }));
                assert(d + 2 >= n ==> !self.thrice_from(d + 2, reps2));
            }
            if undo_key == self.keys.zobrist {
                reps = reps + 1;
                if reps == 3 {
                    return GameOutcome::Draw(DrawType::Repetition);
                }
            }
            if undo_fifty == 0 || n - d <= 2 {
                go = false;
            } else {
                d = d + 2;
            }
        }
        if self.is_insufficient_material() {
            return GameOutcome::Draw(DrawType::InsufficientMaterial);
        }
        let in_check = self.in_check();
        let side = self.side;
        let legal_moves = self.any_legal_move();
        if legal_moves {
            GameOutcome::Ongoing
        } else if in_check {
            match side {
                Colour::White => GameOutcome::BlackWin(WinType::Mate),
                Colour::Black => GameOutcome::WhiteWin(WinType::Mate),
            }
        } else {
            GameOutcome::Draw(DrawType::Stalemate)
        }
    }
}

} // verus!
