use vstd::prelude::*;
use crate::attacks::{attack_bits, attacks_by_type, between_bits, ray_between};
use crate::bits::bit;
use crate::board::Board;
use crate::chessmove::Move;
use crate::squareset::SquareSet;
use crate::swings::{kinds_before, lemma_totals, reached_above, total_below};
use crate::types::{Colour, Piece, PieceType, Square};
use crate::zobrist::{hash_piece, hash_side, piece_key, side_key};

verus! {

broadcast use crate::types::group_square;

/// The number of slots of the table.
pub const CUCKOO_SIZE: usize = 8192;

/// The first slot that a difference of hashes may take: its lowest thirteen bits.
pub open spec fn h1_spec(key: u64) -> int {
    key as int % 8192
}

/// The second slot that a difference of hashes may take: thirteen bits from bit 16 on.
pub open spec fn h2_spec(key: u64) -> int {
    (key as int / 65536) % 8192
}

/// The first slot that a difference of hashes may take.
pub fn h1(key: u64) -> (r: usize)
    ensures
        r == h1_spec(key),
        r < 8192,
{
    (key % 8192) as usize
}

/// The second slot that a difference of hashes may take.
pub fn h2(key: u64) -> (r: usize)
    ensures
        r == h2_spec(key),
        r < 8192,
{
    ((key / 65536) % 8192) as usize
}

/// The difference between the hashes of two positions that `piece` going between
/// `a` and `b` connects: the keys of the piece on both squares and the side key.
pub open spec fn swing_key(piece: Piece, a: Square, b: Square) -> u64 {
    (piece_key(piece, a) ^ piece_key(piece, b)) ^ side_key()
}

/// Whether `m` with the difference `key` is a move that can be taken back by moving
/// again: a plain move of a piece that is no pawn, between two squares of which one
/// attacks the other on an empty board, with the difference of hashes it makes.
#[verifier::opaque]
pub open spec fn reversible(key: u64, m: Move) -> bool {
    exists|piece: Piece|
        #![trigger swing_key(piece, m.origin(), m.target())]
        piece.kind() != PieceType::Pawn && m == Move::plain(m.origin(), m.target()) && bit(
            attack_bits(piece.kind(), m.origin().idx(), 0),
            m.target().idx(),
        ) && key == swing_key(piece, m.origin(), m.target())
}

/// A move with the difference that it makes between the hashes of two positions.
#[derive(Clone, Copy, Debug, PartialEq, Eq, Structural)]
pub struct Swing {
    pub key: u64,
    pub mov: Move,
}

/// The moves that can be taken back by moving again, each kept under the difference
/// that it makes between the hashes of two positions, in one of the two slots that the
/// difference may take. A move for which no slot could be cleared is kept beside the
/// slots.
pub struct CuckooTable {
    pub keys: Vec<u64>,
    pub moves: Vec<Option<Move>>,
    /// The moves kept beside the slots.
    pub overflow: Vec<Swing>,
    /// The number of moves kept.
    pub count: usize,
}

/// The number of slots among the first `n` that keep a move.
pub open spec fn filled(moves: Seq<Option<Move>>, n: int) -> int
    decreases n,
{
    if n <= 0 {
        0
    } else {
        filled(moves, n - 1) + (if moves[n - 1] is Some {
            1int
        } else {
            0
        })
    }
}

proof fn lemma_filled_update(moves: Seq<Option<Move>>, i: int, m: Move, n: int)
    requires
        0 <= i < moves.len(),
        0 <= n <= moves.len(),
    ensures
        filled(moves.update(i, Some(m)), n) == filled(moves, n) + (if i < n && moves[i] is None {
            1int
        } else {
            0
        }),
        0 <= filled(moves, n) <= n,
    decreases n,
{
    if n > 0 {
        lemma_filled_update(moves, i, m, n - 1);
    }
}

proof fn lemma_filled_none(moves: Seq<Option<Move>>, n: int)
    requires
        0 <= n <= moves.len(),
        forall|j: int| 0 <= j < n ==> #[trigger] moves[j] == None::<Move>,
    ensures
        filled(moves, n) == 0,
    decreases n,
{
    if n > 0 {
        lemma_filled_none(moves, n - 1);
    }
}

/// The place of a piece that is no pawn among the ten such pieces: white before black,
/// and knight, bishop, rook, queen, king.
pub open spec fn piece_rank(p: Piece) -> int {
    p.side().idx() * 5 + p.kind().idx() - 1
}

/// Whether `p` going between `x` and `y` is one of the moves that the table is filled
/// with: `p` is no pawn, `x` is the lower square, and `p` attacks the one from the other
/// on an empty board.
pub open spec fn swings(p: Piece, x: Square, y: Square) -> bool {
    p.kind() != PieceType::Pawn && x.idx() < y.idx() && bit(
        attack_bits(p.kind(), x.idx(), 0),
        y.idx(),
    )
}

/// Whether the move of `p` between `x` and `y` comes before the move of the piece at
/// place `r` from square number `a` to square number `b` when the table is filled.
pub open spec fn done_before(p: Piece, x: Square, y: Square, r: int, a: int, b: int) -> bool {
    piece_rank(p) < r || (piece_rank(p) == r && (x.idx() < a || (x.idx() == a && y.idx() < b)))
}

/// The first of `entries` from place `i` on that is kept under `key`.
pub open spec fn first_under(entries: Seq<Swing>, key: u64, i: int) -> Option<Move>
    decreases entries.len() - i,
{
    if i < 0 || i >= entries.len() {
        None
    } else if entries[i].key == key {
        Some(entries[i].mov)
    } else {
        first_under(entries, key, i + 1)
    }
}

proof fn lemma_first_under(entries: Seq<Swing>, key: u64, i: int, j: int)
    requires
        0 <= i <= j < entries.len(),
        entries[j].key == key,
        forall|k: int| 0 <= k < entries.len() ==> reversible((#[trigger] entries[k]).key, entries[k].mov),
    ensures
        first_under(entries, key, i) is Some,
        reversible(key, first_under(entries, key, i)->0),
    decreases j - i,
{
    if entries[i].key != key {
        lemma_first_under(entries, key, i + 1, j);
    }
}

proof fn lemma_first_under_sound(entries: Seq<Swing>, key: u64, i: int)
    requires
        0 <= i,
        forall|k: int| 0 <= k < entries.len() ==> reversible((#[trigger] entries[k]).key, entries[k].mov),
    ensures
        first_under(entries, key, i) is Some ==> reversible(key, first_under(entries, key, i)->0),
    decreases entries.len() - i,
{
    if i < entries.len() && entries[i].key != key {
        lemma_first_under_sound(entries, key, i + 1);
    }
}

impl CuckooTable {
    /// Whether the table has its size, every move kept in a slot is kept under its own
    /// difference in one of the two slots of that difference, every move kept beside the
    /// slots goes with its own difference, and the moves kept are counted.
    pub open spec fn wf(&self) -> bool {
        &&& self.keys@.len() == 8192
        &&& self.moves@.len() == 8192
        &&& self.count == filled(self.moves@, 8192) + self.overflow@.len()
        &&& forall|i: int|
            0 <= i < 8192 ==> match #[trigger] self.moves@[i] {
                Some(m) => reversible(self.keys@[i], m) && (i == h1_spec(self.keys@[i]) || i
                    == h2_spec(self.keys@[i])),
                None => true,
            }
        &&& forall|k: int|
            0 <= k < self.overflow@.len() ==> reversible(
                (#[trigger] self.overflow@[k]).key,
                self.overflow@[k].mov,
            )
    }

    /// Whether a move is kept in a slot under the difference `key`.
    pub open spec fn holds_in_slot(&self, key: u64) -> bool {
        exists|i: int| 0 <= i < 8192 && self.moves@[i] is Some && #[trigger] self.keys@[i] == key
    }

    /// Whether a move is kept beside the slots under the difference `key`.
    pub open spec fn holds_beside(&self, key: u64) -> bool {
        exists|j: int| 0 <= j < self.overflow@.len() && (#[trigger] self.overflow@[j]).key == key
    }

    /// Whether a move is kept under the difference `key`.
    pub open spec fn holds_key(&self, key: u64) -> bool {
        self.holds_in_slot(key) || self.holds_beside(key)
    }

    /// Whether every move that the table is filled with before the move of the piece
    /// at place `r` from square number `a` to square number `b` is kept.
    pub open spec fn holds_upto(&self, r: int, a: int, b: int) -> bool {
        forall|p: Piece, x: Square, y: Square|
            swings(p, x, y) && done_before(p, x, y, r, a, b) ==> self.holds_key(
                #[trigger] swing_key(p, x, y),
            )
    }

    fn insert(&mut self, key: u64, mv: Move)
        requires
            old(self).wf(),
            reversible(key, mv),
            old(self).count < usize::MAX,
        ensures
            final(self).wf(),
            final(self).count == old(self).count + 1,
            final(self).holds_key(key),
            forall|k: u64| #[trigger] old(self).holds_key(k) ==> final(self).holds_key(k),
    {
        let mut cur_key = key;
        let mut cur_mv = mv;
        let mut slot = h1(cur_key);
        let mut tries: usize = 0;
        while tries < 8192
            invariant
                self.wf(),
                reversible(cur_key, cur_mv),
                slot < 8192,
                slot == h1_spec(cur_key) || slot == h2_spec(cur_key),
                self.count == old(self).count,
                old(self).count < usize::MAX,
                key == cur_key || self.holds_key(key),
                forall|k: u64|
                    #[trigger] old(self).holds_key(k) ==> self.holds_key(k) || k == cur_key,
            decreases 8192 - tries,
        {
            let ghost prev = *self;
            let ghost carried = cur_key;
            let old_key = self.keys[slot];
            let old_mv = self.moves[slot];
            proof {
                lemma_filled_update(self.moves@, slot as int, cur_mv, 8192);
            }
            self.keys[slot] = cur_key;
            self.moves[slot] = Some(cur_mv);
            if old_mv.is_none() {
                self.count = self.count + 1;
            }
            proof {
                assert(self.keys@[slot as int] == carried && self.moves@[slot as int] is Some);
                assert(self.holds_in_slot(carried));
                assert forall|k: u64| #[trigger] prev.holds_key(k) implies self.holds_key(k) || (
                old_mv is Some && k == old_key) by {
                    if prev.holds_in_slot(k) {
                        let j = choose|j: int|
                            0 <= j < 8192 && prev.moves@[j] is Some && #[trigger] prev.keys@[j]
                                == k;
                        if j != slot {
                            assert(self.moves@[j] is Some && self.keys@[j] == k);
                        }
                    } else {
                        let j = choose|j: int|
                            0 <= j < prev.overflow@.len() && (#[trigger] prev.overflow@[j]).key
                                == k;
                        assert(self.overflow@[j].key == k);
                    }
                }
                assert forall|k: u64| #[trigger] old(self).holds_key(k) implies self.holds_key(k)
                    || (old_mv is Some && k == old_key) by {
                    if !prev.holds_key(k) {
                        assert(k == carried);
                    }
                }
                assert(key == carried || prev.holds_key(key));
                assert(self.holds_key(key) || (old_mv is Some && key == old_key));
            }
            match old_mv {
                None => {
                    return ;
                },
                Some(m) => {
                    cur_key = old_key;
                    cur_mv = m;
                    slot = if slot == h1(cur_key) { h2(cur_key) } else { h1(cur_key) };
                },
            }
            tries = tries + 1;
        }
        let ghost prev = *self;
        self.overflow.push(Swing { key: cur_key, mov: cur_mv });
        self.count = self.count + 1;
        proof {
            assert(self.overflow@[prev.overflow@.len() as int].key == cur_key);
            assert(self.holds_beside(cur_key));
            assert forall|k: u64| #[trigger] prev.holds_key(k) implies self.holds_key(k) by {
                if prev.holds_in_slot(k) {
                    let j = choose|j: int|
                        0 <= j < 8192 && prev.moves@[j] is Some && #[trigger] prev.keys@[j] == k;
                    assert(self.moves@[j] is Some && self.keys@[j] == k);
                } else {
                    let j = choose|j: int|
                        0 <= j < prev.overflow@.len() && (#[trigger] prev.overflow@[j]).key == k;
                    assert(self.overflow@[j].key == k);
                }
            }
            assert forall|k: u64| #[trigger] old(self).holds_key(k) implies self.holds_key(k) by {
                if !prev.holds_key(k) {
                    assert(k == cur_key);
                }
            }
        }
    }

    /// A move kept under a difference is found under it.
    pub proof fn lemma_found(&self, key: u64)
        requires
            self.wf(),
            self.holds_key(key),
        ensures
            self.found(key) is Some,
            reversible(key, self.found(key)->0),
    {
        let a = h1_spec(key);
        let b = h2_spec(key);
        assert(self.moves@[a] is Some ==> reversible(self.keys@[a], self.moves@[a]->0));
        assert(self.moves@[b] is Some ==> reversible(self.keys@[b], self.moves@[b]->0));
        if self.holds_in_slot(key) {
            let i = choose|i: int|
                0 <= i < 8192 && self.moves@[i] is Some && #[trigger] self.keys@[i] == key;
            assert(self.moves@[i] is Some);
        } else {
            let j = choose|j: int|
                0 <= j < self.overflow@.len() && (#[trigger] self.overflow@[j]).key == key;
            lemma_first_under(self.overflow@, key, 0, j);
        }
    }

    /// The table filled with every move that can be taken back by moving again: each
    /// move of a knight, bishop, rook, queen or king of either colour between two squares
    /// on an empty board, from the lower square to the higher. Every such move is kept.
    pub fn new() -> (r: CuckooTable)
        ensures
            r.wf(),
            r.count == 3668,
            forall|p: Piece, x: Square, y: Square|
                swings(p, x, y) ==> r.holds_key(#[trigger] swing_key(p, x, y)),
            forall|p: Piece, x: Square, y: Square|
                swings(p, x, y) ==> r.found(#[trigger] swing_key(p, x, y)) is Some,
    {
        let mut keys: Vec<u64> = Vec::new();
        let mut moves: Vec<Option<Move>> = Vec::new();
        let mut i: usize = 0;
        while i < 8192
            invariant
                i <= 8192,
                keys@.len() == i,
                moves@.len() == i,
                forall|j: int| 0 <= j < i ==> #[trigger] moves@[j] == None::<Move>,
            decreases 8192 - i,
        {
            keys.push(0);
            moves.push(None);
            i = i + 1;
        }
        proof {
            lemma_filled_none(moves@, 8192);
        }
        let mut table = CuckooTable { keys, moves, overflow: Vec::new(), count: 0 };
        let kinds: [PieceType; 5] = [
            PieceType::Knight,
            PieceType::Bishop,
            PieceType::Rook,
            PieceType::Queen,
            PieceType::King,
        ];
        let mut c: usize = 0;
        while c < 2
            invariant
                c <= 2,
                table.wf(),
                table.count == c * 1834,
                forall|j: int| 0 <= j < 5 ==> (#[trigger] kinds@[j]).idx() == j + 1,
                table.holds_upto(c * 5, 0, 0),
            decreases 2 - c,
        {
            let colour = if c == 0 { Colour::White } else { Colour::Black };
            let mut k: usize = 0;
            while k < 5
                invariant
                    k <= 5,
                    c < 2,
                    colour.idx() == c,
                    table.wf(),
                    table.count == c * 1834 + kinds_before(k as int),
                    forall|j: int| 0 <= j < 5 ==> (#[trigger] kinds@[j]).idx() == j + 1,
                    table.holds_upto(c * 5 + k, 0, 0),
                decreases 5 - k,
            {
                let kind = kinds[k];
                let piece = Piece::new(colour, kind);
                let mut a: u8 = 0;
                while a < 64
                    invariant
                        a <= 64,
                        c < 2,
                        k < 5,
                        kind.idx() == k + 1,
                        colour.idx() == c,
                        piece == Piece::of(colour, kind),
                        table.wf(),
                        table.count == c * 1834 + kinds_before(k as int) + total_below(
                            kind,
                            a as int,
                        ),
                        total_below(kind, a as int) <= a * 64,
                        table.holds_upto(c * 5 + k, a as int, 0),
                    decreases 64 - a,
                {
                    let s1 = Square::from_index(a).unwrap();
                    let reach = attacks_by_type(kind, s1, SquareSet::empty());
                    let mut b: u8 = a + 1;
                    while b < 64
                        invariant
                            a < b <= 64,
                            c < 2,
                            k < 5,
                            s1.idx() == a,
                            kind.idx() == k + 1,
                            colour.idx() == c,
                            piece == Piece::of(colour, kind),
                            reach.inner == attack_bits(kind, s1.idx(), 0),
                            table.wf(),
                            table.count == c * 1834 + kinds_before(k as int) + total_below(
                                kind,
                                a as int,
                            ) + reached_above(kind, a as int, b as int),
                            total_below(kind, a as int) <= a * 64,
                            reached_above(kind, a as int, b as int) <= b - a - 1,
                            table.holds_upto(c * 5 + k, a as int, b as int),
                        decreases 64 - b,
                    {
                        let s2 = Square::from_index(b).unwrap();
                        let ghost before = table;
                        if reach.contains_square(s2) {
                            let mv = Move::new(s1, s2);
                            let mut key: u64 = 0;
                            hash_piece(&mut key, piece, s1);
                            hash_piece(&mut key, piece, s2);
                            hash_side(&mut key);
                            proof {
                                crate::makemove::lemma_meta_shift(
                                    0,
                                    0,
                                    0,
                                    0,
                                    0,
                                    piece_key(piece, s1),
                                    0,
                                );
                                assert(key == swing_key(piece, mv.origin(), mv.target()));
                                reveal(reversible);
                                assert(reversible(key, mv));
                            }
                            table.insert(key, mv);
                        }
                        proof {
                            assert forall|p: Piece, x: Square, y: Square|
                                swings(p, x, y) && done_before(
                                    p,
                                    x,
                                    y,
                                    c * 5 + k,
                                    a as int,
                                    b as int + 1,
                                ) implies table.holds_key(#[trigger] swing_key(p, x, y)) by {
                                if done_before(p, x, y, c * 5 + k, a as int, b as int) {
                                    assert(before.holds_key(swing_key(p, x, y)));
                                } else {
                                    assert(piece_rank(p) == c * 5 + k);
                                    assert(p == piece);
                                    assert(x == s1 && y == s2);
                                }
                            }
                        }
                        b = b + 1;
                    }
                    a = a + 1;
                }
                proof {
                    lemma_totals();
                }
                k = k + 1;
            }
            c = c + 1;
        }
        proof {
            assert forall|p: Piece, x: Square, y: Square| swings(p, x, y) implies table.found(
                #[trigger] swing_key(p, x, y),
            ) is Some by {
                assert(done_before(p, x, y, 10, 0, 0));
                table.lemma_found(swing_key(p, x, y));
            }
        }
        table
    }

    /// The move kept under the difference `diff`, if there is one: the move in the
    /// first slot of the difference, else the one in its second slot, else the first one
    /// kept beside the slots.
    pub open spec fn found(&self, diff: u64) -> Option<Move> {
        if self.moves@[h1_spec(diff)] is Some && self.keys@[h1_spec(diff)] == diff {
            self.moves@[h1_spec(diff)]
        } else if self.moves@[h2_spec(diff)] is Some && self.keys@[h2_spec(diff)] == diff {
            self.moves@[h2_spec(diff)]
        } else {
            first_under(self.overflow@, diff, 0)
        }
    }

    /// The move kept under the difference `diff`, if there is one.
    pub fn lookup(&self, diff: u64) -> (r: Option<Move>)
        requires
            self.wf(),
        ensures
            r == self.found(diff),
            r is Some ==> reversible(diff, r->0),
    {
        let a = h1(diff);
        if self.moves[a].is_some() && self.keys[a] == diff {
            return self.moves[a];
        }
        let b = h2(diff);
        if self.moves[b].is_some() && self.keys[b] == diff {
            return self.moves[b];
        }
        proof {
            lemma_first_under_sound(self.overflow@, diff, 0);
        }
        let n = self.overflow.len();
        let mut i: usize = 0;
        while i < n
            invariant
                i <= n == self.overflow@.len(),
                self.wf(),
                !(self.moves@[h1_spec(diff)] is Some && self.keys@[h1_spec(diff)] == diff),
                !(self.moves@[h2_spec(diff)] is Some && self.keys@[h2_spec(diff)] == diff),
                first_under(self.overflow@, diff, 0) == first_under(self.overflow@, diff, i as int),
            decreases n - i,
        {
            if self.overflow[i].key == diff {
                proof {
                    assert(reversible(self.overflow@[i as int].key, self.overflow@[i as int].mov));
                }
                return Some(self.overflow[i].mov);
            }
            i = i + 1;
        }
        None
    }
}

impl Board {
    /// The full hash of the position `i` half moves back, for `i` from 1 up to the
    /// number of records.
    pub open spec fn old_key(&self, i: int) -> u64 {
        self.history@[self.history@.len() - i].keys.zobrist
    }

    /// How far back a cycle is looked for: as far as the half-move counter and the
    /// records reach.
    pub open spec fn cycle_end(&self) -> int {
        if self.fifty_move_counter < self.history@.len() {
            self.fifty_move_counter as int
        } else {
            self.history@.len() as int
        }
    }

    /// Whether the position `i` half moves back closes a cycle with the position now:
    /// the hashes differ by a move that can be taken back by moving again, nothing stands
    /// between the squares of that move, and either the position lies within the
    /// search, less than `ply` half moves back, or the piece that moves between the
    /// squares belongs to the side to move.
    pub open spec fn closes_cycle(&self, table: CuckooTable, ply: int, i: int) -> Option<bool> {
        match table.found(self.keys.zobrist ^ self.old_key(i)) {
            None => None,
            Some(mv) => if self.pieces.occ() & between_bits(mv.origin().idx(), mv.target().idx())
                == 0 {
                if ply > i {
                    Some(true)
                } else {
                    match (if self.at(mv.origin()) is Some {
                        self.at(mv.origin())
                    } else {
                        self.at(mv.target())
                    }) {
                        Some(p) => Some(p.side() == self.side),
                        None => Some(false),
                    }
                }
            } else {
                None
            },
        }
    }

    /// Whether a cycle is found at the odd distance `i` or further back, where `other`
    /// is what the moves of the side not to move have changed in the hash up to there:
    /// a distance counts only where those changes cancel out.
    pub open spec fn cycle_from(&self, table: CuckooTable, ply: int, i: int, other: u64) -> bool
        decreases self.cycle_end() + 2 - i,
    {
        if i < 3 || i > self.cycle_end() {
            false
        } else {
            let other2 = other ^ !(self.old_key(i) ^ self.old_key(i - 1));
            if other2 != 0 {
                self.cycle_from(table, ply, i + 2, other2)
            } else {
                match self.closes_cycle(table, ply, i) {
                    Some(r) => r,
                    None => self.cycle_from(table, ply, i + 2, other2),
                }
            }
        }
    }

    /// Whether the side to move can bring about a position that occurred before, so
    /// that a repetition is at hand.
    pub open spec fn cycles(&self, table: CuckooTable, ply: int) -> bool {
        self.cycle_end() >= 3 && self.cycle_from(
            table,
            ply,
            3,
            !(self.keys.zobrist ^ self.old_key(1)),
        )
    }

    /// Whether the side to move can bring about a position that occurred before: looks
    /// back through the positions since the last capture or pawn move with the same side
    /// to move, for one that differs from the position now by one move that can be taken
    /// back.
    pub fn has_game_cycle(&self, ply: usize, table: &CuckooTable) -> (r: bool)
        requires
            table.wf(),
        ensures
            r == self.cycles(*table, ply as int),
    {
        let n = self.history.len();
        let end: usize = if (self.fifty_move_counter as usize) < n {
            self.fifty_move_counter as usize
        } else {
            n
        };
        if end < 3 {
            return false;
        }
        let occ = self.pieces.occupied();
        let key_now = self.keys.zobrist;
        let mut other: u64 = !(key_now ^ self.history[n - 1].keys.zobrist);
        let mut i: usize = 3;
        while i <= end
            invariant
                3 <= i <= end + 2,
                i <= 257,
                n == self.history@.len(),
                end == self.cycle_end(),
                end <= n,
                table.wf(),
                occ.inner == self.pieces.occ(),
                key_now == self.keys.zobrist,
                self.cycles(*table, ply as int) == self.cycle_from(*table, ply as int, i as int, other),
            decreases end + 2 - i,
        {
            let curr_key = self.history[n - i].keys.zobrist;
            other = other ^ !(curr_key ^ self.history[n - (i - 1)].keys.zobrist);
            if other == 0 {
                let diff = key_now ^ curr_key;
                match table.lookup(diff) {
                    Some(mv) => {
                        if occ.intersection(ray_between(mv.from(), mv.to())).is_empty() {
                            if ply > i {
                                return true;
                            }
                            let mut piece = self.piece_at(mv.from());
                            if piece.is_none() {
                                piece = self.piece_at(mv.to());
                            }
                            return match piece {
                                Some(p) => p.colour() == self.side,
                                None => false,
                            };
                        }
                    },
                    None => {},
                }
            }
            i = i + 2;
        }
        false
    }
}

} // verus!
