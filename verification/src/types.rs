use vstd::prelude::*;

verus! {

/// One of the two sides of the game.
#[derive(Clone, Copy, Debug, PartialEq, Eq, Hash, Structural)]
pub enum Colour {
    White,
    Black,
}

impl Colour {
    /// The other side.
    pub open spec fn flipped(self) -> Colour {
        match self {
            Colour::White => Colour::Black,
            Colour::Black => Colour::White,
        }
    }

    /// 0 for white, 1 for black.
    pub open spec fn idx(self) -> int {
        match self {
            Colour::White => 0,
            Colour::Black => 1,
        }
    }

    /// The other side.
    pub fn flip(self) -> (r: Colour)
        ensures
            r == self.flipped(),
    {
        match self {
            Colour::White => Colour::Black,
            Colour::Black => Colour::White,
        }
    }

    /// 0 for white, 1 for black.
    pub fn index(self) -> (r: usize)
        ensures
            r == self.idx(),
    {
        match self {
            Colour::White => 0,
            Colour::Black => 1,
        }
    }
}

/// A marker type that stands for one side at compile time.
pub trait Col {
    /// The side this marker stands for.
    spec fn side() -> Colour;

    /// The side this marker stands for.
    fn colour() -> (c: Colour)
        ensures
            c == Self::side(),
    ;
}

/// The marker for the white side.
pub struct White;

/// The marker for the black side.
pub struct Black;

impl Col for White {
    open spec fn side() -> Colour {
        Colour::White
    }

    fn colour() -> (c: Colour) {
        Colour::White
    }
}

impl Col for Black {
    open spec fn side() -> Colour {
        Colour::Black
    }

    fn colour() -> (c: Colour) {
        Colour::Black
    }
}

/// A file of the board, from the a-file to the h-file.
#[derive(Clone, Copy, Debug, PartialEq, Eq, Hash, Structural)]
pub enum File {
    A,
    B,
    C,
    D,
    E,
    F,
    G,
    H,
}

impl File {
    /// The number of this file, counted from 0.
    pub open spec fn idx(self) -> int {
        match self {
            File::A => 0,
            File::B => 1,
            File::C => 2,
            File::D => 3,
            File::E => 4,
            File::F => 5,
            File::G => 6,
            File::H => 7,
        }
    }

    /// The file with number `i`; the first one where `i` is out of range.
    pub open spec fn at(i: int) -> File {
        if i == 1 {
            File::B
        } else if i == 2 {
            File::C
        } else if i == 3 {
            File::D
        } else if i == 4 {
            File::E
        } else if i == 5 {
            File::F
        } else if i == 6 {
            File::G
        } else if i == 7 {
            File::H
        } else {
            File::A
        }
    }

    /// The number of this file, counted from 0.
    pub fn index(self) -> (r: u8)
        ensures
            r == self.idx(),
            r < 8,
    {
        match self {
            File::A => 0,
            File::B => 1,
            File::C => 2,
            File::D => 3,
            File::E => 4,
            File::F => 5,
            File::G => 6,
            File::H => 7,
        }
    }

    /// The file with number `i`, if there is one.
    pub fn from_index(i: u8) -> (r: Option<File>)
        ensures
            r == (if i < 8 { Some(File::at(i as int)) } else { None }),
    {
        match i {
            0 => Some(File::A),
            1 => Some(File::B),
            2 => Some(File::C),
            3 => Some(File::D),
            4 => Some(File::E),
            5 => Some(File::F),
            6 => Some(File::G),
            7 => Some(File::H),
            _ => None,
        }
    }

    /// The file `n` steps further on, if the board reaches that far.
    pub fn add(self, n: u8) -> (r: Option<File>)
        ensures
            r == (if self.idx() + n < 8 { Some(File::at(self.idx() + n)) } else { None }),
    {
        let i: u8 = self.index();
        if n < 8 && i + n < 8 {
            File::from_index(i + n)
        } else {
            None
        }
    }

    /// The file `n` steps back, if the board reaches that far.
    pub fn sub(self, n: u8) -> (r: Option<File>)
        ensures
            r == (if self.idx() - n >= 0 { Some(File::at(self.idx() - n)) } else { None }),
    {
        let i: u8 = self.index();
        if n <= i {
            File::from_index(i - n)
        } else {
            None
        }
    }
}

/// A rank of the board, from white's first rank to the eighth.
#[derive(Clone, Copy, Debug, PartialEq, Eq, Hash, Structural)]
pub enum Rank {
    One,
    Two,
    Three,
    Four,
    Five,
    Six,
    Seven,
    Eight,
}

impl Rank {
    /// The number of this rank, counted from 0.
    pub open spec fn idx(self) -> int {
        match self {
            Rank::One => 0,
            Rank::Two => 1,
            Rank::Three => 2,
            Rank::Four => 3,
            Rank::Five => 4,
            Rank::Six => 5,
            Rank::Seven => 6,
            Rank::Eight => 7,
        }
    }

    /// The rank with number `i`; the first one where `i` is out of range.
    pub open spec fn at(i: int) -> Rank {
        if i == 1 {
            Rank::Two
        } else if i == 2 {
            Rank::Three
        } else if i == 3 {
            Rank::Four
        } else if i == 4 {
            Rank::Five
        } else if i == 5 {
            Rank::Six
        } else if i == 6 {
            Rank::Seven
        } else if i == 7 {
            Rank::Eight
        } else {
            Rank::One
        }
    }

    /// The number of this rank, counted from 0.
    pub fn index(self) -> (r: u8)
        ensures
            r == self.idx(),
            r < 8,
    {
        match self {
            Rank::One => 0,
            Rank::Two => 1,
            Rank::Three => 2,
            Rank::Four => 3,
            Rank::Five => 4,
            Rank::Six => 5,
            Rank::Seven => 6,
            Rank::Eight => 7,
        }
    }

    /// The rank with number `i`, if there is one.
    pub fn from_index(i: u8) -> (r: Option<Rank>)
        ensures
            r == (if i < 8 { Some(Rank::at(i as int)) } else { None }),
    {
        match i {
            0 => Some(Rank::One),
            1 => Some(Rank::Two),
            2 => Some(Rank::Three),
            3 => Some(Rank::Four),
            4 => Some(Rank::Five),
            5 => Some(Rank::Six),
            6 => Some(Rank::Seven),
            7 => Some(Rank::Eight),
            _ => None,
        }
    }

    /// The rank `n` steps further on, if the board reaches that far.
    pub fn add(self, n: u8) -> (r: Option<Rank>)
        ensures
            r == (if self.idx() + n < 8 { Some(Rank::at(self.idx() + n)) } else { None }),
    {
        let i: u8 = self.index();
        if n < 8 && i + n < 8 {
            Rank::from_index(i + n)
        } else {
            None
        }
    }

    /// The rank `n` steps back, if the board reaches that far.
    pub fn sub(self, n: u8) -> (r: Option<Rank>)
        ensures
            r == (if self.idx() - n >= 0 { Some(Rank::at(self.idx() - n)) } else { None }),
    {
        let i: u8 = self.index();
        if n <= i {
            Rank::from_index(i - n)
        } else {
            None
        }
    }
}

/// A square of the board. Squares are numbered rank by rank from a1 (0) to h8 (63).
#[derive(Clone, Copy, Debug, PartialEq, Eq, Hash, Structural)]
pub enum Square {
    A1, B1, C1, D1, E1, F1, G1, H1,
    A2, B2, C2, D2, E2, F2, G2, H2,
    A3, B3, C3, D3, E3, F3, G3, H3,
    A4, B4, C4, D4, E4, F4, G4, H4,
    A5, B5, C5, D5, E5, F5, G5, H5,
    A6, B6, C6, D6, E6, F6, G6, H6,
    A7, B7, C7, D7, E7, F7, G7, H7,
    A8, B8, C8, D8, E8, F8, G8, H8,
}

impl Square {
    /// The number of this square: eight times its rank plus its file.
    #[verifier::opaque]
    pub open spec fn idx(self) -> int {
        match self {
            Square::A1 => 0,
            Square::B1 => 1,
            Square::C1 => 2,
            Square::D1 => 3,
            Square::E1 => 4,
            Square::F1 => 5,
            Square::G1 => 6,
            Square::H1 => 7,
            Square::A2 => 8,
            Square::B2 => 9,
            Square::C2 => 10,
            Square::D2 => 11,
            Square::E2 => 12,
            Square::F2 => 13,
            Square::G2 => 14,
            Square::H2 => 15,
            Square::A3 => 16,
            Square::B3 => 17,
            Square::C3 => 18,
            Square::D3 => 19,
            Square::E3 => 20,
            Square::F3 => 21,
            Square::G3 => 22,
            Square::H3 => 23,
            Square::A4 => 24,
            Square::B4 => 25,
            Square::C4 => 26,
            Square::D4 => 27,
            Square::E4 => 28,
            Square::F4 => 29,
            Square::G4 => 30,
            Square::H4 => 31,
            Square::A5 => 32,
            Square::B5 => 33,
            Square::C5 => 34,
            Square::D5 => 35,
            Square::E5 => 36,
            Square::F5 => 37,
            Square::G5 => 38,
            Square::H5 => 39,
            Square::A6 => 40,
            Square::B6 => 41,
            Square::C6 => 42,
            Square::D6 => 43,
            Square::E6 => 44,
            Square::F6 => 45,
            Square::G6 => 46,
            Square::H6 => 47,
            Square::A7 => 48,
            Square::B7 => 49,
            Square::C7 => 50,
            Square::D7 => 51,
            Square::E7 => 52,
            Square::F7 => 53,
            Square::G7 => 54,
            Square::H7 => 55,
            Square::A8 => 56,
            Square::B8 => 57,
            Square::C8 => 58,
            Square::D8 => 59,
            Square::E8 => 60,
            Square::F8 => 61,
            Square::G8 => 62,
            Square::H8 => 63,
        }
    }

    /// The square with number `i`; a1 where `i` is out of range.
    #[verifier::opaque]
    pub open spec fn at(i: int) -> Square {
        if i == 1 {
            Square::B1
        } else if i == 2 {
            Square::C1
        } else if i == 3 {
            Square::D1
        } else if i == 4 {
            Square::E1
        } else if i == 5 {
            Square::F1
        } else if i == 6 {
            Square::G1
        } else if i == 7 {
            Square::H1
        } else if i == 8 {
            Square::A2
        } else if i == 9 {
            Square::B2
        } else if i == 10 {
            Square::C2
        } else if i == 11 {
            Square::D2
        } else if i == 12 {
            Square::E2
        } else if i == 13 {
            Square::F2
        } else if i == 14 {
            Square::G2
        } else if i == 15 {
            Square::H2
        } else if i == 16 {
            Square::A3
        } else if i == 17 {
            Square::B3
        } else if i == 18 {
            Square::C3
        } else if i == 19 {
            Square::D3
        } else if i == 20 {
            Square::E3
        } else if i == 21 {
            Square::F3
        } else if i == 22 {
            Square::G3
        } else if i == 23 {
            Square::H3
        } else if i == 24 {
            Square::A4
        } else if i == 25 {
            Square::B4
        } else if i == 26 {
            Square::C4
        } else if i == 27 {
            Square::D4
        } else if i == 28 {
            Square::E4
        } else if i == 29 {
            Square::F4
        } else if i == 30 {
            Square::G4
        } else if i == 31 {
            Square::H4
        } else if i == 32 {
            Square::A5
        } else if i == 33 {
            Square::B5
        } else if i == 34 {
            Square::C5
        } else if i == 35 {
            Square::D5
        } else if i == 36 {
            Square::E5
        } else if i == 37 {
            Square::F5
        } else if i == 38 {
            Square::G5
        } else if i == 39 {
            Square::H5
        } else if i == 40 {
            Square::A6
        } else if i == 41 {
            Square::B6
        } else if i == 42 {
            Square::C6
        } else if i == 43 {
            Square::D6
        } else if i == 44 {
            Square::E6
        } else if i == 45 {
            Square::F6
        } else if i == 46 {
            Square::G6
        } else if i == 47 {
            Square::H6
        } else if i == 48 {
            Square::A7
        } else if i == 49 {
            Square::B7
        } else if i == 50 {
            Square::C7
        } else if i == 51 {
            Square::D7
        } else if i == 52 {
            Square::E7
        } else if i == 53 {
            Square::F7
        } else if i == 54 {
            Square::G7
        } else if i == 55 {
            Square::H7
        } else if i == 56 {
            Square::A8
        } else if i == 57 {
            Square::B8
        } else if i == 58 {
            Square::C8
        } else if i == 59 {
            Square::D8
        } else if i == 60 {
            Square::E8
        } else if i == 61 {
            Square::F8
        } else if i == 62 {
            Square::G8
        } else if i == 63 {
            Square::H8
        } else {
            Square::A1
        }
    }

    /// The number of this square.
    pub fn index(self) -> (r: u8)
        ensures
            r == self.idx(),
            r < 64,
    {
        reveal(Square::idx);
        match self {
            Square::A1 => 0,
            Square::B1 => 1,
            Square::C1 => 2,
            Square::D1 => 3,
            Square::E1 => 4,
            Square::F1 => 5,
            Square::G1 => 6,
            Square::H1 => 7,
            Square::A2 => 8,
            Square::B2 => 9,
            Square::C2 => 10,
            Square::D2 => 11,
            Square::E2 => 12,
            Square::F2 => 13,
            Square::G2 => 14,
            Square::H2 => 15,
            Square::A3 => 16,
            Square::B3 => 17,
            Square::C3 => 18,
            Square::D3 => 19,
            Square::E3 => 20,
            Square::F3 => 21,
            Square::G3 => 22,
            Square::H3 => 23,
            Square::A4 => 24,
            Square::B4 => 25,
            Square::C4 => 26,
            Square::D4 => 27,
            Square::E4 => 28,
            Square::F4 => 29,
            Square::G4 => 30,
            Square::H4 => 31,
            Square::A5 => 32,
            Square::B5 => 33,
            Square::C5 => 34,
            Square::D5 => 35,
            Square::E5 => 36,
            Square::F5 => 37,
            Square::G5 => 38,
            Square::H5 => 39,
            Square::A6 => 40,
            Square::B6 => 41,
            Square::C6 => 42,
            Square::D6 => 43,
            Square::E6 => 44,
            Square::F6 => 45,
            Square::G6 => 46,
            Square::H6 => 47,
            Square::A7 => 48,
            Square::B7 => 49,
            Square::C7 => 50,
            Square::D7 => 51,
            Square::E7 => 52,
            Square::F7 => 53,
            Square::G7 => 54,
            Square::H7 => 55,
            Square::A8 => 56,
            Square::B8 => 57,
            Square::C8 => 58,
            Square::D8 => 59,
            Square::E8 => 60,
            Square::F8 => 61,
            Square::G8 => 62,
            Square::H8 => 63,
        }
    }

    /// The square with number `i`, if there is one.
    pub fn from_index(i: u8) -> (r: Option<Square>)
        ensures
            r == (if i < 64 { Some(Square::at(i as int)) } else { None }),
    {
        reveal(Square::at);
        match i {
            0 => Some(Square::A1),
            1 => Some(Square::B1),
            2 => Some(Square::C1),
            3 => Some(Square::D1),
            4 => Some(Square::E1),
            5 => Some(Square::F1),
            6 => Some(Square::G1),
            7 => Some(Square::H1),
            8 => Some(Square::A2),
            9 => Some(Square::B2),
            10 => Some(Square::C2),
            11 => Some(Square::D2),
            12 => Some(Square::E2),
            13 => Some(Square::F2),
            14 => Some(Square::G2),
            15 => Some(Square::H2),
            16 => Some(Square::A3),
            17 => Some(Square::B3),
            18 => Some(Square::C3),
            19 => Some(Square::D3),
            20 => Some(Square::E3),
            21 => Some(Square::F3),
            22 => Some(Square::G3),
            23 => Some(Square::H3),
            24 => Some(Square::A4),
            25 => Some(Square::B4),
            26 => Some(Square::C4),
            27 => Some(Square::D4),
            28 => Some(Square::E4),
            29 => Some(Square::F4),
            30 => Some(Square::G4),
            31 => Some(Square::H4),
            32 => Some(Square::A5),
            33 => Some(Square::B5),
            34 => Some(Square::C5),
            35 => Some(Square::D5),
            36 => Some(Square::E5),
            37 => Some(Square::F5),
            38 => Some(Square::G5),
            39 => Some(Square::H5),
            40 => Some(Square::A6),
            41 => Some(Square::B6),
            42 => Some(Square::C6),
            43 => Some(Square::D6),
            44 => Some(Square::E6),
            45 => Some(Square::F6),
            46 => Some(Square::G6),
            47 => Some(Square::H6),
            48 => Some(Square::A7),
            49 => Some(Square::B7),
            50 => Some(Square::C7),
            51 => Some(Square::D7),
            52 => Some(Square::E7),
            53 => Some(Square::F7),
            54 => Some(Square::G7),
            55 => Some(Square::H7),
            56 => Some(Square::A8),
            57 => Some(Square::B8),
            58 => Some(Square::C8),
            59 => Some(Square::D8),
            60 => Some(Square::E8),
            61 => Some(Square::F8),
            62 => Some(Square::G8),
            63 => Some(Square::H8),
            _ => None,
        }
    }
}


impl Square {
    /// The file this square stands on.
    pub open spec fn file_of(self) -> File {
        File::at(self.idx() % 8)
    }

    /// The rank this square stands on.
    pub open spec fn rank_of(self) -> Rank {
        Rank::at(self.idx() / 8)
    }

    /// The square that mirrors this one across the middle of the board.
    pub open spec fn mirrored(self) -> Square {
        Square::at(self.idx() + 56 - 16 * (self.idx() / 8))
    }

    /// This square as the given side sees it: unchanged for white, mirrored for black.
    pub open spec fn seen_by(self, side: Colour) -> Square {
        match side {
            Colour::White => self,
            Colour::Black => self.mirrored(),
        }
    }

    /// The square `n` numbers further on, if it is on the board.
    pub open spec fn plus(self, n: int) -> Option<Square> {
        if 0 <= self.idx() + n < 64 {
            Some(Square::at(self.idx() + n))
        } else {
            None
        }
    }

    /// The square one step ahead of a pawn of `side`, if it is on the board.
    pub open spec fn pushed(self, side: Colour) -> Option<Square> {
        match side {
            Colour::White => self.plus(8),
            Colour::Black => self.plus(-8),
        }
    }

    /// Numbering squares and looking them up by number undo each other.
    pub broadcast proof fn lemma_idx(self)
        ensures
            0 <= #[trigger] self.idx() < 64,
            Square::at(self.idx()) == self,
    {
        reveal(Square::idx);
        reveal(Square::at);
    }

    /// Looking a square up by a number in range gives the square with that number.
    pub broadcast proof fn lemma_at(i: int)
        requires
            0 <= i < 64,
        ensures
            #[trigger] Square::at(i).idx() == i,
    {
        reveal(Square::idx);
        reveal(Square::at);
    }

    /// The square on `rank` and `file`.
    pub fn from_rank_file(rank: Rank, file: File) -> (r: Square)
        ensures
            r == Square::at(rank.idx() * 8 + file.idx()),
            r.idx() == rank.idx() * 8 + file.idx(),
    {
        let i: u8 = rank.index() * 8 + file.index();
        proof {
            Square::lemma_at(i as int);
        }
        Square::from_index(i).unwrap()
    }

    /// The file this square stands on.
    pub fn file(self) -> (r: File)
        ensures
            r == self.file_of(),
            r.idx() == self.idx() % 8,
    {
        File::from_index(self.index() % 8).unwrap()
    }

    /// The rank this square stands on.
    pub fn rank(self) -> (r: Rank)
        ensures
            r == self.rank_of(),
            r.idx() == self.idx() / 8,
    {
        Rank::from_index(self.index() / 8).unwrap()
    }

    /// The square `n` numbers further on, if it is on the board.
    pub fn add(self, n: u8) -> (r: Option<Square>)
        ensures
            r == self.plus(n as int),
    {
        let i: u8 = self.index();
        if n < 64 && i + n < 64 {
            Square::from_index(i + n)
        } else {
            None
        }
    }

    /// The square `n` numbers back, if it is on the board.
    pub fn sub(self, n: u8) -> (r: Option<Square>)
        ensures
            r == self.plus(-(n as int)),
    {
        let i: u8 = self.index();
        if n <= i {
            Square::from_index(i - n)
        } else {
            None
        }
    }

    /// The square that mirrors this one across the middle of the board.
    pub fn flip_rank(self) -> (r: Square)
        ensures
            r == self.mirrored(),
            r.idx() == self.idx() + 56 - 16 * (self.idx() / 8),
    {
        let i: u8 = self.index();
        let j: u8 = i + 56 - 16 * (i / 8);
        proof {
            Square::lemma_at(j as int);
        }
        Square::from_index(j).unwrap()
    }

    /// This square as the given side sees it: unchanged for white, mirrored for black.
    pub fn relative_to(self, side: Colour) -> (r: Square)
        ensures
            r == self.seen_by(side),
    {
        match side {
            Colour::White => self,
            Colour::Black => self.flip_rank(),
        }
    }

    /// The square one step ahead of a pawn of `side`, if it is on the board.
    pub fn pawn_push(self, side: Colour) -> (r: Option<Square>)
        ensures
            r == self.pushed(side),
    {
        match side {
            Colour::White => self.add(8),
            Colour::Black => self.sub(8),
        }
    }

    /// The letter of the square's file followed by the digit of its rank, as bytes.
    pub open spec fn name_bytes(self) -> Seq<u8> {
        seq![(97 + self.idx() % 8) as u8, (49 + self.idx() / 8) as u8]
    }

    /// The letter of the square's file followed by the digit of its rank, as bytes.
    pub fn name(self) -> (r: [u8; 2])
        ensures
            r@ == self.name_bytes(),
    {
        let i: u8 = self.index();
        let r: [u8; 2] = [97 + i % 8, 49 + i / 8];
        assert(r@ =~= self.name_bytes());
        r
    }
}

pub broadcast group group_square {
    Square::lemma_idx,
    Square::lemma_at,
}

/// The kind of a piece, without its colour.
#[derive(Clone, Copy, Debug, PartialEq, Eq, Hash, Structural)]
pub enum PieceType {
    Pawn,
    Knight,
    Bishop,
    Rook,
    Queen,
    King,
}

impl PieceType {
    /// The number of this kind, from 0 for the pawn to 5 for the king.
    pub open spec fn idx(self) -> int {
        match self {
            PieceType::Pawn => 0,
            PieceType::Knight => 1,
            PieceType::Bishop => 2,
            PieceType::Rook => 3,
            PieceType::Queen => 4,
            PieceType::King => 5,
        }
    }

    /// Whether a pawn may turn into a piece of this kind.
    pub open spec fn is_promo_target(self) -> bool {
        self == PieceType::Knight || self == PieceType::Bishop || self == PieceType::Rook
            || self == PieceType::Queen
    }

    /// The lower-case letter that stands for a promotion to this kind.
    pub open spec fn promo_letter(self) -> Option<char> {
        match self {
            PieceType::Knight => Some('n'),
            PieceType::Bishop => Some('b'),
            PieceType::Rook => Some('r'),
            PieceType::Queen => Some('q'),
            _ => None,
        }
    }

    /// The number of this kind, from 0 for the pawn to 5 for the king.
    pub fn index(self) -> (r: usize)
        ensures
            r == self.idx(),
            r < 6,
    {
        match self {
            PieceType::Pawn => 0,
            PieceType::Knight => 1,
            PieceType::Bishop => 2,
            PieceType::Rook => 3,
            PieceType::Queen => 4,
            PieceType::King => 5,
        }
    }

    /// Whether a pawn may turn into a piece of this kind.
    pub fn legal_promo(self) -> (r: bool)
        ensures
            r == self.is_promo_target(),
    {
        match self {
            PieceType::Knight | PieceType::Bishop | PieceType::Rook | PieceType::Queen => true,
            _ => false,
        }
    }

    /// The lower-case letter that stands for a promotion to this kind.
    pub fn promo_char(self) -> (r: Option<char>)
        ensures
            r == self.promo_letter(),
    {
        match self {
            PieceType::Knight => Some('n'),
            PieceType::Bishop => Some('b'),
            PieceType::Rook => Some('r'),
            PieceType::Queen => Some('q'),
            _ => None,
        }
    }
}

/// A piece: a kind together with a colour.
#[derive(Clone, Copy, Debug, PartialEq, Eq, Hash, Structural)]
pub enum Piece {
    WP,
    WN,
    WB,
    WR,
    WQ,
    WK,
    BP,
    BN,
    BB,
    BR,
    BQ,
    BK,
}

impl Piece {
    /// The piece of the given colour and kind.
    pub open spec fn of(colour: Colour, kind: PieceType) -> Piece {
        match (colour, kind) {
            (Colour::White, PieceType::Pawn) => Piece::WP,
            (Colour::White, PieceType::Knight) => Piece::WN,
            (Colour::White, PieceType::Bishop) => Piece::WB,
            (Colour::White, PieceType::Rook) => Piece::WR,
            (Colour::White, PieceType::Queen) => Piece::WQ,
            (Colour::White, PieceType::King) => Piece::WK,
            (Colour::Black, PieceType::Pawn) => Piece::BP,
            (Colour::Black, PieceType::Knight) => Piece::BN,
            (Colour::Black, PieceType::Bishop) => Piece::BB,
            (Colour::Black, PieceType::Rook) => Piece::BR,
            (Colour::Black, PieceType::Queen) => Piece::BQ,
            (Colour::Black, PieceType::King) => Piece::BK,
        }
    }

    /// The colour of this piece.
    pub open spec fn side(self) -> Colour {
        match self {
            Piece::WP | Piece::WN | Piece::WB | Piece::WR | Piece::WQ | Piece::WK => Colour::White,
            _ => Colour::Black,
        }
    }

    /// The kind of this piece.
    pub open spec fn kind(self) -> PieceType {
        match self {
            Piece::WP | Piece::BP => PieceType::Pawn,
            Piece::WN | Piece::BN => PieceType::Knight,
            Piece::WB | Piece::BB => PieceType::Bishop,
            Piece::WR | Piece::BR => PieceType::Rook,
            Piece::WQ | Piece::BQ => PieceType::Queen,
            Piece::WK | Piece::BK => PieceType::King,
        }
    }

    /// The number of this piece: six times its colour plus its kind.
    pub open spec fn idx(self) -> int {
        self.side().idx() * 6 + self.kind().idx()
    }

    /// The letter that stands for this piece in a position string: upper case for white.
    pub open spec fn letter(self) -> u8 {
        match self {
            Piece::WP => 80,
            Piece::WN => 78,
            Piece::WB => 66,
            Piece::WR => 82,
            Piece::WQ => 81,
            Piece::WK => 75,
            Piece::BP => 112,
            Piece::BN => 110,
            Piece::BB => 98,
            Piece::BR => 114,
            Piece::BQ => 113,
            Piece::BK => 107,
        }
    }

    /// The piece that a letter of a position string stands for, if any.
    pub open spec fn of_letter(c: u8) -> Option<Piece> {
        if c == 80 {
            Some(Piece::WP)
        } else if c == 78 {
            Some(Piece::WN)
        } else if c == 66 {
            Some(Piece::WB)
        } else if c == 82 {
            Some(Piece::WR)
        } else if c == 81 {
            Some(Piece::WQ)
        } else if c == 75 {
            Some(Piece::WK)
        } else if c == 112 {
            Some(Piece::BP)
        } else if c == 110 {
            Some(Piece::BN)
        } else if c == 98 {
            Some(Piece::BB)
        } else if c == 114 {
            Some(Piece::BR)
        } else if c == 113 {
            Some(Piece::BQ)
        } else if c == 107 {
            Some(Piece::BK)
        } else {
            None
        }
    }

    /// The piece of the given colour and kind.
    pub fn new(colour: Colour, kind: PieceType) -> (r: Piece)
        ensures
            r == Piece::of(colour, kind),
            r.side() == colour,
            r.kind() == kind,
    {
        match (colour, kind) {
            (Colour::White, PieceType::Pawn) => Piece::WP,
            (Colour::White, PieceType::Knight) => Piece::WN,
            (Colour::White, PieceType::Bishop) => Piece::WB,
            (Colour::White, PieceType::Rook) => Piece::WR,
            (Colour::White, PieceType::Queen) => Piece::WQ,
            (Colour::White, PieceType::King) => Piece::WK,
            (Colour::Black, PieceType::Pawn) => Piece::BP,
            (Colour::Black, PieceType::Knight) => Piece::BN,
            (Colour::Black, PieceType::Bishop) => Piece::BB,
            (Colour::Black, PieceType::Rook) => Piece::BR,
            (Colour::Black, PieceType::Queen) => Piece::BQ,
            (Colour::Black, PieceType::King) => Piece::BK,
        }
    }

    /// The colour of this piece.
    pub fn colour(self) -> (r: Colour)
        ensures
            r == self.side(),
    {
        match self {
            Piece::WP | Piece::WN | Piece::WB | Piece::WR | Piece::WQ | Piece::WK => Colour::White,
            _ => Colour::Black,
        }
    }

    /// The kind of this piece.
    pub fn piece_type(self) -> (r: PieceType)
        ensures
            r == self.kind(),
    {
        match self {
            Piece::WP | Piece::BP => PieceType::Pawn,
            Piece::WN | Piece::BN => PieceType::Knight,
            Piece::WB | Piece::BB => PieceType::Bishop,
            Piece::WR | Piece::BR => PieceType::Rook,
            Piece::WQ | Piece::BQ => PieceType::Queen,
            Piece::WK | Piece::BK => PieceType::King,
        }
    }

    /// The number of this piece: six times its colour plus its kind.
    pub fn index(self) -> (r: usize)
        ensures
            r == self.idx(),
            r < 12,
    {
        self.colour().index() * 6 + self.piece_type().index()
    }

    /// The letter that stands for this piece in a position string: upper case for white.
    pub fn byte(self) -> (r: u8)
        ensures
            r == self.letter(),
    {
        match self {
            Piece::WP => 80,
            Piece::WN => 78,
            Piece::WB => 66,
            Piece::WR => 82,
            Piece::WQ => 81,
            Piece::WK => 75,
            Piece::BP => 112,
            Piece::BN => 110,
            Piece::BB => 98,
            Piece::BR => 114,
            Piece::BQ => 113,
            Piece::BK => 107,
        }
    }

    /// The piece that a letter of a position string stands for, if any.
    pub fn from_byte(c: u8) -> (r: Option<Piece>)
        ensures
            r == Piece::of_letter(c),
    {
        match c {
            80 => Some(Piece::WP),
            78 => Some(Piece::WN),
            66 => Some(Piece::WB),
            82 => Some(Piece::WR),
            81 => Some(Piece::WQ),
            75 => Some(Piece::WK),
            112 => Some(Piece::BP),
            110 => Some(Piece::BN),
            98 => Some(Piece::BB),
            114 => Some(Piece::BR),
            113 => Some(Piece::BQ),
            107 => Some(Piece::BK),
            _ => None,
        }
    }
}

} // verus!
