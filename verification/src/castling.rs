use vstd::prelude::*;
use crate::types::{Colour, Square};

verus! {

/// For each side and wing, the square of the rook that may still castle there, if any.
#[derive(Clone, Copy, Debug, PartialEq, Eq, Structural)]
pub struct CastlingRights {
    pub wk: Option<Square>,
    pub wq: Option<Square>,
    pub bk: Option<Square>,
    pub bq: Option<Square>,
}

impl CastlingRights {
    /// The rights with every right on `sq` taken away.
    pub open spec fn without(self, sq: Square) -> CastlingRights {
        CastlingRights {
            wk: if self.wk == Some(sq) { None } else { self.wk },
            wq: if self.wq == Some(sq) { None } else { self.wq },
            bk: if self.bk == Some(sq) { None } else { self.bk },
            bq: if self.bq == Some(sq) { None } else { self.bq },
        }
    }

    /// The right of `side` on the king's wing.
    pub open spec fn kingside_of(self, side: Colour) -> Option<Square> {
        match side {
            Colour::White => self.wk,
            Colour::Black => self.bk,
        }
    }

    /// The right of `side` on the queen's wing.
    pub open spec fn queenside_of(self, side: Colour) -> Option<Square> {
        match side {
            Colour::White => self.wq,
            Colour::Black => self.bq,
        }
    }

    /// A number from 0 to 15 that tells which of the four rights are there: 1 for white's
    /// king's wing, 2 for white's queen's wing, 4 and 8 for black's.
    pub open spec fn mask(self) -> int {
        (if self.wk is Some { 1int } else { 0 }) + (if self.wq is Some { 2int } else { 0 }) + (
        if self.bk is Some { 4int } else { 0 }) + (if self.bq is Some { 8int } else { 0 })
    }

    /// No right at all.
    pub open spec fn none_spec() -> CastlingRights {
        CastlingRights { wk: None, wq: None, bk: None, bq: None }
    }

    /// No right at all.
    pub fn none() -> (r: CastlingRights)
        ensures
            r == CastlingRights::none_spec(),
    {
        CastlingRights { wk: None, wq: None, bk: None, bq: None }
    }

    /// Whether no right is left.
    pub fn is_none(&self) -> (r: bool)
        ensures
            r == (*self == CastlingRights::none_spec()),
    {
        self.wk.is_none() && self.wq.is_none() && self.bk.is_none() && self.bq.is_none()
    }

    /// The right of `side` on the king's wing.
    pub fn kingside(&self, side: Colour) -> (r: Option<Square>)
        ensures
            r == self.kingside_of(side),
    {
        match side {
            Colour::White => self.wk,
            Colour::Black => self.bk,
        }
    }

    /// The right of `side` on the queen's wing.
    pub fn queenside(&self, side: Colour) -> (r: Option<Square>)
        ensures
            r == self.queenside_of(side),
    {
        match side {
            Colour::White => self.wq,
            Colour::Black => self.bq,
        }
    }

    /// Takes away every right on `sq`.
    pub fn remove(&mut self, sq: Square)
        ensures
            *final(self) == old(self).without(sq),
    {
        if self.wk == Some(sq) {
            self.wk = None;
        }
        if self.wq == Some(sq) {
            self.wq = None;
        }
        if self.bk == Some(sq) {
            self.bk = None;
        }
        if self.bq == Some(sq) {
            self.bq = None;
        }
    }

    /// A number from 0 to 15 that tells which of the four rights are there.
    pub fn hashkey_index(&self) -> (r: u8)
        ensures
            r == self.mask(),
            r < 16,
    {
        let a: u8 = if self.wk.is_some() { 1 } else { 0 };
        let b: u8 = if self.wq.is_some() { 2 } else { 0 };
        let c: u8 = if self.bk.is_some() { 4 } else { 0 };
        let d: u8 = if self.bq.is_some() { 8 } else { 0 };
        a + b + c + d
    }
}

} // verus!
