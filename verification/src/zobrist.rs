use vstd::prelude::*;
use crate::castling::CastlingRights;
use crate::types::{Piece, Square};

verus! {

broadcast use crate::types::group_square;

/// The `n`-th number of a fixed stream of scrambled 64-bit numbers. Every key of the
/// position hash is drawn from this stream, so the keys are the same in every run.
pub open spec fn scramble(n: u64) -> u64 {
    let a = n.wrapping_mul(0x9e37_79b9_7f4a_7c15);
    let b = (a ^ (a >> 30)).wrapping_mul(0xbf58_476d_1ce4_e5b9);
    let c = (b ^ (b >> 27)).wrapping_mul(0x94d0_49bb_1331_11eb);
    c ^ (c >> 31)
}

/// The key of `piece` standing on `sq`: number `1 + 64 * piece + sq` of the stream.
pub open spec fn piece_key(piece: Piece, sq: Square) -> u64 {
    scramble((1 + 64 * piece.idx() + sq.idx()) as u64)
}

/// The key that is part of the hash while white is to move: number 769 of the stream.
pub open spec fn side_key() -> u64 {
    scramble(769)
}

/// The key of an en-passant square on file number `file`: number `770 + file`.
pub open spec fn ep_key(file: int) -> u64 {
    scramble((770 + file) as u64)
}

/// The key of a combination of castling rights: number `778 + mask`.
pub open spec fn castling_key(mask: int) -> u64 {
    scramble((778 + mask) as u64)
}

fn scrambled(n: u64) -> (r: u64)
    ensures
        r == scramble(n),
{
    let a: u64 = n.wrapping_mul(0x9e37_79b9_7f4a_7c15);
    let b: u64 = (a ^ (a >> 30)).wrapping_mul(0xbf58_476d_1ce4_e5b9);
    let c: u64 = (b ^ (b >> 27)).wrapping_mul(0x94d0_49bb_1331_11eb);
    c ^ (c >> 31)
}

/// Adds `piece` on `sq` to the hash `key`, or takes it out if it was in.
pub fn hash_piece(key: &mut u64, piece: Piece, sq: Square)
    ensures
        *final(key) == *old(key) ^ piece_key(piece, sq),
{
    let n: u64 = 1 + 64 * (piece.index() as u64) + sq.index() as u64;
    *key = *key ^ scrambled(n);
}

/// Switches the side to move in the hash `key`.
pub fn hash_side(key: &mut u64)
    ensures
        *final(key) == *old(key) ^ side_key(),
{
    *key = *key ^ scrambled(769);
}

/// Adds the en-passant square `ep_sq` to the hash `key`, or takes it out if it was in.
/// Only the file of the square counts.
pub fn hash_ep(key: &mut u64, ep_sq: Square)
    ensures
        *final(key) == *old(key) ^ ep_key(ep_sq.idx() % 8),
{
    let n: u64 = 770 + (ep_sq.index() % 8) as u64;
    *key = *key ^ scrambled(n);
}

/// Adds the castling rights to the hash `key`, or takes them out if they were in.
pub fn hash_castling(key: &mut u64, castle_perm: CastlingRights)
    ensures
        *final(key) == *old(key) ^ castling_key(castle_perm.mask()),
{
    let n: u64 = 778 + castle_perm.hashkey_index() as u64;
    *key = *key ^ scrambled(n);
}

} // verus!
