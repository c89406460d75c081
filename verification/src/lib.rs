pub mod attacks;
pub mod bits;
pub mod board;
pub mod castling;
pub mod chessmove;
pub mod cuckoo;
pub mod fen;
pub mod history;
pub mod historytable;
pub mod legality;
pub mod makemove;
pub mod movegen;
pub mod movelist;
pub mod notation;
pub mod outcome;
pub mod perft;
pub mod piecelayout;
pub mod playable;
pub mod play;
pub mod position;
pub mod rays;
pub mod roundtrip;
pub mod scharnagl;
pub mod sftables;
pub mod soundness;
pub mod squareset;
pub mod swings;
pub mod threats;
pub mod types;
pub mod validation;
pub mod zobrist;
