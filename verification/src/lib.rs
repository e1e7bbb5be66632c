#![allow(unused_imports)]
use vstd::prelude::*;

pub mod announce;
pub mod assembly;
pub mod bit_vec;
pub mod bitfield;
pub mod bits;
pub mod cli;
pub mod db;
pub mod dot_torrent;
pub mod download;
pub mod handshake;
pub mod hashing;
pub mod lru_cache;
pub mod piece;
pub mod scheduler;
pub mod session;
pub mod state;
pub mod tracker;
pub mod wire;

verus! {

/// Fixed size of a request block within a piece: 16 KiB.
pub const BLOCK_SIZE: usize = 16384;

} // verus!
