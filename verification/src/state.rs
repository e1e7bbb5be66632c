//! One torrent's persistent record: what the state file stores for it
//! between runs. Loading and sharing the records is the caller's work.

use vstd::prelude::*;
use crate::bit_vec::BitVec;
use crate::dot_torrent::DotTorrent;

verus! {

/// A torrent's metadata as the state file holds it.
#[derive(Clone, Debug)]
pub struct Metadata {
    pub id: usize,
    pub path: String,
    pub dot_torrent: DotTorrent,
    pub peer_id: [u8; 20],
    pub port: u16,
    pub uploaded: usize,
    pub downloaded: usize,
    pub left: usize,
    pub pieces: BitVec,
    pub finished: bool,
}

} // verus!
