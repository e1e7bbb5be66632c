//! The parsed torrent descriptor: announce URL, piece geometry, the list of
//! 20-byte piece digests, and the single- or multi-file layout. Reading the
//! `.torrent` encoding itself is a collaborator's job; this module models
//! the values it hands over.

use vstd::prelude::*;
use crate::piece::spec_n_pieces;

verus! {

/// The per-piece SHA-1 digests, in piece order.
#[derive(Clone, Debug)]
pub struct Hashes(pub Vec<[u8; 20]>);

/// One file of a multi-file torrent: its length and its path segments.
#[derive(Clone, Debug)]
pub struct File {
    pub length: usize,
    pub path: Vec<String>,
}

/// A torrent holds either one file of the given length, or a list of files
/// laid out one after the other in the byte stream.
#[derive(Clone, Debug)]
pub enum Key {
    SingleFile { length: usize },
    MultipleFiles { files: Vec<File> },
}

/// The `info` section of a descriptor.
#[derive(Clone, Debug)]
pub struct Info {
    pub name: String,
    pub piece_length: usize,
    pub pieces: Hashes,
    pub key: Key,
}

/// A whole descriptor: where to announce, and what the content looks like.
#[derive(Clone, Debug)]
pub struct DotTorrent {
    pub announce: String,
    pub info: Info,
}

/// The summed length of the first `k` files.
pub open spec fn spec_files_total_upto(files: Seq<File>, k: int) -> int
    decreases k,
{
    if k <= 0 {
        0
    } else {
        spec_files_total_upto(files, k - 1) + files[k - 1].length
    }
}

/// The summed length of all files.
pub open spec fn spec_files_total(files: Seq<File>) -> int {
    spec_files_total_upto(files, files.len() as int)
}

/// A prefix of the file list never sums to more than the whole list.
pub proof fn lemma_files_total_monotonic(files: Seq<File>, k: int)
    requires
        0 <= k <= files.len(),
    ensures
        spec_files_total_upto(files, k) <= spec_files_total(files),
        0 <= spec_files_total_upto(files, k),
    decreases files.len() - k,
{
    if k < files.len() {
        lemma_files_total_monotonic(files, k + 1);
    }
    if k > 0 {
        lemma_files_total_nonneg(files, k);
    }
}

proof fn lemma_files_total_nonneg(files: Seq<File>, k: int)
    ensures
        0 <= spec_files_total_upto(files, k),
    decreases k,
{
    if k > 0 {
        lemma_files_total_nonneg(files, k - 1);
    }
}

impl DotTorrent {
    /// The total content length: the single file's length, or the sum of
    /// all file lengths.
    pub open spec fn spec_length(&self) -> int {
        match self.info.key {
            Key::SingleFile { length } => length as int,
            Key::MultipleFiles { files } => spec_files_total(files@),
        }
    }

    /// The number of pieces the descriptor carries digests for.
    pub open spec fn spec_n_pieces(&self) -> int {
        self.info.pieces.0@.len() as int
    }

    /// A descriptor the downloader can act on: at least one byte of content
    /// that fits the machine, a positive piece length, and exactly one
    /// digest per piece.
    pub open spec fn consistent(&self) -> bool {
        &&& 1 <= self.spec_length() <= usize::MAX
        &&& self.info.piece_length >= 1
        &&& self.spec_n_pieces() == spec_n_pieces(self.spec_length(), self.info.piece_length as int)
    }

    /// The total content length.
    pub fn length(&self) -> (r: usize)
        requires
            self.spec_length() <= usize::MAX,
        ensures
            r == self.spec_length(),
    {
        match &self.info.key {
            Key::SingleFile { length } => *length,
            Key::MultipleFiles { files } => {
                let mut total: usize = 0;
                let mut i: usize = 0;
                while i < files.len()
                    invariant
                        i <= files@.len(),
                        spec_files_total(files@) <= usize::MAX,
                        total == spec_files_total_upto(files@, i as int),
                    decreases files@.len() - i,
                {
                    proof {
                        lemma_files_total_monotonic(files@, i + 1);
                    }
                    total = total + files[i].length;
                    i = i + 1;
                }
                total
            },
        }
    }

    /// Whether the descriptor is one the downloader can act on; callers
    /// check this before any piece arithmetic is trusted.
    pub fn validate(&self) -> (r: bool)
        ensures
            r == self.consistent(),
    {
        if self.info.piece_length < 1 {
            return false;
        }
        let total_known: bool = match &self.info.key {
            Key::SingleFile { length: _ } => true,
            Key::MultipleFiles { files } => {
                let mut ok: bool = true;
                let mut acc: usize = 0;
                let mut i: usize = 0;
                while i < files.len()
                    invariant
                        i <= files@.len(),
                        ok ==> acc == spec_files_total_upto(files@, i as int),
                        !ok ==> spec_files_total(files@) > usize::MAX,
                    decreases files@.len() - i,
                {
                    if ok {
                        match acc.checked_add(files[i].length) {
                            Some(next) => {
                                acc = next;
                            },
                            None => {
                                proof {
                                    lemma_files_total_monotonic(files@, i + 1);
                                }
                                ok = false;
                            },
                        }
                    }
                    i = i + 1;
                }
                ok
            },
        };
        if !total_known {
            return false;
        }
        let total: usize = self.length();
        if total < 1 {
            return false;
        }
        proof {
            crate::piece::lemma_n_pieces_form(total as int, self.info.piece_length as int);
        }
        let expected: usize = (total - 1) / self.info.piece_length + 1;
        self.info.pieces.0.len() == expected
    }
}

} // verus!
