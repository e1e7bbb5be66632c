//! One piece of the torrent: its index, its length (the last piece is
//! shorter unless the total divides evenly), its expected digest, and the
//! set of peer sessions advertising it. Also the arithmetic that cuts the
//! content into pieces and a piece into blocks.

use vstd::prelude::*;
use vstd::arithmetic::div_mod::{lemma_div_plus_one, lemma_fundamental_div_mod};
use crate::BLOCK_SIZE;
use crate::bitfield::Bitfield;
use crate::dot_torrent::DotTorrent;

verus! {

/// How many pieces content of `total_len` bytes makes at `piece_len` bytes
/// a piece: the rounded-up quotient.
pub open spec fn spec_n_pieces(total_len: int, piece_len: int) -> int {
    (total_len + piece_len - 1) / piece_len
}

/// The length of piece `i`: `piece_len` for all but the last piece, and
/// `((total_len - 1) % piece_len) + 1` for the last.
pub open spec fn spec_piece_size(i: int, total_len: int, piece_len: int) -> int {
    if i < spec_n_pieces(total_len, piece_len) - 1 {
        piece_len
    } else {
        ((total_len - 1) % piece_len) + 1
    }
}

/// The summed length of pieces `0 .. k`.
pub open spec fn spec_piece_size_sum(k: int, total_len: int, piece_len: int) -> int
    decreases k,
{
    if k <= 0 {
        0
    } else {
        spec_piece_size_sum(k - 1, total_len, piece_len) + spec_piece_size(
            k - 1,
            total_len,
            piece_len,
        )
    }
}

/// The rounded-up quotient, written over `total_len - 1`: the two forms
/// agree, and the result lies between 1 and `total_len`.
pub proof fn lemma_n_pieces_form(total_len: int, piece_len: int)
    requires
        total_len >= 1,
        piece_len >= 1,
    ensures
        spec_n_pieces(total_len, piece_len) == (total_len - 1) / piece_len + 1,
        1 <= spec_n_pieces(total_len, piece_len) <= total_len,
{
    lemma_div_plus_one(total_len - 1, piece_len);
    assert((total_len - 1) / piece_len + 1 <= total_len) by {
        lemma_fundamental_div_mod(total_len - 1, piece_len);
        assert((total_len - 1) / piece_len <= total_len - 1) by (nonlinear_arith)
            requires
                total_len >= 1,
                piece_len >= 1,
        ;
    }
    assert((total_len - 1) / piece_len >= 0) by {
        vstd::arithmetic::div_mod::lemma_div_pos_is_pos(total_len - 1, piece_len);
    }
}

/// Every piece length lies between 1 and `piece_len`.
pub proof fn lemma_piece_size_bounds(i: int, total_len: int, piece_len: int)
    requires
        total_len >= 1,
        piece_len >= 1,
    ensures
        1 <= spec_piece_size(i, total_len, piece_len) <= piece_len,
{
    vstd::arithmetic::div_mod::lemma_mod_bound(total_len - 1, piece_len);
}

/// Piece length law: the piece lengths sum to the total content length,
/// each piece but the last is `piece_len` long, and the last is
/// `((total_len - 1) % piece_len) + 1`.
pub proof fn lemma_piece_sizes_cover(total_len: int, piece_len: int)
    requires
        total_len >= 1,
        piece_len >= 1,
    ensures
        spec_piece_size_sum(spec_n_pieces(total_len, piece_len), total_len, piece_len)
            == total_len,
{
    let p = spec_n_pieces(total_len, piece_len);
    lemma_n_pieces_form(total_len, piece_len);
    lemma_piece_size_sum_full(p - 1, total_len, piece_len);
    lemma_fundamental_div_mod(total_len - 1, piece_len);
    assert(spec_piece_size_sum(p - 1, total_len, piece_len) == (p - 1) * piece_len);
    assert((total_len - 1) / piece_len * piece_len == piece_len * ((total_len - 1) / piece_len))
        by (nonlinear_arith);
}

/// Pieces before the last all have full length, so their sum is a multiple.
pub proof fn lemma_piece_size_sum_full(k: int, total_len: int, piece_len: int)
    requires
        total_len >= 1,
        piece_len >= 1,
        k <= spec_n_pieces(total_len, piece_len) - 1,
    ensures
        k >= 0 ==> spec_piece_size_sum(k, total_len, piece_len) == k * piece_len,
    decreases k,
{
    if k > 0 {
        lemma_piece_size_sum_full(k - 1, total_len, piece_len);
        assert(spec_piece_size(k - 1, total_len, piece_len) == piece_len);
        assert(spec_piece_size_sum(k, total_len, piece_len) == spec_piece_size_sum(
            k - 1,
            total_len,
            piece_len,
        ) + piece_len);
        assert(k * piece_len == (k - 1) * piece_len + piece_len) by (nonlinear_arith);
    } else {
        assert(k >= 0 ==> k == 0);
        assert(k == 0 ==> k * piece_len == 0) by (nonlinear_arith);
    }
}

/// How many blocks a piece of `piece_size` bytes makes at `BLOCK_SIZE`
/// bytes a block: the rounded-up quotient.
pub open spec fn spec_n_blocks(piece_size: int) -> int {
    (piece_size + BLOCK_SIZE - 1) / BLOCK_SIZE as int
}

/// The length of block `j` of a piece of `piece_size` bytes: `BLOCK_SIZE`
/// for all but the last block, the remainder for the last.
pub open spec fn spec_block_size(piece_size: int, j: int) -> int {
    if j < spec_n_blocks(piece_size) - 1 {
        BLOCK_SIZE as int
    } else {
        piece_size - (spec_n_blocks(piece_size) - 1) * BLOCK_SIZE
    }
}

/// How many blocks a piece of `piece_size` bytes makes.
pub fn n_blocks(piece_size: usize) -> (r: usize)
    requires
        1 <= piece_size,
    ensures
        r == spec_n_blocks(piece_size as int),
        1 <= r <= piece_size,
{
    proof {
        lemma_n_pieces_form(piece_size as int, BLOCK_SIZE as int);
    }
    (piece_size - 1) / BLOCK_SIZE + 1
}

/// The block count is at least one, the last block starts inside the piece,
/// and every block length lies between 1 and `BLOCK_SIZE`.
pub proof fn lemma_block_bounds(piece_size: int, j: int)
    requires
        piece_size >= 1,
    ensures
        1 <= spec_n_blocks(piece_size),
        (spec_n_blocks(piece_size) - 1) * BLOCK_SIZE < piece_size,
        piece_size <= spec_n_blocks(piece_size) * BLOCK_SIZE,
        0 <= j < spec_n_blocks(piece_size) ==> 1 <= spec_block_size(piece_size, j) <= BLOCK_SIZE,
        0 <= j < spec_n_blocks(piece_size) ==> j * BLOCK_SIZE + spec_block_size(piece_size, j)
            <= piece_size,
{
    let b = BLOCK_SIZE as int;
    let k = spec_n_blocks(piece_size);
    assert(k == (piece_size + b - 1) / b);
    lemma_div_plus_one(piece_size - 1, b);
    lemma_fundamental_div_mod(piece_size - 1, b);
    vstd::arithmetic::div_mod::lemma_mod_bound(piece_size - 1, b);
    vstd::arithmetic::div_mod::lemma_div_pos_is_pos(piece_size - 1, b);
    assert((k - 1) * b == b * (k - 1)) by (nonlinear_arith);
    assert(k * b == b * k) by (nonlinear_arith);
    assert(b * ((piece_size - 1) / b) <= piece_size - 1 < b * ((piece_size - 1) / b) + b);
    if 0 <= j < k - 1 {
        assert(j * b + b <= (k - 1) * b) by (nonlinear_arith)
            requires
                j + 1 <= k - 1,
                b >= 1,
        ;
    }
}

/// One piece to schedule: ordered by how many peers provide it, rarest
/// first, with ties broken by the provider lists themselves.
#[derive(Clone, Debug)]
pub struct Piece {
    index: usize,
    length: usize,
    hash: [u8; 20],
    peers: Vec<usize>,
}

impl Piece {
    pub closed spec fn spec_index(&self) -> int {
        self.index as int
    }

    pub closed spec fn spec_length(&self) -> int {
        self.length as int
    }

    pub closed spec fn spec_hash(&self) -> Seq<u8> {
        self.hash@
    }

    pub closed spec fn spec_peers(&self) -> Seq<usize> {
        self.peers@
    }

    /// Build the descriptor-side view of piece `index`: its length from the
    /// piece geometry, its digest from the descriptor, and as providers the
    /// indices of exactly those sessions whose bitfield has the piece,
    /// ascending.
    pub fn new(index: usize, dot_torrent: &DotTorrent, peers: &Vec<Bitfield>) -> (r: Piece)
        requires
            dot_torrent.consistent(),
            index < dot_torrent.spec_n_pieces(),
        ensures
            r.spec_index() == index,
            r.spec_length() == spec_piece_size(
                index as int,
                dot_torrent.spec_length(),
                dot_torrent.info.piece_length as int,
            ),
            r.spec_hash() == dot_torrent.info.pieces.0@[index as int]@,
            forall|a: int, b: int|
                0 <= a < b < r.spec_peers().len() ==> r.spec_peers()[a] < r.spec_peers()[b],
            forall|k: int|
                0 <= k < r.spec_peers().len() ==> (#[trigger] r.spec_peers()[k]) < peers@.len()
                    && peers@[r.spec_peers()[k] as int].spec_has(index as int),
            forall|p: int|
                0 <= p < peers@.len() && peers@[p].spec_has(index as int)
                    ==> r.spec_peers().contains(p as usize),
    {
        proof {
            lemma_n_pieces_form(dot_torrent.spec_length(), dot_torrent.info.piece_length as int);
            vstd::arithmetic::div_mod::lemma_mod_bound(
                dot_torrent.spec_length() - 1,
                dot_torrent.info.piece_length as int,
            );
        }
        let n_pieces: usize = dot_torrent.info.pieces.0.len();
        let total: usize = dot_torrent.length();
        let length: usize = if index < n_pieces - 1 {
            dot_torrent.info.piece_length
        } else {
            (total - 1) % dot_torrent.info.piece_length + 1
        };
        let hash: [u8; 20] = dot_torrent.info.pieces.0[index];
        let mut providers: Vec<usize> = Vec::new();
        let mut p: usize = 0;
        while p < peers.len()
            invariant
                p <= peers@.len(),
                forall|a: int, b: int|
                    0 <= a < b < providers@.len() ==> providers@[a] < providers@[b],
                forall|k: int|
                    0 <= k < providers@.len() ==> (#[trigger] providers@[k]) < p
                        && peers@[providers@[k] as int].spec_has(index as int),
                forall|q: int|
                    0 <= q < p && peers@[q].spec_has(index as int) ==> providers@.contains(
                        q as usize,
                    ),
            decreases peers@.len() - p,
        {
            let ghost prev: Seq<usize> = providers@;
            if peers[p].has(index) {
                providers.push(p);
                proof {
                    assert forall|q: int|
                        0 <= q < p + 1 && peers@[q].spec_has(index as int)
                            implies providers@.contains(q as usize) by {
                        if q < p {
                            assert(prev.contains(q as usize));
                            let k = choose|k: int| 0 <= k < prev.len() && prev[k] == q as usize;
                            assert(providers@[k] == q as usize);
                        } else {
                            assert(providers@[providers@.len() - 1] == q as usize);
                        }
                    }
                }
            } else {
                proof {
                    assert forall|q: int|
                        0 <= q < p + 1 && peers@[q].spec_has(index as int)
                            implies providers@.contains(q as usize) by {
                        assert(q < p);
                        assert(prev.contains(q as usize));
                    }
                }
            }
            p = p + 1;
        }
        Piece { index, length, hash, peers: providers }
    }

    pub fn index(&self) -> (r: usize)
        ensures
            r == self.spec_index(),
    {
        self.index
    }

    pub fn length(&self) -> (r: usize)
        ensures
            r == self.spec_length(),
    {
        self.length
    }

    pub fn hash(&self) -> (r: [u8; 20])
        ensures
            r@ == self.spec_hash(),
    {
        self.hash
    }

    /// The providing sessions, as indices into the session list, ascending.
    pub fn peers(&self) -> (r: &Vec<usize>)
        ensures
            r@ == self.spec_peers(),
    {
        &self.peers
    }
}

} // verus!
