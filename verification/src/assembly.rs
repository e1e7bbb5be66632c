//! Reassembly of one piece from its blocks: bytes land at their `begin`
//! offset, arrivals are tracked per block so a block delivered twice (after
//! a requeue) is counted once, and the piece is complete exactly when every
//! block has landed.

use vstd::prelude::*;
use crate::BLOCK_SIZE;
use crate::piece::{lemma_block_bounds, spec_block_size, spec_n_blocks};

verus! {

/// What spoils an arriving block: an offset that is not a block boundary
/// inside the piece, or bytes of the wrong length for that block.
#[derive(Clone, Copy, Debug, PartialEq, Eq, Structural)]
pub enum AssemblyError {
    BadOffset,
    BadLength,
}

/// The summed size of the blocks among `0 .. k` that have arrived.
pub open spec fn spec_received_upto(have: Seq<bool>, piece_size: int, k: int) -> int
    decreases k,
{
    if k <= 0 {
        0
    } else {
        spec_received_upto(have, piece_size, k - 1) + if have[k - 1] {
            spec_block_size(piece_size, k - 1)
        } else {
            0
        }
    }
}

/// The buffer and bookkeeping for one piece being downloaded.
pub struct PieceAssembly {
    buf: Vec<u8>,
    have: Vec<bool>,
    received: usize,
    piece_size: usize,
    n_blocks: usize,
}

impl PieceAssembly {
    pub closed spec fn spec_buf(&self) -> Seq<u8> {
        self.buf@
    }

    pub closed spec fn spec_have(&self) -> Seq<bool> {
        self.have@
    }

    pub closed spec fn spec_piece_size(&self) -> int {
        self.piece_size as int
    }

    pub closed spec fn spec_received(&self) -> int {
        self.received as int
    }

    pub closed spec fn spec_block_count(&self) -> int {
        self.n_blocks as int
    }

    pub open spec fn wf(&self) -> bool {
        &&& 1 <= self.spec_piece_size() <= u32::MAX
        &&& self.spec_buf().len() == self.spec_piece_size()
        &&& self.spec_block_count() == spec_n_blocks(self.spec_piece_size())
        &&& self.spec_have().len() == spec_n_blocks(self.spec_piece_size())
        &&& self.spec_received() == spec_received_upto(
            self.spec_have(),
            self.spec_piece_size(),
            spec_n_blocks(self.spec_piece_size()),
        )
    }

    /// An empty assembly for a piece of `piece_size` bytes: a zeroed buffer
    /// and no block yet arrived.
    pub fn new(piece_size: usize) -> (r: PieceAssembly)
        requires
            1 <= piece_size <= u32::MAX,
        ensures
            r.wf(),
            r.spec_piece_size() == piece_size,
            r.spec_received() == 0,
            forall|j: int| 0 <= j < r.spec_have().len() ==> !r.spec_have()[j],
            r.spec_buf().len() == piece_size,
            forall|x: int| 0 <= x < piece_size ==> r.spec_buf()[x] == 0,
    {
        proof {
            lemma_block_bounds(piece_size as int, 0);
            crate::piece::lemma_n_pieces_form(piece_size as int, BLOCK_SIZE as int);
        }
        let n_blocks: usize = (piece_size - 1) / BLOCK_SIZE + 1;
        let buf: Vec<u8> = vec![0u8; piece_size];
        let have: Vec<bool> = vec![false; n_blocks];
        let r = PieceAssembly { buf, have, received: 0, piece_size, n_blocks };
        proof {
            lemma_received_all_false(r.spec_have(), piece_size as int, n_blocks as int);
        }
        r
    }

    /// Take in one block's bytes at offset `begin`. The offset must be a
    /// block boundary inside the piece and the bytes exactly that block's
    /// length; then the bytes land at the offset, the block is marked
    /// arrived, and the received count grows only if it had not arrived
    /// before — a duplicate is written again but never counted again.
    pub fn write_block(&mut self, begin: usize, data: &Vec<u8>) -> (r: Result<
        (),
        AssemblyError,
    >)
        requires
            old(self).wf(),
        ensures
            final(self).wf(),
            final(self).spec_piece_size() == old(self).spec_piece_size(),
            match r {
                Ok(()) => {
                    let j = begin as int / BLOCK_SIZE as int;
                    &&& begin as int % BLOCK_SIZE as int == 0
                    &&& j < spec_n_blocks(old(self).spec_piece_size())
                    &&& data@.len() == spec_block_size(old(self).spec_piece_size(), j)
                    &&& final(self).spec_buf() == old(self).spec_buf().subrange(
                        0,
                        begin as int,
                    ) + data@ + old(self).spec_buf().skip(begin + data@.len())
                    &&& final(self).spec_have() == old(self).spec_have().update(j, true)
                    &&& final(self).spec_received() == old(self).spec_received() + if old(
                        self,
                    ).spec_have()[j] {
                        0
                    } else {
                        spec_block_size(old(self).spec_piece_size(), j)
                    }
                },
                Err(e) => {
                    &&& *final(self) == *old(self)
                    &&& (e == AssemblyError::BadOffset || e == AssemblyError::BadLength)
                    &&& (e == AssemblyError::BadOffset <==> !(begin as int % BLOCK_SIZE as int == 0
                        && (begin as int / BLOCK_SIZE as int) < spec_n_blocks(old(self).spec_piece_size())))
                    &&& (e == AssemblyError::BadLength <==> begin as int % BLOCK_SIZE as int == 0
                        && (begin as int / BLOCK_SIZE as int) < spec_n_blocks(old(self).spec_piece_size())
                        && data@.len() != spec_block_size(
                        old(self).spec_piece_size(),
                        begin as int / BLOCK_SIZE as int,
                    ))
                },
            },
    {
        if begin % BLOCK_SIZE != 0 {
            return Err(AssemblyError::BadOffset);
        }
        let j: usize = begin / BLOCK_SIZE;
        if j >= self.n_blocks {
            return Err(AssemblyError::BadOffset);
        }
        proof {
            lemma_block_bounds(self.piece_size as int, j as int);
            vstd::arithmetic::div_mod::lemma_fundamental_div_mod(
                begin as int,
                BLOCK_SIZE as int,
            );
        }
        let expected: usize = if j + 1 < self.n_blocks {
            BLOCK_SIZE
        } else {
            self.piece_size - (self.n_blocks - 1) * BLOCK_SIZE
        };
        if data.len() != expected {
            return Err(AssemblyError::BadLength);
        }
        let ghost old_buf: Seq<u8> = self.buf@;
        let mut i: usize = 0;
        while i < data.len()
            invariant
                i <= data@.len(),
                begin + data@.len() <= self.buf@.len(),
                self.buf@.len() <= u32::MAX,
                self.buf@.len() == old_buf.len(),
                self.have@ == old(self).spec_have(),
                self.received == old(self).received,
                self.piece_size == old(self).piece_size,
                self.n_blocks == old(self).n_blocks,
                j < self.have@.len(),
                forall|x: int| 0 <= x < begin ==> self.buf@[x] == old_buf[x],
                forall|x: int| 0 <= x < i ==> self.buf@[begin + x] == data@[x],
                forall|x: int|
                    begin + data@.len() <= x < self.buf@.len() ==> self.buf@[x] == old_buf[x],
            decreases data@.len() - i,
        {
            let b: u8 = data[i];
            self.buf[begin + i] = b;
            i = i + 1;
        }
        assert(self.buf@ =~= old_buf.subrange(0, begin as int) + data@ + old_buf.skip(
            begin + data@.len(),
        ));
        let was_have: bool = self.have[j];
        self.have[j] = true;
        if !was_have {
            proof {
                lemma_blocks_sum(self.piece_size as int, self.n_blocks as int);
                lemma_received_missing(
                    old(self).spec_have(),
                    self.piece_size as int,
                    self.n_blocks as int,
                    j as int,
                );
            }
            self.received = self.received + expected;
        }
        proof {
            lemma_received_update(
                old(self).spec_have(),
                self.piece_size as int,
                self.n_blocks as int,
                j as int,
            );
            if was_have {
                assert(self.have@ =~= old(self).spec_have());
            }
        }
        Ok(())
    }

    /// Whether every block of the piece has arrived. The received count
    /// reaches the piece size exactly when every block is in.
    pub fn complete(&self) -> (r: bool)
        requires
            self.wf(),
        ensures
            r == (self.spec_received() == self.spec_piece_size()),
            r == (forall|j: int|
                0 <= j < spec_n_blocks(self.spec_piece_size()) ==> self.spec_have()[j]),
    {
        proof {
            lemma_received_complete(
                self.spec_have(),
                self.spec_piece_size(),
                spec_n_blocks(self.spec_piece_size()),
            );
        }
        self.received == self.piece_size
    }

    /// The assembled bytes.
    pub fn bytes(&self) -> (r: &Vec<u8>)
        ensures
            r@ == self.spec_buf(),
    {
        &self.buf
    }

    /// How many bytes have been received, duplicates counted once.
    pub fn received(&self) -> (r: usize)
        ensures
            r == self.spec_received(),
    {
        self.received
    }
}

/// With no block arrived, nothing is received.
proof fn lemma_received_all_false(have: Seq<bool>, piece_size: int, k: int)
    requires
        forall|j: int| 0 <= j < have.len() ==> !have[j],
        k <= have.len(),
    ensures
        spec_received_upto(have, piece_size, k) == 0,
    decreases k,
{
    if k > 0 {
        lemma_received_all_false(have, piece_size, k - 1);
    }
}

/// Marking one block changes the received sum by that block's size, or not
/// at all if it was already marked.
proof fn lemma_received_update(have: Seq<bool>, piece_size: int, k: int, j: int)
    requires
        0 <= j < have.len(),
        k <= have.len(),
    ensures
        spec_received_upto(have.update(j, true), piece_size, k) == spec_received_upto(
            have,
            piece_size,
            k,
        ) + if j < k && !have[j] {
            spec_block_size(piece_size, j)
        } else {
            0
        },
    decreases k,
{
    if k > 0 {
        lemma_received_update(have, piece_size, k - 1, j);
    }
}

/// The received sum of `k` blocks never exceeds the summed size of those
/// blocks, and reaches it exactly when each of them has arrived.
proof fn lemma_received_complete(have: Seq<bool>, piece_size: int, k: int)
    requires
        1 <= piece_size,
        k == spec_n_blocks(piece_size),
        have.len() == k,
    ensures
        spec_received_upto(have, piece_size, k) == piece_size <==> (forall|j: int|
            0 <= j < k ==> have[j]),
        spec_received_upto(have, piece_size, k) <= piece_size,
{
    lemma_blocks_sum(piece_size, k);
    lemma_received_le(have, piece_size, k);
    if forall|j: int| 0 <= j < k ==> have[j] {
        lemma_received_full(have, piece_size, k);
    } else {
        let w = choose|j: int| 0 <= j < k && !have[j];
        lemma_received_missing(have, piece_size, k, w);
        lemma_block_bounds(piece_size, w);
    }
}

/// The summed size of blocks `0 .. k`.
spec fn spec_blocks_sum(piece_size: int, k: int) -> int
    decreases k,
{
    if k <= 0 {
        0
    } else {
        spec_blocks_sum(piece_size, k - 1) + spec_block_size(piece_size, k - 1)
    }
}

/// The block sizes sum to the piece size.
proof fn lemma_blocks_sum(piece_size: int, k: int)
    requires
        1 <= piece_size,
        k == spec_n_blocks(piece_size),
    ensures
        spec_blocks_sum(piece_size, k) == piece_size,
{
    lemma_block_bounds(piece_size, 0);
    lemma_blocks_sum_full(piece_size, k - 1, k);
    assert(spec_block_size(piece_size, k - 1) == piece_size - (k - 1) * BLOCK_SIZE);
}

proof fn lemma_blocks_sum_full(piece_size: int, m: int, k: int)
    requires
        1 <= piece_size,
        k == spec_n_blocks(piece_size),
        m <= k - 1,
    ensures
        m >= 0 ==> spec_blocks_sum(piece_size, m) == m * BLOCK_SIZE,
    decreases m,
{
    if m > 0 {
        lemma_blocks_sum_full(piece_size, m - 1, k);
        assert(m * BLOCK_SIZE == (m - 1) * BLOCK_SIZE + BLOCK_SIZE) by (nonlinear_arith);
    } else {
        assert(m == 0 ==> m * BLOCK_SIZE == 0) by (nonlinear_arith);
    }
}

proof fn lemma_received_le(have: Seq<bool>, piece_size: int, k: int)
    requires
        1 <= piece_size,
        k <= spec_n_blocks(piece_size),
        k <= have.len(),
    ensures
        spec_received_upto(have, piece_size, k) <= spec_blocks_sum(piece_size, k),
    decreases k,
{
    if k > 0 {
        lemma_received_le(have, piece_size, k - 1);
        lemma_block_bounds(piece_size, k - 1);
    }
}

proof fn lemma_received_full(have: Seq<bool>, piece_size: int, k: int)
    requires
        forall|j: int| 0 <= j < k && j < have.len() ==> have[j],
        k <= have.len(),
    ensures
        spec_received_upto(have, piece_size, k) == spec_blocks_sum(piece_size, k),
    decreases k,
{
    if k > 0 {
        lemma_received_full(have, piece_size, k - 1);
    }
}

proof fn lemma_received_missing(have: Seq<bool>, piece_size: int, k: int, w: int)
    requires
        1 <= piece_size,
        k <= spec_n_blocks(piece_size),
        k <= have.len(),
        0 <= w < k,
        !have[w],
    ensures
        spec_received_upto(have, piece_size, k) <= spec_blocks_sum(piece_size, k)
            - spec_block_size(piece_size, w),
    decreases k,
{
    if w == k - 1 {
        lemma_received_le(have, piece_size, k - 1);
    } else {
        lemma_received_missing(have, piece_size, k - 1, w);
        lemma_block_bounds(piece_size, k - 1);
    }
}

} // verus!
