//! The packed set of piece indices a peer advertises, byte-compatible with
//! the wire: most significant bit first within each byte.

use vstd::prelude::*;
use crate::bits::{
    bits_has, bits_ones_upto, bits_set, bits_zeros_upto, lemma_enumeration_exact, spec_bit,
    spec_ones_upto, spec_zeros_upto,
};

verus! {

/// The fault a bit operation can report: the index lies outside the set's
/// index space.
#[derive(Clone, Copy, Debug, PartialEq, Eq, Structural)]
pub enum BitRangeError {
    OutOfRange,
}

/// A bit set over the index space `[0, n_bits)`, packed big-endian.
#[derive(Clone, Debug)]
pub struct Bitfield {
    bytes: Vec<u8>,
    n_bits: usize,
}

impl Bitfield {
    pub closed spec fn spec_bytes(&self) -> Seq<u8> {
        self.bytes@
    }

    pub closed spec fn spec_n_bits(&self) -> int {
        self.n_bits as int
    }

    /// Whether bit `i` is set.
    pub open spec fn spec_has(&self, i: int) -> bool {
        spec_bit(self.spec_bytes(), i)
    }

    /// The byte storage covers the index space, and its bit count fits the
    /// machine.
    pub open spec fn wf(&self) -> bool {
        self.spec_n_bits() <= 8 * self.spec_bytes().len() && 8 * self.spec_bytes().len()
            <= usize::MAX
    }

    /// An empty set of capacity `n_bits`, stored in `ceil(n_bits / 8)` bytes.
    pub fn new(n_bits: usize) -> (r: Bitfield)
        requires
            n_bits <= usize::MAX - 7,
        ensures
            r.wf(),
            r.spec_n_bits() == n_bits,
            r.spec_bytes().len() == (n_bits + 7) / 8,
            forall|i: int| !r.spec_has(i),
    {
        let len: usize = (n_bits + 7) / 8;
        let bytes: Vec<u8> = vec![0u8; len];
        let r = Bitfield { bytes, n_bits };
        proof {
            assert(8 * ((n_bits + 7) / 8) <= n_bits + 7);
            assert forall|i: int| !r.spec_has(i) by {
                if 0 <= i && i / 8 < r.spec_bytes().len() {
                    crate::bits::lemma_zero_and(0x80u8 >> ((i % 8) as u8));
                }
            }
        }
        r
    }

    /// Adopt raw bytes as they came off the wire. No index space is
    /// declared, so only the byte-backed reads — `has` and `set_bits` —
    /// see the bits.
    pub fn from_vec(data: Vec<u8>) -> (r: Bitfield)
        requires
            data@.len() <= usize::MAX / 8,
        ensures
            r.wf(),
            r.spec_n_bits() == 0,
            r.spec_bytes() == data@,
    {
        Bitfield { bytes: data, n_bits: 0 }
    }

    /// Adopt a Bitfield message's payload for a torrent of `n_bits` pieces;
    /// a payload of any other length than `ceil(n_bits / 8)` is refused.
    pub fn from_payload(data: Vec<u8>, n_bits: usize) -> (r: Option<Bitfield>)
        requires
            n_bits <= usize::MAX - 7,
        ensures
            match r {
                Some(bf) => data@.len() == (n_bits + 7) / 8 && bf.wf() && bf.spec_n_bits()
                    == n_bits && bf.spec_bytes() == data@,
                None => data@.len() != (n_bits + 7) / 8,
            },
    {
        let len: usize = (n_bits + 7) / 8;
        if data.len() != len {
            return None;
        }
        proof {
            assert(8 * ((n_bits + 7) / 8) <= n_bits + 7);
        }
        Some(Bitfield { bytes: data, n_bits })
    }

    /// Set bit `index`, or report that it lies outside the index space.
    pub fn set(&mut self, index: usize) -> (r: Result<(), BitRangeError>)
        requires
            old(self).wf(),
        ensures
            final(self).wf(),
            final(self).spec_n_bits() == old(self).spec_n_bits(),
            match r {
                Ok(()) => index < old(self).spec_n_bits() && forall|j: int|
                    final(self).spec_has(j) == (j == index || old(self).spec_has(j)),
                Err(e) => e == BitRangeError::OutOfRange && index >= old(self).spec_n_bits()
                    && *final(self) == *old(self),
            },
    {
        if index >= self.n_bits {
            return Err(BitRangeError::OutOfRange);
        }
        bits_set(&mut self.bytes, index);
        Ok(())
    }

    /// Whether bit `index` is set; out-of-range indices read as unset.
    pub fn has(&self, index: usize) -> (r: bool)
        ensures
            r == self.spec_has(index as int),
    {
        bits_has(&self.bytes, index)
    }

    /// The indices of the set bits, ascending, over the whole byte storage.
    pub fn set_bits(&self) -> (r: Vec<usize>)
        requires
            self.wf(),
        ensures
            r@ == spec_ones_upto(self.spec_bytes(), 8 * self.spec_bytes().len() as int),
            forall|a: int, b: int| 0 <= a < b < r@.len() ==> r@[a] < r@[b],
            forall|k: int|
                0 <= k < r@.len() ==> self.spec_has(#[trigger] r@[k] as int),
            forall|i: int|
                0 <= i < 8 * self.spec_bytes().len() && self.spec_has(i) ==> r@.contains(
                    i as usize,
                ),
    {
        let n: usize = 8 * self.bytes.len();
        let r = bits_ones_upto(&self.bytes, n);
        proof {
            lemma_enumeration_exact(self.spec_bytes(), n as int);
        }
        r
    }

    /// The indices of the unset bits below `n_bits`, ascending; the pad bits
    /// of the last byte are not reported.
    pub fn unset_bits(&self) -> (r: Vec<usize>)
        requires
            self.wf(),
        ensures
            r@ == spec_zeros_upto(self.spec_bytes(), self.spec_n_bits()),
            forall|a: int, b: int| 0 <= a < b < r@.len() ==> r@[a] < r@[b],
            forall|k: int|
                0 <= k < r@.len() ==> r@[k] < self.spec_n_bits() && !self.spec_has(
                    #[trigger] r@[k] as int,
                ),
            forall|i: int|
                0 <= i < self.spec_n_bits() && !self.spec_has(i) ==> r@.contains(i as usize),
    {
        let r = bits_zeros_upto(&self.bytes, self.n_bits);
        proof {
            lemma_enumeration_exact(self.spec_bytes(), self.spec_n_bits());
        }
        r
    }
}

} // verus!
