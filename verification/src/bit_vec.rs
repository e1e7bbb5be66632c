//! A packed bit vector with set, unset and toggle, used to track which
//! pieces of a torrent have been finished; same layout as the wire bitfield.

use vstd::prelude::*;
use crate::bitfield::BitRangeError;
use crate::bits::{
    bits_has, bits_ones_upto, bits_set, bits_toggle, bits_unset, bits_zeros_upto,
    lemma_enumeration_exact, spec_bit, spec_ones_upto, spec_zeros_upto,
};

verus! {

/// A bit vector over the index space `[0, n_bits)`, packed big-endian.
#[derive(Clone, Debug)]
pub struct BitVec {
    bytes: Vec<u8>,
    n_bits: usize,
}

impl BitVec {
    pub closed spec fn spec_bytes(&self) -> Seq<u8> {
        self.bytes@
    }

    pub closed spec fn spec_n_bits(&self) -> int {
        self.n_bits as int
    }

    /// Whether bit `i` is set.
    pub open spec fn spec_has(&self, i: int) -> bool {
        spec_bit(self.spec_bytes(), i)
    }

    /// The byte storage covers the index space, and its bit count fits the
    /// machine.
    pub open spec fn wf(&self) -> bool {
        self.spec_n_bits() <= 8 * self.spec_bytes().len() && 8 * self.spec_bytes().len()
            <= usize::MAX
    }

    /// An empty vector of capacity `n_bits`, stored in `ceil(n_bits / 8)`
    /// bytes.
    pub fn new(n_bits: usize) -> (r: BitVec)
        requires
            n_bits <= usize::MAX - 7,
        ensures
            r.wf(),
            r.spec_n_bits() == n_bits,
            r.spec_bytes().len() == (n_bits + 7) / 8,
            forall|i: int| !r.spec_has(i),
    {
        let len: usize = (n_bits + 7) / 8;
        let bytes: Vec<u8> = vec![0u8; len];
        let r = BitVec { bytes, n_bits };
        proof {
            assert(8 * ((n_bits + 7) / 8) <= n_bits + 7);
            assert forall|i: int| !r.spec_has(i) by {
                if 0 <= i && i / 8 < r.spec_bytes().len() {
                    crate::bits::lemma_zero_and(0x80u8 >> ((i % 8) as u8));
                }
            }
        }
        r
    }

    /// Adopt raw bytes. No index space is declared, so only the
    /// byte-backed reads — `has` and `ones` — see the bits.
    pub fn from_vec(data: Vec<u8>) -> (r: BitVec)
        requires
            data@.len() <= usize::MAX / 8,
        ensures
            r.wf(),
            r.spec_n_bits() == 0,
            r.spec_bytes() == data@,
    {
        BitVec { bytes: data, n_bits: 0 }
    }

    /// Adopt stored bytes together with their index space; byte storage
    /// too short for the index space is refused.
    pub fn from_parts(data: Vec<u8>, n_bits: usize) -> (r: Option<BitVec>)
        requires
            n_bits <= usize::MAX - 7,
            data@.len() <= usize::MAX / 8,
        ensures
            match r {
                Some(bv) => n_bits <= 8 * data@.len() && bv.wf() && bv.spec_n_bits() == n_bits
                    && bv.spec_bytes() == data@,
                None => n_bits > 8 * data@.len(),
            },
    {
        proof {
            vstd::arithmetic::div_mod::lemma_fundamental_div_mod((n_bits + 7) as int, 8);
            vstd::arithmetic::div_mod::lemma_mod_bound((n_bits + 7) as int, 8);
        }
        let ceil: usize = (n_bits + 7) / 8;
        if data.len() < ceil {
            return None;
        }
        Some(BitVec { bytes: data, n_bits })
    }

    /// Set bit `index`, or report that it lies outside the index space.
    pub fn set(&mut self, index: usize) -> (r: Result<(), BitRangeError>)
        requires
            old(self).wf(),
        ensures
            final(self).wf(),
            final(self).spec_n_bits() == old(self).spec_n_bits(),
            match r {
                Ok(()) => index < old(self).spec_n_bits() && forall|j: int|
                    final(self).spec_has(j) == (j == index || old(self).spec_has(j)),
                Err(e) => e == BitRangeError::OutOfRange && index >= old(self).spec_n_bits()
                    && *final(self) == *old(self),
            },
    {
        if index >= self.n_bits {
            return Err(BitRangeError::OutOfRange);
        }
        bits_set(&mut self.bytes, index);
        Ok(())
    }

    /// Clear bit `index`, or report that it lies outside the index space.
    pub fn unset(&mut self, index: usize) -> (r: Result<(), BitRangeError>)
        requires
            old(self).wf(),
        ensures
            final(self).wf(),
            final(self).spec_n_bits() == old(self).spec_n_bits(),
            match r {
                Ok(()) => index < old(self).spec_n_bits() && forall|j: int|
                    final(self).spec_has(j) == (j != index && old(self).spec_has(j)),
                Err(e) => e == BitRangeError::OutOfRange && index >= old(self).spec_n_bits()
                    && *final(self) == *old(self),
            },
    {
        if index >= self.n_bits {
            return Err(BitRangeError::OutOfRange);
        }
        bits_unset(&mut self.bytes, index);
        Ok(())
    }

    /// Flip bit `index`, or report that it lies outside the index space.
    pub fn toggle(&mut self, index: usize) -> (r: Result<(), BitRangeError>)
        requires
            old(self).wf(),
        ensures
            final(self).wf(),
            final(self).spec_n_bits() == old(self).spec_n_bits(),
            match r {
                Ok(()) => index < old(self).spec_n_bits() && final(self).spec_has(index as int)
                    == !old(self).spec_has(index as int) && forall|j: int|
                    j != index ==> final(self).spec_has(j) == old(self).spec_has(j),
                Err(e) => e == BitRangeError::OutOfRange && index >= old(self).spec_n_bits()
                    && *final(self) == *old(self),
            },
    {
        if index >= self.n_bits {
            return Err(BitRangeError::OutOfRange);
        }
        bits_toggle(&mut self.bytes, index);
        Ok(())
    }

    /// Whether bit `index` is set; out-of-range indices read as unset.
    pub fn has(&self, index: usize) -> (r: bool)
        ensures
            r == self.spec_has(index as int),
    {
        bits_has(&self.bytes, index)
    }

    /// The indices of the set bits, ascending, over the whole byte storage.
    pub fn ones(&self) -> (r: Vec<usize>)
        requires
            self.wf(),
        ensures
            r@ == spec_ones_upto(self.spec_bytes(), 8 * self.spec_bytes().len() as int),
            forall|a: int, b: int| 0 <= a < b < r@.len() ==> r@[a] < r@[b],
            forall|k: int| 0 <= k < r@.len() ==> self.spec_has(#[trigger] r@[k] as int),
            forall|i: int|
                0 <= i < 8 * self.spec_bytes().len() && self.spec_has(i) ==> r@.contains(
                    i as usize,
                ),
    {
        let n: usize = 8 * self.bytes.len();
        let r = bits_ones_upto(&self.bytes, n);
        proof {
            lemma_enumeration_exact(self.spec_bytes(), n as int);
        }
        r
    }

    /// The indices of the unset bits below `n_bits`, ascending; the pad bits
    /// of the last byte are not reported.
    pub fn zeros(&self) -> (r: Vec<usize>)
        requires
            self.wf(),
        ensures
            r@ == spec_zeros_upto(self.spec_bytes(), self.spec_n_bits()),
            forall|a: int, b: int| 0 <= a < b < r@.len() ==> r@[a] < r@[b],
            forall|k: int|
                0 <= k < r@.len() ==> r@[k] < self.spec_n_bits() && !self.spec_has(
                    #[trigger] r@[k] as int,
                ),
            forall|i: int|
                0 <= i < self.spec_n_bits() && !self.spec_has(i) ==> r@.contains(i as usize),
    {
        let r = bits_zeros_upto(&self.bytes, self.n_bits);
        proof {
            lemma_enumeration_exact(self.spec_bytes(), self.spec_n_bits());
        }
        r
    }

    /// Whether every bit of the index space is set.
    pub fn is_full(&self) -> (r: bool)
        requires
            self.wf(),
        ensures
            r == (forall|i: int| 0 <= i < self.spec_n_bits() ==> self.spec_has(i)),
    {
        let z = self.zeros();
        proof {
            lemma_enumeration_exact(self.spec_bytes(), self.spec_n_bits());
            if spec_zeros_upto(self.spec_bytes(), self.spec_n_bits()).len() == 0 {
                assert forall|i: int|
                    0 <= i < self.spec_n_bits() implies self.spec_has(i) by {
                    if !self.spec_has(i) {
                        assert(spec_zeros_upto(self.spec_bytes(), self.spec_n_bits()).contains(
                            i as usize,
                        ));
                    }
                }
            } else {
                let w = spec_zeros_upto(self.spec_bytes(), self.spec_n_bits())[0];
                assert(!self.spec_has(w as int) && w < self.spec_n_bits());
            }
        }
        z.len() == 0
    }
}

} // verus!
