//! Packed big-endian bit storage: bit `i` of a byte string lives in byte
//! `i / 8` under the mask `0x80 >> (i % 8)`. Both bit-set types of the
//! crate share these definitions and helpers.

use vstd::prelude::*;

verus! {

/// Whether bit `i` is set in `bytes`; bits past the last byte read as unset.
pub open spec fn spec_bit(bytes: Seq<u8>, i: int) -> bool {
    &&& 0 <= i
    &&& i / 8 < bytes.len()
    &&& bytes[i / 8] & (0x80u8 >> ((i % 8) as u8)) != 0
}

/// The indices of the set bits among `[0, n)`, in ascending order.
pub open spec fn spec_ones_upto(bytes: Seq<u8>, n: int) -> Seq<usize>
    decreases n,
{
    if n <= 0 {
        seq![]
    } else if spec_bit(bytes, n - 1) {
        spec_ones_upto(bytes, n - 1) + seq![(n - 1) as usize]
    } else {
        spec_ones_upto(bytes, n - 1)
    }
}

/// The indices of the unset bits among `[0, n)`, in ascending order.
pub open spec fn spec_zeros_upto(bytes: Seq<u8>, n: int) -> Seq<usize>
    decreases n,
{
    if n <= 0 {
        seq![]
    } else if !spec_bit(bytes, n - 1) {
        spec_zeros_upto(bytes, n - 1) + seq![(n - 1) as usize]
    } else {
        spec_zeros_upto(bytes, n - 1)
    }
}

pub proof fn lemma_zero_and(m: u8)
    by (bit_vector)
    ensures
        0u8 & m == 0,
{
}

proof fn lemma_or_mask(b: u8, k: u8, j: u8)
    by (bit_vector)
    requires
        k < 8,
        j < 8,
    ensures
        ((b | (0x80u8 >> k)) & (0x80u8 >> j) != 0) == (j == k || (b & (0x80u8 >> j) != 0)),
{
}

proof fn lemma_and_not_mask(b: u8, k: u8, j: u8)
    by (bit_vector)
    requires
        k < 8,
        j < 8,
    ensures
        ((b & !(0x80u8 >> k)) & (0x80u8 >> j) != 0) == (j != k && (b & (0x80u8 >> j) != 0)),
{
}

proof fn lemma_xor_mask(b: u8, k: u8, j: u8)
    by (bit_vector)
    requires
        k < 8,
        j < 8,
    ensures
        j == k ==> ((b ^ (0x80u8 >> k)) & (0x80u8 >> j) != 0) == !(b & (0x80u8 >> j) != 0),
        j != k ==> ((b ^ (0x80u8 >> k)) & (0x80u8 >> j) != 0) == (b & (0x80u8 >> j) != 0),
{
}

/// Set bit `index` and leave every other bit as it was.
pub fn bits_set(bytes: &mut Vec<u8>, index: usize)
    requires
        index / 8 < old(bytes)@.len(),
    ensures
        final(bytes)@.len() == old(bytes)@.len(),
        forall|j: int| spec_bit(final(bytes)@, j) == (j == index || spec_bit(old(bytes)@, j)),
{
    let byte_i: usize = index / 8;
    let bit_i: u8 = (index % 8) as u8;
    let updated: u8 = bytes[byte_i] | (0x80u8 >> bit_i);
    bytes[byte_i] = updated;
    proof {
        assert forall|j: int|
            spec_bit(bytes@, j) == (j == index || spec_bit(old(bytes)@, j)) by {
            if 0 <= j && j / 8 < bytes@.len() {
                if j / 8 == index as int / 8 {
                    lemma_or_mask(old(bytes)@[j / 8], (index as int % 8) as u8, (j % 8) as u8);
                }
            }
        }
    }
}

/// Clear bit `index` and leave every other bit as it was.
pub fn bits_unset(bytes: &mut Vec<u8>, index: usize)
    requires
        index / 8 < old(bytes)@.len(),
    ensures
        final(bytes)@.len() == old(bytes)@.len(),
        forall|j: int| spec_bit(final(bytes)@, j) == (j != index && spec_bit(old(bytes)@, j)),
{
    let byte_i: usize = index / 8;
    let bit_i: u8 = (index % 8) as u8;
    let updated: u8 = bytes[byte_i] & !(0x80u8 >> bit_i);
    bytes[byte_i] = updated;
    proof {
        assert forall|j: int|
            spec_bit(bytes@, j) == (j != index && spec_bit(old(bytes)@, j)) by {
            if 0 <= j && j / 8 < bytes@.len() {
                if j / 8 == index as int / 8 {
                    lemma_and_not_mask(old(bytes)@[j / 8], (index as int % 8) as u8, (j % 8) as u8);
                }
            }
        }
    }
}

/// Flip bit `index` and leave every other bit as it was.
pub fn bits_toggle(bytes: &mut Vec<u8>, index: usize)
    requires
        index / 8 < old(bytes)@.len(),
    ensures
        final(bytes)@.len() == old(bytes)@.len(),
        spec_bit(final(bytes)@, index as int) == !spec_bit(old(bytes)@, index as int),
        forall|j: int|
            j != index ==> spec_bit(final(bytes)@, j) == spec_bit(old(bytes)@, j),
{
    let byte_i: usize = index / 8;
    let bit_i: u8 = (index % 8) as u8;
    let updated: u8 = bytes[byte_i] ^ (0x80u8 >> bit_i);
    bytes[byte_i] = updated;
    proof {
        lemma_xor_mask(old(bytes)@[index as int / 8], (index as int % 8) as u8, (index as int % 8) as u8);
        assert forall|j: int|
            j != index implies spec_bit(bytes@, j) == spec_bit(old(bytes)@, j) by {
            if 0 <= j && j / 8 < bytes@.len() {
                if j / 8 == index as int / 8 {
                    lemma_xor_mask(old(bytes)@[j / 8], (index as int % 8) as u8, (j % 8) as u8);
                }
            }
        }
    }
}

/// Whether bit `index` is set; indices past the last byte read as unset.
pub fn bits_has(bytes: &Vec<u8>, index: usize) -> (r: bool)
    ensures
        r == spec_bit(bytes@, index as int),
{
    let byte_i: usize = index / 8;
    if byte_i >= bytes.len() {
        return false;
    }
    let bit_i: u8 = (index % 8) as u8;
    bytes[byte_i] & (0x80u8 >> bit_i) != 0
}

/// The set bits among `[0, n)`, ascending.
pub fn bits_ones_upto(bytes: &Vec<u8>, n: usize) -> (r: Vec<usize>)
    requires
        n <= 8 * bytes@.len(),
    ensures
        r@ == spec_ones_upto(bytes@, n as int),
{
    let mut out: Vec<usize> = Vec::new();
    let mut i: usize = 0;
    while i < n
        invariant
            i <= n <= 8 * bytes@.len(),
            out@ == spec_ones_upto(bytes@, i as int),
        decreases n - i,
    {
        if bits_has(bytes, i) {
            out.push(i);
        }
        assert(out@ =~= spec_ones_upto(bytes@, i + 1));
        i = i + 1;
    }
    out
}

/// The unset bits among `[0, n)`, ascending.
pub fn bits_zeros_upto(bytes: &Vec<u8>, n: usize) -> (r: Vec<usize>)
    requires
        n <= 8 * bytes@.len(),
    ensures
        r@ == spec_zeros_upto(bytes@, n as int),
{
    let mut out: Vec<usize> = Vec::new();
    let mut i: usize = 0;
    while i < n
        invariant
            i <= n <= 8 * bytes@.len(),
            out@ == spec_zeros_upto(bytes@, i as int),
        decreases n - i,
    {
        if !bits_has(bytes, i) {
            out.push(i);
        }
        assert(out@ =~= spec_zeros_upto(bytes@, i + 1));
        i = i + 1;
    }
    out
}

/// Bit-set enumeration is faithful: the ascending list of set bits among
/// `[0, n)` contains an index exactly when that bit is set, every entry
/// lies in `[0, n)`, and entries strictly ascend (so none repeats). The
/// unset-bit list enumerates the complement the same way.
pub proof fn lemma_enumeration_exact(bytes: Seq<u8>, n: int)
    requires
        n <= usize::MAX,
    ensures
        forall|a: int, b: int|
            0 <= a < b < spec_ones_upto(bytes, n).len() ==> spec_ones_upto(bytes, n)[a]
                < spec_ones_upto(bytes, n)[b],
        forall|k: int|
            0 <= k < spec_ones_upto(bytes, n).len() ==> 0 <= #[trigger] spec_ones_upto(bytes, n)[k]
                < n && spec_bit(bytes, spec_ones_upto(bytes, n)[k] as int),
        forall|i: int|
            0 <= i < n && spec_bit(bytes, i) ==> spec_ones_upto(bytes, n).contains(i as usize),
        forall|a: int, b: int|
            0 <= a < b < spec_zeros_upto(bytes, n).len() ==> spec_zeros_upto(bytes, n)[a]
                < spec_zeros_upto(bytes, n)[b],
        forall|k: int|
            0 <= k < spec_zeros_upto(bytes, n).len() ==> 0 <= #[trigger] spec_zeros_upto(
                bytes,
                n,
            )[k] < n && !spec_bit(bytes, spec_zeros_upto(bytes, n)[k] as int),
        forall|i: int|
            0 <= i < n && !spec_bit(bytes, i) ==> spec_zeros_upto(bytes, n).contains(i as usize),
    decreases n,
{
    if n > 0 {
        lemma_enumeration_exact(bytes, n - 1);
        let ones_prev = spec_ones_upto(bytes, n - 1);
        let ones_cur = spec_ones_upto(bytes, n);
        assert forall|k: int|
            0 <= k < ones_cur.len() implies 0 <= ones_cur[k] < n && spec_bit(
            bytes,
            ones_cur[k] as int,
        ) by {
            if k < ones_prev.len() {
                assert(ones_cur[k] == ones_prev[k]);
            } else {
                assert(ones_cur[k] == (n - 1) as usize);
            }
        }
        assert forall|a: int, b: int|
            0 <= a < b < ones_cur.len() implies ones_cur[a] < ones_cur[b] by {
            if b < ones_prev.len() {
                assert(ones_cur[a] == ones_prev[a] && ones_cur[b] == ones_prev[b]);
            } else {
                assert(ones_cur[a] == ones_prev[a] && ones_prev[a] < n - 1);
                assert(ones_cur[b] == (n - 1) as usize);
            }
        }
        assert forall|i: int|
            0 <= i < n && spec_bit(bytes, i) implies ones_cur.contains(i as usize) by {
            if i < n - 1 {
                let k = choose|k: int| 0 <= k < ones_prev.len() && ones_prev[k] == i as usize;
                assert(ones_cur[k] == i as usize);
            } else {
                assert(ones_cur[ones_cur.len() - 1] == i as usize);
            }
        }
        let zeros_prev = spec_zeros_upto(bytes, n - 1);
        let zeros_cur = spec_zeros_upto(bytes, n);
        assert forall|k: int|
            0 <= k < zeros_cur.len() implies 0 <= zeros_cur[k] < n && !spec_bit(
            bytes,
            zeros_cur[k] as int,
        ) by {
            if k < zeros_prev.len() {
                assert(zeros_cur[k] == zeros_prev[k]);
            } else {
                assert(zeros_cur[k] == (n - 1) as usize);
            }
        }
        assert forall|a: int, b: int|
            0 <= a < b < zeros_cur.len() implies zeros_cur[a] < zeros_cur[b] by {
            if b < zeros_prev.len() {
                assert(zeros_cur[a] == zeros_prev[a] && zeros_cur[b] == zeros_prev[b]);
            } else {
                assert(zeros_cur[a] == zeros_prev[a] && zeros_prev[a] < n - 1);
                assert(zeros_cur[b] == (n - 1) as usize);
            }
        }
        assert forall|i: int|
            0 <= i < n && !spec_bit(bytes, i) implies zeros_cur.contains(i as usize) by {
            if i < n - 1 {
                let k = choose|k: int| 0 <= k < zeros_prev.len() && zeros_prev[k] == i as usize;
                assert(zeros_cur[k] == i as usize);
            } else {
                assert(zeros_cur[zeros_cur.len() - 1] == i as usize);
            }
        }
    }
}

} // verus!
