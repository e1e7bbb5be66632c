//! The one cryptographic primitive the client needs: SHA-1, as computed by
//! the outside implementation. The digest's value is given a name and
//! nothing more: every judgement the library makes about it is a comparison
//! between two digests of that name.

use vstd::prelude::*;
use sha1::Digest;

verus! {

/// The 20-byte SHA-1 digest of `data`; a function of the bytes alone.
pub uninterp spec fn sha1_of(data: Seq<u8>) -> Seq<u8>;

/// Relies on the RustCrypto `sha1` crate's `Digest::digest`: the digest is
/// 20 bytes and depends on the input bytes alone.
#[verifier::external_body]
pub(crate) fn sha1_digest(data: &Vec<u8>) -> (r: [u8; 20])
    ensures
        r@ == sha1_of(data@),
{
    let out: [u8; 20] = sha1::Sha1::digest(data.as_slice()).into();
    out
}

/// Whether two 20-byte digests are the same.
fn eq20(a: &[u8; 20], b: &[u8; 20]) -> (r: bool)
    ensures
        r == (a@ == b@),
{
    let mut i: usize = 0;
    let mut same: bool = true;
    while i < 20
        invariant
            i <= 20,
            same == (forall|j: int| 0 <= j < i ==> a@[j] == b@[j]),
        decreases 20 - i,
    {
        if a[i] != b[i] {
            same = false;
        }
        i = i + 1;
    }
    proof {
        if same {
            assert(a@ =~= b@);
        }
    }
    same
}

/// Whether `data` hashes to the expected digest. This is the only gate a
/// finished piece passes before its bytes may reach the output.
pub fn verify_digest(data: &Vec<u8>, expected: &[u8; 20]) -> (r: bool)
    ensures
        r == (sha1_of(data@) == expected@),
{
    let digest: [u8; 20] = sha1_digest(data);
    eq20(&digest, expected)
}

} // verus!
