//! SHA-1, as the `sha1` crate computes it.

use vstd::prelude::*;

verus! {

/// The SHA-1 digest of a byte string: the 20 bytes that `sha1::Sha1` computes
/// for it.
pub uninterp spec fn sha1(data: Seq<u8>) -> Seq<u8>;

/// Calls `<sha1::Sha1 as sha1::Digest>::digest`, which hashes `data` in one go.
/// Trusted: the result is the SHA-1 digest of exactly these bytes, and
/// depends on nothing else.
#[verifier::external_body]
pub(crate) fn sha1_digest(data: &[u8]) -> (digest: [u8; 20])
    ensures
        digest@ == sha1(data@),
{
    <sha1::Sha1 as sha1::Digest>::digest(data).into()
}

/// Tells whether two 20-byte hashes are the same.
pub fn hashes_equal(a: &[u8; 20], b: &[u8; 20]) -> (same: bool)
    ensures
        same == (a@ == b@),
{
    let mut i: usize = 0;
    while i < 20
        invariant
            i <= 20,
            forall|k: int| 0 <= k < i ==> a@[k] == b@[k],
        decreases 20 - i,
    {
        if a[i] != b[i] {
            return false;
        }
        i += 1;
    }
    assert(a@ =~= b@);
    true
}

} // verus!
