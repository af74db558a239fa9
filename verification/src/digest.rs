//! SHA-1 digests and comparison of byte strings.

use sha1::{Digest, Sha1};
use vstd::prelude::*;

verus! {

/// The length of a SHA-1 digest in bytes.
pub const DIGEST_LEN: usize = 20;

/// The SHA-1 digest of `data`.
pub uninterp spec fn sha1_digest(data: Seq<u8>) -> Seq<u8>;

/// Calls `sha1::Sha1::digest`, which hashes `data` from a fresh state. The
/// result is named by [`sha1_digest`] and has the hasher's output size. (The
/// hasher counts its input in bits in a `u64`; no process can hold a slice of
/// the length at which that count would end.)
#[verifier::external_body]
pub(crate) fn sha1(data: &[u8]) -> (res: Vec<u8>)
    ensures
        res@ == sha1_digest(data@),
        res@.len() == DIGEST_LEN,
{
    Sha1::digest(data).to_vec()
}

/// Whether the two byte strings are equal.
pub fn same_bytes(a: &[u8], b: &[u8]) -> (res: bool)
    ensures
        res == (a@ == b@),
{
    if a.len() != b.len() {
        return false;
    }
    let mut i: usize = 0;
    while i < a.len()
        invariant
            i <= a@.len(),
            a@.len() == b@.len(),
            forall|j: int| 0 <= j < i ==> a@[j] == b@[j],
        decreases a@.len() - i,
    {
        if a[i] != b[i] {
            return false;
        }
        i += 1;
    }
    assert(a@ =~= b@);
    true
}

} // verus!
