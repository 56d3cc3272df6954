//! Piece integrity: the SHA-1 digest (through the `sha1` crate) and the
//! verified comparison of a downloaded piece against its expected digest.

use vstd::prelude::*;

verus! {

/// The 20-byte SHA-1 digest of a byte sequence. The digest is a function of
/// the input bytes alone.
pub uninterp spec fn spec_sha1(data: Seq<u8>) -> Seq<u8>;

/// Relies on sha1::Sha1 (via the Digest trait): the SHA-1 digest, 20 bytes,
/// a function of the input bytes alone.
#[verifier::external_body]
pub(crate) fn sha1_digest(data: &Vec<u8>) -> (r: Vec<u8>)
    ensures
        r@ == spec_sha1(data@),
        r@.len() == 20,
{
    let mut hasher = <sha1::Sha1 as sha1::Digest>::new();
    sha1::Digest::update(&mut hasher, data.as_slice());
    sha1::Digest::finalize(hasher).as_slice().to_vec()
}

/// Whether two byte vectors hold the same bytes.
pub fn bytes_eq(a: &Vec<u8>, b: &Vec<u8>) -> (r: bool)
    ensures
        r == (a@ == b@),
{
    if a.len() != b.len() {
        assert(a@ !~= b@);
        return false;
    }
    let mut i: usize = 0;
    while i < a.len()
        invariant
            i <= a@.len(),
            a@.len() == b@.len(),
            forall|j: int| 0 <= j < i ==> a@[j] == b@[j],
        decreases a@.len() - i,
    {
        if a[i] != b[i] {
            return false;
        }
        i = i + 1;
    }
    assert(a@ =~= b@);
    true
}

/// Stateless integrity check: true exactly when the SHA-1 digest of `data`
/// equals the 20-byte expected digest.
pub fn verify_piece(data: &Vec<u8>, expected: &Vec<u8>) -> (r: bool)
    ensures
        r == (spec_sha1(data@) == expected@),
{
    let digest = sha1_digest(data);
    bytes_eq(&digest, expected)
}

} // verus!
