//! The digest over framed object bytes. The digest value is opaque to the
//! library: `sha1_of` names it, and every contract that mentions a hash
//! speaks through that name.

use sha1::{Digest, Sha1};
use vstd::prelude::*;

verus! {

/// The 160-bit digest of a byte sequence, as the hash function computes it.
/// A function of the bytes alone.
pub uninterp spec fn sha1_of(bytes: Seq<u8>) -> Seq<u8>;

/// Relies on `sha1::Sha1` (through the `Digest` trait): the digest is a
/// 20-byte value determined by the input bytes alone.
#[verifier::external_body]
pub(crate) fn create_hash(bytes: &[u8]) -> (r: Vec<u8>)
    ensures
        r@ == sha1_of(bytes@),
        r@.len() == 20,
{
    let mut hasher = Sha1::new();
    hasher.update(bytes);
    hasher.finalize().to_vec()
}

} // verus!
