//! SHA-256.
use sha2::Digest;
use vstd::prelude::*;
use vstd::string::StringSliceAdditionalSpecFns;

verus! {

/// The SHA-256 digest of a byte string.
pub uninterp spec fn sha256_digest(data: Seq<u8>) -> Seq<u8>;

/// `sha2::Sha256::digest`: the 32-byte digest of the data, which is a function of the data alone.
/// The data is shorter than the longest message that SHA-256 takes.
#[verifier::external_body]
pub(crate) fn sha256(data: &[u8]) -> (digest: [u8; 32])
    requires
        data@.len() < 0x1000_0000_0000_0000,
    ensures
        digest@ == sha256_digest(data@),
{
    sha2::Sha256::digest(data).into()
}

/// The bytes of a text tag.
pub open spec fn tag(text: &str) -> Seq<u8> {
    text.spec_bytes()
}

/// The bytes of a text tag, in a vector of their own.
pub fn tag_bytes(text: &str) -> (bytes: Vec<u8>)
    ensures
        bytes@ == tag(text),
{
    text.as_bytes_vec()
}

} // verus!
