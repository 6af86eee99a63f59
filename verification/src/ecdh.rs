//! Key agreement on Curve25519.
use rand::RngCore;
use vstd::prelude::*;

verus! {

/// The public key of an x25519 secret.
pub uninterp spec fn x25519_public(secret: Seq<u8>) -> Seq<u8>;

/// The secret that the holder of an x25519 secret shares with the holder of a public key.
pub uninterp spec fn x25519_shared(secret: Seq<u8>, public: Seq<u8>) -> Seq<u8>;

/// `x25519_dalek::PublicKey::from` on a `StaticSecret`: the 32 bytes of the public key, a function
/// of the secret alone. Whoever holds another secret agrees with this key on what the holder of
/// this secret agrees with theirs on.
#[verifier::external_body]
pub(crate) fn x25519_public_key(secret: [u8; 32]) -> (public: [u8; 32])
    ensures
        public@ == x25519_public(secret@),
        forall|other: Seq<u8>|
            other.len() == 32 ==> x25519_shared(other, public@) == x25519_shared(
                secret@,
                #[trigger] x25519_public(other),
            ),
{
    x25519_dalek::PublicKey::from(&x25519_dalek::StaticSecret::from(secret)).to_bytes()
}

/// `x25519_dalek::StaticSecret::diffie_hellman`: the 32 bytes of the shared secret, a function of
/// the secret and the public key alone.
#[verifier::external_body]
pub(crate) fn x25519_agree(secret: [u8; 32], public: [u8; 32]) -> (shared: [u8; 32])
    ensures
        shared@ == x25519_shared(secret@, public@),
{
    let their_public = x25519_dalek::PublicKey::from(public);
    x25519_dalek::StaticSecret::from(secret).diffie_hellman(&their_public).to_bytes()
}

/// `rand::RngCore::fill_bytes` of `rand::thread_rng`: 32 bytes drawn at random. Nothing is said of
/// them.
#[verifier::external_body]
pub(crate) fn random_bytes_32() -> (bytes: [u8; 32]) {
    let mut bytes = [0u8; 32];
    rand::thread_rng().fill_bytes(&mut bytes);
    bytes
}

} // verus!
