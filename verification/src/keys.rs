//! Keys: one secret, and what is derived from it.
//!
//! The spending key authorises spends. The viewing key, the nullifier key and the public key are
//! hashes of it under different domain tags. A second chain of hashes gives an x25519 key pair for
//! the encryption of notes.
use vstd::prelude::*;

use crate::bytes::le_bytes;
use crate::ecdh::{x25519_public, x25519_public_key};
use crate::field::{lemma_modulus_fits, modulus, Fr};
use crate::poseidon::{collide, hash2, hash2_spec, lemma_hash2_fixes};
use crate::sha::{sha256, sha256_digest, tag, tag_bytes};

verus! {

/// Domain tag of the viewing key.
pub const DOMAIN_VIEWING_KEY: u64 = 0x7652756e655f766b;

/// Domain tag of the nullifier key.
pub const DOMAIN_NULLIFIER_KEY: u64 = 0x7052756e655f6e6b;

/// Domain tag of the public key.
pub const DOMAIN_PUBLIC_KEY: u64 = 0x7052756e655f706b;

/// The keys of one owner.
#[derive(Clone, Copy, Debug)]
pub struct KeySet {
    /// The master secret, which authorises any spend.
    pub spending_key: Fr,
    /// Lets its holder see balances without being able to spend.
    pub viewing_key: Fr,
    /// Derives the nullifiers of spent notes.
    pub nullifier_key: Fr,
    /// The address that notes are sent to.
    pub public_key: Fr,
}

/// The viewing key of a spending key.
pub open spec fn viewing_key_spec(sk: nat) -> nat {
    hash2_spec(sk, DOMAIN_VIEWING_KEY as nat)
}

/// The nullifier key of a spending key.
pub open spec fn nullifier_key_spec(sk: nat) -> nat {
    hash2_spec(sk, DOMAIN_NULLIFIER_KEY as nat)
}

/// The public key of a spending key.
pub open spec fn public_key_spec(sk: nat) -> nat {
    hash2_spec(sk, DOMAIN_PUBLIC_KEY as nat)
}

/// The x25519 secret of a spending key.
pub open spec fn x25519_secret_spec(sk: nat) -> Seq<u8> {
    sha256_digest(tag("pRune_x25519_sk") + le_bytes(sk, 32))
}

impl KeySet {
    /// Whether every key is the one derived from the spending key.
    pub open spec fn wf(self) -> bool {
        &&& self.viewing_key@ == viewing_key_spec(self.spending_key@)
        &&& self.nullifier_key@ == nullifier_key_spec(self.spending_key@)
        &&& self.public_key@ == public_key_spec(self.spending_key@)
    }

    /// Derives all keys from a spending key.
    pub fn from_spending_key(sk: Fr) -> (keys: KeySet)
        ensures
            keys.spending_key == sk,
            keys.wf(),
    {
        let vk = hash2(sk, Fr::from(DOMAIN_VIEWING_KEY));
        let nk = hash2(sk, Fr::from(DOMAIN_NULLIFIER_KEY));
        let pk = hash2(sk, Fr::from(DOMAIN_PUBLIC_KEY));
        KeySet { spending_key: sk, viewing_key: vk, nullifier_key: nk, public_key: pk }
    }

    /// Derives the keys of a spending key drawn at random.
    pub fn generate() -> (keys: KeySet)
        ensures
            keys.spending_key.canonical(),
            keys.wf(),
    {
        let sk = Fr::random();
        KeySet::from_spending_key(sk)
    }

    /// The x25519 secret: the digest of a tag and the 32 bytes of the spending key.
    pub fn x25519_secret_bytes(&self) -> (secret: [u8; 32])
        ensures
            secret@ == x25519_secret_spec(self.spending_key@),
            secret@.len() == 32,
    {
        let mut input = tag_bytes("pRune_x25519_sk");
        proof {
            reveal_strlit("pRune_x25519_sk");
            vstd::utf8::is_ascii_chars_encode_utf8("pRune_x25519_sk"@);
        }
        let mut sk_bytes = self.spending_key.to_bytes_le();
        input.append(&mut sk_bytes);
        sha256(input.as_slice())
    }

    /// The x25519 public key of the x25519 secret.
    pub fn x25519_public_bytes(&self) -> (public: [u8; 32])
        ensures
            public@ == x25519_public(x25519_secret_spec(self.spending_key@)),
            x25519_secret_spec(self.spending_key@).len() == 32,
    {
        x25519_public_key(self.x25519_secret_bytes())
    }
}

/// Every key is the hash of the spending key and a number of its own; the x25519 secret is the digest
/// of a text and the 32 bytes of the spending key.
pub proof fn law_keys_are_derived(sk: nat)
    ensures
        viewing_key_spec(sk) == hash2_spec(sk, 0x7652756e655f766b),
        nullifier_key_spec(sk) == hash2_spec(sk, 0x7052756e655f6e6b),
        public_key_spec(sk) == hash2_spec(sk, 0x7052756e655f706b),
        x25519_secret_spec(sk) == sha256_digest(tag("pRune_x25519_sk") + le_bytes(sk, 32)),
{
}

/// A set of keys belongs together exactly where each is the one derived from the spending key.
pub proof fn law_key_set(keys: KeySet)
    ensures
        keys.wf() <==> {
            &&& keys.viewing_key@ == hash2_spec(keys.spending_key@, 0x7652756e655f766b)
            &&& keys.nullifier_key@ == hash2_spec(keys.spending_key@, 0x7052756e655f6e6b)
            &&& keys.public_key@ == hash2_spec(keys.spending_key@, 0x7052756e655f706b)
        },
{
}

/// Different spending keys have different public keys, unless these collide.
pub proof fn law_public_key_fixes_owner(a: nat, b: nat)
    requires
        a < modulus(),
        b < modulus(),
        public_key_spec(a) == public_key_spec(b),
        !collide(seq![a, DOMAIN_PUBLIC_KEY as nat], seq![b, DOMAIN_PUBLIC_KEY as nat]),
    ensures
        a == b,
{
    lemma_modulus_fits();
    lemma_hash2_fixes(a, DOMAIN_PUBLIC_KEY as nat, b, DOMAIN_PUBLIC_KEY as nat);
}

} // verus!
