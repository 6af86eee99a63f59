use prune::field::Fr;
use prune::keys::KeySet;
use prune::poseidon::hash2;
use sha2::Digest;

#[test]
fn test_key_derivation_deterministic() {
    let sk = Fr::from(42u64);
    let keys1 = KeySet::from_spending_key(sk);
    let keys2 = KeySet::from_spending_key(sk);

    assert_eq!(keys1.viewing_key, keys2.viewing_key);
    assert_eq!(keys1.nullifier_key, keys2.nullifier_key);
    assert_eq!(keys1.public_key, keys2.public_key);
}

#[test]
fn test_all_keys_different() {
    let sk = Fr::from(12345u64);
    let keys = KeySet::from_spending_key(sk);

    // All derived keys must be different from each other
    assert_ne!(keys.viewing_key, keys.nullifier_key, "vk and nk must differ");
    assert_ne!(keys.viewing_key, keys.public_key, "vk and pk must differ");
    assert_ne!(keys.nullifier_key, keys.public_key, "nk and pk must differ");

    // All derived keys must differ from the spending key
    assert_ne!(keys.spending_key, keys.viewing_key, "sk and vk must differ");
    assert_ne!(keys.spending_key, keys.nullifier_key, "sk and nk must differ");
}

#[test]
fn test_different_spending_keys_different_derived() {
    let keys1 = KeySet::from_spending_key(Fr::from(1u64));
    let keys2 = KeySet::from_spending_key(Fr::from(2u64));

    assert_ne!(keys1.viewing_key, keys2.viewing_key);
    assert_ne!(keys1.nullifier_key, keys2.nullifier_key);
    assert_ne!(keys1.public_key, keys2.public_key);
}

#[test]
fn test_generate_random() {
    let keys1 = KeySet::generate();
    let keys2 = KeySet::generate();

    // Two random key sets should be different (with overwhelming probability)
    assert_ne!(keys1.spending_key, keys2.spending_key);
}

#[test]
fn keys_are_hashes_of_the_spending_key() {
    let sk = Fr::from(42);
    let keys = KeySet::from_spending_key(sk);
    assert_eq!(keys.viewing_key, hash2(sk, Fr::from(0x7652756e655f766b)));
    assert_eq!(keys.nullifier_key, hash2(sk, Fr::from(0x7052756e655f6e6b)));
    assert_eq!(keys.public_key, hash2(sk, Fr::from(0x7052756e655f706b)));
}

#[test]
fn x25519_keys_come_from_the_spending_key() {
    let sk = Fr::from(42);
    let keys = KeySet::from_spending_key(sk);
    let mut hasher = sha2::Sha256::new();
    hasher.update(b"pRune_x25519_sk");
    hasher.update(sk.to_bytes_le());
    let secret: [u8; 32] = hasher.finalize().into();
    assert_eq!(keys.x25519_secret_bytes(), secret);
    let public = x25519_dalek::PublicKey::from(&x25519_dalek::StaticSecret::from(secret));
    assert_eq!(keys.x25519_public_bytes(), public.to_bytes());
}
