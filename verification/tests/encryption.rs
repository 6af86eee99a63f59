use chacha20poly1305::aead::{Aead, KeyInit};
use prune::encryption::{
    decrypt_note, derive_nonce, derive_symmetric_key, encrypt_note, encrypt_note_with,
    EncryptedNote, EncryptionError,
};
use prune::field::Fr;
use prune::keys::KeySet;
use sha2::Digest;

#[test]
fn test_encrypt_decrypt_roundtrip() {
    let plaintext = b"hello pRune world! this is a test note";

    let receiver_pk = [42u8; 32];

    let encrypted = encrypt_note(plaintext, &receiver_pk).unwrap();

    // The ciphertext is different from the plaintext
    assert_ne!(&encrypted.ciphertext[..plaintext.len()], &plaintext[..]);
    assert_eq!(encrypted.ciphertext.len(), plaintext.len() + 16); // +16 for auth tag
}

#[test]
fn test_different_ephemeral_keys_different_ciphertext() {
    let plaintext = b"same plaintext";
    let receiver_pk = [42u8; 32];

    let enc1 = encrypt_note(plaintext, &receiver_pk).unwrap();
    let enc2 = encrypt_note(plaintext, &receiver_pk).unwrap();

    // Different ephemeral keys → different ciphertext (even for same plaintext)
    assert_ne!(enc1.ephemeral_pk, enc2.ephemeral_pk);
    assert_ne!(enc1.ciphertext, enc2.ciphertext);
}

#[test]
fn test_derive_symmetric_key_deterministic() {
    let secret = b"test_shared_secret";
    let k1 = derive_symmetric_key(secret);
    let k2 = derive_symmetric_key(secret);
    assert_eq!(k1, k2);
}

#[test]
fn test_wrong_key_fails_decryption() {
    let plaintext = b"secret data";
    let receiver_pk = [42u8; 32];

    let encrypted = encrypt_note(plaintext, &receiver_pk).unwrap();

    // Try to decrypt with wrong key
    let wrong_key = [99u8; 32];
    let result = decrypt_note(&encrypted, &wrong_key);
    assert!(result.is_err(), "Wrong key should fail decryption");
}

#[test]
fn receiver_reads_what_was_encrypted() {
    let keys = KeySet::from_spending_key(Fr::from(42));
    let plaintext = b"seventy-two bytes or any other number";
    let encrypted = encrypt_note(plaintext, &keys.x25519_public_bytes()).unwrap();
    let decrypted = decrypt_note(&encrypted, &keys.x25519_secret_bytes()).unwrap();
    assert_eq!(decrypted, plaintext);
}

#[test]
fn ciphertext_has_its_exact_value() {
    let keys = KeySet::from_spending_key(Fr::from(42));
    let ephemeral = [9u8; 32];
    let encrypted = encrypt_note_with(b"text", &keys.x25519_public_bytes(), &ephemeral).unwrap();

    let secret = x25519_dalek::StaticSecret::from(ephemeral);
    let public = x25519_dalek::PublicKey::from(&secret).to_bytes();
    assert_eq!(encrypted.ephemeral_pk, public);
    let receiver = x25519_dalek::PublicKey::from(keys.x25519_public_bytes());
    let shared = secret.diffie_hellman(&receiver).to_bytes();
    let digest = |parts: &[&[u8]]| -> [u8; 32] {
        let mut hasher = sha2::Sha256::new();
        for part in parts {
            hasher.update(part);
        }
        hasher.finalize().into()
    };
    let key = digest(&[b"pRune_note_encryption", &shared]);
    assert_eq!(derive_symmetric_key(&shared), key);
    let nonce_digest = digest(&[b"pRune_note_nonce", &shared, &public]);
    let nonce = derive_nonce(&shared, &public);
    assert_eq!(nonce[..], nonce_digest[..12]);
    let cipher = chacha20poly1305::ChaCha20Poly1305::new(&key.into());
    let expected = cipher.encrypt(&nonce.into(), b"text".as_slice()).unwrap();
    assert_eq!(encrypted.ciphertext, expected);
}

#[test]
fn tampered_ciphertext_is_refused() {
    let keys = KeySet::from_spending_key(Fr::from(42));
    let mut encrypted = encrypt_note(b"text", &keys.x25519_public_bytes()).unwrap();
    encrypted.ciphertext[0] ^= 1;
    assert_eq!(
        decrypt_note(&encrypted, &keys.x25519_secret_bytes()).unwrap_err(),
        EncryptionError::DecryptionFailed
    );
}

#[test]
fn ciphertext_shorter_than_its_tag_is_refused() {
    let encrypted = EncryptedNote { ephemeral_pk: [7; 32], ciphertext: vec![1, 2, 3] };
    assert!(decrypt_note(&encrypted, &[5; 32]).is_err());
}
