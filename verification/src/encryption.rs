//! Encryption of note contents for their receiver.
//!
//! The sender draws a one-time x25519 secret and agrees with the receiver's public key on a shared
//! secret. A symmetric key and a nonce are derived from it, and the contents are sealed with
//! ChaCha20-Poly1305. The receiver finds the same shared secret from the one-time public key.
use chacha20poly1305::aead::{Aead, KeyInit};
use vstd::prelude::*;

use crate::ecdh::{random_bytes_32, x25519_agree, x25519_public, x25519_public_key, x25519_shared};
use crate::sha::{sha256, sha256_digest, tag, tag_bytes};

verus! {

/// The ChaCha20-Poly1305 ciphertext, with its tag, of a plaintext without associated data.
pub uninterp spec fn chacha20poly1305_seal(
    key: Seq<u8>,
    nonce: Seq<u8>,
    plaintext: Seq<u8>,
) -> Seq<u8>;

/// The greatest number of bytes that are sealed at once. The 64-byte blocks of the stream are
/// numbered by 32 bits; the first of them makes the tag's key, and the last is left alone.
pub const MAX_SEALED: u64 = 274_877_906_816;

/// Whether a plaintext of this many bytes is sealed.
pub open spec fn sealable(len: nat) -> bool {
    len <= MAX_SEALED
}

/// `chacha20poly1305`'s `Aead::encrypt` without associated data: a ciphertext 16 bytes longer than
/// the plaintext. A plaintext that needs the last block of the stream is left out: for the shortest
/// of these the stream cipher panics.
#[verifier::external_body]
fn aead_encrypt(key: [u8; 32], nonce: [u8; 12], plaintext: &[u8]) -> (r: Option<Vec<u8>>)
    requires
        sealable(plaintext@.len()),
    ensures
        r is Some,
        r matches Some(c) ==> c@ == chacha20poly1305_seal(key@, nonce@, plaintext@),
        r matches Some(c) ==> c@.len() == plaintext@.len() + 16,
{
    let cipher = chacha20poly1305::ChaCha20Poly1305::new(&key.into());
    cipher.encrypt(&nonce.into(), plaintext).ok()
}

/// `chacha20poly1305`'s `Aead::decrypt` without associated data: it gives the plaintext that
/// sealing takes to the ciphertext, 16 bytes shorter, and fails when there is none. A ciphertext of
/// a plaintext that needs the last block of the stream is left out, as in sealing.
#[verifier::external_body]
fn aead_decrypt(key: [u8; 32], nonce: [u8; 12], ciphertext: &[u8]) -> (r: Option<Vec<u8>>)
    requires
        ciphertext@.len() <= MAX_SEALED + 16,
    ensures
        r matches Some(p) ==> ciphertext@.len() == p@.len() + 16 && chacha20poly1305_seal(
            key@,
            nonce@,
            p@,
        ) == ciphertext@,
        forall|p: Seq<u8>|
            sealable(p.len()) && #[trigger] chacha20poly1305_seal(key@, nonce@, p) == ciphertext@
                ==> r is Some && r->0@ == p,
{
    let cipher = chacha20poly1305::ChaCha20Poly1305::new(&key.into());
    cipher.decrypt(&nonce.into(), ciphertext).ok()
}

/// An encrypted note as the chain carries it.
#[derive(Clone, Debug)]
pub struct EncryptedNote {
    /// The one-time public key.
    pub ephemeral_pk: [u8; 32],
    /// The sealed contents: 16 bytes longer than the contents.
    pub ciphertext: Vec<u8>,
}

/// Why encryption or decryption failed.
#[derive(Clone, Copy, Debug, PartialEq, Eq, Structural)]
pub enum EncryptionError {
    /// The contents are too long to seal.
    EncryptionFailed,
    /// The ciphertext was not sealed for this key.
    DecryptionFailed,
}

/// The symmetric key of a shared secret.
pub open spec fn symmetric_key_spec(shared: Seq<u8>) -> Seq<u8> {
    sha256_digest(tag("pRune_note_encryption") + shared)
}

/// The nonce of a shared secret and a one-time public key.
pub open spec fn nonce_spec(shared: Seq<u8>, ephemeral_pk: Seq<u8>) -> Seq<u8> {
    sha256_digest(tag("pRune_note_nonce") + shared + ephemeral_pk).take(12)
}

/// The sealed contents of a note.
pub open spec fn note_ciphertext(
    shared: Seq<u8>,
    ephemeral_pk: Seq<u8>,
    plaintext: Seq<u8>,
) -> Seq<u8> {
    chacha20poly1305_seal(
        symmetric_key_spec(shared),
        nonce_spec(shared, ephemeral_pk),
        plaintext,
    )
}

/// Whether the holder of the x25519 secret reads this plaintext from a one-time public key and a
/// ciphertext.
pub open spec fn opens(
    ephemeral_pk: Seq<u8>,
    ciphertext: Seq<u8>,
    secret: Seq<u8>,
    plaintext: Seq<u8>,
) -> bool {
    &&& sealable(plaintext.len())
    &&& ciphertext.len() == plaintext.len() + 16
    &&& ciphertext == note_ciphertext(
        x25519_shared(secret, ephemeral_pk),
        ephemeral_pk,
        plaintext,
    )
}

impl EncryptedNote {
    /// Whether the holder of the x25519 secret reads this plaintext.
    pub open spec fn opens_to(self, secret: Seq<u8>, plaintext: Seq<u8>) -> bool {
        opens(self.ephemeral_pk@, self.ciphertext@, secret, plaintext)
    }

    /// The bytes that the chain carries: the one-time public key and the ciphertext.
    pub open spec fn blob(self) -> Seq<u8> {
        self.ephemeral_pk@ + self.ciphertext@
    }
}

/// Whether every holder of the secret of an x25519 public key reads this plaintext.
pub open spec fn readable_by(e: EncryptedNote, receiver_pk: Seq<u8>, plaintext: Seq<u8>) -> bool {
    forall|secret: Seq<u8>|
        secret.len() == 32 && #[trigger] x25519_public(secret) == receiver_pk ==> e.opens_to(
            secret,
            plaintext,
        )
}

/// What decryption with an x25519 secret gives: the plaintext that the secret opens the note to, and
/// an error where there is none.
pub open spec fn decryption(
    e: EncryptedNote,
    secret: Seq<u8>,
    r: Result<Vec<u8>, EncryptionError>,
) -> bool {
    &&& match r {
        Ok(p) => e.opens_to(secret, p@),
        Err(error) => error == EncryptionError::DecryptionFailed,
    }
    &&& forall|p: Seq<u8>| #[trigger] e.opens_to(secret, p) ==> r is Ok && r->Ok_0@ == p
}

/// The symmetric key of a shared secret: the digest of a tag and the secret.
pub fn derive_symmetric_key(shared_secret: &[u8]) -> (key: [u8; 32])
    requires
        shared_secret@.len() < 0x0100_0000_0000_0000,
    ensures
        key@ == symmetric_key_spec(shared_secret@),
{
    let mut input = tag_bytes("pRune_note_encryption");
    proof {
        reveal_strlit("pRune_note_encryption");
        vstd::utf8::is_ascii_chars_encode_utf8("pRune_note_encryption"@);
    }
    input.extend_from_slice(shared_secret);
    assert(input@ =~= tag("pRune_note_encryption") + shared_secret@);
    sha256(input.as_slice())
}

/// The nonce of a shared secret and a one-time public key: the first 12 bytes of the digest of a
/// tag and both.
pub fn derive_nonce(shared_secret: &[u8], ephemeral_pk: &[u8]) -> (nonce: [u8; 12])
    requires
        shared_secret@.len() < 0x0100_0000_0000_0000,
        ephemeral_pk@.len() < 0x0100_0000_0000_0000,
    ensures
        nonce@ == nonce_spec(shared_secret@, ephemeral_pk@),
{
    let mut input = tag_bytes("pRune_note_nonce");
    proof {
        reveal_strlit("pRune_note_nonce");
        vstd::utf8::is_ascii_chars_encode_utf8("pRune_note_nonce"@);
    }
    input.extend_from_slice(shared_secret);
    assert(input@ =~= tag("pRune_note_nonce") + shared_secret@);
    input.extend_from_slice(ephemeral_pk);
    assert(input@ =~= tag("pRune_note_nonce") + shared_secret@ + ephemeral_pk@);
    let digest = sha256(input.as_slice());
    let mut nonce: [u8; 12] = [0u8; 12];
    let mut i: usize = 0;
    while i < 12
        invariant
            i <= 12,
            forall|j: int| 0 <= j < i ==> nonce@[j] == digest@[j],
        decreases 12 - i,
    {
        nonce[i] = digest[i];
        i = i + 1;
    }
    assert(nonce@ =~= digest@.take(12));
    nonce
}

/// Encrypts contents for the holder of a public key, with the given one-time secret.
pub fn encrypt_note_with(
    plaintext: &[u8],
    receiver_pk_bytes: &[u8; 32],
    ephemeral_secret: &[u8; 32],
) -> (r: Result<EncryptedNote, EncryptionError>)
    ensures
        match r {
            Ok(e) => {
                &&& sealable(plaintext@.len())
                &&& e.ephemeral_pk@ == x25519_public(ephemeral_secret@)
                &&& e.ciphertext@ == note_ciphertext(
                    x25519_shared(ephemeral_secret@, receiver_pk_bytes@),
                    e.ephemeral_pk@,
                    plaintext@,
                )
                &&& e.ciphertext@.len() == plaintext@.len() + 16
            },
            Err(e) => e == EncryptionError::EncryptionFailed && !sealable(plaintext@.len()),
        },
        r matches Ok(e) ==> readable_by(e, receiver_pk_bytes@, plaintext@),
{
    if plaintext.len() as u64 > MAX_SEALED {
        return Err(EncryptionError::EncryptionFailed);
    }
    let ephemeral_pk = x25519_public_key(*ephemeral_secret);
    let shared_secret = x25519_agree(*ephemeral_secret, *receiver_pk_bytes);
    let key = derive_symmetric_key(shared_secret.as_slice());
    let nonce = derive_nonce(shared_secret.as_slice(), ephemeral_pk.as_slice());
    match aead_encrypt(key, nonce, plaintext) {
        Some(ciphertext) => Ok(EncryptedNote { ephemeral_pk, ciphertext }),
        None => Err(EncryptionError::EncryptionFailed),
    }
}

/// Encrypts contents for the holder of a public key, with a one-time secret drawn at random. The
/// holder of the secret of that public key reads the contents, whatever was drawn.
pub fn encrypt_note(plaintext: &[u8], receiver_pk_bytes: &[u8; 32]) -> (r: Result<
    EncryptedNote,
    EncryptionError,
>)
    ensures
        match r {
            Ok(e) => sealable(plaintext@.len()) && e.ciphertext@.len() == plaintext@.len() + 16,
            Err(e) => e == EncryptionError::EncryptionFailed && !sealable(plaintext@.len()),
        },
        r matches Ok(e) ==> exists|ephemeral: [u8; 32]|
            #![trigger x25519_public(ephemeral@)]
            e.ephemeral_pk@ == x25519_public(ephemeral@) && e.ciphertext@ == note_ciphertext(
                x25519_shared(ephemeral@, receiver_pk_bytes@),
                e.ephemeral_pk@,
                plaintext@,
            ),
        r matches Ok(e) ==> readable_by(e, receiver_pk_bytes@, plaintext@),
{
    let ephemeral_secret = random_bytes_32();
    encrypt_note_with(plaintext, receiver_pk_bytes, &ephemeral_secret)
}

/// Decrypts contents with the receiver's x25519 secret.
pub fn decrypt_note(encrypted: &EncryptedNote, receiver_secret_bytes: &[u8; 32]) -> (r: Result<
    Vec<u8>,
    EncryptionError,
>)
    ensures
        decryption(*encrypted, receiver_secret_bytes@, r),
{
    if encrypted.ciphertext.len() as u64 > MAX_SEALED + 16 {
        return Err(EncryptionError::DecryptionFailed);
    }
    let shared_secret = x25519_agree(*receiver_secret_bytes, encrypted.ephemeral_pk);
    let key = derive_symmetric_key(shared_secret.as_slice());
    let nonce = derive_nonce(shared_secret.as_slice(), encrypted.ephemeral_pk.as_slice());
    match aead_decrypt(key, nonce, encrypted.ciphertext.as_slice()) {
        Some(plaintext) => Ok(plaintext),
        None => Err(EncryptionError::DecryptionFailed),
    }
}

/// Whoever holds the secret of the public key that a note was encrypted for decrypts it to what was
/// encrypted.
pub proof fn law_receiver_decrypts(
    e: EncryptedNote,
    secret: Seq<u8>,
    plaintext: Seq<u8>,
    r: Result<Vec<u8>, EncryptionError>,
)
    requires
        secret.len() == 32,
        readable_by(e, x25519_public(secret), plaintext),
        decryption(e, secret, r),
    ensures
        r is Ok,
        r->Ok_0@ == plaintext,
{
    assert(e.opens_to(secret, plaintext));
}

/// A ciphertext opens to a plaintext exactly where it is that plaintext, at most 2^38 - 128 bytes,
/// sealed under the digests of the secret that the holder agrees on with the one-time key.
pub proof fn law_what_opens(
    ephemeral_pk: Seq<u8>,
    ciphertext: Seq<u8>,
    secret: Seq<u8>,
    plaintext: Seq<u8>,
)
    ensures
        opens(ephemeral_pk, ciphertext, secret, plaintext) <==> {
            let shared = x25519_shared(secret, ephemeral_pk);
            &&& plaintext.len() <= 274_877_906_816
            &&& ciphertext.len() == plaintext.len() + 16
            &&& ciphertext == chacha20poly1305_seal(
                sha256_digest(tag("pRune_note_encryption") + shared),
                sha256_digest(tag("pRune_note_nonce") + shared + ephemeral_pk).take(12),
                plaintext,
            )
        },
{
}

/// An encrypted note is carried as its one-time key and its ciphertext, and everyone who holds the
/// secret of the receiver's key reads it.
pub proof fn law_encrypted_note_parts(
    e: EncryptedNote,
    receiver_pk: Seq<u8>,
    secret: Seq<u8>,
    plaintext: Seq<u8>,
)
    ensures
        e.blob() == e.ephemeral_pk@ + e.ciphertext@,
        e.opens_to(secret, plaintext) <==> opens(
            e.ephemeral_pk@,
            e.ciphertext@,
            secret,
            plaintext,
        ),
        readable_by(e, receiver_pk, plaintext) && secret.len() == 32 && x25519_public(secret)
            == receiver_pk ==> opens(e.ephemeral_pk@, e.ciphertext@, secret, plaintext),
{
}

/// Decryption gives what the secret opens the note to, and fails only where it opens it to nothing.
pub proof fn law_decryption_is_complete(
    e: EncryptedNote,
    secret: Seq<u8>,
    plaintext: Seq<u8>,
    r: Result<Vec<u8>, EncryptionError>,
)
    requires
        decryption(e, secret, r),
    ensures
        opens(e.ephemeral_pk@, e.ciphertext@, secret, plaintext) ==> r is Ok && r->Ok_0@
            == plaintext,
        r matches Ok(p) ==> opens(e.ephemeral_pk@, e.ciphertext@, secret, p@),
        r matches Err(error) ==> error == EncryptionError::DecryptionFailed,
{
    assert(e.opens_to(secret, plaintext) <==> opens(
        e.ephemeral_pk@,
        e.ciphertext@,
        secret,
        plaintext,
    ));
}

/// Every plaintext of at most 2^38 - 128 bytes is sealed, and no longer one.
pub proof fn law_what_is_sealed(len: nat)
    ensures
        sealable(len) <==> len <= 274_877_906_816,
{
}

} // verus!
