//! Notes as the chain carries them: sealed for their receiver.
use vstd::pervasive::unreached;
use vstd::prelude::*;

use crate::bytes::le_bytes;
use crate::ecdh::{x25519_public, x25519_shared};
use crate::encryption::{
    chacha20poly1305_seal, encrypt_note_with, note_ciphertext, opens,
};
use crate::note::{plaintext_spec, Note};
use crate::sha::{sha256_digest, tag};

verus! {

/// The bytes of a sealed note.
pub open spec fn sealed_note(
    rune_id: nat,
    amount: nat,
    blinding: nat,
    receiver_pk: Seq<u8>,
    ephemeral: Seq<u8>,
) -> Seq<u8> {
    let ephemeral_pk = x25519_public(ephemeral);
    ephemeral_pk + note_ciphertext(
        x25519_shared(ephemeral, receiver_pk),
        ephemeral_pk,
        plaintext_spec(rune_id, amount, blinding),
    )
}

/// Whether the holder of the x25519 secret reads this plaintext from a sealed note.
pub open spec fn opened_by(blob: Seq<u8>, secret: Seq<u8>, plaintext: Seq<u8>) -> bool {
    opens(blob.take(32), blob.skip(32), secret, plaintext)
}

/// Encrypts the contents of a note and returns the one-time public key and the ciphertext, one after
/// the other. The holder of the secret of the receiver's key reads the contents.
pub fn seal_note(note: &Note, receiver_pk: &[u8; 32], ephemeral_secret: &[u8; 32]) -> (blob: Vec<u8>)
    ensures
        blob@ == sealed_note(
            note.rune_id@,
            note.amount as nat,
            note.blinding@,
            receiver_pk@,
            ephemeral_secret@,
        ),
        blob@.len() == 120,
        forall|secret: Seq<u8>|
            secret.len() == 32 && #[trigger] x25519_public(secret) == receiver_pk@ ==> opened_by(
                blob@,
                secret,
                plaintext_spec(note.rune_id@, note.amount as nat, note.blinding@),
            ),
{
    let plaintext = note.to_plaintext();
    let encrypted = match encrypt_note_with(plaintext.as_slice(), receiver_pk, ephemeral_secret) {
        Ok(encrypted) => encrypted,
        Err(_) => unreached(),
    };
    let mut blob: Vec<u8> = Vec::new();
    blob.extend_from_slice(encrypted.ephemeral_pk.as_slice());
    blob.extend_from_slice(encrypted.ciphertext.as_slice());
    assert(blob@ =~= encrypted.blob());
    assert(blob@.take(32) =~= encrypted.ephemeral_pk@);
    assert(blob@.skip(32) =~= encrypted.ciphertext@);
    blob
}

/// A sealed note is the one-time public key and the contents under ChaCha20-Poly1305, with the key and
/// the nonce that are the digests of the agreed secret: 32 bytes of Rune, 8 of amount, 32 of blinding.
pub proof fn law_sealed_note_parts(
    rune_id: nat,
    amount: nat,
    blinding: nat,
    receiver_pk: Seq<u8>,
    ephemeral: Seq<u8>,
)
    requires
        sealed_note(rune_id, amount, blinding, receiver_pk, ephemeral).len() >= 32,
        x25519_public(ephemeral).len() == 32,
    ensures
        ({
            let blob = sealed_note(rune_id, amount, blinding, receiver_pk, ephemeral);
            let one_time = x25519_public(ephemeral);
            let shared = x25519_shared(ephemeral, receiver_pk);
            &&& blob.take(32) == one_time
            &&& blob.skip(32) == chacha20poly1305_seal(
                sha256_digest(tag("pRune_note_encryption") + shared),
                sha256_digest(tag("pRune_note_nonce") + shared + one_time).take(12),
                le_bytes(rune_id, 32) + le_bytes(amount, 8) + le_bytes(blinding, 32),
            )
        }),
{
    let blob = sealed_note(rune_id, amount, blinding, receiver_pk, ephemeral);
    assert(blob.take(32) =~= x25519_public(ephemeral));
    assert(blob.skip(32) =~= note_ciphertext(
        x25519_shared(ephemeral, receiver_pk),
        x25519_public(ephemeral),
        plaintext_spec(rune_id, amount, blinding),
    ));
}

/// Whoever opens a sealed note takes the first 32 bytes as the one-time key and the rest as the
/// ciphertext.
pub proof fn law_opened_by(blob: Seq<u8>, secret: Seq<u8>, plaintext: Seq<u8>)
    ensures
        opened_by(blob, secret, plaintext) <==> opens(
            blob.take(32),
            blob.skip(32),
            secret,
            plaintext,
        ),
{
}

} // verus!
