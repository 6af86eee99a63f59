use prune::field::Fr;
use prune::keys::KeySet;
use prune::note::Note;
use prune::nullifier::compute_nullifier;
use prune::poseidon::hash3;

#[test]
fn test_nullifier_deterministic() {
    let nk = Fr::from(42u64);
    let commitment = Fr::from(12345u64);
    let index = 7u64;

    let n1 = compute_nullifier(nk, index, commitment);
    let n2 = compute_nullifier(nk, index, commitment);
    assert_eq!(n1, n2, "Nullifier must be deterministic");
}

#[test]
fn test_different_notes_different_nullifiers() {
    let nk = Fr::from(42u64);

    let n1 = compute_nullifier(nk, 0, Fr::from(111u64));
    let n2 = compute_nullifier(nk, 1, Fr::from(222u64));
    assert_ne!(n1, n2, "Different notes must have different nullifiers");
}

#[test]
fn test_different_keys_different_nullifiers() {
    let commitment = Fr::from(999u64);
    let index = 5u64;

    let n1 = compute_nullifier(Fr::from(1u64), index, commitment);
    let n2 = compute_nullifier(Fr::from(2u64), index, commitment);
    assert_ne!(n1, n2, "Different nullifier keys must produce different nullifiers");
}

#[test]
fn test_nullifier_with_real_note() {
    // Full integration: create keys, create note, compute nullifier
    let keys = KeySet::from_spending_key(Fr::from(42u64));

    let note = Note {
        rune_id: Fr::from(1u64),
        amount: 1000,
        blinding: Fr::from(999u64),
        owner_pk: keys.public_key,
        note_index: 3,
    };

    let commitment = note.commitment();
    let nullifier = compute_nullifier(keys.nullifier_key, note.note_index, commitment);

    // Verify it's a valid field element (non-zero)
    assert_ne!(nullifier, Fr::from(0u64), "Nullifier should not be zero");

    // Verify deterministic with real note
    let nullifier2 = compute_nullifier(keys.nullifier_key, note.note_index, commitment);
    assert_eq!(nullifier, nullifier2);
}

#[test]
fn nullifier_is_the_hash_of_key_index_and_commitment() {
    assert_eq!(
        compute_nullifier(Fr::from(42), 7, Fr::from(12345)),
        hash3(Fr::from(42), Fr::from(7), Fr::from(12345))
    );
}
