use prune::field::Fr;
use prune::note::{Note, NoteError};
use prune::poseidon::hash4;

#[test]
fn test_commitment_deterministic() {
    let note = Note {
        rune_id: Fr::from(1u64),
        amount: 1000,
        blinding: Fr::from(999u64),
        owner_pk: Fr::from(42u64),
        note_index: 0,
    };

    let c1 = note.commitment();
    let c2 = note.commitment();
    assert_eq!(c1, c2, "Commitment must be deterministic");
}

#[test]
fn test_different_blinding_different_commitment() {
    let note1 = Note {
        rune_id: Fr::from(1u64),
        amount: 1000,
        blinding: Fr::from(111u64),
        owner_pk: Fr::from(42u64),
        note_index: 0,
    };

    let note2 = Note {
        rune_id: Fr::from(1u64),
        amount: 1000,
        blinding: Fr::from(222u64),
        owner_pk: Fr::from(42u64),
        note_index: 0,
    };

    assert_ne!(
        note1.commitment(),
        note2.commitment(),
        "Different blinding must produce different commitments"
    );
}

#[test]
fn test_different_amount_different_commitment() {
    let note1 = Note {
        rune_id: Fr::from(1u64),
        amount: 1000,
        blinding: Fr::from(999u64),
        owner_pk: Fr::from(42u64),
        note_index: 0,
    };

    let note2 = Note {
        rune_id: Fr::from(1u64),
        amount: 2000,
        blinding: Fr::from(999u64),
        owner_pk: Fr::from(42u64),
        note_index: 0,
    };

    assert_ne!(
        note1.commitment(),
        note2.commitment(),
        "Different amount must produce different commitments"
    );
}

#[test]
fn test_different_rune_different_commitment() {
    let note1 = Note {
        rune_id: Fr::from(1u64), // bUSD
        amount: 1000,
        blinding: Fr::from(999u64),
        owner_pk: Fr::from(42u64),
        note_index: 0,
    };

    let note2 = Note {
        rune_id: Fr::from(2u64), // different Rune
        amount: 1000,
        blinding: Fr::from(999u64),
        owner_pk: Fr::from(42u64),
        note_index: 0,
    };

    assert_ne!(
        note1.commitment(),
        note2.commitment(),
        "Different rune_id must produce different commitments"
    );
}

#[test]
fn test_note_serialization_roundtrip() {
    let note = Note {
        rune_id: Fr::from(42u64),
        amount: 50000,
        blinding: Fr::from(12345u64),
        owner_pk: Fr::from(99u64),
        note_index: 7,
    };

    let plaintext = note.to_plaintext();
    let recovered = Note::from_plaintext(&plaintext, Fr::from(99u64), 7).unwrap();

    assert_eq!(note.rune_id, recovered.rune_id);
    assert_eq!(note.amount, recovered.amount);
    assert_eq!(note.blinding, recovered.blinding);
    assert_eq!(note.commitment(), recovered.commitment());
}

#[test]
fn test_note_index_does_not_affect_commitment() {
    // note_index is NOT part of the commitment — it's metadata for nullifier derivation
    let mut note = Note {
        rune_id: Fr::from(1u64),
        amount: 1000,
        blinding: Fr::from(999u64),
        owner_pk: Fr::from(42u64),
        note_index: 0,
    };

    let c1 = note.commitment();
    note.note_index = 100;
    let c2 = note.commitment();

    assert_eq!(c1, c2, "note_index should not affect commitment");
}

#[test]
fn commitment_is_the_hash_of_the_contents() {
    let note = Note::with_blinding_seed(77, Fr::from(1), 1000, Fr::from(42));
    assert_eq!(note.blinding, Fr::from(77));
    assert_eq!(note.note_index, 0);
    assert_eq!(
        note.commitment(),
        hash4(Fr::from(1), Fr::from(1000), Fr::from(77), Fr::from(42))
    );
}

#[test]
fn new_notes_have_blindings_of_their_own() {
    let a = Note::new(Fr::from(1), 1000, Fr::from(42));
    let b = Note::new(Fr::from(1), 1000, Fr::from(42));
    assert_eq!((a.rune_id, a.amount, a.owner_pk), (Fr::from(1), 1000, Fr::from(42)));
    assert_ne!(a.blinding, b.blinding);
}

#[test]
fn plaintext_layout() {
    let note = Note::with_blinding_seed(3, Fr::from(1), 0x0201, Fr::from(42));
    let bytes = note.to_plaintext();
    let mut expected = vec![0u8; 72];
    expected[0] = 1;
    expected[32] = 1;
    expected[33] = 2;
    expected[40] = 3;
    assert_eq!(bytes, expected);
}

#[test]
fn short_plaintext_is_refused() {
    assert_eq!(
        Note::from_plaintext(&[0u8; 71], Fr::from(1), 0).unwrap_err(),
        NoteError::PlaintextTooShort(71)
    );
    assert!(Note::from_plaintext(&[0u8; 73], Fr::from(1), 5).is_ok());
}

#[test]
fn index_is_set() {
    let mut note = Note::with_blinding_seed(3, Fr::from(1), 2, Fr::from(42));
    note.set_index(9);
    assert_eq!(note.note_index, 9);
}
