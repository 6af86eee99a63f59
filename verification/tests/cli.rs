use prune::cli::{
    build_transfer_encrypted_note, build_transfer_encrypted_note_with, count_notes, dummy_proof,
    fr_display, indexed_data_path, parse_fr, parse_indexed_data, shield_operation,
    transfer_operation, transfer_operation_with, unshield_operation, wallet_path, ArgumentError,
    IndexedCommitment, IndexedData, IndexedDataError, IndexedEncryptedNote,
};
use prune::encryption::{decrypt_note, EncryptedNote};
use prune::field::Fr;
use prune::keys::KeySet;
use prune::note::Note;
use prune::text::{fr_to_hex, ElementError};
use prune::transaction::PruneOp;
use prune::wallet::{ShieldResult, TransferResult, UnshieldResult, Wallet};

#[test]
fn paths() {
    let home = || Some(String::from("/home/ada"));
    assert_eq!(wallet_path(Some(String::from("w.json")), home()), "w.json");
    assert_eq!(wallet_path(None, home()), "/home/ada/.prune/wallet.json");
    assert_eq!(wallet_path(None, None), "./.prune/wallet.json");
    assert_eq!(indexed_data_path(Some(String::from("d.json")), home()), "d.json");
    assert_eq!(indexed_data_path(None, home()), "/home/ada/.prune/indexed_data.json");
    assert_eq!(indexed_data_path(None, None), "./.prune/indexed_data.json");
}

#[test]
fn short_arguments_are_numbers() {
    assert_eq!(parse_fr("0x2a"), Ok(Fr::from(42)));
    assert_eq!(parse_fr("2A"), Ok(Fr::from(42)));
    assert_eq!(parse_fr("+2a"), Ok(Fr::from(42)));
    assert_eq!(parse_fr("ffffffffffffffff"), Ok(Fr::from(u64::MAX)));
    for text in ["", "0x", "+", "-1", "xyz", "0x0x1", "\u{e9}"] {
        assert_eq!(parse_fr(text), Err(ArgumentError::InvalidNumber), "{text}");
    }
}

#[test]
fn long_arguments_are_little_endian_bytes() {
    let text = format!("0x02{}", "00".repeat(31));
    assert_eq!(parse_fr(&text), Ok(Fr::from(2)));
    assert_eq!(parse_fr(&"ff".repeat(32)), Ok(Fr::from_le_bytes_mod_order(&[0xff; 32])));
    assert_eq!(parse_fr(&"0".repeat(17)), Err(ArgumentError::InvalidHex));
    assert_eq!(parse_fr(&"z".repeat(18)), Err(ArgumentError::InvalidHex));
    assert_eq!(parse_fr(&fr_display(Fr::from(7))), Ok(Fr::from(7)));
}

#[test]
fn notes_are_counted() {
    let mut wallet = Wallet::create();
    assert_eq!(count_notes(&wallet.notes), (0, 0));
    for _ in 0..3 {
        wallet.shield(Fr::from(1), 100).unwrap();
    }
    wallet.unshield(1).unwrap();
    assert_eq!(count_notes(&wallet.notes), (2, 1));
}

#[test]
fn operation_of_a_shield() {
    let result = ShieldResult {
        note_index: 0,
        commitment: Fr::from(5),
        encrypted_note_hex: String::from("0a0b"),
        tree_root: Fr::from(6),
    };
    match shield_operation(Fr::from(1), &result) {
        Some(PruneOp::Shield { rune_id, commitment, encrypted_note }) => {
            assert_eq!((rune_id, commitment), (Fr::from(1), Fr::from(5)));
            assert_eq!(encrypted_note, vec![0x0a, 0x0b]);
        }
        _ => panic!("expected Shield"),
    }
    let bad = ShieldResult { encrypted_note_hex: String::from("0"), ..result };
    assert!(shield_operation(Fr::from(1), &bad).is_none());
}

#[test]
fn operation_of_a_transfer() {
    let receiver = KeySet::from_spending_key(Fr::from(77));
    let pk = receiver.x25519_public_bytes();
    let out_note = Note::with_blinding_seed(9, Fr::from(1), 800, receiver.public_key);
    let result = TransferResult {
        anchor: Fr::from(2),
        nullifier: Fr::from(3),
        out_commitment: Fr::from(4),
        new_tree_root: Fr::from(5),
        circuit_fee: 200,
        proof_hex: None,
    };
    match transfer_operation_with(&out_note, &result, &pk, &[8; 32]) {
        Some(PruneOp::Transfer { rune_id, anchor, fee, proof, encrypted_note, .. }) => {
            assert_eq!((rune_id, anchor, fee), (Fr::from(1), Fr::from(2), 200));
            assert_eq!(proof, vec![0u8; 192]);
            let note = build_transfer_encrypted_note_with(&out_note, &pk, &[8; 32]);
            assert_eq!(encrypted_note, note);
        }
        _ => panic!("expected Transfer"),
    }
    assert!(transfer_operation(&out_note, &result, &pk).is_some());
    let bad = TransferResult { proof_hex: Some(String::from("zz")), ..result };
    assert!(transfer_operation(&out_note, &bad, &pk).is_none());
}

#[test]
fn note_of_a_transfer_is_for_its_receiver_alone() {
    let receiver = KeySet::from_spending_key(Fr::from(77));
    let pk = receiver.x25519_public_bytes();
    let out_note = Note::with_blinding_seed(9, Fr::from(1), 800, receiver.public_key);
    let blob = build_transfer_encrypted_note(&out_note, &pk);
    assert_eq!(blob.len(), 120);
    assert_ne!(blob, build_transfer_encrypted_note(&out_note, &pk));
    let mut ephemeral_pk = [0u8; 32];
    ephemeral_pk.copy_from_slice(&blob[..32]);
    let sealed = EncryptedNote { ephemeral_pk, ciphertext: blob[32..].to_vec() };
    let opened = decrypt_note(&sealed, &receiver.x25519_secret_bytes());
    assert_eq!(opened, Ok(out_note.to_plaintext()));
    let other = KeySet::from_spending_key(Fr::from(78));
    assert!(decrypt_note(&sealed, &other.x25519_secret_bytes()).is_err());
    let plain = out_note.to_plaintext();
    assert!(!blob.windows(8).any(|part| part == &plain[32..40]));
}

#[test]
fn operation_of_an_unshield() {
    let result = UnshieldResult {
        rune_id: Fr::from(1),
        amount: 800,
        anchor: Fr::from(2),
        nullifier: Fr::from(3),
        proof_hex: Some(String::from("0102")),
    };
    match unshield_operation(&result) {
        Some(PruneOp::Unshield { out_commitment, amount, proof, .. }) => {
            assert_eq!((out_commitment, amount, proof), (Fr::zero(), 800, vec![1, 2]));
        }
        _ => panic!("expected Unshield"),
    }
    let bad = UnshieldResult { proof_hex: Some(String::from("0")), ..result };
    assert!(unshield_operation(&bad).is_none());
    assert_eq!(dummy_proof(), vec![0u8; 192]);
}

fn indexed_data() -> IndexedData {
    IndexedData {
        commitments: vec![IndexedCommitment { tree_index: 0, commitment: fr_to_hex(Fr::from(9)) }],
        encrypted_notes: vec![IndexedEncryptedNote { tree_index: 0, data: String::from("0102") }],
        nullifiers: vec!["07".repeat(32)],
    }
}

#[test]
fn indexed_data_is_read() {
    let parsed = parse_indexed_data(&indexed_data()).unwrap();
    assert_eq!(parsed.commitments, vec![(0, Fr::from(9))]);
    assert_eq!(parsed.encrypted_notes, vec![(0, vec![1, 2])]);
    assert_eq!(parsed.nullifiers, vec![[7u8; 32]]);
}

#[test]
fn malformed_indexed_data_is_refused() {
    let error = |change: fn(&mut IndexedData)| {
        let mut data = indexed_data();
        change(&mut data);
        parse_indexed_data(&data).unwrap_err()
    };
    assert_eq!(
        error(|d| d.commitments[0].commitment = String::from("z")),
        IndexedDataError::InvalidCommitment(ElementError::InvalidHex)
    );
    assert_eq!(
        error(|d| d.commitments[0].commitment = String::from("00")),
        IndexedDataError::InvalidCommitment(ElementError::InvalidElement)
    );
    assert_eq!(
        error(|d| d.encrypted_notes[0].data = String::from("0")),
        IndexedDataError::InvalidNote
    );
    assert_eq!(
        error(|d| d.nullifiers[0] = String::from("0")),
        IndexedDataError::InvalidNullifier
    );
    assert_eq!(
        error(|d| d.nullifiers[0] = String::from("00")),
        IndexedDataError::NullifierLength
    );
}
