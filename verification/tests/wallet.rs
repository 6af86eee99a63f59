use prune::cli::transfer_operation;
use prune::encryption::{decrypt_note, EncryptedNote};
use prune::field::Fr;
use prune::keys::KeySet;
use prune::note::Note;
use prune::text::ElementError;
use prune::transaction::PruneOp;
use prune::wallet::{fr_from_hex, fr_to_hex, Wallet, WalletError, BURN_PK};

fn wallet() -> Wallet {
    Wallet::with_keys(KeySet::from_spending_key(Fr::from(42)))
}

/// The bytes of a text of digits.
fn bytes(text: &str) -> Vec<u8> {
    hex::decode(text).unwrap()
}

#[test]
fn default_paths() {
    assert_eq!(
        Wallet::default_path(Some(String::from("/home/ada"))),
        "/home/ada/.prune/wallet.json"
    );
    assert_eq!(Wallet::default_path(None), "./.prune/wallet.json");
    assert_eq!(Wallet::default_path(Some(String::from("/"))), "/.prune/wallet.json");
    assert_eq!(Wallet::default_path(Some(String::new())), ".prune/wallet.json");
}

#[test]
fn shielded_note_is_readable_by_the_wallet() {
    let mut w = wallet();
    let result = w.shield_with(Fr::from(1), 1000, 77, &[9; 32]).unwrap();
    let note = Note::with_blinding_seed(77, Fr::from(1), 1000, w.keys.public_key);
    assert_eq!(result.commitment, note.commitment());
    assert_eq!(result.tree_root, w.tree.root());
    let blob = bytes(&result.encrypted_note_hex);
    assert_eq!(blob.len(), 120);
    let encrypted = EncryptedNote {
        ephemeral_pk: blob[..32].try_into().unwrap(),
        ciphertext: blob[32..].to_vec(),
    };
    let plaintext = decrypt_note(&encrypted, &w.keys.x25519_secret_bytes()).unwrap();
    assert_eq!(plaintext, note.to_plaintext());
}

#[test]
fn first_note_that_suffices_is_spent() {
    let mut w = wallet();
    w.shield(Fr::from(1), 100).unwrap();
    w.shield(Fr::from(2), 900).unwrap();
    w.shield(Fr::from(1), 500).unwrap();
    w.shield(Fr::from(1), 800).unwrap();
    let result = w.transfer(Fr::from(7), 300, 5, Fr::from(1)).unwrap();
    assert_eq!(result.circuit_fee, 200);
    assert_eq!(result.proof_hex, None);
    let spent: Vec<bool> = w.notes.iter().map(|n| n.spent).collect();
    assert_eq!(spent, vec![false, false, true, false]);
    assert_eq!(result.nullifier, w.notes[2].nullifier);
}

#[test]
fn transfers_with_one_seed_are_equal() {
    let run = || {
        let mut w = wallet();
        w.shield_with(Fr::from(1), 1000, 77, &[9; 32]).unwrap();
        w.transfer_with(Fr::from(5), 800, 0, Fr::from(1), 88).unwrap()
    };
    let (a, b) = (run(), run());
    assert_eq!(a.new_tree_root, b.new_tree_root);
    let out = Note::with_blinding_seed(88, Fr::from(1), 800, Fr::from(5));
    assert_eq!(a.out_commitment, out.commitment());
}

#[test]
fn proofs_travel_with_the_results() {
    let mut w = wallet();
    w.shield(Fr::from(1), 1000).unwrap();
    w.shield(Fr::from(1), 50).unwrap();
    let transfer = w.prepare_transfer(Fr::from(5), 800, Fr::from(1), 88).unwrap();
    assert_eq!(transfer.statement.fee, Fr::from(200));
    assert_eq!(transfer.statement.anchor, w.tree.root());
    assert!(!w.notes[0].spent, "preparing changes nothing");
    let result = w.complete_transfer(&transfer, Some(String::from("0102")));
    assert_eq!(result.proof_hex, Some(String::from("0102")));
    assert!(w.notes[0].spent);

    let unshield = w.prepare_unshield(1, 99).unwrap();
    assert_eq!(unshield.out_note.amount, 0);
    assert_eq!(unshield.out_note.owner_pk, Fr::from(BURN_PK));
    assert_eq!(unshield.circuit_fee, 50);
    let result = w.complete_unshield(&unshield, Some(String::from("03")));
    assert_eq!((result.amount, result.proof_hex), (50, Some(String::from("03"))));
    assert_eq!(w.tree.len(), 3);
}

#[test]
fn refusals_have_their_texts() {
    let mut w = wallet();
    let error = w.transfer(Fr::from(5), 800, 0, Fr::from(1)).unwrap_err();
    assert_eq!(error, WalletError::NoUnspentNote(800));
    assert_eq!(
        error.message(),
        "No unspent note with sufficient balance for 800 units of this rune"
    );
    let error = w.unshield(12).unwrap_err();
    assert_eq!(error, WalletError::NoteNotFound(12));
    assert_eq!(error.message(), "Note index 12 not found or already spent");
}

#[test]
fn notes_that_are_not_in_the_tree_cannot_be_spent() {
    let mut w = wallet();
    w.shield(Fr::from(1), 1000).unwrap();
    w.notes[0].note.amount = 2000;
    let error = w.transfer(Fr::from(5), 1500, 0, Fr::from(1)).unwrap_err();
    assert_eq!(error, WalletError::TransferNotSatisfied);
    assert_eq!(
        error.message(),
        "Circuit is not satisfied — this is a bug in the witness construction"
    );
    let error = w.unshield(0).unwrap_err();
    assert_eq!(error, WalletError::UnshieldNotSatisfied);
    assert_eq!(error.message(), "Circuit not satisfied");
    assert!(!w.notes[0].spent);
    assert_eq!(w.tree.len(), 1);
}

#[test]
fn file_holds_the_whole_wallet() {
    let mut w = wallet();
    w.shield(Fr::from(1), 1000).unwrap();
    w.transfer(Fr::from(5), 800, 0, Fr::from(1)).unwrap();
    let file = w.save();
    assert_eq!(file.version, 1);
    assert_eq!(file.spending_key, fr_to_hex(Fr::from(42)));
    assert_eq!(file.tree_leaves.len(), 2, "leaves of others are kept too");
    assert_eq!(file.notes.len(), 1);
    assert_eq!(file.spent_nullifiers, vec![file.notes[0].nullifier.clone()]);
    let loaded = Wallet::load(&file).unwrap();
    assert_eq!(loaded.tree.root(), w.tree.root());
    assert_eq!(loaded.keys.public_key, w.keys.public_key);
    assert_eq!(loaded.notes[0].note.blinding, w.notes[0].note.blinding);
    assert_eq!(loaded.notes[0].commitment, w.notes[0].commitment);
    assert_eq!(loaded.spent_nullifiers, w.spent_nullifiers);
}

#[test]
fn malformed_files_are_refused() {
    let mut w = wallet();
    w.shield(Fr::from(1), 1000).unwrap();
    let mut file = w.save();
    file.spending_key = String::from("zz");
    assert_eq!(Wallet::load(&file).err(), Some(ElementError::InvalidHex));
    let mut file = w.save();
    file.tree_leaves[0] = "ff".repeat(32);
    assert_eq!(Wallet::load(&file).err(), Some(ElementError::InvalidElement));
    let mut file = w.save();
    file.notes[0].blinding = String::from("00");
    assert_eq!(Wallet::load(&file).err(), Some(ElementError::InvalidElement));
    assert_eq!(fr_from_hex("0"), Err(ElementError::InvalidHex));
}

#[test]
fn synced_notes_can_be_spent() {
    let mut alice = wallet();
    let shield = alice.shield(Fr::from(1), 1000).unwrap();
    let mut copy = wallet();
    let blob = bytes(&shield.encrypted_note_hex);
    let found = copy
        .sync_from_indexed_data(&[(0, shield.commitment)], &[(0, blob.clone())], &[])
        .unwrap();
    assert_eq!((found.new_notes_found, found.notes_marked_spent), (1, 0));
    assert_eq!(copy.notes[0].nullifier, alice.notes[0].nullifier);
    copy.unshield(0).unwrap();
    // The wallet remembers its own spends.
    let again =
        copy.sync_from_indexed_data(&[(0, shield.commitment)], &[(0, blob)], &[]).unwrap();
    assert_eq!((again.new_notes_found, again.notes_marked_spent), (0, 0));
    assert!(copy.notes[0].spent);
}

#[test]
fn entries_outside_the_tree_are_passed_over() {
    let mut alice = wallet();
    let shield = alice.shield(Fr::from(1), 1000).unwrap();
    let blob = bytes(&shield.encrypted_note_hex);
    let mut copy = wallet();
    let entries = [(1, blob), (0, vec![1, 2, 3])];
    let found =
        copy.sync_from_indexed_data(&[(0, shield.commitment)], &entries, &[]).unwrap();
    assert_eq!(found.new_notes_found, 0);
    assert!(copy.notes.is_empty());
    assert_eq!(copy.tree.root(), alice.tree.root());
}

#[test]
fn notes_of_others_cannot_be_spent() {
    let mut w = wallet();
    w.shield(Fr::from(1), 1000).unwrap();
    w.keys = KeySet { spending_key: Fr::from(8), ..w.keys };
    let error = w.transfer(Fr::from(5), 1000, 0, Fr::from(1)).unwrap_err();
    assert_eq!(error, WalletError::TransferNotSatisfied);
}

#[test]
fn books_stay_in_order() {
    let mut w = wallet();
    let own = w.keys.public_key;
    for amount in [1000, 500, 700] {
        w.shield(Fr::from(1), amount).unwrap();
    }
    w.transfer(own, 400, 0, Fr::from(1)).unwrap();
    w.unshield(1).unwrap();
    w.transfer(Fr::from(5), 300, 0, Fr::from(1)).unwrap();
    assert_eq!(w.spent_nullifiers.len(), 3);
    for (i, n) in w.notes.iter().enumerate() {
        let recorded = w.spent_nullifiers.iter().filter(|x| **x == n.nullifier).count();
        assert_eq!(recorded, usize::from(n.spent), "{i}");
        assert!(w.notes.iter().skip(i + 1).all(|m| m.nullifier != n.nullifier));
    }
}

#[test]
fn prepared_spend_carries_the_path_and_the_key() {
    let mut w = wallet();
    w.shield(Fr::from(1), 10).unwrap();
    w.shield(Fr::from(1), 1000).unwrap();
    let spend = w.prepare_transfer(Fr::from(5), 800, Fr::from(1), 6).unwrap();
    let path = w.tree.merkle_path(1);
    assert_eq!(spend.witness.merkle_siblings, path.siblings);
    assert_eq!(spend.witness.merkle_indices, path.indices);
    assert_eq!(spend.witness.spending_key, w.keys.spending_key);
}

#[test]
fn transferred_note_reaches_its_receiver() {
    let mut alice = wallet();
    let mut bob = Wallet::with_keys(KeySet::from_spending_key(Fr::from(77)));
    let shield = alice.shield(Fr::from(1), 1000).unwrap();
    let spend = alice.prepare_transfer(bob.keys.public_key, 800, Fr::from(1), 6).unwrap();
    let sent = alice.complete_transfer(&spend, None);
    let pk = bob.keys.x25519_public_bytes();
    let blob = match transfer_operation(&spend.out_note, &sent, &pk) {
        Some(PruneOp::Transfer { encrypted_note, .. }) => encrypted_note,
        _ => panic!("expected Transfer"),
    };
    let commitments = [(0, shield.commitment), (1, sent.out_commitment)];
    let entries = [(0, bytes(&shield.encrypted_note_hex)), (1, blob)];
    let found = bob.sync_from_indexed_data(&commitments, &entries, &[]).unwrap();
    assert_eq!(found.new_notes_found, 1);
    assert_eq!(bob.notes[0].note.amount, 800);
    assert_eq!(bob.notes[0].commitment, sent.out_commitment);
    assert_eq!(bob.unshield(1).unwrap().amount, 800);
}
