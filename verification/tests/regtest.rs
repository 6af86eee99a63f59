use prune::encryption::encrypt_note;
use prune::field::Fr;
use prune::keys::KeySet;
use prune::note::Note;
use prune::wallet::Wallet;
use rand::RngCore;

/// Helper: encrypt a note for a recipient's x25519 public key.
/// Returns the raw bytes (ephemeral_pk || ciphertext) as stored on-chain.
fn encrypt_note_for_recipient(note: &Note, recipient_x25519_pk: &[u8; 32]) -> Vec<u8> {
    let plaintext = note.to_plaintext();
    let encrypted = encrypt_note(&plaintext, recipient_x25519_pk).unwrap();
    [encrypted.ephemeral_pk.as_slice(), &encrypted.ciphertext].concat()
}

// ─── Test 1: Shield -> verify commitment appears in wallet ───────────────────

#[test]
fn regtest_shield_commitment_in_wallet() {
    let mut alice = Wallet::create();
    let rune_id = Fr::from(1u64);

    // Shield 1000 units
    let shield_result = alice.shield(rune_id, 1000).unwrap();

    // Verify: note was added to the wallet
    assert_eq!(alice.notes.len(), 1, "wallet should have exactly 1 note after shield");
    assert!(!alice.notes[0].spent, "shielded note should not be spent");
    assert_eq!(alice.notes[0].note.amount, 1000);
    assert_eq!(alice.notes[0].note.rune_id, rune_id);

    // Verify: commitment is in the Merkle tree
    assert_eq!(alice.tree.len(), 1, "tree should have exactly 1 leaf");
    assert_eq!(shield_result.note_index, 0, "first note should have index 0");

    // Verify: commitment is non-zero and matches what's stored
    assert_ne!(shield_result.commitment, Fr::zero());
    assert_eq!(
        alice.notes[0].commitment, shield_result.commitment,
        "stored commitment must match shield result"
    );

    // Verify: encrypted note was produced (non-empty hex)
    assert!(
        !shield_result.encrypted_note_hex.is_empty(),
        "shield must produce encrypted note for on-chain publication"
    );

    // Verify: tree root is valid (non-zero after insertion)
    assert_ne!(shield_result.tree_root, Fr::zero());

    // Verify: nullifier was computed for the note
    assert_ne!(alice.notes[0].nullifier, Fr::zero());

    // Verify: Merkle path verifies against root
    let path = alice.tree.merkle_path(0);
    let computed_root = path.compute_root(alice.notes[0].commitment);
    assert_eq!(
        computed_root,
        alice.tree.root(),
        "Merkle path for shielded note must verify"
    );
}

// ─── Test 2: Shield -> Transfer -> verify nullifier spent, output exists ─────

#[test]
fn regtest_shield_transfer_nullifier_and_output() {
    let mut alice = Wallet::create();
    let rune_id = Fr::from(1u64);

    // Shield 1000
    let shield = alice.shield(rune_id, 1000).unwrap();
    let original_nullifier = alice.notes[0].nullifier;

    // Transfer 700 to self
    let transfer = alice
        .transfer(alice.keys.public_key, 700, 0, rune_id)
        .unwrap();

    // Verify: input note is marked spent
    assert!(alice.notes[0].spent, "input note must be marked spent after transfer");

    // Verify: nullifier was recorded in spent_nullifiers
    assert!(
        alice.spent_nullifiers.contains(&original_nullifier),
        "nullifier of spent note must appear in spent_nullifiers list"
    );

    // Verify: the transfer produced a valid nullifier that matches
    assert_eq!(
        transfer.nullifier, original_nullifier,
        "transfer result nullifier must match the input note's nullifier"
    );

    // Verify: output note exists and is unspent
    assert_eq!(alice.notes.len(), 2, "should have input note + output note");
    assert!(!alice.notes[1].spent, "output note should be unspent");
    assert_eq!(alice.notes[1].note.amount, 700);

    // Verify: output commitment is in the tree
    assert_eq!(alice.tree.len(), 2, "tree should have 2 leaves: shield + transfer output");
    assert_eq!(
        transfer.out_commitment, alice.notes[1].commitment,
        "transfer output commitment must match stored note commitment"
    );

    // Verify: fee is correct (1000 - 700 = 300)
    assert_eq!(transfer.circuit_fee, 300);

    // Verify: tree root was updated
    assert_ne!(
        transfer.new_tree_root, shield.tree_root,
        "tree root must change after adding transfer output"
    );
}

// ─── Test 3: Shield -> Transfer -> Unshield -> full lifecycle ────────────────

#[test]
fn regtest_full_lifecycle_shield_transfer_unshield() {
    let mut alice = Wallet::create();
    let rune_id = Fr::from(1u64);

    // Step 1: Shield 1000
    alice.shield(rune_id, 1000).unwrap();
    assert_eq!(alice.notes.len(), 1);
    assert!(!alice.notes[0].spent);

    // Step 2: Transfer 800 to self (200 fee)
    let transfer = alice
        .transfer(alice.keys.public_key, 800, 0, rune_id)
        .unwrap();
    assert!(alice.notes[0].spent, "original note spent");
    assert_eq!(alice.notes.len(), 2);
    assert!(!alice.notes[1].spent, "transfer output unspent");
    assert_eq!(alice.notes[1].note.amount, 800);
    assert_eq!(transfer.circuit_fee, 200);

    // Step 3: Unshield the 800-unit note
    let output_note_index = alice.notes[1].note.note_index;
    let unshield = alice.unshield(output_note_index).unwrap();

    // Verify: amount matches
    assert_eq!(unshield.amount, 800);
    assert_eq!(unshield.rune_id, rune_id);

    // Verify: note is now spent
    assert!(alice.notes[1].spent, "unshielded note must be spent");

    // Verify: all notes are spent (full lifecycle complete)
    let unspent: Vec<_> = alice.notes.iter().filter(|n| !n.spent).collect();
    assert!(
        unspent.is_empty(),
        "after full lifecycle, all notes should be spent; found {} unspent",
        unspent.len()
    );

    // Verify: nullifier was recorded
    assert_ne!(unshield.nullifier, Fr::zero());
    assert!(
        alice.spent_nullifiers.contains(&unshield.nullifier),
        "unshield nullifier must be in spent_nullifiers"
    );

    // Verify: two nullifiers total (one from transfer, one from unshield)
    assert_eq!(
        alice.spent_nullifiers.len(),
        2,
        "should have 2 spent nullifiers: transfer + unshield"
    );
}

// ─── Test 4: Double-spend rejection ──────────────────────────────────────────

#[test]
fn regtest_double_spend_rejected() {
    let mut alice = Wallet::create();
    let rune_id = Fr::from(1u64);
    let bob_keys = KeySet::from_spending_key(Fr::from(999u64));

    // Shield 500
    alice.shield(rune_id, 500).unwrap();
    assert_eq!(alice.notes.len(), 1);

    // First transfer: spend the note (send 500 to Bob)
    alice
        .transfer(bob_keys.public_key, 500, 0, rune_id)
        .unwrap();
    assert!(alice.notes[0].spent, "note must be spent after first transfer");

    // Alice sent to Bob, so Alice does NOT get the output note
    assert_eq!(
        alice.notes.len(),
        1,
        "Alice should not track Bob's output note"
    );

    // Second transfer: attempt to spend again -- must fail
    let second = alice.transfer(bob_keys.public_key, 500, 0, rune_id);
    assert!(
        second.is_err(),
        "double-spend must be rejected: no unspent notes remain"
    );
    let err_msg = second.unwrap_err().message();
    assert!(
        err_msg.contains("No unspent note"),
        "error should mention no unspent note, got: {err_msg}"
    );

    // Verify: only one nullifier was spent
    assert_eq!(
        alice.spent_nullifiers.len(),
        1,
        "only one nullifier should be spent (the successful transfer)"
    );
}

#[test]
fn regtest_double_spend_same_note_index() {
    let mut alice = Wallet::create();
    let rune_id = Fr::from(1u64);

    // Shield two notes
    alice.shield(rune_id, 500).unwrap();
    alice.shield(rune_id, 300).unwrap();
    assert_eq!(alice.notes.len(), 2);

    // Spend the first note
    alice
        .transfer(alice.keys.public_key, 400, 0, rune_id)
        .unwrap();
    assert!(alice.notes[0].spent);

    // Try to unshield the already-spent note by its index
    let result = alice.unshield(0);
    assert!(
        result.is_err(),
        "unshielding an already-spent note must fail"
    );

    // The second note should still be available
    assert!(!alice.notes[1].spent, "second note should be unspent");
    let unshield = alice.unshield(1);
    assert!(unshield.is_ok(), "second note should unshield successfully");
}

// ─── Test 5: Cross-wallet transfer ──────────────────────────────────────────

#[test]
fn regtest_cross_wallet_transfer_alice_to_bob() {
    let mut alice = Wallet::create();
    let bob = Wallet::create();
    let rune_id = Fr::from(1u64);

    // Alice shields 1000
    alice.shield(rune_id, 1000).unwrap();
    assert_eq!(alice.notes.len(), 1);

    // Alice transfers 700 to Bob's public key
    let transfer = alice
        .transfer(bob.keys.public_key, 700, 0, rune_id)
        .unwrap();

    // Verify: Alice's note is spent
    assert!(alice.notes[0].spent, "Alice's input note must be spent");

    // Verify: Alice does NOT have Bob's output note
    assert_eq!(
        alice.notes.len(),
        1,
        "Alice should not track notes sent to Bob"
    );

    // Verify: transfer produced valid output
    assert_ne!(transfer.out_commitment, Fr::zero());
    assert_ne!(transfer.nullifier, Fr::zero());
    assert_eq!(transfer.circuit_fee, 300); // 1000 - 700

    // Bob's wallet is empty (he hasn't synced yet)
    assert_eq!(
        bob.notes.len(),
        0,
        "Bob has no notes yet (sync not performed)"
    );

    // The output note was created for Bob's public key with amount=700.
    // We can verify the commitment is valid by checking it's in Alice's tree.
    assert_eq!(
        alice.tree.len(),
        2,
        "Alice's tree has 2 leaves: shield + transfer output"
    );
}

#[test]
fn regtest_cross_wallet_bob_discovers_note_via_sync() {
    // Full cross-wallet flow using sync_from_indexed_data:
    // Alice shields, transfers to Bob, Bob syncs and discovers the note.

    let mut alice = Wallet::create();
    let mut bob = Wallet::create();
    let rune_id = Fr::from(1u64);

    // Alice shields 1000
    let alice_shield = alice.shield(rune_id, 1000).unwrap();

    // Alice transfers 700 to Bob (using Bob's Poseidon public_key for the circuit,
    // but we encrypt the note with Bob's x25519 public key for on-chain discovery)
    let transfer = alice
        .transfer(bob.keys.public_key, 700, 0, rune_id)
        .unwrap();

    // Build the on-chain encrypted note for Bob.
    // In the real system, Alice's wallet would encrypt this for Bob's x25519 key
    // and embed it in the Taproot witness. Here we simulate that.
    let bob_x25519_pk = bob.keys.x25519_public_bytes();
    let mut rng = ark_std::test_rng();
    let out_note = Note::with_blinding_seed(rng.next_u64(), rune_id, 700, bob.keys.public_key);
    // The note is written out with a known blinding.
    let bob_note = Note {
        rune_id,
        amount: 700,
        blinding: out_note.blinding,
        owner_pk: bob.keys.public_key,
        note_index: 1, // second leaf in tree
    };
    let enc_data = encrypt_note_for_recipient(&bob_note, &bob_x25519_pk);

    // Simulate the on-chain state that the indexer would provide to Bob:
    // - All commitments in tree order
    // - Encrypted notes with their tree indices
    // - All nullifiers published on-chain
    let commitments: Vec<(u64, Fr)> = vec![
        (0, alice_shield.commitment),       // Alice's shield commitment
        (1, transfer.out_commitment),       // Transfer output commitment
    ];
    let encrypted_notes: Vec<(u64, Vec<u8>)> = vec![
        // Alice's shield encrypted note (Bob can't decrypt this)
        (0, vec![0u8; 120]),  // dummy data Bob can't decrypt
        // Transfer output encrypted for Bob
        (1, enc_data),
    ];
    // No nullifiers published yet (Alice's nullifier is on-chain but
    // Bob doesn't own that note, so it doesn't affect him)
    let nullifiers: Vec<[u8; 32]> = vec![];

    // Bob syncs
    let sync_result = bob
        .sync_from_indexed_data(&commitments, &encrypted_notes, &nullifiers)
        .unwrap();

    // Bob should have discovered 1 note (the transfer output)
    assert_eq!(
        sync_result.new_notes_found, 1,
        "Bob should discover exactly 1 note"
    );
    assert_eq!(bob.notes.len(), 1);
    assert_eq!(bob.notes[0].note.amount, 700);
    assert!(!bob.notes[0].spent, "Bob's note should be unspent");
    assert_eq!(bob.notes[0].note.rune_id, rune_id);
}

// ─── Test 6: Wallet sync — create notes, verify discovery ───────────────────

#[test]
fn regtest_wallet_sync_via_save_load() {
    let rune_id = Fr::from(1u64);

    // Phase 1: Create wallet, shield notes, transfer
    let (pk, tree_len, note_count, file);
    {
        let mut wallet = Wallet::create();
        pk = wallet.keys.public_key;

        wallet.shield(rune_id, 1000).unwrap();
        wallet.shield(rune_id, 2000).unwrap();
        wallet.shield(rune_id, 500).unwrap();

        // Transfer from first note
        wallet
            .transfer(wallet.keys.public_key, 800, 0, rune_id)
            .unwrap();

        tree_len = wallet.tree.len();
        note_count = wallet.notes.len();
        file = wallet.save();
    }

    // Phase 2: Load wallet (recovery from its file)
    let loaded = Wallet::load(&file).unwrap();

    // Verify: all state is recovered
    assert_eq!(loaded.keys.public_key, pk, "public key must survive save/load");
    assert_eq!(
        loaded.notes.len(),
        note_count,
        "all notes must survive save/load"
    );
    assert_eq!(loaded.tree.len(), tree_len, "tree must survive save/load");

    // Verify: note states are correct
    assert!(loaded.notes[0].spent, "first note should be spent (transferred)");
    assert!(!loaded.notes[1].spent, "second note should be unspent");
    assert!(!loaded.notes[2].spent, "third note should be unspent");

    // The transfer output (note index 3) should be unspent
    let transfer_output = &loaded.notes[3];
    assert!(!transfer_output.spent);
    assert_eq!(transfer_output.note.amount, 800);

    // Verify: spent nullifiers survived
    assert_eq!(
        loaded.spent_nullifiers.len(),
        1,
        "one nullifier should be in spent list"
    );

    // Verify: Merkle paths still work after load
    let root = loaded.tree.root();
    for sn in &loaded.notes {
        let mpath = loaded.tree.merkle_path(sn.note.note_index);
        let computed = mpath.compute_root(sn.commitment);
        assert_eq!(
            computed, root,
            "Merkle path for note {} must verify after wallet reload",
            sn.note.note_index
        );
    }
}

#[test]
fn regtest_wallet_sync_multiple_runes() {
    // Verify that synced wallet correctly tracks multiple rune types

        let rune_a = Fr::from(1u64); // e.g., bUSD
    let rune_b = Fr::from(2u64); // e.g., some other rune

    let file;
    {
        let mut wallet = Wallet::create();

        // Shield different runes
        wallet.shield(rune_a, 1000).unwrap();
        wallet.shield(rune_b, 500).unwrap();
        wallet.shield(rune_a, 2000).unwrap();

        // Transfer rune_a
        wallet
            .transfer(wallet.keys.public_key, 800, 0, rune_a)
            .unwrap();
        file = wallet.save();
    }

    // Reload and verify
    let loaded = Wallet::load(&file).unwrap();

    // Count notes by rune
    let rune_a_notes: Vec<_> = loaded
        .notes
        .iter()
        .filter(|n| n.note.rune_id == rune_a)
        .collect();
    let rune_b_notes: Vec<_> = loaded
        .notes
        .iter()
        .filter(|n| n.note.rune_id == rune_b)
        .collect();

    // rune_a: 2 original shields + 1 transfer output = 3 notes
    assert_eq!(rune_a_notes.len(), 3, "rune_a should have 3 notes");
    // rune_b: 1 shield = 1 note
    assert_eq!(rune_b_notes.len(), 1, "rune_b should have 1 note");

    // rune_b should be completely unaffected by rune_a transfers
    assert!(!rune_b_notes[0].spent);
    assert_eq!(rune_b_notes[0].note.amount, 500);

    // Verify conservation for rune_a
    let rune_a_unspent_sum: u64 = rune_a_notes
        .iter()
        .filter(|n| !n.spent)
        .map(|n| n.note.amount)
        .sum();
    // 1000 shielded (spent) + 2000 shielded (unspent) + 800 transfer output (unspent)
    // fee = 200
    assert_eq!(
        rune_a_unspent_sum, 2800,
        "rune_a unspent balance: 2000 (shield) + 800 (transfer output) = 2800"
    );
}

// ─── Test: sync_from_indexed_data discovers notes and marks spent ────────────

#[test]
fn regtest_sync_discovers_notes_and_marks_spent() {
    // Full sync lifecycle: shield notes, sync to discover them,
    // then sync again with nullifiers to mark them spent.

    let mut alice = Wallet::create();
    let rune_id = Fr::from(1u64);

    // Create a second wallet that will sync from "on-chain" data
    let mut alice_synced = Wallet::create();
    // Overwrite with same keys so the synced wallet can decrypt Alice's notes
    alice_synced.keys = alice.keys.clone();

    let alice_x25519_pk = alice.keys.x25519_public_bytes();

    // Alice shields 2 notes
    let shield1 = alice.shield(rune_id, 1000).unwrap();
    let shield2 = alice.shield(rune_id, 2000).unwrap();

    // Build encrypted notes as they'd appear on-chain
    let enc1 = encrypt_note_for_recipient(&alice.notes[0].note, &alice_x25519_pk);
    let enc2 = encrypt_note_for_recipient(&alice.notes[1].note, &alice_x25519_pk);

    // Simulate indexer data: all commitments + encrypted notes
    let commitments = vec![
        (0u64, shield1.commitment),
        (1u64, shield2.commitment),
    ];
    let encrypted_notes = vec![
        (0u64, enc1),
        (1u64, enc2),
    ];

    // First sync: no nullifiers yet
    let sync1 = alice_synced
        .sync_from_indexed_data(&commitments, &encrypted_notes, &[])
        .unwrap();

    assert_eq!(sync1.new_notes_found, 2, "should discover 2 notes");
    assert_eq!(sync1.notes_marked_spent, 0, "no nullifiers = nothing spent");
    assert_eq!(alice_synced.notes.len(), 2);
    assert_eq!(alice_synced.notes[0].note.amount, 1000);
    assert_eq!(alice_synced.notes[1].note.amount, 2000);

    // Now Alice spends note 0 (on-chain this publishes its nullifier)
    alice
        .transfer(alice.keys.public_key, 800, 0, rune_id)
        .unwrap();

    // Get the nullifier that was published on-chain
    let spent_nullifier = alice.notes[0].nullifier;
    let mut nullifier_bytes = [0u8; 32];
    nullifier_bytes.copy_from_slice(&spent_nullifier.serialize_compressed());

    // Second sync: include the spent nullifier
    let sync2 = alice_synced
        .sync_from_indexed_data(&commitments, &encrypted_notes, &[nullifier_bytes])
        .unwrap();

    // Notes are rediscovered (sync rebuilds), but the spent one is marked
    assert_eq!(sync2.notes_marked_spent, 1, "one note should be marked spent");

    // Find the spent note
    let spent_count = alice_synced.notes.iter().filter(|n| n.spent).count();
    assert_eq!(spent_count, 1, "exactly one note should be spent after sync");
}

#[test]
fn regtest_sync_ignores_notes_for_other_wallets() {
    // Verify that sync correctly skips notes encrypted for other recipients

    let mut alice = Wallet::create();
    let mut bob = Wallet::create();
    let mut charlie = Wallet::create();
    let rune_id = Fr::from(1u64);

    // Alice shields a note (encrypted for Alice)
    let alice_shield = alice.shield(rune_id, 1000).unwrap();
    let alice_x25519_pk = alice.keys.x25519_public_bytes();
    let enc_for_alice = encrypt_note_for_recipient(&alice.notes[0].note, &alice_x25519_pk);

    // Build indexer data
    let commitments = vec![(0u64, alice_shield.commitment)];
    let encrypted_notes = vec![(0u64, enc_for_alice.clone())];

    // Bob syncs: should find nothing (can't decrypt Alice's note)
    let bob_sync = bob
        .sync_from_indexed_data(&commitments, &encrypted_notes, &[])
        .unwrap();
    assert_eq!(bob_sync.new_notes_found, 0, "Bob should not discover Alice's note");
    assert_eq!(bob.notes.len(), 0);

    // Charlie syncs: should also find nothing
    let charlie_sync = charlie
        .sync_from_indexed_data(&commitments, &encrypted_notes, &[])
        .unwrap();
    assert_eq!(charlie_sync.new_notes_found, 0, "Charlie should not discover Alice's note");
    assert_eq!(charlie.notes.len(), 0);
}

// ─── Additional regtest scenarios ────────────────────────────────────────────

#[test]
fn regtest_multiple_shields_then_batch_spend() {
    let mut wallet = Wallet::create();
    let rune_id = Fr::from(1u64);

    // Shield 5 notes of varying amounts
    let amounts = [100u64, 200, 300, 400, 500];
    for &amount in &amounts {
        wallet.shield(rune_id, amount).unwrap();
    }
    assert_eq!(wallet.notes.len(), 5);
    assert_eq!(wallet.tree.len(), 5);

    // Spend each note in sequence (transfer to self with partial amount)
    let mut total_fees = 0u64;
    for i in 0..5 {
        let note_amount = wallet.notes[i].note.amount;
        let send_amount = note_amount / 2; // send half, fee = other half
        if send_amount == 0 {
            continue;
        }
        let result = wallet
            .transfer(wallet.keys.public_key, send_amount, 0, rune_id)
            .unwrap();
        total_fees += result.circuit_fee;
    }

    // Verify: all original notes are spent
    for i in 0..5 {
        assert!(
            wallet.notes[i].spent,
            "original note {} should be spent",
            i
        );
    }

    // Verify: 5 new output notes exist
    assert_eq!(
        wallet.notes.len(),
        10,
        "5 original + 5 transfer outputs = 10 notes"
    );

    // Verify: tree grew by 5 (transfer outputs)
    assert_eq!(
        wallet.tree.len(),
        10,
        "5 shield leaves + 5 transfer output leaves = 10"
    );

    // Verify: conservation
    let unspent_sum: u64 = wallet
        .notes
        .iter()
        .filter(|n| !n.spent)
        .map(|n| n.note.amount)
        .sum();
    let total_shielded: u64 = amounts.iter().sum();
    assert_eq!(
        unspent_sum + total_fees,
        total_shielded,
        "conservation: unspent ({unspent_sum}) + fees ({total_fees}) = total ({total_shielded})"
    );
}

#[test]
fn regtest_unshield_without_prior_transfer() {
    // Shield and immediately unshield (no transfer step)
    let mut wallet = Wallet::create();
    let rune_id = Fr::from(1u64);

    wallet.shield(rune_id, 5000).unwrap();

    // Unshield directly
    let unshield = wallet.unshield(0).unwrap();
    assert_eq!(unshield.amount, 5000);
    assert_eq!(unshield.rune_id, rune_id);
    assert!(wallet.notes[0].spent);

    // No more operations possible
    let result = wallet.transfer(wallet.keys.public_key, 1, 0, rune_id);
    assert!(result.is_err(), "no unspent notes remain");
}

#[test]
fn regtest_tree_consistency_across_operations() {
    let mut wallet = Wallet::create();
    let rune_id = Fr::from(1u64);

    // Build up a tree through various operations
    wallet.shield(rune_id, 100).unwrap();
    wallet.shield(rune_id, 200).unwrap();
    wallet
        .transfer(wallet.keys.public_key, 50, 0, rune_id)
        .unwrap();
    wallet.shield(rune_id, 300).unwrap();
    wallet
        .transfer(wallet.keys.public_key, 150, 0, rune_id)
        .unwrap();

    // Tree should have: 2 shields + 1 transfer out + 1 shield + 1 transfer out = 5 leaves
    assert_eq!(wallet.tree.len(), 5);

    // Every note's commitment should verify against the current root
    let root = wallet.tree.root();
    for sn in &wallet.notes {
        let path = wallet.tree.merkle_path(sn.note.note_index);
        let computed = path.compute_root(sn.commitment);
        assert_eq!(
            computed, root,
            "Merkle path for note at index {} must verify against root",
            sn.note.note_index
        );
    }
}
