use prune::bindings::{
    create_shield, create_shield_with, create_transfer, create_transfer_with, create_unshield,
    generate_keys, keys_from_spending_key, parse_prune_envelope, BindingError, NoteJson, TreeJson,
};
use prune::encryption::{decrypt_note, EncryptedNote};
use prune::field::Fr;
use prune::keys::KeySet;
use prune::note::Note;
use prune::nullifier::compute_nullifier;
use prune::text::{fr_from_hex, fr_to_hex};
use prune::tree::IncrementalMerkleTree;

fn keys() -> KeySet {
    KeySet::from_spending_key(Fr::from(42))
}

/// A note of 1000 units of a Rune, owned by the keys.
fn note() -> Note {
    Note::with_blinding_seed(77, Fr::from(1), 1000, keys().public_key)
}

fn note_json() -> NoteJson {
    NoteJson {
        rune_id: fr_to_hex(Fr::from(1)),
        amount: 1000,
        blinding: fr_to_hex(Fr::from(77)),
        owner_pk: fr_to_hex(keys().public_key),
        note_index: 1,
    }
}

fn tree() -> IncrementalMerkleTree {
    let mut tree = IncrementalMerkleTree::new();
    tree.append(Fr::from(5));
    tree.append(note().commitment());
    tree
}

fn tree_json() -> TreeJson {
    TreeJson { leaves: tree().leaves().iter().map(|leaf| fr_to_hex(*leaf)).collect() }
}

fn recipient() -> KeySet {
    KeySet::from_spending_key(Fr::from(43))
}

fn recipient_hex() -> String {
    hex::encode(recipient().x25519_public_bytes())
}

/// Opens an encrypted note that is given in digits.
fn open(text: &str, keys: &KeySet) -> Vec<u8> {
    let blob = hex::decode(text).unwrap();
    let encrypted = EncryptedNote {
        ephemeral_pk: blob[..32].try_into().unwrap(),
        ciphertext: blob[32..].to_vec(),
    };
    decrypt_note(&encrypted, &keys.x25519_secret_bytes()).unwrap()
}

#[test]
fn keys_of_a_spending_key() {
    let json = keys_from_spending_key(&fr_to_hex(Fr::from(42))).unwrap();
    assert_eq!(json.spending_key, fr_to_hex(Fr::from(42)));
    assert_eq!(json.viewing_key, fr_to_hex(keys().viewing_key));
    assert_eq!(json.nullifier_key, fr_to_hex(keys().nullifier_key));
    assert_eq!(json.public_key, fr_to_hex(keys().public_key));
    assert_eq!(json.x25519_public_key, hex::encode(keys().x25519_public_bytes()));
    // Elements are reduced and may be short.
    assert_eq!(keys_from_spending_key("2a").unwrap().spending_key, json.spending_key);
    assert_eq!(keys_from_spending_key("2").unwrap_err(), BindingError::HexDecode);
}

#[test]
fn generated_keys_belong_together() {
    let json = generate_keys();
    let again = keys_from_spending_key(&json.spending_key).unwrap();
    assert_eq!(json.public_key, again.public_key);
    assert_eq!(json.x25519_public_key, again.x25519_public_key);
    assert_ne!(json.spending_key, generate_keys().spending_key);
}

#[test]
fn shield_for_its_maker() {
    let result = create_shield_with("2a", "01", 1000, 77, &[9; 32]).unwrap();
    assert_eq!(result.commitment, fr_to_hex(note().commitment()));
    assert_eq!(open(&result.encrypted_note, &keys()), note().to_plaintext());
    let envelope = parse_prune_envelope(&result.envelope_hex).unwrap().unwrap();
    assert_eq!(envelope.op_type, "shield");
    assert_eq!(envelope.rune_id, fr_to_hex(Fr::from(1)));
    assert_eq!(envelope.commitment, Some(result.commitment));
    assert_eq!(envelope.encrypted_note, Some(result.encrypted_note));
    assert_eq!((envelope.fee, envelope.amount, envelope.proof), (None, None, None));

    let drawn = create_shield("2a", "01", 1000).unwrap();
    let plaintext = open(&drawn.encrypted_note, &keys());
    let read = Note::from_plaintext(&plaintext, keys().public_key, 0).unwrap();
    assert_eq!(fr_from_hex(&drawn.commitment), Ok(read.commitment()));
    assert_eq!(create_shield("z", "01", 1).unwrap_err(), BindingError::HexDecode);
    assert_eq!(create_shield("2a", "z", 1).unwrap_err(), BindingError::HexDecode);
}

#[test]
fn transfer_to_a_recipient() {
    let result = create_transfer_with(
        "2a",
        "01",
        &recipient_hex(),
        1000,
        &note_json(),
        &tree_json(),
        Fr::from(88),
        &[9; 32],
    )
    .unwrap();
    let owner = Fr::from_le_bytes_mod_order(&recipient().x25519_public_bytes());
    let out = Note::with_blinding_seed(88, Fr::from(1), 1000, owner);
    assert_eq!(result.out_commitment, fr_to_hex(out.commitment()));
    let nullifier = compute_nullifier(keys().nullifier_key, 1, note().commitment());
    assert_eq!(result.nullifier, fr_to_hex(nullifier));
    assert_eq!(result.anchor, fr_to_hex(tree().root()));
    assert_eq!(result.fee, 0);
    assert_eq!(open(&result.encrypted_note, &recipient()), out.to_plaintext());
    let envelope = parse_prune_envelope(&result.envelope_hex).unwrap().unwrap();
    assert_eq!(envelope.op_type, "transfer");
    assert_eq!(envelope.nullifier, Some(result.nullifier));
    assert_eq!(envelope.anchor, Some(result.anchor));
    assert_eq!(envelope.fee, Some(0));
    assert_eq!(envelope.proof, Some("00".repeat(192)));
}

#[test]
fn transfers_draw_their_numbers() {
    let run = || {
        create_transfer("2a", "01", &recipient_hex(), 1000, &note_json(), &tree_json()).unwrap()
    };
    let (a, b) = (run(), run());
    assert_eq!(a.nullifier, b.nullifier);
    assert_ne!(a.out_commitment, b.out_commitment);
    assert_ne!(a.encrypted_note, b.encrypted_note);
}

#[test]
fn malformed_transfers_are_refused() {
    let run = |sk: &str, rune: &str, recipient: &str, note: &NoteJson, tree: &TreeJson| {
        create_transfer(sk, rune, recipient, 1000, note, tree).unwrap_err()
    };
    let (pk, note, tree) = (recipient_hex(), note_json(), tree_json());
    assert_eq!(run("2", "01", &pk, &note, &tree), BindingError::HexDecode);
    assert_eq!(run("2a", "0", &pk, &note, &tree), BindingError::HexDecode);
    assert_eq!(run("2a", "01", "zz", &note, &tree), BindingError::RecipientHex);
    assert_eq!(run("2a", "01", "00", &note, &tree), BindingError::RecipientLength);
    let bad_note = NoteJson { blinding: String::from("z"), ..note.clone() };
    assert_eq!(run("2a", "01", &pk, &bad_note, &tree), BindingError::HexDecode);
    let bad_tree = TreeJson { leaves: vec![String::from("z")] };
    assert_eq!(run("2a", "01", &pk, &note, &bad_tree), BindingError::HexDecode);
}

#[test]
fn transfers_that_cannot_be_proved_are_refused() {
    let run = |rune: &str, amount: u64, note: &NoteJson, tree: &TreeJson| {
        create_transfer("2a", rune, &recipient_hex(), amount, note, tree).unwrap_err()
    };
    let refused = BindingError::CircuitNotSatisfied;
    let (note, tree) = (note_json(), tree_json());
    assert_eq!(run("01", 999, &note, &tree), refused);
    assert_eq!(run("02", 1000, &note, &tree), refused);
    assert_eq!(run("01", 1000, &NoteJson { note_index: 0, ..note.clone() }, &tree), refused);
    assert_eq!(run("01", 1000, &NoteJson { note_index: 2, ..note.clone() }, &tree), refused);
    assert_eq!(run("01", 1000, &note, &TreeJson { leaves: vec![] }), refused);
    let stranger = create_transfer("2b", "01", &recipient_hex(), 1000, &note, &tree);
    assert_eq!(stranger.unwrap_err(), refused);
}

#[test]
fn unshield_of_a_note() {
    let result = create_unshield("2a", &note_json(), &tree_json()).unwrap();
    let nullifier = compute_nullifier(keys().nullifier_key, 1, note().commitment());
    assert_eq!(result.nullifier, fr_to_hex(nullifier));
    assert_eq!(result.anchor, fr_to_hex(tree().root()));
    assert_eq!(result.amount, 1000);
    let envelope = parse_prune_envelope(&result.envelope_hex).unwrap().unwrap();
    assert_eq!(envelope.op_type, "unshield");
    assert_eq!(envelope.amount, Some(1000));
    assert_eq!(envelope.commitment, Some(fr_to_hex(Fr::zero())));
    assert_eq!(envelope.encrypted_note, None);
    assert_eq!(envelope.fee, None);
    let bad = NoteJson { owner_pk: String::from("z"), ..note_json() };
    assert_eq!(create_unshield("2a", &bad, &tree_json()).unwrap_err(), BindingError::HexDecode);
}

#[test]
fn scripts_without_an_envelope() {
    assert!(parse_prune_envelope("51").unwrap().is_none());
    assert!(parse_prune_envelope("").unwrap().is_none());
    assert_eq!(parse_prune_envelope("5").unwrap_err(), BindingError::HexDecode);
}
