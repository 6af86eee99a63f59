//! The functions that a browser calls.
//!
//! Field elements and byte strings cross this boundary as hexadecimal text. Elements that come in
//! are reduced: any number of bytes is taken.
use vstd::prelude::*;
use vstd::string::StringExecFns;

use crate::bytes::{first_32, le_bytes, le_value};
use crate::circuit::bits::lemma_directions_value;
use crate::circuit::system::ConstraintSystem;
use crate::circuit::{spend_is_valid, SpendCircuit, SpendStatement, SpendWitness};
use crate::cli::{dummy_proof, placeholder_proof};
use crate::ecdh::{random_bytes_32, x25519_public};
use crate::field::{law_compressed_round_trip, lemma_modulus_fits, modulus, values, Fr};
use crate::keys::{
    nullifier_key_spec, public_key_spec, viewing_key_spec, x25519_secret_spec, KeySet,
};
use crate::note::{commitment_spec, plaintext_spec, random_u64, Note};
use crate::nullifier::{compute_nullifier, nullifier_spec};
use crate::poseidon::{
    hash2_spec, hash3_spec, hash4_spec, in_field, lemma_hash_in_field,
};
use crate::sealed::{law_sealed_note_parts, opened_by, seal_note, sealed_note};
use crate::sha::{sha256_digest, tag};
use crate::text::{
    element_text, fr_to_hex, hex_bytes, hex_decode, hex_encode, hex_text, is_hex,
    law_hex_round_trip,
};
use crate::transaction::{
    law_envelope_round_trip, parse_envelope, parse_script, Operation, PruneOp,
};
use crate::tree::{
    capacity, included, law_leaf_included, lemma_node_in_field, lemma_path_unique, root_spec,
    IncrementalMerkleTree, TREE_DEPTH,
};

verus! {

/// Why a call was refused.
#[derive(Clone, Copy, Debug, PartialEq, Eq, Structural)]
pub enum BindingError {
    /// A text is not an even number of hexadecimal digits.
    HexDecode,
    /// The recipient's key is not an even number of hexadecimal digits.
    RecipientHex,
    /// The recipient's key is not 32 bytes.
    RecipientLength,
    /// The spend cannot be proved.
    CircuitNotSatisfied,
}

/// A set of keys.
#[derive(Clone, Debug)]
pub struct KeysJson {
    pub spending_key: String,
    pub viewing_key: String,
    pub nullifier_key: String,
    pub public_key: String,
    pub x25519_public_key: String,
}

/// What a shield publishes.
#[derive(Clone, Debug)]
pub struct ShieldResult {
    pub commitment: String,
    pub encrypted_note: String,
    pub envelope_hex: String,
}

/// What a transfer publishes.
#[derive(Clone, Debug)]
pub struct TransferResult {
    pub nullifier: String,
    pub out_commitment: String,
    pub encrypted_note: String,
    pub anchor: String,
    pub fee: u64,
    pub envelope_hex: String,
}

/// What an unshield publishes.
#[derive(Clone, Debug)]
pub struct UnshieldResult {
    pub nullifier: String,
    pub anchor: String,
    pub amount: u64,
    pub envelope_hex: String,
}

/// A note.
#[derive(Clone, Debug)]
pub struct NoteJson {
    pub rune_id: String,
    pub amount: u64,
    pub blinding: String,
    pub owner_pk: String,
    pub note_index: u64,
}

/// The leaves of a tree.
#[derive(Clone, Debug)]
pub struct TreeJson {
    pub leaves: Vec<String>,
}

/// What an envelope says.
#[derive(Clone, Debug)]
pub struct EnvelopeResult {
    pub op_type: String,
    pub rune_id: String,
    pub commitment: Option<String>,
    pub nullifier: Option<String>,
    pub anchor: Option<String>,
    pub fee: Option<u64>,
    pub amount: Option<u64>,
    pub encrypted_note: Option<String>,
    pub proof: Option<String>,
}

/// The element that digits stand for: the number in the bytes, reduced.
pub open spec fn loose_value(text: Seq<char>) -> nat {
    le_value(hex_bytes(text)) % modulus()
}

/// Reads an element. None where the text is not made of digits.
fn read_element(text: &str) -> (r: Option<Fr>)
    ensures
        match r {
            Some(f) => is_hex(text@) && f@ == loose_value(text@),
            None => !is_hex(text@),
        },
{
    match hex_decode(text) {
        Some(bytes) => Some(Fr::from_le_bytes_mod_order(bytes.as_slice())),
        None => None,
    }
}

impl KeysJson {
    /// Whether the texts are those of the keys of a spending key.
    pub open spec fn is_for(self, sk: nat) -> bool {
        &&& self.spending_key@ == element_text(sk)
        &&& self.viewing_key@ == element_text(viewing_key_spec(sk))
        &&& self.nullifier_key@ == element_text(nullifier_key_spec(sk))
        &&& self.public_key@ == element_text(public_key_spec(sk))
        &&& self.x25519_public_key@ == hex_text(x25519_public(x25519_secret_spec(sk)))
    }

    /// The texts of a set of keys.
    fn of(keys: &KeySet) -> (json: KeysJson)
        requires
            keys.wf(),
        ensures
            json.is_for(keys.spending_key@),
    {
        KeysJson {
            spending_key: fr_to_hex(keys.spending_key),
            viewing_key: fr_to_hex(keys.viewing_key),
            nullifier_key: fr_to_hex(keys.nullifier_key),
            public_key: fr_to_hex(keys.public_key),
            x25519_public_key: hex_encode(keys.x25519_public_bytes().as_slice()),
        }
    }
}

/// The keys of a spending key drawn at random.
pub fn generate_keys() -> (json: KeysJson)
    ensures
        exists|sk: nat| sk < modulus() && #[trigger] json.is_for(sk),
{
    let keys = KeySet::generate();
    KeysJson::of(&keys)
}

/// The keys of a spending key.
pub fn keys_from_spending_key(sk_hex: &str) -> (r: Result<KeysJson, BindingError>)
    ensures
        match r {
            Ok(json) => is_hex(sk_hex@) && json.is_for(loose_value(sk_hex@)),
            Err(e) => !is_hex(sk_hex@) && e == BindingError::HexDecode,
        },
{
    let sk = match read_element(sk_hex) {
        Some(sk) => sk,
        None => {
            return Err(BindingError::HexDecode);
        },
    };
    let keys = KeySet::from_spending_key(sk);
    Ok(KeysJson::of(&keys))
}

/// What a shield of an amount of a Rune gives, for the numbers that were drawn.
pub open spec fn shield_gives(
    r: Result<ShieldResult, BindingError>,
    sk_hex: Seq<char>,
    rune_id_hex: Seq<char>,
    amount: nat,
    seed: nat,
    ephemeral: Seq<u8>,
) -> bool {
    let sk = loose_value(sk_hex);
    let rune_id = loose_value(rune_id_hex);
    let commitment = commitment_spec(rune_id, amount, seed, public_key_spec(sk));
    let note = sealed_note(
        rune_id,
        amount,
        seed,
        x25519_public(x25519_secret_spec(sk)),
        ephemeral,
    );
    let op = Operation::Shield { rune_id, commitment, encrypted_note: note };
    match r {
        Ok(s) => {
            &&& is_hex(sk_hex) && is_hex(rune_id_hex)
            &&& s.commitment@ == element_text(commitment)
            &&& s.encrypted_note@ == hex_text(note)
            &&& s.envelope_hex@ == hex_text(op.envelope_script())
            &&& note.len() == 120
            &&& opened_by(note, x25519_secret_spec(sk), plaintext_spec(rune_id, amount, seed))
        },
        Err(e) => (!is_hex(sk_hex) || !is_hex(rune_id_hex)) && e == BindingError::HexDecode,
    }
}

/// Creates a shield with the given random numbers.
pub fn create_shield_with(
    sk_hex: &str,
    rune_id_hex: &str,
    amount: u64,
    seed: u64,
    ephemeral_secret: &[u8; 32],
) -> (r: Result<ShieldResult, BindingError>)
    ensures
        shield_gives(r, sk_hex@, rune_id_hex@, amount as nat, seed as nat, ephemeral_secret@),
{
    let sk = match read_element(sk_hex) {
        Some(sk) => sk,
        None => {
            return Err(BindingError::HexDecode);
        },
    };
    let rune_id = match read_element(rune_id_hex) {
        Some(rune_id) => rune_id,
        None => {
            return Err(BindingError::HexDecode);
        },
    };
    let keys = KeySet::from_spending_key(sk);
    let note = Note::with_blinding_seed(seed, rune_id, amount, keys.public_key);
    let commitment = note.commitment();
    let receiver_pk = keys.x25519_public_bytes();
    let blob = seal_note(&note, &receiver_pk, ephemeral_secret);
    let encrypted_note = hex_encode(blob.as_slice());
    let op = PruneOp::Shield { rune_id, commitment, encrypted_note: blob };
    let envelope = op.to_envelope_script();
    Ok(
        ShieldResult {
            commitment: fr_to_hex(commitment),
            encrypted_note,
            envelope_hex: hex_encode(envelope.as_slice()),
        },
    )
}

/// Creates a shield: a note for the holder of the spending key, encrypted for the same holder.
pub fn create_shield(sk_hex: &str, rune_id_hex: &str, amount: u64) -> (r: Result<
    ShieldResult,
    BindingError,
>)
    ensures
        exists|seed: nat, ephemeral: Seq<u8>|
            seed <= u64::MAX && ephemeral.len() == 32 && #[trigger] shield_gives(
                r,
                sk_hex@,
                rune_id_hex@,
                amount as nat,
                seed,
                ephemeral,
            ),
{
    let seed: u64 = random_u64();
    let ephemeral_secret = random_bytes_32();
    create_shield_with(sk_hex, rune_id_hex, amount, seed, &ephemeral_secret)
}

impl NoteJson {
    /// Whether all texts of the note are made of digits.
    pub open spec fn is_hex(self) -> bool {
        is_hex(self.rune_id@) && is_hex(self.blinding@) && is_hex(self.owner_pk@)
    }

    /// The commitment to the note.
    pub open spec fn commitment_value(self) -> nat {
        commitment_spec(
            loose_value(self.rune_id@),
            self.amount as nat,
            loose_value(self.blinding@),
            loose_value(self.owner_pk@),
        )
    }

    /// Reads the note. None where a text is not made of digits.
    fn read(&self) -> (r: Option<Note>)
        ensures
            match r {
                Some(note) => {
                    &&& self.is_hex()
                    &&& note.rune_id@ == loose_value(self.rune_id@)
                    &&& note.amount == self.amount
                    &&& note.blinding@ == loose_value(self.blinding@)
                    &&& note.owner_pk@ == loose_value(self.owner_pk@)
                    &&& note.note_index == self.note_index
                },
                None => !self.is_hex(),
            },
    {
        match (
            read_element(self.rune_id.as_str()),
            read_element(self.blinding.as_str()),
            read_element(self.owner_pk.as_str()),
        ) {
            (Some(rune_id), Some(blinding), Some(owner_pk)) => Some(
                Note {
                    rune_id,
                    amount: self.amount,
                    blinding,
                    owner_pk,
                    note_index: self.note_index,
                },
            ),
            _ => None,
        }
    }
}

impl TreeJson {
    /// Whether all leaves are made of digits.
    pub open spec fn is_hex(self) -> bool {
        forall|i: int| 0 <= i < self.leaves@.len() ==> is_hex((#[trigger] self.leaves@[i])@)
    }

    /// The leaves.
    pub open spec fn values(self) -> Seq<nat> {
        Seq::new(self.leaves@.len(), |i: int| loose_value(self.leaves@[i]@))
    }

    /// Rebuilds the tree. None where a leaf is not made of digits.
    fn read(&self) -> (r: Option<IncrementalMerkleTree>)
        requires
            self.leaves@.len() <= capacity(),
        ensures
            match r {
                Some(tree) => self.is_hex() && tree.wf() && tree@ == self.values(),
                None => !self.is_hex(),
            },
    {
        let ghost all = self.values();
        let mut tree = IncrementalMerkleTree::new();
        let mut i: usize = 0;
        while i < self.leaves.len()
            invariant
                i <= self.leaves@.len() <= capacity(),
                all == self.values(),
                tree.wf(),
                tree@ == all.take(i as int),
                forall|k: int| 0 <= k < i ==> is_hex((#[trigger] self.leaves@[k])@),
            decreases self.leaves@.len() - i,
        {
            match read_element(self.leaves[i].as_str()) {
                Some(leaf) => {
                    let index: u64 = tree.append(leaf);
                    assert(all.take(i + 1) =~= all.take(i as int).push(all[i as int]));
                },
                None => {
                    assert(!is_hex(self.leaves@[i as int]@));
                    return None;
                },
            }
            i = i + 1;
        }
        assert(all.take(i as int) =~= all);
        Some(tree)
    }
}

/// The arguments of a transfer.
pub struct TransferRequest {
    pub sk_hex: Seq<char>,
    pub rune_id_hex: Seq<char>,
    pub recipient_pk_hex: Seq<char>,
    pub amount: nat,
    pub note: NoteJson,
    pub tree: TreeJson,
}

impl TransferRequest {
    /// What is wrong with the form of the arguments, where something is.
    pub open spec fn form_error(self) -> Option<BindingError> {
        if !is_hex(self.sk_hex) || !is_hex(self.rune_id_hex) {
            Some(BindingError::HexDecode)
        } else if !is_hex(self.recipient_pk_hex) {
            Some(BindingError::RecipientHex)
        } else if hex_bytes(self.recipient_pk_hex).len() != 32 {
            Some(BindingError::RecipientLength)
        } else if !self.note.is_hex() || !self.tree.is_hex() {
            Some(BindingError::HexDecode)
        } else {
            None
        }
    }

    /// The nullifier of the note that is spent.
    pub open spec fn nullifier(self) -> nat {
        nullifier_spec(
            nullifier_key_spec(loose_value(self.sk_hex)),
            self.note.note_index as nat,
            self.note.commitment_value(),
        )
    }

    /// Whether the spend can be proved: the note is the holder's, is in the tree, is of the Rune that
    /// is asked for, and holds the amount that is asked for.
    pub open spec fn provable(self) -> bool {
        let commitment = commitment_spec(
            loose_value(self.rune_id_hex),
            self.note.amount as nat,
            loose_value(self.note.blinding@),
            loose_value(self.note.owner_pk@),
        );
        &&& self.note.note_index < self.tree.leaves@.len()
        &&& included(self.tree.values(), self.note.note_index as nat, commitment)
        &&& nullifier_spec(
            nullifier_key_spec(loose_value(self.sk_hex)),
            self.note.note_index as nat,
            commitment,
        ) == self.nullifier()
        &&& loose_value(self.note.owner_pk@) == public_key_spec(loose_value(self.sk_hex))
        &&& self.note.amount == self.amount
    }

    /// The owner of the new note: the recipient's key, read as a number.
    pub open spec fn out_owner(self) -> nat {
        loose_value(self.recipient_pk_hex)
    }

    /// The commitment to the new note.
    pub open spec fn out_commitment(self, blinding: nat) -> nat {
        commitment_spec(loose_value(self.rune_id_hex), self.amount, blinding, self.out_owner())
    }

    /// The new note, sealed for the recipient.
    pub open spec fn out_note(self, blinding: nat, ephemeral: Seq<u8>) -> Seq<u8> {
        sealed_note(
            loose_value(self.rune_id_hex),
            self.amount,
            blinding,
            hex_bytes(self.recipient_pk_hex),
            ephemeral,
        )
    }

    /// The operation that publishes the transfer. It carries no fee, and zeros in place of a proof.
    pub open spec fn operation(self, blinding: nat, ephemeral: Seq<u8>) -> Operation {
        Operation::Transfer {
            rune_id: loose_value(self.rune_id_hex),
            nullifier: self.nullifier(),
            out_commitment: self.out_commitment(blinding),
            anchor: root_spec(self.tree.values()),
            fee: 0,
            proof: placeholder_proof(),
            encrypted_note: self.out_note(blinding, ephemeral),
        }
    }

    /// What the transfer gives, for the numbers that were drawn.
    pub open spec fn gives(
        self,
        r: Result<TransferResult, BindingError>,
        blinding: nat,
        ephemeral: Seq<u8>,
    ) -> bool {
        match r {
            Ok(t) => {
                &&& self.form_error() is None
                &&& self.provable()
                &&& t.nullifier@ == element_text(self.nullifier())
                &&& t.out_commitment@ == element_text(self.out_commitment(blinding))
                &&& t.encrypted_note@ == hex_text(self.out_note(blinding, ephemeral))
                &&& self.out_note(blinding, ephemeral).len() == 120
                &&& t.anchor@ == element_text(root_spec(self.tree.values()))
                &&& t.fee == 0
                &&& t.envelope_hex@ == hex_text(
                    self.operation(blinding, ephemeral).envelope_script(),
                )
                &&& forall|secret: Seq<u8>|
                    secret.len() == 32 && #[trigger] x25519_public(secret) == hex_bytes(
                        self.recipient_pk_hex,
                    ) ==> opened_by(
                        self.out_note(blinding, ephemeral),
                        secret,
                        plaintext_spec(loose_value(self.rune_id_hex), self.amount, blinding),
                    )
            },
            Err(e) => match self.form_error() {
                Some(wrong) => e == wrong,
                None => !self.provable() && e == BindingError::CircuitNotSatisfied,
            },
        }
    }
}

/// The arguments of a transfer, together.
pub open spec fn transfer_request(
    sk_hex: &str,
    rune_id_hex: &str,
    recipient_pk_hex: &str,
    amount: u64,
    note: NoteJson,
    tree: TreeJson,
) -> TransferRequest {
    TransferRequest {
        sk_hex: sk_hex@,
        rune_id_hex: rune_id_hex@,
        recipient_pk_hex: recipient_pk_hex@,
        amount: amount as nat,
        note,
        tree,
    }
}

/// Creates a transfer with the given random numbers.
pub fn create_transfer_with(
    sk_hex: &str,
    rune_id_hex: &str,
    recipient_pk_hex: &str,
    amount: u64,
    note: &NoteJson,
    tree: &TreeJson,
    out_blinding: Fr,
    ephemeral_secret: &[u8; 32],
) -> (r: Result<TransferResult, BindingError>)
    requires
        tree.leaves@.len() <= capacity(),
    ensures
        transfer_request(sk_hex, rune_id_hex, recipient_pk_hex, amount, *note, *tree).gives(
            r,
            out_blinding@,
            ephemeral_secret@,
        ),
{
    let ghost request = transfer_request(
        sk_hex,
        rune_id_hex,
        recipient_pk_hex,
        amount,
        *note,
        *tree,
    );
    let (sk, rune_id) = match (read_element(sk_hex), read_element(rune_id_hex)) {
        (Some(sk), Some(rune_id)) => (sk, rune_id),
        _ => {
            return Err(BindingError::HexDecode);
        },
    };
    let keys = KeySet::from_spending_key(sk);
    let recipient_bytes = match hex_decode(recipient_pk_hex) {
        Some(bytes) => bytes,
        None => {
            return Err(BindingError::RecipientHex);
        },
    };
    if recipient_bytes.len() != 32 {
        return Err(BindingError::RecipientLength);
    }
    assert(recipient_bytes@.take(32) =~= recipient_bytes@);
    let recipient_pk = first_32(recipient_bytes.as_slice());
    let (input_note, tree_state) = match (note.read(), tree.read()) {
        (Some(input_note), Some(tree_state)) => (input_note, tree_state),
        _ => {
            return Err(BindingError::HexDecode);
        },
    };
    let anchor = tree_state.root();
    let input_commitment = input_note.commitment();
    let nullifier = compute_nullifier(
        keys.nullifier_key,
        input_note.note_index,
        input_commitment,
    );
    let out_note = Note {
        rune_id,
        amount,
        blinding: out_blinding,
        owner_pk: Fr::from_le_bytes_mod_order(recipient_pk.as_slice()),
        note_index: 0,
    };
    let out_commitment = out_note.commitment();
    if input_note.note_index >= tree_state.len() {
        return Err(BindingError::CircuitNotSatisfied);
    }
    let statement = SpendStatement {
        rune_id,
        anchor,
        nullifier,
        out_commitment,
        fee: Fr::from(0),
    };
    let satisfied = spend_satisfied(
        &keys,
        &tree_state,
        &input_note,
        &out_note,
        statement,
    );
    if !satisfied {
        return Err(BindingError::CircuitNotSatisfied);
    }
    let blob = seal_note(&out_note, &recipient_pk, ephemeral_secret);
    let encrypted_note = hex_encode(blob.as_slice());
    let op = PruneOp::Transfer {
        rune_id,
        nullifier,
        out_commitment,
        anchor,
        fee: 0,
        proof: dummy_proof(),
        encrypted_note: blob,
    };
    assert(op@ == request.operation(out_blinding@, ephemeral_secret@));
    let envelope = op.to_envelope_script();
    Ok(
        TransferResult {
            nullifier: fr_to_hex(nullifier),
            out_commitment: fr_to_hex(out_commitment),
            encrypted_note,
            anchor: fr_to_hex(anchor),
            fee: 0,
            envelope_hex: hex_encode(envelope.as_slice()),
        },
    )
}

/// Whether the spend of a note into another, without a fee, proves the given statement.
fn spend_satisfied(
    keys: &KeySet,
    tree: &IncrementalMerkleTree,
    input: &Note,
    output: &Note,
    statement: SpendStatement,
) -> (satisfied: bool)
    requires
        keys.wf(),
        tree.wf(),
        input.note_index < tree@.len(),
        statement.anchor@ == root_spec(tree@),
        statement.fee@ == 0,
        statement.rune_id == output.rune_id,
        statement.out_commitment@ == output.commitment_value(),
    ensures
        ({
            let commitment = commitment_spec(
                statement.rune_id@,
                input.amount as nat,
                input.blinding@,
                input.owner_pk@,
            );
            satisfied == (included(tree@, input.note_index as nat, commitment)
                && nullifier_spec(keys.nullifier_key@, input.note_index as nat, commitment)
                == statement.nullifier@ && input.owner_pk@ == public_key_spec(keys.spending_key@)
                && input.amount == output.amount)
        }),
{
    let path = tree.merkle_path(input.note_index);
    proof {
        lemma_path_unique(
            tree@,
            input.note_index as nat,
            values(path.siblings@),
            path.indices@,
        );
        lemma_modulus_fits();
        vstd::arithmetic::div_mod::lemma_small_mod(output.amount as nat, modulus());
        tree.lemma_fits();
        lemma_directions_value(input.note_index as nat);
        vstd::arithmetic::div_mod::lemma_small_mod(input.note_index as nat, modulus());
    }
    let witness = SpendWitness {
        in_amount: Fr::from(input.amount),
        in_blinding: input.blinding,
        owner_pk: input.owner_pk,
        nullifier_key: keys.nullifier_key,
        note_index: Fr::from(input.note_index),
        merkle_siblings: path.siblings,
        merkle_indices: path.indices,
        out_amount: Fr::from(output.amount),
        out_blinding: output.blinding,
        out_owner_pk: output.owner_pk,
        spending_key: keys.spending_key,
    };
    let ghost w = witness@;
    let circuit = SpendCircuit::for_prove(witness, statement);
    let mut cs = ConstraintSystem::new();
    circuit.generate_constraints(&mut cs);
    let satisfied = cs.is_satisfied();
    assert(satisfied == spend_is_valid(statement@, w));
    satisfied
}

/// Creates a transfer: spends a note of the holder of the spending key into a new note, encrypted
/// for the recipient's x25519 key. The spend is checked; the proof itself is left to others, and
/// zeros stand in its place.
pub fn create_transfer(
    sk_hex: &str,
    rune_id_hex: &str,
    recipient_pk_hex: &str,
    amount: u64,
    note: &NoteJson,
    tree: &TreeJson,
) -> (r: Result<TransferResult, BindingError>)
    requires
        tree.leaves@.len() <= capacity(),
    ensures
        exists|blinding: nat, ephemeral: Seq<u8>|
            blinding < modulus() && ephemeral.len() == 32 && #[trigger] transfer_request(
                sk_hex,
                rune_id_hex,
                recipient_pk_hex,
                amount,
                *note,
                *tree,
            ).gives(r, blinding, ephemeral),
{
    let out_blinding = Fr::random();
    let ephemeral_secret = random_bytes_32();
    create_transfer_with(
        sk_hex,
        rune_id_hex,
        recipient_pk_hex,
        amount,
        note,
        tree,
        out_blinding,
        &ephemeral_secret,
    )
}

/// Creates an unshield of a note of the holder of the spending key. The operation has no new note,
/// and zeros in place of a proof.
pub fn create_unshield(sk_hex: &str, note: &NoteJson, tree: &TreeJson) -> (r: Result<
    UnshieldResult,
    BindingError,
>)
    requires
        tree.leaves@.len() <= capacity(),
    ensures
        ({
            let well_formed = is_hex(sk_hex@) && note.is_hex() && tree.is_hex();
            let nullifier = nullifier_spec(
                nullifier_key_spec(loose_value(sk_hex@)),
                note.note_index as nat,
                note.commitment_value(),
            );
            let anchor = root_spec(tree.values());
            let op = Operation::Unshield {
                rune_id: loose_value(note.rune_id@),
                nullifier,
                out_commitment: 0,
                anchor,
                amount: note.amount as nat,
                proof: placeholder_proof(),
            };
            match r {
                Ok(u) => {
                    &&& well_formed
                    &&& u.nullifier@ == element_text(nullifier)
                    &&& u.anchor@ == element_text(anchor)
                    &&& u.amount == note.amount
                    &&& u.envelope_hex@ == hex_text(op.envelope_script())
                },
                Err(e) => !well_formed && e == BindingError::HexDecode,
            }
        }),
        r matches Ok(u) ==> {
            let sk = le_value(hex_bytes(sk_hex@)) % modulus();
            let nullifier = hash3_spec(
                hash2_spec(sk, 0x7052756e655f6e6b),
                note.note_index as nat,
                note.commitment_value(),
            );
            &&& loose_value(u.nullifier@) == nullifier
            &&& loose_value(u.anchor@) == root_spec(tree.values())
            &&& parse_script(hex_bytes(u.envelope_hex@)) == Some(
                Operation::Unshield {
                    rune_id: le_value(hex_bytes(note.rune_id@)) % modulus(),
                    nullifier,
                    out_commitment: 0,
                    anchor: root_spec(tree.values()),
                    amount: note.amount as nat,
                    proof: Seq::new(192, |i: int| 0u8),
                },
            )
        },
{
    let sk = match read_element(sk_hex) {
        Some(sk) => sk,
        None => {
            return Err(BindingError::HexDecode);
        },
    };
    let keys = KeySet::from_spending_key(sk);
    let (input_note, tree_state) = match (note.read(), tree.read()) {
        (Some(input_note), Some(tree_state)) => (input_note, tree_state),
        _ => {
            return Err(BindingError::HexDecode);
        },
    };
    let anchor = tree_state.root();
    let input_commitment = input_note.commitment();
    let nullifier = compute_nullifier(
        keys.nullifier_key,
        input_note.note_index,
        input_commitment,
    );
    let op = PruneOp::Unshield {
        rune_id: input_note.rune_id,
        nullifier,
        out_commitment: Fr::from(0),
        anchor,
        amount: note.amount,
        proof: dummy_proof(),
    };
    proof {
        let leaves = tree.values();
        assert(in_field(leaves));
        lemma_node_in_field(leaves, TREE_DEPTH as nat, 0);
        lemma_hash_in_field(
            keys.nullifier_key@,
            input_note.note_index as nat,
            input_commitment@,
            0,
        );
        law_element_text_is_read(nullifier@);
        law_element_text_is_read(anchor@);
        law_envelope_text_round_trip(op@);
    }
    let envelope = op.to_envelope_script();
    Ok(
        UnshieldResult {
            nullifier: fr_to_hex(nullifier),
            anchor: fr_to_hex(anchor),
            amount: note.amount,
            envelope_hex: hex_encode(envelope.as_slice()),
        },
    )
}

/// Whether an optional text is the given one.
pub open spec fn text_is(text: Option<String>, expected: Option<Seq<char>>) -> bool {
    match (text, expected) {
        (Some(t), Some(e)) => t@ == e,
        (None, None) => true,
        _ => false,
    }
}

impl EnvelopeResult {
    /// Whether this is what an operation says.
    pub open spec fn describes(self, op: Operation) -> bool {
        match op {
            Operation::Shield { rune_id, commitment, encrypted_note } => {
                &&& self.op_type@ == "shield"@
                &&& self.rune_id@ == element_text(rune_id)
                &&& text_is(self.commitment, Some(element_text(commitment)))
                &&& self.nullifier is None
                &&& self.anchor is None
                &&& self.fee is None
                &&& self.amount is None
                &&& text_is(self.encrypted_note, Some(hex_text(encrypted_note)))
                &&& self.proof is None
            },
            Operation::Transfer {
                rune_id,
                nullifier,
                out_commitment,
                anchor,
                fee,
                proof,
                encrypted_note,
            } => {
                &&& self.op_type@ == "transfer"@
                &&& self.rune_id@ == element_text(rune_id)
                &&& text_is(self.commitment, Some(element_text(out_commitment)))
                &&& text_is(self.nullifier, Some(element_text(nullifier)))
                &&& text_is(self.anchor, Some(element_text(anchor)))
                &&& self.fee matches Some(f) && f == fee
                &&& self.amount is None
                &&& text_is(self.encrypted_note, Some(hex_text(encrypted_note)))
                &&& text_is(self.proof, Some(hex_text(proof)))
            },
            Operation::Unshield { rune_id, nullifier, out_commitment, anchor, amount, proof } => {
                &&& self.op_type@ == "unshield"@
                &&& self.rune_id@ == element_text(rune_id)
                &&& text_is(self.commitment, Some(element_text(out_commitment)))
                &&& text_is(self.nullifier, Some(element_text(nullifier)))
                &&& text_is(self.anchor, Some(element_text(anchor)))
                &&& self.fee is None
                &&& self.amount matches Some(a) && a == amount
                &&& self.encrypted_note is None
                &&& text_is(self.proof, Some(hex_text(proof)))
            },
        }
    }
}

/// Reads the operation in a script that is given in digits. Nothing where there is none.
pub fn parse_prune_envelope(script_hex: &str) -> (r: Result<Option<EnvelopeResult>, BindingError>)
    ensures
        match r {
            Ok(Some(e)) => {
                &&& is_hex(script_hex@)
                &&& parse_script(hex_bytes(script_hex@)) matches Some(op) && e.describes(op)
            },
            Ok(None) => is_hex(script_hex@) && parse_script(hex_bytes(script_hex@)) is None,
            Err(e) => !is_hex(script_hex@) && e == BindingError::HexDecode,
        },
{
    let script = match hex_decode(script_hex) {
        Some(script) => script,
        None => {
            return Err(BindingError::HexDecode);
        },
    };
    match parse_envelope(script.as_slice()) {
        None => Ok(None),
        Some(op) => {
            let result = match op {
                PruneOp::Shield { rune_id, commitment, encrypted_note } => EnvelopeResult {
                    op_type: String::from_str("shield"),
                    rune_id: fr_to_hex(rune_id),
                    commitment: Some(fr_to_hex(commitment)),
                    nullifier: None,
                    anchor: None,
                    fee: None,
                    amount: None,
                    encrypted_note: Some(hex_encode(encrypted_note.as_slice())),
                    proof: None,
                },
                PruneOp::Transfer {
                    rune_id,
                    nullifier,
                    out_commitment,
                    anchor,
                    fee,
                    proof,
                    encrypted_note,
                } => EnvelopeResult {
                    op_type: String::from_str("transfer"),
                    rune_id: fr_to_hex(rune_id),
                    commitment: Some(fr_to_hex(out_commitment)),
                    nullifier: Some(fr_to_hex(nullifier)),
                    anchor: Some(fr_to_hex(anchor)),
                    fee: Some(fee),
                    amount: None,
                    encrypted_note: Some(hex_encode(encrypted_note.as_slice())),
                    proof: Some(hex_encode(proof.as_slice())),
                },
                PruneOp::Unshield {
                    rune_id,
                    nullifier,
                    out_commitment,
                    anchor,
                    amount,
                    proof,
                } => EnvelopeResult {
                    op_type: String::from_str("unshield"),
                    rune_id: fr_to_hex(rune_id),
                    commitment: Some(fr_to_hex(out_commitment)),
                    nullifier: Some(fr_to_hex(nullifier)),
                    anchor: Some(fr_to_hex(anchor)),
                    fee: None,
                    amount: Some(amount),
                    encrypted_note: None,
                    proof: Some(hex_encode(proof.as_slice())),
                },
            };
            Ok(Some(result))
        },
    }
}

/// The envelope that a call returns in digits reads back as the operation it was made from.
pub proof fn law_envelope_text_round_trip(op: Operation)
    requires
        op.pushable(),
        op.in_range(),
    ensures
        is_hex(hex_text(op.envelope_script())),
        parse_script(hex_bytes(hex_text(op.envelope_script()))) == Some(op),
{
    law_hex_round_trip(op.envelope_script());
    law_envelope_round_trip(op);
}

/// The text of an element that a call returns stands for that element where another call takes it:
/// keys that were generated are restored from their spending key.
pub proof fn law_element_text_is_read(x: nat)
    requires
        x < modulus(),
    ensures
        is_hex(element_text(x)),
        loose_value(element_text(x)) == x,
{
    law_hex_round_trip(le_bytes(x, 32));
    law_compressed_round_trip(x, Seq::empty());
}

/// An element is given as the digits of its bytes, the least significant first, and is taken modulo
/// the order of the field.
pub proof fn law_loose_element(text: Seq<char>, bytes: Seq<u8>)
    ensures
        loose_value(text) == le_value(hex_bytes(text)) % modulus(),
        loose_value(hex_text(bytes)) == le_value(bytes) % modulus(),
        loose_value(text) < modulus(),
{
    law_hex_round_trip(bytes);
}

/// The keys that a call returns are those derived from the spending key, each in its field.
pub proof fn law_keys_in_text(json: KeysJson, sk: nat)
    requires
        sk < modulus(),
    ensures
        json.is_for(sk) <==> {
            &&& json.spending_key@ == hex_text(le_bytes(sk, 32))
            &&& json.viewing_key@ == hex_text(le_bytes(hash2_spec(sk, 0x7652756e655f766b), 32))
            &&& json.nullifier_key@ == hex_text(le_bytes(hash2_spec(sk, 0x7052756e655f6e6b), 32))
            &&& json.public_key@ == hex_text(le_bytes(hash2_spec(sk, 0x7052756e655f706b), 32))
            &&& json.x25519_public_key@ == hex_text(
                x25519_public(sha256_digest(tag("pRune_x25519_sk") + le_bytes(sk, 32))),
            )
        },
        json.is_for(sk) ==> loose_value(json.spending_key@) == sk,
{
    if json.is_for(sk) {
        law_element_text_is_read(sk);
    }
}

/// Reading the envelope of a shield gives a shield of the Rune that was asked for, which commits to
/// the amount for the holder of the spending key and carries the very bytes of the note that was
/// returned; whoever has the x25519 secret of the holder opens them. Nothing but the digits of the
/// arguments can stand in the way.
pub proof fn law_created_shield_is_read(
    r: Result<ShieldResult, BindingError>,
    sk_hex: Seq<char>,
    rune_id_hex: Seq<char>,
    amount: nat,
    seed: nat,
    ephemeral: Seq<u8>,
)
    requires
        shield_gives(r, sk_hex, rune_id_hex, amount, seed, ephemeral),
    ensures
        r is Ok <==> is_hex(sk_hex) && is_hex(rune_id_hex),
        r is Err ==> r->Err_0 == BindingError::HexDecode,
        r matches Ok(s) ==> {
            let sk = le_value(hex_bytes(sk_hex)) % modulus();
            let rune_id = le_value(hex_bytes(rune_id_hex)) % modulus();
            let commitment = hash4_spec(
                rune_id,
                amount,
                seed,
                hash2_spec(sk, 0x7052756e655f706b),
            );
            let note = hex_bytes(s.encrypted_note@);
            &&& loose_value(s.commitment@) == commitment
            &&& note.len() == 120
            &&& x25519_public(ephemeral).len() == 32 ==> note.take(32) == x25519_public(ephemeral)
            &&& opened_by(
                note,
                sha256_digest(tag("pRune_x25519_sk") + le_bytes(sk, 32)),
                le_bytes(rune_id, 32) + le_bytes(amount, 8) + le_bytes(seed, 32),
            )
            &&& parse_script(hex_bytes(s.envelope_hex@)) == Some(
                Operation::Shield { rune_id, commitment, encrypted_note: note },
            )
        },
{
    if r is Ok {
        let s = r->Ok_0;
        let sk = loose_value(sk_hex);
        let rune_id = loose_value(rune_id_hex);
        let pk = public_key_spec(sk);
        let commitment = commitment_spec(rune_id, amount, seed, pk);
        lemma_hash_in_field(rune_id, amount, seed, pk);
        law_element_text_is_read(commitment);
        let note = sealed_note(
            rune_id,
            amount,
            seed,
            x25519_public(x25519_secret_spec(sk)),
            ephemeral,
        );
        law_hex_round_trip(note);
        law_envelope_text_round_trip(
            Operation::Shield { rune_id, commitment, encrypted_note: note },
        );
        if x25519_public(ephemeral).len() == 32 {
            law_sealed_note_parts(
                rune_id,
                amount,
                seed,
                x25519_public(x25519_secret_spec(sk)),
                ephemeral,
            );
        }
    }
}

/// What a note and a tree in text stand for: the note has digits in each of its three texts and
/// commits to what they say; the tree has digits in each leaf and the leaves in their order.
pub proof fn law_texts_of_note_and_tree(note: NoteJson, tree: TreeJson, i: int)
    ensures
        note.is_hex() <==> is_hex(note.rune_id@) && is_hex(note.blinding@) && is_hex(
            note.owner_pk@,
        ),
        note.commitment_value() == hash4_spec(
            le_value(hex_bytes(note.rune_id@)) % modulus(),
            note.amount as nat,
            le_value(hex_bytes(note.blinding@)) % modulus(),
            le_value(hex_bytes(note.owner_pk@)) % modulus(),
        ),
        tree.is_hex() && 0 <= i < tree.leaves@.len() ==> is_hex(tree.leaves@[i]@),
        !tree.is_hex() ==> exists|k: int|
            0 <= k < tree.leaves@.len() && !is_hex((#[trigger] tree.leaves@[k])@),
        tree.values().len() == tree.leaves@.len(),
        0 <= i < tree.leaves@.len() ==> tree.values()[i] == le_value(hex_bytes(tree.leaves@[i]@))
            % modulus(),
{
}

/// A transfer comes about exactly where all texts are digits, the recipient's are 32 bytes, and the
/// spend can be proved; else the first thing that is wrong is told.
pub proof fn law_transfer_is_refused(
    request: TransferRequest,
    r: Result<TransferResult, BindingError>,
    blinding: nat,
    ephemeral: Seq<u8>,
)
    requires
        request.gives(r, blinding, ephemeral),
    ensures
        ({
            let arguments = is_hex(request.sk_hex) && is_hex(request.rune_id_hex);
            let recipient = is_hex(request.recipient_pk_hex);
            let length = hex_bytes(request.recipient_pk_hex).len() == 32;
            let state = request.note.is_hex() && request.tree.is_hex();
            &&& r is Ok <==> arguments && recipient && length && state && request.provable()
            &&& !arguments ==> r is Err && r->Err_0 == BindingError::HexDecode
            &&& arguments && !recipient ==> r is Err && r->Err_0 == BindingError::RecipientHex
            &&& arguments && recipient && !length ==> r is Err && r->Err_0
                == BindingError::RecipientLength
            &&& arguments && recipient && length && !state ==> r is Err && r->Err_0
                == BindingError::HexDecode
            &&& arguments && recipient && length && state && !request.provable() ==> r is Err
                && r->Err_0 == BindingError::CircuitNotSatisfied
        }),
{
}

/// A note of the holder, of the Rune that is asked for, that is in the tree at its place and holds
/// what is asked for can be transferred.
pub proof fn law_own_note_can_be_transferred(request: TransferRequest)
    requires
        request.note.note_index < request.tree.leaves@.len() <= capacity(),
        loose_value(request.tree.leaves@[request.note.note_index as int]@) == hash4_spec(
            loose_value(request.rune_id_hex),
            request.amount,
            loose_value(request.note.blinding@),
            hash2_spec(loose_value(request.sk_hex), 0x7052756e655f706b),
        ),
        loose_value(request.note.rune_id@) == loose_value(request.rune_id_hex),
        loose_value(request.note.owner_pk@) == hash2_spec(
            loose_value(request.sk_hex),
            0x7052756e655f706b,
        ),
        request.note.amount == request.amount,
    ensures
        request.provable(),
{
    law_leaf_included(request.tree.values(), request.note.note_index as nat);
}

/// What can be transferred is the holder's: another owner, another amount than the note holds, or a
/// place that the tree has not, is refused, and so is a note whose path does not lead to the root.
pub proof fn law_only_own_note_is_transferred(request: TransferRequest)
    requires
        request.provable(),
    ensures
        request.note.amount == request.amount,
        request.note.note_index < request.tree.leaves@.len(),
        loose_value(request.note.owner_pk@) == hash2_spec(
            loose_value(request.sk_hex),
            0x7052756e655f706b,
        ),
        included(
            request.tree.values(),
            request.note.note_index as nat,
            hash4_spec(
                loose_value(request.rune_id_hex),
                request.amount,
                loose_value(request.note.blinding@),
                loose_value(request.note.owner_pk@),
            ),
        ),
{
}

/// Reading the envelope of a transfer gives a transfer of the Rune that was asked for, with the
/// nullifier of the note under the holder's key, the root of the tree, no fee, 192 zeros for a
/// proof, a commitment to the amount for the recipient, and the very bytes of the note that was
/// returned, which the recipient opens.
pub proof fn law_created_transfer_is_read(
    request: TransferRequest,
    r: Result<TransferResult, BindingError>,
    blinding: nat,
    ephemeral: Seq<u8>,
)
    requires
        request.gives(r, blinding, ephemeral),
        r is Ok,
    ensures
        ({
            let t = r->Ok_0;
            let rune_id = le_value(hex_bytes(request.rune_id_hex)) % modulus();
            let sk = le_value(hex_bytes(request.sk_hex)) % modulus();
            let recipient = hex_bytes(request.recipient_pk_hex);
            let nullifier = hash3_spec(
                hash2_spec(sk, 0x7052756e655f6e6b),
                request.note.note_index as nat,
                request.note.commitment_value(),
            );
            let out_commitment = hash4_spec(
                rune_id,
                request.amount,
                blinding,
                le_value(recipient) % modulus(),
            );
            let anchor = root_spec(request.tree.values());
            let note = hex_bytes(t.encrypted_note@);
            &&& loose_value(t.nullifier@) == nullifier
            &&& loose_value(t.out_commitment@) == out_commitment
            &&& loose_value(t.anchor@) == anchor
            &&& t.fee == 0
            &&& note.len() == 120
            &&& x25519_public(ephemeral).len() == 32 ==> note.take(32) == x25519_public(ephemeral)
            &&& forall|secret: Seq<u8>|
                secret.len() == 32 && #[trigger] x25519_public(secret) == recipient ==> opened_by(
                    note,
                    secret,
                    le_bytes(rune_id, 32) + le_bytes(request.amount, 8) + le_bytes(blinding, 32),
                )
            &&& parse_script(hex_bytes(t.envelope_hex@)) == Some(
                Operation::Transfer {
                    rune_id,
                    nullifier,
                    out_commitment,
                    anchor,
                    fee: 0,
                    proof: Seq::new(192, |i: int| 0u8),
                    encrypted_note: note,
                },
            )
        }),
{
    let t = r->Ok_0;
    let rune_id = loose_value(request.rune_id_hex);
    let nk = nullifier_key_spec(loose_value(request.sk_hex));
    let index = request.note.note_index as nat;
    let leaves = request.tree.values();
    lemma_hash_in_field(nk, index, request.note.commitment_value(), 0);
    lemma_hash_in_field(rune_id, request.amount, blinding, request.out_owner());
    assert(in_field(leaves));
    lemma_node_in_field(leaves, TREE_DEPTH as nat, 0);
    law_element_text_is_read(request.nullifier());
    law_element_text_is_read(request.out_commitment(blinding));
    law_element_text_is_read(root_spec(leaves));
    law_hex_round_trip(request.out_note(blinding, ephemeral));
    if x25519_public(ephemeral).len() == 32 {
        law_sealed_note_parts(
            rune_id,
            request.amount,
            blinding,
            hex_bytes(request.recipient_pk_hex),
            ephemeral,
        );
    }
    law_envelope_text_round_trip(request.operation(blinding, ephemeral));
}

/// The arguments of a transfer are put together as they are given.
pub proof fn law_transfer_arguments(
    sk_hex: &str,
    rune_id_hex: &str,
    recipient_pk_hex: &str,
    amount: u64,
    note: NoteJson,
    tree: TreeJson,
)
    ensures
        ({
            let request = transfer_request(
                sk_hex,
                rune_id_hex,
                recipient_pk_hex,
                amount,
                note,
                tree,
            );
            &&& request.sk_hex == sk_hex@
            &&& request.rune_id_hex == rune_id_hex@
            &&& request.recipient_pk_hex == recipient_pk_hex@
            &&& request.amount == amount
            &&& request.note == note
            &&& request.tree == tree
        }),
{
}

/// What is said of a shield stands for its parts, and nothing else is said.
pub proof fn law_shield_is_described(
    e: EnvelopeResult,
    rune_id: nat,
    commitment: nat,
    encrypted_note: Seq<u8>,
)
    requires
        rune_id < modulus(),
        commitment < modulus(),
        e.describes(Operation::Shield { rune_id, commitment, encrypted_note }),
    ensures
        e.op_type@ == "shield"@,
        loose_value(e.rune_id@) == rune_id,
        e.commitment is Some && loose_value(e.commitment->0@) == commitment,
        e.nullifier is None,
        e.anchor is None,
        e.fee is None,
        e.amount is None,
        e.encrypted_note is Some && hex_bytes(e.encrypted_note->0@) == encrypted_note,
        e.proof is None,
{
    law_element_text_is_read(rune_id);
    law_element_text_is_read(commitment);
    law_hex_round_trip(encrypted_note);
}

/// What is said of a transfer stands for its parts, and nothing else is said.
pub proof fn law_transfer_is_described(
    e: EnvelopeResult,
    rune_id: nat,
    nullifier: nat,
    out_commitment: nat,
    anchor: nat,
    fee: nat,
    proof_bytes: Seq<u8>,
    encrypted_note: Seq<u8>,
)
    requires
        rune_id < modulus(),
        nullifier < modulus(),
        out_commitment < modulus(),
        anchor < modulus(),
        e.describes(
            Operation::Transfer {
                rune_id,
                nullifier,
                out_commitment,
                anchor,
                fee,
                proof: proof_bytes,
                encrypted_note,
            },
        ),
    ensures
        e.op_type@ == "transfer"@,
        loose_value(e.rune_id@) == rune_id,
        e.commitment is Some && loose_value(e.commitment->0@) == out_commitment,
        e.nullifier is Some && loose_value(e.nullifier->0@) == nullifier,
        e.anchor is Some && loose_value(e.anchor->0@) == anchor,
        e.fee is Some && e.fee->0 == fee,
        e.amount is None,
        e.encrypted_note is Some && hex_bytes(e.encrypted_note->0@) == encrypted_note,
        e.proof is Some && hex_bytes(e.proof->0@) == proof_bytes,
{
    law_element_text_is_read(rune_id);
    law_element_text_is_read(nullifier);
    law_element_text_is_read(out_commitment);
    law_element_text_is_read(anchor);
    law_hex_round_trip(proof_bytes);
    law_hex_round_trip(encrypted_note);
}

/// What is said of an unshield stands for its parts, and nothing else is said.
pub proof fn law_unshield_is_described(
    e: EnvelopeResult,
    rune_id: nat,
    nullifier: nat,
    out_commitment: nat,
    anchor: nat,
    amount: nat,
    proof_bytes: Seq<u8>,
)
    requires
        rune_id < modulus(),
        nullifier < modulus(),
        out_commitment < modulus(),
        anchor < modulus(),
        e.describes(
            Operation::Unshield {
                rune_id,
                nullifier,
                out_commitment,
                anchor,
                amount,
                proof: proof_bytes,
            },
        ),
    ensures
        e.op_type@ == "unshield"@,
        loose_value(e.rune_id@) == rune_id,
        e.commitment is Some && loose_value(e.commitment->0@) == out_commitment,
        e.nullifier is Some && loose_value(e.nullifier->0@) == nullifier,
        e.anchor is Some && loose_value(e.anchor->0@) == anchor,
        e.fee is None,
        e.amount is Some && e.amount->0 == amount,
        e.encrypted_note is None,
        e.proof is Some && hex_bytes(e.proof->0@) == proof_bytes,
{
    law_element_text_is_read(rune_id);
    law_element_text_is_read(nullifier);
    law_element_text_is_read(out_commitment);
    law_element_text_is_read(anchor);
    law_hex_round_trip(proof_bytes);
}

} // verus!
