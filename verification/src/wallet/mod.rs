//! The wallet: keys, notes, the tree, and the operations on them.
//!
//! A wallet is changed in memory only. What it writes to its file and reads from it are plain
//! records; see [`file`]. Operations that draw random numbers have a counterpart that takes them as
//! arguments.
use vstd::arithmetic::div_mod::lemma_small_mod;
use vstd::pervasive::unreached;
use vstd::prelude::*;
use vstd::string::StringExecFns;

use crate::circuit::bits::lemma_directions_value;
use crate::circuit::system::ConstraintSystem;
use crate::circuit::{spend_is_valid, SpendCircuit, SpendStatement, SpendWitness};
use crate::ecdh::{random_bytes_32, x25519_public};
use crate::encryption::{encrypt_note_with, EncryptedNote};
use crate::field::{lemma_fr_equal, lemma_modulus_fits, modulus, values, Fr};
use crate::keys::{nullifier_key_spec, public_key_spec, x25519_secret_spec, KeySet};
use crate::note::{commitment_spec, plaintext_spec, random_u64, Note};
use crate::nullifier::{compute_nullifier, nullifier_spec};
use crate::text::{
    append_decimal, decimal_text, hex_encode, hex_text, join_path, joined_path,
};
use crate::tree::{
    capacity, copy_elements, included, lemma_path_unique, path_directions, path_siblings, root_spec,
    IncrementalMerkleTree,
};

pub use crate::text::{fr_from_hex, fr_to_hex};

pub mod file;
pub mod laws;
pub mod sync;

verus! {

/// The owner of the notes that unshielding creates. Nobody holds its key.
pub const BURN_PK: u64 = 0xb02bb02b;

/// A note that the wallet owns.
#[derive(Clone, Copy, Debug)]
pub struct StoredNote {
    pub note: Note,
    pub commitment: Fr,
    pub nullifier: Fr,
    pub spent: bool,
}

/// What a stored note says.
pub struct NoteRecord {
    pub rune_id: nat,
    pub amount: nat,
    pub blinding: nat,
    pub owner_pk: nat,
    pub note_index: nat,
    pub commitment: nat,
    pub nullifier: nat,
    pub spent: bool,
}

impl View for StoredNote {
    type V = NoteRecord;

    open spec fn view(&self) -> NoteRecord {
        NoteRecord {
            rune_id: self.note.rune_id@,
            amount: self.note.amount as nat,
            blinding: self.note.blinding@,
            owner_pk: self.note.owner_pk@,
            note_index: self.note.note_index as nat,
            commitment: self.commitment@,
            nullifier: self.nullifier@,
            spent: self.spent,
        }
    }
}

/// What a list of stored notes says.
pub open spec fn records(notes: Seq<StoredNote>) -> Seq<NoteRecord> {
    Seq::new(notes.len(), |i: int| notes[i]@)
}

/// A wallet.
pub struct Wallet {
    pub keys: KeySet,
    pub notes: Vec<StoredNote>,
    pub tree: IncrementalMerkleTree,
    pub spent_nullifiers: Vec<Fr>,
}

/// What a wallet holds.
#[verifier::ext_equal]
pub struct WalletState {
    pub keys: KeySet,
    pub notes: Seq<NoteRecord>,
    pub leaves: Seq<nat>,
    pub spent_nullifiers: Seq<nat>,
}

impl View for Wallet {
    type V = WalletState;

    open spec fn view(&self) -> WalletState {
        WalletState {
            keys: self.keys,
            notes: records(self.notes@),
            leaves: self.tree@,
            spent_nullifiers: values(self.spent_nullifiers@),
        }
    }
}

/// Why an operation was refused.
#[derive(Clone, Copy, Debug, PartialEq, Eq, Structural)]
pub enum WalletError {
    /// No unspent note of the Rune holds the amount.
    NoUnspentNote(u64),
    /// No unspent note has the index.
    NoteNotFound(u64),
    /// The transfer cannot be proved: the note that it selects is not in the tree, is not owned by
    /// the wallet's key, or its nullifier is not its own.
    TransferNotSatisfied,
    /// The unshield cannot be proved, for the same reasons.
    UnshieldNotSatisfied,
}

/// The text of an error.
pub open spec fn error_text(e: WalletError) -> Seq<char> {
    match e {
        WalletError::NoUnspentNote(amount) => "No unspent note with sufficient balance for "@
            + decimal_text(amount as nat) + " units of this rune"@,
        WalletError::NoteNotFound(index) => "Note index "@ + decimal_text(index as nat)
            + " not found or already spent"@,
        WalletError::TransferNotSatisfied =>
            "Circuit is not satisfied — this is a bug in the witness construction"@,
        WalletError::UnshieldNotSatisfied => "Circuit not satisfied"@,
    }
}

impl WalletError {
    /// The text of the error.
    pub fn message(&self) -> (text: String)
        ensures
            text@ == error_text(*self),
    {
        match self {
            WalletError::NoUnspentNote(amount) => {
                let mut text = String::from_str("No unspent note with sufficient balance for ");
                append_decimal(&mut text, *amount);
                text.append(" units of this rune");
                text
            },
            WalletError::NoteNotFound(index) => {
                let mut text = String::from_str("Note index ");
                append_decimal(&mut text, *index);
                text.append(" not found or already spent");
                text
            },
            WalletError::TransferNotSatisfied => String::from_str(
                "Circuit is not satisfied — this is a bug in the witness construction",
            ),
            WalletError::UnshieldNotSatisfied => String::from_str("Circuit not satisfied"),
        }
    }
}

/// What a shield publishes.
#[derive(Clone, Debug)]
pub struct ShieldResult {
    pub note_index: u64,
    pub commitment: Fr,
    pub encrypted_note_hex: String,
    pub tree_root: Fr,
}

/// What a transfer publishes.
#[derive(Clone, Debug)]
pub struct TransferResult {
    pub anchor: Fr,
    pub nullifier: Fr,
    pub out_commitment: Fr,
    pub new_tree_root: Fr,
    pub circuit_fee: u64,
    pub proof_hex: Option<String>,
}

/// What an unshield publishes.
#[derive(Clone, Debug)]
pub struct UnshieldResult {
    pub rune_id: Fr,
    pub amount: u64,
    pub anchor: Fr,
    pub nullifier: Fr,
    pub proof_hex: Option<String>,
}

/// A spend that can be proved, before the wallet takes note of it.
#[derive(Clone, Debug)]
pub struct PreparedSpend {
    /// Which of the wallet's notes is spent.
    pub input: usize,
    /// The note that is created.
    pub out_note: Note,
    /// The private part of the spend.
    pub witness: SpendWitness,
    /// The public part of the spend.
    pub statement: SpendStatement,
    /// What leaves the private pool.
    pub circuit_fee: u64,
}

/// A note of the wallet at a place in the tree.
pub open spec fn owned_note(
    keys: KeySet,
    rune_id: nat,
    amount: nat,
    blinding: nat,
    owner_pk: nat,
    note_index: nat,
) -> NoteRecord {
    let commitment = commitment_spec(rune_id, amount, blinding, owner_pk);
    NoteRecord {
        rune_id,
        amount,
        blinding,
        owner_pk,
        note_index,
        commitment,
        nullifier: nullifier_spec(keys.nullifier_key@, note_index, commitment),
        spent: false,
    }
}

/// The same note, spent.
pub open spec fn spent_record(record: NoteRecord) -> NoteRecord {
    NoteRecord { spent: true, ..record }
}

/// The first unspent note, from place `i` on, that holds the amount of the Rune.
pub open spec fn select_note(
    notes: Seq<NoteRecord>,
    rune_id: nat,
    amount: nat,
    i: nat,
) -> Option<nat>
    decreases notes.len() - i,
{
    if i >= notes.len() {
        None
    } else if !notes[i as int].spent && notes[i as int].rune_id == rune_id
        && notes[i as int].amount >= amount {
        Some(i)
    } else {
        select_note(notes, rune_id, amount, i + 1)
    }
}

/// The first unspent note, from place `i` on, with the given place in the tree.
pub open spec fn find_note(notes: Seq<NoteRecord>, note_index: nat, i: nat) -> Option<nat>
    decreases notes.len() - i,
{
    if i >= notes.len() {
        None
    } else if notes[i as int].note_index == note_index && !notes[i as int].spent {
        Some(i)
    } else {
        find_note(notes, note_index, i + 1)
    }
}

impl WalletState {
    /// Whether a spend of note `i` can be proved: its contents are committed to under the root at
    /// its place, it is owned by the wallet's spending key, and its nullifier is its own under the
    /// nullifier key of that spending key.
    pub open spec fn provable(self, i: nat) -> bool {
        let n = self.notes[i as int];
        let commitment = commitment_spec(n.rune_id, n.amount, n.blinding, n.owner_pk);
        &&& included(self.leaves, n.note_index, commitment)
        &&& nullifier_spec(self.keys.nullifier_key@, n.note_index, commitment) == n.nullifier
        &&& self.keys.nullifier_key@ == nullifier_key_spec(self.keys.spending_key@)
        &&& n.owner_pk == public_key_spec(self.keys.spending_key@)
    }

    /// Whether note `i` is the wallet's and in the tree: its commitment and nullifier are those of
    /// its contents, and the commitment is the leaf at its place.
    pub open spec fn note_anchored(self, i: int) -> bool {
        let n = self.notes[i];
        &&& n.note_index < self.leaves.len()
        &&& n.owner_pk == self.keys.public_key@
        &&& n.commitment == commitment_spec(n.rune_id, n.amount, n.blinding, n.owner_pk)
        &&& n.commitment == self.leaves[n.note_index as int]
        &&& n.nullifier == nullifier_spec(self.keys.nullifier_key@, n.note_index, n.commitment)
    }

    /// Whether the keys belong together and all notes are the wallet's and in the tree.
    pub open spec fn anchored(self) -> bool {
        &&& self.keys.wf()
        &&& self.leaves.len() <= capacity()
        &&& forall|i: int| 0 <= i < self.notes.len() ==> #[trigger] self.note_anchored(i)
    }

    /// The wallet after a shield.
    pub open spec fn after_shield(self, rune_id: nat, amount: nat, blinding: nat) -> WalletState {
        let pk = self.keys.public_key@;
        WalletState {
            notes: self.notes.push(
                owned_note(self.keys, rune_id, amount, blinding, pk, self.leaves.len()),
            ),
            leaves: self.leaves.push(commitment_spec(rune_id, amount, blinding, pk)),
            ..self
        }
    }

    /// The wallet with note `i` spent and its nullifier taken down.
    pub open spec fn spend(self, i: nat) -> WalletState {
        WalletState {
            notes: self.notes.update(i as int, spent_record(self.notes[i as int])),
            spent_nullifiers: self.spent_nullifiers.push(self.notes[i as int].nullifier),
            ..self
        }
    }

    /// The wallet after a transfer out of note `i`. The new commitment joins the tree; the new note
    /// is kept where the wallet itself receives it.
    pub open spec fn after_transfer(
        self,
        i: nat,
        rune_id: nat,
        amount: nat,
        blinding: nat,
        recipient_pk: nat,
    ) -> WalletState {
        let out = owned_note(
            self.keys,
            rune_id,
            amount,
            blinding,
            recipient_pk,
            self.leaves.len(),
        );
        let spent = self.spend(i);
        WalletState {
            notes: if recipient_pk == self.keys.public_key@ {
                spent.notes.push(out)
            } else {
                spent.notes
            },
            leaves: self.leaves.push(out.commitment),
            ..spent
        }
    }
}

/// What a shield does and gives back, for the numbers that were drawn.
pub open spec fn shield_outcome(
    before: WalletState,
    after: WalletState,
    r: Result<ShieldResult, WalletError>,
    rune_id: nat,
    amount: nat,
    seed: nat,
    ephemeral: Seq<u8>,
) -> bool {
    let pk = before.keys.public_key@;
    let secret = x25519_secret_spec(before.keys.spending_key@);
    &&& after == before.after_shield(rune_id, amount, seed)
    &&& r matches Ok(s) && {
        &&& s.note_index == before.leaves.len()
        &&& s.commitment@ == commitment_spec(rune_id, amount, seed, pk)
        &&& s.tree_root@ == root_spec(after.leaves)
        &&& exists|e: EncryptedNote|
            {
                &&& s.encrypted_note_hex@ == hex_text(#[trigger] e.blob())
                &&& e.ephemeral_pk@ == x25519_public(ephemeral)
                &&& e.ciphertext@.len() == 88
                &&& e.opens_to(secret, plaintext_spec(rune_id, amount, seed))
            }
    }
}

/// What a transfer does and gives back, for the number that was drawn.
pub open spec fn transfer_outcome(
    before: WalletState,
    after: WalletState,
    r: Result<TransferResult, WalletError>,
    recipient_pk: nat,
    amount: u64,
    rune_id: nat,
    seed: nat,
) -> bool {
    match select_note(before.notes, rune_id, amount as nat, 0) {
        None => {
            &&& after == before
            &&& r is Err
            &&& r->Err_0 == WalletError::NoUnspentNote(amount)
        },
        Some(i) => if !before.provable(i) {
            &&& after == before
            &&& r is Err
            &&& r->Err_0 == WalletError::TransferNotSatisfied
        } else {
            &&& after == before.after_transfer(i, rune_id, amount as nat, seed, recipient_pk)
            &&& r matches Ok(t) && {
                &&& t.anchor@ == root_spec(before.leaves)
                &&& t.nullifier@ == before.notes[i as int].nullifier
                &&& t.out_commitment@ == commitment_spec(
                    rune_id,
                    amount as nat,
                    seed,
                    recipient_pk,
                )
                &&& t.new_tree_root@ == root_spec(after.leaves)
                &&& t.circuit_fee == before.notes[i as int].amount - amount
                &&& t.proof_hex is None
            }
        },
    }
}

/// What an unshield does and gives back. The number that is drawn shows in neither.
pub open spec fn unshield_outcome(
    before: WalletState,
    after: WalletState,
    r: Result<UnshieldResult, WalletError>,
    note_index: u64,
) -> bool {
    match find_note(before.notes, note_index as nat, 0) {
        None => {
            &&& after == before
            &&& r is Err
            &&& r->Err_0 == WalletError::NoteNotFound(note_index)
        },
        Some(i) => if !before.provable(i) {
            &&& after == before
            &&& r is Err
            &&& r->Err_0 == WalletError::UnshieldNotSatisfied
        } else {
            &&& after == before.spend(i)
            &&& r matches Ok(u) && {
                &&& u.rune_id@ == before.notes[i as int].rune_id
                &&& u.amount == before.notes[i as int].amount
                &&& u.anchor@ == root_spec(before.leaves)
                &&& u.nullifier@ == before.notes[i as int].nullifier
                &&& u.proof_hex is None
            }
        },
    }
}

impl Wallet {
    /// Where the wallet file is kept by default: `.prune/wallet.json` under the home directory, or
    /// under the current one where there is no home directory.
    pub fn default_path(home: Option<String>) -> (path: String)
        ensures
            path@ == default_path_text(home),
    {
        let dir = match home {
            Some(home) => home,
            None => String::from_str("."),
        };
        join_path(dir, ".prune/wallet.json")
    }

    /// A wallet with the given keys and nothing in it.
    pub fn with_keys(keys: KeySet) -> (wallet: Wallet)
        ensures
            wallet.tree.wf(),
            wallet@ == empty_wallet(keys),
    {
        let wallet = Wallet {
            keys,
            notes: Vec::new(),
            tree: IncrementalMerkleTree::new(),
            spent_nullifiers: Vec::new(),
        };
        assert(wallet@ =~= empty_wallet(keys));
        wallet
    }

    /// A wallet with the keys of a spending key drawn at random and nothing in it.
    pub fn create() -> (wallet: Wallet)
        ensures
            wallet.tree.wf(),
            wallet.keys.wf(),
            wallet@ == empty_wallet(wallet.keys),
            wallet@.anchored(),
    {
        let keys = KeySet::generate();
        Wallet::with_keys(keys)
    }

    /// Creates a private note for the wallet itself, with the given random numbers.
    pub fn shield_with(
        &mut self,
        rune_id: Fr,
        amount: u64,
        seed: u64,
        ephemeral_secret: &[u8; 32],
    ) -> (r: Result<ShieldResult, WalletError>)
        requires
            old(self).tree.wf(),
            old(self).tree@.len() < capacity(),
        ensures
            final(self).tree.wf(),
            shield_outcome(
                old(self)@,
                final(self)@,
                r,
                rune_id@,
                amount as nat,
                seed as nat,
                ephemeral_secret@,
            ),
    {
        let ghost before = self@;
        let mut note = Note::with_blinding_seed(seed, rune_id, amount, self.keys.public_key);
        let commitment = note.commitment();

        let plaintext = note.to_plaintext();
        let pk_bytes = self.keys.x25519_public_bytes();
        let encrypted = match encrypt_note_with(
            plaintext.as_slice(),
            &pk_bytes,
            ephemeral_secret,
        ) {
            Ok(encrypted) => encrypted,
            Err(_) => unreached(),
        };
        let mut blob: Vec<u8> = Vec::new();
        blob.extend_from_slice(encrypted.ephemeral_pk.as_slice());
        blob.extend_from_slice(encrypted.ciphertext.as_slice());
        assert(blob@ =~= encrypted.blob());
        let encrypted_note_hex = hex_encode(blob.as_slice());

        let idx: u64 = self.tree.append(commitment);
        note.set_index(idx);
        let nullifier = compute_nullifier(self.keys.nullifier_key, note.note_index, commitment);
        let stored = StoredNote { note, commitment, nullifier, spent: false };
        let ghost notes_before = self.notes@;
        self.notes.push(stored);
        let tree_root = self.tree.root();
        proof {
            assert(records(self.notes@) =~= records(notes_before).push(stored@));
            assert(self@ =~= before.after_shield(rune_id@, amount as nat, seed as nat));
        }
        Ok(ShieldResult { note_index: idx, commitment, encrypted_note_hex, tree_root })
    }

    /// Creates a private note for the wallet itself: adds its commitment to the tree and returns what
    /// goes on the chain, with the contents encrypted so that the wallet can read them back.
    pub fn shield(&mut self, rune_id: Fr, amount: u64) -> (r: Result<ShieldResult, WalletError>)
        requires
            old(self).tree.wf(),
            old(self).tree@.len() < capacity(),
        ensures
            final(self).tree.wf(),
            exists|seed: nat, ephemeral: Seq<u8>|
                seed <= u64::MAX && ephemeral.len() == 32 && #[trigger] shield_outcome(
                    old(self)@,
                    final(self)@,
                    r,
                    rune_id@,
                    amount as nat,
                    seed,
                    ephemeral,
                ),
    {
        let seed: u64 = random_u64();
        let ephemeral_secret = random_bytes_32();
        self.shield_with(rune_id, amount, seed, &ephemeral_secret)
    }

    /// The place among the wallet's notes of the first unspent one that holds the amount of the Rune.
    pub fn select(&self, rune_id: Fr, amount: u64) -> (r: Option<usize>)
        ensures
            match r {
                Some(i) => i < self.notes@.len() && select_note(
                    self@.notes,
                    rune_id@,
                    amount as nat,
                    0,
                ) == Some(i as nat),
                None => select_note(self@.notes, rune_id@, amount as nat, 0) is None,
            },
            r matches Some(i) ==> {
                &&& !self.notes@[i as int].spent
                &&& self.notes@[i as int].note.rune_id == rune_id
                &&& self.notes@[i as int].note.amount >= amount
            },
            forall|k: int|
                0 <= k < self.notes@.len() && (r matches Some(i) ==> k < i) ==> (
                #[trigger] self.notes@[k]).spent || self.notes@[k].note.rune_id != rune_id
                    || self.notes@[k].note.amount < amount,
    {
        let mut i: usize = 0;
        while i < self.notes.len()
            invariant
                i <= self.notes@.len(),
                forall|k: int|
                    0 <= k < i ==> (#[trigger] self.notes@[k]).spent || self.notes@[k].note.rune_id
                        != rune_id || self.notes@[k].note.amount < amount,
                select_note(self@.notes, rune_id@, amount as nat, 0) == select_note(
                    self@.notes,
                    rune_id@,
                    amount as nat,
                    i as nat,
                ),
            decreases self.notes@.len() - i,
        {
            let sn = self.notes[i];
            proof {
                assert(self@.notes[i as int] == sn@);
                lemma_fr_equal(sn.note.rune_id, rune_id);
            }
            if !sn.spent && sn.note.rune_id == rune_id && sn.note.amount >= amount {
                return Some(i);
            }
            i = i + 1;
        }
        None
    }

    /// The place among the wallet's notes of the first unspent one with the given place in the tree.
    pub fn find(&self, note_index: u64) -> (r: Option<usize>)
        ensures
            match r {
                Some(i) => i < self.notes@.len() && find_note(self@.notes, note_index as nat, 0)
                    == Some(i as nat),
                None => find_note(self@.notes, note_index as nat, 0) is None,
            },
            r matches Some(i) ==> {
                &&& !self.notes@[i as int].spent
                &&& self.notes@[i as int].note.note_index == note_index
            },
            forall|k: int|
                0 <= k < self.notes@.len() && (r matches Some(i) ==> k < i) ==> (
                #[trigger] self.notes@[k]).spent || self.notes@[k].note.note_index != note_index,
    {
        let mut i: usize = 0;
        while i < self.notes.len()
            invariant
                i <= self.notes@.len(),
                forall|k: int|
                    0 <= k < i ==> (#[trigger] self.notes@[k]).spent
                        || self.notes@[k].note.note_index != note_index,
                find_note(self@.notes, note_index as nat, 0) == find_note(
                    self@.notes,
                    note_index as nat,
                    i as nat,
                ),
            decreases self.notes@.len() - i,
        {
            let sn = self.notes[i];
            assert(self@.notes[i as int] == sn@);
            if sn.note.note_index == note_index && !sn.spent {
                return Some(i);
            }
            i = i + 1;
        }
        None
    }

    /// Builds the public and the private part of a spend of note `i` into a new note and checks that
    /// the one proves the other. None where it does not.
    fn prepare_spend(&self, i: usize, out_note: Note) -> (r: Option<PreparedSpend>)
        requires
            self.tree.wf(),
            i < self.notes@.len(),
            self.notes@[i as int].note.note_index < self.tree@.len(),
            out_note.rune_id == self.notes@[i as int].note.rune_id,
            out_note.amount <= self.notes@[i as int].note.amount,
        ensures
            match r {
                Some(p) => {
                    &&& self@.provable(i as nat)
                    &&& self.is_prepared(p, i as nat, out_note)
                },
                None => !self@.provable(i as nat),
            },
    {
        let stored = self.notes[i];
        let in_note = stored.note;
        let circuit_fee: u64 = in_note.amount - out_note.amount;
        let out_commitment = out_note.commitment();
        let merkle_path = self.tree.merkle_path(in_note.note_index);
        let anchor = self.tree.root();
        let witness = SpendWitness {
            in_amount: Fr::from(in_note.amount),
            in_blinding: in_note.blinding,
            owner_pk: in_note.owner_pk,
            nullifier_key: self.keys.nullifier_key,
            note_index: Fr::from(in_note.note_index),
            merkle_siblings: merkle_path.siblings,
            merkle_indices: merkle_path.indices,
            out_amount: Fr::from(out_note.amount),
            out_blinding: out_note.blinding,
            out_owner_pk: out_note.owner_pk,
            spending_key: self.keys.spending_key,
        };
        let statement = SpendStatement {
            rune_id: in_note.rune_id,
            anchor,
            nullifier: stored.nullifier,
            out_commitment,
            fee: Fr::from(circuit_fee),
        };
        let circuit = SpendCircuit::for_prove(copy_witness(&witness), statement);
        let mut cs = ConstraintSystem::new();
        circuit.generate_constraints(&mut cs);
        let satisfied = cs.is_satisfied();
        proof {
            assert(satisfied == spend_is_valid(statement@, witness@));
            assert(self@.notes[i as int] == stored@);
            lemma_path_unique(
                self.tree@,
                in_note.note_index as nat,
                values(merkle_path.siblings@),
                merkle_path.indices@,
            );
            lemma_modulus_fits();
            lemma_small_mod((out_note.amount + circuit_fee) as nat, modulus());
            self.tree.lemma_fits();
            lemma_directions_value(in_note.note_index as nat);
            lemma_small_mod(in_note.note_index as nat, modulus());
            assert(satisfied == self@.provable(i as nat));
        }
        if !satisfied {
            return None;
        }
        Some(PreparedSpend { input: i, out_note, witness, statement, circuit_fee })
    }

    /// Whether a prepared spend is the one of note `i` into the given note.
    pub open spec fn is_prepared(&self, p: PreparedSpend, i: nat, out_note: Note) -> bool {
        let n = self@.notes[i as int];
        &&& p.input == i
        &&& p.out_note == out_note
        &&& p.circuit_fee == n.amount - out_note.amount
        &&& p.statement.rune_id@ == n.rune_id
        &&& p.statement.anchor@ == root_spec(self@.leaves)
        &&& p.statement.nullifier@ == n.nullifier
        &&& p.statement.out_commitment@ == out_note.commitment_value()
        &&& p.statement.fee@ == p.circuit_fee
        &&& p.witness@.in_amount == n.amount
        &&& p.witness@.in_blinding == n.blinding
        &&& p.witness@.owner_pk == n.owner_pk
        &&& p.witness@.nullifier_key == self.keys.nullifier_key@
        &&& p.witness@.spending_key == self.keys.spending_key@
        &&& p.witness@.note_index == n.note_index
        &&& p.witness@.siblings == path_siblings(self@.leaves, n.note_index)
        &&& p.witness@.directions == path_directions(n.note_index)
        &&& p.witness@.out_amount == out_note.amount
        &&& p.witness@.out_blinding == out_note.blinding@
        &&& p.witness@.out_owner_pk == out_note.owner_pk@
        &&& spend_is_valid(p.statement@, p.witness@)
    }
}

/// A witness with the same contents.
pub fn copy_witness(w: &SpendWitness) -> (copy: SpendWitness)
    ensures
        copy@ == w@,
{
    let mut merkle_indices: Vec<bool> = Vec::new();
    let mut i: usize = 0;
    while i < w.merkle_indices.len()
        invariant
            i <= w.merkle_indices@.len(),
            merkle_indices@ == w.merkle_indices@.take(i as int),
        decreases w.merkle_indices@.len() - i,
    {
        merkle_indices.push(w.merkle_indices[i]);
        assert(w.merkle_indices@.take(i as int).push(w.merkle_indices@[i as int])
            =~= w.merkle_indices@.take(i + 1));
        i = i + 1;
    }
    assert(w.merkle_indices@.take(w.merkle_indices@.len() as int) =~= w.merkle_indices@);
    SpendWitness {
        in_amount: w.in_amount,
        in_blinding: w.in_blinding,
        owner_pk: w.owner_pk,
        nullifier_key: w.nullifier_key,
        note_index: w.note_index,
        merkle_siblings: copy_elements(&w.merkle_siblings),
        merkle_indices,
        out_amount: w.out_amount,
        out_blinding: w.out_blinding,
        out_owner_pk: w.out_owner_pk,
        spending_key: w.spending_key,
    }
}

/// The default place of the wallet file.
pub open spec fn default_path_text(home: Option<String>) -> Seq<char> {
    joined_path(
        match home {
            Some(home) => home@,
            None => "."@,
        },
        ".prune/wallet.json"@,
    )
}

/// A wallet with nothing in it.
pub open spec fn empty_wallet(keys: KeySet) -> WalletState {
    WalletState {
        keys,
        notes: Seq::empty(),
        leaves: Seq::empty(),
        spent_nullifiers: Seq::empty(),
    }
}

/// Whether a transfer stays within the tree: the note it selects is in it, and where the spend can
/// be proved there is room for one more leaf.
pub open spec fn transfer_fits(w: WalletState, rune_id: nat, amount: nat) -> bool {
    select_note(w.notes, rune_id, amount, 0) matches Some(i) ==> {
        &&& w.notes[i as int].note_index < w.leaves.len()
        &&& w.provable(i) ==> w.leaves.len() < capacity()
    }
}

/// Whether the note that an unshield finds is in the tree.
pub open spec fn unshield_fits(w: WalletState, note_index: nat) -> bool {
    find_note(w.notes, note_index, 0) matches Some(i) ==> w.notes[i as int].note_index
        < w.leaves.len()
}

impl Wallet {
    /// Prepares a transfer of `amount` of a Rune to the holder of a public key, with the given random
    /// number. The whole remainder of the note that is spent leaves the private pool as the fee.
    pub fn prepare_transfer(&self, recipient_pk: Fr, amount: u64, rune_id: Fr, seed: u64) -> (r:
        Result<PreparedSpend, WalletError>)
        requires
            self.tree.wf(),
            select_note(self@.notes, rune_id@, amount as nat, 0) matches Some(i) ==> self@.notes[
            i as int].note_index < self@.leaves.len(),
        ensures
            match select_note(self@.notes, rune_id@, amount as nat, 0) {
                None => r is Err && r->Err_0 == WalletError::NoUnspentNote(amount),
                Some(i) => {
                    &&& !self@.provable(i) ==> r is Err && r->Err_0
                        == WalletError::TransferNotSatisfied
                    &&& self@.provable(i) ==> {
                        &&& r matches Ok(p) && {
                            &&& self.is_prepared(p, i, p.out_note)
                            &&& p.out_note.rune_id == rune_id
                            &&& p.out_note.amount == amount
                            &&& p.out_note.blinding@ == seed
                            &&& p.out_note.owner_pk == recipient_pk
                        }
                    }
                },
            },
    {
        let input: usize = match self.select(rune_id, amount) {
            Some(i) => i,
            None => {
                return Err(WalletError::NoUnspentNote(amount));
            },
        };
        proof {
            lemma_selected(self@.notes, rune_id@, amount as nat, 0);
            assert(self@.notes[input as int] == self.notes@[input as int]@);
            lemma_fr_equal(self.notes@[input as int].note.rune_id, rune_id);
        }
        let out_note = Note::with_blinding_seed(seed, rune_id, amount, recipient_pk);
        match self.prepare_spend(input, out_note) {
            Some(prepared) => Ok(prepared),
            None => Err(WalletError::TransferNotSatisfied),
        }
    }

    /// Takes note of a transfer: adds the new commitment to the tree, marks the input as spent, and
    /// keeps the new note where the wallet itself receives it.
    pub fn complete_transfer(&mut self, p: &PreparedSpend, proof_hex: Option<String>) -> (r:
        TransferResult)
        requires
            old(self).tree.wf(),
            old(self).tree@.len() < capacity(),
            p.input < old(self).notes@.len(),
        ensures
            final(self).tree.wf(),
            final(self)@ == old(self)@.after_transfer(
                p.input as nat,
                p.out_note.rune_id@,
                p.out_note.amount as nat,
                p.out_note.blinding@,
                p.out_note.owner_pk@,
            ),
            r.anchor == p.statement.anchor,
            r.nullifier@ == old(self)@.notes[p.input as int].nullifier,
            r.out_commitment@ == p.out_note.commitment_value(),
            r.new_tree_root@ == root_spec(final(self)@.leaves),
            r.circuit_fee == p.circuit_fee,
            r.proof_hex == proof_hex,
    {
        let ghost before = self@;
        let ghost notes_before = self.notes@;
        let mut out_note = p.out_note;
        let out_commitment = out_note.commitment();
        let out_idx: u64 = self.tree.append(out_commitment);
        out_note.set_index(out_idx);

        let in_nullifier = self.mark_spent(p.input);
        let ghost spent = self@;
        let ghost notes_spent = self.notes@;

        proof {
            lemma_fr_equal(out_note.owner_pk, self.keys.public_key);
        }
        if out_note.owner_pk == self.keys.public_key {
            let out_nullifier = compute_nullifier(
                self.keys.nullifier_key,
                out_note.note_index,
                out_commitment,
            );
            let stored = StoredNote {
                note: out_note,
                commitment: out_commitment,
                nullifier: out_nullifier,
                spent: false,
            };
            self.notes.push(stored);
            assert(records(self.notes@) =~= records(notes_spent).push(stored@));
        }
        proof {
            assert(self@ =~= before.after_transfer(
                p.input as nat,
                p.out_note.rune_id@,
                p.out_note.amount as nat,
                p.out_note.blinding@,
                p.out_note.owner_pk@,
            ));
        }
        TransferResult {
            anchor: p.statement.anchor,
            nullifier: in_nullifier,
            out_commitment,
            new_tree_root: self.tree.root(),
            circuit_fee: p.circuit_fee,
            proof_hex,
        }
    }

    /// Marks note `i` as spent, takes its nullifier down, and returns it.
    fn mark_spent(&mut self, i: usize) -> (nullifier: Fr)
        requires
            i < old(self).notes@.len(),
        ensures
            final(self)@ == old(self)@.spend(i as nat),
            final(self).tree == old(self).tree,
            nullifier@ == old(self)@.notes[i as int].nullifier,
    {
        let ghost before = self@;
        let ghost notes_before = self.notes@;
        let ghost nullifiers_before = self.spent_nullifiers@;
        let mut stored = self.notes[i];
        stored.spent = true;
        self.notes.set(i, stored);
        self.spent_nullifiers.push(stored.nullifier);
        proof {
            assert(notes_before[i as int]@ == before.notes[i as int]);
            assert(records(self.notes@) =~= before.notes.update(
                i as int,
                spent_record(before.notes[i as int]),
            ));
            assert(values(self.spent_nullifiers@) =~= values(nullifiers_before).push(
                stored.nullifier@,
            ));
            assert(self@ =~= before.spend(i as nat));
        }
        stored.nullifier
    }

    /// Spends a note and creates one for the holder of a public key, with the given random number.
    /// The fee that the caller names is information only.
    pub fn transfer_with(
        &mut self,
        recipient_pk: Fr,
        amount: u64,
        fee: u64,
        rune_id: Fr,
        seed: u64,
    ) -> (r: Result<TransferResult, WalletError>)
        requires
            old(self).tree.wf(),
            transfer_fits(old(self)@, rune_id@, amount as nat),
        ensures
            final(self).tree.wf(),
            transfer_outcome(
                old(self)@,
                final(self)@,
                r,
                recipient_pk@,
                amount,
                rune_id@,
                seed as nat,
            ),
    {
        match self.prepare_transfer(recipient_pk, amount, rune_id, seed) {
            Ok(prepared) => {
                proof {
                    lemma_selected(self@.notes, rune_id@, amount as nat, 0);
                }
                Ok(self.complete_transfer(&prepared, None))
            },
            Err(e) => Err(e),
        }
    }

    /// Spends the first unspent note that holds `amount` of a Rune, and creates a note of that amount
    /// for the holder of a public key. The remainder leaves the private pool as the fee.
    pub fn transfer(&mut self, recipient_pk: Fr, amount: u64, fee: u64, rune_id: Fr) -> (r: Result<
        TransferResult,
        WalletError,
    >)
        requires
            old(self).tree.wf(),
            transfer_fits(old(self)@, rune_id@, amount as nat),
        ensures
            final(self).tree.wf(),
            exists|seed: nat|
                seed <= u64::MAX && #[trigger] transfer_outcome(
                    old(self)@,
                    final(self)@,
                    r,
                    recipient_pk@,
                    amount,
                    rune_id@,
                    seed,
                ),
    {
        let seed: u64 = random_u64();
        self.transfer_with(recipient_pk, amount, fee, rune_id, seed)
    }

    /// Prepares an unshield of the note with the given place in the tree, with the given random
    /// number: the new note is worth nothing and the whole amount leaves the private pool.
    pub fn prepare_unshield(&self, note_index: u64, seed: u64) -> (r: Result<
        PreparedSpend,
        WalletError,
    >)
        requires
            self.tree.wf(),
            unshield_fits(self@, note_index as nat),
        ensures
            match find_note(self@.notes, note_index as nat, 0) {
                None => r is Err && r->Err_0 == WalletError::NoteNotFound(note_index),
                Some(i) => {
                    &&& !self@.provable(i) ==> r is Err && r->Err_0
                        == WalletError::UnshieldNotSatisfied
                    &&& self@.provable(i) ==> {
                        &&& r matches Ok(p) && {
                            &&& self.is_prepared(p, i, p.out_note)
                            &&& p.out_note.rune_id@ == self@.notes[i as int].rune_id
                            &&& p.out_note.amount == 0
                            &&& p.out_note.blinding@ == seed
                            &&& p.out_note.owner_pk@ == BURN_PK
                        }
                    }
                },
            },
    {
        let input: usize = match self.find(note_index) {
            Some(i) => i,
            None => {
                return Err(WalletError::NoteNotFound(note_index));
            },
        };
        let rune_id = self.notes[input].note.rune_id;
        assert(self@.notes[input as int] == self.notes@[input as int]@);
        let burn_note = Note::with_blinding_seed(seed, rune_id, 0, Fr::from(BURN_PK));
        match self.prepare_spend(input, burn_note) {
            Some(prepared) => Ok(prepared),
            None => Err(WalletError::UnshieldNotSatisfied),
        }
    }

    /// Takes note of an unshield: marks the input as spent. The worthless note is kept nowhere.
    pub fn complete_unshield(&mut self, p: &PreparedSpend, proof_hex: Option<String>) -> (r:
        UnshieldResult)
        requires
            p.input < old(self).notes@.len(),
        ensures
            final(self).tree == old(self).tree,
            final(self)@ == old(self)@.spend(p.input as nat),
            r.rune_id@ == old(self)@.notes[p.input as int].rune_id,
            r.amount == old(self)@.notes[p.input as int].amount,
            r.anchor == p.statement.anchor,
            r.nullifier@ == old(self)@.notes[p.input as int].nullifier,
            r.proof_hex == proof_hex,
    {
        let note = self.notes[p.input].note;
        assert(self@.notes[p.input as int] == self.notes@[p.input as int]@);
        let nullifier = self.mark_spent(p.input);
        UnshieldResult {
            rune_id: note.rune_id,
            amount: note.amount,
            anchor: p.statement.anchor,
            nullifier,
            proof_hex,
        }
    }

    /// Spends the note with the given place in the tree and releases its whole amount.
    pub fn unshield(&mut self, note_index: u64) -> (r: Result<UnshieldResult, WalletError>)
        requires
            old(self).tree.wf(),
            unshield_fits(old(self)@, note_index as nat),
        ensures
            final(self).tree.wf(),
            unshield_outcome(old(self)@, final(self)@, r, note_index),
    {
        let seed: u64 = random_u64();
        match self.prepare_unshield(note_index, seed) {
            Ok(prepared) => {
                proof {
                    lemma_found(self@.notes, note_index as nat, 0);
                }
                Ok(self.complete_unshield(&prepared, None))
            },
            Err(e) => Err(e),
        }
    }
}

/// A selected note is unspent, of the Rune, and holds the amount.
pub proof fn lemma_selected(notes: Seq<NoteRecord>, rune_id: nat, amount: nat, from: nat)
    ensures
        select_note(notes, rune_id, amount, from) matches Some(i) ==> {
            &&& from <= i < notes.len()
            &&& !notes[i as int].spent
            &&& notes[i as int].rune_id == rune_id
            &&& notes[i as int].amount >= amount
        },
    decreases notes.len() - from,
{
    if from < notes.len() {
        lemma_selected(notes, rune_id, amount, from + 1);
    }
}

/// A note that is found is unspent and has the given place.
pub proof fn lemma_found(notes: Seq<NoteRecord>, note_index: nat, from: nat)
    ensures
        find_note(notes, note_index, from) matches Some(i) ==> {
            &&& from <= i < notes.len()
            &&& !notes[i as int].spent
            &&& notes[i as int].note_index == note_index
        },
    decreases notes.len() - from,
{
    if from < notes.len() {
        lemma_found(notes, note_index, from + 1);
    }
}

} // verus!
