//! What every operation of a wallet keeps.
use vstd::prelude::*;

use crate::bytes::le_bytes;
use crate::circuit::{spend_is_valid, Witness};
use crate::ecdh::x25519_public;
use crate::encryption::EncryptedNote;
use crate::field::{lemma_modulus_fits, modulus};
use crate::keys::{x25519_secret_spec, KeySet, DOMAIN_NULLIFIER_KEY};
use crate::note::{commitment_spec, plaintext_spec, Note};
use crate::poseidon::{
    collide, hash2_spec, hash3_spec, hash4_spec, lemma_hash3_fixes, lemma_hash_in_field,
};
use crate::text::{decimal_text, hex_bytes, hex_text, joined_path, law_hex_round_trip};
use crate::transaction::Operation;
use crate::tree::{
    capacity, climb, included, law_leaf_included, node, path_directions, path_siblings, root_spec,
};
use crate::updater::IndexState;
use crate::wallet::sync::{discovered, law_receiver_discovers, reads_at_most_one};
use crate::wallet::{
    default_path_text, empty_wallet, error_text, find_note, lemma_found, lemma_selected, owned_note,
    records, select_note, shield_outcome, spent_record, transfer_fits, transfer_outcome,
    unshield_fits, unshield_outcome, NoteRecord, PreparedSpend, ShieldResult, StoredNote,
    TransferResult, UnshieldResult, Wallet, WalletError, WalletState, BURN_PK,
};

verus! {

/// The amount of a Rune in the unspent notes of a list.
pub open spec fn balance(notes: Seq<NoteRecord>, rune_id: nat) -> nat
    decreases notes.len(),
{
    if notes.len() == 0 {
        0
    } else {
        balance(notes.drop_last(), rune_id) + unspent_amount(notes.last(), rune_id)
    }
}

/// What a note adds to the balance of a Rune.
pub open spec fn unspent_amount(note: NoteRecord, rune_id: nat) -> nat {
    if !note.spent && note.rune_id == rune_id {
        note.amount
    } else {
        0
    }
}

proof fn lemma_balance_push(notes: Seq<NoteRecord>, note: NoteRecord, rune_id: nat)
    ensures
        balance(notes.push(note), rune_id) == balance(notes, rune_id) + unspent_amount(
            note,
            rune_id,
        ),
{
    assert(notes.push(note).drop_last() =~= notes);
}

proof fn lemma_balance_spend(notes: Seq<NoteRecord>, i: int, rune_id: nat)
    requires
        0 <= i < notes.len(),
    ensures
        balance(notes, rune_id) == balance(notes.update(i, spent_record(notes[i])), rune_id)
            + unspent_amount(notes[i], rune_id),
    decreases notes.len(),
{
    let updated = notes.update(i, spent_record(notes[i]));
    if i == notes.len() - 1 {
        assert(updated.drop_last() =~= notes.drop_last());
    } else {
        lemma_balance_spend(notes.drop_last(), i, rune_id);
        assert(updated.drop_last() =~= notes.drop_last().update(i, spent_record(notes[i])));
    }
}

/// A shield adds its amount to the balance of its Rune and leaves other Runes alone.
pub proof fn law_shield_adds(
    w: WalletState,
    rune_id: nat,
    amount: nat,
    blinding: nat,
    other: nat,
)
    ensures
        balance(w.after_shield(rune_id, amount, blinding).notes, other) == balance(w.notes, other)
            + (if other == rune_id {
            amount
        } else {
            0
        }),
{
    lemma_balance_push(
        w.notes,
        owned_note(w.keys, rune_id, amount, blinding, w.keys.public_key@, w.leaves.len()),
        other,
    );
}

/// A transfer conserves: what the wallet held is what it holds, the fee, and what went to somebody
/// else. Other Runes are left alone.
pub proof fn law_transfer_conserves(
    w: WalletState,
    rune_id: nat,
    amount: nat,
    blinding: nat,
    recipient_pk: nat,
    other: nat,
)
    requires
        select_note(w.notes, rune_id, amount, 0) is Some,
    ensures
        ({
            let i = select_note(w.notes, rune_id, amount, 0)->0;
            let after = w.after_transfer(i, rune_id, amount, blinding, recipient_pk);
            let fee = w.notes[i as int].amount - amount;
            let sent = if recipient_pk == w.keys.public_key@ {
                0
            } else {
                amount
            };
            if other == rune_id {
                fee >= 0 && balance(w.notes, other) == balance(after.notes, other) + fee + sent
            } else {
                balance(after.notes, other) == balance(w.notes, other)
            }
        }),
{
    let i = select_note(w.notes, rune_id, amount, 0)->0;
    lemma_selected(w.notes, rune_id, amount, 0);
    lemma_balance_spend(w.notes, i as int, other);
    lemma_balance_push(
        w.spend(i).notes,
        owned_note(w.keys, rune_id, amount, blinding, recipient_pk, w.leaves.len()),
        other,
    );
}

/// An unshield takes the amount of the note out of the balance of its Rune and leaves other Runes
/// alone.
pub proof fn law_unshield_releases(w: WalletState, note_index: nat, other: nat)
    requires
        find_note(w.notes, note_index, 0) is Some,
    ensures
        ({
            let i = find_note(w.notes, note_index, 0)->0;
            balance(w.notes, other) == balance(w.spend(i).notes, other) + (if other
                == w.notes[i as int].rune_id {
                w.notes[i as int].amount
            } else {
                0
            })
        }),
{
    let i = find_note(w.notes, note_index, 0)->0;
    lemma_found(w.notes, note_index, 0);
    lemma_balance_spend(w.notes, i as int, other);
}

/// The path of every note of an anchored wallet leads from its commitment to the root.
pub proof fn law_notes_are_included(w: WalletState, i: int)
    requires
        w.anchored(),
        0 <= i < w.notes.len(),
    ensures
        included(w.leaves, w.notes[i].note_index, w.notes[i].commitment),
{
    assert(w.note_anchored(i));
    law_leaf_included(w.leaves, w.notes[i].note_index);
}

/// Every note of an anchored wallet can be spent: a transfer of what some unspent note holds, and an
/// unshield of an unspent note, are never refused by the circuit.
pub proof fn law_anchored_is_provable(w: WalletState, i: nat)
    requires
        w.anchored(),
        i < w.notes.len(),
    ensures
        w.provable(i),
{
    assert(w.note_anchored(i as int));
    law_leaf_included(w.leaves, w.notes[i as int].note_index);
}

/// An anchored wallet with room in its tree can be asked for any transfer and any unshield.
pub proof fn law_anchored_fits(w: WalletState, rune_id: nat, amount: nat, note_index: nat)
    requires
        w.anchored(),
        w.leaves.len() < capacity(),
    ensures
        transfer_fits(w, rune_id, amount),
        unshield_fits(w, note_index),
{
    lemma_selected(w.notes, rune_id, amount, 0);
    lemma_found(w.notes, note_index, 0);
    if let Some(i) = select_note(w.notes, rune_id, amount, 0) {
        assert(w.note_anchored(i as int));
    }
    if let Some(i) = find_note(w.notes, note_index, 0) {
        assert(w.note_anchored(i as int));
    }
}

/// A shield keeps the wallet anchored.
pub proof fn law_shield_keeps_anchored(w: WalletState, rune_id: nat, amount: nat, blinding: nat)
    requires
        w.anchored(),
        w.leaves.len() < capacity(),
    ensures
        w.after_shield(rune_id, amount, blinding).anchored(),
{
    let after = w.after_shield(rune_id, amount, blinding);
    assert forall|i: int| 0 <= i < after.notes.len() implies #[trigger] after.note_anchored(i) by {
        if i < w.notes.len() {
            assert(w.note_anchored(i));
        }
    }
}

/// A transfer keeps the wallet anchored.
pub proof fn law_transfer_keeps_anchored(
    w: WalletState,
    i: nat,
    rune_id: nat,
    amount: nat,
    blinding: nat,
    recipient_pk: nat,
)
    requires
        w.anchored(),
        w.leaves.len() < capacity(),
        i < w.notes.len(),
    ensures
        w.after_transfer(i, rune_id, amount, blinding, recipient_pk).anchored(),
{
    let after = w.after_transfer(i, rune_id, amount, blinding, recipient_pk);
    assert forall|k: int| 0 <= k < after.notes.len() implies #[trigger] after.note_anchored(k) by {
        if k < w.notes.len() {
            assert(w.note_anchored(k));
        }
    }
}

/// An unshield keeps the wallet anchored.
pub proof fn law_unshield_keeps_anchored(w: WalletState, i: nat)
    requires
        w.anchored(),
        i < w.notes.len(),
    ensures
        w.spend(i).anchored(),
{
    let after = w.spend(i);
    assert forall|k: int| 0 <= k < after.notes.len() implies #[trigger] after.note_anchored(k) by {
        assert(w.note_anchored(k));
    }
}

/// A spent note is never selected for a transfer, nor found for an unshield.
pub proof fn law_spent_note_is_refused(
    w: WalletState,
    i: nat,
    rune_id: nat,
    amount: nat,
    note_index: nat,
)
    requires
        i < w.notes.len(),
        w.notes[i as int].spent,
    ensures
        select_note(w.notes, rune_id, amount, 0) != Some(i),
        find_note(w.notes, note_index, 0) != Some(i),
{
    lemma_selected(w.notes, rune_id, amount, 0);
    lemma_found(w.notes, note_index, 0);
}

/// No operation makes a spent note unspent, and the note that was spent is spent, with its nullifier
/// taken down.
pub proof fn law_spent_stays_spent(
    w: WalletState,
    i: nat,
    k: nat,
    rune_id: nat,
    amount: nat,
    blinding: nat,
    recipient_pk: nat,
)
    requires
        i < w.notes.len(),
        k < w.notes.len(),
    ensures
        w.notes[k as int].spent || k == i ==> {
            &&& w.spend(i).notes[k as int].spent
            &&& w.after_transfer(i, rune_id, amount, blinding, recipient_pk).notes[k as int].spent
        },
        w.notes[k as int].spent ==> w.after_shield(rune_id, amount, blinding).notes[k as int].spent,
        w.spend(i).spent_nullifiers.last() == w.notes[i as int].nullifier,
        w.after_transfer(i, rune_id, amount, blinding, recipient_pk).spent_nullifiers.last()
            == w.notes[i as int].nullifier,
{
}

/// The tree only grows, at its end: what a shield or a transfer appends leaves every earlier leaf
/// where it was.
pub proof fn law_tree_only_grows(
    w: WalletState,
    i: nat,
    rune_id: nat,
    amount: nat,
    blinding: nat,
    recipient_pk: nat,
)
    ensures
        w.after_shield(rune_id, amount, blinding).leaves == w.leaves.push(
            commitment_spec(rune_id, amount, blinding, w.keys.public_key@),
        ),
        w.after_transfer(i, rune_id, amount, blinding, recipient_pk).leaves == w.leaves.push(
            commitment_spec(rune_id, amount, blinding, recipient_pk),
        ),
        w.spend(i).leaves == w.leaves,
{
}

/// A wallet and an index with the same tree have the same tree after the wallet's shield is indexed.
pub proof fn law_index_follows_shield(
    w: WalletState,
    index: IndexState,
    rune_id: nat,
    amount: nat,
    blinding: nat,
    encrypted_note: Seq<u8>,
)
    requires
        index.leaves == w.leaves,
    ensures
        ({
            let op = Operation::Shield {
                rune_id,
                commitment: commitment_spec(rune_id, amount, blinding, w.keys.public_key@),
                encrypted_note,
            };
            index.after(op).leaves == w.after_shield(rune_id, amount, blinding).leaves
        }),
{
}

/// A wallet and an index with the same tree have the same tree after the wallet's transfer out of
/// note `i` is indexed, and the index has seen the note's nullifier.
pub proof fn law_index_follows_transfer(
    w: WalletState,
    index: IndexState,
    i: nat,
    rune_id: nat,
    amount: nat,
    blinding: nat,
    recipient_pk: nat,
    fee: nat,
    proof_bytes: Seq<u8>,
    encrypted_note: Seq<u8>,
)
    requires
        index.leaves == w.leaves,
        i < w.notes.len(),
        !index.seen(w.notes[i as int].nullifier),
    ensures
        ({
            let op = Operation::Transfer {
                rune_id,
                nullifier: w.notes[i as int].nullifier,
                out_commitment: commitment_spec(rune_id, amount, blinding, recipient_pk),
                anchor: root_spec(w.leaves),
                fee,
                proof: proof_bytes,
                encrypted_note,
            };
            &&& index.after(op).leaves == w.after_transfer(
                i,
                rune_id,
                amount,
                blinding,
                recipient_pk,
            ).leaves
            &&& index.after(op).seen(w.notes[i as int].nullifier)
        }),
{
    let bytes = le_bytes(w.notes[i as int].nullifier, 32);
    assert(index.nullifiers.push(bytes).last() == bytes);
}

/// What the nullifier of a note of the wallet is the hash of.
pub open spec fn nullifier_preimage(keys: KeySet, note: NoteRecord) -> Seq<nat> {
    seq![keys.nullifier_key@, note.note_index, note.commitment]
}

impl WalletState {
    /// Whether two of the wallet's notes have one nullifier though they differ.
    pub open spec fn nullifiers_collide(self) -> bool {
        exists|i: int, j: int|
            0 <= i < j < self.notes.len() && #[trigger] collide(
                nullifier_preimage(self.keys, self.notes[i]),
                nullifier_preimage(self.keys, self.notes[j]),
            )
    }

    /// Whether the wallet's books are in order: the notes are anchored, each at a place of its own; a
    /// note is spent exactly where its nullifier is taken down; every nullifier that is taken down is
    /// that of a note, and none is taken down twice.
    pub open spec fn in_order(self) -> bool {
        &&& self.anchored()
        &&& forall|i: int, j: int|
            0 <= i < j < self.notes.len() ==> (#[trigger] self.notes[i]).note_index != (
            #[trigger] self.notes[j]).note_index
        &&& forall|i: int|
            0 <= i < self.notes.len() ==> ((#[trigger] self.notes[i]).spent
                <==> self.spent_nullifiers.contains(self.notes[i].nullifier))
        &&& forall|k: int|
            0 <= k < self.spent_nullifiers.len() ==> self.is_own_nullifier(
                #[trigger] self.spent_nullifiers[k],
            )
        &&& self.spent_nullifiers.no_duplicates()
    }

    /// Whether a nullifier is that of a note of the wallet.
    pub open spec fn is_own_nullifier(self, nullifier: nat) -> bool {
        exists|i: int| 0 <= i < self.notes.len() && #[trigger] self.notes[i].nullifier == nullifier
    }
}

/// Notes at different places have different nullifiers where these do not collide.
proof fn lemma_nullifiers_differ(w: WalletState, i: int, j: int)
    requires
        w.anchored(),
        0 <= i < j < w.notes.len(),
        w.notes[i].note_index != w.notes[j].note_index,
        !w.nullifiers_collide(),
    ensures
        w.notes[i].nullifier != w.notes[j].nullifier,
{
    assert(w.note_anchored(i) && w.note_anchored(j));
    let (x, y) = (nullifier_preimage(w.keys, w.notes[i]), nullifier_preimage(w.keys, w.notes[j]));
    assert(!collide(x, y));
    lemma_modulus_fits();
    lemma_hash_in_field(w.keys.spending_key@, DOMAIN_NULLIFIER_KEY as nat, 0, 0);
    let (m, n) = (w.notes[i], w.notes[j]);
    lemma_hash_in_field(m.rune_id, m.amount, m.blinding, m.owner_pk);
    lemma_hash_in_field(n.rune_id, n.amount, n.blinding, n.owner_pk);
    assert(x[1] == m.note_index && y[1] == n.note_index);
    if m.nullifier == n.nullifier {
        lemma_hash3_fixes(x, y);
    }
}

/// The books of a new wallet are in order.
pub proof fn law_new_wallet_in_order(keys: KeySet)
    requires
        keys.wf(),
    ensures
        empty_wallet(keys).in_order(),
{
}

/// A note that joins the tree at its end leaves the books in order.
proof fn lemma_new_note_in_order(w: WalletState, after: WalletState, note: NoteRecord)
    requires
        w.in_order(),
        after.keys == w.keys,
        after.notes == w.notes.push(note),
        after.spent_nullifiers == w.spent_nullifiers,
        after.anchored(),
        !note.spent,
        note.note_index == w.leaves.len(),
        !after.nullifiers_collide(),
    ensures
        after.in_order(),
{
    let n = w.notes.len() as int;
    assert forall|i: int| 0 <= i < n implies #[trigger] after.notes[i] == w.notes[i]
        && w.notes[i].note_index < w.leaves.len() by {
        assert(w.note_anchored(i));
    }
    if w.spent_nullifiers.contains(note.nullifier) {
        let k = choose|k: int|
            0 <= k < w.spent_nullifiers.len() && w.spent_nullifiers[k] == note.nullifier;
        assert(w.is_own_nullifier(w.spent_nullifiers[k]));
        let i = choose|i: int|
            0 <= i < w.notes.len() && #[trigger] w.notes[i].nullifier == note.nullifier;
        assert(after.notes[i] == w.notes[i] && after.notes[n] == note);
        lemma_nullifiers_differ(after, i, n);
    }
    assert forall|i: int| 0 <= i < after.notes.len() implies ((#[trigger] after.notes[i]).spent
        <==> after.spent_nullifiers.contains(after.notes[i].nullifier)) by {
        if i < n {
            assert(w.notes[i] == after.notes[i]);
        }
    }
    assert forall|k: int| 0 <= k < after.spent_nullifiers.len() implies after.is_own_nullifier(
        #[trigger] after.spent_nullifiers[k],
    ) by {
        assert(w.is_own_nullifier(w.spent_nullifiers[k]));
        let i = choose|i: int|
            0 <= i < w.notes.len() && #[trigger] w.notes[i].nullifier == w.spent_nullifiers[k];
        assert(after.notes[i].nullifier == w.spent_nullifiers[k]);
    }
    assert forall|i: int, j: int| 0 <= i < j < after.notes.len() implies (
    #[trigger] after.notes[i]).note_index != (#[trigger] after.notes[j]).note_index by {
        assert(after.notes[i] == w.notes[i]);
        if j < n {
            assert(after.notes[j] == w.notes[j]);
        }
    }
}

/// A shield leaves the books in order, unless nullifiers of the wallet's notes collide.
pub proof fn law_shield_keeps_order(w: WalletState, rune_id: nat, amount: nat, blinding: nat)
    requires
        w.in_order(),
        w.leaves.len() < capacity(),
        !w.after_shield(rune_id, amount, blinding).nullifiers_collide(),
    ensures
        w.after_shield(rune_id, amount, blinding).in_order(),
{
    law_shield_keeps_anchored(w, rune_id, amount, blinding);
    let after = w.after_shield(rune_id, amount, blinding);
    lemma_new_note_in_order(w, after, after.notes.last());
}

/// An unshield of an unspent note leaves the books in order, unless nullifiers of the wallet's notes
/// collide.
pub proof fn law_unshield_keeps_order(w: WalletState, i: nat)
    requires
        w.in_order(),
        i < w.notes.len(),
        !w.notes[i as int].spent,
        !w.nullifiers_collide(),
    ensures
        w.spend(i).in_order(),
{
    let after = w.spend(i);
    let nullifier = w.notes[i as int].nullifier;
    law_unshield_keeps_anchored(w, i);
    let last = w.spent_nullifiers.len() as int;
    assert(after.spent_nullifiers[last] == nullifier);
    assert forall|k: int| 0 <= k < after.notes.len() implies ((#[trigger] after.notes[k]).spent
        <==> after.spent_nullifiers.contains(after.notes[k].nullifier)) by {
        assert(after.notes[k].nullifier == w.notes[k].nullifier);
        if k != i {
            assert(after.notes[k] == w.notes[k]);
            if k < i {
                lemma_nullifiers_differ(w, k, i as int);
            } else {
                lemma_nullifiers_differ(w, i as int, k);
            }
            if w.spent_nullifiers.contains(w.notes[k].nullifier) {
                let m = w.spent_nullifiers.index_of(w.notes[k].nullifier);
                assert(after.spent_nullifiers[m] == w.notes[k].nullifier);
            }
            if after.spent_nullifiers.contains(w.notes[k].nullifier) {
                let m = after.spent_nullifiers.index_of(w.notes[k].nullifier);
                assert(m < last);
                assert(w.spent_nullifiers[m] == w.notes[k].nullifier);
            }
        }
    }
    assert forall|k: int| 0 <= k < after.spent_nullifiers.len() implies after.is_own_nullifier(
        #[trigger] after.spent_nullifiers[k],
    ) by {
        if k < last {
            assert(w.is_own_nullifier(w.spent_nullifiers[k]));
            let m = choose|m: int|
                0 <= m < w.notes.len() && #[trigger] w.notes[m].nullifier == w.spent_nullifiers[k];
            assert(after.notes[m].nullifier == w.spent_nullifiers[k]);
        } else {
            assert(after.notes[i as int].nullifier == nullifier);
        }
    }
    assert(!w.spent_nullifiers.contains(nullifier));
    assert forall|a: int, b: int|
        0 <= a < after.spent_nullifiers.len() && 0 <= b < after.spent_nullifiers.len() && a
            != b implies after.spent_nullifiers[a] != after.spent_nullifiers[b] by {
        if a < last && b < last {
            assert(w.spent_nullifiers[a] != w.spent_nullifiers[b]);
        } else if a < last {
            assert(w.spent_nullifiers[a] != nullifier);
        } else {
            assert(w.spent_nullifiers[b] != nullifier);
        }
    }
}

/// A transfer out of an unspent note leaves the books in order, unless nullifiers of the wallet's
/// notes collide.
pub proof fn law_transfer_keeps_order(
    w: WalletState,
    i: nat,
    rune_id: nat,
    amount: nat,
    blinding: nat,
    recipient_pk: nat,
)
    requires
        w.in_order(),
        w.leaves.len() < capacity(),
        i < w.notes.len(),
        !w.notes[i as int].spent,
        !w.after_transfer(i, rune_id, amount, blinding, recipient_pk).nullifiers_collide(),
    ensures
        w.after_transfer(i, rune_id, amount, blinding, recipient_pk).in_order(),
{
    let after = w.after_transfer(i, rune_id, amount, blinding, recipient_pk);
    let spent = w.spend(i);
    assert forall|a: int, b: int| 0 <= a < b < w.notes.len() implies !(#[trigger] collide(
        nullifier_preimage(w.keys, w.notes[a]),
        nullifier_preimage(w.keys, w.notes[b]),
    )) by {
        assert(nullifier_preimage(after.keys, after.notes[a]) == nullifier_preimage(
            w.keys,
            w.notes[a],
        ));
        assert(nullifier_preimage(after.keys, after.notes[b]) == nullifier_preimage(
            w.keys,
            w.notes[b],
        ));
    }
    law_unshield_keeps_order(w, i);
    law_transfer_keeps_anchored(w, i, rune_id, amount, blinding, recipient_pk);
    if recipient_pk == w.keys.public_key@ {
        lemma_new_note_in_order(spent, after, after.notes.last());
    } else {
        assert(after.notes == spent.notes);
        assert forall|k: int| 0 <= k < after.spent_nullifiers.len() implies after.is_own_nullifier(
            #[trigger] after.spent_nullifiers[k],
        ) by {
            assert(spent.is_own_nullifier(spent.spent_nullifiers[k]));
        }
    }
}

/// In a wallet whose books are in order a note is spent exactly where its nullifier is on record, and
/// the note that a transfer selects or an unshield finds has a nullifier that is not.
pub proof fn law_no_double_spend(w: WalletState, rune_id: nat, amount: nat, note_index: nat)
    requires
        w.in_order(),
    ensures
        select_note(w.notes, rune_id, amount, 0) matches Some(i) ==> !w.spent_nullifiers.contains(
            w.notes[i as int].nullifier,
        ),
        find_note(w.notes, note_index, 0) matches Some(i) ==> !w.spent_nullifiers.contains(
            w.notes[i as int].nullifier,
        ),
{
    lemma_selected(w.notes, rune_id, amount, 0);
    lemma_found(w.notes, note_index, 0);
}

/// Whether a note can pay an amount of a Rune: it is unspent, of the Rune, and holds the amount.
pub open spec fn can_pay(note: NoteRecord, rune_id: nat, amount: nat) -> bool {
    !note.spent && note.rune_id == rune_id && note.amount >= amount
}

proof fn lemma_selection(notes: Seq<NoteRecord>, rune_id: nat, amount: nat, from: nat)
    ensures
        match select_note(notes, rune_id, amount, from) {
            Some(i) => {
                &&& from <= i < notes.len()
                &&& !notes[i as int].spent && notes[i as int].rune_id == rune_id
                    && notes[i as int].amount >= amount
                &&& forall|j: int|
                    from <= j < i ==> (#[trigger] notes[j]).spent || notes[j].rune_id != rune_id
                        || notes[j].amount < amount
            },
            None => forall|j: int|
                from <= j < notes.len() ==> (#[trigger] notes[j]).spent || notes[j].rune_id
                    != rune_id || notes[j].amount < amount,
        },
    decreases notes.len() - from,
{
    if from < notes.len() {
        lemma_selection(notes, rune_id, amount, from + 1);
    }
}

proof fn lemma_finding(notes: Seq<NoteRecord>, note_index: nat, from: nat)
    ensures
        match find_note(notes, note_index, from) {
            Some(i) => {
                &&& from <= i < notes.len()
                &&& !notes[i as int].spent && notes[i as int].note_index == note_index
                &&& forall|j: int|
                    from <= j < i ==> (#[trigger] notes[j]).spent || notes[j].note_index
                        != note_index
            },
            None => forall|j: int|
                from <= j < notes.len() ==> (#[trigger] notes[j]).spent || notes[j].note_index
                    != note_index,
        },
    decreases notes.len() - from,
{
    if from < notes.len() {
        lemma_finding(notes, note_index, from + 1);
    }
}

/// Selection is complete: where some note is unspent, of the Rune and holds the amount, however much
/// more it holds, a note is selected, and it is the first such one.
pub proof fn law_selection_is_complete(
    notes: Seq<NoteRecord>,
    rune_id: nat,
    amount: nat,
    i: nat,
)
    requires
        i < notes.len(),
        !notes[i as int].spent,
        notes[i as int].rune_id == rune_id,
        notes[i as int].amount >= amount,
    ensures
        select_note(notes, rune_id, amount, 0) matches Some(k) && k <= i && {
            &&& !notes[k as int].spent
            &&& notes[k as int].rune_id == rune_id
            &&& notes[k as int].amount >= amount
            &&& forall|j: int|
                0 <= j < k ==> (#[trigger] notes[j]).spent || notes[j].rune_id != rune_id
                    || notes[j].amount < amount
        },
{
    lemma_selection(notes, rune_id, amount, 0);
}

/// Selection fails only where no note is unspent, of the Rune and holds the amount.
pub proof fn law_selection_fails_without_a_note(
    notes: Seq<NoteRecord>,
    rune_id: nat,
    amount: nat,
)
    ensures
        select_note(notes, rune_id, amount, 0) is None <==> forall|j: int|
            0 <= j < notes.len() ==> (#[trigger] notes[j]).spent || notes[j].rune_id != rune_id
                || notes[j].amount < amount,
{
    lemma_selection(notes, rune_id, amount, 0);
}

/// A smaller amount can be paid wherever a larger one can, and by a note that is no later.
pub proof fn law_less_is_payable(
    notes: Seq<NoteRecord>,
    rune_id: nat,
    less: nat,
    more: nat,
)
    requires
        less <= more,
        select_note(notes, rune_id, more, 0) is Some,
    ensures
        select_note(notes, rune_id, less, 0) is Some,
        select_note(notes, rune_id, less, 0)->0 <= select_note(notes, rune_id, more, 0)->0,
{
    lemma_selection(notes, rune_id, more, 0);
    lemma_selection(notes, rune_id, less, 0);
}

/// Every unspent note is found by its place, and what is found is the first unspent note there.
pub proof fn law_finding_is_complete(notes: Seq<NoteRecord>, note_index: nat)
    ensures
        match find_note(notes, note_index, 0) {
            Some(k) => {
                &&& k < notes.len()
                &&& !notes[k as int].spent
                &&& notes[k as int].note_index == note_index
                &&& forall|j: int|
                    0 <= j < k ==> (#[trigger] notes[j]).spent || notes[j].note_index
                        != note_index
            },
            None => forall|j: int|
                0 <= j < notes.len() ==> (#[trigger] notes[j]).spent || notes[j].note_index
                    != note_index,
        },
{
    lemma_finding(notes, note_index, 0);
}

/// A shield leaves all that was there and adds one unspent note: of the Rune, the amount and the
/// blinding that were given, owned by the wallet, at the first free place of the tree, with the hash
/// of these as its leaf.
pub proof fn law_shield_adds_one_note(
    w: WalletState,
    rune_id: nat,
    amount: nat,
    blinding: nat,
)
    ensures
        ({
            let after = w.after_shield(rune_id, amount, blinding);
            let n = w.notes.len();
            let new = after.notes[n as int];
            let leaf = hash4_spec(rune_id, amount, blinding, w.keys.public_key@);
            &&& after.keys == w.keys
            &&& after.spent_nullifiers == w.spent_nullifiers
            &&& after.leaves == w.leaves.push(leaf)
            &&& after.notes.len() == n + 1
            &&& forall|k: int| 0 <= k < n ==> #[trigger] after.notes[k] == w.notes[k]
            &&& new.rune_id == rune_id
            &&& new.amount == amount
            &&& new.blinding == blinding
            &&& new.owner_pk == w.keys.public_key@
            &&& new.note_index == w.leaves.len()
            &&& new.commitment == leaf
            &&& new.nullifier == hash3_spec(w.keys.nullifier_key@, w.leaves.len(), leaf)
            &&& !new.spent
        }),
{
}

/// A spend marks one note and records its nullifier; nothing else changes, neither in that note nor
/// anywhere else.
pub proof fn law_spend_marks_one_note(w: WalletState, i: nat)
    requires
        i < w.notes.len(),
    ensures
        ({
            let after = w.spend(i);
            let (old_note, new_note) = (w.notes[i as int], after.notes[i as int]);
            &&& after.keys == w.keys
            &&& after.leaves == w.leaves
            &&& after.spent_nullifiers == w.spent_nullifiers.push(old_note.nullifier)
            &&& after.notes.len() == w.notes.len()
            &&& forall|k: int|
                0 <= k < w.notes.len() && k != i ==> #[trigger] after.notes[k] == w.notes[k]
            &&& new_note.spent
            &&& new_note.rune_id == old_note.rune_id
            &&& new_note.amount == old_note.amount
            &&& new_note.blinding == old_note.blinding
            &&& new_note.owner_pk == old_note.owner_pk
            &&& new_note.note_index == old_note.note_index
            &&& new_note.commitment == old_note.commitment
            &&& new_note.nullifier == old_note.nullifier
        }),
{
}

/// A transfer marks one note, records its nullifier, and adds the hash of the new note's contents to
/// the tree. The wallet keeps the new note, unspent and at its place, exactly where it is the
/// recipient.
pub proof fn law_transfer_moves_one_note(
    w: WalletState,
    i: nat,
    rune_id: nat,
    amount: nat,
    blinding: nat,
    recipient_pk: nat,
)
    requires
        i < w.notes.len(),
    ensures
        ({
            let after = w.after_transfer(i, rune_id, amount, blinding, recipient_pk);
            let n = w.notes.len();
            let leaf = hash4_spec(rune_id, amount, blinding, recipient_pk);
            &&& after.keys == w.keys
            &&& after.leaves == w.leaves.push(leaf)
            &&& after.spent_nullifiers == w.spent_nullifiers.push(w.notes[i as int].nullifier)
            &&& forall|k: int|
                0 <= k < n && k != i ==> #[trigger] after.notes[k] == w.notes[k]
            &&& after.notes[i as int] == (NoteRecord { spent: true, ..w.notes[i as int] })
            &&& recipient_pk != w.keys.public_key@ ==> after.notes.len() == n
            &&& recipient_pk == w.keys.public_key@ ==> {
                let new = after.notes[n as int];
                &&& after.notes.len() == n + 1
                &&& new.rune_id == rune_id
                &&& new.amount == amount
                &&& new.blinding == blinding
                &&& new.owner_pk == recipient_pk
                &&& new.note_index == w.leaves.len()
                &&& new.commitment == leaf
                &&& new.nullifier == hash3_spec(w.keys.nullifier_key@, w.leaves.len(), leaf)
                &&& !new.spent
            }
        }),
{
}

/// A transfer is refused for want of a note only where no note is unspent, of the Rune and holds the
/// amount, and succeeds wherever such a note is and its spend can be proved. It then spends the first
/// such note, creates a note of the amount for the recipient, and lets the whole remainder go as the
/// fee.
pub proof fn law_transfer_pays(
    before: WalletState,
    after: WalletState,
    r: Result<TransferResult, WalletError>,
    recipient_pk: nat,
    amount: u64,
    rune_id: nat,
    seed: nat,
)
    requires
        transfer_outcome(before, after, r, recipient_pk, amount, rune_id, seed),
    ensures
        (r is Err && r->Err_0 == WalletError::NoUnspentNote(amount)) <==> forall|j: int|
            0 <= j < before.notes.len() ==> (#[trigger] before.notes[j]).spent
                || before.notes[j].rune_id != rune_id || before.notes[j].amount < amount,
        r is Err ==> after == before,
        r is Err ==> r->Err_0 == WalletError::NoUnspentNote(amount) || r->Err_0
            == WalletError::TransferNotSatisfied,
        forall|i: int|
            {
                &&& 0 <= i < before.notes.len()
                &&& can_pay(#[trigger] before.notes[i], rune_id, amount as nat)
                &&& before.provable(i as nat)
                &&& forall|j: int|
                    0 <= j < i ==> !can_pay(#[trigger] before.notes[j], rune_id, amount as nat)
            } ==> {
                &&& r is Ok
                &&& r->Ok_0.nullifier@ == before.notes[i].nullifier
                &&& r->Ok_0.circuit_fee + amount == before.notes[i].amount
                &&& r->Ok_0.out_commitment@ == hash4_spec(
                    rune_id,
                    amount as nat,
                    seed,
                    recipient_pk,
                )
                &&& r->Ok_0.anchor@ == node(before.leaves, 32, 0)
                &&& r->Ok_0.new_tree_root@ == node(after.leaves, 32, 0)
                &&& after.notes[i].spent
                &&& after.leaves == before.leaves.push(r->Ok_0.out_commitment@)
                &&& after.spent_nullifiers == before.spent_nullifiers.push(
                    before.notes[i].nullifier,
                )
                &&& after.keys == before.keys
            },
        r is Ok ==> exists|i: int|
            0 <= i < before.notes.len() && can_pay(
                #[trigger] before.notes[i],
                rune_id,
                amount as nat,
            ) && before.provable(i as nat) && r->Ok_0.nullifier@ == before.notes[i].nullifier,
{
    lemma_selection(before.notes, rune_id, amount as nat, 0);
    match select_note(before.notes, rune_id, amount as nat, 0) {
        Some(k) => {
            assert(can_pay(before.notes[k as int], rune_id, amount as nat));
            law_transfer_moves_one_note(before, k, rune_id, amount as nat, seed, recipient_pk);
            assert forall|i: int|
                {
                    &&& 0 <= i < before.notes.len()
                    &&& can_pay(#[trigger] before.notes[i], rune_id, amount as nat)
                    &&& forall|j: int|
                        0 <= j < i ==> !can_pay(
                            #[trigger] before.notes[j],
                            rune_id,
                            amount as nat,
                        )
                } implies i == k by {
                if k < i {
                    assert(!can_pay(before.notes[k as int], rune_id, amount as nat));
                }
            }
        },
        None => {},
    }
}

/// An unshield is refused as unknown only where no unspent note is at the place, and succeeds
/// wherever the first such note can be proved: it releases the whole amount of that note, marks it,
/// and records its nullifier.
pub proof fn law_unshield_pays_out(
    before: WalletState,
    after: WalletState,
    r: Result<UnshieldResult, WalletError>,
    note_index: u64,
)
    requires
        unshield_outcome(before, after, r, note_index),
    ensures
        (r is Err && r->Err_0 == WalletError::NoteNotFound(note_index)) <==> forall|j: int|
            0 <= j < before.notes.len() ==> (#[trigger] before.notes[j]).spent
                || before.notes[j].note_index != note_index,
        r is Err ==> after == before,
        r is Err ==> r->Err_0 == WalletError::NoteNotFound(note_index) || r->Err_0
            == WalletError::UnshieldNotSatisfied,
        forall|i: int|
            {
                &&& 0 <= i < before.notes.len()
                &&& !(#[trigger] before.notes[i]).spent
                &&& before.notes[i].note_index == note_index
                &&& before.provable(i as nat)
                &&& forall|j: int|
                    0 <= j < i ==> (#[trigger] before.notes[j]).spent
                        || before.notes[j].note_index != note_index
            } ==> {
                &&& r is Ok
                &&& r->Ok_0.rune_id@ == before.notes[i].rune_id
                &&& r->Ok_0.amount == before.notes[i].amount
                &&& r->Ok_0.nullifier@ == before.notes[i].nullifier
                &&& r->Ok_0.anchor@ == node(before.leaves, 32, 0)
                &&& after.notes[i].spent
                &&& after.leaves == before.leaves
                &&& after.spent_nullifiers == before.spent_nullifiers.push(
                    before.notes[i].nullifier,
                )
                &&& after.keys == before.keys
            },
{
    lemma_finding(before.notes, note_index as nat, 0);
    if let Some(k) = find_note(before.notes, note_index as nat, 0) {
        law_spend_marks_one_note(before, k);
        assert forall|i: int|
            {
                &&& 0 <= i < before.notes.len()
                &&& !(#[trigger] before.notes[i]).spent
                &&& before.notes[i].note_index == note_index
                &&& forall|j: int|
                    0 <= j < i ==> (#[trigger] before.notes[j]).spent
                        || before.notes[j].note_index != note_index
            } implies i == k by {
            if k < i {
                assert(before.notes[k as int].spent || before.notes[k as int].note_index
                    != note_index);
            }
        }
    }
}

/// A shield gives back the place, the leaf and the new root, and a note that a wallet with the same
/// keys reads from the digits: of the Rune, the amount and the blinding, at that place.
pub proof fn law_shield_reads_back(
    before: WalletState,
    after: WalletState,
    r: Result<ShieldResult, WalletError>,
    rune_id: nat,
    amount: nat,
    seed: nat,
    ephemeral: Seq<u8>,
    count: nat,
)
    requires
        shield_outcome(before, after, r, rune_id, amount, seed, ephemeral),
        rune_id < modulus(),
        amount <= u64::MAX,
        seed <= u64::MAX,
        before.leaves.len() < count,
        r is Ok ==> reads_at_most_one(
            hex_bytes(r->Ok_0.encrypted_note_hex@),
            x25519_secret_spec(before.keys.spending_key@),
        ),
    ensures
        r is Ok,
        r->Ok_0.note_index == before.leaves.len(),
        r->Ok_0.commitment@ == hash4_spec(rune_id, amount, seed, before.keys.public_key@),
        r->Ok_0.tree_root@ == node(after.leaves, 32, 0),
        after == before.after_shield(rune_id, amount, seed),
        r->Ok_0.encrypted_note_hex@.len() == 240,
        discovered(
            before.keys,
            count,
            r->Ok_0.note_index as nat,
            hex_bytes(r->Ok_0.encrypted_note_hex@),
        ) == Some(after.notes[before.notes.len() as int]),
{
    let s = r->Ok_0;
    let e = choose|e: EncryptedNote|
        {
            &&& s.encrypted_note_hex@ == hex_text(#[trigger] e.blob())
            &&& e.ephemeral_pk@ == x25519_public(ephemeral)
            &&& e.ciphertext@.len() == 88
            &&& e.opens_to(
                x25519_secret_spec(before.keys.spending_key@),
                plaintext_spec(rune_id, amount, seed),
            )
        };
    law_hex_round_trip(e.blob());
    assert(e.blob().take(32) =~= e.ephemeral_pk@);
    assert(e.blob().skip(32) =~= e.ciphertext@);
    lemma_modulus_fits();
    law_receiver_discovers(
        before.keys,
        count,
        before.leaves.len(),
        e.blob(),
        rune_id,
        amount,
        seed,
    );
}

/// What a stored note says is what its parts are.
pub proof fn law_record_of_a_note(notes: Seq<StoredNote>, i: int)
    requires
        0 <= i < notes.len(),
    ensures
        records(notes).len() == notes.len(),
        records(notes)[i].rune_id == notes[i].note.rune_id@,
        records(notes)[i].amount == notes[i].note.amount,
        records(notes)[i].blinding == notes[i].note.blinding@,
        records(notes)[i].owner_pk == notes[i].note.owner_pk@,
        records(notes)[i].note_index == notes[i].note.note_index,
        records(notes)[i].commitment == notes[i].commitment@,
        records(notes)[i].nullifier == notes[i].nullifier@,
        records(notes)[i].spent == notes[i].spent,
{
}

/// A spend of a note can be proved exactly where the hash of its contents hashes up to the root along
/// the path of its place, its nullifier is the hash of the wallet's nullifier key, the place and the
/// commitment, and both that key and the owner are derived from the spending key.
pub proof fn law_what_is_provable(w: WalletState, i: nat)
    ensures
        ({
            let n = w.notes[i as int];
            let sk = w.keys.spending_key@;
            let commitment = hash4_spec(n.rune_id, n.amount, n.blinding, n.owner_pk);
            w.provable(i) <==> {
                &&& climb(
                    path_siblings(w.leaves, n.note_index),
                    path_directions(n.note_index),
                    commitment,
                    32,
                ) == node(w.leaves, 32, 0)
                &&& n.nullifier == hash3_spec(
                    w.keys.nullifier_key@,
                    n.note_index,
                    commitment,
                )
                &&& w.keys.nullifier_key@ == hash2_spec(sk, 0x7052756e655f6e6b)
                &&& n.owner_pk == hash2_spec(sk, 0x7052756e655f706b)
            }
        }),
{
}

/// A wallet is in order exactly where its keys are derived from the spending key, the tree is no
/// fuller than its 32 levels allow, and each note is the wallet's, stands in the tree at its place
/// with the hash of its contents, and has the nullifier of that place and hash.
pub proof fn law_what_is_anchored(w: WalletState)
    ensures
        w.anchored() <==> {
            &&& w.keys.wf()
            &&& w.leaves.len() <= 0x1_0000_0000
            &&& forall|i: int|
                0 <= i < w.notes.len() ==> {
                    let n = #[trigger] w.notes[i];
                    &&& n.note_index < w.leaves.len()
                    &&& n.owner_pk == w.keys.public_key@
                    &&& n.commitment == hash4_spec(n.rune_id, n.amount, n.blinding, n.owner_pk)
                    &&& w.leaves[n.note_index as int] == n.commitment
                    &&& n.nullifier == hash3_spec(
                        w.keys.nullifier_key@,
                        n.note_index,
                        n.commitment,
                    )
                }
        },
{
    if w.anchored() {
        assert forall|i: int| 0 <= i < w.notes.len() implies {
            let n = #[trigger] w.notes[i];
            &&& n.note_index < w.leaves.len()
            &&& n.owner_pk == w.keys.public_key@
            &&& n.commitment == hash4_spec(n.rune_id, n.amount, n.blinding, n.owner_pk)
            &&& w.leaves[n.note_index as int] == n.commitment
            &&& n.nullifier == hash3_spec(w.keys.nullifier_key@, n.note_index, n.commitment)
        } by {
            assert(w.note_anchored(i));
        }
    }
}

/// A transfer stays within the tree where nothing can pay it, or where what pays it, the first note
/// that can, is in the tree and a spend of it either cannot be proved or finds room for one leaf.
pub proof fn law_what_fits(w: WalletState, rune_id: nat, amount: nat, note_index: nat)
    ensures
        transfer_fits(w, rune_id, amount) <==> forall|i: nat|
            i < w.notes.len() && can_pay(#[trigger] w.notes[i as int], rune_id, amount) && (forall|
                k: nat,
            |
                k < i ==> !can_pay(#[trigger] w.notes[k as int], rune_id, amount)) ==> {
                &&& w.notes[i as int].note_index < w.leaves.len()
                &&& w.provable(i) ==> w.leaves.len() < 0x1_0000_0000
            },
        unshield_fits(w, note_index) <==> note_index < w.leaves.len() || forall|i: int|
            0 <= i < w.notes.len() ==> (#[trigger] w.notes[i]).spent || w.notes[i].note_index
                != note_index,
{
    lemma_selection(w.notes, rune_id, amount, 0);
    lemma_finding(w.notes, note_index, 0);
    match select_note(w.notes, rune_id, amount, 0) {
        Some(i) => {
            assert(can_pay(w.notes[i as int], rune_id, amount));
        },
        None => {},
    }
}

/// A prepared spend is the one of the note that was chosen: its statement says what is published, its
/// witness what is hidden, and the fee is what the new note leaves over.
pub proof fn law_prepared_spend(w: Wallet, p: PreparedSpend, i: nat, out_note: Note)
    requires
        w.is_prepared(p, i, out_note),
    ensures
        ({
            let n = w@.notes[i as int];
            &&& p.input == i
            &&& p.out_note == out_note
            &&& p.circuit_fee + out_note.amount == n.amount
            &&& p.statement@.inputs() == seq![
                n.rune_id,
                node(w.tree@, 32, 0),
                n.nullifier,
                hash4_spec(
                    out_note.rune_id@,
                    out_note.amount as nat,
                    out_note.blinding@,
                    out_note.owner_pk@,
                ),
                p.circuit_fee as nat,
            ]
            &&& p.witness@ == (Witness {
                in_amount: n.amount,
                in_blinding: n.blinding,
                owner_pk: n.owner_pk,
                nullifier_key: w.keys.nullifier_key@,
                note_index: n.note_index,
                siblings: path_siblings(w.tree@, n.note_index),
                directions: path_directions(n.note_index),
                out_amount: out_note.amount as nat,
                out_blinding: out_note.blinding@,
                out_owner_pk: out_note.owner_pk@,
                spending_key: w.keys.spending_key@,
            })
            &&& spend_is_valid(p.statement@, p.witness@)
        }),
{
}

/// A new wallet has its keys and nothing else.
pub proof fn law_new_wallet_is_empty(keys: KeySet)
    ensures
        empty_wallet(keys).keys == keys,
        empty_wallet(keys).notes.len() == 0,
        empty_wallet(keys).leaves.len() == 0,
        empty_wallet(keys).spent_nullifiers.len() == 0,
{
}

/// What unshielding creates is owned by a number that is no wallet's; the default file stands under
/// the home directory, or under the current one.
pub proof fn law_burn_owner_and_default_path(home: String)
    ensures
        BURN_PK == 2955653163,
        default_path_text(Some(home)) == joined_path(home@, ".prune/wallet.json"@),
        default_path_text(None) == joined_path("."@, ".prune/wallet.json"@),
{
}

/// Each refusal has its text, with the number that it is about in decimal digits.
pub proof fn law_refusal_texts(n: u64)
    ensures
        error_text(WalletError::NoUnspentNote(n))
            == "No unspent note with sufficient balance for "@ + decimal_text(n as nat)
            + " units of this rune"@,
        error_text(WalletError::NoteNotFound(n)) == "Note index "@ + decimal_text(n as nat)
            + " not found or already spent"@,
        error_text(WalletError::TransferNotSatisfied)
            == "Circuit is not satisfied — this is a bug in the witness construction"@,
        error_text(WalletError::UnshieldNotSatisfied) == "Circuit not satisfied"@,
{
}

} // verus!
