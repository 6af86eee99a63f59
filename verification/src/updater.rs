//! The index of the private pool: all commitments, encrypted notes and nullifiers of the chain.
//!
//! Operations are applied in the order of the chain. A transfer or an unshield whose nullifier has
//! been seen before is a double spend and is passed over.
use std::collections::BTreeMap;

use vstd::prelude::*;

use crate::bytes::{bytes_equal, le_bytes, le_value};
use crate::chain::{Transaction, Txid};
use crate::cli::sealed_for;
use crate::ecdh::x25519_public;
use crate::event::{notices, Event, Notice};
use crate::field::{decodes, law_compressed_round_trip, modulus, Fr};
use crate::indexer::{
    fr_from_bytes32, fr_to_bytes32, operation_views, operations, scan_transaction,
};
use crate::keys::{x25519_secret_spec, KeySet};
use crate::note::Note;
use crate::transaction::{Operation, PruneOp};
use crate::tree::{capacity, root_spec, IncrementalMerkleTree};
use crate::wallet::sync::{discovered, law_sealed_note_is_discovered, reads_at_most_one};

verus! {

/// What the index keeps.
pub struct PruneTables {
    /// The nullifiers that have been seen.
    pub nullifier_set: Vec<[u8; 32]>,
    /// The commitments by their place in the tree.
    pub commitment_to_index: BTreeMap<u64, [u8; 32]>,
    /// The encrypted notes by the place of their commitments.
    pub encrypted_notes: BTreeMap<u64, Vec<u8>>,
    /// The root after each block.
    pub tree_root_at_height: BTreeMap<u32, [u8; 32]>,
    /// The next free place in the tree, once there is one on record.
    pub tree_next_index: Option<u64>,
}

impl PruneTables {
    /// Tables of a chain on which nothing has happened yet.
    pub fn new() -> (tables: PruneTables)
        ensures
            tables.nullifier_set@.len() == 0,
            tables.commitment_to_index@ == Map::<u64, [u8; 32]>::empty(),
            tables.encrypted_notes@ == Map::<u64, Vec<u8>>::empty(),
            tables.tree_root_at_height@ == Map::<u32, [u8; 32]>::empty(),
            tables.tree_next_index is None,
    {
        PruneTables {
            nullifier_set: Vec::new(),
            commitment_to_index: BTreeMap::new(),
            encrypted_notes: BTreeMap::new(),
            tree_root_at_height: BTreeMap::new(),
            tree_next_index: None,
        }
    }
}

/// Applies the operations of a block to the tables.
pub struct PruneUpdater {
    pub height: u32,
    pub tables: PruneTables,
    pub tree: IncrementalMerkleTree,
    pub next_index: u64,
}

/// What the index holds.
#[verifier::ext_equal]
pub struct IndexState {
    pub nullifiers: Seq<Seq<u8>>,
    pub commitments: Map<u64, Seq<u8>>,
    pub notes: Map<u64, Seq<u8>>,
    pub leaves: Seq<nat>,
    pub next_index: u64,
}

/// The bytes of a list of nullifiers.
pub open spec fn nullifier_bytes(set: Seq<[u8; 32]>) -> Seq<Seq<u8>> {
    Seq::new(set.len(), |i: int| set[i]@)
}

/// The bytes of the commitments by place.
pub open spec fn commitment_bytes(map: Map<u64, [u8; 32]>) -> Map<u64, Seq<u8>> {
    Map::new(|k: u64| map.contains_key(k), |k: u64| map[k]@)
}

/// The bytes of the encrypted notes by place.
pub open spec fn note_bytes(map: Map<u64, Vec<u8>>) -> Map<u64, Seq<u8>> {
    Map::new(|k: u64| map.contains_key(k), |k: u64| map[k]@)
}

impl View for PruneUpdater {
    type V = IndexState;

    open spec fn view(&self) -> IndexState {
        IndexState {
            nullifiers: nullifier_bytes(self.tables.nullifier_set@),
            commitments: commitment_bytes(self.tables.commitment_to_index@),
            notes: note_bytes(self.tables.encrypted_notes@),
            leaves: self.tree@,
            next_index: self.next_index,
        }
    }
}

/// The leaves that the commitments at the first `n` places stand for. A place without a commitment,
/// or with one that is no element, gives none.
pub open spec fn stored_leaves(commitments: Map<u64, Seq<u8>>, n: nat) -> Seq<nat>
    decreases n,
{
    if n == 0 {
        Seq::empty()
    } else {
        let k = (n - 1) as u64;
        let before = stored_leaves(commitments, (n - 1) as nat);
        if commitments.contains_key(k) && decodes(commitments[k]) {
            before.push(le_value(commitments[k].take(32)))
        } else {
            before
        }
    }
}

impl IndexState {
    /// Whether a nullifier has been seen.
    pub open spec fn seen(self, nullifier: nat) -> bool {
        self.nullifiers.contains(le_bytes(nullifier, 32))
    }

    /// The index with a commitment, and a note where there is one, at the next place.
    pub open spec fn with_leaf(self, commitment: nat, note: Option<Seq<u8>>) -> IndexState {
        IndexState {
            commitments: self.commitments.insert(self.next_index, le_bytes(commitment, 32)),
            notes: match note {
                Some(bytes) => self.notes.insert(self.next_index, bytes),
                None => self.notes,
            },
            leaves: self.leaves.push(commitment),
            next_index: (self.next_index + 1) as u64,
            ..self
        }
    }

    /// The index with one more nullifier.
    pub open spec fn with_nullifier(self, nullifier: nat) -> IndexState {
        IndexState { nullifiers: self.nullifiers.push(le_bytes(nullifier, 32)), ..self }
    }

    /// The index after an operation.
    pub open spec fn after(self, op: Operation) -> IndexState {
        match op {
            Operation::Shield { commitment, encrypted_note, .. } => self.with_leaf(
                commitment,
                Some(encrypted_note),
            ),
            Operation::Transfer { nullifier, out_commitment, encrypted_note, .. } => if self.seen(
                nullifier,
            ) {
                self
            } else {
                self.with_nullifier(nullifier).with_leaf(out_commitment, Some(encrypted_note))
            },
            Operation::Unshield { nullifier, out_commitment, .. } => if self.seen(nullifier) {
                self
            } else {
                self.with_nullifier(nullifier).with_leaf(out_commitment, None)
            },
        }
    }

    /// What is reported of an operation: nothing of a double spend.
    pub open spec fn report(self, op: Operation, block_height: u32, txid: Txid) -> Seq<Notice> {
        let tree_index = self.next_index;
        match op {
            Operation::Shield { commitment, .. } => seq![
                Notice::Shielded {
                    block_height,
                    txid,
                    commitment: le_bytes(commitment, 32),
                    tree_index,
                },
            ],
            Operation::Transfer { nullifier, out_commitment, .. } => if self.seen(nullifier) {
                Seq::empty()
            } else {
                seq![
                    Notice::Transferred {
                        block_height,
                        txid,
                        nullifier: le_bytes(nullifier, 32),
                        out_commitment: le_bytes(out_commitment, 32),
                        tree_index,
                    },
                ]
            },
            Operation::Unshield { nullifier, amount, .. } => if self.seen(nullifier) {
                Seq::empty()
            } else {
                seq![
                    Notice::Unshielded {
                        block_height,
                        txid,
                        nullifier: le_bytes(nullifier, 32),
                        amount,
                    },
                ]
            },
        }
    }

    /// The index after the first `n` of a list of operations.
    pub open spec fn after_all(self, ops: Seq<(nat, Operation)>, n: nat) -> IndexState
        decreases n,
    {
        if n == 0 {
            self
        } else {
            self.after_all(ops, (n - 1) as nat).after(ops[n - 1].1)
        }
    }

    /// What is reported of the first `n` of a list of operations.
    pub open spec fn report_all(
        self,
        ops: Seq<(nat, Operation)>,
        n: nat,
        block_height: u32,
        txid: Txid,
    ) -> Seq<Notice>
        decreases n,
    {
        if n == 0 {
            Seq::empty()
        } else {
            self.report_all(ops, (n - 1) as nat, block_height, txid) + self.after_all(
                ops,
                (n - 1) as nat,
            ).report(ops[n - 1].1, block_height, txid)
        }
    }

    /// Whether an operation adds a leaf: unless it is a double spend, it does.
    pub open spec fn adds_leaf(self, op: Operation) -> bool {
        match op {
            Operation::Shield { .. } => true,
            Operation::Transfer { nullifier, .. } => !self.seen(nullifier),
            Operation::Unshield { nullifier, .. } => !self.seen(nullifier),
        }
    }

    /// How many leaves the first `n` of a list of operations add.
    pub open spec fn leaves_added(self, ops: Seq<(nat, Operation)>, n: nat) -> nat
        decreases n,
    {
        if n == 0 {
            0
        } else {
            let before = self.leaves_added(ops, (n - 1) as nat);
            if self.after_all(ops, (n - 1) as nat).adds_leaf(ops[n - 1].1) {
                before + 1
            } else {
                before
            }
        }
    }

    /// Whether there is room for `n` more leaves.
    pub open spec fn has_room(self, n: nat) -> bool {
        self.leaves.len() + n <= capacity() && self.next_index + n <= u64::MAX
    }

    /// Whether the commitment at place `i` is that of the leaf there.
    pub open spec fn place_consistent(self, i: int) -> bool {
        &&& self.commitments.contains_key(i as u64)
        &&& self.commitments[i as u64] == le_bytes(self.leaves[i], 32)
    }

    /// Whether the commitments are those of the leaves, place by place.
    pub open spec fn consistent(self) -> bool {
        &&& self.next_index == self.leaves.len()
        &&& forall|i: int| 0 <= i < self.leaves.len() ==> #[trigger] self.place_consistent(i)
    }
}

impl PruneUpdater {
    /// Starts on a block: rebuilds the tree from the commitments on record.
    pub fn new(height: u32, tables: PruneTables) -> (updater: PruneUpdater)
        requires
            stored_leaves(
                commitment_bytes(tables.commitment_to_index@),
                next_place(tables.tree_next_index),
            ).len() <= capacity(),
        ensures
            updater.height == height,
            updater.tables == tables,
            updater.tree.wf(),
            updater.next_index == next_place(tables.tree_next_index),
            updater@.leaves == stored_leaves(
                commitment_bytes(tables.commitment_to_index@),
                next_place(tables.tree_next_index),
            ),
    {
        let next_index: u64 = match tables.tree_next_index {
            Some(n) => n,
            None => 0,
        };
        let ghost commitments = commitment_bytes(tables.commitment_to_index@);
        let ghost all = stored_leaves(commitments, next_index as nat);
        let mut tree = IncrementalMerkleTree::new();
        let mut idx: u64 = 0;
        assert(tree@ =~= stored_leaves(commitments, 0));
        while idx < next_index
            invariant
                idx <= next_index,
                commitments == commitment_bytes(tables.commitment_to_index@),
                all == stored_leaves(commitments, next_index as nat),
                all.len() <= capacity(),
                tree.wf(),
                tree@ == stored_leaves(commitments, idx as nat),
            decreases next_index - idx,
        {
            proof {
                lemma_stored_leaves_grow(commitments, (idx + 1) as nat, next_index as nat);
            }
            match tables.commitment_to_index.get(&idx) {
                Some(bytes) => {
                    assert(commitments.contains_key(idx) && commitments[idx] == bytes@);
                    assert(bytes@.take(32) =~= bytes@);
                    match fr_from_bytes32(bytes) {
                        Ok(fr) => {
                            let index: u64 = tree.append(fr);
                        },
                        Err(_) => {},
                    }
                },
                None => {
                    assert(!commitments.contains_key(idx));
                },
            }
            idx = idx + 1;
        }
        PruneUpdater { height, tables, tree, next_index }
    }

    /// Applies the operations of a transaction and returns what is to be reported.
    pub fn index_prune_ops(&mut self, tx: &Transaction, txid: Txid) -> (events: Vec<Event>)
        requires
            old(self).tree.wf(),
            ({
                let ops = operations(tx.input@, tx.input@.len());
                old(self)@.has_room(old(self)@.leaves_added(ops, ops.len()))
            }),
        ensures
            final(self).tree.wf(),
            final(self).height == old(self).height,
            final(self).tables.tree_root_at_height == old(self).tables.tree_root_at_height,
            final(self).tables.tree_next_index == old(self).tables.tree_next_index,
            ({
                let ops = operations(tx.input@, tx.input@.len());
                &&& final(self)@ == old(self)@.after_all(ops, ops.len())
                &&& notices(events@) == old(self)@.report_all(
                    ops,
                    ops.len(),
                    old(self).height,
                    txid,
                )
            }),
    {
        let ghost before = *self;
        let found = scan_transaction(tx);
        let ghost ops = operation_views(found@);
        let mut events: Vec<Event> = Vec::new();
        let mut i: usize = 0;
        assert(notices(events@) =~= Seq::<Notice>::empty());
        while i < found.len()
            invariant
                i <= found@.len(),
                ops == operation_views(found@),
                self.tree.wf(),
                self.height == before.height,
                self.tables.tree_root_at_height == before.tables.tree_root_at_height,
                self.tables.tree_next_index == before.tables.tree_next_index,
                before@.has_room(before@.leaves_added(ops, ops.len())),
                ops.len() == found@.len(),
                self@.leaves.len() == before@.leaves.len() + before@.leaves_added(ops, i as nat),
                self.next_index == before.next_index + before@.leaves_added(ops, i as nat),
                self@ == before@.after_all(ops, i as nat),
                notices(events@) == before@.report_all(ops, i as nat, before.height, txid),
            decreases found@.len() - i,
        {
            let ghost now = self@;
            let ghost reported = events@;
            assert(ops[i as int].1 == found@[i as int].1@);
            proof {
                lemma_leaves_added_grow(before@, ops, (i + 1) as nat, ops.len());
                assert(now.adds_leaf(ops[i as int].1) ==> now.has_room(1));
            }
            let event = match &found[i].1 {
                PruneOp::Shield { commitment, encrypted_note, .. } => {
                    Some(self.process_shield(*commitment, encrypted_note, txid))
                },
                PruneOp::Transfer { nullifier, out_commitment, encrypted_note, .. } => {
                    self.process_transfer(*nullifier, *out_commitment, encrypted_note, txid)
                },
                PruneOp::Unshield { nullifier, out_commitment, amount, .. } => {
                    self.process_unshield(*nullifier, *out_commitment, *amount, txid)
                },
            };
            match event {
                Some(event) => {
                    events.push(event);
                    assert(notices(events@) =~= notices(reported) + seq![event@]);
                },
                None => {
                    assert(notices(events@) =~= notices(reported) + Seq::<Notice>::empty());
                },
            }
            assert(self@ == now.after(ops[i as int].1));
            i = i + 1;
        }
        events
    }

    /// Whether a nullifier has been seen.
    fn is_seen(&self, nullifier: Fr) -> (r: bool)
        ensures
            r == self@.seen(nullifier@),
    {
        let bytes = fr_to_bytes32(nullifier);
        let mut i: usize = 0;
        while i < self.tables.nullifier_set.len()
            invariant
                i <= self.tables.nullifier_set@.len(),
                bytes@ == le_bytes(nullifier@, 32),
                forall|k: int|
                    0 <= k < i ==> (#[trigger] self.tables.nullifier_set@[k])@ != bytes@,
            decreases self.tables.nullifier_set@.len() - i,
        {
            if bytes_equal(self.tables.nullifier_set[i].as_slice(), bytes.as_slice()) {
                assert(self@.nullifiers[i as int] == bytes@);
                return true;
            }
            i = i + 1;
        }
        assert(!self@.nullifiers.contains(bytes@));
        false
    }

    /// Adds a commitment, and a note where there is one, at the next place.
    fn add_leaf(&mut self, commitment: Fr, note: Option<&Vec<u8>>) -> (bytes: [u8; 32])
        requires
            old(self).tree.wf(),
            old(self)@.has_room(1),
        ensures
            final(self).tree.wf(),
            final(self).height == old(self).height,
            final(self).tables.tree_root_at_height == old(self).tables.tree_root_at_height,
            final(self).tables.tree_next_index == old(self).tables.tree_next_index,
            final(self)@ == old(self)@.with_leaf(
                commitment@,
                match note {
                    Some(n) => Some(n@),
                    None => None,
                },
            ),
            bytes@ == le_bytes(commitment@, 32),
    {
        let ghost before = *self;
        let bytes = fr_to_bytes32(commitment);
        let tree_index: u64 = self.next_index;
        let index: u64 = self.tree.append(commitment);
        let replaced = self.tables.commitment_to_index.insert(tree_index, bytes);
        assert(commitment_bytes(self.tables.commitment_to_index@) =~= before@.commitments.insert(
            tree_index,
            bytes@,
        ));
        match note {
            Some(note) => {
                let copy = note.clone();
                assert(copy@ =~= note@);
                let replaced_note = self.tables.encrypted_notes.insert(tree_index, copy);
                assert(note_bytes(self.tables.encrypted_notes@) =~= before@.notes.insert(
                    tree_index,
                    note@,
                ));
            },
            None => {},
        }
        self.next_index = tree_index + 1;
        bytes
    }

    /// Takes a nullifier down.
    fn add_nullifier(&mut self, nullifier: Fr) -> (bytes: [u8; 32])
        ensures
            final(self).tree == old(self).tree,
            final(self).height == old(self).height,
            final(self).tables.tree_root_at_height == old(self).tables.tree_root_at_height,
            final(self).tables.tree_next_index == old(self).tables.tree_next_index,
            final(self)@ == old(self)@.with_nullifier(nullifier@),
            bytes@ == le_bytes(nullifier@, 32),
    {
        let ghost before = *self;
        let bytes = fr_to_bytes32(nullifier);
        self.tables.nullifier_set.push(bytes);
        assert(nullifier_bytes(self.tables.nullifier_set@) =~= before@.nullifiers.push(bytes@));
        bytes
    }

    /// Applies a shield.
    pub fn process_shield(&mut self, commitment: Fr, encrypted_note: &Vec<u8>, txid: Txid) -> (event:
        Event)
        requires
            old(self).tree.wf(),
            old(self)@.has_room(1),
        ensures
            final(self).tree.wf(),
            final(self).height == old(self).height,
            final(self).tables.tree_root_at_height == old(self).tables.tree_root_at_height,
            final(self).tables.tree_next_index == old(self).tables.tree_next_index,
            final(self)@ == old(self)@.with_leaf(commitment@, Some(encrypted_note@)),
            event@ == (Notice::Shielded {
                block_height: old(self).height,
                txid,
                commitment: le_bytes(commitment@, 32),
                tree_index: old(self).next_index,
            }),
    {
        let tree_index: u64 = self.next_index;
        let commitment_bytes = self.add_leaf(commitment, Some(encrypted_note));
        Event::PruneShielded {
            block_height: self.height,
            txid,
            commitment: commitment_bytes,
            tree_index,
        }
    }

    /// Applies a transfer, unless it is a double spend.
    pub fn process_transfer(
        &mut self,
        nullifier: Fr,
        out_commitment: Fr,
        encrypted_note: &Vec<u8>,
        txid: Txid,
    ) -> (event: Option<Event>)
        requires
            old(self).tree.wf(),
            old(self)@.seen(nullifier@) || old(self)@.has_room(1),
        ensures
            final(self).tree.wf(),
            final(self).height == old(self).height,
            final(self).tables.tree_root_at_height == old(self).tables.tree_root_at_height,
            final(self).tables.tree_next_index == old(self).tables.tree_next_index,
            old(self)@.seen(nullifier@) ==> event is None && final(self)@ == old(self)@,
            !old(self)@.seen(nullifier@) ==> {
                &&& final(self)@ == old(self)@.with_nullifier(nullifier@).with_leaf(
                    out_commitment@,
                    Some(encrypted_note@),
                )
                &&& event matches Some(e) && e@ == (Notice::Transferred {
                    block_height: old(self).height,
                    txid,
                    nullifier: le_bytes(nullifier@, 32),
                    out_commitment: le_bytes(out_commitment@, 32),
                    tree_index: old(self).next_index,
                })
            },
    {
        if self.is_seen(nullifier) {
            return None;
        }
        let nullifier_bytes = self.add_nullifier(nullifier);
        let tree_index: u64 = self.next_index;
        let commitment_bytes = self.add_leaf(out_commitment, Some(encrypted_note));
        Some(
            Event::PruneTransferred {
                block_height: self.height,
                txid,
                nullifier: nullifier_bytes,
                out_commitment: commitment_bytes,
                tree_index,
            },
        )
    }

    /// Applies an unshield, unless it is a double spend.
    pub fn process_unshield(
        &mut self,
        nullifier: Fr,
        out_commitment: Fr,
        amount: u64,
        txid: Txid,
    ) -> (event: Option<Event>)
        requires
            old(self).tree.wf(),
            old(self)@.seen(nullifier@) || old(self)@.has_room(1),
        ensures
            final(self).tree.wf(),
            final(self).height == old(self).height,
            final(self).tables.tree_root_at_height == old(self).tables.tree_root_at_height,
            final(self).tables.tree_next_index == old(self).tables.tree_next_index,
            old(self)@.seen(nullifier@) ==> event is None && final(self)@ == old(self)@,
            !old(self)@.seen(nullifier@) ==> {
                &&& final(self)@ == old(self)@.with_nullifier(nullifier@).with_leaf(
                    out_commitment@,
                    None,
                )
                &&& event matches Some(e) && e@ == (Notice::Unshielded {
                    block_height: old(self).height,
                    txid,
                    nullifier: le_bytes(nullifier@, 32),
                    amount: amount as nat,
                })
            },
    {
        if self.is_seen(nullifier) {
            return None;
        }
        let nullifier_bytes = self.add_nullifier(nullifier);
        let commitment_bytes = self.add_leaf(out_commitment, None);
        Some(
            Event::PruneUnshielded {
                block_height: self.height,
                txid,
                nullifier: nullifier_bytes,
                amount,
            },
        )
    }

    /// Ends a block: puts the root and the next free place on record.
    pub fn finalize(&mut self)
        requires
            old(self).tree.wf(),
        ensures
            final(self).tree == old(self).tree,
            final(self)@ == old(self)@,
            final(self).height == old(self).height,
            final(self).tables.tree_next_index == Some(old(self).next_index),
            final(self).tables.tree_root_at_height@.dom()
                == old(self).tables.tree_root_at_height@.dom().insert(old(self).height),
            final(self).tables.tree_root_at_height@[old(self).height]@ == le_bytes(
                root_spec(old(self)@.leaves),
                32,
            ),
            forall|h: u32|
                h != old(self).height && old(self).tables.tree_root_at_height@.contains_key(h)
                    ==> #[trigger] final(self).tables.tree_root_at_height@[h]
                    == old(self).tables.tree_root_at_height@[h],
    {
        let ghost before = *self;
        let root = self.tree.root();
        let root_bytes = fr_to_bytes32(root);
        let replaced = self.tables.tree_root_at_height.insert(self.height, root_bytes);
        self.tables.tree_next_index = Some(self.next_index);
        assert(self@ =~= before@);
        assert(self.tables.tree_root_at_height@.dom()
            =~= before.tables.tree_root_at_height@.dom().insert(before.height));
    }
}

/// The next free place on record, the first where there is none.
pub open spec fn next_place(on_record: Option<u64>) -> nat {
    match on_record {
        Some(n) => n as nat,
        None => 0,
    }
}

proof fn lemma_stored_leaves_grow(commitments: Map<u64, Seq<u8>>, a: nat, b: nat)
    requires
        a <= b,
    ensures
        stored_leaves(commitments, a).len() <= stored_leaves(commitments, b).len(),
    decreases b,
{
    if a < b {
        lemma_stored_leaves_grow(commitments, a, (b - 1) as nat);
    }
}

proof fn lemma_leaves_added_grow(s: IndexState, ops: Seq<(nat, Operation)>, a: nat, b: nat)
    requires
        a <= b,
    ensures
        s.leaves_added(ops, a) <= s.leaves_added(ops, b),
    decreases b,
{
    if a < b {
        lemma_leaves_added_grow(s, ops, a, (b - 1) as nat);
    }
}

/// A double spend changes nothing and is not reported.
pub proof fn law_double_spend_is_ignored(
    s: IndexState,
    op: Operation,
    block_height: u32,
    txid: Txid,
)
    requires
        op matches Operation::Transfer { nullifier, .. } ==> s.seen(nullifier),
        op matches Operation::Unshield { nullifier, .. } ==> s.seen(nullifier),
        !(op is Shield),
    ensures
        s.after(op) == s,
        s.report(op, block_height, txid).len() == 0,
{
}

/// Once an operation with a nullifier has been applied, the nullifier has been seen, and it stays
/// seen: a second spend of the same note is a double spend from then on.
pub proof fn law_nullifier_stays_seen(s: IndexState, op: Operation, nullifier: nat)
    ensures
        s.seen(nullifier) ==> s.after(op).seen(nullifier),
        op matches Operation::Transfer { nullifier: n, .. } ==> s.after(op).seen(n),
        op matches Operation::Unshield { nullifier: n, .. } ==> s.after(op).seen(n),
{
    let after = s.after(op);
    if s.seen(nullifier) {
        let i = choose|i: int|
            0 <= i < s.nullifiers.len() && s.nullifiers[i] == le_bytes(nullifier, 32);
        assert(after.nullifiers[i] == le_bytes(nullifier, 32));
    }
    if after.nullifiers.len() > s.nullifiers.len() {
        assert(after.nullifiers[s.nullifiers.len() as int] == after.nullifiers.last());
    }
}

/// No nullifier is taken down twice.
pub proof fn law_nullifiers_are_distinct(s: IndexState, op: Operation)
    requires
        s.nullifiers.no_duplicates(),
    ensures
        s.after(op).nullifiers.no_duplicates(),
{
}

/// Every operation keeps the commitments in step with the leaves.
pub proof fn law_stays_consistent(s: IndexState, op: Operation)
    requires
        s.consistent(),
        s.adds_leaf(op) ==> s.has_room(1),
    ensures
        s.after(op).consistent(),
{
    let after = s.after(op);
    if after.leaves.len() != s.leaves.len() {
        assert forall|i: int| 0 <= i < after.leaves.len() implies #[trigger] after.place_consistent(
            i,
        ) by {
            if i < s.leaves.len() {
                assert(s.place_consistent(i));
            }
        }
    }
}

/// Starting again from the commitments on record rebuilds the tree.
pub proof fn law_restart_rebuilds_tree(s: IndexState, n: nat)
    requires
        s.consistent(),
        n <= s.leaves.len() <= capacity(),
        forall|i: int| 0 <= i < s.leaves.len() ==> #[trigger] s.leaves[i] < modulus(),
    ensures
        stored_leaves(s.commitments, n) == s.leaves.take(n as int),
    decreases n,
{
    if n > 0 {
        law_restart_rebuilds_tree(s, (n - 1) as nat);
        let leaf = s.leaves[n - 1];
        assert(s.place_consistent(n - 1));
        law_compressed_round_trip(leaf, Seq::empty());
        assert(le_bytes(leaf, 32) + Seq::<u8>::empty() =~= le_bytes(leaf, 32));
        assert(s.leaves.take(n as int) =~= s.leaves.take(n - 1).push(leaf));
    } else {
        assert(s.leaves.take(0) =~= Seq::<nat>::empty());
    }
}

/// A shield takes the next place: the commitment is on record there, the encrypted note is on record
/// there byte for byte, and the commitment is the new leaf. Other places, and the nullifiers, stay as
/// they were.
pub proof fn law_shield_is_recorded(
    s: IndexState,
    rune_id: nat,
    commitment: nat,
    encrypted_note: Seq<u8>,
)
    requires
        s.next_index < u64::MAX,
    ensures
        ({
            let after = s.after(Operation::Shield { rune_id, commitment, encrypted_note });
            &&& after.notes.contains_key(s.next_index)
            &&& after.notes[s.next_index] == encrypted_note
            &&& after.commitments.contains_key(s.next_index)
            &&& after.commitments[s.next_index] == le_bytes(commitment, 32)
            &&& after.leaves == s.leaves.push(commitment)
            &&& after.nullifiers == s.nullifiers
            &&& after.next_index == s.next_index + 1
            &&& forall|k: u64|
                k != s.next_index ==> (#[trigger] after.notes.contains_key(k)
                    <==> s.notes.contains_key(k)) && (s.notes.contains_key(k) ==> after.notes[k]
                    == s.notes[k])
            &&& forall|k: u64|
                k != s.next_index ==> (#[trigger] after.commitments.contains_key(k)
                    <==> s.commitments.contains_key(k)) && (s.commitments.contains_key(k)
                    ==> after.commitments[k] == s.commitments[k])
        }),
{
}

/// A transfer whose nullifier is on record changes nothing. Any other takes the next place, with its
/// commitment and its encrypted note on record there byte for byte, and its nullifier is recorded.
/// Other places stay as they were.
pub proof fn law_transfer_is_recorded(
    s: IndexState,
    rune_id: nat,
    nullifier: nat,
    out_commitment: nat,
    anchor: nat,
    fee: nat,
    proof_bytes: Seq<u8>,
    encrypted_note: Seq<u8>,
)
    requires
        s.next_index < u64::MAX,
    ensures
        ({
            let after = s.after(
                Operation::Transfer {
                    rune_id,
                    nullifier,
                    out_commitment,
                    anchor,
                    fee,
                    proof: proof_bytes,
                    encrypted_note,
                },
            );
            let spent = le_bytes(nullifier, 32);
            &&& s.nullifiers.contains(spent) ==> after == s
            &&& !s.nullifiers.contains(spent) ==> {
                &&& after.notes.contains_key(s.next_index)
                &&& after.notes[s.next_index] == encrypted_note
                &&& after.commitments.contains_key(s.next_index)
                &&& after.commitments[s.next_index] == le_bytes(out_commitment, 32)
                &&& after.leaves == s.leaves.push(out_commitment)
                &&& after.nullifiers == s.nullifiers.push(spent)
                &&& after.next_index == s.next_index + 1
                &&& forall|k: u64|
                    k != s.next_index ==> (#[trigger] after.notes.contains_key(k)
                        <==> s.notes.contains_key(k)) && (s.notes.contains_key(k) ==> after.notes[k]
                        == s.notes[k])
                &&& forall|k: u64|
                    k != s.next_index ==> (#[trigger] after.commitments.contains_key(k)
                        <==> s.commitments.contains_key(k)) && (s.commitments.contains_key(k)
                        ==> after.commitments[k] == s.commitments[k])
            }
        }),
{
}

/// An unshield whose nullifier is on record changes nothing. Any other takes the next place with its
/// commitment, without a note, and its nullifier is recorded. Other places stay as they were.
pub proof fn law_unshield_is_recorded(
    s: IndexState,
    rune_id: nat,
    nullifier: nat,
    out_commitment: nat,
    anchor: nat,
    amount: nat,
    proof_bytes: Seq<u8>,
)
    requires
        s.next_index < u64::MAX,
    ensures
        ({
            let after = s.after(
                Operation::Unshield {
                    rune_id,
                    nullifier,
                    out_commitment,
                    anchor,
                    amount,
                    proof: proof_bytes,
                },
            );
            let spent = le_bytes(nullifier, 32);
            &&& s.nullifiers.contains(spent) ==> after == s
            &&& !s.nullifiers.contains(spent) ==> {
                &&& after.notes == s.notes
                &&& after.commitments == s.commitments.insert(
                    s.next_index,
                    le_bytes(out_commitment, 32),
                )
                &&& after.leaves == s.leaves.push(out_commitment)
                &&& after.nullifiers == s.nullifiers.push(spent)
                &&& after.next_index == s.next_index + 1
            }
        }),
{
}

/// Every operation that is applied is reported, once, with the height, the transaction, and its own
/// numbers; a double spend is not reported.
pub proof fn law_reports_say_what_happened(
    s: IndexState,
    op: Operation,
    height: u32,
    txid: Txid,
)
    ensures
        ({
            let said = s.report(op, height, txid);
            match op {
                Operation::Shield { commitment, .. } => said == seq![
                    Notice::Shielded {
                        block_height: height,
                        txid,
                        commitment: le_bytes(commitment, 32),
                        tree_index: s.next_index,
                    },
                ],
                Operation::Transfer { nullifier, out_commitment, .. } => if s.nullifiers.contains(
                    le_bytes(nullifier, 32),
                ) {
                    said.len() == 0
                } else {
                    said == seq![
                        Notice::Transferred {
                            block_height: height,
                            txid,
                            nullifier: le_bytes(nullifier, 32),
                            out_commitment: le_bytes(out_commitment, 32),
                            tree_index: s.next_index,
                        },
                    ]
                },
                Operation::Unshield { nullifier, amount, .. } => if s.nullifiers.contains(
                    le_bytes(nullifier, 32),
                ) {
                    said.len() == 0
                } else {
                    said == seq![
                        Notice::Unshielded {
                            block_height: height,
                            txid,
                            nullifier: le_bytes(nullifier, 32),
                            amount,
                        },
                    ]
                },
            }
        }),
{
}

/// Operations are applied one after the other, none left out, each to what the ones before it left,
/// and each reports on that.
pub proof fn law_operations_apply_in_turn(
    s: IndexState,
    ops: Seq<(nat, Operation)>,
    n: nat,
    height: u32,
    txid: Txid,
)
    ensures
        s.after_all(ops, 0) == s,
        s.after_all(ops, n + 1) == s.after_all(ops, n).after(ops[n as int].1),
        s.report_all(ops, 0, height, txid).len() == 0,
        s.report_all(ops, n + 1, height, txid) == s.report_all(ops, n, height, txid)
            + s.after_all(ops, n).report(ops[n as int].1, height, txid),
{
}

/// What was on record stays: the leaves and the nullifiers that were there are a start of those that
/// are there after any operations.
pub proof fn law_index_only_grows(s: IndexState, ops: Seq<(nat, Operation)>, n: nat)
    ensures
        ({
            let after = s.after_all(ops, n);
            &&& s.leaves.len() <= after.leaves.len()
            &&& forall|i: int| 0 <= i < s.leaves.len() ==> #[trigger] after.leaves[i] == s.leaves[i]
            &&& s.nullifiers.len() <= after.nullifiers.len()
            &&& forall|i: int|
                0 <= i < s.nullifiers.len() ==> #[trigger] after.nullifiers[i] == s.nullifiers[i]
            &&& after.leaves.len() == s.leaves.len() + s.leaves_added(ops, n)
        }),
    decreases n,
{
    if n > 0 {
        law_index_only_grows(s, ops, (n - 1) as nat);
    }
}

/// The note of a shield or of a transfer that is no double spend can be found from what the index
/// holds: a wallet that it was sealed for discovers it at its place.
pub proof fn law_indexed_note_is_discovered(
    s: IndexState,
    op: Operation,
    keys: KeySet,
    count: nat,
    note: Note,
    blob: Seq<u8>,
    ephemeral: Seq<u8>,
)
    requires
        s.next_index < count,
        s.next_index < u64::MAX,
        match op {
            Operation::Shield { encrypted_note, .. } => encrypted_note == blob,
            Operation::Transfer { nullifier, encrypted_note, .. } => encrypted_note == blob
                && !s.nullifiers.contains(le_bytes(nullifier, 32)),
            Operation::Unshield { .. } => false,
        },
        note.rune_id@ < modulus(),
        note.blinding@ < modulus(),
        x25519_secret_spec(keys.spending_key@).len() == 32,
        sealed_for(
            blob,
            note,
            x25519_public(x25519_secret_spec(keys.spending_key@)),
            ephemeral,
        ),
        reads_at_most_one(blob, x25519_secret_spec(keys.spending_key@)),
    ensures
        discovered(keys, count, s.next_index as nat, s.after(op).notes[s.next_index]) matches Some(
            n,
        ) && {
            &&& n.rune_id == note.rune_id@
            &&& n.amount == note.amount
            &&& n.blinding == note.blinding@
            &&& n.owner_pk == keys.public_key@
            &&& n.note_index == s.next_index
            &&& !n.spent
        },
{
    law_sealed_note_is_discovered(keys, count, s.next_index as nat, note, blob, ephemeral);
}

/// The leaves on record are read in order: place by place, a commitment that is an element gives its
/// leaf, and any other place gives none.
pub proof fn law_stored_leaf_by_leaf(commitments: Map<u64, Seq<u8>>, n: u64)
    requires
        n < u64::MAX,
    ensures
        stored_leaves(commitments, 0).len() == 0,
        ({
            let before = stored_leaves(commitments, n as nat);
            let after = stored_leaves(commitments, (n + 1) as nat);
            &&& commitments.contains_key(n) && decodes(commitments[n]) ==> after == before.push(
                le_value(commitments[n].take(32)),
            )
            &&& !(commitments.contains_key(n) && decodes(commitments[n])) ==> after == before
        }),
{
}

/// What the tables say is what they hold, place by place.
pub proof fn law_tables_are_read(updater: PruneUpdater)
    ensures
        updater@.leaves == updater.tree@,
        updater@.next_index == updater.next_index,
        updater@.nullifiers.len() == updater.tables.nullifier_set@.len(),
        forall|i: int|
            0 <= i < updater.tables.nullifier_set@.len() ==> #[trigger] updater@.nullifiers[i]
                == updater.tables.nullifier_set@[i]@,
        forall|k: u64| #[trigger]
            updater@.commitments.contains_key(k)
                <==> updater.tables.commitment_to_index@.contains_key(k),
        forall|k: u64|
            updater.tables.commitment_to_index@.contains_key(k) ==> #[trigger]
            updater@.commitments[k] == updater.tables.commitment_to_index@[k]@,
        forall|k: u64| #[trigger]
            updater@.notes.contains_key(k) <==> updater.tables.encrypted_notes@.contains_key(k),
        forall|k: u64|
            updater.tables.encrypted_notes@.contains_key(k) ==> #[trigger] updater@.notes[k]
                == updater.tables.encrypted_notes@[k]@,
{
}

/// There is room for leaves up to the 2^32 places of the tree and the 64 bits of a place, and a chain
/// on which nothing is on record yet starts at the first place.
pub proof fn law_room_and_first_place(s: IndexState, n: nat, place: u64)
    ensures
        s.has_room(n) <==> s.leaves.len() + n <= 0x1_0000_0000 && s.next_index + n
            < 0x1_0000_0000_0000_0000,
        next_place(None) == 0,
        next_place(Some(place)) == place,
{
}

/// Operations add as many leaves as the tree grows by: each adds one, and a shield always does, or
/// none.
pub proof fn law_leaves_are_counted(s: IndexState, ops: Seq<(nat, Operation)>, n: nat)
    requires
        n < ops.len(),
    ensures
        s.leaves_added(ops, 0) == 0,
        ({
            let now = s.after_all(ops, n);
            let next = s.after_all(ops, n + 1);
            s.leaves_added(ops, n + 1) == s.leaves_added(ops, n) + (next.leaves.len()
                - now.leaves.len())
        }),
        ops[n as int].1 is Shield ==> s.leaves_added(ops, n + 1) == s.leaves_added(ops, n) + 1,
        s.leaves_added(ops, n) <= s.leaves_added(ops, n + 1) <= s.leaves_added(ops, n) + 1,
{
}

} // verus!
