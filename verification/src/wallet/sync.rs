//! Finding a wallet's notes in what the chain carries.
//!
//! The tree is rebuilt from all commitments. Every encrypted note that opens with the wallet's
//! x25519 secret is the wallet's. A note is spent when the wallet has taken its nullifier down, or
//! when the chain has published it.
use vstd::prelude::*;

use crate::bytes::{
    bytes_equal, first_32, le_bytes, le_value, lemma_byte_range_8, lemma_le_bytes_len,
    lemma_le_value_of_bytes, slice_to_vec,
};
use crate::cli::sealed_for;
use crate::ecdh::x25519_public;
use crate::encryption::{decrypt_note, opens, EncryptedNote};
use crate::field::{law_compressed_round_trip, lemma_fr_equal, modulus, values, Fr};
use crate::keys::{x25519_secret_spec, KeySet};
use crate::note::{commitment_spec, plaintext_spec, Note};
use crate::nullifier::{compute_nullifier, nullifier_spec};
use crate::poseidon::{hash3_spec, hash4_spec};
use crate::tree::{capacity, IncrementalMerkleTree};
use crate::wallet::{
    owned_note, records, NoteRecord, StoredNote, Wallet, WalletError, WalletState,
};

verus! {

/// What a sync found.
#[derive(Clone, Copy, Debug, PartialEq, Eq, Structural)]
pub struct SyncResult {
    /// The notes that the wallet did not hold before.
    pub new_notes_found: usize,
    /// The notes whose nullifiers the chain has published and the wallet had not taken down.
    pub notes_marked_spent: usize,
}

/// Whether the holder of the secret reads the plaintext from a one-time public key and a ciphertext
/// that stand one after the other.
pub open spec fn reads(data: Seq<u8>, secret: Seq<u8>, plaintext: Seq<u8>) -> bool {
    data.len() >= 32 && opens(data.take(32), data.skip(32), secret, plaintext)
}

/// Whether there is at most one plaintext that the holder of the secret reads.
pub open spec fn reads_at_most_one(data: Seq<u8>, secret: Seq<u8>) -> bool {
    forall|p: Seq<u8>, q: Seq<u8>| #[trigger]
        reads(data, secret, p) && #[trigger] reads(data, secret, q) ==> p == q
}

/// The plaintext that the holder of the secret reads, where there is one.
pub open spec fn plaintext_of(data: Seq<u8>, secret: Seq<u8>) -> Option<Seq<u8>> {
    if exists|p: Seq<u8>| reads(data, secret, p) {
        Some(choose|p: Seq<u8>| reads(data, secret, p))
    } else {
        None
    }
}

/// The note of the wallet whose contents a plaintext holds.
pub open spec fn note_from(keys: KeySet, plaintext: Seq<u8>, note_index: nat) -> NoteRecord {
    owned_note(
        keys,
        le_value(plaintext.subrange(0, 32)) % modulus(),
        le_value(plaintext.subrange(32, 40)),
        le_value(plaintext.subrange(40, 72)) % modulus(),
        keys.public_key@,
        note_index,
    )
}

/// The note that an entry of the chain holds for the wallet: its place is one of the tree's `count`
/// leaves, and it opens to the contents of a note.
pub open spec fn discovered(keys: KeySet, count: nat, note_index: nat, data: Seq<u8>) -> Option<
    NoteRecord,
> {
    match plaintext_of(data, x25519_secret_spec(keys.spending_key@)) {
        Some(p) => if note_index < count && p.len() >= 72 {
            Some(note_from(keys, p, note_index))
        } else {
            None
        },
        None => None,
    }
}

/// Whether a list of notes has one with the given commitment.
pub open spec fn holds_commitment(notes: Seq<NoteRecord>, commitment: nat) -> bool {
    exists|i: int| 0 <= i < notes.len() && (#[trigger] notes[i]).commitment == commitment
}

/// What has been found so far.
#[verifier::ext_equal]
pub struct Progress {
    pub notes: Seq<NoteRecord>,
    pub spent_nullifiers: Seq<nat>,
    pub found: nat,
    pub marked: nat,
}

impl Progress {
    /// Takes a note of the wallet's in.
    pub open spec fn take_in(
        self,
        held: Seq<NoteRecord>,
        published: Seq<Seq<u8>>,
        note: NoteRecord,
    ) -> Progress {
        let known = self.spent_nullifiers.contains(note.nullifier);
        let seen = published.contains(le_bytes(note.nullifier, 32));
        Progress {
            notes: self.notes.push(NoteRecord { spent: known || seen, ..note }),
            spent_nullifiers: if seen && !known {
                self.spent_nullifiers.push(note.nullifier)
            } else {
                self.spent_nullifiers
            },
            found: if holds_commitment(held, note.commitment) {
                self.found
            } else {
                self.found + 1
            },
            marked: if seen && !known {
                self.marked + 1
            } else {
                self.marked
            },
        }
    }
}

/// What has been found after the first `k` entries.
pub open spec fn progress(
    before: WalletState,
    count: nat,
    entries: Seq<(nat, Seq<u8>)>,
    published: Seq<Seq<u8>>,
    k: nat,
) -> Progress
    decreases k,
{
    if k == 0 {
        Progress {
            notes: Seq::empty(),
            spent_nullifiers: before.spent_nullifiers,
            found: 0,
            marked: 0,
        }
    } else {
        let p = progress(before, count, entries, published, (k - 1) as nat);
        match discovered(before.keys, count, entries[k - 1].0, entries[k - 1].1) {
            Some(note) => p.take_in(before.notes, published, note),
            None => p,
        }
    }
}

/// The places and bytes of a list of encrypted notes.
pub open spec fn entry_views(entries: Seq<(u64, Vec<u8>)>) -> Seq<(nat, Seq<u8>)> {
    Seq::new(entries.len(), |i: int| (entries[i].0 as nat, entries[i].1@))
}

/// The bytes of a list of nullifiers.
pub open spec fn nullifier_views(nullifiers: Seq<[u8; 32]>) -> Seq<Seq<u8>> {
    Seq::new(nullifiers.len(), |i: int| nullifiers[i]@)
}

/// The commitments of a list of places and commitments, in order.
pub open spec fn commitment_values(commitments: Seq<(u64, Fr)>) -> Seq<nat> {
    Seq::new(commitments.len(), |i: int| commitments[i].1@)
}

/// The wallet after a sync.
pub open spec fn synced(
    before: WalletState,
    leaves: Seq<nat>,
    entries: Seq<(nat, Seq<u8>)>,
    published: Seq<Seq<u8>>,
) -> WalletState {
    let end = progress(before, leaves.len(), entries, published, entries.len());
    WalletState {
        keys: before.keys,
        notes: end.notes,
        leaves,
        spent_nullifiers: end.spent_nullifiers,
    }
}

/// Whether a list of elements has the given one.
fn contains_element(elements: &Vec<Fr>, x: Fr) -> (r: bool)
    ensures
        r == values(elements@).contains(x@),
{
    let mut i: usize = 0;
    while i < elements.len()
        invariant
            i <= elements@.len(),
            forall|k: int| 0 <= k < i ==> (#[trigger] elements@[k])@ != x@,
        decreases elements@.len() - i,
    {
        proof {
            lemma_fr_equal(elements@[i as int], x);
        }
        if elements[i] == x {
            assert(values(elements@)[i as int] == x@);
            return true;
        }
        i = i + 1;
    }
    assert(!values(elements@).contains(x@));
    false
}

/// Whether a list of nullifiers has the given bytes.
fn contains_bytes(nullifiers: &[[u8; 32]], bytes: &[u8]) -> (r: bool)
    ensures
        r == nullifier_views(nullifiers@).contains(bytes@),
{
    let mut i: usize = 0;
    while i < nullifiers.len()
        invariant
            i <= nullifiers@.len(),
            forall|k: int| 0 <= k < i ==> (#[trigger] nullifiers@[k])@ != bytes@,
        decreases nullifiers@.len() - i,
    {
        if bytes_equal(nullifiers[i].as_slice(), bytes) {
            assert(nullifier_views(nullifiers@)[i as int] == bytes@);
            return true;
        }
        i = i + 1;
    }
    assert(!nullifier_views(nullifiers@).contains(bytes@));
    false
}

impl Wallet {
    /// Whether the wallet has a note with the given commitment.
    fn has_commitment(&self, commitment: Fr) -> (r: bool)
        ensures
            r == holds_commitment(self@.notes, commitment@),
    {
        let mut i: usize = 0;
        while i < self.notes.len()
            invariant
                i <= self.notes@.len(),
                forall|k: int| 0 <= k < i ==> (#[trigger] self@.notes[k]).commitment != commitment@,
            decreases self.notes@.len() - i,
        {
            proof {
                lemma_fr_equal(self.notes@[i as int].commitment, commitment);
                assert(self@.notes[i as int] == self.notes@[i as int]@);
            }
            if self.notes[i].commitment == commitment {
                return true;
            }
            i = i + 1;
        }
        false
    }

    /// The note that an entry of the chain holds for the wallet.
    fn discover(&self, count: u64, note_index: u64, data: &Vec<u8>) -> (r: Option<StoredNote>)
        ensures
            discovered(self.keys, count as nat, note_index as nat, data@) == (match r {
                Some(note) => Some(note@),
                None => None,
            }),
            reads_at_most_one(data@, x25519_secret_spec(self.keys.spending_key@)),
    {
        let ghost secret = x25519_secret_spec(self.keys.spending_key@);
        if data.len() < 32 {
            return None;
        }
        let encrypted = EncryptedNote {
            ephemeral_pk: first_32(data.as_slice()),
            ciphertext: slice_to_vec(data.as_slice(), 32, data.len()),
        };
        assert(encrypted.ciphertext@ =~= data@.skip(32));
        let secret_bytes = self.keys.x25519_secret_bytes();
        match decrypt_note(&encrypted, &secret_bytes) {
            Ok(plaintext) => {
                proof {
                    assert(reads(data@, secret, plaintext@));
                    assert forall|p: Seq<u8>| #[trigger] reads(data@, secret, p) implies p
                        == plaintext@ by {
                        assert(encrypted.opens_to(secret, p));
                    }
                    assert(plaintext_of(data@, secret) == Some(plaintext@));
                }
                if note_index >= count {
                    return None;
                }
                match Note::from_plaintext(
                    plaintext.as_slice(),
                    self.keys.public_key,
                    note_index,
                ) {
                    Ok(note) => {
                        let commitment = note.commitment();
                        let nullifier = compute_nullifier(
                            self.keys.nullifier_key,
                            note_index,
                            commitment,
                        );
                        Some(StoredNote { note, commitment, nullifier, spent: false })
                    },
                    Err(_) => None,
                }
            },
            Err(_) => {
                proof {
                    assert forall|p: Seq<u8>| !(#[trigger] reads(data@, secret, p)) by {
                        if reads(data@, secret, p) {
                            assert(encrypted.opens_to(secret, p));
                        }
                    }
                }
                None
            },
        }
    }

    /// Rebuilds the tree and the notes from what the chain carries: all commitments in tree order,
    /// all encrypted notes with their places, and all published nullifiers.
    pub fn sync_from_indexed_data(
        &mut self,
        commitments: &[(u64, Fr)],
        encrypted_notes: &[(u64, Vec<u8>)],
        nullifiers: &[[u8; 32]],
    ) -> (r: Result<SyncResult, WalletError>)
        requires
            commitments@.len() <= capacity(),
        ensures
            final(self).tree.wf(),
            final(self)@ == synced(
                old(self)@,
                commitment_values(commitments@),
                entry_views(encrypted_notes@),
                nullifier_views(nullifiers@),
            ),
            r is Ok,
            ({
                let end = progress(
                    old(self)@,
                    commitments@.len(),
                    entry_views(encrypted_notes@),
                    nullifier_views(nullifiers@),
                    encrypted_notes@.len(),
                );
                r->Ok_0.new_notes_found == end.found && r->Ok_0.notes_marked_spent == end.marked
            }),
            forall|k: int|
                0 <= k < encrypted_notes@.len() ==> reads_at_most_one(
                    (#[trigger] encrypted_notes@[k]).1@,
                    x25519_secret_spec(old(self).keys.spending_key@),
                ),
    {
        let ghost before = self@;
        let ghost entries = entry_views(encrypted_notes@);
        let ghost published = nullifier_views(nullifiers@);
        let ghost leaves = commitment_values(commitments@);
        let mut tree = IncrementalMerkleTree::new();
        let mut i: usize = 0;
        while i < commitments.len()
            invariant
                i <= commitments@.len(),
                commitments@.len() <= capacity(),
                leaves == commitment_values(commitments@),
                tree.wf(),
                tree@ == leaves.take(i as int),
            decreases commitments@.len() - i,
        {
            let index: u64 = tree.append(commitments[i].1);
            assert(leaves.take(i + 1) =~= leaves.take(i as int).push(leaves[i as int]));
            i = i + 1;
        }
        assert(leaves.take(i as int) =~= leaves);
        let count: u64 = tree.len();

        let mut notes: Vec<StoredNote> = Vec::new();
        let mut spent_nullifiers = crate::tree::copy_elements(&self.spent_nullifiers);
        let mut new_notes_found: usize = 0;
        let mut notes_marked_spent: usize = 0;
        let mut i: usize = 0;
        assert(records(notes@) =~= Seq::<NoteRecord>::empty());
        while i < encrypted_notes.len()
            invariant
                i <= encrypted_notes@.len(),
                before == self@,
                count == leaves.len(),
                entries == entry_views(encrypted_notes@),
                published == nullifier_views(nullifiers@),
                new_notes_found <= i,
                notes_marked_spent <= i,
                (Progress {
                    notes: records(notes@),
                    spent_nullifiers: values(spent_nullifiers@),
                    found: new_notes_found as nat,
                    marked: notes_marked_spent as nat,
                }) == progress(before, count as nat, entries, published, i as nat),
                forall|k: int|
                    0 <= k < i ==> reads_at_most_one(
                        (#[trigger] encrypted_notes@[k]).1@,
                        x25519_secret_spec(before.keys.spending_key@),
                    ),
            decreases encrypted_notes@.len() - i,
        {
            let ghost now = progress(before, count as nat, entries, published, i as nat);
            assert(entries[i as int] == (
                encrypted_notes@[i as int].0 as nat,
                encrypted_notes@[i as int].1@,
            ));
            match self.discover(count, encrypted_notes[i].0, &encrypted_notes[i].1) {
                Some(found) => {
                    let mut stored = found;
                    let bytes = stored.nullifier.serialize_compressed();
                    let known = contains_element(&spent_nullifiers, stored.nullifier);
                    let seen = contains_bytes(nullifiers, bytes.as_slice());
                    if seen && !known {
                        let ghost nullifiers_before = spent_nullifiers@;
                        spent_nullifiers.push(stored.nullifier);
                        notes_marked_spent = notes_marked_spent + 1;
                        assert(values(spent_nullifiers@) =~= values(nullifiers_before).push(
                            stored.nullifier@,
                        ));
                    }
                    if !self.has_commitment(stored.commitment) {
                        new_notes_found = new_notes_found + 1;
                    }
                    stored.spent = known || seen;
                    let ghost notes_before = notes@;
                    notes.push(stored);
                    proof {
                        assert(records(notes@) =~= records(notes_before).push(stored@));
                        assert((Progress {
                            notes: records(notes@),
                            spent_nullifiers: values(spent_nullifiers@),
                            found: new_notes_found as nat,
                            marked: notes_marked_spent as nat,
                        }) =~= now.take_in(before.notes, published, found@));
                    }
                },
                None => {},
            }
            i = i + 1;
        }
        self.notes = notes;
        self.tree = tree;
        self.spent_nullifiers = spent_nullifiers;
        assert(self@ =~= synced(before, leaves, entries, published));
        Ok(SyncResult { new_notes_found, notes_marked_spent })
    }
}

/// A sync forgets no nullifier: those that were taken down stay where they were.
pub proof fn law_sync_keeps_nullifiers(
    before: WalletState,
    count: nat,
    entries: Seq<(nat, Seq<u8>)>,
    published: Seq<Seq<u8>>,
    k: nat,
)
    ensures
        before.spent_nullifiers.len() <= progress(
            before,
            count,
            entries,
            published,
            k,
        ).spent_nullifiers.len(),
        forall|i: int|
            0 <= i < before.spent_nullifiers.len() ==> #[trigger] progress(
                before,
                count,
                entries,
                published,
                k,
            ).spent_nullifiers[i] == before.spent_nullifiers[i],
    decreases k,
{
    if k > 0 {
        law_sync_keeps_nullifiers(before, count, entries, published, (k - 1) as nat);
    }
}

/// After a sync every note lies within the tree, and is spent exactly when its nullifier was taken
/// down before or is published. So a sync never makes a spent note spendable again, and marks every
/// note that the chain shows as spent.
pub proof fn law_sync_marks_spent(
    before: WalletState,
    count: nat,
    entries: Seq<(nat, Seq<u8>)>,
    published: Seq<Seq<u8>>,
    k: nat,
    i: int,
)
    requires
        0 <= i < progress(before, count, entries, published, k).notes.len(),
    ensures
        ({
            let note = progress(before, count, entries, published, k).notes[i];
            &&& note.note_index < count
            &&& note.spent <==> before.spent_nullifiers.contains(note.nullifier)
                || published.contains(le_bytes(note.nullifier, 32))
        }),
    decreases k,
{
    let p = progress(before, count, entries, published, k);
    if k > 0 {
        let q = progress(before, count, entries, published, (k - 1) as nat);
        if i < q.notes.len() {
            law_sync_marks_spent(before, count, entries, published, (k - 1) as nat, i);
        } else {
            lemma_taken_down(
                before,
                count,
                entries,
                published,
                (k - 1) as nat,
                p.notes[i].nullifier,
            );
        }
    }
}

/// A nullifier that a sync takes down was taken down before or is published; one that was taken down
/// before stays.
proof fn lemma_taken_down(
    before: WalletState,
    count: nat,
    entries: Seq<(nat, Seq<u8>)>,
    published: Seq<Seq<u8>>,
    k: nat,
    nullifier: nat,
)
    ensures
        ({
            let p = progress(before, count, entries, published, k);
            &&& p.spent_nullifiers.contains(nullifier)
                ==> before.spent_nullifiers.contains(nullifier) || published.contains(
                le_bytes(nullifier, 32),
            )
            &&& before.spent_nullifiers.contains(nullifier) ==> p.spent_nullifiers.contains(
                nullifier,
            )
        }),
    decreases k,
{
    if k > 0 {
        let q = progress(before, count, entries, published, (k - 1) as nat);
        let p = progress(before, count, entries, published, k);
        lemma_taken_down(before, count, entries, published, (k - 1) as nat, nullifier);
        if p.spent_nullifiers.contains(nullifier) && !q.spent_nullifiers.contains(nullifier) {
            let i = choose|i: int|
                0 <= i < p.spent_nullifiers.len() && p.spent_nullifiers[i] == nullifier;
            if i < q.spent_nullifiers.len() {
                assert(q.spent_nullifiers[i] == nullifier);
            }
        }
        if q.spent_nullifiers.contains(nullifier) {
            let i = choose|i: int|
                0 <= i < q.spent_nullifiers.len() && q.spent_nullifiers[i] == nullifier;
            assert(p.spent_nullifiers[i] == nullifier);
        }
    }
}

/// A note encrypted for the wallet's x25519 key is found: an entry that opens, and to one plaintext
/// only, to the contents of a note gives that note, with the wallet as its owner.
pub proof fn law_receiver_discovers(
    keys: KeySet,
    count: nat,
    note_index: nat,
    data: Seq<u8>,
    rune_id: nat,
    amount: nat,
    blinding: nat,
)
    requires
        note_index < count,
        rune_id < modulus(),
        amount <= u64::MAX,
        blinding < modulus(),
        reads(
            data,
            x25519_secret_spec(keys.spending_key@),
            plaintext_spec(rune_id, amount, blinding),
        ),
        reads_at_most_one(data, x25519_secret_spec(keys.spending_key@)),
    ensures
        discovered(keys, count, note_index, data) == Some(
            owned_note(keys, rune_id, amount, blinding, keys.public_key@, note_index),
        ),
{
    let bytes = plaintext_spec(rune_id, amount, blinding);
    let secret = x25519_secret_spec(keys.spending_key@);
    assert(plaintext_of(data, secret) == Some(bytes));
    lemma_le_bytes_len(rune_id, 32);
    lemma_le_bytes_len(amount, 8);
    lemma_le_bytes_len(blinding, 32);
    assert(bytes.subrange(0, 32) =~= le_bytes(rune_id, 32));
    assert(bytes.subrange(32, 40) =~= le_bytes(amount, 8));
    assert(bytes.subrange(40, 72) =~= le_bytes(blinding, 32));
    law_compressed_round_trip(rune_id, Seq::empty());
    law_compressed_round_trip(blinding, Seq::empty());
    lemma_byte_range_8();
    lemma_le_value_of_bytes(amount, 8);
}

/// The note of a transfer reaches its receiver: the bytes that were sealed for the wallet's x25519
/// key, if they open to one plaintext only, give the note, with the wallet as its owner.
pub proof fn law_sealed_note_is_discovered(
    keys: KeySet,
    count: nat,
    note_index: nat,
    note: Note,
    blob: Seq<u8>,
    ephemeral: Seq<u8>,
)
    requires
        note_index < count,
        note.rune_id@ < modulus(),
        note.blinding@ < modulus(),
        x25519_secret_spec(keys.spending_key@).len() == 32,
        sealed_for(
            blob,
            note,
            x25519_public(x25519_secret_spec(keys.spending_key@)),
            ephemeral,
        ),
        reads_at_most_one(blob, x25519_secret_spec(keys.spending_key@)),
    ensures
        discovered(keys, count, note_index, blob) == Some(
            owned_note(
                keys,
                note.rune_id@,
                note.amount as nat,
                note.blinding@,
                keys.public_key@,
                note_index,
            ),
        ),
{
    law_receiver_discovers(
        keys,
        count,
        note_index,
        blob,
        note.rune_id@,
        note.amount as nat,
        note.blinding@,
    );
}

/// A note that a sync found is spendable where the chain committed to it: where the leaf at its place
/// is its commitment, the note is the wallet's and in the tree.
pub proof fn law_synced_note_is_anchored(
    before: WalletState,
    leaves: Seq<nat>,
    entries: Seq<(nat, Seq<u8>)>,
    published: Seq<Seq<u8>>,
    i: int,
)
    requires
        ({
            let after = synced(before, leaves, entries, published);
            &&& 0 <= i < after.notes.len()
            &&& leaves[after.notes[i].note_index as int] == after.notes[i].commitment
        }),
    ensures
        synced(before, leaves, entries, published).note_anchored(i),
{
    lemma_found_note(before, leaves.len(), entries, published, entries.len(), i);
}

/// Every note that a sync found has the commitment and the nullifier of its contents, and lies within
/// the tree.
proof fn lemma_found_note(
    before: WalletState,
    count: nat,
    entries: Seq<(nat, Seq<u8>)>,
    published: Seq<Seq<u8>>,
    k: nat,
    i: int,
)
    requires
        0 <= i < progress(before, count, entries, published, k).notes.len(),
    ensures
        ({
            let n = progress(before, count, entries, published, k).notes[i];
            &&& n.note_index < count
            &&& n.owner_pk == before.keys.public_key@
            &&& n.commitment == commitment_spec(n.rune_id, n.amount, n.blinding, n.owner_pk)
            &&& n.nullifier == nullifier_spec(
                before.keys.nullifier_key@,
                n.note_index,
                n.commitment,
            )
        }),
    decreases k,
{
    if k > 0 {
        if i < progress(before, count, entries, published, (k - 1) as nat).notes.len() {
            lemma_found_note(before, count, entries, published, (k - 1) as nat, i);
        }
    }
}

/// Whether an entry of the chain is a note of the holder of the keys: its place is one of the tree's
/// `count` leaves, and the holder's secret opens it to at least the 72 bytes of a note.
pub open spec fn is_own_entry(keys: KeySet, count: nat, entry: (nat, Seq<u8>)) -> bool {
    entry.0 < count && exists|p: Seq<u8>| #[trigger]
        reads(entry.1, x25519_secret_spec(keys.spending_key@), p) && p.len() >= 72
}

/// How many of the first `k` entries are the holder's.
pub open spec fn own_entries(keys: KeySet, count: nat, entries: Seq<(nat, Seq<u8>)>, k: nat) -> nat
    decreases k,
{
    if k == 0 {
        0
    } else {
        own_entries(keys, count, entries, (k - 1) as nat) + (if is_own_entry(
            keys,
            count,
            entries[k - 1],
        ) {
            1nat
        } else {
            0
        })
    }
}

/// A plaintext that is read from an entry is a note of the wallet with those contents: the first 32
/// bytes are the Rune, the next 8 the amount, the next 32 the blinding, and the wallet is the owner.
pub proof fn law_entry_is_read(
    keys: KeySet,
    count: nat,
    note_index: nat,
    data: Seq<u8>,
    plaintext: Seq<u8>,
)
    requires
        reads(data, x25519_secret_spec(keys.spending_key@), plaintext),
        reads_at_most_one(data, x25519_secret_spec(keys.spending_key@)),
    ensures
        discovered(keys, count, note_index, data) is Some <==> note_index < count
            && plaintext.len() >= 72,
        discovered(keys, count, note_index, data) matches Some(n) ==> {
            let commitment = hash4_spec(n.rune_id, n.amount, n.blinding, n.owner_pk);
            &&& n.rune_id == le_value(plaintext.subrange(0, 32)) % modulus()
            &&& n.amount == le_value(plaintext.subrange(32, 40))
            &&& n.blinding == le_value(plaintext.subrange(40, 72)) % modulus()
            &&& n.owner_pk == keys.public_key@
            &&& n.note_index == note_index
            &&& n.commitment == commitment
            &&& n.nullifier == hash3_spec(keys.nullifier_key@, note_index, commitment)
            &&& !n.spent
        },
{
    let secret = x25519_secret_spec(keys.spending_key@);
    assert(plaintext_of(data, secret) == Some(plaintext));
}

/// An entry that the holder's secret does not open is not the holder's.
pub proof fn law_closed_entry_is_passed_over(
    keys: KeySet,
    count: nat,
    note_index: nat,
    data: Seq<u8>,
)
    requires
        forall|p: Seq<u8>|
            !(data.len() >= 32 && #[trigger] opens(
                data.take(32),
                data.skip(32),
                x25519_secret_spec(keys.spending_key@),
                p,
            )),
    ensures
        discovered(keys, count, note_index, data) is None,
{
    let secret = x25519_secret_spec(keys.spending_key@);
    assert forall|p: Seq<u8>| !(#[trigger] reads(data, secret, p)) by {
        if reads(data, secret, p) {
            assert(opens(data.take(32), data.skip(32), secret, p));
        }
    }
}

/// A sync finds every note: an entry whose place is in the tree and which the wallet's secret opens
/// to the contents of a note gives a note with that place and those contents, whatever other entries
/// hold. The notes are in the order of the entries, and there are as many as there are such entries.
pub proof fn law_sync_finds_every_note(
    before: WalletState,
    leaves: Seq<nat>,
    entries: Seq<(nat, Seq<u8>)>,
    published: Seq<Seq<u8>>,
    k: int,
    plaintext: Seq<u8>,
)
    requires
        0 <= k < entries.len(),
        entries[k].0 < leaves.len(),
        entries[k].1.len() >= 32,
        opens(
            entries[k].1.take(32),
            entries[k].1.skip(32),
            x25519_secret_spec(before.keys.spending_key@),
            plaintext,
        ),
        plaintext.len() >= 72,
        forall|j: int|
            0 <= j < entries.len() ==> reads_at_most_one(
                (#[trigger] entries[j]).1,
                x25519_secret_spec(before.keys.spending_key@),
            ),
    ensures
        ({
            let after = synced(before, leaves, entries, published);
            let at = own_entries(before.keys, leaves.len(), entries, k as nat);
            let n = after.notes[at as int];
            &&& at < after.notes.len()
            &&& n.note_index == entries[k].0
            &&& n.rune_id == le_value(plaintext.subrange(0, 32)) % modulus()
            &&& n.amount == le_value(plaintext.subrange(32, 40))
            &&& n.blinding == le_value(plaintext.subrange(40, 72)) % modulus()
            &&& n.owner_pk == before.keys.public_key@
            &&& n.commitment == hash4_spec(n.rune_id, n.amount, n.blinding, n.owner_pk)
            &&& n.nullifier == hash3_spec(
                before.keys.nullifier_key@,
                n.note_index,
                n.commitment,
            )
        }),
{
    let count = leaves.len();
    let at = own_entries(before.keys, count, entries, k as nat);
    assert(reads(entries[k].1, x25519_secret_spec(before.keys.spending_key@), plaintext));
    lemma_sync_count(before, count, entries, published, k as nat);
    law_entry_is_read(before.keys, count, entries[k].0, entries[k].1, plaintext);
    let p = progress(before, count, entries, published, k as nat);
    let q = progress(before, count, entries, published, (k + 1) as nat);
    assert(q.notes.len() == at + 1);
    lemma_sync_notes_stay(
        before,
        count,
        entries,
        published,
        (k + 1) as nat,
        entries.len(),
    );
}

proof fn lemma_sync_notes_stay(
    before: WalletState,
    count: nat,
    entries: Seq<(nat, Seq<u8>)>,
    published: Seq<Seq<u8>>,
    a: nat,
    b: nat,
)
    requires
        a <= b,
    ensures
        ({
            let p = progress(before, count, entries, published, a).notes;
            let q = progress(before, count, entries, published, b).notes;
            &&& p.len() <= q.len()
            &&& forall|i: int| 0 <= i < p.len() ==> #[trigger] q[i] == p[i]
        }),
    decreases b,
{
    if a < b {
        lemma_sync_notes_stay(before, count, entries, published, a, (b - 1) as nat);
    }
}

proof fn lemma_discovered_is_own(keys: KeySet, count: nat, entry: (nat, Seq<u8>))
    requires
        reads_at_most_one(entry.1, x25519_secret_spec(keys.spending_key@)),
    ensures
        discovered(keys, count, entry.0, entry.1) is Some <==> is_own_entry(keys, count, entry),
{
    let secret = x25519_secret_spec(keys.spending_key@);
    if exists|p: Seq<u8>| reads(entry.1, secret, p) {
        let p = choose|p: Seq<u8>| reads(entry.1, secret, p);
        law_entry_is_read(keys, count, entry.0, entry.1, p);
        if is_own_entry(keys, count, entry) {
            let q = choose|q: Seq<u8>| #[trigger] reads(entry.1, secret, q) && q.len() >= 72;
            assert(p == q);
        }
    }
}

proof fn lemma_sync_count(
    before: WalletState,
    count: nat,
    entries: Seq<(nat, Seq<u8>)>,
    published: Seq<Seq<u8>>,
    k: nat,
)
    requires
        k <= entries.len(),
        forall|j: int|
            0 <= j < entries.len() ==> reads_at_most_one(
                (#[trigger] entries[j]).1,
                x25519_secret_spec(before.keys.spending_key@),
            ),
    ensures
        progress(before, count, entries, published, k).notes.len() == own_entries(
            before.keys,
            count,
            entries,
            k,
        ),
    decreases k,
{
    if k > 0 {
        lemma_sync_count(before, count, entries, published, (k - 1) as nat);
        assert(reads_at_most_one(
            entries[k - 1].1,
            x25519_secret_spec(before.keys.spending_key@),
        ));
        lemma_discovered_is_own(before.keys, count, entries[k - 1]);
    }
}

/// After a sync the wallet has as many notes as entries of the chain are its own, its tree has the
/// leaves of the chain, and its keys are the same. What it held before does not matter.
pub proof fn law_sync_counts_notes(
    before: WalletState,
    leaves: Seq<nat>,
    entries: Seq<(nat, Seq<u8>)>,
    published: Seq<Seq<u8>>,
)
    requires
        forall|j: int|
            0 <= j < entries.len() ==> reads_at_most_one(
                (#[trigger] entries[j]).1,
                x25519_secret_spec(before.keys.spending_key@),
            ),
    ensures
        ({
            let after = synced(before, leaves, entries, published);
            &&& after.notes.len() == own_entries(
                before.keys,
                leaves.len(),
                entries,
                entries.len(),
            )
            &&& after.leaves == leaves
            &&& after.keys == before.keys
        }),
{
    lemma_sync_count(before, leaves.len(), entries, published, entries.len());
}

/// One more entry of the wallet's own is one more note; an entry of somebody else's changes nothing.
pub proof fn law_sync_entry_by_entry(
    before: WalletState,
    count: nat,
    entries: Seq<(nat, Seq<u8>)>,
    published: Seq<Seq<u8>>,
    k: nat,
)
    requires
        k < entries.len(),
        reads_at_most_one(
            entries[k as int].1,
            x25519_secret_spec(before.keys.spending_key@),
        ),
    ensures
        ({
            let p = progress(before, count, entries, published, k);
            let q = progress(before, count, entries, published, k + 1);
            let last = q.notes[p.notes.len() as int];
            if is_own_entry(before.keys, count, entries[k as int]) {
                let fresh = !p.spent_nullifiers.contains(last.nullifier) && published.contains(
                    le_bytes(last.nullifier, 32),
                );
                &&& q.notes.len() == p.notes.len() + 1
                &&& forall|i: int| 0 <= i < p.notes.len() ==> #[trigger] q.notes[i] == p.notes[i]
                &&& last.note_index == entries[k as int].0
                &&& last.spent <==> p.spent_nullifiers.contains(last.nullifier)
                    || published.contains(le_bytes(last.nullifier, 32))
                &&& q.spent_nullifiers == (if fresh {
                    p.spent_nullifiers.push(last.nullifier)
                } else {
                    p.spent_nullifiers
                })
                &&& q.marked == p.marked + (if fresh {
                    1nat
                } else {
                    0
                })
                &&& q.found == p.found + (if exists|i: int|
                    0 <= i < before.notes.len() && (#[trigger] before.notes[i]).commitment
                        == last.commitment {
                    0nat
                } else {
                    1
                })
            } else {
                q == p
            }
        }),
{
    lemma_discovered_is_own(before.keys, count, entries[k as int]);
}

/// A sync starts without notes and without counts, from the nullifiers that were taken down.
pub proof fn law_sync_starts_empty(
    before: WalletState,
    count: nat,
    entries: Seq<(nat, Seq<u8>)>,
    published: Seq<Seq<u8>>,
)
    ensures
        progress(before, count, entries, published, 0).notes.len() == 0,
        progress(before, count, entries, published, 0).found == 0,
        progress(before, count, entries, published, 0).marked == 0,
        progress(before, count, entries, published, 0).spent_nullifiers == before.spent_nullifiers,
        synced(before, Seq::new(count, |i: int| 0nat), entries, published).notes == progress(
            before,
            count,
            entries,
            published,
            entries.len(),
        ).notes,
        synced(before, Seq::new(count, |i: int| 0nat), entries, published).spent_nullifiers
            == progress(before, count, entries, published, entries.len()).spent_nullifiers,
{
}

/// The notes of a sync are of the chain: each has the place of an entry that is the wallet's own.
pub proof fn law_sync_invents_no_note(
    before: WalletState,
    leaves: Seq<nat>,
    entries: Seq<(nat, Seq<u8>)>,
    published: Seq<Seq<u8>>,
    i: int,
)
    requires
        0 <= i < synced(before, leaves, entries, published).notes.len(),
        forall|j: int|
            0 <= j < entries.len() ==> reads_at_most_one(
                (#[trigger] entries[j]).1,
                x25519_secret_spec(before.keys.spending_key@),
            ),
    ensures
        exists|k: int|
            {
                &&& 0 <= k < entries.len()
                &&& #[trigger] is_own_entry(before.keys, leaves.len(), entries[k])
                &&& entries[k].0 == synced(before, leaves, entries, published).notes[i].note_index
            },
{
    lemma_note_has_entry(before, leaves.len(), entries, published, entries.len(), i);
}

proof fn lemma_note_has_entry(
    before: WalletState,
    count: nat,
    entries: Seq<(nat, Seq<u8>)>,
    published: Seq<Seq<u8>>,
    k: nat,
    i: int,
)
    requires
        k <= entries.len(),
        0 <= i < progress(before, count, entries, published, k).notes.len(),
        forall|j: int|
            0 <= j < entries.len() ==> reads_at_most_one(
                (#[trigger] entries[j]).1,
                x25519_secret_spec(before.keys.spending_key@),
            ),
    ensures
        exists|j: int|
            {
                &&& 0 <= j < k
                &&& #[trigger] is_own_entry(before.keys, count, entries[j])
                &&& entries[j].0 == progress(before, count, entries, published, k).notes[i].note_index
            },
    decreases k,
{
    if k > 0 {
        let before_last = progress(before, count, entries, published, (k - 1) as nat);
        assert(reads_at_most_one(
            entries[k - 1].1,
            x25519_secret_spec(before.keys.spending_key@),
        ));
        lemma_discovered_is_own(before.keys, count, entries[k - 1]);
        if i < before_last.notes.len() {
            lemma_note_has_entry(before, count, entries, published, (k - 1) as nat, i);
            let j = choose|j: int|
                {
                    &&& 0 <= j < k - 1
                    &&& #[trigger] is_own_entry(before.keys, count, entries[j])
                    &&& entries[j].0 == before_last.notes[i].note_index
                };
            assert(is_own_entry(before.keys, count, entries[j]));
        } else {
            assert(is_own_entry(before.keys, count, entries[k - 1]));
        }
    }
}

/// What is read from the arguments of a sync is what they hold: every place with its bytes, every
/// nullifier, every commitment, in order.
pub proof fn law_sync_arguments(
    commitments: Seq<(u64, Fr)>,
    entries: Seq<(u64, Vec<u8>)>,
    nullifiers: Seq<[u8; 32]>,
)
    ensures
        commitment_values(commitments).len() == commitments.len(),
        forall|i: int|
            0 <= i < commitments.len() ==> #[trigger] commitment_values(commitments)[i]
                == commitments[i].1@,
        entry_views(entries).len() == entries.len(),
        forall|i: int|
            0 <= i < entries.len() ==> (#[trigger] entry_views(entries)[i]).0 == entries[i].0
                && entry_views(entries)[i].1 == entries[i].1@,
        nullifier_views(nullifiers).len() == nullifiers.len(),
        forall|i: int|
            0 <= i < nullifiers.len() ==> #[trigger] nullifier_views(nullifiers)[i]
                == nullifiers[i]@,
{
}

} // verus!
