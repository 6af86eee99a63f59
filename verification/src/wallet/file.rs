//! What a wallet writes to its file and reads from it.
//!
//! Field elements are written as the hexadecimal digits of their compressed form. Reading a file
//! fails at the first text that is not one.
use vstd::prelude::*;

use crate::field::{modulus, values, Fr};
use crate::keys::KeySet;
use crate::note::Note;
use crate::text::{
    element_error, element_text, element_value, fr_from_hex, fr_to_hex,
    law_element_text_round_trip, ElementError,
};
use crate::tree::{capacity, IncrementalMerkleTree};
use crate::wallet::{records, NoteRecord, StoredNote, Wallet, WalletState};

verus! {

/// A wallet file.
#[derive(Clone, Debug)]
pub struct WalletFile {
    pub version: u32,
    pub spending_key: String,
    pub notes: Vec<StoredNoteJson>,
    pub tree_leaves: Vec<String>,
    pub spent_nullifiers: Vec<String>,
}

/// A note in a wallet file.
#[derive(Clone, Debug)]
pub struct StoredNoteJson {
    pub rune_id: String,
    pub amount: u64,
    pub blinding: String,
    pub owner_pk: String,
    pub note_index: u64,
    pub commitment: String,
    pub nullifier: String,
    pub spent: bool,
}

/// What a note in a wallet file says.
#[verifier::ext_equal]
pub struct NoteText {
    pub rune_id: Seq<char>,
    pub amount: nat,
    pub blinding: Seq<char>,
    pub owner_pk: Seq<char>,
    pub note_index: nat,
    pub commitment: Seq<char>,
    pub nullifier: Seq<char>,
    pub spent: bool,
}

impl View for StoredNoteJson {
    type V = NoteText;

    open spec fn view(&self) -> NoteText {
        NoteText {
            rune_id: self.rune_id@,
            amount: self.amount as nat,
            blinding: self.blinding@,
            owner_pk: self.owner_pk@,
            note_index: self.note_index as nat,
            commitment: self.commitment@,
            nullifier: self.nullifier@,
            spent: self.spent,
        }
    }
}

impl NoteText {
    /// The texts of the note, in the order in which they are read.
    pub open spec fn texts(self) -> Seq<Seq<char>> {
        seq![self.rune_id, self.blinding, self.owner_pk, self.commitment, self.nullifier]
    }

    /// The note that the texts stand for.
    pub open spec fn record(self) -> NoteRecord {
        NoteRecord {
            rune_id: element_value(self.rune_id),
            amount: self.amount,
            blinding: element_value(self.blinding),
            owner_pk: element_value(self.owner_pk),
            note_index: self.note_index,
            commitment: element_value(self.commitment),
            nullifier: element_value(self.nullifier),
            spent: self.spent,
        }
    }
}

/// What a wallet file says.
#[verifier::ext_equal]
pub struct FileContents {
    pub version: nat,
    pub spending_key: Seq<char>,
    pub notes: Seq<NoteText>,
    pub tree_leaves: Seq<Seq<char>>,
    pub spent_nullifiers: Seq<Seq<char>>,
}

/// The contents of a list of strings.
pub open spec fn texts(strings: Seq<String>) -> Seq<Seq<char>> {
    Seq::new(strings.len(), |i: int| strings[i]@)
}

/// What a list of notes in a wallet file says.
pub open spec fn note_views(notes: Seq<StoredNoteJson>) -> Seq<NoteText> {
    Seq::new(notes.len(), |i: int| notes[i]@)
}

impl View for WalletFile {
    type V = FileContents;

    open spec fn view(&self) -> FileContents {
        FileContents {
            version: self.version as nat,
            spending_key: self.spending_key@,
            notes: note_views(self.notes@),
            tree_leaves: texts(self.tree_leaves@),
            spent_nullifiers: texts(self.spent_nullifiers@),
        }
    }
}

/// The texts of a list of notes.
pub open spec fn note_texts(notes: Seq<NoteText>) -> Seq<Seq<char>>
    decreases notes.len(),
{
    if notes.len() == 0 {
        Seq::empty()
    } else {
        note_texts(notes.drop_last()) + notes.last().texts()
    }
}

/// What is wrong with the first text, from the front, that is not an element.
pub open spec fn first_error(all: Seq<Seq<char>>) -> Option<ElementError>
    decreases all.len(),
{
    if all.len() == 0 {
        None
    } else {
        match first_error(all.drop_last()) {
            Some(e) => Some(e),
            None => element_error(all.last()),
        }
    }
}

/// The elements that a list of texts stands for.
pub open spec fn element_values(all: Seq<Seq<char>>) -> Seq<nat> {
    Seq::new(all.len(), |i: int| element_value(all[i]))
}

impl FileContents {
    /// All texts of the file, in the order in which they are read.
    pub open spec fn texts(self) -> Seq<Seq<char>> {
        seq![self.spending_key] + self.tree_leaves + note_texts(self.notes) + self.spent_nullifiers
    }

    /// The wallet with the given keys that the file describes.
    pub open spec fn wallet(self, keys: KeySet) -> WalletState {
        WalletState {
            keys,
            notes: Seq::new(self.notes.len(), |i: int| self.notes[i].record()),
            leaves: element_values(self.tree_leaves),
            spent_nullifiers: element_values(self.spent_nullifiers),
        }
    }
}

/// The texts of a list of elements.
pub open spec fn element_texts(elements: Seq<nat>) -> Seq<Seq<char>> {
    Seq::new(elements.len(), |i: int| element_text(elements[i]))
}

/// The texts of a note.
pub open spec fn note_text(n: NoteRecord) -> NoteText {
    NoteText {
        rune_id: element_text(n.rune_id),
        amount: n.amount,
        blinding: element_text(n.blinding),
        owner_pk: element_text(n.owner_pk),
        note_index: n.note_index,
        commitment: element_text(n.commitment),
        nullifier: element_text(n.nullifier),
        spent: n.spent,
    }
}

/// The file of a wallet. All leaves of the tree are kept, so that it can be rebuilt.
pub open spec fn saved_file(w: WalletState) -> FileContents {
    FileContents {
        version: 1,
        spending_key: element_text(w.keys.spending_key@),
        notes: Seq::new(w.notes.len(), |i: int| note_text(w.notes[i])),
        tree_leaves: element_texts(w.leaves),
        spent_nullifiers: element_texts(w.spent_nullifiers),
    }
}

proof fn lemma_first_error_concat(a: Seq<Seq<char>>, b: Seq<Seq<char>>)
    ensures
        first_error(a + b) == (match first_error(a) {
            Some(e) => Some(e),
            None => first_error(b),
        }),
    decreases b.len(),
{
    if b.len() == 0 {
        assert(a + b =~= a);
    } else {
        lemma_first_error_concat(a, b.drop_last());
        assert((a + b).drop_last() =~= a + b.drop_last());
    }
}

/// Reads a list of elements.
fn decode_all(strings: &Vec<String>) -> (r: Result<Vec<Fr>, ElementError>)
    ensures
        match r {
            Ok(elements) => first_error(texts(strings@)) is None && values(elements@)
                == element_values(texts(strings@)),
            Err(e) => first_error(texts(strings@)) == Some(e),
        },
{
    let ghost all = texts(strings@);
    let mut elements: Vec<Fr> = Vec::new();
    let mut i: usize = 0;
    while i < strings.len()
        invariant
            i <= strings@.len(),
            all == texts(strings@),
            elements@.len() == i,
            first_error(all.take(i as int)) is None,
            forall|k: int| 0 <= k < i ==> (#[trigger] elements@[k])@ == element_value(all[k]),
        decreases strings@.len() - i,
    {
        proof {
            assert(all.take(i + 1).drop_last() =~= all.take(i as int));
            assert(all.take(i + 1).last() == strings@[i as int]@);
        }
        match fr_from_hex(strings[i].as_str()) {
            Ok(f) => {
                elements.push(f);
            },
            Err(e) => {
                proof {
                    lemma_first_error_concat(all.take(i + 1), all.skip(i + 1));
                    assert(all.take(i + 1) + all.skip(i + 1) =~= all);
                }
                return Err(e);
            },
        }
        i = i + 1;
    }
    proof {
        assert(all.take(i as int) =~= all);
        assert(values(elements@) =~= element_values(all));
    }
    Ok(elements)
}

/// Writes a list of elements.
fn encode_all(elements: &Vec<Fr>) -> (strings: Vec<String>)
    ensures
        texts(strings@) == element_texts(values(elements@)),
{
    let mut strings: Vec<String> = Vec::new();
    let mut i: usize = 0;
    while i < elements.len()
        invariant
            i <= elements@.len(),
            strings@.len() == i,
            forall|k: int| 0 <= k < i ==> (#[trigger] strings@[k])@ == element_text(elements@[k]@),
        decreases elements@.len() - i,
    {
        strings.push(fr_to_hex(elements[i]));
        i = i + 1;
    }
    assert(texts(strings@) =~= element_texts(values(elements@)));
    strings
}

impl StoredNoteJson {
    /// Reads a note.
    fn decode(&self) -> (r: Result<StoredNote, ElementError>)
        ensures
            match r {
                Ok(note) => first_error(self@.texts()) is None && note@ == self@.record(),
                Err(e) => first_error(self@.texts()) == Some(e),
            },
    {
        proof {
            let all = self@.texts();
            assert(all.drop_last() =~= all.take(4));
            assert(all.take(4).drop_last() =~= all.take(3));
            assert(all.take(3).drop_last() =~= all.take(2));
            assert(all.take(2).drop_last() =~= all.take(1));
            assert(all.take(1).drop_last() =~= all.take(0));
            reveal_with_fuel(first_error, 6);
        }
        let rune_id = match fr_from_hex(self.rune_id.as_str()) {
            Ok(f) => f,
            Err(e) => {
                return Err(e);
            },
        };
        let blinding = match fr_from_hex(self.blinding.as_str()) {
            Ok(f) => f,
            Err(e) => {
                return Err(e);
            },
        };
        let owner_pk = match fr_from_hex(self.owner_pk.as_str()) {
            Ok(f) => f,
            Err(e) => {
                return Err(e);
            },
        };
        let commitment = match fr_from_hex(self.commitment.as_str()) {
            Ok(f) => f,
            Err(e) => {
                return Err(e);
            },
        };
        let nullifier = match fr_from_hex(self.nullifier.as_str()) {
            Ok(f) => f,
            Err(e) => {
                return Err(e);
            },
        };
        Ok(
            StoredNote {
                note: Note {
                    rune_id,
                    amount: self.amount,
                    blinding,
                    owner_pk,
                    note_index: self.note_index,
                },
                commitment,
                nullifier,
                spent: self.spent,
            },
        )
    }

    /// Writes a note.
    fn encode(stored: &StoredNote) -> (json: StoredNoteJson)
        ensures
            json@ == note_text(stored@),
    {
        StoredNoteJson {
            rune_id: fr_to_hex(stored.note.rune_id),
            amount: stored.note.amount,
            blinding: fr_to_hex(stored.note.blinding),
            owner_pk: fr_to_hex(stored.note.owner_pk),
            note_index: stored.note.note_index,
            commitment: fr_to_hex(stored.commitment),
            nullifier: fr_to_hex(stored.nullifier),
            spent: stored.spent,
        }
    }
}

/// Reads a list of notes.
fn decode_notes(notes: &Vec<StoredNoteJson>) -> (r: Result<Vec<StoredNote>, ElementError>)
    ensures
        match r {
            Ok(stored) => {
                &&& first_error(note_texts(note_views(notes@))) is None
                &&& records(stored@) == Seq::new(
                    notes@.len(),
                    |i: int| note_views(notes@)[i].record(),
                )
            },
            Err(e) => first_error(note_texts(note_views(notes@))) == Some(e),
        },
{
    let ghost all = note_views(notes@);
    let mut stored: Vec<StoredNote> = Vec::new();
    let mut i: usize = 0;
    while i < notes.len()
        invariant
            i <= notes@.len(),
            all == note_views(notes@),
            stored@.len() == i,
            first_error(note_texts(all.take(i as int))) is None,
            forall|k: int| 0 <= k < i ==> (#[trigger] stored@[k])@ == all[k].record(),
        decreases notes@.len() - i,
    {
        proof {
            assert(all.take(i + 1).drop_last() =~= all.take(i as int));
            assert(all.take(i + 1).last() == notes@[i as int]@);
            lemma_first_error_concat(note_texts(all.take(i as int)), all[i as int].texts());
        }
        match notes[i].decode() {
            Ok(note) => {
                stored.push(note);
            },
            Err(e) => {
                proof {
                    lemma_note_texts_split(all, i + 1);
                    lemma_first_error_concat(
                        note_texts(all.take(i + 1)),
                        note_texts(all.skip(i + 1)),
                    );
                }
                return Err(e);
            },
        }
        i = i + 1;
    }
    proof {
        assert(all.take(i as int) =~= all);
        assert(records(stored@) =~= Seq::new(all.len(), |k: int| all[k].record()));
    }
    Ok(stored)
}

proof fn lemma_note_texts_split(all: Seq<NoteText>, k: int)
    requires
        0 <= k <= all.len(),
    ensures
        note_texts(all) == note_texts(all.take(k)) + note_texts(all.skip(k)),
    decreases all.len(),
{
    if k == all.len() {
        assert(all.take(k) =~= all);
        assert(note_texts(all) + note_texts(all.skip(k)) =~= note_texts(all));
    } else {
        lemma_note_texts_split(all.drop_last(), k);
        assert(all.drop_last().take(k) =~= all.take(k));
        assert(all.skip(k).drop_last() =~= all.drop_last().skip(k));
        assert(note_texts(all) =~= note_texts(all.take(k)) + note_texts(all.skip(k)));
    }
}

impl Wallet {
    /// Reads a wallet from its file. The keys are derived from the spending key and the tree is
    /// rebuilt from its leaves.
    pub fn load(file: &WalletFile) -> (r: Result<Wallet, ElementError>)
        requires
            file.tree_leaves@.len() <= capacity(),
        ensures
            match r {
                Ok(w) => {
                    &&& first_error(file@.texts()) is None
                    &&& w.tree.wf()
                    &&& w.keys.wf()
                    &&& w.keys.spending_key@ == element_value(file@.spending_key)
                    &&& w@ == file@.wallet(w.keys)
                },
                Err(e) => first_error(file@.texts()) == Some(e),
            },
    {
        let ghost f = file@;
        proof {
            let key = seq![f.spending_key];
            let notes = note_texts(f.notes);
            lemma_first_error_concat(key + f.tree_leaves + notes, f.spent_nullifiers);
            lemma_first_error_concat(key + f.tree_leaves, notes);
            lemma_first_error_concat(key, f.tree_leaves);
            assert(key.drop_last() =~= Seq::<Seq<char>>::empty());
            reveal_with_fuel(first_error, 2);
        }
        let sk = match fr_from_hex(file.spending_key.as_str()) {
            Ok(sk) => sk,
            Err(e) => {
                return Err(e);
            },
        };
        let keys = KeySet::from_spending_key(sk);

        let leaves = match decode_all(&file.tree_leaves) {
            Ok(leaves) => leaves,
            Err(e) => {
                return Err(e);
            },
        };
        assert(values(leaves@).len() == file.tree_leaves@.len());
        let mut tree = IncrementalMerkleTree::new();
        let mut i: usize = 0;
        while i < leaves.len()
            invariant
                i <= leaves@.len(),
                leaves@.len() <= capacity(),
                tree.wf(),
                tree@ == values(leaves@).take(i as int),
            decreases leaves@.len() - i,
        {
            let index: u64 = tree.append(leaves[i]);
            assert(values(leaves@).take(i + 1) =~= values(leaves@).take(i as int).push(
                leaves@[i as int]@,
            ));
            i = i + 1;
        }
        assert(values(leaves@).take(i as int) =~= values(leaves@));

        let notes = match decode_notes(&file.notes) {
            Ok(notes) => notes,
            Err(e) => {
                return Err(e);
            },
        };
        let spent_nullifiers = match decode_all(&file.spent_nullifiers) {
            Ok(spent_nullifiers) => spent_nullifiers,
            Err(e) => {
                return Err(e);
            },
        };
        let w = Wallet { keys, notes, tree, spent_nullifiers };
        assert(w@ =~= f.wallet(w.keys));
        Ok(w)
    }

    /// The file of the wallet.
    pub fn save(&self) -> (file: WalletFile)
        ensures
            file@ == saved_file(self@),
    {
        let mut notes: Vec<StoredNoteJson> = Vec::new();
        let mut i: usize = 0;
        while i < self.notes.len()
            invariant
                i <= self.notes@.len(),
                notes@.len() == i,
                forall|k: int| 0 <= k < i ==> (#[trigger] notes@[k])@ == note_text(self.notes@[k]@),
            decreases self.notes@.len() - i,
        {
            notes.push(StoredNoteJson::encode(&self.notes[i]));
            i = i + 1;
        }
        let leaves = self.tree.leaves();
        let file = WalletFile {
            version: 1,
            spending_key: fr_to_hex(self.keys.spending_key),
            notes,
            tree_leaves: encode_all(&leaves),
            spent_nullifiers: encode_all(&self.spent_nullifiers),
        };
        assert(file@.notes =~= saved_file(self@).notes);
        assert(file@ =~= saved_file(self@));
        file
    }
}

/// Whether every number of a wallet is a field element.
pub open spec fn elements_in_range(w: WalletState) -> bool {
    &&& w.keys.spending_key@ < modulus()
    &&& forall|i: int|
        0 <= i < w.notes.len() ==> {
            let n = #[trigger] w.notes[i];
            &&& n.rune_id < modulus()
            &&& n.blinding < modulus()
            &&& n.owner_pk < modulus()
            &&& n.commitment < modulus()
            &&& n.nullifier < modulus()
        }
    &&& forall|i: int| 0 <= i < w.leaves.len() ==> #[trigger] w.leaves[i] < modulus()
    &&& forall|i: int|
        0 <= i < w.spent_nullifiers.len() ==> #[trigger] w.spent_nullifiers[i] < modulus()
}

proof fn lemma_element_texts_read_back(elements: Seq<nat>)
    requires
        forall|i: int| 0 <= i < elements.len() ==> #[trigger] elements[i] < modulus(),
    ensures
        first_error(element_texts(elements)) is None,
        element_values(element_texts(elements)) == elements,
    decreases elements.len(),
{
    assert forall|i: int| 0 <= i < elements.len() implies element_value(
        element_text(#[trigger] elements[i]),
    ) == elements[i] by {
        law_element_text_round_trip(elements[i]);
    }
    assert(element_values(element_texts(elements)) =~= elements);
    if elements.len() > 0 {
        lemma_element_texts_read_back(elements.drop_last());
        assert(element_texts(elements).drop_last() =~= element_texts(elements.drop_last()));
        law_element_text_round_trip(elements.last());
    }
}

proof fn lemma_note_texts_read_back(notes: Seq<NoteRecord>)
    requires
        forall|i: int|
            0 <= i < notes.len() ==> {
                let n = #[trigger] notes[i];
                &&& n.rune_id < modulus()
                &&& n.blinding < modulus()
                &&& n.owner_pk < modulus()
                &&& n.commitment < modulus()
                &&& n.nullifier < modulus()
            },
    ensures
        first_error(note_texts(Seq::new(notes.len(), |i: int| note_text(notes[i])))) is None,
    decreases notes.len(),
{
    if notes.len() > 0 {
        let all = Seq::new(notes.len(), |i: int| note_text(notes[i]));
        let n = notes.last();
        lemma_note_texts_read_back(notes.drop_last());
        assert(all.drop_last() =~= Seq::new(
            notes.drop_last().len(),
            |i: int| note_text(notes.drop_last()[i]),
        ));
        let elements = seq![n.rune_id, n.blinding, n.owner_pk, n.commitment, n.nullifier];
        lemma_element_texts_read_back(elements);
        assert(element_texts(elements) =~= note_text(n).texts());
        lemma_first_error_concat(note_texts(all.drop_last()), all.last().texts());
    }
}

/// A wallet read from its own file is the wallet: keys, notes, tree and nullifiers.
pub proof fn law_save_load_round_trip(w: WalletState)
    requires
        elements_in_range(w),
    ensures
        first_error(saved_file(w).texts()) is None,
        element_value(saved_file(w).spending_key) == w.keys.spending_key@,
        saved_file(w).wallet(w.keys) == w,
{
    let f = saved_file(w);
    law_element_text_round_trip(w.keys.spending_key@);
    lemma_element_texts_read_back(w.leaves);
    lemma_element_texts_read_back(w.spent_nullifiers);
    lemma_note_texts_read_back(w.notes);
    let key = seq![f.spending_key];
    let notes = note_texts(f.notes);
    lemma_first_error_concat(key + f.tree_leaves + notes, f.spent_nullifiers);
    lemma_first_error_concat(key + f.tree_leaves, notes);
    lemma_first_error_concat(key, f.tree_leaves);
    assert(key.drop_last() =~= Seq::<Seq<char>>::empty());
    reveal_with_fuel(first_error, 2);
    assert forall|i: int| 0 <= i < w.notes.len() implies f.notes[i].record()
        == #[trigger] w.notes[i] by {
        let n = w.notes[i];
        law_element_text_round_trip(n.rune_id);
        law_element_text_round_trip(n.blinding);
        law_element_text_round_trip(n.owner_pk);
        law_element_text_round_trip(n.commitment);
        law_element_text_round_trip(n.nullifier);
    }
    assert(f.wallet(w.keys).notes =~= w.notes);
    assert(f.wallet(w.keys) =~= w);
}

/// Keys derived from one spending key are equal, so that loading gives back the keys of a saved
/// wallet.
pub proof fn law_keys_from_spending_key(a: KeySet, b: KeySet)
    requires
        a.wf(),
        b.wf(),
        a.spending_key@ == b.spending_key@,
    ensures
        a == b,
{
    crate::field::lemma_fr_equal(a.spending_key, b.spending_key);
    crate::field::lemma_fr_equal(a.viewing_key, b.viewing_key);
    crate::field::lemma_fr_equal(a.nullifier_key, b.nullifier_key);
    crate::field::lemma_fr_equal(a.public_key, b.public_key);
}

/// A list of texts is read exactly where each is an element; else the first that is not is what is
/// wrong.
pub proof fn law_first_bad_text_is_told(all: Seq<Seq<char>>)
    ensures
        match first_error(all) {
            None => forall|i: int| 0 <= i < all.len() ==> element_error(#[trigger] all[i]) is None,
            Some(e) => exists|i: int|
                {
                    &&& 0 <= i < all.len()
                    &&& element_error(#[trigger] all[i]) == Some(e)
                    &&& forall|j: int|
                        0 <= j < i ==> element_error(#[trigger] all[j]) is None
                },
        },
    decreases all.len(),
{
    if all.len() > 0 {
        let start = all.drop_last();
        law_first_bad_text_is_told(start);
        match first_error(start) {
            None => {
                assert forall|i: int| 0 <= i < all.len() - 1 implies element_error(
                    #[trigger] all[i],
                ) is None by {
                    assert(start[i] == all[i]);
                }
                let last = all.len() - 1;
                assert(all[last] == all.last());
            },
            Some(e) => {
                let i = choose|i: int|
                    {
                        &&& 0 <= i < start.len()
                        &&& element_error(#[trigger] start[i]) == Some(e)
                        &&& forall|j: int|
                            0 <= j < i ==> element_error(#[trigger] start[j]) is None
                    };
                assert(all[i] == start[i]);
                assert forall|j: int| 0 <= j < i implies element_error(#[trigger] all[j]) is None by {
                    assert(start[j] == all[j]);
                }
            },
        }
    }
}

/// The texts of notes are those of each note in turn: Rune, blinding, owner, commitment, nullifier.
pub proof fn law_texts_of_notes(notes: Seq<NoteText>, i: int)
    requires
        0 <= i < notes.len(),
    ensures
        note_texts(notes).len() == 5 * notes.len(),
        note_texts(notes)[5 * i] == notes[i].rune_id,
        note_texts(notes)[5 * i + 1] == notes[i].blinding,
        note_texts(notes)[5 * i + 2] == notes[i].owner_pk,
        note_texts(notes)[5 * i + 3] == notes[i].commitment,
        note_texts(notes)[5 * i + 4] == notes[i].nullifier,
    decreases notes.len(),
{
    let start = notes.drop_last();
    if start.len() > 0 {
        law_texts_of_notes(
            start,
            if i < start.len() {
                i
            } else {
                0
            },
        );
    }
    assert(note_texts(Seq::<NoteText>::empty()).len() == 0);
    assert(start.len() == 0 ==> start =~= Seq::empty());
}

/// A file is read in order: the spending key, the leaves, the notes, the nullifiers.
pub proof fn law_texts_of_a_file(f: FileContents)
    ensures
        f.texts() == seq![f.spending_key] + f.tree_leaves + note_texts(f.notes)
            + f.spent_nullifiers,
        first_error(f.texts()) is None <==> element_error(f.spending_key) is None && first_error(
            f.tree_leaves,
        ) is None && first_error(note_texts(f.notes)) is None && first_error(f.spent_nullifiers)
            is None,
{
    let key = seq![f.spending_key];
    let notes = note_texts(f.notes);
    lemma_first_error_concat(key + f.tree_leaves + notes, f.spent_nullifiers);
    lemma_first_error_concat(key + f.tree_leaves, notes);
    lemma_first_error_concat(key, f.tree_leaves);
    assert(key.drop_last() =~= Seq::<Seq<char>>::empty());
    reveal_with_fuel(first_error, 2);
}

/// A wallet that is read has everything that its file says, each part in its place: every note with
/// all its numbers, every leaf and every nullifier in order.
pub proof fn law_file_is_the_wallet(f: FileContents, keys: KeySet)
    ensures
        ({
            let w = f.wallet(keys);
            &&& w.keys == keys
            &&& w.notes.len() == f.notes.len()
            &&& forall|i: int|
                0 <= i < f.notes.len() ==> {
                    let n = #[trigger] w.notes[i];
                    &&& n.rune_id == element_value(f.notes[i].rune_id)
                    &&& n.amount == f.notes[i].amount
                    &&& n.blinding == element_value(f.notes[i].blinding)
                    &&& n.owner_pk == element_value(f.notes[i].owner_pk)
                    &&& n.note_index == f.notes[i].note_index
                    &&& n.commitment == element_value(f.notes[i].commitment)
                    &&& n.nullifier == element_value(f.notes[i].nullifier)
                    &&& n.spent == f.notes[i].spent
                }
            &&& w.leaves.len() == f.tree_leaves.len()
            &&& forall|i: int|
                0 <= i < f.tree_leaves.len() ==> #[trigger] w.leaves[i] == element_value(
                    f.tree_leaves[i],
                )
            &&& w.spent_nullifiers.len() == f.spent_nullifiers.len()
            &&& forall|i: int|
                0 <= i < f.spent_nullifiers.len() ==> #[trigger] w.spent_nullifiers[i]
                    == element_value(f.spent_nullifiers[i])
        }),
{
}

/// A file that is written says everything that the wallet has, each part in its place.
pub proof fn law_wallet_is_in_the_file(w: WalletState)
    ensures
        ({
            let f = saved_file(w);
            &&& f.version == 1
            &&& f.spending_key == element_text(w.keys.spending_key@)
            &&& f.notes.len() == w.notes.len()
            &&& forall|i: int|
                0 <= i < w.notes.len() ==> {
                    let t = #[trigger] f.notes[i];
                    &&& t.rune_id == element_text(w.notes[i].rune_id)
                    &&& t.amount == w.notes[i].amount
                    &&& t.blinding == element_text(w.notes[i].blinding)
                    &&& t.owner_pk == element_text(w.notes[i].owner_pk)
                    &&& t.note_index == w.notes[i].note_index
                    &&& t.commitment == element_text(w.notes[i].commitment)
                    &&& t.nullifier == element_text(w.notes[i].nullifier)
                    &&& t.spent == w.notes[i].spent
                }
            &&& f.tree_leaves.len() == w.leaves.len()
            &&& forall|i: int|
                0 <= i < w.leaves.len() ==> #[trigger] f.tree_leaves[i] == element_text(w.leaves[i])
            &&& f.spent_nullifiers.len() == w.spent_nullifiers.len()
            &&& forall|i: int|
                0 <= i < w.spent_nullifiers.len() ==> #[trigger] f.spent_nullifiers[i]
                    == element_text(w.spent_nullifiers[i])
        }),
{
}

/// What a file says is what its parts are.
pub proof fn law_file_parts(file: WalletFile)
    ensures
        file@.version == file.version,
        file@.spending_key == file.spending_key@,
        file@.notes.len() == file.notes@.len(),
        forall|i: int|
            0 <= i < file.notes@.len() ==> {
                let t = #[trigger] file@.notes[i];
                let note = file.notes@[i];
                &&& t.rune_id == note.rune_id@
                &&& t.amount == note.amount
                &&& t.blinding == note.blinding@
                &&& t.owner_pk == note.owner_pk@
                &&& t.note_index == note.note_index
                &&& t.commitment == note.commitment@
                &&& t.nullifier == note.nullifier@
                &&& t.spent == note.spent
            },
        file@.tree_leaves.len() == file.tree_leaves@.len(),
        forall|i: int|
            0 <= i < file.tree_leaves@.len() ==> #[trigger] file@.tree_leaves[i]
                == file.tree_leaves@[i]@,
        file@.spent_nullifiers.len() == file.spent_nullifiers@.len(),
        forall|i: int|
            0 <= i < file.spent_nullifiers@.len() ==> #[trigger] file@.spent_nullifiers[i]
                == file.spent_nullifiers@[i]@,
{
}

} // verus!
