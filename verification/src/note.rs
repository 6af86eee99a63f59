//! Private notes.
//!
//! A note is a private coin: some amount of a Rune, held by the owner of a public key. The chain
//! sees only its commitment.
use rand::RngCore;
use vstd::prelude::*;

use crate::bytes::{
    le_bytes, le_value, lemma_byte_range_8, lemma_le_bytes_len, lemma_le_value_of_bytes,
    slice_to_vec, u64_from_le_bytes, u64_to_le_bytes,
};
use crate::field::{law_compressed_round_trip, modulus, Fr};
use crate::poseidon::{collide, hash4, hash4_spec, in_field, lemma_hash4_fixes};

verus! {

/// `rand::RngCore::next_u64` of `rand::thread_rng`: a number drawn at random. Nothing is said of
/// it.
#[verifier::external_body]
pub(crate) fn random_u64() -> (x: u64) {
    rand::thread_rng().next_u64()
}

/// A private note.
#[derive(Clone, Copy, Debug)]
pub struct Note {
    /// Which Rune the note holds.
    pub rune_id: Fr,
    /// How much of it.
    pub amount: u64,
    /// A random value that hides the contents of the commitment.
    pub blinding: Fr,
    /// Who owns the note.
    pub owner_pk: Fr,
    /// The place of the commitment in the tree.
    pub note_index: u64,
}

/// Why note contents could not be read.
#[derive(Clone, Copy, Debug, PartialEq, Eq, Structural)]
pub enum NoteError {
    /// Fewer bytes than the contents of a note take; the number that was given.
    PlaintextTooShort(usize),
}

/// The commitment to the contents of a note.
pub open spec fn commitment_spec(rune_id: nat, amount: nat, blinding: nat, owner_pk: nat) -> nat {
    hash4_spec(rune_id, amount, blinding, owner_pk)
}

/// The bytes of the contents of a note: 32 for the Rune, 8 for the amount, 32 for the blinding.
pub open spec fn plaintext_spec(rune_id: nat, amount: nat, blinding: nat) -> Seq<u8> {
    le_bytes(rune_id, 32) + le_bytes(amount, 8) + le_bytes(blinding, 32)
}

impl Note {
    /// The commitment to this note. The place in the tree does not enter it.
    pub open spec fn commitment_value(self) -> nat {
        commitment_spec(self.rune_id@, self.amount as nat, self.blinding@, self.owner_pk@)
    }

    /// The note whose contents the bytes hold. Field elements are reduced.
    pub open spec fn read_from(self, plaintext: Seq<u8>, owner_pk: Fr, note_index: u64) -> bool {
        &&& self.rune_id@ == le_value(plaintext.subrange(0, 32)) % modulus()
        &&& self.amount as nat == le_value(plaintext.subrange(32, 40))
        &&& self.blinding@ == le_value(plaintext.subrange(40, 72)) % modulus()
        &&& self.owner_pk == owner_pk
        &&& self.note_index == note_index
    }

    /// A note outside any tree, blinded by a random number.
    pub fn new(rune_id: Fr, amount: u64, owner_pk: Fr) -> (note: Note)
        ensures
            note.rune_id == rune_id,
            note.amount == amount,
            note.owner_pk == owner_pk,
            note.note_index == 0,
            note.blinding@ <= u64::MAX,
    {
        let seed: u64 = random_u64();
        Note::with_blinding_seed(seed, rune_id, amount, owner_pk)
    }

    /// A note outside any tree, blinded by the given number.
    pub fn with_blinding_seed(seed: u64, rune_id: Fr, amount: u64, owner_pk: Fr) -> (note: Note)
        ensures
            note.rune_id == rune_id,
            note.amount == amount,
            note.blinding@ == seed,
            note.owner_pk == owner_pk,
            note.note_index == 0,
    {
        Note { rune_id, amount, blinding: Fr::from(seed), owner_pk, note_index: 0 }
    }

    /// The commitment to the Rune, the amount, the blinding and the owner.
    pub fn commitment(&self) -> (c: Fr)
        ensures
            c@ == self.commitment_value(),
    {
        hash4(self.rune_id, Fr::from(self.amount), self.blinding, self.owner_pk)
    }

    /// Sets the place in the tree.
    pub fn set_index(&mut self, index: u64)
        ensures
            *final(self) == (Note { note_index: index, ..*old(self) }),
    {
        self.note_index = index;
    }

    /// The 72 bytes of the contents.
    pub fn to_plaintext(&self) -> (bytes: Vec<u8>)
        ensures
            bytes@ == plaintext_spec(self.rune_id@, self.amount as nat, self.blinding@),
            bytes@.len() == 72,
    {
        let mut bytes = self.rune_id.to_bytes_le();
        let mut amount_bytes = u64_to_le_bytes(self.amount);
        bytes.append(&mut amount_bytes);
        let mut blind_bytes = self.blinding.to_bytes_le();
        bytes.append(&mut blind_bytes);
        bytes
    }

    /// Reads the contents of a note from the first 72 bytes.
    pub fn from_plaintext(plaintext: &[u8], owner_pk: Fr, note_index: u64) -> (r: Result<
        Note,
        NoteError,
    >)
        ensures
            match r {
                Ok(note) => plaintext@.len() >= 72 && note.read_from(
                    plaintext@,
                    owner_pk,
                    note_index,
                ),
                Err(e) => plaintext@.len() < 72 && e == NoteError::PlaintextTooShort(
                    plaintext@.len() as usize,
                ),
            },
    {
        if plaintext.len() < 72 {
            return Err(NoteError::PlaintextTooShort(plaintext.len()));
        }
        let rune_bytes = slice_to_vec(plaintext, 0, 32);
        let amount_bytes = slice_to_vec(plaintext, 32, 40);
        let blind_bytes = slice_to_vec(plaintext, 40, 72);
        Ok(
            Note {
                rune_id: Fr::from_le_bytes_mod_order(rune_bytes.as_slice()),
                amount: u64_from_le_bytes(amount_bytes.as_slice()),
                blinding: Fr::from_le_bytes_mod_order(blind_bytes.as_slice()),
                owner_pk,
                note_index,
            },
        )
    }
}

/// A note read back from its own contents, with its own owner and place, is the note; so its
/// commitment is the same too.
pub proof fn law_plaintext_round_trip(note: Note, read: Note)
    requires
        note.rune_id.canonical(),
        note.blinding.canonical(),
        read.read_from(
            plaintext_spec(note.rune_id@, note.amount as nat, note.blinding@),
            note.owner_pk,
            note.note_index,
        ),
    ensures
        read == note,
        read.commitment_value() == note.commitment_value(),
{
    let (r, a, b) = (note.rune_id@, note.amount as nat, note.blinding@);
    let bytes = plaintext_spec(r, a, b);
    lemma_le_bytes_len(r, 32);
    lemma_le_bytes_len(a, 8);
    lemma_le_bytes_len(b, 32);
    assert(bytes.subrange(0, 32) =~= le_bytes(r, 32));
    assert(bytes.subrange(32, 40) =~= le_bytes(a, 8));
    assert(bytes.subrange(40, 72) =~= le_bytes(b, 32));
    law_compressed_round_trip(r, Seq::empty());
    law_compressed_round_trip(b, Seq::empty());
    lemma_byte_range_8();
    lemma_le_value_of_bytes(a, 8);
    crate::field::lemma_fr_equal(read.rune_id, note.rune_id);
    crate::field::lemma_fr_equal(read.blinding, note.blinding);
}

/// Notes that differ in nothing but their place have one commitment.
pub proof fn law_index_not_committed(note: Note, index: u64)
    ensures
        (Note { note_index: index, ..note }).commitment_value() == note.commitment_value(),
{
}

/// A commitment is the hash of Rune, amount, blinding and owner, in that order; other contents have
/// another commitment, unless the two collide.
pub proof fn law_commitment_binds(x: Seq<nat>, y: Seq<nat>)
    requires
        x.len() == 4 && y.len() == 4,
        in_field(x) && in_field(y),
        !collide(x, y),
    ensures
        commitment_spec(x[0], x[1], x[2], x[3]) == hash4_spec(x[0], x[1], x[2], x[3]),
        x != y ==> commitment_spec(x[0], x[1], x[2], x[3]) != commitment_spec(
            y[0],
            y[1],
            y[2],
            y[3],
        ),
{
    if commitment_spec(x[0], x[1], x[2], x[3]) == commitment_spec(y[0], y[1], y[2], y[3]) {
        lemma_hash4_fixes(x, y);
    }
}

/// The commitment to a note is to its own contents.
pub proof fn law_note_commitment(note: Note)
    ensures
        note.commitment_value() == hash4_spec(
            note.rune_id@,
            note.amount as nat,
            note.blinding@,
            note.owner_pk@,
        ),
{
}

/// The contents are written as 32 bytes of Rune, 8 of amount and 32 of blinding, and read from the
/// same places.
pub proof fn law_plaintext_places(
    rune_id: nat,
    amount: nat,
    blinding: nat,
    note: Note,
    plaintext: Seq<u8>,
    owner_pk: Fr,
    note_index: u64,
)
    ensures
        plaintext_spec(rune_id, amount, blinding).len() == 72,
        plaintext_spec(rune_id, amount, blinding).subrange(0, 32) == le_bytes(rune_id, 32),
        plaintext_spec(rune_id, amount, blinding).subrange(32, 40) == le_bytes(amount, 8),
        plaintext_spec(rune_id, amount, blinding).subrange(40, 72) == le_bytes(blinding, 32),
        note.read_from(plaintext, owner_pk, note_index) <==> {
            &&& note.rune_id@ == le_value(plaintext.subrange(0, 32)) % modulus()
            &&& note.amount == le_value(plaintext.subrange(32, 40))
            &&& note.blinding@ == le_value(plaintext.subrange(40, 72)) % modulus()
            &&& note.owner_pk == owner_pk
            &&& note.note_index == note_index
        },
{
    lemma_le_bytes_len(rune_id, 32);
    lemma_le_bytes_len(amount, 8);
    lemma_le_bytes_len(blinding, 32);
    let bytes = plaintext_spec(rune_id, amount, blinding);
    assert(bytes.subrange(0, 32) =~= le_bytes(rune_id, 32));
    assert(bytes.subrange(32, 40) =~= le_bytes(amount, 8));
    assert(bytes.subrange(40, 72) =~= le_bytes(blinding, 32));
}

} // verus!
