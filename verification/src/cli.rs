//! What the command line makes of its arguments and of the wallet's results.
use vstd::prelude::*;
use vstd::string::{StrSliceExecFns, StringExecFns, StringSliceAdditionalSpecFns};

use crate::bytes::{first_32, le_bytes, le_value, lemma_le_bytes_len};
use crate::ecdh::{random_bytes_32, x25519_public};
use crate::encryption::opens;
use crate::field::{law_compressed_round_trip, modulus, Fr};
use crate::note::{plaintext_spec, Note};
use crate::sealed::{law_sealed_note_parts, opened_by, seal_note, sealed_note};
use crate::text::{
    element_error, element_text, element_value, fr_from_hex, fr_to_hex, hex_bytes, hex_decode,
    hex_text, hex_value, is_hex, join_path, joined_path, law_hex_round_trip, ElementError,
};
use crate::transaction::{Operation, PruneOp};
use crate::wallet::{
    default_path_text, ShieldResult, StoredNote, TransferResult, UnshieldResult, Wallet,
};

verus! {

/// Where the wallet file is: at the place that was asked for, else at the default one.
pub fn wallet_path(wallet: Option<String>, home: Option<String>) -> (path: String)
    ensures
        path@ == (match wallet {
            Some(asked) => asked@,
            None => default_path_text(home),
        }),
{
    match wallet {
        Some(path) => path,
        None => Wallet::default_path(home),
    }
}

/// Where the indexed data is: at the place that was asked for, else in `.prune/indexed_data.json`
/// under the home directory, or under the current one where there is no home directory.
pub fn indexed_data_path(data_file: Option<String>, home: Option<String>) -> (path: String)
    ensures
        path@ == (match data_file {
            Some(asked) => asked@,
            None => joined_path(
                match home {
                    Some(home) => home@,
                    None => "."@,
                },
                ".prune/indexed_data.json"@,
            ),
        }),
{
    match data_file {
        Some(path) => path,
        None => {
            let dir = match home {
                Some(home) => home,
                None => String::from_str("."),
            };
            join_path(dir, ".prune/indexed_data.json")
        },
    }
}

/// Why an argument is not a field element.
#[derive(Clone, Copy, Debug, PartialEq, Eq, Structural)]
pub enum ArgumentError {
    /// A short argument that is not a hexadecimal number.
    InvalidNumber,
    /// A long argument that is not an even number of hexadecimal digits.
    InvalidHex,
}

/// A text without a leading `0x`.
pub open spec fn without_prefix(text: Seq<char>) -> Seq<char> {
    if text.len() >= 2 && text[0] == '0' && text[1] == 'x' {
        text.skip(2)
    } else {
        text
    }
}

/// A text without a leading plus sign.
pub open spec fn without_plus(text: Seq<char>) -> Seq<char> {
    if text.len() >= 1 && text[0] == '+' {
        text.skip(1)
    } else {
        text
    }
}

/// The number that hexadecimal digits stand for, the most significant first.
pub open spec fn hex_number(digits: Seq<char>) -> nat
    decreases digits.len(),
{
    if digits.len() == 0 {
        0
    } else {
        16 * hex_number(digits.drop_last()) + hex_value(digits.last())->0 as nat
    }
}

/// Whether a text is one or more hexadecimal digits.
pub open spec fn is_hex_number(digits: Seq<char>) -> bool {
    digits.len() > 0 && forall|i: int|
        0 <= i < digits.len() ==> hex_value(#[trigger] digits[i]) is Some
}

/// The element that an argument stands for. Up to 16 bytes, after an optional `0x`, are a
/// hexadecimal number, with or without a plus sign; more are the digits of little-endian bytes, and
/// the number they hold is reduced.
pub open spec fn argument_value(text: Seq<char>) -> Result<nat, ArgumentError> {
    let rest = without_prefix(text);
    if vstd::utf8::encode_utf8(rest).len() <= 16 {
        let digits = without_plus(rest);
        if is_hex_number(digits) {
            Ok(hex_number(digits))
        } else {
            Err(ArgumentError::InvalidNumber)
        }
    } else if is_hex(rest) {
        Ok(le_value(hex_bytes(rest)) % modulus())
    } else {
        Err(ArgumentError::InvalidHex)
    }
}

/// The value of a hexadecimal digit.
fn digit_value(c: char) -> (r: Option<u64>)
    ensures
        match r {
            Some(v) => hex_value(c) == Some(v as int) && v < 16,
            None => hex_value(c) is None,
        },
{
    if '0' <= c && c <= '9' {
        Some((c as u32 - 48) as u64)
    } else if 'a' <= c && c <= 'f' {
        Some((c as u32 - 87) as u64)
    } else if 'A' <= c && c <= 'F' {
        Some((c as u32 - 55) as u64)
    } else {
        None
    }
}

/// Sixteen to the power `n`.
spec fn hex_range(n: nat) -> nat
    decreases n,
{
    if n == 0 {
        1
    } else {
        16 * hex_range((n - 1) as nat)
    }
}

proof fn lemma_hex_range(n: nat)
    requires
        n <= 16,
    ensures
        0 < hex_range(n) <= 0x1_0000_0000_0000_0000,
{
    reveal_with_fuel(hex_range, 17);
}

/// Reads a number of at most 16 hexadecimal digits.
fn parse_hex_number(text: &str) -> (r: Option<u64>)
    requires
        text@.len() <= 16,
    ensures
        match r {
            Some(n) => is_hex_number(text@) && n == hex_number(text@),
            None => !is_hex_number(text@),
        },
{
    let len: usize = text.unicode_len();
    if len == 0 {
        return None;
    }
    let mut n: u64 = 0;
    let mut i: usize = 0;
    assert(text@.take(0) =~= Seq::<char>::empty());
    while i < len
        invariant
            i <= len,
            len == text@.len(),
            len <= 16,
            n == hex_number(text@.take(i as int)),
            n < hex_range(i as nat),
            forall|k: int| 0 <= k < i ==> hex_value(#[trigger] text@[k]) is Some,
        decreases len - i,
    {
        proof {
            lemma_hex_range((i + 1) as nat);
            assert(text@.take(i + 1).drop_last() =~= text@.take(i as int));
        }
        match digit_value(text.get_char(i)) {
            Some(v) => {
                n = 16 * n + v;
            },
            None => {
                return None;
            },
        }
        i = i + 1;
    }
    assert(text@.take(i as int) =~= text@);
    Some(n)
}

/// Reads a field element from an argument.
pub fn parse_fr(s: &str) -> (r: Result<Fr, ArgumentError>)
    ensures
        match r {
            Ok(f) => argument_value(s@) == Ok::<nat, ArgumentError>(f@),
            Err(e) => argument_value(s@) == Err::<nat, ArgumentError>(e),
        },
{
    let len: usize = s.unicode_len();
    let rest = if len >= 2 && s.get_char(0) == '0' && s.get_char(1) == 'x' {
        s.substring_char(2, len)
    } else {
        s
    };
    assert(rest@ =~= without_prefix(s@));
    if rest.as_bytes().len() <= 16 {
        proof {
            lemma_utf8_at_least_chars(rest@);
        }
        let rest_len: usize = rest.unicode_len();
        let digits = if rest_len >= 1 && rest.get_char(0) == '+' {
            rest.substring_char(1, rest_len)
        } else {
            rest
        };
        assert(digits@ =~= without_plus(rest@));
        match parse_hex_number(digits) {
            Some(n) => Ok(Fr::from(n)),
            None => Err(ArgumentError::InvalidNumber),
        }
    } else {
        match hex_decode(rest) {
            Some(bytes) => Ok(Fr::from_le_bytes_mod_order(bytes.as_slice())),
            None => Err(ArgumentError::InvalidHex),
        }
    }
}

/// A text takes at least one byte for each character.
proof fn lemma_utf8_at_least_chars(text: Seq<char>)
    ensures
        text.len() <= vstd::utf8::encode_utf8(text).len(),
    decreases text.len(),
{
    if text.len() > 0 {
        lemma_utf8_at_least_chars(text.drop_first());
    }
}

/// The text of a field element.
pub fn fr_display(f: Fr) -> (text: String)
    ensures
        text@ == element_text(f@),
{
    fr_to_hex(f)
}

/// An element that was displayed is read back: the address that one user shows is the argument that
/// another gives.
pub proof fn law_displayed_element_reads_back(x: nat)
    requires
        x < modulus(),
    ensures
        argument_value(element_text(x)) == Ok::<nat, ArgumentError>(x),
{
    let text = element_text(x);
    let bytes = le_bytes(x, 32);
    law_hex_round_trip(bytes);
    law_compressed_round_trip(x, Seq::empty());
    lemma_le_bytes_len(x, 32);
    assert(text.len() == 64);
    assert(hex_value(text[1]) is Some);
    assert(without_prefix(text) == text);
    lemma_utf8_at_least_chars(text);
}

/// How many notes are unspent and how many are spent.
pub open spec fn note_counts(notes: Seq<StoredNote>) -> (nat, nat)
    decreases notes.len(),
{
    if notes.len() == 0 {
        (0, 0)
    } else {
        let (unspent, spent) = note_counts(notes.drop_last());
        if notes.last().spent {
            (unspent, spent + 1)
        } else {
            (unspent + 1, spent)
        }
    }
}

/// Counts the unspent and the spent notes.
pub fn count_notes(notes: &Vec<StoredNote>) -> (r: (usize, usize))
    ensures
        r.0 == note_counts(notes@).0,
        r.1 == note_counts(notes@).1,
{
    let mut unspent: usize = 0;
    let mut spent: usize = 0;
    let mut i: usize = 0;
    assert(notes@.take(0) =~= Seq::<StoredNote>::empty());
    while i < notes.len()
        invariant
            i <= notes@.len(),
            unspent + spent == i,
            unspent == note_counts(notes@.take(i as int)).0,
            spent == note_counts(notes@.take(i as int)).1,
        decreases notes@.len() - i,
    {
        assert(notes@.take(i + 1).drop_last() =~= notes@.take(i as int));
        if notes[i].spent {
            spent = spent + 1;
        } else {
            unspent = unspent + 1;
        }
        i = i + 1;
    }
    assert(notes@.take(i as int) =~= notes@);
    (unspent, spent)
}

/// `n` zero bytes.
fn zeros(n: usize) -> (bytes: Vec<u8>)
    ensures
        bytes@ == Seq::new(n as nat, |i: int| 0u8),
{
    let mut bytes: Vec<u8> = Vec::new();
    let mut i: usize = 0;
    while i < n
        invariant
            i <= n,
            bytes@ == Seq::new(i as nat, |k: int| 0u8),
        decreases n - i,
    {
        bytes.push(0);
        assert(bytes@ =~= Seq::new((i + 1) as nat, |k: int| 0u8));
        i = i + 1;
    }
    bytes
}

/// The bytes that stand in for a proof that was not made.
pub open spec fn placeholder_proof() -> Seq<u8> {
    Seq::new(192, |i: int| 0u8)
}

/// The bytes that stand in for the proof that was not made.
pub fn dummy_proof() -> (bytes: Vec<u8>)
    ensures
        bytes@ == placeholder_proof(),
{
    zeros(192)
}

/// The new note of a transfer, sealed for the holder of an x25519 public key with the given one-time
/// secret.
pub fn build_transfer_encrypted_note_with(
    out_note: &Note,
    receiver_pk: &[u8; 32],
    ephemeral_secret: &[u8; 32],
) -> (blob: Vec<u8>)
    ensures
        sealed_for(blob@, *out_note, receiver_pk@, ephemeral_secret@),
{
    seal_note(out_note, receiver_pk, ephemeral_secret)
}

/// Whether bytes are a note sealed for the holder of an x25519 public key, who reads it, with the
/// given one-time secret.
pub open spec fn sealed_for(
    blob: Seq<u8>,
    note: Note,
    receiver_pk: Seq<u8>,
    ephemeral: Seq<u8>,
) -> bool {
    &&& blob == sealed_note(
        note.rune_id@,
        note.amount as nat,
        note.blinding@,
        receiver_pk,
        ephemeral,
    )
    &&& blob.len() == 120
    &&& forall|secret: Seq<u8>|
        secret.len() == 32 && #[trigger] x25519_public(secret) == receiver_pk ==> opened_by(
            blob,
            secret,
            plaintext_spec(note.rune_id@, note.amount as nat, note.blinding@),
        )
}

/// The new note of a transfer, sealed for the holder of an x25519 public key with a one-time secret
/// drawn at random.
pub fn build_transfer_encrypted_note(out_note: &Note, receiver_pk: &[u8; 32]) -> (blob: Vec<u8>)
    ensures
        exists|ephemeral: Seq<u8>|
            ephemeral.len() == 32 && #[trigger] sealed_for(
                blob@,
                *out_note,
                receiver_pk@,
                ephemeral,
            ),
{
    let ephemeral_secret = random_bytes_32();
    build_transfer_encrypted_note_with(out_note, receiver_pk, &ephemeral_secret)
}

/// The bytes of a proof: those of the digits, where there is a proof, else the placeholder. None
/// where the digits are no digits.
pub open spec fn proof_bytes_spec(proof_hex: Option<String>) -> Option<Seq<u8>> {
    match proof_hex {
        Some(text) => if is_hex(text@) {
            Some(hex_bytes(text@))
        } else {
            None
        },
        None => Some(placeholder_proof()),
    }
}

/// The bytes of a proof.
fn proof_bytes(proof_hex: &Option<String>) -> (r: Option<Vec<u8>>)
    ensures
        proof_bytes_spec(*proof_hex) == (match r {
            Some(bytes) => Some(bytes@),
            None => None,
        }),
{
    match proof_hex {
        Some(text) => hex_decode(text.as_str()),
        None => Some(dummy_proof()),
    }
}

/// The operation that publishes a shield. None where the encrypted note is not written in digits.
pub fn shield_operation(rune_id: Fr, result: &ShieldResult) -> (r: Option<PruneOp>)
    ensures
        match r {
            Some(op) => is_hex(result.encrypted_note_hex@) && op@ == (Operation::Shield {
                rune_id: rune_id@,
                commitment: result.commitment@,
                encrypted_note: hex_bytes(result.encrypted_note_hex@),
            }),
            None => !is_hex(result.encrypted_note_hex@),
        },
{
    match hex_decode(result.encrypted_note_hex.as_str()) {
        Some(encrypted_note) => Some(
            PruneOp::Shield { rune_id, commitment: result.commitment, encrypted_note },
        ),
        None => None,
    }
}

/// Whether an operation publishes a transfer that creates the given note, sealed for the holder of an
/// x25519 public key with the given one-time secret. There is none where the proof is not written in
/// digits.
pub open spec fn publishes_transfer(
    r: Option<PruneOp>,
    out_note: Note,
    result: TransferResult,
    receiver_pk: Seq<u8>,
    ephemeral: Seq<u8>,
) -> bool {
    match r {
        Some(op) => exists|blob: Seq<u8>|
            {
                &&& #[trigger] sealed_for(blob, out_note, receiver_pk, ephemeral)
                &&& proof_bytes_spec(result.proof_hex) is Some
                &&& op@ == (Operation::Transfer {
                    rune_id: out_note.rune_id@,
                    nullifier: result.nullifier@,
                    out_commitment: result.out_commitment@,
                    anchor: result.anchor@,
                    fee: result.circuit_fee as nat,
                    proof: proof_bytes_spec(result.proof_hex)->0,
                    encrypted_note: blob,
                })
            },
        None => proof_bytes_spec(result.proof_hex) is None,
    }
}

/// The operation that publishes a transfer which creates a note, sealed for its receiver with the
/// given one-time secret. None where the proof is not written in digits.
pub fn transfer_operation_with(
    out_note: &Note,
    result: &TransferResult,
    receiver_pk: &[u8; 32],
    ephemeral_secret: &[u8; 32],
) -> (r: Option<PruneOp>)
    ensures
        publishes_transfer(r, *out_note, *result, receiver_pk@, ephemeral_secret@),
{
    match proof_bytes(&result.proof_hex) {
        Some(proof) => {
            let encrypted_note = build_transfer_encrypted_note_with(
                out_note,
                receiver_pk,
                ephemeral_secret,
            );
            assert(sealed_for(encrypted_note@, *out_note, receiver_pk@, ephemeral_secret@));
            Some(
                PruneOp::Transfer {
                    rune_id: out_note.rune_id,
                    nullifier: result.nullifier,
                    out_commitment: result.out_commitment,
                    anchor: result.anchor,
                    fee: result.circuit_fee,
                    proof,
                    encrypted_note,
                },
            )
        },
        None => None,
    }
}

/// The operation that publishes a transfer which creates a note, sealed for its receiver with a
/// one-time secret drawn at random. None where the proof is not written in digits.
pub fn transfer_operation(out_note: &Note, result: &TransferResult, receiver_pk: &[u8; 32]) -> (r:
    Option<PruneOp>)
    ensures
        exists|ephemeral: Seq<u8>|
            ephemeral.len() == 32 && #[trigger] publishes_transfer(
                r,
                *out_note,
                *result,
                receiver_pk@,
                ephemeral,
            ),
{
    let ephemeral_secret = random_bytes_32();
    transfer_operation_with(out_note, result, receiver_pk, &ephemeral_secret)
}

/// The operation that publishes an unshield. Its commitment is zero: the worthless note is not
/// published. None where the proof is not written in digits.
pub fn unshield_operation(result: &UnshieldResult) -> (r: Option<PruneOp>)
    ensures
        match r {
            Some(op) => proof_bytes_spec(result.proof_hex) is Some && op@ == (Operation::Unshield {
                rune_id: result.rune_id@,
                nullifier: result.nullifier@,
                out_commitment: 0,
                anchor: result.anchor@,
                amount: result.amount as nat,
                proof: proof_bytes_spec(result.proof_hex)->0,
            }),
            None => proof_bytes_spec(result.proof_hex) is None,
        },
{
    match proof_bytes(&result.proof_hex) {
        Some(proof) => Some(
            PruneOp::Unshield {
                rune_id: result.rune_id,
                nullifier: result.nullifier,
                out_commitment: Fr::from(0),
                anchor: result.anchor,
                amount: result.amount,
                proof,
            },
        ),
        None => None,
    }
}

/// The commitments, encrypted notes and nullifiers of the chain, as an indexer writes them.
#[derive(Clone, Debug)]
pub struct IndexedData {
    pub commitments: Vec<IndexedCommitment>,
    pub encrypted_notes: Vec<IndexedEncryptedNote>,
    pub nullifiers: Vec<String>,
}

/// A commitment and its place.
#[derive(Clone, Debug)]
pub struct IndexedCommitment {
    pub tree_index: u64,
    pub commitment: String,
}

/// An encrypted note and its place.
#[derive(Clone, Debug)]
pub struct IndexedEncryptedNote {
    pub tree_index: u64,
    pub data: String,
}

/// Why indexed data could not be read.
#[derive(Clone, Copy, Debug, PartialEq, Eq, Structural)]
pub enum IndexedDataError {
    /// A commitment is not a field element.
    InvalidCommitment(ElementError),
    /// An encrypted note is not written in digits.
    InvalidNote,
    /// A nullifier is not written in digits.
    InvalidNullifier,
    /// A nullifier is not 32 bytes.
    NullifierLength,
}

/// What is wrong with the first of a list of commitments that is no element.
pub open spec fn commitment_error(list: Seq<IndexedCommitment>) -> Option<IndexedDataError>
    decreases list.len(),
{
    if list.len() == 0 {
        None
    } else {
        match commitment_error(list.drop_last()) {
            Some(e) => Some(e),
            None => match element_error(list.last().commitment@) {
                Some(e) => Some(IndexedDataError::InvalidCommitment(e)),
                None => None,
            },
        }
    }
}

/// What is wrong with the first of a list of notes that is not written in digits.
pub open spec fn note_error(list: Seq<IndexedEncryptedNote>) -> Option<IndexedDataError> {
    if forall|i: int| 0 <= i < list.len() ==> is_hex((#[trigger] list[i]).data@) {
        None
    } else {
        Some(IndexedDataError::InvalidNote)
    }
}

/// What is wrong with the first of a list of nullifiers that is not 32 bytes written in digits.
pub open spec fn nullifier_error(list: Seq<String>) -> Option<IndexedDataError>
    decreases list.len(),
{
    if list.len() == 0 {
        None
    } else {
        match nullifier_error(list.drop_last()) {
            Some(e) => Some(e),
            None => if !is_hex(list.last()@) {
                Some(IndexedDataError::InvalidNullifier)
            } else if hex_bytes(list.last()@).len() != 32 {
                Some(IndexedDataError::NullifierLength)
            } else {
                None
            },
        }
    }
}

/// The first thing that is wrong with indexed data: commitments are read first, then notes, then
/// nullifiers.
pub open spec fn indexed_data_error(data: IndexedData) -> Option<IndexedDataError> {
    match commitment_error(data.commitments@) {
        Some(e) => Some(e),
        None => match note_error(data.encrypted_notes@) {
            Some(e) => Some(e),
            None => nullifier_error(data.nullifiers@),
        },
    }
}

/// Indexed data that has been read.
#[derive(Clone, Debug)]
pub struct ParsedData {
    pub commitments: Vec<(u64, Fr)>,
    pub encrypted_notes: Vec<(u64, Vec<u8>)>,
    pub nullifiers: Vec<[u8; 32]>,
}

impl ParsedData {
    /// Whether this is what indexed data says.
    pub open spec fn is_read_from(self, data: IndexedData) -> bool {
        &&& self.commitments@.len() == data.commitments@.len()
        &&& forall|i: int|
            0 <= i < data.commitments@.len() ==> {
                &&& (#[trigger] self.commitments@[i]).0 == data.commitments@[i].tree_index
                &&& self.commitments@[i].1@ == element_value(data.commitments@[i].commitment@)
            }
        &&& self.encrypted_notes@.len() == data.encrypted_notes@.len()
        &&& forall|i: int|
            0 <= i < data.encrypted_notes@.len() ==> {
                &&& (#[trigger] self.encrypted_notes@[i]).0 == data.encrypted_notes@[i].tree_index
                &&& self.encrypted_notes@[i].1@ == hex_bytes(data.encrypted_notes@[i].data@)
            }
        &&& self.nullifiers@.len() == data.nullifiers@.len()
        &&& forall|i: int|
            0 <= i < data.nullifiers@.len() ==> (#[trigger] self.nullifiers@[i])@ == hex_bytes(
                data.nullifiers@[i]@,
            )
    }
}

proof fn lemma_commitment_error_start(list: Seq<IndexedCommitment>, n: int)
    requires
        0 <= n <= list.len(),
        commitment_error(list.take(n)) is Some,
    ensures
        commitment_error(list) == commitment_error(list.take(n)),
    decreases list.len(),
{
    if n == list.len() {
        assert(list.take(n) =~= list);
    } else {
        assert(list.drop_last().take(n) =~= list.take(n));
        lemma_commitment_error_start(list.drop_last(), n);
    }
}

proof fn lemma_nullifier_error_start(list: Seq<String>, n: int)
    requires
        0 <= n <= list.len(),
        nullifier_error(list.take(n)) is Some,
    ensures
        nullifier_error(list) == nullifier_error(list.take(n)),
    decreases list.len(),
{
    if n == list.len() {
        assert(list.take(n) =~= list);
    } else {
        assert(list.drop_last().take(n) =~= list.take(n));
        lemma_nullifier_error_start(list.drop_last(), n);
    }
}

/// Reads indexed data.
pub fn parse_indexed_data(data: &IndexedData) -> (r: Result<ParsedData, IndexedDataError>)
    ensures
        match r {
            Ok(parsed) => indexed_data_error(*data) is None && parsed.is_read_from(*data),
            Err(e) => indexed_data_error(*data) == Some(e),
        },
{
    let mut commitments: Vec<(u64, Fr)> = Vec::new();
    let mut i: usize = 0;
    assert(data.commitments@.take(0) =~= Seq::<IndexedCommitment>::empty());
    while i < data.commitments.len()
        invariant
            i <= data.commitments@.len(),
            commitment_error(data.commitments@.take(i as int)) is None,
            commitments@.len() == i,
            forall|k: int|
                0 <= k < i ==> {
                    &&& (#[trigger] commitments@[k]).0 == data.commitments@[k].tree_index
                    &&& commitments@[k].1@ == element_value(data.commitments@[k].commitment@)
                },
        decreases data.commitments@.len() - i,
    {
        assert(data.commitments@.take(i + 1).drop_last() =~= data.commitments@.take(i as int));
        match fr_from_hex(data.commitments[i].commitment.as_str()) {
            Ok(f) => {
                commitments.push((data.commitments[i].tree_index, f));
            },
            Err(e) => {
                proof {
                    lemma_commitment_error_start(data.commitments@, i + 1);
                }
                return Err(IndexedDataError::InvalidCommitment(e));
            },
        }
        i = i + 1;
    }
    assert(data.commitments@.take(i as int) =~= data.commitments@);

    let mut encrypted_notes: Vec<(u64, Vec<u8>)> = Vec::new();
    let mut i: usize = 0;
    while i < data.encrypted_notes.len()
        invariant
            i <= data.encrypted_notes@.len(),
            commitment_error(data.commitments@) is None,
            encrypted_notes@.len() == i,
            forall|k: int| 0 <= k < i ==> is_hex((#[trigger] data.encrypted_notes@[k]).data@),
            forall|k: int|
                0 <= k < i ==> {
                    &&& (#[trigger] encrypted_notes@[k]).0 == data.encrypted_notes@[k].tree_index
                    &&& encrypted_notes@[k].1@ == hex_bytes(data.encrypted_notes@[k].data@)
                },
        decreases data.encrypted_notes@.len() - i,
    {
        match hex_decode(data.encrypted_notes[i].data.as_str()) {
            Some(bytes) => {
                encrypted_notes.push((data.encrypted_notes[i].tree_index, bytes));
            },
            None => {
                assert(!is_hex(data.encrypted_notes@[i as int].data@));
                return Err(IndexedDataError::InvalidNote);
            },
        }
        i = i + 1;
    }

    let mut nullifiers: Vec<[u8; 32]> = Vec::new();
    let mut i: usize = 0;
    assert(data.nullifiers@.take(0) =~= Seq::<String>::empty());
    while i < data.nullifiers.len()
        invariant
            i <= data.nullifiers@.len(),
            commitment_error(data.commitments@) is None,
            note_error(data.encrypted_notes@) is None,
            nullifier_error(data.nullifiers@.take(i as int)) is None,
            nullifiers@.len() == i,
            forall|k: int|
                0 <= k < i ==> (#[trigger] nullifiers@[k])@ == hex_bytes(data.nullifiers@[k]@),
        decreases data.nullifiers@.len() - i,
    {
        assert(data.nullifiers@.take(i + 1).drop_last() =~= data.nullifiers@.take(i as int));
        match hex_decode(data.nullifiers[i].as_str()) {
            Some(bytes) => {
                if bytes.len() != 32 {
                    proof {
                        lemma_nullifier_error_start(data.nullifiers@, i + 1);
                    }
                    return Err(IndexedDataError::NullifierLength);
                }
                assert(bytes@.take(32) =~= bytes@);
                nullifiers.push(first_32(bytes.as_slice()));
            },
            None => {
                proof {
                    lemma_nullifier_error_start(data.nullifiers@, i + 1);
                }
                return Err(IndexedDataError::InvalidNullifier);
            },
        }
        i = i + 1;
    }
    assert(data.nullifiers@.take(i as int) =~= data.nullifiers@);
    Ok(ParsedData { commitments, encrypted_notes, nullifiers })
}

/// Digits stand for a number in base sixteen.
pub proof fn law_hex_digits(digits: Seq<char>, c: char)
    requires
        hex_value(c) is Some,
    ensures
        hex_number(Seq::empty()) == 0,
        hex_number(digits.push(c)) == 16 * hex_number(digits) + hex_value(c)->0,
{
    assert(digits.push(c).drop_last() =~= digits);
}

/// One to sixteen digits are a number, with and without `0x` in front.
pub proof fn law_short_argument_is_a_number(digits: Seq<char>)
    requires
        0 < digits.len() <= 16,
        forall|i: int| 0 <= i < digits.len() ==> hex_value(#[trigger] digits[i]) is Some,
    ensures
        argument_value(digits) == Ok::<nat, ArgumentError>(hex_number(digits)),
        argument_value(seq!['0', 'x'] + digits) == Ok::<nat, ArgumentError>(hex_number(digits)),
        digits.len() < 16 ==> argument_value(seq!['+'] + digits) == Ok::<nat, ArgumentError>(
            hex_number(digits),
        ),
{
    lemma_hex_digits_are_bytes(digits);
    let prefixed = seq!['0', 'x'] + digits;
    assert(prefixed.skip(2) =~= digits);
    assert(hex_value(digits[0]) is Some);
    assert(digits.len() >= 2 ==> hex_value(digits[1]) is Some);
    assert(without_prefix(digits) == digits);
    assert(without_prefix(prefixed) == digits);
    let signed = seq!['+'] + digits;
    assert(signed.skip(1) =~= digits);
    assert(vstd::utf8::is_ascii_chars(signed));
    vstd::utf8::is_ascii_chars_encode_utf8(signed);
    assert(without_prefix(signed) == signed);
    assert(without_plus(signed) == digits);
    assert(without_plus(digits) == digits);
}

proof fn lemma_hex_digits_are_bytes(digits: Seq<char>)
    requires
        forall|i: int| 0 <= i < digits.len() ==> hex_value(#[trigger] digits[i]) is Some,
    ensures
        vstd::utf8::encode_utf8(digits).len() == digits.len(),
        vstd::utf8::is_ascii_chars(digits),
{
    assert forall|i: int| 0 <= i < digits.len() implies (#[trigger] digits[i] as u32) < 128 by {
        assert(hex_value(digits[i]) is Some);
    }
    assert(vstd::utf8::is_ascii_chars(digits));
    vstd::utf8::is_ascii_chars_encode_utf8(digits);
}

/// More than sixteen digits, an even number of them, are little-endian bytes; the number in them is
/// reduced. `0x` in front changes nothing.
pub proof fn law_long_argument_is_bytes(digits: Seq<char>)
    requires
        digits.len() > 16,
        digits.len() % 2 == 0,
        forall|i: int| 0 <= i < digits.len() ==> hex_value(#[trigger] digits[i]) is Some,
    ensures
        argument_value(digits) == Ok::<nat, ArgumentError>(
            le_value(hex_bytes(digits)) % modulus(),
        ),
        argument_value(seq!['0', 'x'] + digits) == argument_value(digits),
{
    lemma_hex_digits_are_bytes(digits);
    let prefixed = seq!['0', 'x'] + digits;
    assert(prefixed.skip(2) =~= digits);
    assert(hex_value(digits[1]) is Some);
    assert(without_prefix(digits) == digits);
}

/// A number is one or more digits.
pub proof fn law_number_is_digits(digits: Seq<char>)
    ensures
        is_hex_number(digits) <==> digits.len() > 0 && forall|i: int|
            0 <= i < digits.len() ==> hex_value(#[trigger] digits[i]) is Some,
{
}

/// An argument is refused exactly where, without `0x`, it is neither a short number, with or without
/// a plus sign, nor a long even number of digits; and the refusal says which of the two it is not.
pub proof fn law_argument_is_refused(text: Seq<char>, digits: Seq<char>)
    requires
        text.len() < 2 || text[0] != '0' || text[1] != 'x',
        digits == (if text.len() >= 1 && text[0] == '+' {
            text.skip(1)
        } else {
            text
        }),
    ensures
        vstd::utf8::encode_utf8(text).len() <= 16 && is_hex_number(digits) ==> argument_value(text)
            == Ok::<nat, ArgumentError>(hex_number(digits)),
        vstd::utf8::encode_utf8(text).len() <= 16 && !is_hex_number(digits) ==> argument_value(text)
            == Err::<nat, ArgumentError>(ArgumentError::InvalidNumber),
        vstd::utf8::encode_utf8(text).len() > 16 && is_hex(text) ==> argument_value(text) == Ok::<
            nat,
            ArgumentError,
        >(le_value(hex_bytes(text)) % modulus()),
        vstd::utf8::encode_utf8(text).len() > 16 && !is_hex(text) ==> argument_value(text) == Err::<
            nat,
            ArgumentError,
        >(ArgumentError::InvalidHex),
        argument_value(seq!['0', 'x'] + text) == argument_value(text),
{
    let prefixed = seq!['0', 'x'] + text;
    assert(prefixed.skip(2) =~= text);
    assert(without_prefix(prefixed) == text);
    assert(without_prefix(text) == text);
}

/// Every note is counted once: as spent where it is spent, else as unspent.
pub proof fn law_every_note_is_counted(notes: Seq<StoredNote>, note: StoredNote)
    ensures
        note_counts(Seq::empty()) == (0nat, 0nat),
        note.spent ==> note_counts(notes.push(note)) == (
            note_counts(notes).0,
            note_counts(notes).1 + 1,
        ),
        !note.spent ==> note_counts(notes.push(note)) == (
            note_counts(notes).0 + 1,
            note_counts(notes).1,
        ),
{
    assert(notes.push(note).drop_last() =~= notes);
}

/// The spent and the unspent notes are all notes.
pub proof fn law_counts_add_up(notes: Seq<StoredNote>)
    ensures
        note_counts(notes).0 + note_counts(notes).1 == notes.len(),
    decreases notes.len(),
{
    if notes.len() > 0 {
        law_counts_add_up(notes.drop_last());
    }
}

/// Digits of a proof are its bytes, whatever they are; without a proof there are 192 zeros; a text
/// that is no digits is no proof.
pub proof fn law_proof_bytes(text: String, bytes: Seq<u8>)
    ensures
        proof_bytes_spec(None) matches Some(p) && p.len() == 192 && forall|i: int|
            0 <= i < 192 ==> #[trigger] p[i] == 0,
        !is_hex(text@) ==> proof_bytes_spec(Some(text)) is None,
        is_hex(text@) ==> proof_bytes_spec(Some(text)) == Some(hex_bytes(text@)),
        text@ == hex_text(bytes) ==> proof_bytes_spec(Some(text)) == Some(bytes),
{
    law_hex_round_trip(bytes);
}

/// A transfer is published with the numbers of its result and the Rune of its note, and with that
/// note sealed: the one-time key in front, the rest opened by the receiver to the contents.
pub proof fn law_transfer_is_published(
    r: Option<PruneOp>,
    out_note: Note,
    result: TransferResult,
    secret: Seq<u8>,
    ephemeral: Seq<u8>,
)
    requires
        publishes_transfer(r, out_note, result, x25519_public(secret), ephemeral),
        secret.len() == 32,
        x25519_public(ephemeral).len() == 32,
    ensures
        r is None <==> result.proof_hex is Some && !is_hex(result.proof_hex->0@),
        r matches Some(op) ==> {
            &&& op matches PruneOp::Transfer {
                rune_id,
                nullifier,
                out_commitment,
                anchor,
                fee,
                proof,
                encrypted_note,
            } && {
                &&& rune_id@ == out_note.rune_id@
                &&& nullifier@ == result.nullifier@
                &&& out_commitment@ == result.out_commitment@
                &&& anchor@ == result.anchor@
                &&& fee == result.circuit_fee
                &&& result.proof_hex matches Some(text) ==> proof@ == hex_bytes(text@)
                &&& result.proof_hex is None ==> proof@ == Seq::new(192, |i: int| 0u8)
                &&& encrypted_note@.len() == 120
                &&& encrypted_note@.take(32) == x25519_public(ephemeral)
                &&& opens(
                    encrypted_note@.take(32),
                    encrypted_note@.skip(32),
                    secret,
                    le_bytes(out_note.rune_id@, 32) + le_bytes(out_note.amount as nat, 8)
                        + le_bytes(out_note.blinding@, 32),
                )
            }
        },
{
    if let Some(op) = r {
        let blob = choose|blob: Seq<u8>|
            {
                &&& #[trigger] sealed_for(blob, out_note, x25519_public(secret), ephemeral)
                &&& proof_bytes_spec(result.proof_hex) is Some
                &&& op@ == (Operation::Transfer {
                    rune_id: out_note.rune_id@,
                    nullifier: result.nullifier@,
                    out_commitment: result.out_commitment@,
                    anchor: result.anchor@,
                    fee: result.circuit_fee as nat,
                    proof: proof_bytes_spec(result.proof_hex)->0,
                    encrypted_note: blob,
                })
            };
        assert(opened_by(
            blob,
            secret,
            plaintext_spec(out_note.rune_id@, out_note.amount as nat, out_note.blinding@),
        ));
        lemma_le_bytes_len(out_note.rune_id@, 32);
        lemma_le_bytes_len(out_note.amount as nat, 8);
        lemma_le_bytes_len(out_note.blinding@, 32);
        law_sealed_note_parts(
            out_note.rune_id@,
            out_note.amount as nat,
            out_note.blinding@,
            x25519_public(secret),
            ephemeral,
        );
        assert(blob.skip(32).len() == 88);
    }
}

/// Indexed data is read exactly where every commitment is an element, every note is digits, and every
/// nullifier is the digits of 32 bytes.
pub proof fn law_good_data_is_read(data: IndexedData)
    ensures
        indexed_data_error(data) is None <==> {
            &&& forall|i: int|
                0 <= i < data.commitments@.len() ==> element_error(
                    (#[trigger] data.commitments@[i]).commitment@,
                ) is None
            &&& forall|i: int|
                0 <= i < data.encrypted_notes@.len() ==> is_hex(
                    (#[trigger] data.encrypted_notes@[i]).data@,
                )
            &&& forall|i: int|
                0 <= i < data.nullifiers@.len() ==> is_hex((#[trigger] data.nullifiers@[i])@)
                    && hex_bytes(data.nullifiers@[i]@).len() == 32
        },
{
    lemma_commitments_read(data.commitments@);
    lemma_nullifiers_read(data.nullifiers@);
}

proof fn lemma_commitments_read(list: Seq<IndexedCommitment>)
    ensures
        match commitment_error(list) {
            None => forall|i: int|
                0 <= i < list.len() ==> element_error((#[trigger] list[i]).commitment@) is None,
            Some(e) => exists|i: int|
                {
                    &&& 0 <= i < list.len()
                    &&& element_error((#[trigger] list[i]).commitment@) matches Some(w) && e
                        == IndexedDataError::InvalidCommitment(w)
                    &&& forall|j: int|
                        0 <= j < i ==> element_error((#[trigger] list[j]).commitment@) is None
                },
        },
    decreases list.len(),
{
    if list.len() > 0 {
        let start = list.drop_last();
        lemma_commitments_read(start);
        match commitment_error(start) {
            None => {
                assert forall|i: int| 0 <= i < list.len() - 1 implies element_error(
                    (#[trigger] list[i]).commitment@,
                ) is None by {
                    assert(start[i] == list[i]);
                }
                let last = list.len() - 1;
                assert(list[last] == list.last());
            },
            Some(e) => {
                let i = choose|i: int|
                    {
                        &&& 0 <= i < start.len()
                        &&& element_error((#[trigger] start[i]).commitment@) matches Some(w) && e
                            == IndexedDataError::InvalidCommitment(w)
                        &&& forall|j: int|
                            0 <= j < i ==> element_error((#[trigger] start[j]).commitment@) is None
                    };
                assert(list[i] == start[i]);
                assert forall|j: int| 0 <= j < i implies element_error(
                    (#[trigger] list[j]).commitment@,
                ) is None by {
                    assert(start[j] == list[j]);
                }
            },
        }
    }
}

proof fn lemma_nullifiers_read(list: Seq<String>)
    ensures
        match nullifier_error(list) {
            None => forall|i: int|
                0 <= i < list.len() ==> is_hex((#[trigger] list[i])@) && hex_bytes(list[i]@).len()
                    == 32,
            Some(e) => exists|i: int|
                {
                    &&& 0 <= i < list.len()
                    &&& !is_hex((#[trigger] list[i])@) ==> e == IndexedDataError::InvalidNullifier
                    &&& is_hex(list[i]@) ==> hex_bytes(list[i]@).len() != 32 && e
                        == IndexedDataError::NullifierLength
                    &&& forall|j: int|
                        0 <= j < i ==> is_hex((#[trigger] list[j])@) && hex_bytes(list[j]@).len()
                            == 32
                },
        },
    decreases list.len(),
{
    if list.len() > 0 {
        let start = list.drop_last();
        lemma_nullifiers_read(start);
        match nullifier_error(start) {
            None => {
                assert forall|i: int| 0 <= i < list.len() - 1 implies is_hex((#[trigger] list[i])@)
                    && hex_bytes(list[i]@).len() == 32 by {
                    assert(start[i] == list[i]);
                }
                let last = list.len() - 1;
                assert(list[last] == list.last());
            },
            Some(e) => {
                let i = choose|i: int|
                    {
                        &&& 0 <= i < start.len()
                        &&& !is_hex((#[trigger] start[i])@) ==> e
                            == IndexedDataError::InvalidNullifier
                        &&& is_hex(start[i]@) ==> hex_bytes(start[i]@).len() != 32 && e
                            == IndexedDataError::NullifierLength
                        &&& forall|j: int|
                            0 <= j < i ==> is_hex((#[trigger] start[j])@) && hex_bytes(
                                start[j]@,
                            ).len() == 32
                    };
                assert(list[i] == start[i]);
                assert forall|j: int| 0 <= j < i implies is_hex((#[trigger] list[j])@)
                    && hex_bytes(list[j]@).len() == 32 by {
                    assert(start[j] == list[j]);
                }
            },
        }
    }
}

/// The first commitment that is no element is what is wrong, with its own error, before anything of
/// the notes or the nullifiers; then a note that is no digits; then the first nullifier.
pub proof fn law_first_fault_is_told(data: IndexedData, i: int)
    ensures
        0 <= i < data.commitments@.len() && element_error(data.commitments@[i].commitment@) is Some
            && (forall|j: int|
            0 <= j < i ==> element_error((#[trigger] data.commitments@[j]).commitment@) is None)
            ==> indexed_data_error(data) == Some(
            IndexedDataError::InvalidCommitment(
                element_error(data.commitments@[i].commitment@)->0,
            ),
        ),
        (forall|j: int|
            0 <= j < data.commitments@.len() ==> element_error(
                (#[trigger] data.commitments@[j]).commitment@,
            ) is None) && 0 <= i < data.encrypted_notes@.len() && !is_hex(
            data.encrypted_notes@[i].data@,
        ) ==> indexed_data_error(data) == Some(IndexedDataError::InvalidNote),
        (forall|j: int|
            0 <= j < data.commitments@.len() ==> element_error(
                (#[trigger] data.commitments@[j]).commitment@,
            ) is None) && (forall|j: int|
            0 <= j < data.encrypted_notes@.len() ==> is_hex(
                (#[trigger] data.encrypted_notes@[j]).data@,
            )) && 0 <= i < data.nullifiers@.len() && !(is_hex(data.nullifiers@[i]@) && hex_bytes(
            data.nullifiers@[i]@,
        ).len() == 32) && (forall|j: int|
            0 <= j < i ==> is_hex((#[trigger] data.nullifiers@[j])@) && hex_bytes(
                data.nullifiers@[j]@,
            ).len() == 32) ==> indexed_data_error(data) == Some(
            if is_hex(data.nullifiers@[i]@) {
                IndexedDataError::NullifierLength
            } else {
                IndexedDataError::InvalidNullifier
            },
        ),
{
    lemma_commitments_read(data.commitments@);
    lemma_nullifiers_read(data.nullifiers@);
    if 0 <= i < data.commitments@.len() && element_error(data.commitments@[i].commitment@) is Some
        && (forall|j: int|
        0 <= j < i ==> element_error((#[trigger] data.commitments@[j]).commitment@) is None) {
        let list = data.commitments@;
        assert(commitment_error(list) is Some);
        let e = commitment_error(list)->0;
        let k = choose|k: int|
            {
                &&& 0 <= k < list.len()
                &&& element_error((#[trigger] list[k]).commitment@) matches Some(w) && e
                    == IndexedDataError::InvalidCommitment(w)
                &&& forall|j: int|
                    0 <= j < k ==> element_error((#[trigger] list[j]).commitment@) is None
            };
        assert(element_error(list[k].commitment@) is Some);
        if k < i {
            assert(element_error(list[k].commitment@) is None);
        }
        if i < k {
            assert(element_error(list[i].commitment@) is None);
        }
    }
    if 0 <= i < data.nullifiers@.len() && !(is_hex(data.nullifiers@[i]@) && hex_bytes(
        data.nullifiers@[i]@,
    ).len() == 32) && (forall|j: int|
        0 <= j < i ==> is_hex((#[trigger] data.nullifiers@[j])@) && hex_bytes(
            data.nullifiers@[j]@,
        ).len() == 32) {
        let list = data.nullifiers@;
        assert(nullifier_error(list) is Some);
        let e = nullifier_error(list)->0;
        let k = choose|k: int|
            {
                &&& 0 <= k < list.len()
                &&& !is_hex((#[trigger] list[k])@) ==> e == IndexedDataError::InvalidNullifier
                &&& is_hex(list[k]@) ==> hex_bytes(list[k]@).len() != 32 && e
                    == IndexedDataError::NullifierLength
                &&& forall|j: int|
                    0 <= j < k ==> is_hex((#[trigger] list[j])@) && hex_bytes(list[j]@).len() == 32
            };
        if k < i {
            assert(is_hex(list[k]@) && hex_bytes(list[k]@).len() == 32);
        }
        if i < k {
            assert(is_hex(list[i]@) && hex_bytes(list[i]@).len() == 32);
        }
    }
}

/// What is read has every entry of the data, in order, at its place, with its bytes.
pub proof fn law_every_entry_is_read(parsed: ParsedData, data: IndexedData)
    requires
        parsed.is_read_from(data),
    ensures
        parsed.commitments@.len() == data.commitments@.len(),
        parsed.encrypted_notes@.len() == data.encrypted_notes@.len(),
        parsed.nullifiers@.len() == data.nullifiers@.len(),
        forall|i: int|
            0 <= i < data.commitments@.len() ==> {
                &&& (#[trigger] parsed.commitments@[i]).0 == data.commitments@[i].tree_index
                &&& parsed.commitments@[i].1@ == le_value(
                    hex_bytes(data.commitments@[i].commitment@).take(32),
                )
            },
        forall|i: int|
            0 <= i < data.encrypted_notes@.len() ==> {
                &&& (#[trigger] parsed.encrypted_notes@[i]).0 == data.encrypted_notes@[i].tree_index
                &&& parsed.encrypted_notes@[i].1@ == hex_bytes(data.encrypted_notes@[i].data@)
            },
        forall|i: int|
            0 <= i < data.nullifiers@.len() ==> (#[trigger] parsed.nullifiers@[i])@ == hex_bytes(
                data.nullifiers@[i]@,
            ),
{
}

} // verus!
