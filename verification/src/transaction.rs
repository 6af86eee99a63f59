//! Operations and the envelopes that carry them.
//!
//! An envelope is a block of a tapscript that is never executed:
//! `OP_FALSE OP_IF "prune" (tag value)* OP_ENDIF`, where every tag is a one-byte push and every
//! value a push. A reveal script puts a key and `OP_CHECKSIG` in front of it.
use vstd::prelude::*;

use crate::bytes::{
    bytes_equal, le_bytes, le_value, lemma_byte_range_8, lemma_le_bytes_len,
    lemma_le_value_of_bytes, u64_from_le_bytes, u64_to_le_bytes,
};
use crate::field::{decodes, law_compressed_round_trip, modulus, Fr};
use crate::script::{
    instructions, items_of, lemma_op_reads_back, lemma_push_reads_back, push_encoding, push_slice,
    script_items, Instruction, Item, OP_CHECKSIG, OP_ENDIF, OP_IF,
};

verus! {

/// The text `prune`, which every envelope starts with.
pub const PROTOCOL_ID: [u8; 5] = [0x70, 0x72, 0x75, 0x6e, 0x65];

/// Tag of the operation type.
pub const TAG_OP_TYPE: u8 = 0x01;

/// Tag of the Rune.
pub const TAG_RUNE_ID: u8 = 0x02;

/// Tag of the commitment to the new note.
pub const TAG_COMMITMENT: u8 = 0x03;

/// Tag of the nullifier of the spent note.
pub const TAG_NULLIFIER: u8 = 0x04;

/// Tag of the tree root that the spend is proved against.
pub const TAG_ANCHOR: u8 = 0x05;

/// Tag of the fee of a transfer or the amount of an unshield.
pub const TAG_FEE_OR_AMOUNT: u8 = 0x06;

/// Tag of the encrypted note.
pub const TAG_ENCRYPTED_NOTE: u8 = 0x07;

/// Tag of the proof.
pub const TAG_PROOF: u8 = 0x08;

/// Operation type of a shield.
pub const OP_SHIELD: u8 = 0x01;

/// Operation type of a transfer.
pub const OP_TRANSFER: u8 = 0x02;

/// Operation type of an unshield.
pub const OP_UNSHIELD: u8 = 0x03;

/// An operation.
#[derive(Clone, Debug)]
pub enum PruneOp {
    /// A public balance becomes a private note.
    Shield { rune_id: Fr, commitment: Fr, encrypted_note: Vec<u8> },
    /// A private note is spent and a new one created.
    Transfer {
        rune_id: Fr,
        nullifier: Fr,
        out_commitment: Fr,
        anchor: Fr,
        fee: u64,
        proof: Vec<u8>,
        encrypted_note: Vec<u8>,
    },
    /// A private note becomes a public balance.
    Unshield {
        rune_id: Fr,
        nullifier: Fr,
        out_commitment: Fr,
        anchor: Fr,
        amount: u64,
        proof: Vec<u8>,
    },
}

/// What an operation says.
#[verifier::ext_equal]
pub enum Operation {
    Shield { rune_id: nat, commitment: nat, encrypted_note: Seq<u8> },
    Transfer {
        rune_id: nat,
        nullifier: nat,
        out_commitment: nat,
        anchor: nat,
        fee: nat,
        proof: Seq<u8>,
        encrypted_note: Seq<u8>,
    },
    Unshield {
        rune_id: nat,
        nullifier: nat,
        out_commitment: nat,
        anchor: nat,
        amount: nat,
        proof: Seq<u8>,
    },
}

impl View for PruneOp {
    type V = Operation;

    open spec fn view(&self) -> Operation {
        match self {
            PruneOp::Shield { rune_id, commitment, encrypted_note } => Operation::Shield {
                rune_id: rune_id@,
                commitment: commitment@,
                encrypted_note: encrypted_note@,
            },
            PruneOp::Transfer {
                rune_id,
                nullifier,
                out_commitment,
                anchor,
                fee,
                proof,
                encrypted_note,
            } => Operation::Transfer {
                rune_id: rune_id@,
                nullifier: nullifier@,
                out_commitment: out_commitment@,
                anchor: anchor@,
                fee: *fee as nat,
                proof: proof@,
                encrypted_note: encrypted_note@,
            },
            PruneOp::Unshield { rune_id, nullifier, out_commitment, anchor, amount, proof } =>
                Operation::Unshield {
                rune_id: rune_id@,
                nullifier: nullifier@,
                out_commitment: out_commitment@,
                anchor: anchor@,
                amount: *amount as nat,
                proof: proof@,
            },
        }
    }
}

impl Operation {
    /// Whether every byte string of the operation is short enough to be pushed.
    pub open spec fn pushable(self) -> bool {
        match self {
            Operation::Shield { encrypted_note, .. } => encrypted_note.len() < 0x1_0000_0000,
            Operation::Transfer { proof, encrypted_note, .. } => proof.len() < 0x1_0000_0000
                && encrypted_note.len() < 0x1_0000_0000,
            Operation::Unshield { proof, .. } => proof.len() < 0x1_0000_0000,
        }
    }

    /// Whether the numbers of the operation are field elements and 64-bit amounts.
    pub open spec fn in_range(self) -> bool {
        match self {
            Operation::Shield { rune_id, commitment, .. } => rune_id < modulus() && commitment
                < modulus(),
            Operation::Transfer { rune_id, nullifier, out_commitment, anchor, fee, .. } => {
                &&& rune_id < modulus()
                &&& nullifier < modulus()
                &&& out_commitment < modulus()
                &&& anchor < modulus()
                &&& fee <= u64::MAX
            },
            Operation::Unshield { rune_id, nullifier, out_commitment, anchor, amount, .. } => {
                &&& rune_id < modulus()
                &&& nullifier < modulus()
                &&& out_commitment < modulus()
                &&& anchor < modulus()
                &&& amount <= u64::MAX
            },
        }
    }

    /// The tags and values of the operation, in the order in which they are written.
    pub open spec fn fields(self) -> Seq<(u8, Seq<u8>)> {
        match self {
            Operation::Shield { rune_id, commitment, encrypted_note } => seq![
                (TAG_OP_TYPE, seq![OP_SHIELD]),
                (TAG_RUNE_ID, le_bytes(rune_id, 32)),
                (TAG_COMMITMENT, le_bytes(commitment, 32)),
                (TAG_ENCRYPTED_NOTE, encrypted_note),
            ],
            Operation::Transfer {
                rune_id,
                nullifier,
                out_commitment,
                anchor,
                fee,
                proof,
                encrypted_note,
            } => seq![
                (TAG_OP_TYPE, seq![OP_TRANSFER]),
                (TAG_RUNE_ID, le_bytes(rune_id, 32)),
                (TAG_NULLIFIER, le_bytes(nullifier, 32)),
                (TAG_COMMITMENT, le_bytes(out_commitment, 32)),
                (TAG_ANCHOR, le_bytes(anchor, 32)),
                (TAG_FEE_OR_AMOUNT, le_bytes(fee, 8)),
                (TAG_PROOF, proof),
                (TAG_ENCRYPTED_NOTE, encrypted_note),
            ],
            Operation::Unshield { rune_id, nullifier, out_commitment, anchor, amount, proof } => seq![
                (TAG_OP_TYPE, seq![OP_UNSHIELD]),
                (TAG_RUNE_ID, le_bytes(rune_id, 32)),
                (TAG_NULLIFIER, le_bytes(nullifier, 32)),
                (TAG_COMMITMENT, le_bytes(out_commitment, 32)),
                (TAG_ANCHOR, le_bytes(anchor, 32)),
                (TAG_FEE_OR_AMOUNT, le_bytes(amount, 8)),
                (TAG_PROOF, proof),
            ],
        }
    }

    /// The envelope of the operation.
    pub open spec fn envelope_script(self) -> Seq<u8> {
        seq![0u8] + (seq![OP_IF] + (push_encoding(PROTOCOL_ID@) + (encode_fields(self.fields())
            + seq![OP_ENDIF])))
    }

    /// The envelope behind a key and a signature check.
    pub open spec fn reveal_script(self, internal_key: Seq<u8>) -> Seq<u8> {
        push_encoding(internal_key) + (seq![OP_CHECKSIG] + self.envelope_script())
    }
}

/// A tag and its value, as two pushes.
pub open spec fn encode_field(field: (u8, Seq<u8>)) -> Seq<u8> {
    push_encoding(seq![field.0]) + push_encoding(field.1)
}

/// Tags and values, one after the other.
pub open spec fn encode_fields(fields: Seq<(u8, Seq<u8>)>) -> Seq<u8>
    decreases fields.len(),
{
    if fields.len() == 0 {
        Seq::empty()
    } else {
        encode_field(fields[0]) + encode_fields(fields.skip(1))
    }
}

/// Whether an item pushes nothing but an empty string.
pub open spec fn is_op_false(item: Item) -> bool {
    item == Item::Push(Seq::empty()) || item == Item::Op(0)
}

/// Whether the items start with the opening of an envelope.
pub open spec fn opens_envelope(items: Seq<Item>) -> bool {
    &&& items.len() >= 3
    &&& is_op_false(items[0])
    &&& items[1] == Item::Op(OP_IF)
    &&& items[2] == Item::Push(PROTOCOL_ID@)
}

/// What follows the first opening of an envelope.
pub open spec fn after_opening(items: Seq<Item>) -> Option<Seq<Item>>
    decreases items.len(),
{
    if items.len() == 0 {
        None
    } else if opens_envelope(items) {
        Some(items.skip(3))
    } else {
        after_opening(items.skip(1))
    }
}

/// The values by tag, up to the end of the envelope. A tag is a push of one byte; what follows it is
/// its value if it is a push, ends the envelope if it is its end, and is passed over otherwise. Other
/// items are passed over. Of two values with one tag the last counts. Nothing where the envelope has
/// no end.
pub open spec fn read_fields(items: Seq<Item>, fields: Map<u8, Seq<u8>>) -> Option<
    Map<u8, Seq<u8>>,
>
    decreases items.len(),
{
    if items.len() == 0 {
        None
    } else if items[0] == Item::Op(OP_ENDIF) {
        Some(fields)
    } else if is_tag(items[0]) && items.len() > 1 && items[1] is Push {
        read_fields(items.skip(2), fields.insert(items[0]->Push_0[0], items[1]->Push_0))
    } else if is_tag(items[0]) && items.len() > 1 && items[1] != Item::Op(OP_ENDIF) {
        read_fields(items.skip(2), fields)
    } else {
        read_fields(items.skip(1), fields)
    }
}

/// Whether an item is a tag.
pub open spec fn is_tag(item: Item) -> bool {
    item is Push && item->Push_0.len() == 1
}

/// The field element with the given tag.
pub open spec fn element_field(fields: Map<u8, Seq<u8>>, tag: u8) -> Option<nat> {
    if fields.contains_key(tag) && decodes(fields[tag]) {
        Some(le_value(fields[tag].take(32)))
    } else {
        None
    }
}

/// The fee or amount.
pub open spec fn amount_field(fields: Map<u8, Seq<u8>>) -> Option<nat> {
    if fields.contains_key(TAG_FEE_OR_AMOUNT) && fields[TAG_FEE_OR_AMOUNT].len() == 8 {
        Some(le_value(fields[TAG_FEE_OR_AMOUNT]))
    } else {
        None
    }
}

/// The byte string with the given tag, empty where there is none.
pub open spec fn bytes_field(fields: Map<u8, Seq<u8>>, tag: u8) -> Seq<u8> {
    if fields.contains_key(tag) {
        fields[tag]
    } else {
        Seq::empty()
    }
}

/// The operation that the values describe, where they describe one.
pub open spec fn assemble(fields: Map<u8, Seq<u8>>) -> Option<Operation> {
    let rune_id = element_field(fields, TAG_RUNE_ID);
    let commitment = element_field(fields, TAG_COMMITMENT);
    let nullifier = element_field(fields, TAG_NULLIFIER);
    let anchor = element_field(fields, TAG_ANCHOR);
    let amount = amount_field(fields);
    let op_type = bytes_field(fields, TAG_OP_TYPE);
    if op_type.len() == 0 || rune_id is None || commitment is None {
        None
    } else if op_type[0] == OP_SHIELD {
        Some(
            Operation::Shield {
                rune_id: rune_id->0,
                commitment: commitment->0,
                encrypted_note: bytes_field(fields, TAG_ENCRYPTED_NOTE),
            },
        )
    } else if nullifier is None || anchor is None || amount is None {
        None
    } else if op_type[0] == OP_TRANSFER {
        Some(
            Operation::Transfer {
                rune_id: rune_id->0,
                nullifier: nullifier->0,
                out_commitment: commitment->0,
                anchor: anchor->0,
                fee: amount->0,
                proof: bytes_field(fields, TAG_PROOF),
                encrypted_note: bytes_field(fields, TAG_ENCRYPTED_NOTE),
            },
        )
    } else if op_type[0] == OP_UNSHIELD {
        Some(
            Operation::Unshield {
                rune_id: rune_id->0,
                nullifier: nullifier->0,
                out_commitment: commitment->0,
                anchor: anchor->0,
                amount: amount->0,
                proof: bytes_field(fields, TAG_PROOF),
            },
        )
    } else {
        None
    }
}

/// The operation in the first envelope of a sequence of items.
pub open spec fn parse_items(items: Seq<Item>) -> Option<Operation> {
    match after_opening(items) {
        Some(body) => match read_fields(body, Map::empty()) {
            Some(fields) => assemble(fields),
            None => None,
        },
        None => None,
    }
}

/// The operation in the first envelope of a script.
pub open spec fn parse_script(script: Seq<u8>) -> Option<Operation> {
    parse_items(script_items(script))
}

/// The compressed form of a field element.
pub fn fr_to_bytes(f: Fr) -> (bytes: Vec<u8>)
    ensures
        bytes@ == le_bytes(f@, 32),
        bytes@.len() == 32,
{
    f.serialize_compressed()
}

/// Reads a field element from the first 32 bytes.
pub fn fr_from_bytes(bytes: &[u8]) -> (r: Option<Fr>)
    ensures
        r is Some <==> decodes(bytes@),
        r matches Some(f) ==> f@ == le_value(bytes@.take(32)),
{
    Fr::deserialize_compressed(bytes)
}

/// The views of tags and values.
spec fn field_views(fields: Seq<(u8, Vec<u8>)>) -> Seq<(u8, Seq<u8>)> {
    Seq::new(fields.len(), |i: int| (fields[i].0, fields[i].1@))
}

impl PruneOp {
    /// The tags and values of the operation.
    fn fields(&self) -> (fields: Vec<(u8, Vec<u8>)>)
        ensures
            field_views(fields@) == self@.fields(),
    {
        match self {
            PruneOp::Shield { rune_id, commitment, encrypted_note } => {
                let fields: Vec<(u8, Vec<u8>)> = vec![
                    (TAG_OP_TYPE, vec![OP_SHIELD]),
                    (TAG_RUNE_ID, fr_to_bytes(*rune_id)),
                    (TAG_COMMITMENT, fr_to_bytes(*commitment)),
                    (TAG_ENCRYPTED_NOTE, encrypted_note.clone()),
                ];
                proof {
                    assert(fields@[0].1@ =~= seq![OP_SHIELD]);
                    assert(fields@[3].1@ =~= encrypted_note@);
                    assert(field_views(fields@) =~= self@.fields());
                }
                fields
            },
            PruneOp::Transfer {
                rune_id,
                nullifier,
                out_commitment,
                anchor,
                fee,
                proof,
                encrypted_note,
            } => {
                let fields: Vec<(u8, Vec<u8>)> = vec![
                    (TAG_OP_TYPE, vec![OP_TRANSFER]),
                    (TAG_RUNE_ID, fr_to_bytes(*rune_id)),
                    (TAG_NULLIFIER, fr_to_bytes(*nullifier)),
                    (TAG_COMMITMENT, fr_to_bytes(*out_commitment)),
                    (TAG_ANCHOR, fr_to_bytes(*anchor)),
                    (TAG_FEE_OR_AMOUNT, u64_to_le_bytes(*fee)),
                    (TAG_PROOF, proof.clone()),
                    (TAG_ENCRYPTED_NOTE, encrypted_note.clone()),
                ];
                proof {
                    assert(fields@[0].1@ =~= seq![OP_TRANSFER]);
                    assert(fields@[6].1@ =~= proof@);
                    assert(fields@[7].1@ =~= encrypted_note@);
                    assert(field_views(fields@) =~= self@.fields());
                }
                fields
            },
            PruneOp::Unshield { rune_id, nullifier, out_commitment, anchor, amount, proof } => {
                let fields: Vec<(u8, Vec<u8>)> = vec![
                    (TAG_OP_TYPE, vec![OP_UNSHIELD]),
                    (TAG_RUNE_ID, fr_to_bytes(*rune_id)),
                    (TAG_NULLIFIER, fr_to_bytes(*nullifier)),
                    (TAG_COMMITMENT, fr_to_bytes(*out_commitment)),
                    (TAG_ANCHOR, fr_to_bytes(*anchor)),
                    (TAG_FEE_OR_AMOUNT, u64_to_le_bytes(*amount)),
                    (TAG_PROOF, proof.clone()),
                ];
                proof {
                    assert(fields@[0].1@ =~= seq![OP_UNSHIELD]);
                    assert(fields@[6].1@ =~= proof@);
                    assert(field_views(fields@) =~= self@.fields());
                }
                fields
            },
        }
    }

    /// Appends the envelope of the operation to a script.
    fn write_envelope(&self, script: &mut Vec<u8>)
        requires
            self@.pushable(),
        ensures
            final(script)@ == old(script)@ + self@.envelope_script(),
    {
        let fields = self.fields();
        let ghost all = self@.fields();
        let ghost start = script@;
        script.push(0);
        script.push(OP_IF);
        push_slice(script, PROTOCOL_ID.as_slice());
        let ghost opened = script@;
        let mut i: usize = 0;
        proof {
            assert(all.skip(0) =~= all);
            lemma_pushable_fields(self@);
        }
        while i < fields.len()
            invariant
                i <= fields@.len(),
                field_views(fields@) == all,
                forall|k: int| 0 <= k < all.len() ==> (#[trigger] all[k]).1.len() < 0x1_0000_0000,
                script@ + encode_fields(all.skip(i as int)) == opened + encode_fields(all),
            decreases fields@.len() - i,
        {
            let ghost before = script@;
            let ghost rest = all.skip(i as int);
            assert(all[i as int] == (fields@[i as int].0, fields@[i as int].1@));
            let tag = vec![fields[i].0];
            push_slice(script, tag.as_slice());
            push_slice(script, fields[i].1.as_slice());
            proof {
                assert(tag@ =~= seq![all[i as int].0]);
                assert(rest.skip(1) =~= all.skip(i + 1));
                assert(script@ =~= before + encode_field(rest[0]));
                assert(script@ + encode_fields(rest.skip(1)) =~= before + (encode_field(rest[0])
                    + encode_fields(rest.skip(1))));
            }
            i = i + 1;
        }
        proof {
            assert(script@ + Seq::<u8>::empty() =~= script@);
            assert(script@ == opened + encode_fields(all));
        }
        script.push(OP_ENDIF);
        proof {
            assert(script@ =~= start + self@.envelope_script());
        }
    }

    /// Whether every part of the operation can be pushed by a script.
    pub fn is_pushable(&self) -> (r: bool)
        ensures
            r == self@.pushable(),
    {
        match self {
            PruneOp::Shield { encrypted_note, .. } => (encrypted_note.len() as u64)
                < 0x1_0000_0000,
            PruneOp::Transfer { proof, encrypted_note, .. } => (proof.len() as u64)
                < 0x1_0000_0000 && (encrypted_note.len() as u64) < 0x1_0000_0000,
            PruneOp::Unshield { proof, .. } => (proof.len() as u64) < 0x1_0000_0000,
        }
    }

    /// The envelope of the operation.
    pub fn to_envelope_script(&self) -> (script: Vec<u8>)
        requires
            self@.pushable(),
        ensures
            script@ == self@.envelope_script(),
    {
        let mut script: Vec<u8> = Vec::new();
        self.write_envelope(&mut script);
        assert(script@ =~= self@.envelope_script());
        script
    }

    /// The tapscript that reveals the operation: the 32-byte key that signs the reveal, a signature
    /// check, and the envelope.
    pub fn to_reveal_script(&self, internal_key: &[u8; 32]) -> (script: Vec<u8>)
        requires
            self@.pushable(),
        ensures
            script@ == self@.reveal_script(internal_key@),
    {
        let mut script: Vec<u8> = Vec::new();
        push_slice(&mut script, internal_key.as_slice());
        script.push(OP_CHECKSIG);
        self.write_envelope(&mut script);
        assert(script@ =~= self@.reveal_script(internal_key@));
        script
    }
}

proof fn lemma_pushable_fields(op: Operation)
    requires
        op.pushable(),
    ensures
        forall|k: int|
            0 <= k < op.fields().len() ==> (#[trigger] op.fields()[k]).1.len() < 0x1_0000_0000,
{
    assert forall|n: nat| (#[trigger] le_bytes(n, 32)).len() == 32 by {
        lemma_le_bytes_len(n, 32);
    }
    assert forall|n: nat| (#[trigger] le_bytes(n, 8)).len() == 8 by {
        lemma_le_bytes_len(n, 8);
    }
}

/// The values that have been read, by tag.
struct Fields {
    op_type: Option<Vec<u8>>,
    rune_id: Option<Vec<u8>>,
    commitment: Option<Vec<u8>>,
    nullifier: Option<Vec<u8>>,
    anchor: Option<Vec<u8>>,
    fee_or_amount: Option<Vec<u8>>,
    encrypted_note: Option<Vec<u8>>,
    proof: Option<Vec<u8>>,
}

/// Whether a slot holds the value with the given tag.
spec fn holds(slot: Option<Vec<u8>>, fields: Map<u8, Seq<u8>>, tag: u8) -> bool {
    match slot {
        Some(value) => fields.contains_key(tag) && fields[tag] == value@,
        None => !fields.contains_key(tag),
    }
}

impl Fields {
    /// Whether the slots hold the values with the known tags.
    spec fn agrees(self, fields: Map<u8, Seq<u8>>) -> bool {
        &&& holds(self.op_type, fields, TAG_OP_TYPE)
        &&& holds(self.rune_id, fields, TAG_RUNE_ID)
        &&& holds(self.commitment, fields, TAG_COMMITMENT)
        &&& holds(self.nullifier, fields, TAG_NULLIFIER)
        &&& holds(self.anchor, fields, TAG_ANCHOR)
        &&& holds(self.fee_or_amount, fields, TAG_FEE_OR_AMOUNT)
        &&& holds(self.encrypted_note, fields, TAG_ENCRYPTED_NOTE)
        &&& holds(self.proof, fields, TAG_PROOF)
    }

    /// Sets the value with the given tag. Unknown tags are passed over.
    fn set(&mut self, tag: u8, value: Vec<u8>)
        ensures
            forall|fields: Map<u8, Seq<u8>>| #[trigger]
                old(self).agrees(fields) ==> final(self).agrees(fields.insert(tag, value@)),
    {
        if tag == TAG_OP_TYPE {
            self.op_type = Some(value);
        } else if tag == TAG_RUNE_ID {
            self.rune_id = Some(value);
        } else if tag == TAG_COMMITMENT {
            self.commitment = Some(value);
        } else if tag == TAG_NULLIFIER {
            self.nullifier = Some(value);
        } else if tag == TAG_ANCHOR {
            self.anchor = Some(value);
        } else if tag == TAG_FEE_OR_AMOUNT {
            self.fee_or_amount = Some(value);
        } else if tag == TAG_ENCRYPTED_NOTE {
            self.encrypted_note = Some(value);
        } else if tag == TAG_PROOF {
            self.proof = Some(value);
        }
    }

    /// The operation that the values describe.
    fn assemble(self) -> (r: Option<PruneOp>)
        ensures
            forall|fields: Map<u8, Seq<u8>>| #[trigger]
                self.agrees(fields) ==> assemble(fields) == (match r {
                    Some(op) => Some(op@),
                    None => None,
                }),
    {
        let op_bytes = match self.op_type {
            Some(value) => value,
            None => {
                return None;
            },
        };
        if op_bytes.len() == 0 {
            return None;
        }
        let op: u8 = op_bytes[0];
        let rune_id = match optional_element(&self.rune_id) {
            Some(f) => f,
            None => {
                return None;
            },
        };
        let commitment = match optional_element(&self.commitment) {
            Some(f) => f,
            None => {
                return None;
            },
        };
        if op == OP_SHIELD {
            return Some(
                PruneOp::Shield {
                    rune_id,
                    commitment,
                    encrypted_note: unwrap_or_empty(self.encrypted_note),
                },
            );
        }
        let nullifier = match optional_element(&self.nullifier) {
            Some(f) => f,
            None => {
                return None;
            },
        };
        let anchor = match optional_element(&self.anchor) {
            Some(f) => f,
            None => {
                return None;
            },
        };
        let amount: u64 = match &self.fee_or_amount {
            Some(value) => {
                if value.len() != 8 {
                    return None;
                }
                u64_from_le_bytes(value.as_slice())
            },
            None => {
                return None;
            },
        };
        if op == OP_TRANSFER {
            Some(
                PruneOp::Transfer {
                    rune_id,
                    nullifier,
                    out_commitment: commitment,
                    anchor,
                    fee: amount,
                    proof: unwrap_or_empty(self.proof),
                    encrypted_note: unwrap_or_empty(self.encrypted_note),
                },
            )
        } else if op == OP_UNSHIELD {
            Some(
                PruneOp::Unshield {
                    rune_id,
                    nullifier,
                    out_commitment: commitment,
                    anchor,
                    amount,
                    proof: unwrap_or_empty(self.proof),
                },
            )
        } else {
            None
        }
    }
}

/// The field element in a slot.
fn optional_element(slot: &Option<Vec<u8>>) -> (r: Option<Fr>)
    ensures
        r is Some <==> (slot is Some && decodes(slot->0@)),
        r matches Some(f) ==> f@ == le_value(slot->0@.take(32)),
{
    match slot {
        Some(value) => fr_from_bytes(value.as_slice()),
        None => None,
    }
}

/// The bytes in a slot, none where it is empty.
fn unwrap_or_empty(slot: Option<Vec<u8>>) -> (bytes: Vec<u8>)
    ensures
        slot matches Some(value) ==> bytes == value,
        slot is None ==> bytes@ == Seq::<u8>::empty(),
{
    match slot {
        Some(value) => value,
        None => Vec::new(),
    }
}

/// Whether an instruction pushes exactly the given bytes.
fn pushes(instruction: &Instruction, data: &[u8]) -> (r: bool)
    ensures
        r == (instruction@ == Item::Push(data@)),
{
    match instruction {
        Instruction::PushBytes(bytes) => bytes_equal(bytes.as_slice(), data),
        _ => false,
    }
}

/// Whether an instruction is the given opcode.
fn is_op(instruction: &Instruction, op: u8) -> (r: bool)
    ensures
        r == (instruction@ == Item::Op(op)),
{
    match instruction {
        Instruction::Op(o) => *o == op,
        _ => false,
    }
}

/// The place after the first opening of an envelope.
fn find_opening(all: &Vec<Instruction>) -> (r: Option<usize>)
    ensures
        match r {
            Some(i) => i <= all@.len() && after_opening(items_of(all@)) == Some(
                items_of(all@).skip(i as int),
            ),
            None => after_opening(items_of(all@)) is None,
        },
{
    let ghost items = items_of(all@);
    let empty: Vec<u8> = Vec::new();
    let n: usize = all.len();
    let mut i: usize = 0;
    assert(items.skip(0) =~= items);
    while i < n
        invariant
            i <= n,
            n == all@.len(),
            items == items_of(all@),
            empty@ == Seq::<u8>::empty(),
            after_opening(items) == after_opening(items.skip(i as int)),
        decreases n - i,
    {
        let ghost rest = items.skip(i as int);
        if n - i >= 3 {
            let false_first = pushes(&all[i], empty.as_slice()) || is_op(&all[i], 0);
            if false_first && is_op(&all[i + 1], OP_IF) && pushes(
                &all[i + 2],
                PROTOCOL_ID.as_slice(),
            ) {
                assert(opens_envelope(rest));
                assert(rest.skip(3) =~= items.skip(i + 3));
                return Some(i + 3);
            }
            assert(rest[0] == all@[i as int]@ && rest[1] == all@[i + 1]@ && rest[2] == all@[i
                + 2]@);
        }
        assert(!opens_envelope(rest));
        assert(rest.skip(1) =~= items.skip(i + 1));
        i = i + 1;
    }
    None
}

/// Reads the operation in the first envelope of a tapscript.
pub fn parse_envelope(script: &[u8]) -> (r: Option<PruneOp>)
    ensures
        parse_script(script@) == (match r {
            Some(op) => Some(op@),
            None => None,
        }),
{
    let all = instructions(script);
    let ghost items = items_of(all@);
    let n: usize = all.len();
    let start: usize = match find_opening(&all) {
        Some(i) => i,
        None => {
            return None;
        },
    };
    let mut fields = Fields {
        op_type: None,
        rune_id: None,
        commitment: None,
        nullifier: None,
        anchor: None,
        fee_or_amount: None,
        encrypted_note: None,
        proof: None,
    };
    let ghost mut read: Map<u8, Seq<u8>> = Map::empty();
    let ghost total = read_fields(items.skip(start as int), read);
    let mut i: usize = start;
    let mut open = true;
    while i < n && open
        invariant
            start <= i <= n,
            n == all@.len(),
            items == items_of(all@),
            fields.agrees(read),
            open ==> total == read_fields(items.skip(i as int), read),
            !open ==> total == Some(read),
        decreases n - i + (if open { 1int } else { 0int }),
    {
        let ghost rest = items.skip(i as int);
        assert(rest[0] == all@[i as int]@);
        if is_op(&all[i], OP_ENDIF) {
            open = false;
        } else {
            match &all[i] {
                Instruction::PushBytes(tag_data) => {
                    if tag_data.len() == 1 {
                        if i + 1 < n {
                            assert(rest[1] == all@[i + 1]@);
                            assert(rest.skip(1) =~= items.skip(i + 1));
                            assert(rest.skip(2) =~= items.skip(i + 2));
                            match &all[i + 1] {
                                Instruction::PushBytes(value) => {
                                    let value = value.clone();
                                    fields.set(tag_data[0], value);
                                    proof {
                                        read = read.insert(tag_data@[0], value@);
                                    }
                                    i = i + 2;
                                },
                                _ => {
                                    if is_op(&all[i + 1], OP_ENDIF) {
                                        i = i + 1;
                                    } else {
                                        i = i + 2;
                                    }
                                },
                            }
                        } else {
                            assert(rest.skip(1) =~= items.skip(i + 1));
                            i = i + 1;
                        }
                    } else {
                        assert(rest.skip(1) =~= items.skip(i + 1));
                        i = i + 1;
                    }
                },
                _ => {
                    assert(rest.skip(1) =~= items.skip(i + 1));
                    i = i + 1;
                },
            }
        }
    }
    if open {
        assert(items.skip(i as int).len() == 0);
        return None;
    }
    fields.assemble()
}

/// The items of tags and values.
spec fn field_items(fields: Seq<(u8, Seq<u8>)>) -> Seq<Item>
    decreases fields.len(),
{
    if fields.len() == 0 {
        Seq::empty()
    } else {
        seq![Item::Push(seq![fields[0].0]), Item::Push(fields[0].1)] + field_items(fields.skip(1))
    }
}

/// The values by tag, each tag's last value counting.
spec fn insert_all(fields: Seq<(u8, Seq<u8>)>, map: Map<u8, Seq<u8>>) -> Map<u8, Seq<u8>>
    decreases fields.len(),
{
    if fields.len() == 0 {
        map
    } else {
        insert_all(fields.skip(1), map.insert(fields[0].0, fields[0].1))
    }
}

proof fn lemma_fields_read_back(fields: Seq<(u8, Seq<u8>)>, rest: Seq<u8>)
    requires
        forall|k: int| 0 <= k < fields.len() ==> (#[trigger] fields[k]).1.len() < 0x1_0000_0000,
    ensures
        script_items(encode_fields(fields) + rest) == field_items(fields) + script_items(rest),
    decreases fields.len(),
{
    if fields.len() == 0 {
        assert(encode_fields(fields) + rest =~= rest);
        assert(field_items(fields) + script_items(rest) =~= script_items(rest));
    } else {
        let tail = encode_fields(fields.skip(1)) + rest;
        let tag = seq![fields[0].0];
        let value = fields[0].1;
        lemma_fields_read_back(fields.skip(1), rest);
        lemma_push_reads_back(value, tail);
        lemma_push_reads_back(tag, push_encoding(value) + tail);
        assert(encode_fields(fields) + rest =~= push_encoding(tag) + (push_encoding(value) + tail));
        assert(field_items(fields) + script_items(rest) =~= seq![Item::Push(tag)] + (seq![
            Item::Push(value),
        ] + (field_items(fields.skip(1)) + script_items(rest))));
    }
}

proof fn lemma_read_fields_of_items(
    fields: Seq<(u8, Seq<u8>)>,
    rest: Seq<Item>,
    map: Map<u8, Seq<u8>>,
)
    requires
        rest.len() > 0,
        rest[0] == Item::Op(OP_ENDIF),
    ensures
        read_fields(field_items(fields) + rest, map) == Some(insert_all(fields, map)),
    decreases fields.len(),
{
    let items = field_items(fields) + rest;
    if fields.len() == 0 {
        assert(items =~= rest);
    } else {
        assert(items[0] == Item::Push(seq![fields[0].0]));
        assert(items[1] == Item::Push(fields[0].1));
        assert(items.skip(2) =~= field_items(fields.skip(1)) + rest);
        lemma_read_fields_of_items(fields.skip(1), rest, map.insert(fields[0].0, fields[0].1));
    }
}

#[verifier::rlimit(40)]
proof fn lemma_assemble_fields(op: Operation)
    requires
        op.in_range(),
    ensures
        assemble(insert_all(op.fields(), Map::empty())) == Some(op),
{
    let all = op.fields();
    reveal_with_fuel(insert_all, 9);
    assert forall|x: nat| x < modulus() implies decodes(#[trigger] le_bytes(x, 32)) && le_value(
        le_bytes(x, 32).take(32),
    ) == x by {
        law_compressed_round_trip(x, Seq::empty());
        assert(le_bytes(x, 32) + Seq::<u8>::empty() =~= le_bytes(x, 32));
    }
    assert forall|x: nat| x <= u64::MAX implies (#[trigger] le_bytes(x, 8)).len() == 8 && le_value(
        le_bytes(x, 8),
    ) == x by {
        lemma_byte_range_8();
        lemma_le_value_of_bytes(x, 8);
    }
    let map = insert_all(all, Map::empty());
    match op {
        Operation::Shield { rune_id, commitment, encrypted_note } => {
            assert(map =~= Map::<u8, Seq<u8>>::empty().insert(all[0].0, all[0].1).insert(
                all[1].0,
                all[1].1,
            ).insert(all[2].0, all[2].1).insert(all[3].0, all[3].1));
        },
        Operation::Transfer { .. } => {
            assert(map =~= Map::<u8, Seq<u8>>::empty().insert(all[0].0, all[0].1).insert(
                all[1].0,
                all[1].1,
            ).insert(all[2].0, all[2].1).insert(all[3].0, all[3].1).insert(
                all[4].0,
                all[4].1,
            ).insert(all[5].0, all[5].1).insert(all[6].0, all[6].1).insert(all[7].0, all[7].1));
        },
        Operation::Unshield { .. } => {
            assert(map =~= Map::<u8, Seq<u8>>::empty().insert(all[0].0, all[0].1).insert(
                all[1].0,
                all[1].1,
            ).insert(all[2].0, all[2].1).insert(all[3].0, all[3].1).insert(
                all[4].0,
                all[4].1,
            ).insert(all[5].0, all[5].1).insert(all[6].0, all[6].1));
        },
    }
}

proof fn lemma_envelope_items(op: Operation)
    requires
        op.pushable(),
    ensures
        ({
            let items = script_items(op.envelope_script());
            &&& opens_envelope(items)
            &&& items.skip(3) == field_items(op.fields()) + seq![Item::Op(OP_ENDIF)]
        }),
{
    let end = seq![OP_ENDIF];
    let body = encode_fields(op.fields()) + end;
    let named = push_encoding(PROTOCOL_ID@) + body;
    let guarded = seq![OP_IF] + named;
    lemma_pushable_fields(op);
    lemma_fields_read_back(op.fields(), end);
    lemma_push_reads_back(PROTOCOL_ID@, body);
    lemma_op_reads_back(OP_IF, named);
    let empty = Seq::<u8>::empty();
    lemma_push_reads_back(empty, guarded);
    assert(push_encoding(empty) =~= seq![0u8]);
    assert(op.envelope_script() =~= push_encoding(empty) + guarded);
    assert(end =~= seq![OP_ENDIF] + empty);
    lemma_op_reads_back(OP_ENDIF, empty);
    assert(script_items(end) =~= seq![Item::Op(OP_ENDIF)]);
    let items = script_items(op.envelope_script());
    assert(items =~= seq![Item::Push(empty), Item::Op(OP_IF), Item::Push(PROTOCOL_ID@)] + (
    field_items(op.fields()) + seq![Item::Op(OP_ENDIF)]));
    assert(items.skip(3) =~= field_items(op.fields()) + seq![Item::Op(OP_ENDIF)]);
}

/// Parsing the envelope of an operation gives the operation.
pub proof fn law_envelope_round_trip(op: Operation)
    requires
        op.pushable(),
        op.in_range(),
    ensures
        parse_script(op.envelope_script()) == Some(op),
{
    lemma_envelope_items(op);
    lemma_read_fields_of_items(op.fields(), seq![Item::Op(OP_ENDIF)], Map::empty());
    lemma_assemble_fields(op);
}

/// Parsing the reveal script of an operation gives the operation, whatever key signs the reveal.
pub proof fn law_reveal_round_trip(op: Operation, internal_key: Seq<u8>)
    requires
        op.pushable(),
        op.in_range(),
        internal_key.len() == 32,
    ensures
        parse_script(op.reveal_script(internal_key)) == Some(op),
{
    let envelope = op.envelope_script();
    let checked = seq![OP_CHECKSIG] + envelope;
    lemma_push_reads_back(internal_key, checked);
    lemma_op_reads_back(OP_CHECKSIG, envelope);
    let items = script_items(op.reveal_script(internal_key));
    let inner = script_items(envelope);
    lemma_envelope_items(op);
    assert(items =~= seq![Item::Push(internal_key), Item::Op(OP_CHECKSIG)] + inner);
    assert(items.skip(1) =~= seq![Item::Op(OP_CHECKSIG)] + inner);
    assert(items.skip(1).skip(1) =~= inner);
    assert(items[0] == Item::Push(internal_key));
    assert(!is_op_false(items[0])) by {
        if items[0] == Item::Push(Seq::<u8>::empty()) {
            assert(internal_key == Seq::<u8>::empty());
        }
    }
    assert(!opens_envelope(items));
    assert(!opens_envelope(items.skip(1)));
    assert(after_opening(items) == after_opening(items.skip(1)));
    assert(after_opening(items.skip(1)) == after_opening(inner));
    law_envelope_round_trip(op);
}

/// Whether an envelope opens at item `i`: something false, the byte `0x63`, and the text `prune`.
pub open spec fn opens_at(items: Seq<Item>, i: int) -> bool {
    &&& 0 <= i
    &&& i + 2 < items.len()
    &&& items[i] == Item::Push(Seq::empty()) || items[i] == Item::Op(0)
    &&& items[i + 1] == Item::Op(0x63)
    &&& items[i + 2] == Item::Push(seq![0x70u8, 0x72u8, 0x75u8, 0x6eu8, 0x65u8])
}

/// The first envelope counts: what is read follows the first place at which one opens, and nothing is
/// read only where none opens anywhere.
pub proof fn law_first_envelope_counts(items: Seq<Item>)
    ensures
        match after_opening(items) {
            Some(body) => exists|i: int|
                {
                    &&& #[trigger] opens_at(items, i)
                    &&& body == items.skip(i + 3)
                    &&& forall|j: int| 0 <= j < i ==> !(#[trigger] opens_at(items, j))
                },
            None => forall|j: int| !(#[trigger] opens_at(items, j)),
        },
    decreases items.len(),
{
    let name = seq![0x70u8, 0x72u8, 0x75u8, 0x6eu8, 0x65u8];
    assert(PROTOCOL_ID@ =~= name);
    assert(opens_envelope(items) <==> opens_at(items, 0));
    if items.len() > 0 && !opens_envelope(items) {
        let rest = items.skip(1);
        law_first_envelope_counts(rest);
        assert forall|j: int| 0 <= j implies (#[trigger] opens_at(items, j + 1) <==> opens_at(
            rest,
            j,
        )) by {}
        match after_opening(rest) {
            Some(body) => {
                let i = choose|i: int|
                    {
                        &&& #[trigger] opens_at(rest, i)
                        &&& body == rest.skip(i + 3)
                        &&& forall|j: int| 0 <= j < i ==> !(#[trigger] opens_at(rest, j))
                    };
                assert(opens_at(items, i + 1));
                assert(rest.skip(i + 3) =~= items.skip(i + 1 + 3));
                assert forall|j: int| 0 <= j < i + 1 implies !(#[trigger] opens_at(items, j)) by {
                    if j > 0 {
                        assert(!opens_at(rest, j - 1));
                        assert(opens_at(items, (j - 1) + 1) <==> opens_at(rest, j - 1));
                    }
                }
            },
            None => {
                assert forall|j: int| !(#[trigger] opens_at(items, j)) by {
                    if j > 0 {
                        assert(!opens_at(rest, j - 1));
                        assert(opens_at(items, (j - 1) + 1) <==> opens_at(rest, j - 1));
                    }
                }
            },
        }
    }
}

/// An envelope is read step by step. A tag and a push give the tag that value, in place of any value
/// before. A tag before anything else that is not the end gives nothing. An item that is neither a
/// tag nor the end gives nothing. The end ends it, also behind a tag; without an end there is nothing.
pub proof fn law_envelope_is_read_step_by_step(
    rest: Seq<Item>,
    fields: Map<u8, Seq<u8>>,
    tag: u8,
    value: Seq<u8>,
    other: Item,
)
    requires
        other != Item::Op(0x68),
    ensures
        read_fields(Seq::empty(), fields) is None,
        read_fields(seq![Item::Op(0x68)] + rest, fields) == Some(fields),
        read_fields(seq![Item::Push(seq![tag]), Item::Push(value)] + rest, fields) == read_fields(
            rest,
            fields.insert(tag, value),
        ),
        !(other is Push) ==> read_fields(seq![Item::Push(seq![tag]), other] + rest, fields)
            == read_fields(rest, fields),
        read_fields(seq![Item::Push(seq![tag]), Item::Op(0x68)] + rest, fields) == Some(fields),
        read_fields(seq![Item::Push(seq![tag])], fields) is None,
        !(other matches Item::Push(data) && data.len() == 1) ==> read_fields(
            seq![other] + rest,
            fields,
        ) == read_fields(rest, fields),
{
    let t = Item::Push(seq![tag]);
    assert((seq![t, Item::Push(value)] + rest).skip(2) =~= rest);
    assert((seq![t, other] + rest).skip(2) =~= rest);
    let ended = seq![t, Item::Op(0x68)] + rest;
    assert(ended.skip(1) =~= seq![Item::Op(0x68)] + rest);
    assert(ended[0] == t && ended[1] == Item::Op(0x68));
    assert(read_fields(ended, fields) == read_fields(ended.skip(1), fields));
    let lone = seq![t];
    assert(lone.skip(1) =~= Seq::<Item>::empty());
    assert(read_fields(lone, fields) == read_fields(lone.skip(1), fields));
    assert((seq![other] + rest).skip(1) =~= rest);
}

/// Whether a tag has a value that starts with the bytes of a field element.
pub open spec fn has_element(fields: Map<u8, Seq<u8>>, tag: u8) -> bool {
    fields.contains_key(tag) && fields[tag].len() >= 32 && le_value(fields[tag].take(32))
        < modulus()
}

/// The values of an envelope are an operation exactly where they have what the operation needs: a
/// type, a Rune and a commitment, and for a spend a nullifier, a root and eight bytes of fee or
/// amount. Each value goes where its tag says; a missing proof or note is empty.
pub proof fn law_values_make_an_operation(fields: Map<u8, Seq<u8>>)
    ensures
        ({
            let kind = fields[1];
            let typed = fields.contains_key(1) && kind.len() > 0 && has_element(fields, 2)
                && has_element(fields, 3);
            let spends = has_element(fields, 4) && has_element(fields, 5) && fields.contains_key(6)
                && fields[6].len() == 8;
            let element = |tag: u8| le_value(fields[tag].take(32));
            let note = if fields.contains_key(7) {
                fields[7]
            } else {
                Seq::empty()
            };
            let proven = if fields.contains_key(8) {
                fields[8]
            } else {
                Seq::empty()
            };
            &&& assemble(fields) is Some <==> typed && (kind[0] == 1 || (spends && (kind[0] == 2
                || kind[0] == 3)))
            &&& typed && kind[0] == 1 ==> assemble(fields) == Some(
                Operation::Shield {
                    rune_id: element(2),
                    commitment: element(3),
                    encrypted_note: note,
                },
            )
            &&& typed && spends && kind[0] == 2 ==> assemble(fields) == Some(
                Operation::Transfer {
                    rune_id: element(2),
                    nullifier: element(4),
                    out_commitment: element(3),
                    anchor: element(5),
                    fee: le_value(fields[6]),
                    proof: proven,
                    encrypted_note: note,
                },
            )
            &&& typed && spends && kind[0] == 3 ==> assemble(fields) == Some(
                Operation::Unshield {
                    rune_id: element(2),
                    nullifier: element(4),
                    out_commitment: element(3),
                    anchor: element(5),
                    amount: le_value(fields[6]),
                    proof: proven,
                },
            )
        }),
{
}

/// A script is read item by item, from its first envelope, up to the end of that envelope.
pub proof fn law_script_is_parsed(script: Seq<u8>)
    ensures
        after_opening(script_items(script)) is None ==> parse_script(script) is None,
        after_opening(script_items(script)) matches Some(body) ==> {
            &&& read_fields(body, Map::empty()) is None ==> parse_script(script) is None
            &&& read_fields(body, Map::empty()) matches Some(fields) ==> parse_script(script)
                == assemble(fields)
        },
{
}

/// An envelope starts with a false push, `0x63` and the text `prune`, and ends with `0x68`. Between
/// these stand the tags and values of the operation, in order, each a push of its own.
pub proof fn law_envelope_bytes(op: Operation, internal_key: Seq<u8>)
    ensures
        op.envelope_script() == seq![
            0x00u8,
            0x63u8,
            0x05u8,
            0x70u8,
            0x72u8,
            0x75u8,
            0x6eu8,
            0x65u8,
        ] + encode_fields(op.fields()) + seq![0x68u8],
        op.reveal_script(internal_key) == push_encoding(internal_key) + seq![0xacu8]
            + op.envelope_script(),
{
    assert(push_encoding(PROTOCOL_ID@) =~= seq![0x05u8, 0x70u8, 0x72u8, 0x75u8, 0x6eu8, 0x65u8]);
    assert(op.envelope_script() =~= seq![
        0x00u8,
        0x63u8,
        0x05u8,
        0x70u8,
        0x72u8,
        0x75u8,
        0x6eu8,
        0x65u8,
    ] + encode_fields(op.fields()) + seq![0x68u8]);
    assert(op.reveal_script(internal_key) =~= push_encoding(internal_key) + seq![0xacu8]
        + op.envelope_script());
}

/// The tags and values of every operation.
pub proof fn law_operation_fields(op: Operation)
    ensures
        match op {
            Operation::Shield { rune_id, commitment, encrypted_note } => op.fields() == seq![
                (1u8, seq![1u8]),
                (2u8, le_bytes(rune_id, 32)),
                (3u8, le_bytes(commitment, 32)),
                (7u8, encrypted_note),
            ],
            Operation::Transfer {
                rune_id,
                nullifier,
                out_commitment,
                anchor,
                fee,
                proof,
                encrypted_note,
            } => op.fields() == seq![
                (1u8, seq![2u8]),
                (2u8, le_bytes(rune_id, 32)),
                (4u8, le_bytes(nullifier, 32)),
                (3u8, le_bytes(out_commitment, 32)),
                (5u8, le_bytes(anchor, 32)),
                (6u8, le_bytes(fee, 8)),
                (8u8, proof),
                (7u8, encrypted_note),
            ],
            Operation::Unshield { rune_id, nullifier, out_commitment, anchor, amount, proof } =>
                op.fields() == seq![
                (1u8, seq![3u8]),
                (2u8, le_bytes(rune_id, 32)),
                (4u8, le_bytes(nullifier, 32)),
                (3u8, le_bytes(out_commitment, 32)),
                (5u8, le_bytes(anchor, 32)),
                (6u8, le_bytes(amount, 8)),
                (8u8, proof),
            ],
        },
{
}

/// Tags and values are written one after the other, each as a push, none left out.
pub proof fn law_fields_are_written_in_order(
    first: (u8, Seq<u8>),
    rest: Seq<(u8, Seq<u8>)>,
)
    ensures
        encode_fields(Seq::empty()) == Seq::<u8>::empty(),
        encode_fields(seq![first] + rest) == push_encoding(seq![first.0]) + push_encoding(first.1)
            + encode_fields(rest),
{
    let all = seq![first] + rest;
    assert(all.skip(1) =~= rest);
    assert(encode_fields(all) =~= push_encoding(seq![first.0]) + push_encoding(first.1)
        + encode_fields(rest));
}

/// What can be pushed is any byte string below 2^32 bytes, whatever the numbers are; and the numbers
/// of an operation are in range where they are field elements and amounts of 64 bits.
pub proof fn law_what_an_envelope_takes(op: PruneOp)
    ensures
        match op {
            PruneOp::Shield { encrypted_note, .. } => op@.pushable() <==> encrypted_note@.len()
                <= 0xffff_ffff,
            PruneOp::Transfer { proof, encrypted_note, .. } => op@.pushable() <==> proof@.len()
                <= 0xffff_ffff && encrypted_note@.len() <= 0xffff_ffff,
            PruneOp::Unshield { proof, .. } => op@.pushable() <==> proof@.len() <= 0xffff_ffff,
        },
        match op {
            PruneOp::Shield { rune_id, commitment, .. } => op@.in_range() <==> rune_id@ < modulus()
                && commitment@ < modulus(),
            PruneOp::Transfer { rune_id, nullifier, out_commitment, anchor, .. } => op@.in_range()
                <==> rune_id@ < modulus() && nullifier@ < modulus() && out_commitment@ < modulus()
                && anchor@ < modulus(),
            PruneOp::Unshield { rune_id, nullifier, out_commitment, anchor, .. } => op@.in_range()
                <==> rune_id@ < modulus() && nullifier@ < modulus() && out_commitment@ < modulus()
                && anchor@ < modulus(),
        },
{
}

/// What an operation says is what its parts are.
pub proof fn law_operation_parts(op: PruneOp)
    ensures
        match op {
            PruneOp::Shield { rune_id, commitment, encrypted_note } => op@ == (Operation::Shield {
                rune_id: rune_id@,
                commitment: commitment@,
                encrypted_note: encrypted_note@,
            }),
            PruneOp::Transfer {
                rune_id,
                nullifier,
                out_commitment,
                anchor,
                fee,
                proof,
                encrypted_note,
            } => op@ == (Operation::Transfer {
                rune_id: rune_id@,
                nullifier: nullifier@,
                out_commitment: out_commitment@,
                anchor: anchor@,
                fee: fee as nat,
                proof: proof@,
                encrypted_note: encrypted_note@,
            }),
            PruneOp::Unshield { rune_id, nullifier, out_commitment, anchor, amount, proof } => op@
                == (Operation::Unshield {
                rune_id: rune_id@,
                nullifier: nullifier@,
                out_commitment: out_commitment@,
                anchor: anchor@,
                amount: amount as nat,
                proof: proof@,
            }),
        },
{
}

/// An operation can be put in a script exactly where its proof and its note are shorter than 2^32
/// bytes; its numbers are in range exactly where they are elements and amounts of 64 bits.
pub proof fn law_what_can_be_pushed(
    rune_id: nat,
    nullifier: nat,
    commitment: nat,
    anchor: nat,
    amount: nat,
    proof_bytes: Seq<u8>,
    encrypted_note: Seq<u8>,
)
    ensures
        ({
            let shield = Operation::Shield { rune_id, commitment, encrypted_note };
            let transfer = Operation::Transfer {
                rune_id,
                nullifier,
                out_commitment: commitment,
                anchor,
                fee: amount,
                proof: proof_bytes,
                encrypted_note,
            };
            let unshield = Operation::Unshield {
                rune_id,
                nullifier,
                out_commitment: commitment,
                anchor,
                amount,
                proof: proof_bytes,
            };
            let elements = rune_id < modulus() && nullifier < modulus() && commitment < modulus()
                && anchor < modulus();
            &&& shield.pushable() <==> encrypted_note.len() <= 0xffff_ffff
            &&& transfer.pushable() <==> encrypted_note.len() <= 0xffff_ffff && proof_bytes.len()
                <= 0xffff_ffff
            &&& unshield.pushable() <==> proof_bytes.len() <= 0xffff_ffff
            &&& shield.in_range() <==> rune_id < modulus() && commitment < modulus()
            &&& transfer.in_range() <==> elements && amount < 0x1_0000_0000_0000_0000
            &&& unshield.in_range() <==> elements && amount < 0x1_0000_0000_0000_0000
        }),
{
}

} // verus!
