//! Bitcoin scripts as byte strings: data pushes and the instructions that a script reads as.
use vstd::prelude::*;
use vstd::slice::slice_subrange;

use crate::bytes::{byte_range, le_bytes, le_value, lemma_le_value_of_bytes};

verus! {

/// Opens a conditional block.
pub const OP_IF: u8 = 0x63;

/// Closes a conditional block.
pub const OP_ENDIF: u8 = 0x68;

/// Checks a signature.
pub const OP_CHECKSIG: u8 = 0xac;

/// What a script reads as, step by step.
#[verifier::ext_equal]
pub enum Item {
    /// Data put on the stack.
    Push(Seq<u8>),
    /// An opcode that pushes no data.
    Op(u8),
    /// A push that promises more bytes than there are. Nothing is read after it.
    Malformed,
}

/// An instruction of a script.
#[derive(Clone, Debug)]
pub enum Instruction {
    /// Data put on the stack.
    PushBytes(Vec<u8>),
    /// An opcode that pushes no data.
    Op(u8),
    /// A push that promises more bytes than there are.
    Malformed,
}

impl View for Instruction {
    type V = Item;

    open spec fn view(&self) -> Item {
        match self {
            Instruction::PushBytes(data) => Item::Push(data@),
            Instruction::Op(op) => Item::Op(*op),
            Instruction::Malformed => Item::Malformed,
        }
    }
}

/// The items of a sequence of instructions.
pub open spec fn items_of(instructions: Seq<Instruction>) -> Seq<Item> {
    Seq::new(instructions.len(), |i: int| instructions[i]@)
}

/// The bytes that announce a push of `len` bytes: the length itself where it is below 76, else an
/// opcode and the length in 1, 2 or 4 bytes.
pub open spec fn push_header(len: nat) -> Seq<u8> {
    if len < 76 {
        seq![len as u8]
    } else if len < 0x100 {
        seq![76u8] + le_bytes(len, 1)
    } else if len < 0x1_0000 {
        seq![77u8] + le_bytes(len, 2)
    } else {
        seq![78u8] + le_bytes(len, 4)
    }
}

/// The bytes of a push.
pub open spec fn push_encoding(data: Seq<u8>) -> Seq<u8> {
    push_header(data.len()) + data
}

/// For a script that starts with a push: the length of the announcement and of the data, where the
/// announcement is complete.
pub open spec fn push_extent(s: Seq<u8>) -> Option<(nat, nat)> {
    if s[0] <= 75 {
        Some((1, s[0] as nat))
    } else {
        let width: nat = if s[0] == 76 {
            1
        } else if s[0] == 77 {
            2
        } else {
            4
        };
        if s.len() < 1 + width {
            None
        } else {
            Some((1 + width, le_value(s.subrange(1, 1 + width as int))))
        }
    }
}

/// The first item of a script that is not empty, and how many bytes it takes. A malformed push
/// takes them all.
pub open spec fn first_item(s: Seq<u8>) -> (Item, nat) {
    if s[0] > 78 {
        (Item::Op(s[0]), 1)
    } else {
        match push_extent(s) {
            Some((header, len)) => if header + len <= s.len() {
                (Item::Push(s.subrange(header as int, (header + len) as int)), header + len)
            } else {
                (Item::Malformed, s.len())
            },
            None => (Item::Malformed, s.len()),
        }
    }
}

/// All items of a script.
pub open spec fn script_items(s: Seq<u8>) -> Seq<Item>
    decreases s.len(),
{
    if s.len() == 0 {
        Seq::empty()
    } else {
        let (item, used) = first_item(s);
        if 0 < used <= s.len() {
            seq![item] + script_items(s.skip(used as int))
        } else {
            Seq::empty()
        }
    }
}

/// `bitcoin::ScriptBuf::push_slice`: appends a push of the data, which is shorter than 2^32 bytes.
#[verifier::external_body]
pub(crate) fn push_slice(script: &mut Vec<u8>, data: &[u8])
    requires
        data@.len() < 0x1_0000_0000,
    ensures
        final(script)@ == old(script)@ + push_encoding(data@),
{
    let mut buf = bitcoin::ScriptBuf::from_bytes(std::mem::take(script));
    buf.push_slice(<&bitcoin::script::PushBytes>::try_from(data).unwrap());
    *script = buf.into_bytes();
}

/// The first step of `bitcoin::Script::instructions`: the first instruction of a script that is not
/// empty, and how many bytes are left to read after it.
#[verifier::external_body]
fn first_instruction(script: &[u8]) -> (r: (Instruction, usize))
    requires
        script@.len() > 0,
    ensures
        r.0@ == first_item(script@).0,
        r.1 == script@.len() - first_item(script@).1,
{
    let mut instructions = bitcoin::Script::from_bytes(script).instructions();
    let first = match instructions.next() {
        Some(Ok(bitcoin::script::Instruction::PushBytes(data))) => {
            Instruction::PushBytes(data.as_bytes().to_vec())
        },
        Some(Ok(bitcoin::script::Instruction::Op(op))) => Instruction::Op(op.to_u8()),
        Some(Err(_)) | None => Instruction::Malformed,
    };
    (first, instructions.as_script().len())
}

proof fn lemma_first_item_extent(s: Seq<u8>)
    requires
        s.len() > 0,
    ensures
        0 < first_item(s).1 <= s.len(),
{
}

/// All instructions of a script.
pub fn instructions(script: &[u8]) -> (out: Vec<Instruction>)
    ensures
        items_of(out@) == script_items(script@),
{
    let mut out: Vec<Instruction> = Vec::new();
    let mut pos: usize = 0;
    let len: usize = script.len();
    proof {
        assert(script@.skip(0) =~= script@);
        assert(items_of(out@) + script_items(script@) =~= script_items(script@));
    }
    while pos < len
        invariant
            pos <= len,
            len == script@.len(),
            items_of(out@) + script_items(script@.skip(pos as int)) == script_items(script@),
        decreases len - pos,
    {
        let rest = slice_subrange(script, pos, len);
        let ghost tail = script@.skip(pos as int);
        assert(rest@ =~= tail);
        let (first, left) = first_instruction(rest);
        proof {
            lemma_first_item_extent(tail);
            let used = first_item(tail).1;
            assert(tail.skip(used as int) =~= script@.skip(pos + used));
            let next = script_items(script@.skip(pos + used));
            assert(script_items(tail) == seq![first@] + next);
            assert(items_of(out@.push(first)) =~= items_of(out@) + seq![first@]);
            assert(items_of(out@.push(first)) + next =~= items_of(out@) + (seq![first@] + next));
        }
        out.push(first);
        pos = len - left;
    }
    proof {
        assert(script@.skip(len as int).len() == 0);
        assert(items_of(out@) + Seq::<Item>::empty() =~= items_of(out@));
    }
    out
}

/// A push reads as its data, whatever follows it.
pub proof fn lemma_push_reads_back(data: Seq<u8>, rest: Seq<u8>)
    requires
        data.len() < 0x1_0000_0000,
    ensures
        script_items(push_encoding(data) + rest) == seq![Item::Push(data)] + script_items(rest),
{
    let n = data.len();
    let s = push_encoding(data) + rest;
    let header = push_header(n);
    if n >= 76 {
        let width: nat = if n < 0x100 {
            1
        } else if n < 0x1_0000 {
            2
        } else {
            4
        };
        reveal_with_fuel(byte_range, 5);
        lemma_le_value_of_bytes(n, width);
        assert(s.subrange(1, 1 + width as int) =~= le_bytes(n, width));
    }
    assert(push_extent(s) == Some((header.len(), n)));
    assert(s.subrange(header.len() as int, (header.len() + n) as int) =~= data);
    assert(s.skip((header.len() + n) as int) =~= rest);
}

/// An opcode that pushes no data reads as itself, whatever follows it.
pub proof fn lemma_op_reads_back(op: u8, rest: Seq<u8>)
    requires
        op > 78,
    ensures
        script_items(seq![op] + rest) == seq![Item::Op(op)] + script_items(rest),
{
    assert((seq![op] + rest).skip(1) =~= rest);
}

/// A push is announced by its length in one byte up to 75, and by 76, 77 or 78 and the length in one,
/// two or four bytes above.
pub proof fn law_push_is_announced(data: Seq<u8>)
    ensures
        data.len() <= 75 ==> push_encoding(data) == seq![data.len() as u8] + data,
        75 < data.len() <= 0xff ==> push_encoding(data) == seq![0x4cu8] + le_bytes(data.len(), 1)
            + data,
        0xff < data.len() <= 0xffff ==> push_encoding(data) == seq![0x4du8] + le_bytes(
            data.len(),
            2,
        ) + data,
        0xffff < data.len() ==> push_encoding(data) == seq![0x4eu8] + le_bytes(data.len(), 4)
            + data,
{
}

/// A push is read back with its data, whatever they are and whatever follows; an opcode above 78 is
/// read as it is.
pub proof fn law_script_is_read_item_by_item(data: Seq<u8>, op: u8, rest: Seq<u8>)
    requires
        data.len() < 0x1_0000_0000,
        op > 78,
    ensures
        script_items(Seq::empty()) == Seq::<Item>::empty(),
        script_items(push_encoding(data) + rest) == seq![Item::Push(data)] + script_items(rest),
        script_items(seq![op] + rest) == seq![Item::Op(op)] + script_items(rest),
{
    lemma_push_reads_back(data, rest);
    lemma_op_reads_back(op, rest);
}

/// A push that promises more bytes than there are is malformed, and nothing is read behind it.
pub proof fn law_short_push_is_malformed(s: Seq<u8>)
    requires
        s.len() > 0,
    ensures
        s[0] <= 75 && s.len() < 1 + s[0] ==> script_items(s) == seq![Item::Malformed],
        s[0] == 76 && (s.len() < 2 || s.len() < 2 + le_value(s.subrange(1, 2))) ==> script_items(s)
            == seq![Item::Malformed],
        s[0] == 77 && (s.len() < 3 || s.len() < 3 + le_value(s.subrange(1, 3))) ==> script_items(s)
            == seq![Item::Malformed],
        s[0] == 78 && (s.len() < 5 || s.len() < 5 + le_value(s.subrange(1, 5))) ==> script_items(s)
            == seq![Item::Malformed],
{
    let (item, used) = first_item(s);
    if item == Item::Malformed {
        assert(s.skip(used as int) =~= Seq::empty());
        assert(script_items(s.skip(used as int)) =~= Seq::empty());
        assert(script_items(s) =~= seq![Item::Malformed]);
    }
}

/// A push whose data are all there is read with them, however many bytes announce the length.
pub proof fn law_complete_push_is_read(s: Seq<u8>, header: int, data_len: nat)
    requires
        s.len() >= header + data_len,
        ({
            ||| s[0] <= 75 && header == 1 && data_len == s[0]
            ||| s[0] == 76 && header == 2 && data_len == le_value(s.subrange(1, 2))
            ||| s[0] == 77 && header == 3 && data_len == le_value(s.subrange(1, 3))
            ||| s[0] == 78 && header == 5 && data_len == le_value(s.subrange(1, 5))
        }),
    ensures
        script_items(s) == seq![Item::Push(s.subrange(header, header + data_len))] + script_items(
            s.skip(header + data_len),
        ),
{
}

} // verus!
