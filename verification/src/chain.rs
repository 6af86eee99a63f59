//! The parts of Bitcoin transactions that the protocol looks at.
use vstd::prelude::*;

verus! {

/// The id of a transaction, in the byte order of its hash.
#[derive(Clone, Copy, Debug, PartialEq, Eq)]
pub struct Txid {
    pub bytes: [u8; 32],
}

/// An output of a transaction.
#[derive(Clone, Copy, Debug, PartialEq, Eq)]
pub struct OutPoint {
    pub txid: Txid,
    pub vout: u32,
}

/// An input of a transaction.
#[derive(Clone, Debug)]
pub struct TxIn {
    /// The output that is spent.
    pub previous_output: OutPoint,
    /// The script that satisfies the output, empty for taproot outputs.
    pub script_sig: Vec<u8>,
    /// The sequence number.
    pub sequence: u32,
    /// The witness stack.
    pub witness: Vec<Vec<u8>>,
}

/// What an output of a transaction holds.
#[derive(Clone, Debug)]
pub struct TxOut {
    /// The value in satoshis.
    pub value: u64,
    /// The script that guards it.
    pub script_pubkey: Vec<u8>,
}

/// A transaction.
#[derive(Clone, Debug)]
pub struct Transaction {
    pub version: i32,
    pub lock_time: u32,
    pub input: Vec<TxIn>,
    pub output: Vec<TxOut>,
}

/// The place of a satoshi.
#[derive(Clone, Copy, Debug, PartialEq, Eq)]
pub struct SatPoint {
    pub outpoint: OutPoint,
    pub offset: u64,
}

/// The id of an inscription.
#[derive(Clone, Copy, Debug, PartialEq, Eq)]
pub struct InscriptionId {
    pub txid: Txid,
    pub index: u32,
}

/// The id of a Rune: the block and the transaction that etched it.
#[derive(Clone, Copy, Debug, PartialEq, Eq)]
pub struct RuneId {
    pub block: u64,
    pub tx: u32,
}

/// What an input says.
#[verifier::ext_equal]
pub struct InputState {
    pub previous_output: OutPoint,
    pub script_sig: Seq<u8>,
    pub sequence: u32,
    pub witness: Seq<Seq<u8>>,
}

/// What an output says.
#[verifier::ext_equal]
pub struct OutputState {
    pub value: u64,
    pub script_pubkey: Seq<u8>,
}

/// What a transaction says.
#[verifier::ext_equal]
pub struct TxState {
    pub version: i32,
    pub lock_time: u32,
    pub inputs: Seq<InputState>,
    pub outputs: Seq<OutputState>,
}

impl View for TxIn {
    type V = InputState;

    open spec fn view(&self) -> InputState {
        InputState {
            previous_output: self.previous_output,
            script_sig: self.script_sig@,
            sequence: self.sequence,
            witness: stack_view(self.witness@),
        }
    }
}

impl View for TxOut {
    type V = OutputState;

    open spec fn view(&self) -> OutputState {
        OutputState { value: self.value, script_pubkey: self.script_pubkey@ }
    }
}

impl View for Transaction {
    type V = TxState;

    open spec fn view(&self) -> TxState {
        TxState {
            version: self.version,
            lock_time: self.lock_time,
            inputs: Seq::new(self.input@.len(), |i: int| self.input@[i]@),
            outputs: Seq::new(self.output@.len(), |i: int| self.output@[i]@),
        }
    }
}

/// The contents of a witness stack.
pub open spec fn stack_view(stack: Seq<Vec<u8>>) -> Seq<Seq<u8>> {
    Seq::new(stack.len(), |i: int| stack[i]@)
}

/// Whether the last element of a witness stack is an annex: there are two or more, and it starts
/// with the byte `0x50`.
pub open spec fn has_annex(stack: Seq<Seq<u8>>) -> bool {
    stack.len() >= 2 && stack.last().len() > 0 && stack.last()[0] == 0x50
}

/// The script that a taproot script-path spend reveals: the second to last element of the stack once
/// the annex is gone. A key-path spend reveals none.
pub open spec fn tapscript_of(stack: Seq<Seq<u8>>) -> Option<Seq<u8>> {
    let n = if has_annex(stack) {
        stack.len() - 1
    } else {
        stack.len() as int
    };
    if n >= 2 {
        Some(stack[n - 2])
    } else {
        None
    }
}

impl TxIn {
    /// The script that a taproot script-path spend reveals.
    pub fn tapscript(&self) -> (r: Option<&Vec<u8>>)
        ensures
            tapscript_of(stack_view(self.witness@)) == (match r {
                Some(script) => Some(script@),
                None => None,
            }),
    {
        let ghost stack = stack_view(self.witness@);
        let mut n: usize = self.witness.len();
        if n >= 2 {
            let last = &self.witness[n - 1];
            assert(stack.last() == last@);
            if last.len() > 0 && last[0] == 0x50 {
                n = n - 1;
            }
        }
        if n >= 2 {
            Some(&self.witness[n - 2])
        } else {
            None
        }
    }
}

/// A stack of two or more whose last element is not an annex, which starts with `0x50`, reveals its
/// second to last element, whatever the last element is. A stack of three or more with an annex
/// reveals its third to last element. Any other stack reveals none.
pub proof fn law_script_stands_before_the_control_block(stack: Seq<Seq<u8>>)
    ensures
        ({
            let n = stack.len() as int;
            let annex = n >= 2 && stack[n - 1].len() > 0 && stack[n - 1][0] == 0x50;
            &&& n < 2 ==> tapscript_of(stack) is None
            &&& n >= 2 && !annex ==> tapscript_of(stack) == Some(stack[n - 2])
            &&& n == 2 && annex ==> tapscript_of(stack) is None
            &&& n >= 3 && annex ==> tapscript_of(stack) == Some(stack[n - 3])
        }),
{
}

/// An annex changes nothing of what a stack reveals.
pub proof fn law_annex_reveals_nothing(stack: Seq<Seq<u8>>, annex: Seq<u8>)
    requires
        stack.len() >= 2,
        stack.last().len() == 0 || stack.last()[0] != 0x50,
        annex.len() > 0,
        annex[0] == 0x50,
    ensures
        tapscript_of(stack.push(annex)) == tapscript_of(stack),
{
}

/// What a transaction says is what its parts are: every input and output, in order, with every byte.
pub proof fn law_transaction_parts(tx: Transaction)
    ensures
        tx@.version == tx.version,
        tx@.lock_time == tx.lock_time,
        tx@.inputs.len() == tx.input@.len(),
        forall|i: int|
            0 <= i < tx.input@.len() ==> {
                let said = #[trigger] tx@.inputs[i];
                let input = tx.input@[i];
                &&& said.previous_output == input.previous_output
                &&& said.script_sig == input.script_sig@
                &&& said.sequence == input.sequence
                &&& said.witness.len() == input.witness@.len()
                &&& forall|k: int|
                    0 <= k < input.witness@.len() ==> #[trigger] said.witness[k]
                        == input.witness@[k]@
            },
        tx@.outputs.len() == tx.output@.len(),
        forall|i: int|
            0 <= i < tx.output@.len() ==> {
                &&& (#[trigger] tx@.outputs[i]).value == tx.output@[i].value
                &&& tx@.outputs[i].script_pubkey == tx.output@[i].script_pubkey@
            },
{
}

} // verus!
