//! Finding operations in transactions.
use vstd::prelude::*;

use crate::bytes::{first_32, le_bytes, le_value};
use crate::chain::{stack_view, tapscript_of, Transaction, TxIn};
use crate::field::{decodes, Fr};
use crate::transaction::{law_reveal_round_trip, parse_envelope, parse_script, Operation};

pub use crate::transaction::PruneOp;

verus! {

/// The operation that an input carries.
pub open spec fn input_operation(input: TxIn) -> Option<Operation> {
    match tapscript_of(stack_view(input.witness@)) {
        Some(script) => parse_script(script),
        None => None,
    }
}

/// The operations that the first `n` inputs carry, with the places of the inputs.
pub open spec fn operations(inputs: Seq<TxIn>, n: nat) -> Seq<(nat, Operation)>
    decreases n,
{
    if n == 0 {
        Seq::empty()
    } else {
        let before = operations(inputs, (n - 1) as nat);
        match input_operation(inputs[n - 1]) {
            Some(op) => before.push(((n - 1) as nat, op)),
            None => before,
        }
    }
}

/// The views of places and operations.
pub open spec fn operation_views(found: Seq<(usize, PruneOp)>) -> Seq<(nat, Operation)> {
    Seq::new(found.len(), |i: int| (found[i].0 as nat, found[i].1@))
}

/// The operations in a transaction, with the places of the inputs that carry them.
pub fn scan_transaction(tx: &Transaction) -> (found: Vec<(usize, PruneOp)>)
    ensures
        operation_views(found@) == operations(tx.input@, tx.input@.len()),
{
    let mut found: Vec<(usize, PruneOp)> = Vec::new();
    let mut i: usize = 0;
    assert(operation_views(found@) =~= operations(tx.input@, 0));
    while i < tx.input.len()
        invariant
            i <= tx.input@.len(),
            operation_views(found@) == operations(tx.input@, i as nat),
        decreases tx.input@.len() - i,
    {
        match tx.input[i].tapscript() {
            Some(script) => match parse_envelope(script.as_slice()) {
                Some(op) => {
                    let ghost before = found@;
                    found.push((i, op));
                    assert(operation_views(found@) =~= operation_views(before).push(
                        (i as nat, op@),
                    ));
                },
                None => {},
            },
            None => {},
        }
        i = i + 1;
    }
    found
}

/// Why 32 bytes are not a field element.
#[derive(Clone, Copy, Debug, PartialEq, Eq, Structural)]
pub enum IndexerError {
    /// The number is not below the modulus.
    InvalidElement,
}

/// The 32 bytes of the compressed form of an element.
pub fn fr_to_bytes32(f: Fr) -> (bytes: [u8; 32])
    ensures
        bytes@ == le_bytes(f@, 32),
{
    let bytes = f.serialize_compressed();
    assert(bytes@.take(32) =~= bytes@);
    first_32(bytes.as_slice())
}

/// Reads an element from the 32 bytes of its compressed form.
pub fn fr_from_bytes32(b: &[u8; 32]) -> (r: Result<Fr, IndexerError>)
    ensures
        match r {
            Ok(f) => decodes(b@) && f@ == le_value(b@),
            Err(e) => !decodes(b@) && e == IndexerError::InvalidElement,
        },
{
    assert(b@.take(32) =~= b@);
    match Fr::deserialize_compressed(b.as_slice()) {
        Some(f) => Ok(f),
        None => Err(IndexerError::InvalidElement),
    }
}

/// The operations of a transaction come in the order of its inputs, at most one for each.
pub proof fn law_operations_in_order(inputs: Seq<TxIn>, n: nat, i: int, j: int)
    requires
        0 <= i < j < operations(inputs, n).len(),
    ensures
        operations(inputs, n)[i].0 < operations(inputs, n)[j].0 < n,
        operations(inputs, n).len() <= n,
    decreases n,
{
    if n > 0 {
        let before = operations(inputs, (n - 1) as nat);
        lemma_places_below(inputs, (n - 1) as nat);
        if j < before.len() {
            law_operations_in_order(inputs, (n - 1) as nat, i, j);
        }
    }
}

proof fn lemma_places_below(inputs: Seq<TxIn>, n: nat)
    ensures
        operations(inputs, n).len() <= n,
        forall|i: int|
            0 <= i < operations(inputs, n).len() ==> (#[trigger] operations(inputs, n)[i]).0 < n,
    decreases n,
{
    if n > 0 {
        lemma_places_below(inputs, (n - 1) as nat);
    }
}

/// An input whose tapscript holds an operation contributes it, at its place, whatever the other
/// elements of its witness and the other inputs are.
pub proof fn law_every_operation_is_found(inputs: Seq<TxIn>, n: nat, i: int, op: Operation)
    requires
        0 <= i < n <= inputs.len(),
        tapscript_of(stack_view(inputs[i].witness@)) matches Some(script) && parse_script(script)
            == Some(op),
    ensures
        operations(inputs, n).contains((i as nat, op)),
    decreases n,
{
    let before = operations(inputs, (n - 1) as nat);
    let all = operations(inputs, n);
    if i == n - 1 {
        assert(all[all.len() - 1] == (i as nat, op));
    } else {
        law_every_operation_is_found(inputs, (n - 1) as nat, i, op);
        let k = choose|k: int| 0 <= k < before.len() && before[k] == (i as nat, op);
        assert(all[k] == (i as nat, op));
    }
}

/// What a scan finds is there: each operation is that of the tapscript of the input at its place.
pub proof fn law_no_operation_is_invented(inputs: Seq<TxIn>, n: nat, k: int)
    requires
        n <= inputs.len(),
        0 <= k < operations(inputs, n).len(),
    ensures
        ({
            let (place, op) = operations(inputs, n)[k];
            &&& place < n
            &&& tapscript_of(stack_view(inputs[place as int].witness@)) matches Some(script)
                && parse_script(script) == Some(op)
        }),
    decreases n,
{
    if n > 0 {
        let before = operations(inputs, (n - 1) as nat);
        if k < before.len() {
            law_no_operation_is_invented(inputs, (n - 1) as nat, k);
        }
    }
}

/// A spend that reveals an operation by the script path is found, whatever key signs it, whatever
/// stands before the script in its witness, and whatever control block follows: either parity, any
/// version but that of an annex, any length.
pub proof fn law_reveal_is_found(
    input: TxIn,
    op: Operation,
    internal_key: Seq<u8>,
    before: Seq<Seq<u8>>,
    control_block: Seq<u8>,
)
    requires
        op.pushable(),
        op.in_range(),
        internal_key.len() == 32,
        control_block.len() == 0 || control_block[0] != 0x50,
        stack_view(input.witness@) == before + seq![op.reveal_script(internal_key), control_block],
    ensures
        operations(seq![input], 1) == seq![(0nat, op)],
{
    law_reveal_round_trip(op, internal_key);
    let stack = stack_view(input.witness@);
    assert(stack[stack.len() - 2] == op.reveal_script(internal_key));
    assert(stack.last() == control_block);
    reveal_with_fuel(operations, 2);
    assert(operations(seq![input], 0).len() == 0);
    assert(operations(seq![input], 1) =~= seq![(0nat, op)]);
}

/// What is scanned is what was found: places and operations, in order.
pub proof fn law_found_operations_are_listed(found: Seq<(usize, PruneOp)>)
    ensures
        operation_views(found).len() == found.len(),
        forall|i: int|
            0 <= i < found.len() ==> (#[trigger] operation_views(found)[i]).0 == found[i].0
                && operation_views(found)[i].1 == found[i].1@,
{
}

} // verus!
