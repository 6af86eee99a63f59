//! The gates and equalities of the gadgets and of the spend circuit, without values.
//!
//! A circuit for setup and a circuit for proving have to be the same circuit. The shapes here depend
//! on wires and on the number of levels of a path, and on nothing that a wire holds.
use vstd::prelude::*;

use crate::circuit::system::{Boolean, FpVar, Gate, Shape};
use crate::field::element;
use crate::keys::{DOMAIN_NULLIFIER_KEY, DOMAIN_PUBLIC_KEY};
use crate::poseidon::{standard_parameters, Parameters};

verus! {

/// The fifth power of a wire, and its wire.
pub open spec fn sbox_shape(s: Shape, x: FpVar) -> (Shape, FpVar) {
    let s1 = s.gate(Gate::Square(x.index));
    let s2 = s1.gate(Gate::Square(s.next().index));
    (s2.gate(Gate::Mul(s1.next().index, x.index)), s2.next())
}

/// The first `n` terms of the product of a matrix row and a list of wires.
pub open spec fn dot_shape(s: Shape, state: Seq<FpVar>, row: Seq<nat>, n: nat) -> (Shape, FpVar)
    decreases n,
{
    if n == 0 {
        (s.gate(Gate::Constant(element(0))), s.next())
    } else {
        let (t, sum) = dot_shape(s, state, row, (n - 1) as nat);
        let u = t.gate(Gate::MulConst(state[n - 1].index, element(row[n - 1])));
        (u.gate(Gate::Add(sum.index, t.next().index)), u.next())
    }
}

/// The first `n` elements of the product of a matrix and a list of wires.
pub open spec fn mix_shape(s: Shape, state: Seq<FpVar>, matrix: Seq<Seq<nat>>, n: nat) -> (
    Shape,
    Seq<FpVar>,
)
    decreases n,
{
    if n == 0 {
        (s, Seq::empty())
    } else {
        let (t, sums) = mix_shape(s, state, matrix, (n - 1) as nat);
        let (u, sum) = dot_shape(t, state, matrix[n - 1], state.len());
        (u, sums.push(sum))
    }
}

/// A list of wires with constants, from number `offset` on, added to its first `n`.
pub open spec fn add_constants_shape(
    s: Shape,
    state: Seq<FpVar>,
    constants: Seq<nat>,
    offset: nat,
    n: nat,
) -> (Shape, Seq<FpVar>)
    decreases n,
{
    if n == 0 {
        (s, state)
    } else {
        let (t, vars) = add_constants_shape(s, state, constants, offset, (n - 1) as nat);
        (
            t.gate(Gate::AddConst(vars[n - 1].index, element(constants[offset + (n - 1)]))),
            vars.update(n - 1, t.next()),
        )
    }
}

/// A list of wires with its first `n` raised to the fifth power.
pub open spec fn power_shape(s: Shape, state: Seq<FpVar>, n: nat) -> (Shape, Seq<FpVar>)
    decreases n,
{
    if n == 0 {
        (s, state)
    } else {
        let (t, vars) = power_shape(s, state, (n - 1) as nat);
        let (u, power) = sbox_shape(t, vars[n - 1]);
        (u, vars.update(n - 1, power))
    }
}

/// One round on a list of wires: constants from number `offset` on, `n` fifth powers, the matrix.
pub open spec fn round_shape(
    s: Shape,
    state: Seq<FpVar>,
    p: Parameters,
    offset: nat,
    n: nat,
) -> (Shape, Seq<FpVar>) {
    let (t, shifted) = add_constants_shape(s, state, p.constants, offset, p.t);
    let (u, powered) = power_shape(t, shifted, n);
    mix_shape(u, powered, p.matrix, powered.len())
}

/// The first `r` rounds on a list of wires.
pub open spec fn rounds_shape(s: Shape, state: Seq<FpVar>, p: Parameters, r: nat) -> (
    Shape,
    Seq<FpVar>,
)
    decreases r,
{
    if r == 0 {
        (s, state)
    } else {
        let (t, vars) = rounds_shape(s, state, p, (r - 1) as nat);
        let n = if p.is_full((r - 1) as nat) {
            p.t
        } else {
            1
        };
        round_shape(t, vars, p, ((r - 1) * p.t) as nat, n)
    }
}

/// The first wire of the permutation of a list of wires.
pub open spec fn squeeze_shape(s: Shape, state: Seq<FpVar>) -> (Shape, FpVar) {
    let p = standard_parameters(state.len());
    let (t, vars) = rounds_shape(s, state, p, p.rounds());
    (t, vars[0])
}

/// The hash of two wires.
pub open spec fn hash2_shape(s: Shape, a: FpVar, b: FpVar) -> (Shape, FpVar) {
    squeeze_shape(s.gate(Gate::Constant(element(2))), seq![s.next(), a, b])
}

/// The hash of three wires.
pub open spec fn hash3_shape(s: Shape, a: FpVar, b: FpVar, c: FpVar) -> (Shape, FpVar) {
    let t = s.gate(Gate::Constant(element(3)));
    squeeze_shape(t.gate(Gate::Constant(element(0))), seq![s.next(), a, b, c, t.next()])
}

/// The hash of four wires.
pub open spec fn hash4_shape(s: Shape, a: FpVar, b: FpVar, c: FpVar, d: FpVar) -> (Shape, FpVar) {
    squeeze_shape(s.gate(Gate::Constant(element(4))), seq![s.next(), a, b, c, d])
}

/// The first `n` levels of a path from a leaf.
pub open spec fn climb_shape(
    s: Shape,
    leaf: FpVar,
    siblings: Seq<FpVar>,
    indices: Seq<Boolean>,
    n: nat,
) -> (Shape, FpVar)
    decreases n,
{
    if n == 0 {
        (s, leaf)
    } else {
        let (t, below) = climb_shape(s, leaf, siblings, indices, (n - 1) as nat);
        let bit = indices[n - 1].index;
        let sibling = siblings[n - 1].index;
        let u = t.gate(Gate::Select(bit, sibling, below.index));
        let v = u.gate(Gate::Select(bit, below.index, sibling));
        hash2_shape(v, t.next(), u.next())
    }
}

/// The number that the last `n` of a list of bits stand for, the least significant first.
pub open spec fn bits_shape(s: Shape, bits: Seq<Boolean>, n: nat) -> (Shape, FpVar)
    decreases n,
{
    if n == 0 {
        (s.gate(Gate::Constant(element(0))), s.next())
    } else {
        let (t, rest) = bits_shape(s, bits, (n - 1) as nat);
        let u = t.gate(Gate::MulConst(rest.index, element(2)));
        (u.gate(Gate::Add(t.next().index, bits[bits.len() - n].index)), u.next())
    }
}

/// `n` private bits.
pub open spec fn new_bits_shape(s: Shape, n: nat) -> (Shape, Seq<Boolean>)
    decreases n,
{
    if n == 0 {
        (s, Seq::empty())
    } else {
        let (t, bits) = new_bits_shape(s, (n - 1) as nat);
        (t.gate(Gate::BoolWitness), bits.push(Boolean { index: t.next().index }))
    }
}

/// The demand that a wire holds a number of 64 bits.
pub open spec fn u64_shape(s: Shape, x: FpVar) -> Shape {
    let (t, bits) = new_bits_shape(s, 64);
    let (u, sum) = bits_shape(t, bits, 64);
    u.equate(sum, x)
}

/// The demand that a wire holds the hash of another and a constant.
pub open spec fn derived_key_shape(s: Shape, key: FpVar, domain: u64, derived: FpVar) -> Shape {
    let t = s.gate(Gate::Constant(element(domain as nat)));
    let (u, hash) = hash2_shape(t, key, s.next());
    u.equate(hash, derived)
}

/// What the wires of a spend are, in order: five inputs, five private values, the siblings, the
/// directions, and four more private values.
pub open spec fn spend_values(levels: nat) -> Seq<Gate> {
    Seq::new(
        14 + 2 * levels,
        |i: int|
            if i < 5 {
                Gate::Input
            } else if 10 + levels <= i < 10 + 2 * levels {
                Gate::BoolWitness
            } else {
                Gate::Witness
            },
    )
}

/// Wire number `i` of a spend whose first wire is `base`.
pub open spec fn wire(base: nat, i: nat) -> FpVar {
    FpVar { index: (base + i) as usize }
}

/// The siblings of a spend whose first wire is `base`.
pub open spec fn sibling_wires(base: nat, levels: nat) -> Seq<FpVar> {
    Seq::new(levels, |i: int| FpVar { index: (base + 10 + i) as usize })
}

/// The directions of a spend whose first wire is `base`.
pub open spec fn direction_wires(base: nat, levels: nat) -> Seq<Boolean> {
    Seq::new(levels, |i: int| Boolean { index: (base + 10 + levels + i) as usize })
}

/// What a spend whose first wire is `b` demands of its notes.
pub open spec fn notes_shape(s: Shape, b: nat, levels: nat) -> Shape {
    let (rune_id, anchor, nullifier) = (wire(b, 0), wire(b, 1), wire(b, 2));
    let (out_commitment, fee) = (wire(b, 3), wire(b, 4));
    let (in_amount, in_blinding, owner_pk) = (wire(b, 5), wire(b, 6), wire(b, 7));
    let (nullifier_key, note_index) = (wire(b, 8), wire(b, 9));
    let out_amount = wire(b, 10 + 2 * levels);
    let out_blinding = wire(b, 11 + 2 * levels);
    let out_owner_pk = wire(b, 12 + 2 * levels);
    // The spent note is under the root.
    let (s1, in_commitment) = hash4_shape(s, rune_id, in_amount, in_blinding, owner_pk);
    let (s2, root) = climb_shape(
        s1,
        in_commitment,
        sibling_wires(b, levels),
        direction_wires(b, levels),
        levels,
    );
    let s3 = s2.equate(root, anchor);
    // The nullifier is the spent note's.
    let (s4, spent) = hash3_shape(s3, nullifier_key, note_index, in_commitment);
    let s5 = s4.equate(spent, nullifier);
    // The new commitment is to a note of the same Rune.
    let (s6, created) = hash4_shape(s5, rune_id, out_amount, out_blinding, out_owner_pk);
    let s7 = s6.equate(created, out_commitment);
    // Nothing is created or destroyed.
    s7.gate(Gate::Add(out_amount.index, fee.index)).equate(in_amount, s7.next())
}

/// What a spend whose first wire is `b` demands of its keys and its place.
pub open spec fn keys_shape(s: Shape, b: nat, levels: nat) -> Shape {
    let spending_key = wire(b, 13 + 2 * levels);
    // The spender is the owner, and the nullifier key is the owner's.
    let s1 = derived_key_shape(s, spending_key, DOMAIN_NULLIFIER_KEY, wire(b, 8));
    let s2 = derived_key_shape(s1, spending_key, DOMAIN_PUBLIC_KEY, wire(b, 7));
    // The note index is the place of the spent note.
    let (s3, place) = bits_shape(s2, direction_wires(b, levels), levels);
    s3.equate(place, wire(b, 9))
}

/// The spend circuit with a path of `levels` levels, put behind another shape.
pub open spec fn spend_shape(s: Shape, levels: nat) -> Shape {
    let b = s.gates.len();
    let s0 = Shape { gates: s.gates + spend_values(levels), ..s };
    let s1 = notes_shape(s0, b, levels);
    // The new amount and the fee are numbers of 64 bits.
    let s2 = u64_shape(u64_shape(s1, wire(b, 10 + 2 * levels)), wire(b, 4));
    keys_shape(s2, b, levels)
}

/// Whether the second shape is the first with gates added none of which is a public input.
pub open spec fn adds_no_input(s: Shape, t: Shape) -> bool {
    &&& s.gates.len() <= t.gates.len()
    &&& forall|i: int| 0 <= i < s.gates.len() ==> #[trigger] t.gates[i] == s.gates[i]
    &&& forall|i: int|
        s.gates.len() <= i < t.gates.len() ==> !(#[trigger] t.gates[i] is Input)
}

proof fn lemma_dot_adds(s: Shape, state: Seq<FpVar>, row: Seq<nat>, n: nat)
    ensures
        adds_no_input(s, dot_shape(s, state, row, n).0),
    decreases n,
{
    if n > 0 {
        lemma_dot_adds(s, state, row, (n - 1) as nat);
    }
}

proof fn lemma_mix_adds(s: Shape, state: Seq<FpVar>, matrix: Seq<Seq<nat>>, n: nat)
    ensures
        adds_no_input(s, mix_shape(s, state, matrix, n).0),
    decreases n,
{
    if n > 0 {
        lemma_mix_adds(s, state, matrix, (n - 1) as nat);
        let t = mix_shape(s, state, matrix, (n - 1) as nat).0;
        lemma_dot_adds(t, state, matrix[n - 1], state.len());
    }
}

proof fn lemma_add_constants_adds(
    s: Shape,
    state: Seq<FpVar>,
    constants: Seq<nat>,
    offset: nat,
    n: nat,
)
    ensures
        adds_no_input(s, add_constants_shape(s, state, constants, offset, n).0),
    decreases n,
{
    if n > 0 {
        lemma_add_constants_adds(s, state, constants, offset, (n - 1) as nat);
    }
}

proof fn lemma_power_adds(s: Shape, state: Seq<FpVar>, n: nat)
    ensures
        adds_no_input(s, power_shape(s, state, n).0),
    decreases n,
{
    if n > 0 {
        lemma_power_adds(s, state, (n - 1) as nat);
    }
}

proof fn lemma_rounds_adds(s: Shape, state: Seq<FpVar>, p: Parameters, r: nat)
    ensures
        adds_no_input(s, rounds_shape(s, state, p, r).0),
    decreases r,
{
    if r > 0 {
        lemma_rounds_adds(s, state, p, (r - 1) as nat);
        let (t, vars) = rounds_shape(s, state, p, (r - 1) as nat);
        let offset = ((r - 1) * p.t) as nat;
        let n = if p.is_full((r - 1) as nat) {
            p.t
        } else {
            1
        };
        lemma_add_constants_adds(t, vars, p.constants, offset, p.t);
        let (u, shifted) = add_constants_shape(t, vars, p.constants, offset, p.t);
        lemma_power_adds(u, shifted, n);
        let (v, powered) = power_shape(u, shifted, n);
        lemma_mix_adds(v, powered, p.matrix, powered.len());
    }
}

proof fn lemma_squeeze_adds(s: Shape, state: Seq<FpVar>)
    ensures
        adds_no_input(s, squeeze_shape(s, state).0),
{
    let p = standard_parameters(state.len());
    lemma_rounds_adds(s, state, p, p.rounds());
}

proof fn lemma_hashes_add(s: Shape, a: FpVar, b: FpVar, c: FpVar, d: FpVar)
    ensures
        adds_no_input(s, hash2_shape(s, a, b).0),
        adds_no_input(s, hash3_shape(s, a, b, c).0),
        adds_no_input(s, hash4_shape(s, a, b, c, d).0),
{
    lemma_squeeze_adds(s.gate(Gate::Constant(element(2))), seq![s.next(), a, b]);
    let t = s.gate(Gate::Constant(element(3)));
    lemma_squeeze_adds(t.gate(Gate::Constant(element(0))), seq![s.next(), a, b, c, t.next()]);
    lemma_squeeze_adds(s.gate(Gate::Constant(element(4))), seq![s.next(), a, b, c, d]);
}

proof fn lemma_climb_adds(
    s: Shape,
    leaf: FpVar,
    siblings: Seq<FpVar>,
    indices: Seq<Boolean>,
    n: nat,
)
    ensures
        adds_no_input(s, climb_shape(s, leaf, siblings, indices, n).0),
    decreases n,
{
    if n > 0 {
        lemma_climb_adds(s, leaf, siblings, indices, (n - 1) as nat);
        let (t, below) = climb_shape(s, leaf, siblings, indices, (n - 1) as nat);
        let bit = indices[n - 1].index;
        let sibling = siblings[n - 1].index;
        let u = t.gate(Gate::Select(bit, sibling, below.index));
        let v = u.gate(Gate::Select(bit, below.index, sibling));
        lemma_hashes_add(v, t.next(), u.next(), leaf, leaf);
    }
}

proof fn lemma_bits_add(s: Shape, bits: Seq<Boolean>, n: nat)
    ensures
        adds_no_input(s, bits_shape(s, bits, n).0),
        adds_no_input(s, new_bits_shape(s, n).0),
    decreases n,
{
    if n > 0 {
        lemma_bits_add(s, bits, (n - 1) as nat);
    }
}

proof fn lemma_u64_adds(s: Shape, x: FpVar)
    ensures
        adds_no_input(s, u64_shape(s, x)),
{
    lemma_bits_add(s, Seq::empty(), 64);
    let (t, bits) = new_bits_shape(s, 64);
    lemma_bits_add(t, bits, 64);
}

proof fn lemma_notes_add(s: Shape, b: nat, levels: nat)
    ensures
        adds_no_input(s, notes_shape(s, b, levels)),
{
    let (x, y, z) = (wire(b, 10 + 2 * levels), wire(b, 11 + 2 * levels), wire(b, 12 + 2 * levels));
    lemma_hashes_add(s, wire(b, 0), wire(b, 5), wire(b, 6), wire(b, 7));
    let (s1, leaf) = hash4_shape(s, wire(b, 0), wire(b, 5), wire(b, 6), wire(b, 7));
    let (siblings, directions) = (sibling_wires(b, levels), direction_wires(b, levels));
    lemma_climb_adds(s1, leaf, siblings, directions, levels);
    let (s2, root) = climb_shape(s1, leaf, siblings, directions, levels);
    let s3 = s2.equate(root, wire(b, 1));
    lemma_hashes_add(s3, wire(b, 8), wire(b, 9), leaf, leaf);
    let (s4, spent) = hash3_shape(s3, wire(b, 8), wire(b, 9), leaf);
    let s5 = s4.equate(spent, wire(b, 2));
    lemma_hashes_add(s5, wire(b, 0), x, y, z);
    assert(adds_no_input(s, s5));
}

proof fn lemma_derived_key_adds(s: Shape, key: FpVar, domain: u64, derived: FpVar)
    ensures
        adds_no_input(s, derived_key_shape(s, key, domain, derived)),
{
    let t = s.gate(Gate::Constant(element(domain as nat)));
    lemma_hashes_add(t, key, s.next(), key, key);
}

/// The spend circuit has five public inputs, and they are its first wires.
pub proof fn law_five_public_inputs(s: Shape, levels: nat)
    ensures
        ({
            let base = s.gates.len();
            let gates = spend_shape(s, levels).gates;
            &&& base + 14 + 2 * levels <= gates.len()
            &&& forall|i: int| 0 <= i < base ==> #[trigger] gates[i] == s.gates[i]
            &&& forall|i: int|
                base <= i < gates.len() ==> ((#[trigger] gates[i] is Input) <==> i < base + 5)
        }),
{
    let b = s.gates.len();
    let key = wire(b, 13 + 2 * levels);
    let s0 = Shape { gates: s.gates + spend_values(levels), ..s };
    let s1 = notes_shape(s0, b, levels);
    lemma_notes_add(s0, b, levels);
    let s2 = u64_shape(s1, wire(b, 10 + 2 * levels));
    lemma_u64_adds(s1, wire(b, 10 + 2 * levels));
    let s3 = u64_shape(s2, wire(b, 4));
    lemma_u64_adds(s2, wire(b, 4));
    let s4 = derived_key_shape(s3, key, DOMAIN_NULLIFIER_KEY, wire(b, 8));
    lemma_derived_key_adds(s3, key, DOMAIN_NULLIFIER_KEY, wire(b, 8));
    let s5 = derived_key_shape(s4, key, DOMAIN_PUBLIC_KEY, wire(b, 7));
    lemma_derived_key_adds(s4, key, DOMAIN_PUBLIC_KEY, wire(b, 7));
    lemma_bits_add(s5, direction_wires(b, levels), levels);
    let end = spend_shape(s, levels);
    assert(adds_no_input(s0, s3));
    assert(adds_no_input(s3, end));
    assert(adds_no_input(s0, end));
    assert forall|i: int| b <= i < end.gates.len() implies ((#[trigger] end.gates[i] is Input)
        <==> i < b + 5) by {
        if i < b + 14 + 2 * levels {
            assert(end.gates[i] == s0.gates[i]);
            assert(s0.gates[i] == spend_values(levels)[i - b]);
        }
    }
}

} // verus!
