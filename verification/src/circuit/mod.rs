//! The spend circuit.
//!
//! A spend reveals five numbers: the Rune, the tree root, the nullifier of the spent note, the
//! commitment to the new note and the fee. The circuit demands that there is a note under the
//! root, that the spender holds the key that owns it, that the nullifier is that note's under that
//! key, that the new commitment is to a note of the same Rune, and that the amounts, which are
//! numbers of 64 bits, add up.
use ark_ff::PrimeField;
use ark_serialize::CanonicalDeserialize;
use ark_snark::SNARK;
use vstd::prelude::*;

use crate::bytes::{le_value, lemma_le_bytes_of_value, slice_to_vec, u64_from_le_bytes};
use crate::circuit::bits::bits_value;
use crate::circuit::gadgets::{
    bits_in_system, bits_var, enforce_u64_var, hash2_var, hash3_var, hash4_var, pick, pick_bits,
    verify_merkle_path_var,
};
use crate::circuit::shape::{
    derived_key_shape, direction_wires, keys_shape, notes_shape, sibling_wires, spend_shape,
    spend_values, u64_shape, wire,
};
use crate::circuit::system::{
    allowed, equal_wires, lemma_grows_transitive, starts, Boolean, ConstraintSystem, FpVar, Gate,
    Shape,
};
use crate::field::{
    add_mod, lemma_element, lemma_modulus_fits, limbs_value, modulus, values, Fr,
};
use crate::keys::{
    nullifier_key_spec, public_key_spec, DOMAIN_NULLIFIER_KEY, DOMAIN_PUBLIC_KEY,
};
use crate::note::commitment_spec;
use crate::nullifier::nullifier_spec;
use crate::poseidon::{
    collide, hash2_spec, hash3_spec, hash4_spec, in_field, lemma_hash2_fixes, lemma_hash3_fixes,
    lemma_hash4_fixes, lemma_hash_in_field,
};
use crate::tree::{
    climb, climbs_collide, law_leaf_included, law_root_fixes_path, path_directions, path_siblings,
    root_spec, TREE_DEPTH,
};

pub mod bits;
pub mod gadgets;
pub mod shape;
pub mod system;

verus! {

/// The public part of a spend.
#[derive(Clone, Copy, Debug)]
pub struct SpendStatement {
    /// Which Rune is spent.
    pub rune_id: Fr,
    /// The tree root under which the spent note is.
    pub anchor: Fr,
    /// The nullifier of the spent note.
    pub nullifier: Fr,
    /// The commitment to the new note.
    pub out_commitment: Fr,
    /// The fee.
    pub fee: Fr,
}

/// What a statement says.
pub struct Statement {
    pub rune_id: nat,
    pub anchor: nat,
    pub nullifier: nat,
    pub out_commitment: nat,
    pub fee: nat,
}

impl View for SpendStatement {
    type V = Statement;

    open spec fn view(&self) -> Statement {
        Statement {
            rune_id: self.rune_id@,
            anchor: self.anchor@,
            nullifier: self.nullifier@,
            out_commitment: self.out_commitment@,
            fee: self.fee@,
        }
    }
}

impl Statement {
    /// The public inputs, in the order in which the circuit takes them.
    pub open spec fn inputs(self) -> Seq<nat> {
        seq![self.rune_id, self.anchor, self.nullifier, self.out_commitment, self.fee]
    }
}

impl SpendStatement {
    /// The public inputs, in the order in which the circuit takes them.
    pub fn to_inputs(&self) -> (inputs: Vec<Fr>)
        ensures
            values(inputs@) == self@.inputs(),
            inputs@.len() == 5,
    {
        let inputs = vec![
            self.rune_id,
            self.anchor,
            self.nullifier,
            self.out_commitment,
            self.fee,
        ];
        assert(values(inputs@) =~= self@.inputs());
        inputs
    }
}

/// The private part of a spend.
#[derive(Clone, Debug)]
pub struct SpendWitness {
    /// The amount of the spent note.
    pub in_amount: Fr,
    /// The blinding of the spent note.
    pub in_blinding: Fr,
    /// The owner of the spent note.
    pub owner_pk: Fr,
    /// The key that the nullifier is made with.
    pub nullifier_key: Fr,
    /// The place of the spent note in the tree.
    pub note_index: Fr,
    /// The siblings on the way to the root.
    pub merkle_siblings: Vec<Fr>,
    /// For each level whether the node on the way is the right child.
    pub merkle_indices: Vec<bool>,
    /// The amount of the new note.
    pub out_amount: Fr,
    /// The blinding of the new note.
    pub out_blinding: Fr,
    /// The owner of the new note.
    pub out_owner_pk: Fr,
    /// The key that owns the spent note.
    pub spending_key: Fr,
}

/// What a witness says.
#[verifier::ext_equal]
pub struct Witness {
    pub in_amount: nat,
    pub in_blinding: nat,
    pub owner_pk: nat,
    pub nullifier_key: nat,
    pub note_index: nat,
    pub siblings: Seq<nat>,
    pub directions: Seq<bool>,
    pub out_amount: nat,
    pub out_blinding: nat,
    pub out_owner_pk: nat,
    pub spending_key: nat,
}

impl View for SpendWitness {
    type V = Witness;

    open spec fn view(&self) -> Witness {
        Witness {
            in_amount: self.in_amount@,
            in_blinding: self.in_blinding@,
            owner_pk: self.owner_pk@,
            nullifier_key: self.nullifier_key@,
            note_index: self.note_index@,
            siblings: values(self.merkle_siblings@),
            directions: self.merkle_indices@,
            out_amount: self.out_amount@,
            out_blinding: self.out_blinding@,
            out_owner_pk: self.out_owner_pk@,
            spending_key: self.spending_key@,
        }
    }
}

/// The place of the leaf from which a path starts in the given directions, as a field element.
pub open spec fn index_of(directions: Seq<bool>) -> nat {
    bits_value(directions) % modulus()
}

/// Whether a witness proves a statement.
pub open spec fn spend_is_valid(s: Statement, w: Witness) -> bool {
    let in_commitment = commitment_spec(s.rune_id, w.in_amount, w.in_blinding, w.owner_pk);
    // The spent note is under the root.
    &&& climb(w.siblings, w.directions, in_commitment, w.siblings.len()) == s.anchor
    // The nullifier is the spent note's.
    &&& nullifier_spec(w.nullifier_key, w.note_index, in_commitment) == s.nullifier
    // The new commitment is to a note of the same Rune.
    &&& commitment_spec(s.rune_id, w.out_amount, w.out_blinding, w.out_owner_pk)
        == s.out_commitment
    // Nothing is created or destroyed.
    &&& w.in_amount == add_mod(w.out_amount, s.fee)
    &&& w.out_amount <= u64::MAX
    &&& s.fee <= u64::MAX
    // The spender is the owner, and the nullifier key is the owner's.
    &&& w.nullifier_key == nullifier_key_spec(w.spending_key)
    &&& w.owner_pk == public_key_spec(w.spending_key)
    // The note index is the place of the spent note.
    &&& w.note_index == index_of(w.directions)
}

/// The statement that the wires from `base` on hold.
pub open spec fn read_statement(wires: Seq<nat>, base: int) -> Statement {
    Statement {
        rune_id: wires[base],
        anchor: wires[base + 1],
        nullifier: wires[base + 2],
        out_commitment: wires[base + 3],
        fee: wires[base + 4],
    }
}

/// The witness that the wires from `base + 5` on hold, with a path of `levels` levels.
pub open spec fn read_witness(wires: Seq<nat>, base: int, levels: nat) -> Witness {
    Witness {
        in_amount: wires[base + 5],
        in_blinding: wires[base + 6],
        owner_pk: wires[base + 7],
        nullifier_key: wires[base + 8],
        note_index: wires[base + 9],
        siblings: Seq::new(levels, |i: int| wires[base + 10 + i]),
        directions: Seq::new(levels, |i: int| wires[base + 10 + levels + i] == 1),
        out_amount: wires[base + 10 + 2 * levels],
        out_blinding: wires[base + 11 + 2 * levels],
        out_owner_pk: wires[base + 12 + 2 * levels],
        spending_key: wires[base + 13 + 2 * levels],
    }
}

/// A statement of zeros.
pub open spec fn zero_statement() -> Statement {
    Statement { rune_id: 0, anchor: 0, nullifier: 0, out_commitment: 0, fee: 0 }
}

/// A witness of zeros, with a path of full depth.
pub open spec fn zero_witness() -> Witness {
    Witness {
        in_amount: 0,
        in_blinding: 0,
        owner_pk: 0,
        nullifier_key: 0,
        note_index: 0,
        siblings: Seq::new(TREE_DEPTH as nat, |i: int| 0nat),
        directions: Seq::new(TREE_DEPTH as nat, |i: int| false),
        out_amount: 0,
        out_blinding: 0,
        out_owner_pk: 0,
        spending_key: 0,
    }
}

impl SpendStatement {
    /// A statement of zeros.
    fn zeros() -> (s: SpendStatement)
        ensures
            s@ == zero_statement(),
    {
        SpendStatement {
            rune_id: Fr::zero(),
            anchor: Fr::zero(),
            nullifier: Fr::zero(),
            out_commitment: Fr::zero(),
            fee: Fr::zero(),
        }
    }
}

impl SpendWitness {
    /// A witness of zeros.
    fn zeros() -> (w: SpendWitness)
        ensures
            w@ == zero_witness(),
    {
        let mut siblings: Vec<Fr> = Vec::new();
        let mut indices: Vec<bool> = Vec::new();
        let mut i: usize = 0;
        while i < TREE_DEPTH
            invariant
                i <= TREE_DEPTH,
                siblings@.len() == i,
                indices@.len() == i,
                forall|k: int| 0 <= k < i ==> (#[trigger] siblings@[k])@ == 0,
                forall|k: int| 0 <= k < i ==> !(#[trigger] indices@[k]),
            decreases TREE_DEPTH - i,
        {
            siblings.push(Fr::zero());
            indices.push(false);
            i = i + 1;
        }
        let w = SpendWitness {
            in_amount: Fr::zero(),
            in_blinding: Fr::zero(),
            owner_pk: Fr::zero(),
            nullifier_key: Fr::zero(),
            note_index: Fr::zero(),
            merkle_siblings: siblings,
            merkle_indices: indices,
            out_amount: Fr::zero(),
            out_blinding: Fr::zero(),
            out_owner_pk: Fr::zero(),
            spending_key: Fr::zero(),
        };
        assert(w@ =~= zero_witness());
        w
    }
}

/// The spend circuit, with the values to fill it with.
#[derive(Clone, Debug)]
pub struct SpendCircuit {
    pub witness: Option<SpendWitness>,
    pub statement: Option<SpendStatement>,
}

impl SpendCircuit {
    /// The statement that the circuit is filled with.
    pub open spec fn statement_value(self) -> Statement {
        match self.statement {
            Some(s) => s@,
            None => zero_statement(),
        }
    }

    /// The witness that the circuit is filled with.
    pub open spec fn witness_value(self) -> Witness {
        match self.witness {
            Some(w) => w@,
            None => zero_witness(),
        }
    }

    /// The circuit filled with zeros: its shape is that of every circuit with a full path.
    pub fn for_setup() -> (circuit: SpendCircuit)
        ensures
            circuit.witness is Some,
            circuit.statement is Some,
            circuit.witness_value() == zero_witness(),
            circuit.statement_value() == zero_statement(),
    {
        SpendCircuit {
            witness: Some(SpendWitness::zeros()),
            statement: Some(SpendStatement::zeros()),
        }
    }

    /// The circuit filled with a witness and a statement.
    pub fn for_prove(witness: SpendWitness, statement: SpendStatement) -> (circuit: SpendCircuit)
        ensures
            circuit.witness == Some(witness),
            circuit.statement == Some(statement),
    {
        SpendCircuit { witness: Some(witness), statement: Some(statement) }
    }

    /// Adds the gates and equalities of the circuit to a system. Which ones these are depends on the
    /// length of the path alone. In every assignment that the gates allow and in which the new
    /// equalities hold, the private wires prove the public ones; the assignment that is built, which
    /// holds the statement and the witness, meets the equalities exactly where the witness proves
    /// the statement.
    pub fn generate_constraints(self, cs: &mut ConstraintSystem)
        requires
            old(cs).wf(),
            self.witness_value().siblings.len() == self.witness_value().directions.len(),
        ensures
            final(cs).wf(),
            old(cs).grows_to(final(cs)),
            ({
                let base = old(cs).gates().len() as int;
                let levels = self.witness_value().siblings.len();
                &&& final(cs).shape() == spend_shape(old(cs).shape(), levels)
                &&& read_statement(final(cs).wires(), base) == self.statement_value()
                &&& read_witness(final(cs).wires(), base, levels) == self.witness_value()
                &&& forall|wires: Seq<nat>| #[trigger]
                    allowed(final(cs).gates(), wires) && equal_wires(final(cs).equalities(), wires)
                        ==> equal_wires(old(cs).equalities(), wires) && spend_is_valid(
                        read_statement(wires, base),
                        read_witness(wires, base, levels),
                    )
            }),
            equal_wires(final(cs).equalities(), final(cs).wires()) <==> equal_wires(
                old(cs).equalities(),
                old(cs).wires(),
            ) && spend_is_valid(self.statement_value(), self.witness_value()),
    {
        let w = match self.witness {
            Some(w) => w,
            None => SpendWitness::zeros(),
        };
        let s = match self.statement {
            Some(s) => s,
            None => SpendStatement::zeros(),
        };
        let ghost c0 = *cs;
        let ghost base = cs.gates().len();
        let ghost levels = w.merkle_siblings@.len();

        let wires = allocate(cs, &w, &s);
        let ghost c1 = *cs;
        enforce_notes(cs, &wires, Ghost(base), Ghost(levels));
        let ghost c2 = *cs;
        enforce_ranges(cs, wires.out_amount, wires.fee);
        let ghost c3 = *cs;
        proof {
            lemma_grows_transitive(c1, c2, c3);
            lemma_bits_stay(wires.indices@, c1, c3);
        }
        enforce_keys(cs, &wires, Ghost(base), Ghost(levels));

        proof {
            lemma_grows_transitive(c1, c3, *cs);
            lemma_grows_transitive(c0, c1, c2);
            lemma_grows_transitive(c0, c1, *cs);
            lemma_allocation_stays(c1, c2, base as int, levels);
            lemma_allocation_stays(c1, *cs, base as int, levels);
            assert(c1.shape() == Shape {
                gates: c0.gates() + spend_values(levels),
                ..c0.shape()
            });
            assert(wires.out_amount == wire(base, 10 + 2 * levels));
            assert(wires.fee == wire(base, 4));
            assert(cs.shape() == spend_shape(c0.shape(), levels));
            assert forall|v: Seq<nat>| #[trigger] allowed(cs.gates(), v) && equal_wires(
                cs.equalities(),
                v,
            ) implies equal_wires(c0.equalities(), v) && spend_is_valid(
                read_statement(v, base as int),
                read_witness(v, base as int, levels),
            ) by {
                assert(allowed(c3.gates(), v));
                assert(allowed(c2.gates(), v));
            }
            assert(allowed(cs.gates(), cs.wires()));
            assert(allowed(c2.gates(), c2.wires()));
            lemma_old_equalities(c3, *cs);
            lemma_old_equalities(c0, c2);
        }
    }
}

/// Demands that two wires hold numbers of 64 bits.
fn enforce_ranges(cs: &mut ConstraintSystem, x: FpVar, y: FpVar)
    requires
        old(cs).wf(),
        x.index < old(cs).gates().len(),
        y.index < old(cs).gates().len(),
    ensures
        final(cs).wf(),
        old(cs).grows_to(final(cs)),
        final(cs).shape() == u64_shape(u64_shape(old(cs).shape(), x), y),
        forall|v: Seq<nat>| #[trigger]
            allowed(final(cs).gates(), v) ==> allowed(old(cs).gates(), v) && (equal_wires(
                final(cs).equalities(),
                v,
            ) ==> equal_wires(old(cs).equalities(), v) && v[x.index as int] <= u64::MAX && v[
            y.index as int] <= u64::MAX),
        equal_wires(final(cs).equalities(), final(cs).wires()) <==> equal_wires(
            old(cs).equalities(),
            old(cs).wires(),
        ) && old(cs).wires()[x.index as int] <= u64::MAX && old(cs).wires()[y.index as int]
            <= u64::MAX,
{
    let ghost c0 = *cs;
    enforce_u64_var(cs, x);
    let ghost c1 = *cs;
    enforce_u64_var(cs, y);
    proof {
        lemma_grows_transitive(c0, c1, *cs);
        let q1 = c1.equalities().last();
        let q2 = cs.equalities().last();
        assert(c1.equalities() =~= c0.equalities().push(q1));
        assert(cs.equalities() =~= c1.equalities().push(q2));
        assert forall|v: Seq<nat>| #[trigger] allowed(cs.gates(), v) implies allowed(c0.gates(), v)
            && (equal_wires(cs.equalities(), v) ==> equal_wires(c0.equalities(), v) && v[
        x.index as int] <= u64::MAX && v[y.index as int] <= u64::MAX) by {
            assert(allowed(c1.gates(), v));
            lemma_equal_push(c0.equalities(), q1, v);
            lemma_equal_push(c1.equalities(), q2, v);
        }
        lemma_equal_push(c0.equalities(), q1, c1.wires());
        lemma_equal_push(c1.equalities(), q2, cs.wires());
        lemma_old_equalities(c0, c1);
        lemma_old_equalities(c1, *cs);
        lemma_equality_stays(c0, c1, (y.index, y.index));
    }
}

/// Demands that the keys of a spend are the owner's, and that the note index is the place at which
/// the path starts.
fn enforce_keys(
    cs: &mut ConstraintSystem,
    wires: &SpendWires,
    Ghost(base): Ghost<nat>,
    Ghost(levels): Ghost<nat>,
)
    requires
        old(cs).wf(),
        wires.at(base as int, levels),
        base + 14 + 2 * levels <= old(cs).gates().len(),
        bits_in_system(wires.indices@, old(cs).gates()),
    ensures
        final(cs).wf(),
        old(cs).grows_to(final(cs)),
        final(cs).shape() == keys_shape(old(cs).shape(), base, levels),
        forall|v: Seq<nat>| #[trigger]
            allowed(final(cs).gates(), v) ==> allowed(old(cs).gates(), v) && (equal_wires(
                final(cs).equalities(),
                v,
            ) <==> equal_wires(old(cs).equalities(), v) && keys_are_valid(
                read_witness(v, base as int, levels),
            )),
{
    let ghost c0 = *cs;
    enforce_derived_key(cs, wires.spending_key, DOMAIN_NULLIFIER_KEY, wires.nullifier_key);
    let ghost c1 = *cs;
    enforce_derived_key(cs, wires.spending_key, DOMAIN_PUBLIC_KEY, wires.owner_pk);
    let ghost c2 = *cs;
    proof {
        lemma_grows_transitive(c0, c1, c2);
        lemma_bits_stay(wires.indices@, c0, c2);
    }
    let place = bits_var(cs, &wires.indices);
    let ghost c3 = *cs;
    cs.enforce_equal(place, wires.note_index);
    proof {
        lemma_grows_transitive(c0, c2, c3);
        lemma_grows_transitive(c0, c3, *cs);
        let q1 = c1.equalities().last();
        let q2 = c2.equalities().last();
        let q3 = (place.index, wires.note_index.index);
        assert(c1.equalities() =~= c0.equalities().push(q1));
        assert(c2.equalities() =~= c1.equalities().push(q2));
        assert(wires.indices@ =~= direction_wires(base, levels));
        assert(wires.spending_key == wire(base, 13 + 2 * levels));
        assert(cs.shape() == keys_shape(c0.shape(), base, levels));
        assert forall|v: Seq<nat>| #[trigger] allowed(cs.gates(), v) implies allowed(c0.gates(), v)
            && (equal_wires(cs.equalities(), v) <==> equal_wires(c0.equalities(), v)
            && keys_are_valid(read_witness(v, base as int, levels))) by {
            assert(allowed(c3.gates(), v));
            assert(allowed(c2.gates(), v));
            assert(allowed(c1.gates(), v));
            lemma_equal_push(c0.equalities(), q1, v);
            lemma_equal_push(c1.equalities(), q2, v);
            lemma_equal_push(c2.equalities(), q3, v);
            assert(pick_bits(v, wires.indices@) =~= read_witness(
                v,
                base as int,
                levels,
            ).directions);
        }
    }
}

/// Whether the notes of a spend are as they have to be, and the sum in the field.
spec fn notes_are_valid(s: Statement, w: Witness) -> bool {
    let in_commitment = commitment_spec(s.rune_id, w.in_amount, w.in_blinding, w.owner_pk);
    &&& climb(w.siblings, w.directions, in_commitment, w.siblings.len()) == s.anchor
    &&& nullifier_spec(w.nullifier_key, w.note_index, in_commitment) == s.nullifier
    &&& commitment_spec(s.rune_id, w.out_amount, w.out_blinding, w.out_owner_pk)
        == s.out_commitment
    &&& w.in_amount == add_mod(w.out_amount, s.fee)
}

/// Whether the keys and the place of a spend are as they have to be.
spec fn keys_are_valid(w: Witness) -> bool {
    &&& w.nullifier_key == nullifier_key_spec(w.spending_key)
    &&& w.owner_pk == public_key_spec(w.spending_key)
    &&& w.note_index == index_of(w.directions)
}

proof fn lemma_equal_push(equalities: Seq<(usize, usize)>, q: (usize, usize), wires: Seq<nat>)
    ensures
        equal_wires(equalities.push(q), wires) <==> equal_wires(equalities, wires) && wires[
        q.0 as int] == wires[q.1 as int],
{
    let all = equalities.push(q);
    if equal_wires(all, wires) {
        assert forall|k: int| 0 <= k < equalities.len() implies wires[(
        #[trigger] equalities[k]).0 as int] == wires[equalities[k].1 as int] by {
            assert(all[k] == equalities[k]);
        }
        assert(all[equalities.len() as int] == q);
    }
    if equal_wires(equalities, wires) && wires[q.0 as int] == wires[q.1 as int] {
        assert forall|k: int| 0 <= k < all.len() implies wires[(#[trigger] all[k]).0 as int]
            == wires[all[k].1 as int] by {
            if k < equalities.len() {
                assert(all[k] == equalities[k]);
            }
        }
    }
}

proof fn lemma_allocation_stays(a: ConstraintSystem, b: ConstraintSystem, base: int, levels: nat)
    requires
        a.grows_to(&b),
        base >= 0,
        base + 14 + 2 * levels <= a.wires().len(),
    ensures
        read_statement(b.wires(), base) == read_statement(a.wires(), base),
        read_witness(b.wires(), base, levels) == read_witness(a.wires(), base, levels),
{
    let n = a.wires().len() as int;
    assert forall|i: int| 0 <= i < n implies #[trigger] b.wires()[i] == a.wires()[i] by {
        assert(b.wires().take(n)[i] == b.wires()[i]);
    }
    assert(read_witness(b.wires(), base, levels) =~= read_witness(a.wires(), base, levels));
}

proof fn lemma_bits_stay(bits: Seq<Boolean>, a: ConstraintSystem, b: ConstraintSystem)
    requires
        a.grows_to(&b),
        bits_in_system(bits, a.gates()),
    ensures
        bits_in_system(bits, b.gates()),
{
    assert forall|i: int| 0 <= i < bits.len() implies (#[trigger] bits[i]).index < b.gates().len()
        && b.gates()[bits[i].index as int] == Gate::BoolWitness by {
        let at = bits[i].index as int;
        assert(b.gates().take(a.gates().len() as int)[at] == b.gates()[at]);
    }
}

/// An equality between wires of a system says the same in a longer one.
proof fn lemma_equality_stays(a: ConstraintSystem, b: ConstraintSystem, q: (usize, usize))
    requires
        a.grows_to(&b),
        q.0 < a.wires().len(),
        q.1 < a.wires().len(),
    ensures
        b.wires()[q.0 as int] == a.wires()[q.0 as int],
        b.wires()[q.1 as int] == a.wires()[q.1 as int],
{
    let n = a.wires().len() as int;
    assert(b.wires().take(n)[q.0 as int] == b.wires()[q.0 as int]);
    assert(b.wires().take(n)[q.1 as int] == b.wires()[q.1 as int]);
}

/// The equalities of a system say the same in a longer one.
proof fn lemma_old_equalities(a: ConstraintSystem, b: ConstraintSystem)
    requires
        a.wf(),
        a.grows_to(&b),
    ensures
        equal_wires(a.equalities(), b.wires()) <==> equal_wires(a.equalities(), a.wires()),
{
    assert forall|k: int| 0 <= k < a.equalities().len() implies {
        &&& b.wires()[(#[trigger] a.equalities()[k]).0 as int]
            == a.wires()[a.equalities()[k].0 as int]
        &&& b.wires()[a.equalities()[k].1 as int] == a.wires()[a.equalities()[k].1 as int]
    } by {
        lemma_equality_stays(a, b, a.equalities()[k]);
    }
}

/// Demands of the notes of a spend what has to hold of them: that the spent note is under the root,
/// that the nullifier is its own, that the new commitment is to a note of the same Rune, and that
/// the amounts add up in the field.
#[verifier::rlimit(80)]
fn enforce_notes(
    cs: &mut ConstraintSystem,
    wires: &SpendWires,
    Ghost(base): Ghost<nat>,
    Ghost(levels): Ghost<nat>,
)
    requires
        old(cs).wf(),
        wires.at(base as int, levels),
        base + 14 + 2 * levels <= old(cs).gates().len(),
    ensures
        final(cs).wf(),
        old(cs).grows_to(final(cs)),
        final(cs).shape() == notes_shape(old(cs).shape(), base, levels),
        forall|v: Seq<nat>| #[trigger]
            allowed(final(cs).gates(), v) ==> allowed(old(cs).gates(), v) && (equal_wires(
                final(cs).equalities(),
                v,
            ) <==> equal_wires(old(cs).equalities(), v) && notes_are_valid(
                read_statement(v, base as int),
                read_witness(v, base as int, levels),
            )),
{
    let ghost c1 = *cs;
    proof {
        assert(wires.siblings@ =~= sibling_wires(base, levels));
        assert(wires.indices@ =~= direction_wires(base, levels));
    }
    let in_commitment = hash4_var(
        cs,
        wires.rune_id,
        wires.in_amount,
        wires.in_blinding,
        wires.owner_pk,
    );
    let ghost c2 = *cs;

    verify_merkle_path_var(cs, in_commitment, &wires.siblings, &wires.indices, wires.anchor);
    let ghost c3 = *cs;

    let nullifier = hash3_var(cs, wires.nullifier_key, wires.note_index, in_commitment);
    let ghost c4 = *cs;
    cs.enforce_equal(nullifier, wires.nullifier);
    let ghost c5 = *cs;

    let out_commitment = hash4_var(
        cs,
        wires.rune_id,
        wires.out_amount,
        wires.out_blinding,
        wires.out_owner_pk,
    );
    let ghost c6 = *cs;
    cs.enforce_equal(out_commitment, wires.out_commitment);
    let ghost c7 = *cs;

    let sum = cs.plus(wires.out_amount, wires.fee);
    let ghost c8 = *cs;
    cs.enforce_equal(wires.in_amount, sum);

    proof {
        lemma_grows_transitive(c1, c2, c3);
        lemma_grows_transitive(c1, c3, c4);
        lemma_grows_transitive(c1, c4, c5);
        lemma_grows_transitive(c1, c5, c6);
        lemma_grows_transitive(c1, c6, c7);
        lemma_grows_transitive(c1, c7, c8);
        lemma_grows_transitive(c1, c8, *cs);
        let q1 = c3.equalities().last();
        let q2 = (nullifier.index, wires.nullifier.index);
        let q3 = (out_commitment.index, wires.out_commitment.index);
        let q4 = (wires.in_amount.index, sum.index);
        assert(c3.equalities() =~= c1.equalities().push(q1));
        assert(cs.shape() == notes_shape(c1.shape(), base, levels));
        assert forall|v: Seq<nat>| #[trigger] allowed(cs.gates(), v) implies allowed(c1.gates(), v)
            && (equal_wires(cs.equalities(), v) <==> equal_wires(c1.equalities(), v)
            && notes_are_valid(
            read_statement(v, base as int),
            read_witness(v, base as int, levels),
        )) by {
            assert(allowed(c8.gates(), v));
            assert(allowed(c7.gates(), v));
            assert(allowed(c6.gates(), v));
            assert(allowed(c5.gates(), v));
            assert(allowed(c4.gates(), v));
            assert(allowed(c3.gates(), v));
            assert(allowed(c2.gates(), v));
            lemma_equal_push(c1.equalities(), q1, v);
            lemma_equal_push(c3.equalities(), q2, v);
            lemma_equal_push(c5.equalities(), q3, v);
            lemma_equal_push(c7.equalities(), q4, v);
            assert(pick(v, wires.siblings@) =~= read_witness(v, base as int, levels).siblings);
            assert(pick_bits(v, wires.indices@) =~= read_witness(
                v,
                base as int,
                levels,
            ).directions);
        }
    }
}

/// Demands that a wire holds the hash of a key and a constant. One equality is added.
fn enforce_derived_key(cs: &mut ConstraintSystem, key: FpVar, domain: u64, derived: FpVar)
    requires
        old(cs).wf(),
        key.index < old(cs).gates().len(),
        derived.index < old(cs).gates().len(),
    ensures
        final(cs).wf(),
        old(cs).grows_to(final(cs)),
        final(cs).shape() == derived_key_shape(old(cs).shape(), key, domain, derived),
        final(cs).equalities().len() == old(cs).equalities().len() + 1,
        final(cs).equalities().drop_last() == old(cs).equalities(),
        forall|wires: Seq<nat>| #[trigger]
            allowed(final(cs).gates(), wires) ==> allowed(old(cs).gates(), wires) && (wires[
            final(cs).equalities().last().0 as int] == wires[
            final(cs).equalities().last().1 as int] <==> wires[derived.index as int] == hash2_spec(
                wires[key.index as int],
                domain as nat,
            )),
{
    let ghost c0 = *cs;
    let tag = Fr::from(domain);
    let constant = cs.constant(tag);
    let ghost c1 = *cs;
    let hash = hash2_var(cs, key, constant);
    let ghost c2 = *cs;
    cs.enforce_equal(hash, derived);
    proof {
        lemma_element(tag);
        lemma_grows_transitive(c0, c1, c2);
        lemma_grows_transitive(c0, c2, *cs);
        assert(cs.equalities().drop_last() =~= c0.equalities());
        assert forall|wires: Seq<nat>| #[trigger] allowed(cs.gates(), wires) implies allowed(
            c0.gates(),
            wires,
        ) && (wires[hash.index as int] == wires[derived.index as int] <==> wires[
        derived.index as int] == hash2_spec(wires[key.index as int], domain as nat)) by {
            assert(allowed(c1.gates(), wires));
        }
    }
}

/// The wires of the public inputs and the private values.
struct SpendWires {
    rune_id: FpVar,
    anchor: FpVar,
    nullifier: FpVar,
    out_commitment: FpVar,
    fee: FpVar,
    in_amount: FpVar,
    in_blinding: FpVar,
    owner_pk: FpVar,
    nullifier_key: FpVar,
    note_index: FpVar,
    siblings: Vec<FpVar>,
    indices: Vec<Boolean>,
    out_amount: FpVar,
    out_blinding: FpVar,
    out_owner_pk: FpVar,
    spending_key: FpVar,
}

impl SpendWires {
    /// Whether the wires are the ones from `base` on, in order.
    spec fn at(self, base: int, levels: nat) -> bool {
        &&& self.rune_id.index == base
        &&& self.anchor.index == base + 1
        &&& self.nullifier.index == base + 2
        &&& self.out_commitment.index == base + 3
        &&& self.fee.index == base + 4
        &&& self.in_amount.index == base + 5
        &&& self.in_blinding.index == base + 6
        &&& self.owner_pk.index == base + 7
        &&& self.nullifier_key.index == base + 8
        &&& self.note_index.index == base + 9
        &&& self.siblings@.len() == levels
        &&& self.indices@.len() == levels
        &&& forall|i: int|
            0 <= i < levels ==> (#[trigger] self.siblings@[i]).index == base + 10 + i
        &&& forall|i: int|
            0 <= i < levels ==> (#[trigger] self.indices@[i]).index == base + 10 + levels + i
        &&& self.out_amount.index == base + 10 + 2 * levels
        &&& self.out_blinding.index == base + 11 + 2 * levels
        &&& self.out_owner_pk.index == base + 12 + 2 * levels
        &&& self.spending_key.index == base + 13 + 2 * levels
    }
}

/// Adds the public inputs and the private values to a system.
#[verifier::rlimit(60)]
fn allocate(cs: &mut ConstraintSystem, w: &SpendWitness, s: &SpendStatement) -> (wires: SpendWires)
    requires
        old(cs).wf(),
        w.merkle_siblings@.len() == w.merkle_indices@.len(),
    ensures
        final(cs).wf(),
        old(cs).grows_to(final(cs)),
        final(cs).equalities() == old(cs).equalities(),
        ({
            let base = old(cs).gates().len() as int;
            let levels = w.merkle_siblings@.len();
            &&& wires.at(base, levels)
            &&& final(cs).gates() == old(cs).gates() + spend_values(levels)
            &&& read_statement(final(cs).wires(), base) == s@
            &&& read_witness(final(cs).wires(), base, levels) == w@
        }),
{
    let ghost c0 = *cs;
    let ghost base = cs.gates().len() as int;
    let ghost levels = w.merkle_siblings@.len();
    let rune_id = cs.new_input(s.rune_id);
    let anchor = cs.new_input(s.anchor);
    let nullifier = cs.new_input(s.nullifier);
    let out_commitment = cs.new_input(s.out_commitment);
    let fee = cs.new_input(s.fee);
    let in_amount = cs.new_witness(w.in_amount);
    let in_blinding = cs.new_witness(w.in_blinding);
    let owner_pk = cs.new_witness(w.owner_pk);
    let nullifier_key = cs.new_witness(w.nullifier_key);
    let note_index = cs.new_witness(w.note_index);
    let ghost g10 = cs.gates();
    let ghost w10 = cs.wires();
    proof {
        assert(g10.take(g10.len() as int) =~= g10);
        assert(w10.take(w10.len() as int) =~= w10);
    }
    let mut siblings: Vec<FpVar> = Vec::new();
    let mut i: usize = 0;
    while i < w.merkle_siblings.len()
        invariant
            i <= w.merkle_siblings@.len(),
            levels == w.merkle_siblings@.len(),
            cs.wf(),
            cs.equalities() == c0.equalities(),
            g10.len() == base + 10,
            w10.len() == base + 10,
            base >= 0,
            starts(g10, cs.gates()),
            starts(w10, cs.wires()),
            cs.gates().len() == base + 10 + i,
            siblings@.len() == i,
            forall|k: int| 0 <= k < i ==> (#[trigger] siblings@[k]).index == base + 10 + k,
            forall|k: int|
                base + 10 <= k < base + 10 + i ==> #[trigger] cs.gates()[k] == Gate::Witness,
            forall|k: int|
                0 <= k < i ==> cs.wires()[base + 10 + k] == (
                #[trigger] w.merkle_siblings@[k])@,
        decreases w.merkle_siblings@.len() - i,
    {
        let ghost c = *cs;
        let var = cs.new_witness(w.merkle_siblings[i]);
        siblings.push(var);
        proof {
            assert(cs.gates().take(base + 10) =~= c.gates().take(base + 10));
            assert(cs.wires().take(base + 10) =~= c.wires().take(base + 10));
        }
        i = i + 1;
    }
    let ghost g20 = cs.gates();
    let ghost w20 = cs.wires();
    proof {
        assert(g20.take(g20.len() as int) =~= g20);
        assert(w20.take(w20.len() as int) =~= w20);
    }
    let mut indices: Vec<Boolean> = Vec::new();
    let mut i: usize = 0;
    while i < w.merkle_indices.len()
        invariant
            i <= w.merkle_indices@.len(),
            levels == w.merkle_indices@.len(),
            cs.wf(),
            cs.equalities() == c0.equalities(),
            base >= 0,
            g20.len() == base + 10 + levels,
            w20.len() == base + 10 + levels,
            starts(g20, cs.gates()),
            starts(w20, cs.wires()),
            cs.gates().len() == base + 10 + levels + i,
            indices@.len() == i,
            forall|k: int|
                0 <= k < i ==> (#[trigger] indices@[k]).index == base + 10 + levels + k,
            forall|k: int|
                base + 10 + levels <= k < base + 10 + levels + i ==> #[trigger] cs.gates()[k]
                    == Gate::BoolWitness,
            forall|k: int|
                0 <= k < i ==> (cs.wires()[base + 10 + levels + k] == 1) == (
                #[trigger] w.merkle_indices@[k]),
        decreases w.merkle_indices@.len() - i,
    {
        let ghost c = *cs;
        let var = cs.new_bool_witness(w.merkle_indices[i]);
        indices.push(var);
        proof {
            assert(cs.gates().take(base + 10 + levels) =~= c.gates().take(base + 10 + levels));
            assert(cs.wires().take(base + 10 + levels) =~= c.wires().take(base + 10 + levels));
        }
        i = i + 1;
    }
    let ghost g30 = cs.gates();
    let ghost w30 = cs.wires();
    let out_amount = cs.new_witness(w.out_amount);
    let out_blinding = cs.new_witness(w.out_blinding);
    let out_owner_pk = cs.new_witness(w.out_owner_pk);
    let spending_key = cs.new_witness(w.spending_key);
    proof {
        let n = base + 10;
        assert forall|k: int| 0 <= k < n implies #[trigger] cs.gates()[k] == g10[k] by {
            assert(g20.take(n)[k] == g20[k]);
            assert(g30.take(n + levels)[k] == g30[k]);
        }
        assert forall|k: int| 0 <= k < n implies #[trigger] cs.wires()[k] == w10[k] by {
            assert(w20.take(n)[k] == w20[k]);
            assert(w30.take(n + levels)[k] == w30[k]);
        }
        assert forall|k: int| n <= k < n + levels implies #[trigger] cs.gates()[k]
            == Gate::Witness by {
            assert(g30.take(n + levels)[k] == g30[k]);
        }
        assert forall|k: int| 0 <= k < levels implies #[trigger] cs.wires()[n + k]
            == w.merkle_siblings@[k]@ by {
            assert(w30.take(n + levels)[n + k] == w30[n + k]);
        }
        assert forall|k: int| 0 <= k < levels implies (#[trigger] cs.wires()[n + levels + k] == 1)
            == w.merkle_indices@[k] by {
            assert(cs.wires()[n + levels + k] == w30[n + levels + k]);
        }
        assert(cs.gates() =~= c0.gates() + spend_values(levels));
        assert(cs.gates().take(base) =~= c0.gates());
        assert(cs.wires().take(base) =~= c0.wires());
        assert(cs.equalities().take(c0.equalities().len() as int) =~= c0.equalities());
        let read = read_witness(cs.wires(), base, levels);
        assert(read.siblings =~= w@.siblings);
        assert(read.directions =~= w@.directions);
        assert(read == w@);
    }
    SpendWires {
        rune_id,
        anchor,
        nullifier,
        out_commitment,
        fee,
        in_amount,
        in_blinding,
        owner_pk,
        nullifier_key,
        note_index,
        siblings,
        indices,
        out_amount,
        out_blinding,
        out_owner_pk,
        spending_key,
    }
}

/// Why a proof could not be checked.
#[derive(Clone, Copy, Debug, PartialEq, Eq, Structural)]
pub enum CircuitError {
    /// The key or the proof is malformed.
    VerifyFailed,
}

/// What Groth16 verification on BN254 says of the compressed forms of a verifying key and a proof,
/// for the given public inputs. Nothing where the key or the proof is malformed.
pub uninterp spec fn groth16_outcome(
    vk: Seq<u8>,
    inputs: Seq<nat>,
    proof: Seq<u8>,
) -> Option<bool>;

/// The values of a sequence of limbs.
pub open spec fn limb_values(limbs: Seq<[u64; 4]>) -> Seq<nat> {
    Seq::new(limbs.len(), |i: int| limbs_value(limbs[i]@))
}

/// Whether a compressed verifying key announces six points behind its four fixed ones, as a key for
/// five public inputs does.
pub open spec fn key_for_five_inputs(vk: Seq<u8>) -> bool {
    vk.len() >= 232 && le_value(vk.subrange(224, 232)) == 6
}

/// `ark_groth16`'s `SNARK::verify_with_processed_vk` on BN254, for the key and the proof that
/// `deserialize_compressed` reads from the bytes and `SNARK::process_vk` prepares. The outcome is a
/// function of the bytes and the inputs alone.
#[verifier::external_body]
fn groth16_verify(vk: &[u8], inputs: &Vec<[u64; 4]>, proof: &[u8]) -> (r: Option<bool>)
    requires
        key_for_five_inputs(vk@),
        forall|i: int|
            0 <= i < inputs@.len() ==> limbs_value((#[trigger] inputs@[i])@) < modulus(),
    ensures
        r == groth16_outcome(vk@, limb_values(inputs@), proof@),
{
    let vk = ark_groth16::VerifyingKey::<ark_bn254::Bn254>::deserialize_compressed(vk).ok()?;
    let proof = ark_groth16::Proof::<ark_bn254::Bn254>::deserialize_compressed(proof).ok()?;
    let inputs: Vec<ark_bn254::Fr> = inputs
        .iter()
        .map(|limbs| ark_bn254::Fr::from_bigint(ark_ff::BigInt(*limbs)).unwrap())
        .collect();
    let pvk = ark_groth16::Groth16::<ark_bn254::Bn254>::process_vk(&vk).ok()?;
    ark_groth16::Groth16::<ark_bn254::Bn254>::verify_with_processed_vk(&pvk, &inputs, &proof).ok()
}

/// The answer that an outcome of verification gives.
pub fn verdict(outcome: Option<bool>) -> (r: Result<bool, CircuitError>)
    ensures
        outcome matches Some(valid) ==> r == Ok::<bool, CircuitError>(valid),
        outcome is None ==> r == Err::<bool, CircuitError>(CircuitError::VerifyFailed),
{
    match outcome {
        Some(valid) => Ok(valid),
        None => Err(CircuitError::VerifyFailed),
    }
}

/// Checks a proof of a statement. The verifying key and the proof are given in compressed form; a
/// key that is not for five public inputs is malformed.
pub fn verify(vk: &[u8], statement: &SpendStatement, proof: &[u8]) -> (r: Result<
    bool,
    CircuitError,
>)
    ensures
        r == (if key_for_five_inputs(vk@) {
            match groth16_outcome(vk@, statement@.inputs(), proof@) {
                Some(valid) => Ok(valid),
                None => Err(CircuitError::VerifyFailed),
            }
        } else {
            Err(CircuitError::VerifyFailed)
        }),
{
    if vk.len() < 232 {
        return Err(CircuitError::VerifyFailed);
    }
    let count = slice_to_vec(vk, 224, 232);
    if u64_from_le_bytes(count.as_slice()) != 6 {
        return Err(CircuitError::VerifyFailed);
    }
    let inputs = statement.to_inputs();
    let mut limbs: Vec<[u64; 4]> = Vec::new();
    let mut i: usize = 0;
    while i < inputs.len()
        invariant
            i <= inputs@.len(),
            limbs@.len() == i,
            forall|k: int|
                0 <= k < i ==> limbs_value((#[trigger] limbs@[k])@) == inputs@[k]@
                    && inputs@[k]@ < modulus(),
        decreases inputs@.len() - i,
    {
        let ghost before = limbs@;
        let next = inputs[i].limbs();
        limbs.push(next);
        assert forall|k: int| 0 <= k < i + 1 implies limbs_value((#[trigger] limbs@[k])@)
            == inputs@[k]@ && inputs@[k]@ < modulus() by {
            if k < i {
                assert(limbs@[k] == before[k]);
            } else {
                assert(limbs@[k] == next);
            }
        }
        i = i + 1;
    }
    assert(limb_values(limbs@) =~= values(inputs@));
    verdict(groth16_verify(vk, &limbs, proof))
}

/// Whatever proves a statement, amounts and fee add up as numbers: nothing is created or destroyed.
pub proof fn law_conservation(s: Statement, w: Witness)
    requires
        spend_is_valid(s, w),
    ensures
        w.in_amount == w.out_amount + s.fee,
{
    lemma_modulus_fits();
    vstd::arithmetic::div_mod::lemma_small_mod(w.out_amount + s.fee, modulus());
}

impl Witness {
    /// Whether the numbers are field elements.
    pub open spec fn is_in_field(self) -> bool {
        &&& self.in_amount < modulus()
        &&& self.in_blinding < modulus()
        &&& self.owner_pk < modulus()
        &&& self.spending_key < modulus()
        &&& in_field(self.siblings)
    }
}

impl Statement {
    /// What the commitment to the spent note is the hash of.
    pub open spec fn spent_note(self, w: Witness) -> Seq<nat> {
        seq![self.rune_id, w.in_amount, w.in_blinding, w.owner_pk]
    }

    /// The commitment to the spent note.
    pub open spec fn spent_commitment(self, w: Witness) -> nat {
        commitment_spec(self.rune_id, w.in_amount, w.in_blinding, w.owner_pk)
    }
}

impl Witness {
    /// What the owner of the spent note is the hash of.
    pub open spec fn owner_preimage(self) -> Seq<nat> {
        seq![self.spending_key, DOMAIN_PUBLIC_KEY as nat]
    }
}

/// Whoever spends a note at a place publishes the same nullifier for it: two proofs that spend notes
/// with one commitment, at one place, publish one nullifier, unless the two notes differ and their
/// commitments collide, or the two spending keys differ and their public keys collide.
pub proof fn law_one_nullifier_per_note(s1: Statement, w1: Witness, s2: Statement, w2: Witness)
    requires
        spend_is_valid(s1, w1),
        spend_is_valid(s2, w2),
        s1.rune_id < modulus() && w1.is_in_field(),
        s2.rune_id < modulus() && w2.is_in_field(),
        s1.spent_commitment(w1) == s2.spent_commitment(w2),
        w1.directions == w2.directions,
        !collide(s1.spent_note(w1), s2.spent_note(w2)),
        !collide(w1.owner_preimage(), w2.owner_preimage()),
    ensures
        w1.spending_key == w2.spending_key,
        s1.nullifier == s2.nullifier,
{
    let (x, y) = (s1.spent_note(w1), s2.spent_note(w2));
    lemma_hash4_fixes(x, y);
    assert(x[3] == y[3]);
    lemma_modulus_fits();
    lemma_hash2_fixes(
        w1.spending_key,
        DOMAIN_PUBLIC_KEY as nat,
        w2.spending_key,
        DOMAIN_PUBLIC_KEY as nat,
    );
}

/// A leaf has one nullifier: two proofs under one root that spend what is at one place publish one
/// nullifier, so that the second is seen to spend what is spent. It takes two different inputs with
/// one hash, on the two paths, in the two notes or in the two keys, to escape that.
pub proof fn law_one_nullifier_per_leaf(s1: Statement, w1: Witness, s2: Statement, w2: Witness)
    requires
        spend_is_valid(s1, w1),
        spend_is_valid(s2, w2),
        s1.rune_id < modulus() && w1.is_in_field(),
        s2.rune_id < modulus() && w2.is_in_field(),
        s1.anchor == s2.anchor,
        w1.siblings.len() == w2.siblings.len(),
        w1.directions == w2.directions,
        !climbs_collide(
            w1.siblings,
            w2.siblings,
            w1.directions,
            s1.spent_commitment(w1),
            s2.spent_commitment(w2),
            w1.siblings.len(),
        ),
        !collide(s1.spent_note(w1), s2.spent_note(w2)),
        !collide(w1.owner_preimage(), w2.owner_preimage()),
    ensures
        s1.nullifier == s2.nullifier,
{
    lemma_hash_in_field(s1.rune_id, w1.in_amount, w1.in_blinding, w1.owner_pk);
    lemma_hash_in_field(s2.rune_id, w2.in_amount, w2.in_blinding, w2.owner_pk);
    law_root_fixes_path(
        w1.siblings,
        w2.siblings,
        w1.directions,
        s1.spent_commitment(w1),
        s2.spent_commitment(w2),
        w1.siblings.len(),
    );
    law_one_nullifier_per_note(s1, w1, s2, w2);
}

/// What a nullifier is the hash of.
pub open spec fn nullifier_preimage(s: Statement, w: Witness) -> Seq<nat> {
    seq![w.nullifier_key, w.note_index, s.spent_commitment(w)]
}

/// Different leaves have different nullifiers: two proofs that publish one nullifier spend notes with
/// one commitment, at places that are one number in the field, unless the nullifiers collide.
pub proof fn law_nullifier_fixes_note(s1: Statement, w1: Witness, s2: Statement, w2: Witness)
    requires
        spend_is_valid(s1, w1),
        spend_is_valid(s2, w2),
        s1.nullifier == s2.nullifier,
        !collide(nullifier_preimage(s1, w1), nullifier_preimage(s2, w2)),
    ensures
        s1.spent_commitment(w1) == s2.spent_commitment(w2),
        index_of(w1.directions) == index_of(w2.directions),
        w1.nullifier_key == w2.nullifier_key,
{
    lemma_hash_in_field(s1.rune_id, w1.in_amount, w1.in_blinding, w1.owner_pk);
    lemma_hash_in_field(s2.rune_id, w2.in_amount, w2.in_blinding, w2.owner_pk);
    lemma_hash_in_field(w1.spending_key, DOMAIN_NULLIFIER_KEY as nat, 0, 0);
    lemma_hash_in_field(w2.spending_key, DOMAIN_NULLIFIER_KEY as nat, 0, 0);
    let (x, y) = (nullifier_preimage(s1, w1), nullifier_preimage(s2, w2));
    lemma_hash3_fixes(x, y);
    assert(x[0] == y[0] && x[1] == y[1] && x[2] == y[2]);
}

/// A witness proves a statement exactly where the siblings hash up from the commitment to the spent
/// note to the root, nullifier, new commitment and keys are the hashes that they stand for, and the
/// amounts, which are numbers of 64 bits, add up.
pub proof fn law_what_a_spend_proves(s: Statement, w: Witness)
    ensures
        spend_is_valid(s, w) <==> {
            let spent = hash4_spec(s.rune_id, w.in_amount, w.in_blinding, w.owner_pk);
            &&& climb(w.siblings, w.directions, spent, w.siblings.len()) == s.anchor
            &&& hash3_spec(w.nullifier_key, w.note_index, spent) == s.nullifier
            &&& hash4_spec(s.rune_id, w.out_amount, w.out_blinding, w.out_owner_pk)
                == s.out_commitment
            &&& w.in_amount == w.out_amount + s.fee
            &&& w.out_amount < 0x1_0000_0000_0000_0000
            &&& s.fee < 0x1_0000_0000_0000_0000
            &&& w.nullifier_key == hash2_spec(w.spending_key, 0x7052756e655f6e6b)
            &&& w.owner_pk == hash2_spec(w.spending_key, 0x7052756e655f706b)
            &&& w.note_index == bits_value(w.directions) % modulus()
        },
{
    if w.out_amount <= u64::MAX && s.fee <= u64::MAX {
        lemma_modulus_fits();
        vstd::arithmetic::div_mod::lemma_small_mod(w.out_amount + s.fee, modulus());
    }
}

/// The place that a path starts from has the directions as its binary digits.
pub proof fn law_place_of_a_path(index: nat)
    requires
        index < 0x1_0000_0000,
    ensures
        index_of(path_directions(index)) == index,
{
    crate::circuit::bits::lemma_directions_value(index);
    vstd::arithmetic::div_mod::lemma_small_mod(index, modulus());
}

/// Whoever holds the spending key of a note in the tree can spend it, under the root of the tree,
/// into any note of the same Rune that together with the fee is worth as much.
pub proof fn law_owner_can_spend(
    leaves: Seq<nat>,
    index: nat,
    rune_id: nat,
    blinding: nat,
    spending_key: nat,
    out_amount: nat,
    out_blinding: nat,
    out_owner_pk: nat,
    fee: nat,
)
    requires
        index < leaves.len() <= 0x1_0000_0000,
        leaves[index as int] == hash4_spec(
            rune_id,
            out_amount + fee,
            blinding,
            hash2_spec(spending_key, 0x7052756e655f706b),
        ),
        out_amount < 0x1_0000_0000_0000_0000,
        fee < 0x1_0000_0000_0000_0000,
    ensures
        spend_is_valid(
            (Statement {
                rune_id,
                anchor: root_spec(leaves),
                nullifier: hash3_spec(
                    hash2_spec(spending_key, 0x7052756e655f6e6b),
                    index,
                    leaves[index as int],
                ),
                out_commitment: hash4_spec(rune_id, out_amount, out_blinding, out_owner_pk),
                fee,
            }),
            (Witness {
                in_amount: out_amount + fee,
                in_blinding: blinding,
                owner_pk: hash2_spec(spending_key, 0x7052756e655f706b),
                nullifier_key: hash2_spec(spending_key, 0x7052756e655f6e6b),
                note_index: index,
                siblings: path_siblings(leaves, index),
                directions: path_directions(index),
                out_amount,
                out_blinding,
                out_owner_pk,
                spending_key,
            }),
        ),
{
    law_leaf_included(leaves, index);
    law_place_of_a_path(index);
    lemma_modulus_fits();
    vstd::arithmetic::div_mod::lemma_small_mod(out_amount + fee, modulus());
}

/// The public inputs are Rune, root, nullifier, new commitment and fee, in that order, and so are
/// the first five wires; the private wires follow, with the path in their midst.
pub proof fn law_order_of_inputs(s: Statement, wires: Seq<nat>, base: int, levels: nat, k: int)
    requires
        0 <= base,
        0 <= k < levels,
    ensures
        s.inputs().len() == 5,
        s.inputs()[0] == s.rune_id,
        s.inputs()[1] == s.anchor,
        s.inputs()[2] == s.nullifier,
        s.inputs()[3] == s.out_commitment,
        s.inputs()[4] == s.fee,
        base + 5 <= wires.len() ==> read_statement(wires, base).inputs() == wires.subrange(
            base,
            base + 5,
        ),
        ({
            let w = read_witness(wires, base, levels);
            &&& w.in_amount == wires[base + 5]
            &&& w.in_blinding == wires[base + 6]
            &&& w.owner_pk == wires[base + 7]
            &&& w.nullifier_key == wires[base + 8]
            &&& w.note_index == wires[base + 9]
            &&& w.siblings.len() == levels && w.directions.len() == levels
            &&& w.siblings[k] == wires[base + 10 + k]
            &&& w.directions[k] <==> wires[base + 10 + levels + k] == 1
            &&& w.out_amount == wires[base + 10 + 2 * levels]
            &&& w.out_blinding == wires[base + 11 + 2 * levels]
            &&& w.out_owner_pk == wires[base + 12 + 2 * levels]
            &&& w.spending_key == wires[base + 13 + 2 * levels]
        }),
{
}

/// The circuit for setup has a path of 32 levels and nothing but zeros; a circuit without values is
/// filled like it.
pub proof fn law_setup_is_zeros(circuit: SpendCircuit)
    ensures
        zero_statement().inputs() == seq![0nat, 0, 0, 0, 0],
        zero_witness() == (Witness {
            in_amount: 0,
            in_blinding: 0,
            owner_pk: 0,
            nullifier_key: 0,
            note_index: 0,
            siblings: Seq::new(32, |i: int| 0),
            directions: Seq::new(32, |i: int| false),
            out_amount: 0,
            out_blinding: 0,
            out_owner_pk: 0,
            spending_key: 0,
        }),
        circuit.statement is None ==> circuit.statement_value() == zero_statement(),
        circuit.statement matches Some(s) ==> circuit.statement_value() == s@,
        circuit.witness is None ==> circuit.witness_value() == zero_witness(),
        circuit.witness matches Some(w) ==> circuit.witness_value() == w@,
{
}

/// A verifying key is read where it announces six points, in the eight bytes behind 224.
pub proof fn law_key_announces_six_points(vk: Seq<u8>)
    ensures
        key_for_five_inputs(vk) <==> {
            &&& vk.len() >= 232
            &&& vk.subrange(224, 232) == seq![6u8, 0, 0, 0, 0, 0, 0, 0]
        },
{
    if vk.len() >= 232 {
        let count = vk.subrange(224, 232);
        let six = seq![6u8, 0, 0, 0, 0, 0, 0, 0];
        lemma_le_bytes_of_value(count);
        lemma_le_bytes_of_value(six);
        reveal_with_fuel(le_value, 9);
        assert(le_value(six) == 6);
        if le_value(count) == 6 {
            assert(count == six);
        }
    }
}

} // verus!
