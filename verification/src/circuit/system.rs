//! Arithmetic circuits: gates, the values on their wires, and equalities between wires.
//!
//! A gate with number `i` fixes what wire `i` may hold. An assignment of numbers to wires satisfies
//! the circuit when every gate allows it and every equality holds. A system is built together with
//! one assignment that all gates allow.
use vstd::prelude::*;

use crate::field::{add_mod, modulus, mul_mod, values, Fr};

verus! {

/// A gate. Operands are the numbers of earlier wires.
#[derive(Clone, Copy, Debug, PartialEq, Eq, Structural)]
pub enum Gate {
    /// A public input.
    Input,
    /// A private value.
    Witness,
    /// A private bit.
    BoolWitness,
    /// A constant.
    Constant(Fr),
    /// The sum of two wires.
    Add(usize, usize),
    /// The sum of a wire and a constant.
    AddConst(usize, Fr),
    /// The product of a constant and a wire.
    MulConst(usize, Fr),
    /// The square of a wire.
    Square(usize),
    /// The product of two wires.
    Mul(usize, usize),
    /// The second wire where the first, a bit, is one; else the third.
    Select(usize, usize, usize),
}

/// Whether a gate allows what wire `i` holds.
pub open spec fn gate_allows(gate: Gate, wires: Seq<nat>, i: int) -> bool {
    match gate {
        Gate::Input => wires[i] < modulus(),
        Gate::Witness => wires[i] < modulus(),
        Gate::BoolWitness => wires[i] == 0 || wires[i] == 1,
        Gate::Constant(c) => wires[i] == c@,
        Gate::Add(a, b) => wires[i] == add_mod(wires[a as int], wires[b as int]),
        Gate::AddConst(a, c) => wires[i] == add_mod(wires[a as int], c@),
        Gate::MulConst(a, c) => wires[i] == mul_mod(c@, wires[a as int]),
        Gate::Square(a) => wires[i] == mul_mod(wires[a as int], wires[a as int]),
        Gate::Mul(a, b) => wires[i] == mul_mod(wires[a as int], wires[b as int]),
        Gate::Select(c, t, f) => wires[i] == (if wires[c as int] == 1 {
            wires[t as int]
        } else {
            wires[f as int]
        }),
    }
}

/// Whether all operands of a gate are wires below `i`.
pub open spec fn operands_below(gate: Gate, i: int) -> bool {
    match gate {
        Gate::Add(a, b) => a < i && b < i,
        Gate::AddConst(a, _) => a < i,
        Gate::MulConst(a, _) => a < i,
        Gate::Square(a) => a < i,
        Gate::Mul(a, b) => a < i && b < i,
        Gate::Select(c, t, f) => c < i && t < i && f < i,
        _ => true,
    }
}

/// Whether every gate allows the assignment. There may be further wires.
pub open spec fn allowed(gates: Seq<Gate>, wires: Seq<nat>) -> bool {
    &&& gates.len() <= wires.len()
    &&& forall|i: int| 0 <= i < gates.len() ==> gate_allows(#[trigger] gates[i], wires, i)
}

/// Whether every equality holds.
pub open spec fn equal_wires(equalities: Seq<(usize, usize)>, wires: Seq<nat>) -> bool {
    forall|k: int|
        0 <= k < equalities.len() ==> wires[(#[trigger] equalities[k]).0 as int]
            == wires[equalities[k].1 as int]
}

/// Whether the first sequence starts the second.
pub open spec fn starts<A>(a: Seq<A>, b: Seq<A>) -> bool {
    a.len() <= b.len() && b.take(a.len() as int) == a
}

/// The number of a wire.
#[derive(Clone, Copy, Debug)]
pub struct FpVar {
    pub index: usize,
}

/// The number of a wire that holds a bit.
#[derive(Clone, Copy, Debug)]
pub struct Boolean {
    pub index: usize,
}

/// The gates and equalities of a circuit, without values.
#[verifier::ext_equal]
pub struct Shape {
    pub gates: Seq<Gate>,
    pub equalities: Seq<(usize, usize)>,
}

impl Shape {
    /// The wire that the next gate fixes.
    pub open spec fn next(self) -> FpVar {
        FpVar { index: self.gates.len() as usize }
    }

    /// The shape with one more gate.
    pub open spec fn gate(self, gate: Gate) -> Shape {
        Shape { gates: self.gates.push(gate), ..self }
    }

    /// The shape with one more equality.
    pub open spec fn equate(self, a: FpVar, b: FpVar) -> Shape {
        Shape { equalities: self.equalities.push((a.index, b.index)), ..self }
    }
}

/// Gates, one assignment that they allow, and equalities between wires.
pub struct ConstraintSystem {
    gates: Vec<Gate>,
    assignment: Vec<Fr>,
    equalities: Vec<(usize, usize)>,
}

impl ConstraintSystem {
    /// The gates.
    pub closed spec fn gates(&self) -> Seq<Gate> {
        self.gates@
    }

    /// What the wires hold.
    pub closed spec fn wires(&self) -> Seq<nat> {
        values(self.assignment@)
    }

    /// The equalities.
    pub closed spec fn equalities(&self) -> Seq<(usize, usize)> {
        self.equalities@
    }

    /// The gates and the equalities.
    pub open spec fn shape(&self) -> Shape {
        Shape { gates: self.gates(), equalities: self.equalities() }
    }

    /// Whether the gates allow the assignment and nothing refers to a wire that is not there.
    pub open spec fn wf(&self) -> bool {
        &&& self.wires().len() == self.gates().len()
        &&& allowed(self.gates(), self.wires())
        &&& forall|i: int|
            0 <= i < self.gates().len() ==> operands_below(#[trigger] self.gates()[i], i)
        &&& forall|k: int|
            0 <= k < self.equalities().len() ==> {
                &&& (#[trigger] self.equalities()[k]).0 < self.gates().len()
                &&& self.equalities()[k].1 < self.gates().len()
            }
    }

    /// Whether the other system is this one with gates and equalities added.
    pub open spec fn grows_to(&self, other: &ConstraintSystem) -> bool {
        &&& starts(self.gates(), other.gates())
        &&& starts(self.wires(), other.wires())
        &&& starts(self.equalities(), other.equalities())
    }

    /// A system without gates.
    pub fn new() -> (cs: ConstraintSystem)
        ensures
            cs.wf(),
            cs.gates() == Seq::<Gate>::empty(),
            cs.wires() == Seq::<nat>::empty(),
            cs.equalities() == Seq::<(usize, usize)>::empty(),
    {
        let cs = ConstraintSystem {
            gates: Vec::new(),
            assignment: Vec::new(),
            equalities: Vec::new(),
        };
        assert(cs.wires() =~= Seq::<nat>::empty());
        cs
    }

    /// The gates of the system.
    pub fn gate_list(&self) -> (gates: &Vec<Gate>)
        ensures
            gates@ == self.gates(),
    {
        &self.gates
    }

    /// What the wires hold.
    pub fn assignment(&self) -> (assignment: &Vec<Fr>)
        ensures
            values(assignment@) == self.wires(),
    {
        &self.assignment
    }

    /// The equalities of the system.
    pub fn equality_list(&self) -> (equalities: &Vec<(usize, usize)>)
        ensures
            equalities@ == self.equalities(),
    {
        &self.equalities
    }

    /// Adds a gate whose wire holds the given value.
    fn push(&mut self, gate: Gate, value: Fr) -> (index: usize)
        requires
            old(self).wf(),
            operands_below(gate, old(self).gates().len() as int),
            gate_allows(
                gate,
                old(self).wires().push(value@),
                old(self).gates().len() as int,
            ),
        ensures
            final(self).wf(),
            old(self).grows_to(final(self)),
            final(self).equalities() == old(self).equalities(),
            final(self).gates() == old(self).gates().push(gate),
            final(self).wires() == old(self).wires().push(value@),
            index == old(self).gates().len(),
    {
        let index: usize = self.gates.len();
        let ghost before = *self;
        self.gates.push(gate);
        self.assignment.push(value);
        proof {
            assert(self.wires() =~= before.wires().push(value@));
            assert(self.gates().take(index as int) =~= before.gates());
            assert(self.wires().take(index as int) =~= before.wires());
            assert(self.equalities().take(self.equalities().len() as int) =~= before.equalities());
            assert forall|i: int| 0 <= i < self.gates().len() implies gate_allows(
                #[trigger] self.gates()[i],
                self.wires(),
                i,
            ) && operands_below(self.gates()[i], i) by {
                if i < index {
                    assert(self.gates()[i] == before.gates()[i]);
                    assert(gate_allows(before.gates()[i], before.wires(), i));
                    assert(operands_below(before.gates()[i], i));
                }
            }
        }
        index
    }

    /// A public input.
    pub fn new_input(&mut self, value: Fr) -> (var: FpVar)
        requires
            old(self).wf(),
        ensures
            final(self).wf(),
            old(self).grows_to(final(self)),
            final(self).equalities() == old(self).equalities(),
            final(self).gates() == old(self).gates().push(Gate::Input),
            final(self).wires() == old(self).wires().push(value@),
            var.index == old(self).gates().len(),
    {
        proof {
            use_type_invariant(&value);
        }
        FpVar { index: self.push(Gate::Input, value) }
    }

    /// A private value.
    pub fn new_witness(&mut self, value: Fr) -> (var: FpVar)
        requires
            old(self).wf(),
        ensures
            final(self).wf(),
            old(self).grows_to(final(self)),
            final(self).equalities() == old(self).equalities(),
            final(self).gates() == old(self).gates().push(Gate::Witness),
            final(self).wires() == old(self).wires().push(value@),
            var.index == old(self).gates().len(),
    {
        proof {
            use_type_invariant(&value);
        }
        FpVar { index: self.push(Gate::Witness, value) }
    }

    /// A private bit.
    pub fn new_bool_witness(&mut self, value: bool) -> (var: Boolean)
        requires
            old(self).wf(),
        ensures
            final(self).wf(),
            old(self).grows_to(final(self)),
            final(self).equalities() == old(self).equalities(),
            final(self).gates() == old(self).gates().push(Gate::BoolWitness),
            final(self).wires() == old(self).wires().push(
                if value {
                    1
                } else {
                    0
                },
            ),
            var.index == old(self).gates().len(),
    {
        let bit = if value {
            Fr::from(1)
        } else {
            Fr::from(0)
        };
        Boolean { index: self.push(Gate::BoolWitness, bit) }
    }

    /// A constant.
    pub fn constant(&mut self, value: Fr) -> (var: FpVar)
        requires
            old(self).wf(),
        ensures
            final(self).wf(),
            old(self).grows_to(final(self)),
            final(self).equalities() == old(self).equalities(),
            final(self).gates() == old(self).gates().push(Gate::Constant(value)),
            var.index == old(self).gates().len(),
            forall|wires: Seq<nat>| #[trigger]
                allowed(final(self).gates(), wires) ==> allowed(old(self).gates(), wires)
                    && wires[var.index as int] == value@,
    {
        let index: usize = self.push(Gate::Constant(value), value);
        proof {
            lemma_last_gate(old(self).gates(), Gate::Constant(value));
        }
        FpVar { index }
    }

    /// The sum of two wires.
    pub fn plus(&mut self, a: FpVar, b: FpVar) -> (var: FpVar)
        requires
            old(self).wf(),
            a.index < old(self).gates().len(),
            b.index < old(self).gates().len(),
        ensures
            final(self).wf(),
            old(self).grows_to(final(self)),
            final(self).equalities() == old(self).equalities(),
            final(self).gates() == old(self).gates().push(Gate::Add(a.index, b.index)),
            var.index == old(self).gates().len(),
            forall|wires: Seq<nat>| #[trigger]
                allowed(final(self).gates(), wires) ==> allowed(old(self).gates(), wires)
                    && wires[var.index as int] == add_mod(
                    wires[a.index as int],
                    wires[b.index as int],
                ),
    {
        let value = self.assignment[a.index].plus(self.assignment[b.index]);
        let gate = Gate::Add(a.index, b.index);
        let index: usize = self.push(gate, value);
        proof {
            lemma_last_gate(old(self).gates(), gate);
        }
        FpVar { index }
    }

    /// The sum of a wire and a constant.
    pub fn plus_constant(&mut self, a: FpVar, c: Fr) -> (var: FpVar)
        requires
            old(self).wf(),
            a.index < old(self).gates().len(),
        ensures
            final(self).wf(),
            old(self).grows_to(final(self)),
            final(self).equalities() == old(self).equalities(),
            final(self).gates() == old(self).gates().push(Gate::AddConst(a.index, c)),
            var.index == old(self).gates().len(),
            forall|wires: Seq<nat>| #[trigger]
                allowed(final(self).gates(), wires) ==> allowed(old(self).gates(), wires)
                    && wires[var.index as int] == add_mod(wires[a.index as int], c@),
    {
        let value = self.assignment[a.index].plus(c);
        let gate = Gate::AddConst(a.index, c);
        let index: usize = self.push(gate, value);
        proof {
            lemma_last_gate(old(self).gates(), gate);
        }
        FpVar { index }
    }

    /// The product of a constant and a wire.
    pub fn times_constant(&mut self, a: FpVar, c: Fr) -> (var: FpVar)
        requires
            old(self).wf(),
            a.index < old(self).gates().len(),
        ensures
            final(self).wf(),
            old(self).grows_to(final(self)),
            final(self).equalities() == old(self).equalities(),
            final(self).gates() == old(self).gates().push(Gate::MulConst(a.index, c)),
            var.index == old(self).gates().len(),
            forall|wires: Seq<nat>| #[trigger]
                allowed(final(self).gates(), wires) ==> allowed(old(self).gates(), wires)
                    && wires[var.index as int] == mul_mod(c@, wires[a.index as int]),
    {
        let value = c.times(self.assignment[a.index]);
        let gate = Gate::MulConst(a.index, c);
        let index: usize = self.push(gate, value);
        proof {
            lemma_last_gate(old(self).gates(), gate);
        }
        FpVar { index }
    }

    /// The square of a wire.
    pub fn square(&mut self, a: FpVar) -> (var: FpVar)
        requires
            old(self).wf(),
            a.index < old(self).gates().len(),
        ensures
            final(self).wf(),
            old(self).grows_to(final(self)),
            final(self).equalities() == old(self).equalities(),
            final(self).gates() == old(self).gates().push(Gate::Square(a.index)),
            var.index == old(self).gates().len(),
            forall|wires: Seq<nat>| #[trigger]
                allowed(final(self).gates(), wires) ==> allowed(old(self).gates(), wires)
                    && wires[var.index as int] == mul_mod(
                    wires[a.index as int],
                    wires[a.index as int],
                ),
    {
        let value = self.assignment[a.index].times(self.assignment[a.index]);
        let gate = Gate::Square(a.index);
        let index: usize = self.push(gate, value);
        proof {
            lemma_last_gate(old(self).gates(), gate);
        }
        FpVar { index }
    }

    /// The product of two wires.
    pub fn times(&mut self, a: FpVar, b: FpVar) -> (var: FpVar)
        requires
            old(self).wf(),
            a.index < old(self).gates().len(),
            b.index < old(self).gates().len(),
        ensures
            final(self).wf(),
            old(self).grows_to(final(self)),
            final(self).equalities() == old(self).equalities(),
            final(self).gates() == old(self).gates().push(Gate::Mul(a.index, b.index)),
            var.index == old(self).gates().len(),
            forall|wires: Seq<nat>| #[trigger]
                allowed(final(self).gates(), wires) ==> allowed(old(self).gates(), wires)
                    && wires[var.index as int] == mul_mod(
                    wires[a.index as int],
                    wires[b.index as int],
                ),
    {
        let value = self.assignment[a.index].times(self.assignment[b.index]);
        let gate = Gate::Mul(a.index, b.index);
        let index: usize = self.push(gate, value);
        proof {
            lemma_last_gate(old(self).gates(), gate);
        }
        FpVar { index }
    }

    /// One of two wires, by a bit.
    pub fn select(&mut self, condition: Boolean, a: FpVar, b: FpVar) -> (var: FpVar)
        requires
            old(self).wf(),
            condition.index < old(self).gates().len(),
            a.index < old(self).gates().len(),
            b.index < old(self).gates().len(),
        ensures
            final(self).wf(),
            old(self).grows_to(final(self)),
            final(self).equalities() == old(self).equalities(),
            final(self).gates() == old(self).gates().push(
                Gate::Select(condition.index, a.index, b.index),
            ),
            var.index == old(self).gates().len(),
            forall|wires: Seq<nat>| #[trigger]
                allowed(final(self).gates(), wires) ==> allowed(old(self).gates(), wires)
                    && wires[var.index as int] == (if wires[condition.index as int] == 1 {
                    wires[a.index as int]
                } else {
                    wires[b.index as int]
                }),
    {
        let one = Fr::from(1);
        proof {
            crate::field::lemma_fr_equal(self.assignment@[condition.index as int], one);
        }
        let value = if self.assignment[condition.index] == one {
            self.assignment[a.index]
        } else {
            self.assignment[b.index]
        };
        let gate = Gate::Select(condition.index, a.index, b.index);
        let index: usize = self.push(gate, value);
        proof {
            lemma_last_gate(old(self).gates(), gate);
        }
        FpVar { index }
    }

    /// Demands that two wires hold the same.
    pub fn enforce_equal(&mut self, a: FpVar, b: FpVar)
        requires
            old(self).wf(),
            a.index < old(self).gates().len(),
            b.index < old(self).gates().len(),
        ensures
            final(self).wf(),
            old(self).grows_to(final(self)),
            final(self).gates() == old(self).gates(),
            final(self).wires() == old(self).wires(),
            final(self).equalities() == old(self).equalities().push((a.index, b.index)),
    {
        let ghost before = *self;
        self.equalities.push((a.index, b.index));
        proof {
            assert(self.gates().take(self.gates().len() as int) =~= before.gates());
            assert(self.wires().take(self.wires().len() as int) =~= before.wires());
            assert(self.equalities().take(before.equalities().len() as int)
                =~= before.equalities());
        }
    }

    /// Whether the assignment meets every equality. The gates allow it in any case.
    pub fn is_satisfied(&self) -> (r: bool)
        requires
            self.wf(),
        ensures
            r == equal_wires(self.equalities(), self.wires()),
    {
        let mut k: usize = 0;
        while k < self.equalities.len()
            invariant
                self.wf(),
                k <= self.equalities().len(),
                forall|j: int|
                    0 <= j < k ==> self.wires()[(#[trigger] self.equalities()[j]).0 as int]
                        == self.wires()[self.equalities()[j].1 as int],
            decreases self.equalities().len() - k,
        {
            let (a, b) = self.equalities[k];
            assert(self.equalities()[k as int] == (a, b));
            proof {
                crate::field::lemma_fr_equal(
                    self.assignment@[a as int],
                    self.assignment@[b as int],
                );
            }
            if self.assignment[a] != self.assignment[b] {
                return false;
            }
            k = k + 1;
        }
        true
    }
}

/// An assignment that a longer list of gates allows is allowed by its start.
pub proof fn lemma_allowed_start(a: Seq<Gate>, b: Seq<Gate>, wires: Seq<nat>)
    requires
        starts(a, b),
        allowed(b, wires),
    ensures
        allowed(a, wires),
{
    assert forall|i: int| 0 <= i < a.len() implies gate_allows(#[trigger] a[i], wires, i) by {
        assert(b.take(a.len() as int)[i] == b[i]);
    }
}

/// Starting is transitive.
pub proof fn lemma_grows_transitive(a: ConstraintSystem, b: ConstraintSystem, c: ConstraintSystem)
    requires
        a.grows_to(&b),
        b.grows_to(&c),
    ensures
        a.grows_to(&c),
{
    assert(c.gates().take(a.gates().len() as int) =~= b.gates().take(a.gates().len() as int));
    assert(c.wires().take(a.wires().len() as int) =~= b.wires().take(a.wires().len() as int));
    assert(c.equalities().take(a.equalities().len() as int) =~= b.equalities().take(
        a.equalities().len() as int,
    ));
}

proof fn lemma_last_gate(gates: Seq<Gate>, gate: Gate)
    ensures
        forall|wires: Seq<nat>| #[trigger]
            allowed(gates.push(gate), wires) ==> allowed(gates, wires) && gate_allows(
                gate,
                wires,
                gates.len() as int,
            ),
{
    assert forall|wires: Seq<nat>| #[trigger] allowed(gates.push(gate), wires) implies allowed(
        gates,
        wires,
    ) && gate_allows(gate, wires, gates.len() as int) by {
        assert(gates.push(gate).take(gates.len() as int) =~= gates);
        lemma_allowed_start(gates, gates.push(gate), wires);
        assert(gates.push(gate)[gates.len() as int] == gate);
    }
}

/// What a gate allows on its wire: any element, a bit, its constant, or the sum, product, square or
/// choice of its operands in the field.
pub proof fn law_what_a_gate_allows(wires: Seq<nat>, i: int, a: usize, b: usize, c: usize, k: Fr)
    ensures
        gate_allows(Gate::Input, wires, i) <==> wires[i] < modulus(),
        gate_allows(Gate::Witness, wires, i) <==> wires[i] < modulus(),
        gate_allows(Gate::BoolWitness, wires, i) <==> wires[i] <= 1,
        gate_allows(Gate::Constant(k), wires, i) <==> wires[i] == k@,
        gate_allows(Gate::Add(a, b), wires, i) <==> wires[i] == (wires[a as int] + wires[b as int])
            % modulus(),
        gate_allows(Gate::AddConst(a, k), wires, i) <==> wires[i] == (wires[a as int] + k@)
            % modulus(),
        gate_allows(Gate::MulConst(a, k), wires, i) <==> wires[i] == (k@ * wires[a as int])
            % modulus(),
        gate_allows(Gate::Square(a), wires, i) <==> wires[i] == (wires[a as int] * wires[a as int])
            % modulus(),
        gate_allows(Gate::Mul(a, b), wires, i) <==> wires[i] == (wires[a as int] * wires[b as int])
            % modulus(),
        wires[c as int] == 1 ==> (gate_allows(Gate::Select(c, a, b), wires, i) <==> wires[i]
            == wires[a as int]),
        wires[c as int] != 1 ==> (gate_allows(Gate::Select(c, a, b), wires, i) <==> wires[i]
            == wires[b as int]),
{
}

/// An assignment is allowed where each gate allows its wire, and meets the equalities where each
/// pair of wires holds one number: one more gate or equality asks one thing more.
pub proof fn law_system_gate_by_gate(
    gates: Seq<Gate>,
    gate: Gate,
    equalities: Seq<(usize, usize)>,
    equality: (usize, usize),
    wires: Seq<nat>,
)
    ensures
        allowed(Seq::empty(), wires),
        equal_wires(Seq::empty(), wires),
        allowed(gates.push(gate), wires) <==> {
            &&& allowed(gates, wires)
            &&& gates.len() < wires.len()
            &&& gate_allows(gate, wires, gates.len() as int)
        },
        equal_wires(equalities.push(equality), wires) <==> {
            &&& equal_wires(equalities, wires)
            &&& wires[equality.0 as int] == wires[equality.1 as int]
        },
{
    let more = gates.push(gate);
    if allowed(more, wires) {
        assert(more[gates.len() as int] == gate);
        assert forall|i: int| 0 <= i < gates.len() implies gate_allows(
            #[trigger] gates[i],
            wires,
            i,
        ) by {
            assert(more[i] == gates[i]);
        }
    }
    let all = equalities.push(equality);
    if equal_wires(all, wires) {
        assert(all[equalities.len() as int] == equality);
        assert forall|k: int| 0 <= k < equalities.len() implies wires[(
        #[trigger] equalities[k]).0 as int] == wires[equalities[k].1 as int] by {
            assert(all[k] == equalities[k]);
        }
    }
}

} // verus!
