use ark_ff::{BigInteger, PrimeField};
use ark_r1cs_std::alloc::AllocVar;
use ark_r1cs_std::eq::EqGadget;
use ark_r1cs_std::fields::FieldVar;
use ark_r1cs_std::R1CSVar;
use ark_serialize::CanonicalSerialize;
use ark_snark::SNARK;
use prune::circuit::gadgets::{
    bits_var, enforce_u64_var, hash2_var, hash3_var, hash4_var, sbox_var, verify_merkle_path_var,
};
use prune::circuit::system::{Boolean, ConstraintSystem, FpVar, Gate};
use prune::circuit::{
    verdict, verify, CircuitError, SpendCircuit, SpendStatement, SpendWitness,
};
use prune::field::Fr;
use prune::keys::KeySet;
use prune::note::Note;
use prune::nullifier::compute_nullifier;
use prune::poseidon::{hash2, hash3, hash4};
use prune::tree::IncrementalMerkleTree;
use rand::{RngCore, SeedableRng};

/// Build a consistent (witness, statement) pair for a 1-in / 1-out transfer.
///
/// Shielded amount: 1000, fee: 10, output: 990.
fn make_transfer(keys: &KeySet, rune_id: Fr) -> (SpendWitness, SpendStatement) {
    let mut rng = ark_std::test_rng();

    // Create input note
    let mut in_note = Note::with_blinding_seed(rng.next_u64(), rune_id, 1000, keys.public_key);
    // Add to tree
    let mut tree = IncrementalMerkleTree::new();
    let idx = tree.append(in_note.commitment());
    in_note.set_index(idx);

    let anchor = tree.root();
    let merkle_path = tree.merkle_path(idx);
    let commitment = in_note.commitment();
    let nullifier = compute_nullifier(keys.nullifier_key, in_note.note_index, commitment);

    // Create output note (same rune, 990 = 1000 - 10 fee)
    let out_note = Note::with_blinding_seed(rng.next_u64(), rune_id, 990, Fr::from(999u64)); // recipient pk
    let out_commitment = out_note.commitment();

    let witness = SpendWitness {
        in_amount: Fr::from(in_note.amount),
        in_blinding: in_note.blinding,
        owner_pk: in_note.owner_pk,
        nullifier_key: keys.nullifier_key,
        note_index: Fr::from(in_note.note_index),
        merkle_siblings: merkle_path.siblings,
        merkle_indices: merkle_path.indices,
        out_amount: Fr::from(out_note.amount),
        out_blinding: out_note.blinding,
        out_owner_pk: out_note.owner_pk,
        spending_key: keys.spending_key,
    };

    let statement = SpendStatement {
        rune_id,
        anchor,
        nullifier,
        out_commitment,
        fee: Fr::from(10u64),
    };

    (witness, statement)
}

#[test]
fn test_circuit_is_satisfiable() {
    // Verify that a correctly-constructed witness satisfies all constraints.
    // This is the most important test — if it fails, the circuit has a bug.
    let keys = KeySet::from_spending_key(Fr::from(42u64));
    let rune_id = Fr::from(1u64);
    let (witness, statement) = make_transfer(&keys, rune_id);

    let circuit = SpendCircuit::for_prove(witness, statement);
    let mut cs = ConstraintSystem::new();
    circuit.generate_constraints(&mut cs);

    assert!(
        cs.is_satisfied(),
        "valid spend witness must satisfy all constraints"
    );

    let num_constraints = cs.gate_list().len() + cs.equality_list().len();
    println!("SpendCircuit constraint count: {num_constraints}");
}

#[test]
fn test_wrong_nullifier_key_unsatisfiable() {
    // Using the wrong nullifier_key must produce a nullifier that doesn't
    // match the public input → constraints unsatisfied.
    let keys = KeySet::from_spending_key(Fr::from(42u64));
    let rune_id = Fr::from(1u64);
    let (mut witness, statement) = make_transfer(&keys, rune_id);

    // Swap in a wrong nullifier_key
    witness.nullifier_key = Fr::from(999u64);

    let circuit = SpendCircuit::for_prove(witness, statement);
    let mut cs = ConstraintSystem::new();
    circuit.generate_constraints(&mut cs);

    assert!(
        !cs.is_satisfied(),
        "wrong nullifier_key must make constraints unsatisfiable"
    );
}

#[test]
fn test_conservation_violation_unsatisfiable() {
    // If out_amount + fee > in_amount the conservation constraint must fail.
    let keys = KeySet::from_spending_key(Fr::from(42u64));
    let rune_id = Fr::from(1u64);
    let (mut witness, statement) = make_transfer(&keys, rune_id);

    // Inflate the output amount — tries to create value from nothing
    witness.out_amount = Fr::from(2000u64); // > 1000 in_amount

    let circuit = SpendCircuit::for_prove(witness, statement);
    let mut cs = ConstraintSystem::new();
    circuit.generate_constraints(&mut cs);

    assert!(
        !cs.is_satisfied(),
        "conservation violation must make constraints unsatisfiable"
    );
}

#[test]
fn test_wrong_merkle_root_unsatisfiable() {
    // Using an anchor that doesn't match the Merkle path must fail.
    let keys = KeySet::from_spending_key(Fr::from(42u64));
    let rune_id = Fr::from(1u64);
    let (witness, mut statement) = make_transfer(&keys, rune_id);

    // Corrupt the anchor
    statement.anchor = Fr::from(12345u64);

    let circuit = SpendCircuit::for_prove(witness, statement);
    let mut cs = ConstraintSystem::new();
    circuit.generate_constraints(&mut cs);

    assert!(
        !cs.is_satisfied(),
        "wrong anchor must make Merkle path verification fail"
    );
}

#[test]
fn test_wrong_out_commitment_unsatisfiable() {
    // Publishing a different out_commitment than what the circuit computes must fail.
    let keys = KeySet::from_spending_key(Fr::from(42u64));
    let rune_id = Fr::from(1u64);
    let (witness, mut statement) = make_transfer(&keys, rune_id);

    statement.out_commitment = Fr::from(999u64);

    let circuit = SpendCircuit::for_prove(witness, statement);
    let mut cs = ConstraintSystem::new();
    circuit.generate_constraints(&mut cs);

    assert!(
        !cs.is_satisfied(),
        "wrong out_commitment must be rejected"
    );
}

type ArkFr = ark_bn254::Fr;

fn to_ark(x: Fr) -> ArkFr {
    ArkFr::from_le_bytes_mod_order(&x.to_bytes_le())
}

/// Replays the gates and equalities of a system as constraints and says whether they hold.
fn holds_as_constraints(system: &ConstraintSystem) -> bool {
    let cs = ark_relations::r1cs::ConstraintSystem::<ArkFr>::new_ref();
    let mut wires: Vec<ark_r1cs_std::fields::fp::FpVar<ArkFr>> = Vec::new();
    for (gate, value) in system.gate_list().iter().zip(system.assignment()) {
        let value = to_ark(*value);
        let wire = match *gate {
            Gate::Input => ArkVar::new_input(cs.clone(), || Ok(value)).unwrap(),
            Gate::Witness => ArkVar::new_witness(cs.clone(), || Ok(value)).unwrap(),
            Gate::BoolWitness => {
                let bit = value == ArkFr::from(1u64);
                let bit = ArkBool::new_witness(cs.clone(), || Ok(bit)).unwrap();
                ArkVar::from(bit)
            }
            Gate::Constant(c) => ArkVar::constant(to_ark(c)),
            Gate::Add(a, b) => &wires[a] + &wires[b],
            Gate::AddConst(a, c) => &wires[a] + to_ark(c),
            Gate::MulConst(a, c) => &wires[a] * to_ark(c),
            Gate::Square(a) => wires[a].square().unwrap(),
            Gate::Mul(a, b) => &wires[a] * &wires[b],
            Gate::Select(c, a, b) => (&wires[a] - &wires[b]) * &wires[c] + &wires[b],
        };
        assert_eq!(wire.value().unwrap(), value, "every wire holds what its gate computes");
        wires.push(wire);
    }
    for (a, b) in system.equality_list() {
        wires[*a].enforce_equal(&wires[*b]).unwrap();
    }
    cs.is_satisfied().unwrap()
}

type ArkVar = ark_r1cs_std::fields::fp::FpVar<ArkFr>;
type ArkBool = ark_r1cs_std::boolean::Boolean<ArkFr>;

fn synthesized(witness: SpendWitness, statement: SpendStatement) -> ConstraintSystem {
    let mut cs = ConstraintSystem::new();
    SpendCircuit::for_prove(witness, statement).generate_constraints(&mut cs);
    cs
}

#[test]
fn gates_agree_with_constraints() {
    let keys = KeySet::from_spending_key(Fr::from(42));
    let (witness, statement) = make_transfer(&keys, Fr::from(1));
    let good = synthesized(witness.clone(), statement);
    assert!(good.is_satisfied());
    assert!(holds_as_constraints(&good));
    let bad = synthesized(SpendWitness { out_amount: Fr::from(991), ..witness }, statement);
    assert!(!bad.is_satisfied());
    assert!(!holds_as_constraints(&bad));
}

#[test]
fn setup_has_the_shape_of_a_proof() {
    let keys = KeySet::from_spending_key(Fr::from(42));
    let (witness, statement) = make_transfer(&keys, Fr::from(1));
    let proving = synthesized(witness, statement);
    let mut setup = ConstraintSystem::new();
    SpendCircuit::for_setup().generate_constraints(&mut setup);
    assert_eq!(setup.gate_list(), proving.gate_list());
    assert_eq!(setup.equality_list(), proving.equality_list());
    assert_eq!(setup.equality_list().len(), 9);
    let inputs = setup.gate_list().iter().filter(|gate| matches!(gate, Gate::Input)).count();
    assert_eq!(inputs, 5);
}

/// The field element that stands for minus one.
fn minus_one() -> Fr {
    let mut order = <ArkFr as PrimeField>::MODULUS.to_bytes_le();
    order[0] -= 1;
    Fr::from_le_bytes_mod_order(&order)
}

/// A spend of one unit into the given amount and fee.
fn spend_of_one(out_amount: Fr, fee: Fr) -> (SpendWitness, SpendStatement) {
    let keys = KeySet::from_spending_key(Fr::from(42));
    let rune_id = Fr::from(1);
    let mut tree = IncrementalMerkleTree::new();
    let note = Note::with_blinding_seed(5, rune_id, 1, keys.public_key);
    tree.append(note.commitment());
    let path = tree.merkle_path(0);
    let statement = SpendStatement {
        rune_id,
        anchor: tree.root(),
        nullifier: compute_nullifier(keys.nullifier_key, 0, note.commitment()),
        out_commitment: hash4(rune_id, out_amount, Fr::from(6), Fr::from(7)),
        fee,
    };
    let witness = SpendWitness {
        in_amount: Fr::from(1),
        in_blinding: note.blinding,
        owner_pk: note.owner_pk,
        nullifier_key: keys.nullifier_key,
        note_index: Fr::from(0),
        merkle_siblings: path.siblings,
        merkle_indices: path.indices,
        out_amount,
        out_blinding: Fr::from(6),
        out_owner_pk: Fr::from(7),
        spending_key: keys.spending_key,
    };
    (witness, statement)
}

#[test]
fn sums_that_wrap_around_are_refused() {
    // In the field -1 + 2 = 1.
    for (out_amount, fee, expected) in [
        (Fr::from(1), Fr::from(0), true),
        (Fr::from(0), Fr::from(1), true),
        (minus_one(), Fr::from(2), false),
        (Fr::from(2), minus_one(), false),
    ] {
        let (witness, statement) = spend_of_one(out_amount, fee);
        let system = synthesized(witness, statement);
        assert_eq!(system.is_satisfied(), expected);
        assert_eq!(holds_as_constraints(&system), expected);
    }
}

#[test]
fn only_the_owner_spends() {
    let (witness, statement) = spend_of_one(Fr::from(1), Fr::from(0));
    let thief = KeySet::from_spending_key(Fr::from(43));
    let commitment =
        hash4(statement.rune_id, witness.in_amount, witness.in_blinding, witness.owner_pk);
    let stolen = SpendStatement {
        nullifier: compute_nullifier(thief.nullifier_key, 0, commitment),
        ..statement
    };
    let other_key = SpendWitness {
        nullifier_key: thief.nullifier_key,
        spending_key: thief.spending_key,
        ..witness.clone()
    };
    assert!(!synthesized(other_key, stolen).is_satisfied());
    let mixed = SpendWitness { nullifier_key: thief.nullifier_key, ..witness };
    assert!(!synthesized(mixed, stolen).is_satisfied());
}

#[test]
fn a_note_has_no_second_nullifier() {
    let (witness, statement) = spend_of_one(Fr::from(1), Fr::from(0));
    let keys = KeySet::from_spending_key(Fr::from(42));
    let commitment =
        hash4(statement.rune_id, witness.in_amount, witness.in_blinding, witness.owner_pk);
    let elsewhere = SpendStatement {
        nullifier: compute_nullifier(keys.nullifier_key, 1, commitment),
        ..statement
    };
    let moved = SpendWitness { note_index: Fr::from(1), ..witness.clone() };
    assert!(!synthesized(moved, elsewhere).is_satisfied());
    assert!(synthesized(witness, statement).is_satisfied());
}

#[test]
fn range_gadget_takes_numbers_of_64_bits() {
    let above = Fr::from(u64::MAX).plus(Fr::from(1));
    for (value, expected) in [
        (Fr::from(0), true),
        (Fr::from(0x8000_0000_0000_0001), true),
        (Fr::from(u64::MAX), true),
        (above, false),
        (minus_one(), false),
    ] {
        let mut cs = ConstraintSystem::new();
        let x = cs.new_witness(value);
        enforce_u64_var(&mut cs, x);
        assert_eq!(cs.is_satisfied(), expected);
        assert_eq!(holds_as_constraints(&cs), expected);
    }
}

#[test]
fn bits_gadget_reads_the_least_significant_first() {
    let mut cs = ConstraintSystem::new();
    let bits: Vec<Boolean> =
        [true, false, true, true].iter().map(|b| cs.new_bool_witness(*b)).collect();
    let number = bits_var(&mut cs, &bits);
    assert_eq!(cs.assignment()[number.index], Fr::from(13));
    let none = bits_var(&mut cs, &Vec::new());
    assert_eq!(cs.assignment()[none.index], Fr::from(0));
}

#[test]
fn hash_gadgets_compute_the_hashes() {
    let mut cs = ConstraintSystem::new();
    let vars: Vec<FpVar> = (1..=4u64).map(|x| cs.new_witness(Fr::from(x))).collect();
    let h2 = hash2_var(&mut cs, vars[0], vars[1]);
    let h3 = hash3_var(&mut cs, vars[0], vars[1], vars[2]);
    let h4 = hash4_var(&mut cs, vars[0], vars[1], vars[2], vars[3]);
    let fifth = sbox_var(&mut cs, vars[2]);
    let (a, b, c, d) = (Fr::from(1), Fr::from(2), Fr::from(3), Fr::from(4));
    assert_eq!(cs.assignment()[h2.index], hash2(a, b));
    assert_eq!(cs.assignment()[h3.index], hash3(a, b, c));
    assert_eq!(cs.assignment()[h4.index], hash4(a, b, c, d));
    assert_eq!(cs.assignment()[fifth.index], Fr::from(243));
}

#[test]
fn path_gadget_demands_the_root() {
    let mut tree = IncrementalMerkleTree::new();
    tree.append(Fr::from(10));
    tree.append(Fr::from(20));
    let path = tree.merkle_path(1);
    for (root, expected) in [(tree.root(), true), (Fr::from(1), false)] {
        let mut cs = ConstraintSystem::new();
        let leaf = cs.new_witness(Fr::from(20));
        let siblings: Vec<FpVar> = path.siblings.iter().map(|s| cs.new_witness(*s)).collect();
        let indices: Vec<Boolean> = path.indices.iter().map(|b| cs.new_bool_witness(*b)).collect();
        let root = cs.new_input(root);
        verify_merkle_path_var(&mut cs, leaf, &siblings, &indices, root);
        assert_eq!(cs.is_satisfied(), expected);
    }
}

#[test]
fn gates_compute_their_values() {
    let mut cs = ConstraintSystem::new();
    let a = cs.new_input(Fr::from(3));
    let b = cs.new_witness(Fr::from(4));
    let yes = cs.new_bool_witness(true);
    let no = cs.new_bool_witness(false);
    let values = [
        (cs.constant(Fr::from(9)), 9),
        (cs.plus(a, b), 7),
        (cs.plus_constant(a, Fr::from(10)), 13),
        (cs.times_constant(a, Fr::from(10)), 30),
        (cs.square(b), 16),
        (cs.times(a, b), 12),
        (cs.select(yes, a, b), 3),
        (cs.select(no, a, b), 4),
    ];
    for (var, value) in values {
        assert_eq!(cs.assignment()[var.index], Fr::from(value));
    }
    assert!(cs.is_satisfied());
    cs.enforce_equal(a, b);
    assert!(!cs.is_satisfied());
    assert!(!holds_as_constraints(&cs));
}

#[test]
fn public_inputs_are_in_order() {
    let statement = SpendStatement {
        rune_id: Fr::from(1),
        anchor: Fr::from(2),
        nullifier: Fr::from(3),
        out_commitment: Fr::from(4),
        fee: Fr::from(5),
    };
    let expected: Vec<Fr> = (1..=5u64).map(Fr::from).collect();
    assert_eq!(statement.to_inputs(), expected);
}

/// A circuit with five public inputs: each is the square of the one before.
struct Squares {
    inputs: [ArkFr; 5],
}

impl ark_relations::r1cs::ConstraintSynthesizer<ArkFr> for Squares {
    fn generate_constraints(
        self,
        cs: ark_relations::r1cs::ConstraintSystemRef<ArkFr>,
    ) -> ark_relations::r1cs::Result<()> {
        let mut vars = Vec::new();
        for x in self.inputs {
            vars.push(ArkVar::new_input(cs.clone(), || Ok(x))?);
        }
        for i in 0..4 {
            vars[i].square()?.enforce_equal(&vars[i + 1])?;
        }
        Ok(())
    }
}

#[test]
fn proofs_are_checked_against_the_statement() {
    let mut rng = rand::rngs::StdRng::seed_from_u64(42);
    let inputs: [ArkFr; 5] = [2u64, 4, 16, 256, 65536].map(ArkFr::from);
    type Snark = ark_groth16::Groth16<ark_bn254::Bn254>;
    let (pk, vk) = Snark::circuit_specific_setup(Squares { inputs }, &mut rng).unwrap();
    let proof = Snark::prove(&pk, Squares { inputs }, &mut rng).unwrap();
    let mut vk_bytes = Vec::new();
    vk.serialize_compressed(&mut vk_bytes).unwrap();
    let mut proof_bytes = Vec::new();
    proof.serialize_compressed(&mut proof_bytes).unwrap();

    let statement = SpendStatement {
        rune_id: Fr::from(2),
        anchor: Fr::from(4),
        nullifier: Fr::from(16),
        out_commitment: Fr::from(256),
        fee: Fr::from(65536),
    };
    assert_eq!(verify(&vk_bytes, &statement, &proof_bytes), Ok(true));
    let other = SpendStatement { fee: Fr::from(65537), ..statement };
    assert_eq!(verify(&vk_bytes, &other, &proof_bytes), Ok(false));

    let refused = Err(CircuitError::VerifyFailed);
    assert_eq!(verify(&vk_bytes[..231], &statement, &proof_bytes), refused);
    assert_eq!(verify(&vk_bytes[..300], &statement, &proof_bytes), refused);
    assert_eq!(verify(&vk_bytes, &statement, &proof_bytes[1..]), refused);
    assert_eq!(verify(&vk_bytes, &statement, &[]), refused);
    let mut for_four = vk_bytes.clone();
    for_four[224] = 5;
    assert_eq!(verify(&for_four, &statement, &proof_bytes), refused);
}

#[test]
fn verdict_of_an_outcome() {
    assert_eq!(verdict(Some(true)), Ok(true));
    assert_eq!(verdict(Some(false)), Ok(false));
    assert_eq!(verdict(None), Err(CircuitError::VerifyFailed));
}
