//! Nullifiers: the marks that spent notes leave.
use vstd::prelude::*;

use crate::field::Fr;
use crate::poseidon::{collide, hash3, hash3_spec, in_field, lemma_hash3_fixes};

verus! {

/// The nullifier of the note with the given commitment at the given place in the tree.
pub open spec fn nullifier_spec(nullifier_key: nat, note_index: nat, commitment: nat) -> nat {
    hash3_spec(nullifier_key, note_index, commitment)
}

/// Computes the nullifier of a note. It is published when the note is spent, and a second
/// appearance of it is a double spend.
pub fn compute_nullifier(nullifier_key: Fr, note_index: u64, commitment: Fr) -> (r: Fr)
    ensures
        r@ == nullifier_spec(nullifier_key@, note_index as nat, commitment@),
{
    hash3(nullifier_key, Fr::from(note_index), commitment)
}

/// A nullifier is the hash of the key, the place and the commitment, in that order; another key,
/// place or commitment has another nullifier, unless the two collide.
pub proof fn law_nullifier_is_a_hash(x: Seq<nat>, y: Seq<nat>)
    requires
        x.len() == 3 && y.len() == 3,
        in_field(x) && in_field(y),
        !collide(x, y),
    ensures
        nullifier_spec(x[0], x[1], x[2]) == hash3_spec(x[0], x[1], x[2]),
        x != y ==> nullifier_spec(x[0], x[1], x[2]) != nullifier_spec(y[0], y[1], y[2]),
{
    if nullifier_spec(x[0], x[1], x[2]) == nullifier_spec(y[0], y[1], y[2]) {
        lemma_hash3_fixes(x, y);
    }
}

} // verus!
