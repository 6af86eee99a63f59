//! Hashes and Merkle paths as gates.
//!
//! Every gadget says what its output wire holds in every assignment that the gates allow, not only
//! in the one that is built.
use vstd::prelude::*;

use crate::circuit::bits::{
    bit_value, bits_value, digits, lemma_bits_bound, lemma_digit_in_front, lemma_digits,
    lemma_width_of_u64,
};
use crate::circuit::shape::{
    add_constants_shape, bits_shape, climb_shape, dot_shape, hash2_shape, hash3_shape, hash4_shape,
    mix_shape, new_bits_shape, power_shape, round_shape, rounds_shape, sbox_shape, squeeze_shape,
    u64_shape,
};
use crate::circuit::system::{
    allowed, lemma_allowed_start, lemma_grows_transitive, Boolean, ConstraintSystem, FpVar, Gate,
    Shape,
};
use crate::field::{add_mod, element, lemma_element, lemma_modulus_fits, modulus, values, Fr};
use crate::poseidon::{
    add_constants, dot, fifth_power, hash2_spec, hash3_spec, hash4_spec, lemma_fifth_power,
    lemma_offset_in_range, lemma_standard_covers, matrix_values, mix, power_layer, sponge,
    Parameters, PoseidonParams,
};
use crate::tree::{climb, lemma_parent_index, width};

verus! {

/// What a list of wires holds.
pub open spec fn pick(wires: Seq<nat>, vars: Seq<FpVar>) -> Seq<nat> {
    Seq::new(vars.len(), |i: int| wires[vars[i].index as int])
}

/// Which of a list of wires hold a one.
pub open spec fn pick_bits(wires: Seq<nat>, vars: Seq<Boolean>) -> Seq<bool> {
    Seq::new(vars.len(), |i: int| wires[vars[i].index as int] == 1)
}

/// Whether all wires of a list are there.
pub open spec fn in_system(vars: Seq<FpVar>, cs: ConstraintSystem) -> bool {
    forall|i: int| 0 <= i < vars.len() ==> (#[trigger] vars[i]).index < cs.gates().len()
}

/// The fifth power of a wire: three multiplications.
pub fn sbox_var(cs: &mut ConstraintSystem, x: FpVar) -> (r: FpVar)
    requires
        old(cs).wf(),
        x.index < old(cs).gates().len(),
    ensures
        final(cs).wf(),
        old(cs).grows_to(final(cs)),
        final(cs).equalities() == old(cs).equalities(),
        r.index < final(cs).gates().len(),
        (final(cs).shape(), r) == sbox_shape(old(cs).shape(), x),
        forall|wires: Seq<nat>| #[trigger]
            allowed(final(cs).gates(), wires) ==> allowed(old(cs).gates(), wires)
                && wires[r.index as int] == fifth_power(wires[x.index as int]),
{
    let ghost c0 = *cs;
    let x2 = cs.square(x);
    let ghost c1 = *cs;
    let x4 = cs.square(x2);
    let ghost c2 = *cs;
    let r = cs.times(x4, x);
    proof {
        lemma_grows_transitive(c0, c1, c2);
        lemma_grows_transitive(c0, c2, *cs);
        assert forall|wires: Seq<nat>| #[trigger] allowed(cs.gates(), wires) implies allowed(
            c0.gates(),
            wires,
        ) && wires[r.index as int] == fifth_power(wires[x.index as int]) by {
            assert(allowed(c2.gates(), wires));
            assert(allowed(c1.gates(), wires));
            lemma_fifth_power(wires[x.index as int]);
        }
    }
    r
}

/// The product of a matrix and a list of wires.
pub fn mds_multiply_var(cs: &mut ConstraintSystem, state: &mut Vec<FpVar>, mds: &Vec<Vec<Fr>>)
    requires
        old(cs).wf(),
        in_system(old(state)@, *old(cs)),
        old(state)@.len() <= mds@.len(),
        forall|i: int|
            0 <= i < old(state)@.len() ==> old(state)@.len() <= (#[trigger] mds@[i])@.len(),
    ensures
        final(cs).wf(),
        old(cs).grows_to(final(cs)),
        final(cs).equalities() == old(cs).equalities(),
        in_system(final(state)@, *final(cs)),
        final(state)@.len() == old(state)@.len(),
        (final(cs).shape(), final(state)@) == mix_shape(
            old(cs).shape(),
            old(state)@,
            matrix_values(mds@),
            old(state)@.len(),
        ),
        forall|wires: Seq<nat>| #[trigger]
            allowed(final(cs).gates(), wires) ==> allowed(old(cs).gates(), wires) && pick(
                wires,
                final(state)@,
            ) == mix(matrix_values(mds@), pick(wires, old(state)@)),
{
    let t: usize = state.len();
    let ghost c0 = *cs;
    let ghost start = state@;
    let ghost matrix = matrix_values(mds@);
    let mut new_state: Vec<FpVar> = Vec::new();
    let mut i: usize = 0;
    proof {
        assert(cs.gates().take(cs.gates().len() as int) =~= cs.gates());
        assert(cs.wires().take(cs.wires().len() as int) =~= cs.wires());
        assert(cs.equalities().take(cs.equalities().len() as int) =~= cs.equalities());
    }
    while i < t
        invariant
            i <= t,
            t == start.len(),
            state@ == start,
            t <= mds@.len(),
            forall|k: int| 0 <= k < t ==> t <= (#[trigger] mds@[k])@.len(),
            matrix == matrix_values(mds@),
            cs.wf(),
            c0.grows_to(&*cs),
            cs.equalities() == c0.equalities(),
            in_system(start, c0),
            new_state@.len() == i,
            in_system(new_state@, *cs),
            (cs.shape(), new_state@) == mix_shape(c0.shape(), start, matrix, i as nat),
            forall|wires: Seq<nat>| #[trigger]
                allowed(cs.gates(), wires) ==> forall|k: int|
                    0 <= k < i ==> wires[(#[trigger] new_state@[k]).index as int] == dot(
                        matrix[k],
                        pick(wires, start),
                        t as nat,
                    ),
        decreases t - i,
    {
        let ghost c1 = *cs;
        let zero = Fr::from(0);
        let mut sum = cs.constant(zero);
        let mut j: usize = 0;
        proof {
            lemma_element(zero);
            lemma_grows_transitive(c0, c1, *cs);
            assert forall|wires: Seq<nat>| #[trigger] allowed(cs.gates(), wires) implies allowed(
                c1.gates(),
                wires,
            ) && wires[sum.index as int] == dot(
                matrix[i as int],
                pick(wires, start),
                0,
            ) by {}
        }
        while j < t
            invariant
                i < t,
                j <= t,
                t == start.len(),
                state@ == start,
                t <= mds@.len(),
                forall|k: int| 0 <= k < t ==> t <= (#[trigger] mds@[k])@.len(),
                matrix == matrix_values(mds@),
                cs.wf(),
                c0.grows_to(&*cs),
                c1.grows_to(&*cs),
                cs.equalities() == c0.equalities(),
                in_system(start, c0),
                sum.index < cs.gates().len(),
                (cs.shape(), sum) == dot_shape(
                    c1.shape(),
                    start,
                    matrix[i as int],
                    j as nat,
                ),
                forall|wires: Seq<nat>| #[trigger]
                    allowed(cs.gates(), wires) ==> allowed(c1.gates(), wires)
                        && wires[sum.index as int] == dot(
                        matrix[i as int],
                        pick(wires, start),
                        j as nat,
                    ),
            decreases t - j,
        {
            let ghost c2 = *cs;
            let ghost partial = sum;
            let var = state[j];
            let coefficient = mds[i][j];
            proof {
                assert(start[j as int].index < c0.gates().len());
            }
            let term = cs.times_constant(var, coefficient);
            let ghost c3 = *cs;
            sum = cs.plus(sum, term);
            proof {
                lemma_grows_transitive(c2, c3, *cs);
                lemma_grows_transitive(c0, c2, *cs);
                lemma_grows_transitive(c1, c2, *cs);
                lemma_element(coefficient);
                assert(matrix[i as int][j as int] == coefficient@);
                assert forall|wires: Seq<nat>| #[trigger] allowed(cs.gates(), wires) implies allowed(
                    c1.gates(),
                    wires,
                ) && wires[sum.index as int] == dot(
                    matrix[i as int],
                    pick(wires, start),
                    (j + 1) as nat,
                ) by {
                    assert(allowed(c3.gates(), wires));
                    assert(allowed(c2.gates(), wires));
                    assert(matrix[i as int][j as int] == coefficient@);
                    assert(pick(wires, start)[j as int] == wires[var.index as int]);
                }
            }
            j = j + 1;
        }
        let ghost before = new_state@;
        new_state.push(sum);
        proof {
            assert forall|wires: Seq<nat>| #[trigger] allowed(cs.gates(), wires) implies forall|
                k: int,
            |
                0 <= k < i + 1 ==> wires[(#[trigger] new_state@[k]).index as int] == dot(
                    matrix[k],
                    pick(wires, start),
                    t as nat,
                ) by {
                assert(allowed(c1.gates(), wires));
                assert forall|k: int| 0 <= k < i + 1 implies wires[(
                #[trigger] new_state@[k]).index as int] == dot(
                    matrix[k],
                    pick(wires, start),
                    t as nat,
                ) by {
                    if k < i {
                        assert(new_state@[k] == before[k]);
                    }
                }
            }
        }
        i = i + 1;
    }
    proof {
        assert forall|wires: Seq<nat>| #[trigger] allowed(cs.gates(), wires) implies allowed(
            c0.gates(),
            wires,
        ) && pick(wires, new_state@) == mix(matrix, pick(wires, start)) by {
            lemma_allowed_start(c0.gates(), cs.gates(), wires);
            assert(pick(wires, new_state@) =~= mix(matrix, pick(wires, start)));
        }
    }
    *state = new_state;
}

/// One round on a list of wires: adds the constants from number `offset` on, raises `n` wires to
/// the fifth power, and mixes.
fn apply_round_var(
    cs: &mut ConstraintSystem,
    state: &mut Vec<FpVar>,
    params: &PoseidonParams,
    offset: usize,
    n: usize,
)
    requires
        old(cs).wf(),
        in_system(old(state)@, *old(cs)),
        params.t <= old(state)@.len(),
        n <= old(state)@.len(),
        offset + params.t <= params.round_constants@.len(),
        old(state)@.len() <= params.mds_matrix@.len(),
        forall|i: int|
            0 <= i < old(state)@.len() ==> old(state)@.len() <= (#[trigger] params@.matrix[i]).len(),
    ensures
        final(cs).wf(),
        old(cs).grows_to(final(cs)),
        final(cs).equalities() == old(cs).equalities(),
        in_system(final(state)@, *final(cs)),
        final(state)@.len() == old(state)@.len(),
        (final(cs).shape(), final(state)@) == round_shape(
            old(cs).shape(),
            old(state)@,
            params@,
            offset as nat,
            n as nat,
        ),
        forall|wires: Seq<nat>| #[trigger]
            allowed(final(cs).gates(), wires) ==> allowed(old(cs).gates(), wires) && pick(
                wires,
                final(state)@,
            ) == mix(
                params@.matrix,
                power_layer(
                    add_constants(
                        pick(wires, old(state)@),
                        params@.constants,
                        params.t as nat,
                        offset as nat,
                    ),
                    n as nat,
                ),
            ),
{
    let t: usize = params.t;
    let available: usize = params.round_constants.len();
    let ghost c0 = *cs;
    let ghost start = state@;
    let ghost len = start.len();
    let mut j: usize = 0;
    proof {
        lemma_grows_reflexive(c0);
    }
    while j < t
        invariant
            j <= t,
            t == params.t,
            t <= len,
            len == start.len(),
            state@.len() == len,
            available == params.round_constants@.len(),
            offset + t <= available,
            cs.wf(),
            c0.grows_to(&*cs),
            cs.equalities() == c0.equalities(),
            in_system(start, c0),
            in_system(state@, *cs),
            (cs.shape(), state@) == add_constants_shape(
                c0.shape(),
                start,
                params@.constants,
                offset as nat,
                j as nat,
            ),
            forall|wires: Seq<nat>| #[trigger]
                allowed(cs.gates(), wires) ==> forall|k: int|
                    0 <= k < len ==> wires[(#[trigger] state@[k]).index as int] == (if k < j {
                        add_mod(pick(wires, start)[k], params@.constants[offset + k])
                    } else {
                        pick(wires, start)[k]
                    }),
        decreases t - j,
    {
        let ghost c1 = *cs;
        let ghost before = state@;
        let var = state[j];
        let constant = params.round_constants[offset + j];
        let sum = cs.plus_constant(var, constant);
        state.set(j, sum);
        proof {
            lemma_grows_transitive(c0, c1, *cs);
            lemma_element(constant);
            assert(params@.constants[offset + j] == constant@);
            assert forall|wires: Seq<nat>| #[trigger] allowed(cs.gates(), wires) implies forall|
                k: int,
            |
                0 <= k < len ==> wires[(#[trigger] state@[k]).index as int] == (if k < j + 1 {
                    add_mod(pick(wires, start)[k], params@.constants[offset + k])
                } else {
                    pick(wires, start)[k]
                }) by {
                assert(allowed(c1.gates(), wires));
                assert(params@.constants[offset + j] == constant@);
                assert forall|k: int| 0 <= k < len implies wires[(
                #[trigger] state@[k]).index as int] == (if k < j + 1 {
                    add_mod(pick(wires, start)[k], params@.constants[offset + k])
                } else {
                    pick(wires, start)[k]
                }) by {
                    assert(wires[before[k].index as int] == (if k < j {
                        add_mod(pick(wires, start)[k], params@.constants[offset + k])
                    } else {
                        pick(wires, start)[k]
                    }));
                    if k != j {
                        assert(state@[k] == before[k]);
                    }
                }
            }
        }
        j = j + 1;
    }
    let ghost shifted = state@;
    let ghost c4 = *cs;
    proof {
        assert forall|wires: Seq<nat>| #[trigger] allowed(c4.gates(), wires) implies pick(
            wires,
            shifted,
        ) == add_constants(
            pick(wires, start),
            params@.constants,
            t as nat,
            offset as nat,
        ) by {
            assert(pick(wires, shifted) =~= add_constants(
                pick(wires, start),
                params@.constants,
                t as nat,
                offset as nat,
            ));
        }
    }
    let mut j: usize = 0;
    proof {
        lemma_grows_reflexive(c4);
    }
    while j < n
        invariant
            j <= n,
            n <= len,
            state@.len() == len,
            shifted.len() == len,
            cs.wf(),
            c0.grows_to(&*cs),
            c4.grows_to(&*cs),
            cs.equalities() == c0.equalities(),
            in_system(shifted, c4),
            in_system(state@, *cs),
            (cs.shape(), state@) == power_shape(c4.shape(), shifted, j as nat),
            forall|wires: Seq<nat>| #[trigger]
                allowed(cs.gates(), wires) ==> forall|k: int|
                    0 <= k < len ==> wires[(#[trigger] state@[k]).index as int] == (if k < j {
                        fifth_power(pick(wires, shifted)[k])
                    } else {
                        pick(wires, shifted)[k]
                    }),
        decreases n - j,
    {
        let ghost c1 = *cs;
        let ghost before = state@;
        let var = state[j];
        let power = sbox_var(cs, var);
        state.set(j, power);
        proof {
            lemma_grows_transitive(c0, c1, *cs);
            lemma_grows_transitive(c4, c1, *cs);
            assert forall|wires: Seq<nat>| #[trigger] allowed(cs.gates(), wires) implies forall|
                k: int,
            |
                0 <= k < len ==> wires[(#[trigger] state@[k]).index as int] == (if k < j + 1 {
                    fifth_power(pick(wires, shifted)[k])
                } else {
                    pick(wires, shifted)[k]
                }) by {
                assert(allowed(c1.gates(), wires));
                assert forall|k: int| 0 <= k < len implies wires[(
                #[trigger] state@[k]).index as int] == (if k < j + 1 {
                    fifth_power(pick(wires, shifted)[k])
                } else {
                    pick(wires, shifted)[k]
                }) by {
                    assert(wires[before[k].index as int] == (if k < j {
                        fifth_power(pick(wires, shifted)[k])
                    } else {
                        pick(wires, shifted)[k]
                    }));
                    if k != j {
                        assert(state@[k] == before[k]);
                    }
                }
            }
        }
        j = j + 1;
    }
    let ghost powered = state@;
    let ghost c5 = *cs;
    proof {
        assert forall|i: int| 0 <= i < state@.len() implies state@.len() <= (
        #[trigger] params.mds_matrix@[i])@.len() by {
            assert(params@.matrix[i].len() == params.mds_matrix@[i]@.len());
        }
        assert forall|wires: Seq<nat>| #[trigger] allowed(c5.gates(), wires) implies pick(
            wires,
            powered,
        ) == power_layer(pick(wires, shifted), n as nat) by {
            assert(pick(wires, powered) =~= power_layer(pick(wires, shifted), n as nat));
        }
    }
    mds_multiply_var(cs, state, &params.mds_matrix);
    proof {
        lemma_grows_transitive(c0, c5, *cs);
        assert forall|wires: Seq<nat>| #[trigger] allowed(cs.gates(), wires) implies allowed(
            c0.gates(),
            wires,
        ) && pick(wires, state@) == mix(
            params@.matrix,
            power_layer(
                add_constants(
                    pick(wires, start),
                    params@.constants,
                    params.t as nat,
                    offset as nat,
                ),
                n as nat,
            ),
        ) by {
            assert(allowed(c5.gates(), wires));
            lemma_allowed_start(c4.gates(), c5.gates(), wires);
            lemma_allowed_start(c0.gates(), c4.gates(), wires);
        }
    }
}

proof fn lemma_grows_reflexive(cs: ConstraintSystem)
    ensures
        cs.grows_to(&cs),
{
    assert(cs.gates().take(cs.gates().len() as int) =~= cs.gates());
    assert(cs.wires().take(cs.wires().len() as int) =~= cs.wires());
    assert(cs.equalities().take(cs.equalities().len() as int) =~= cs.equalities());
}

/// Whether a list of wires holds the first `r` rounds on another, in every allowed assignment.
spec fn holds_rounds(
    cs: ConstraintSystem,
    state: Seq<FpVar>,
    p: Parameters,
    start: Seq<FpVar>,
    r: nat,
) -> bool {
    forall|wires: Seq<nat>| #[trigger]
        allowed(cs.gates(), wires) ==> pick(wires, state) == p.first_rounds(pick(wires, start), r)
}

/// One more round.
proof fn lemma_next_round(
    before: ConstraintSystem,
    after: ConstraintSystem,
    old_state: Seq<FpVar>,
    new_state: Seq<FpVar>,
    p: Parameters,
    start: Seq<FpVar>,
    r: nat,
    n: nat,
)
    requires
        holds_rounds(before, old_state, p, start, r),
        n == (if p.is_full(r) {
            p.t
        } else {
            1
        }),
        forall|wires: Seq<nat>| #[trigger]
            allowed(after.gates(), wires) ==> allowed(before.gates(), wires) && pick(
                wires,
                new_state,
            ) == mix(
                p.matrix,
                power_layer(
                    add_constants(pick(wires, old_state), p.constants, p.t, r * p.t),
                    n,
                ),
            ),
    ensures
        holds_rounds(after, new_state, p, start, r + 1),
{
    assert forall|wires: Seq<nat>| #[trigger] allowed(after.gates(), wires) implies pick(
        wires,
        new_state,
    ) == p.first_rounds(pick(wires, start), r + 1) by {
        assert(allowed(before.gates(), wires));
    }
}

/// One more round, without values.
proof fn lemma_next_round_shape(
    before: (Shape, Seq<FpVar>),
    after: (Shape, Seq<FpVar>),
    s: Shape,
    start: Seq<FpVar>,
    p: Parameters,
    r: nat,
    n: nat,
)
    requires
        before == rounds_shape(s, start, p, r),
        n == (if p.is_full(r) {
            p.t
        } else {
            1
        }),
        after == round_shape(before.0, before.1, p, r * p.t, n),
    ensures
        after == rounds_shape(s, start, p, r + 1),
{
}

/// The permutation on a list of wires.
pub fn poseidon_permutation_var(
    cs: &mut ConstraintSystem,
    state: &mut Vec<FpVar>,
    params: &PoseidonParams,
)
    requires
        old(cs).wf(),
        in_system(old(state)@, *old(cs)),
        params@.covers(old(state)@.len()),
    ensures
        final(cs).wf(),
        old(cs).grows_to(final(cs)),
        final(cs).equalities() == old(cs).equalities(),
        in_system(final(state)@, *final(cs)),
        final(state)@.len() == old(state)@.len(),
        (final(cs).shape(), final(state)@) == rounds_shape(
            old(cs).shape(),
            old(state)@,
            params@,
            params@.rounds(),
        ),
        forall|wires: Seq<nat>| #[trigger]
            allowed(final(cs).gates(), wires) ==> allowed(old(cs).gates(), wires) && pick(
                wires,
                final(state)@,
            ) == params@.permute(pick(wires, old(state)@)),
{
    let t: usize = params.t;
    let half_rf: usize = params.rf / 2;
    let rp: usize = params.rp;
    let available: usize = params.round_constants.len();
    let ghost p = params@;
    let ghost c0 = *cs;
    let ghost start = state@;
    let ghost len = start.len();
    let mut rc_offset: usize = 0;
    proof {
        lemma_grows_reflexive(c0);
    }

    let mut i: usize = 0;
    while i < half_rf
        invariant
            i <= half_rf,
            t == params.t,
            half_rf == params.rf / 2,
            p == params@,
            available == p.constants.len(),
            p.covers(len),
            state@.len() == len,
            rc_offset == i * t,
            cs.wf(),
            c0.grows_to(&*cs),
            cs.equalities() == c0.equalities(),
            in_system(state@, *cs),
            holds_rounds(*cs, state@, p, start, i as nat),
            (cs.shape(), state@) == rounds_shape(c0.shape(), start, p, i as nat),
        decreases half_rf - i,
    {
        proof {
            lemma_offset_in_range(p, len, i as nat);
        }
        let ghost before = *cs;
        let ghost old_state = state@;
        apply_round_var(cs, state, params, rc_offset, t);
        proof {
            lemma_grows_transitive(c0, before, *cs);
            lemma_next_round(before, *cs, old_state, state@, p, start, i as nat, t as nat);
            lemma_next_round_shape(
                (before.shape(), old_state),
                (cs.shape(), state@),
                c0.shape(),
                start,
                p,
                i as nat,
                t as nat,
            );
        }
        rc_offset = rc_offset + t;
        i = i + 1;
    }

    let mut i: usize = 0;
    assert(half_rf + 0 == half_rf);
    while i < rp
        invariant
            i <= rp,
            t == params.t,
            half_rf == params.rf / 2,
            rp == params.rp,
            p == params@,
            available == p.constants.len(),
            p.covers(len),
            state@.len() == len,
            rc_offset == (half_rf + i) * t,
            cs.wf(),
            c0.grows_to(&*cs),
            cs.equalities() == c0.equalities(),
            in_system(state@, *cs),
            holds_rounds(*cs, state@, p, start, (half_rf + i) as nat),
            (cs.shape(), state@) == rounds_shape(c0.shape(), start, p, (half_rf + i) as nat),
        decreases rp - i,
    {
        proof {
            lemma_offset_in_range(p, len, (half_rf + i) as nat);
        }
        let ghost before = *cs;
        let ghost old_state = state@;
        apply_round_var(cs, state, params, rc_offset, 1);
        proof {
            lemma_grows_transitive(c0, before, *cs);
            lemma_next_round(before, *cs, old_state, state@, p, start, (half_rf + i) as nat, 1);
            lemma_next_round_shape(
                (before.shape(), old_state),
                (cs.shape(), state@),
                c0.shape(),
                start,
                p,
                (half_rf + i) as nat,
                1,
            );
        }
        rc_offset = rc_offset + t;
        i = i + 1;
    }

    let mut i: usize = 0;
    assert(half_rf + rp + 0 == half_rf + rp);
    while i < half_rf
        invariant
            i <= half_rf,
            t == params.t,
            half_rf == params.rf / 2,
            rp == params.rp,
            p == params@,
            available == p.constants.len(),
            p.covers(len),
            state@.len() == len,
            rc_offset == (half_rf + rp + i) * t,
            cs.wf(),
            c0.grows_to(&*cs),
            cs.equalities() == c0.equalities(),
            in_system(state@, *cs),
            holds_rounds(*cs, state@, p, start, (half_rf + rp + i) as nat),
            (cs.shape(), state@) == rounds_shape(c0.shape(), start, p, (half_rf + rp + i) as nat),
        decreases half_rf - i,
    {
        proof {
            lemma_offset_in_range(p, len, (half_rf + rp + i) as nat);
        }
        let ghost before = *cs;
        let ghost old_state = state@;
        apply_round_var(cs, state, params, rc_offset, t);
        proof {
            lemma_grows_transitive(c0, before, *cs);
            lemma_next_round(
                before,
                *cs,
                old_state,
                state@,
                p,
                start,
                (half_rf + rp + i) as nat,
                t as nat,
            );
            lemma_next_round_shape(
                (before.shape(), old_state),
                (cs.shape(), state@),
                c0.shape(),
                start,
                p,
                (half_rf + rp + i) as nat,
                t as nat,
            );
        }
        rc_offset = rc_offset + t;
        i = i + 1;
    }
    proof {
        assert forall|wires: Seq<nat>| #[trigger] allowed(cs.gates(), wires) implies allowed(
            c0.gates(),
            wires,
        ) && pick(wires, state@) == p.permute(pick(wires, start)) by {
            lemma_allowed_start(c0.gates(), cs.gates(), wires);
        }
    }
}

/// Permutes a list of wires with the standard parameters of its width and returns the first.
fn squeeze_var(cs: &mut ConstraintSystem, state: Vec<FpVar>) -> (r: FpVar)
    requires
        old(cs).wf(),
        in_system(state@, *old(cs)),
        0 < state@.len() <= 5,
    ensures
        final(cs).wf(),
        old(cs).grows_to(final(cs)),
        final(cs).equalities() == old(cs).equalities(),
        r.index < final(cs).gates().len(),
        (final(cs).shape(), r) == squeeze_shape(old(cs).shape(), state@),
        forall|wires: Seq<nat>| #[trigger]
            allowed(final(cs).gates(), wires) ==> allowed(old(cs).gates(), wires)
                && wires[r.index as int] == sponge(pick(wires, state@)),
{
    let ghost start = state@;
    let mut state = state;
    let params = PoseidonParams::new(state.len());
    proof {
        lemma_standard_covers(start.len());
    }
    poseidon_permutation_var(cs, &mut state, &params);
    let r = state[0];
    proof {
        assert forall|wires: Seq<nat>| #[trigger] allowed(cs.gates(), wires) implies wires[
        r.index as int] == sponge(pick(wires, start)) by {
            assert(pick(wires, state@)[0] == wires[r.index as int]);
        }
    }
    r
}

/// The hash of two wires.
pub fn hash2_var(cs: &mut ConstraintSystem, a: FpVar, b: FpVar) -> (r: FpVar)
    requires
        old(cs).wf(),
        a.index < old(cs).gates().len(),
        b.index < old(cs).gates().len(),
    ensures
        final(cs).wf(),
        old(cs).grows_to(final(cs)),
        final(cs).equalities() == old(cs).equalities(),
        r.index < final(cs).gates().len(),
        (final(cs).shape(), r) == hash2_shape(old(cs).shape(), a, b),
        forall|wires: Seq<nat>| #[trigger]
            allowed(final(cs).gates(), wires) ==> allowed(old(cs).gates(), wires)
                && wires[r.index as int] == hash2_spec(
                wires[a.index as int],
                wires[b.index as int],
            ),
{
    let ghost c0 = *cs;
    let count = Fr::from(2);
    let arity = cs.constant(count);
    proof {
        lemma_element(count);
    }
    let ghost c1 = *cs;
    let state = vec![arity, a, b];
    assert(state@ =~= seq![arity, a, b]);
    let r = squeeze_var(cs, state);
    proof {
        lemma_grows_transitive(c0, c1, *cs);
        assert forall|wires: Seq<nat>| #[trigger] allowed(cs.gates(), wires) implies allowed(
            c0.gates(),
            wires,
        ) && wires[r.index as int] == hash2_spec(
            wires[a.index as int],
            wires[b.index as int],
        ) by {
            assert(allowed(c1.gates(), wires));
            assert(pick(wires, state@) =~= seq![
                2,
                wires[a.index as int],
                wires[b.index as int],
            ]);
        }
    }
    r
}

/// The hash of three wires.
pub fn hash3_var(cs: &mut ConstraintSystem, a: FpVar, b: FpVar, c: FpVar) -> (r: FpVar)
    requires
        old(cs).wf(),
        a.index < old(cs).gates().len(),
        b.index < old(cs).gates().len(),
        c.index < old(cs).gates().len(),
    ensures
        final(cs).wf(),
        old(cs).grows_to(final(cs)),
        final(cs).equalities() == old(cs).equalities(),
        r.index < final(cs).gates().len(),
        (final(cs).shape(), r) == hash3_shape(old(cs).shape(), a, b, c),
        forall|wires: Seq<nat>| #[trigger]
            allowed(final(cs).gates(), wires) ==> allowed(old(cs).gates(), wires)
                && wires[r.index as int] == hash3_spec(
                wires[a.index as int],
                wires[b.index as int],
                wires[c.index as int],
            ),
{
    let ghost c0 = *cs;
    let count = Fr::from(3);
    let arity = cs.constant(count);
    proof {
        lemma_element(count);
    }
    let ghost c1 = *cs;
    let nought = Fr::from(0);
    let zero = cs.constant(nought);
    proof {
        lemma_element(nought);
    }
    let ghost c2 = *cs;
    let state = vec![arity, a, b, c, zero];
    assert(state@ =~= seq![arity, a, b, c, zero]);
    let r = squeeze_var(cs, state);
    proof {
        lemma_grows_transitive(c0, c1, c2);
        lemma_grows_transitive(c0, c2, *cs);
        assert forall|wires: Seq<nat>| #[trigger] allowed(cs.gates(), wires) implies allowed(
            c0.gates(),
            wires,
        ) && wires[r.index as int] == hash3_spec(
            wires[a.index as int],
            wires[b.index as int],
            wires[c.index as int],
        ) by {
            assert(allowed(c2.gates(), wires));
            assert(allowed(c1.gates(), wires));
            assert(pick(wires, state@) =~= seq![
                3,
                wires[a.index as int],
                wires[b.index as int],
                wires[c.index as int],
                0,
            ]);
        }
    }
    r
}

/// The hash of four wires.
pub fn hash4_var(cs: &mut ConstraintSystem, a: FpVar, b: FpVar, c: FpVar, d: FpVar) -> (r: FpVar)
    requires
        old(cs).wf(),
        a.index < old(cs).gates().len(),
        b.index < old(cs).gates().len(),
        c.index < old(cs).gates().len(),
        d.index < old(cs).gates().len(),
    ensures
        final(cs).wf(),
        old(cs).grows_to(final(cs)),
        final(cs).equalities() == old(cs).equalities(),
        r.index < final(cs).gates().len(),
        (final(cs).shape(), r) == hash4_shape(old(cs).shape(), a, b, c, d),
        forall|wires: Seq<nat>| #[trigger]
            allowed(final(cs).gates(), wires) ==> allowed(old(cs).gates(), wires)
                && wires[r.index as int] == hash4_spec(
                wires[a.index as int],
                wires[b.index as int],
                wires[c.index as int],
                wires[d.index as int],
            ),
{
    let ghost c0 = *cs;
    let count = Fr::from(4);
    let arity = cs.constant(count);
    proof {
        lemma_element(count);
    }
    let ghost c1 = *cs;
    let state = vec![arity, a, b, c, d];
    assert(state@ =~= seq![arity, a, b, c, d]);
    let r = squeeze_var(cs, state);
    proof {
        lemma_grows_transitive(c0, c1, *cs);
        assert forall|wires: Seq<nat>| #[trigger] allowed(cs.gates(), wires) implies allowed(
            c0.gates(),
            wires,
        ) && wires[r.index as int] == hash4_spec(
            wires[a.index as int],
            wires[b.index as int],
            wires[c.index as int],
            wires[d.index as int],
        ) by {
            assert(allowed(c1.gates(), wires));
            assert(pick(wires, state@) =~= seq![
                4,
                wires[a.index as int],
                wires[b.index as int],
                wires[c.index as int],
                wires[d.index as int],
            ]);
        }
    }
    r
}

/// Demands that a path leads from a leaf to the expected root. One equality is added; in every
/// allowed assignment it says that the climb along the path ends at the root.
pub fn verify_merkle_path_var(
    cs: &mut ConstraintSystem,
    leaf: FpVar,
    siblings: &Vec<FpVar>,
    indices: &Vec<Boolean>,
    expected_root: FpVar,
)
    requires
        old(cs).wf(),
        leaf.index < old(cs).gates().len(),
        expected_root.index < old(cs).gates().len(),
        siblings@.len() == indices@.len(),
        in_system(siblings@, *old(cs)),
        forall|i: int|
            0 <= i < indices@.len() ==> (#[trigger] indices@[i]).index < old(cs).gates().len(),
    ensures
        final(cs).wf(),
        old(cs).grows_to(final(cs)),
        ({
            let (s, root) = climb_shape(
                old(cs).shape(),
                leaf,
                siblings@,
                indices@,
                siblings@.len(),
            );
            final(cs).shape() == s.equate(root, expected_root)
        }),
        final(cs).equalities().len() == old(cs).equalities().len() + 1,
        final(cs).equalities().drop_last() == old(cs).equalities(),
        forall|wires: Seq<nat>| #[trigger]
            allowed(final(cs).gates(), wires) ==> allowed(old(cs).gates(), wires) && (wires[
            final(cs).equalities().last().0 as int] == wires[
            final(cs).equalities().last().1 as int] <==> climb(
                pick(wires, siblings@),
                pick_bits(wires, indices@),
                wires[leaf.index as int],
                siblings@.len(),
            ) == wires[expected_root.index as int]),
{
    let ghost c0 = *cs;
    let ghost n0 = cs.gates().len();
    let mut current = leaf;
    let mut i: usize = 0;
    proof {
        lemma_grows_reflexive(c0);
    }
    while i < siblings.len()
        invariant
            i <= siblings@.len(),
            siblings@.len() == indices@.len(),
            n0 == c0.gates().len(),
            in_system(siblings@, c0),
            forall|k: int|
                0 <= k < indices@.len() ==> (#[trigger] indices@[k]).index < n0,
            cs.wf(),
            c0.grows_to(&*cs),
            cs.equalities() == c0.equalities(),
            current.index < cs.gates().len(),
            (cs.shape(), current) == climb_shape(
                c0.shape(),
                leaf,
                siblings@,
                indices@,
                i as nat,
            ),
            forall|wires: Seq<nat>| #[trigger]
                allowed(cs.gates(), wires) ==> wires[current.index as int] == climb(
                    pick(wires, siblings@),
                    pick_bits(wires, indices@),
                    wires[leaf.index as int],
                    i as nat,
                ),
        decreases siblings@.len() - i,
    {
        let ghost c1 = *cs;
        let ghost below = current;
        let sibling = siblings[i];
        let is_right = indices[i];
        assert(siblings@[i as int].index < c0.gates().len());
        assert(indices@[i as int].index < n0);
        let left = cs.select(is_right, sibling, current);
        let ghost c2 = *cs;
        let right = cs.select(is_right, current, sibling);
        let ghost c3 = *cs;
        current = hash2_var(cs, left, right);
        proof {
            lemma_grows_transitive(c1, c2, c3);
            lemma_grows_transitive(c1, c3, *cs);
            lemma_grows_transitive(c0, c1, *cs);
            assert forall|wires: Seq<nat>| #[trigger] allowed(cs.gates(), wires) implies wires[
            current.index as int] == climb(
                pick(wires, siblings@),
                pick_bits(wires, indices@),
                wires[leaf.index as int],
                (i + 1) as nat,
            ) by {
                assert(allowed(c3.gates(), wires));
                assert(allowed(c2.gates(), wires));
                assert(allowed(c1.gates(), wires));
                assert(pick(wires, siblings@)[i as int] == wires[sibling.index as int]);
                assert(pick_bits(wires, indices@)[i as int] == (wires[is_right.index as int]
                    == 1));
            }
        }
        i = i + 1;
    }
    let ghost c4 = *cs;
    cs.enforce_equal(current, expected_root);
    proof {
        assert(cs.equalities().drop_last() =~= c0.equalities());
        lemma_grows_transitive(c0, c4, *cs);
        assert forall|wires: Seq<nat>| #[trigger] allowed(cs.gates(), wires) implies allowed(
            c0.gates(),
            wires,
        ) by {
            lemma_allowed_start(c0.gates(), cs.gates(), wires);
        }
    }
}

/// Whether all bits of a list are there, as private bits.
pub open spec fn bits_in_system(bits: Seq<Boolean>, gates: Seq<Gate>) -> bool {
    forall|i: int|
        0 <= i < bits.len() ==> {
            &&& (#[trigger] bits[i]).index < gates.len()
            &&& gates[bits[i].index as int] == Gate::BoolWitness
        }
}

/// The number that a list of bits stands for, the least significant first.
pub fn bits_var(cs: &mut ConstraintSystem, bits: &Vec<Boolean>) -> (r: FpVar)
    requires
        old(cs).wf(),
        bits_in_system(bits@, old(cs).gates()),
    ensures
        final(cs).wf(),
        old(cs).grows_to(final(cs)),
        final(cs).equalities() == old(cs).equalities(),
        r.index < final(cs).gates().len(),
        (final(cs).shape(), r) == bits_shape(old(cs).shape(), bits@, bits@.len()),
        forall|wires: Seq<nat>| #[trigger]
            allowed(final(cs).gates(), wires) ==> allowed(old(cs).gates(), wires)
                && wires[r.index as int] == bits_value(pick_bits(wires, bits@)) % modulus(),
{
    let ghost c0 = *cs;
    let ghost len = bits@.len();
    let zero = Fr::from(0);
    let two = Fr::from(2);
    let mut sum = cs.constant(zero);
    let mut n: usize = 0;
    proof {
        lemma_element(zero);
        lemma_element(two);
        assert forall|wires: Seq<nat>| #[trigger] allowed(cs.gates(), wires) implies wires[
        sum.index as int] == bits_value(pick_bits(wires, bits@).skip(len - 0)) % modulus() by {
            assert(pick_bits(wires, bits@).skip(len as int).len() == 0);
        }
    }
    while n < bits.len()
        invariant
            n <= len,
            len == bits@.len(),
            two@ == 2,
            element(2) == two,
            bits_in_system(bits@, c0.gates()),
            cs.wf(),
            c0.grows_to(&*cs),
            cs.equalities() == c0.equalities(),
            sum.index < cs.gates().len(),
            (cs.shape(), sum) == bits_shape(c0.shape(), bits@, n as nat),
            forall|wires: Seq<nat>| #[trigger]
                allowed(cs.gates(), wires) ==> allowed(c0.gates(), wires) && wires[
                sum.index as int] == bits_value(pick_bits(wires, bits@).skip(len - n))
                    % modulus(),
        decreases len - n,
    {
        let ghost c1 = *cs;
        let ghost rest = sum;
        let bit = bits[bits.len() - 1 - n];
        assert(bits@[len - 1 - n] == bit);
        assert(bit.index < c0.gates().len());
        let double = cs.times_constant(sum, two);
        let ghost c2 = *cs;
        sum = cs.plus(double, FpVar { index: bit.index });
        proof {
            lemma_grows_transitive(c1, c2, *cs);
            lemma_grows_transitive(c0, c1, *cs);
            assert forall|wires: Seq<nat>| #[trigger] allowed(cs.gates(), wires) implies allowed(
                c0.gates(),
                wires,
            ) && wires[sum.index as int] == bits_value(
                pick_bits(wires, bits@).skip(len - (n + 1)),
            ) % modulus() by {
                assert(allowed(c2.gates(), wires));
                assert(allowed(c1.gates(), wires));
                let all = pick_bits(wires, bits@);
                let tail = all.skip(len - (n + 1));
                assert(tail.drop_first() =~= all.skip(len - n));
                assert(tail[0] == all[len - 1 - n]);
                assert(c0.gates()[bit.index as int] == Gate::BoolWitness);
                assert(wires[bit.index as int] == bit_value(tail[0]));
                lemma_digit_in_front(tail[0], bits_value(all.skip(len - n)));
            }
        }
        n = n + 1;
    }
    proof {
        assert forall|wires: Seq<nat>| #[trigger] allowed(cs.gates(), wires) implies wires[
        sum.index as int] == bits_value(pick_bits(wires, bits@)) % modulus() by {
            assert(pick_bits(wires, bits@).skip(0) =~= pick_bits(wires, bits@));
        }
    }
    sum
}

/// Sixty-four private bits that hold the digits of a number.
fn new_bits(cs: &mut ConstraintSystem, x: u64) -> (bits: Vec<Boolean>)
    requires
        old(cs).wf(),
    ensures
        final(cs).wf(),
        old(cs).grows_to(final(cs)),
        final(cs).equalities() == old(cs).equalities(),
        (final(cs).shape(), bits@) == new_bits_shape(old(cs).shape(), 64),
        bits@.len() == 64,
        bits_in_system(bits@, final(cs).gates()),
        pick_bits(final(cs).wires(), bits@) == digits(x as nat, 64),
{
    let ghost c0 = *cs;
    let mut bits: Vec<Boolean> = Vec::new();
    let mut rest: u64 = x;
    let mut i: usize = 0;
    proof {
        lemma_grows_reflexive(c0);
        assert(x as nat / width(0) == x) by (nonlinear_arith)
            requires
                width(0) == 1,
        ;
    }
    while i < 64
        invariant
            i <= 64,
            cs.wf(),
            c0.grows_to(&*cs),
            cs.equalities() == c0.equalities(),
            (cs.shape(), bits@) == new_bits_shape(c0.shape(), i as nat),
            bits@.len() == i,
            bits_in_system(bits@, cs.gates()),
            rest == x as nat / width(i as nat),
            forall|k: int|
                0 <= k < i ==> (cs.wires()[(#[trigger] bits@[k]).index as int] == 1) == ((x as nat
                    / width(k as nat)) % 2 == 1),
        decreases 64 - i,
    {
        let ghost c1 = *cs;
        let ghost before = bits@;
        let bit = cs.new_bool_witness(rest % 2 == 1);
        bits.push(bit);
        proof {
            lemma_grows_transitive(c0, c1, *cs);
            assert forall|k: int| 0 <= k < i + 1 implies (cs.wires()[(
            #[trigger] bits@[k]).index as int] == 1) == ((x as nat / width(k as nat)) % 2
                == 1) by {
                if k < i {
                    assert(bits@[k] == before[k]);
                    assert(cs.wires()[before[k].index as int]
                        == c1.wires()[before[k].index as int]);
                }
            }
            assert forall|k: int| 0 <= k < i + 1 implies (#[trigger] bits@[k]).index
                < cs.gates().len() && cs.gates()[bits@[k].index as int] == Gate::BoolWitness by {
                if k < i {
                    assert(bits@[k] == before[k]);
                }
            }
            lemma_parent_index(x as nat, i as nat);
        }
        rest = rest / 2;
        i = i + 1;
    }
    assert(pick_bits(cs.wires(), bits@) =~= digits(x as nat, 64));
    bits
}

/// Demands that a wire holds a number of 64 bits. One equality is added. No allowed assignment with
/// a greater number meets it; the assignment that is built meets it exactly where its number is not
/// greater.
pub fn enforce_u64_var(cs: &mut ConstraintSystem, x: FpVar)
    requires
        old(cs).wf(),
        x.index < old(cs).gates().len(),
    ensures
        final(cs).wf(),
        old(cs).grows_to(final(cs)),
        final(cs).shape() == u64_shape(old(cs).shape(), x),
        final(cs).equalities().len() == old(cs).equalities().len() + 1,
        final(cs).equalities().drop_last() == old(cs).equalities(),
        forall|wires: Seq<nat>| #[trigger]
            allowed(final(cs).gates(), wires) ==> allowed(old(cs).gates(), wires) && (wires[
            final(cs).equalities().last().0 as int] == wires[
            final(cs).equalities().last().1 as int] ==> wires[x.index as int] <= u64::MAX),
        final(cs).wires()[final(cs).equalities().last().0 as int] == final(cs).wires()[
        final(cs).equalities().last().1 as int] <==> old(cs).wires()[x.index as int] <= u64::MAX,
{
    let ghost c0 = *cs;
    let assignment = cs.assignment();
    let value = assignment[x.index];
    assert(values(assignment@)[x.index as int] == value@);
    let low = value.low_u64();
    let bits = new_bits(cs, low);
    let ghost c1 = *cs;
    let sum = bits_var(cs, &bits);
    let ghost c2 = *cs;
    cs.enforce_equal(sum, x);
    proof {
        lemma_grows_transitive(c0, c1, c2);
        lemma_grows_transitive(c0, c2, *cs);
        assert(cs.equalities().drop_last() =~= c0.equalities());
        lemma_width_of_u64();
        lemma_modulus_fits();
        assert forall|wires: Seq<nat>| #[trigger] allowed(cs.gates(), wires) implies allowed(
            c0.gates(),
            wires,
        ) && (wires[sum.index as int] == wires[x.index as int] ==> wires[x.index as int]
            <= u64::MAX) by {
            assert(allowed(c1.gates(), wires));
            lemma_allowed_start(c0.gates(), c1.gates(), wires);
            let all = pick_bits(wires, bits@);
            lemma_bits_bound(all);
            vstd::arithmetic::div_mod::lemma_small_mod(bits_value(all), modulus());
        }
        let own = pick_bits(cs.wires(), bits@);
        assert(own =~= pick_bits(c1.wires(), bits@)) by {
            assert forall|k: int| 0 <= k < 64 implies own[k] == pick_bits(c1.wires(), bits@)[k] by {
                let at = bits@[k].index as int;
                assert(at < c1.gates().len());
                assert(c2.wires().take(c1.wires().len() as int)[at] == c2.wires()[at]);
            }
        }
        lemma_digits(low as nat, 64);
        vstd::arithmetic::div_mod::lemma_small_mod(low as nat, modulus());
        assert(allowed(c2.gates(), c2.wires()));
        assert(c2.wires()[sum.index as int] == low);
        assert(c2.wires().take(c0.wires().len() as int)[x.index as int]
            == c2.wires()[x.index as int]);
        if value@ <= u64::MAX {
            vstd::arithmetic::div_mod::lemma_small_mod(value@, 0x1_0000_0000_0000_0000);
        }
    }
}

} // verus!
