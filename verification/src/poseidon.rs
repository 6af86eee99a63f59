//! The Poseidon hash function over the BN254 scalar field.
//!
//! A hash fills a state with an arity tag and the inputs, permutes it, and returns its first
//! element. The permutation is a series of rounds: add constants, raise to the fifth power (all
//! elements in a full round, the first one in a partial round), multiply by a Cauchy matrix.
use vstd::arithmetic::div_mod::{lemma_mul_mod_noop, lemma_mul_mod_noop_left, lemma_small_mod};
use vstd::prelude::*;

use crate::bytes::{le_bytes, le_value, u64_to_le_bytes};
use crate::field::{add_mod, inverse_mod, modulus, mul_mod, values, Fr};
use crate::sha::{sha256, sha256_digest, tag, tag_bytes};

verus! {

/// The fifth power of `x` in the field.
pub open spec fn fifth_power(x: nat) -> nat {
    (x * x * x * x * x) % modulus()
}

/// The round constant with number `i`.
pub open spec fn round_constant(i: nat) -> nat {
    le_value(sha256_digest(tag("pRune_poseidon_bn254_rc") + le_bytes(i, 8))) % modulus()
}

/// The entry of the mixing matrix of width `t` in row `i` and column `j`.
pub open spec fn matrix_entry(t: nat, i: nat, j: nat) -> nat {
    inverse_mod((i + 1) + (t + j + 1))
}

/// The number of partial rounds for width `t`.
pub open spec fn partial_rounds(t: nat) -> nat {
    if t == 5 {
        60
    } else {
        57
    }
}

/// The first `n` terms of the product of a matrix row and a state.
pub open spec fn dot(row: Seq<nat>, state: Seq<nat>, n: nat) -> nat
    decreases n,
{
    if n == 0 {
        0
    } else {
        add_mod(dot(row, state, (n - 1) as nat), mul_mod(row[n - 1], state[n - 1]))
    }
}

/// The product of a matrix and a state.
pub open spec fn mix(matrix: Seq<Seq<nat>>, state: Seq<nat>) -> Seq<nat> {
    Seq::new(state.len(), |i: int| dot(matrix[i], state, state.len()))
}

/// The state with `t` constants, from number `offset` on, added to its first `t` elements.
pub open spec fn add_constants(
    state: Seq<nat>,
    constants: Seq<nat>,
    t: nat,
    offset: nat,
) -> Seq<nat> {
    Seq::new(
        state.len(),
        |i: int|
            if i < t {
                add_mod(state[i], constants[offset + i])
            } else {
                state[i]
            },
    )
}

/// The state with its first `n` elements raised to the fifth power.
pub open spec fn power_layer(state: Seq<nat>, n: nat) -> Seq<nat> {
    Seq::new(
        state.len(),
        |i: int|
            if i < n {
                fifth_power(state[i])
            } else {
                state[i]
            },
    )
}

/// The numbers that fix a permutation.
pub struct Parameters {
    pub t: nat,
    pub rf: nat,
    pub rp: nat,
    pub constants: Seq<nat>,
    pub matrix: Seq<Seq<nat>>,
}

impl Parameters {
    /// Half the full rounds, the partial rounds, and the other half.
    pub open spec fn rounds(self) -> nat {
        self.rf / 2 + self.rp + self.rf / 2
    }

    /// Whether round `r` raises the whole state to the fifth power.
    pub open spec fn is_full(self, r: nat) -> bool {
        r < self.rf / 2 || r >= self.rf / 2 + self.rp
    }

    /// One round on a state.
    pub open spec fn round(self, state: Seq<nat>, r: nat) -> Seq<nat> {
        let n = if self.is_full(r) {
            self.t
        } else {
            1
        };
        mix(
            self.matrix,
            power_layer(add_constants(state, self.constants, self.t, r * self.t), n),
        )
    }

    /// The first `r` rounds on a state.
    pub open spec fn first_rounds(self, state: Seq<nat>, r: nat) -> Seq<nat>
        decreases r,
    {
        if r == 0 {
            state
        } else {
            self.round(self.first_rounds(state, (r - 1) as nat), (r - 1) as nat)
        }
    }

    /// All rounds on a state.
    pub open spec fn permute(self, state: Seq<nat>) -> Seq<nat> {
        self.first_rounds(state, self.rounds())
    }

    /// Whether every index that the permutation of `len` elements uses is in range.
    pub open spec fn covers(self, len: nat) -> bool {
        &&& self.t <= len
        &&& self.rounds() * self.t <= self.constants.len()
        &&& self.rounds() > 0 ==> {
            &&& len > 0 || self.rp == 0
            &&& len <= self.matrix.len()
            &&& forall|i: int| 0 <= i < len ==> len <= (#[trigger] self.matrix[i]).len()
        }
    }
}

/// The parameters of width `t`.
pub open spec fn standard_parameters(t: nat) -> Parameters {
    Parameters {
        t,
        rf: 8,
        rp: partial_rounds(t),
        constants: Seq::new((8 + partial_rounds(t)) * t, |i: int| round_constant(i as nat)),
        matrix: Seq::new(
            t,
            |i: int| Seq::new(t, |j: int| matrix_entry(t, i as nat, j as nat)),
        ),
    }
}

/// The first element of the permuted state.
pub open spec fn sponge(state: Seq<nat>) -> nat {
    standard_parameters(state.len()).permute(state)[0]
}

/// The hash of two elements.
pub open spec fn hash2_spec(a: nat, b: nat) -> nat {
    sponge(seq![2, a, b])
}

/// The hash of three elements.
pub open spec fn hash3_spec(a: nat, b: nat, c: nat) -> nat {
    sponge(seq![3, a, b, c, 0])
}

/// The hash of four elements.
pub open spec fn hash4_spec(a: nat, b: nat, c: nat, d: nat) -> nat {
    sponge(seq![4, a, b, c, d])
}

/// Two squarings and one multiplication give the fifth power.
pub proof fn lemma_fifth_power(x: nat)
    ensures
        mul_mod(mul_mod(mul_mod(x, x), mul_mod(x, x)), x) == fifth_power(x),
{
    let p = modulus() as int;
    let v = x as int;
    lemma_mul_mod_noop(v * v, v * v, p);
    lemma_mul_mod_noop_left((v * v) * (v * v), v, p);
    assert(((v * v) * (v * v)) * v == v * v * v * v * v) by (nonlinear_arith);
}

/// The fifth power, by three multiplications.
pub fn sbox(x: Fr) -> (r: Fr)
    ensures
        r@ == fifth_power(x@),
{
    let x2 = x.times(x);
    let x4 = x2.times(x2);
    proof {
        lemma_fifth_power(x@);
    }
    x4.times(x)
}

/// The first `num_constants` round constants.
pub fn generate_round_constants(num_constants: usize) -> (constants: Vec<Fr>)
    ensures
        values(constants@) == Seq::new(num_constants as nat, |i: int| round_constant(i as nat)),
{
    let mut constants: Vec<Fr> = Vec::new();
    let mut i: usize = 0;
    while i < num_constants
        invariant
            i <= num_constants,
            constants@.len() == i,
            forall|k: int| 0 <= k < i ==> (#[trigger] constants@[k])@ == round_constant(k as nat),
        decreases num_constants - i,
    {
        let mut input = tag_bytes("pRune_poseidon_bn254_rc");
        proof {
            lemma_seed_length();
        }
        let mut number = u64_to_le_bytes(i as u64);
        input.append(&mut number);
        let digest = sha256(input.as_slice());
        constants.push(Fr::from_le_bytes_mod_order(digest.as_slice()));
        i = i + 1;
    }
    proof {
        assert(values(constants@) =~= Seq::new(
            num_constants as nat,
            |i: int| round_constant(i as nat),
        ));
    }
    constants
}

proof fn lemma_seed_length()
    ensures
        tag("pRune_poseidon_bn254_rc").len() == 23,
{
    reveal_strlit("pRune_poseidon_bn254_rc");
    vstd::utf8::is_ascii_chars_encode_utf8("pRune_poseidon_bn254_rc"@);
}

/// The values of a matrix.
pub open spec fn matrix_values(m: Seq<Vec<Fr>>) -> Seq<Seq<nat>> {
    Seq::new(m.len(), |i: int| values(m[i]@))
}

/// The Cauchy matrix of width `t`: the entry in row `i` and column `j` is the inverse of
/// `(i + 1) + (t + j + 1)`.
pub fn generate_mds_matrix(t: usize) -> (matrix: Vec<Vec<Fr>>)
    requires
        65 * t <= usize::MAX,
    ensures
        matrix_values(matrix@) == Seq::new(
            t as nat,
            |i: int| Seq::new(t as nat, |j: int| matrix_entry(t as nat, i as nat, j as nat)),
        ),
{
    let mut matrix: Vec<Vec<Fr>> = Vec::new();
    let mut i: usize = 0;
    while i < t
        invariant
            i <= t,
            65 * t <= usize::MAX,
            matrix@.len() == i,
            forall|k: int|
                0 <= k < i ==> values((#[trigger] matrix@[k])@) == Seq::new(
                    t as nat,
                    |j: int| matrix_entry(t as nat, k as nat, j as nat),
                ),
        decreases t - i,
    {
        let mut row: Vec<Fr> = Vec::new();
        let mut j: usize = 0;
        while j < t
            invariant
                i < t,
                j <= t,
                65 * t <= usize::MAX,
                row@.len() == j,
                forall|k: int|
                    0 <= k < j ==> (#[trigger] row@[k])@ == matrix_entry(
                        t as nat,
                        i as nat,
                        k as nat,
                    ),
            decreases t - j,
        {
            let x = Fr::from((i + 1) as u64);
            let y = Fr::from((t + j + 1) as u64);
            let sum = x.plus(y);
            proof {
                lemma_small_mod((i + 1 + t + j + 1) as nat, modulus());
            }
            match sum.inverse() {
                Some(inv) => {
                    row.push(inv);
                },
                None => {
                    assert(false);
                },
            }
            j = j + 1;
        }
        proof {
            assert(values(row@) =~= Seq::new(
                t as nat,
                |j: int| matrix_entry(t as nat, i as nat, j as nat),
            ));
        }
        matrix.push(row);
        i = i + 1;
    }
    proof {
        assert(matrix_values(matrix@) =~= Seq::new(
            t as nat,
            |i: int| Seq::new(t as nat, |j: int| matrix_entry(t as nat, i as nat, j as nat)),
        ));
    }
    matrix
}

/// The parameters of a permutation: the width, the numbers of full and partial rounds, the round
/// constants and the mixing matrix.
pub struct PoseidonParams {
    pub t: usize,
    pub rf: usize,
    pub rp: usize,
    pub round_constants: Vec<Fr>,
    pub mds_matrix: Vec<Vec<Fr>>,
}

impl View for PoseidonParams {
    type V = Parameters;

    open spec fn view(&self) -> Parameters {
        Parameters {
            t: self.t as nat,
            rf: self.rf as nat,
            rp: self.rp as nat,
            constants: values(self.round_constants@),
            matrix: matrix_values(self.mds_matrix@),
        }
    }
}

impl PoseidonParams {
    /// The parameters for a state of `t` elements.
    pub fn new(t: usize) -> (params: PoseidonParams)
        requires
            65 * t <= usize::MAX,
        ensures
            params@ == standard_parameters(t as nat),
    {
        let rf: usize = 8;
        let rp: usize = if t == 5 {
            60
        } else {
            57
        };
        let total_constants: usize = (rf + rp) * t;
        let round_constants = generate_round_constants(total_constants);
        let mds_matrix = generate_mds_matrix(t);
        PoseidonParams { t, rf, rp, round_constants, mds_matrix }
    }
}

/// Multiplies the state by the matrix.
pub fn mds_multiply(state: &mut Vec<Fr>, mds: &Vec<Vec<Fr>>)
    requires
        old(state)@.len() <= mds@.len(),
        forall|i: int|
            0 <= i < old(state)@.len() ==> old(state)@.len() <= (#[trigger] mds@[i])@.len(),
    ensures
        values(final(state)@) == mix(matrix_values(mds@), values(old(state)@)),
        final(state)@.len() == old(state)@.len(),
{
    let t: usize = state.len();
    let ghost before = values(state@);
    let ghost matrix = matrix_values(mds@);
    let mut new_state: Vec<Fr> = Vec::new();
    let mut i: usize = 0;
    while i < t
        invariant
            i <= t,
            t == state@.len(),
            t <= mds@.len(),
            forall|k: int| 0 <= k < t ==> t <= (#[trigger] mds@[k])@.len(),
            before == values(state@),
            matrix == matrix_values(mds@),
            new_state@.len() == i,
            forall|k: int|
                0 <= k < i ==> (#[trigger] new_state@[k])@ == dot(matrix[k], before, t as nat),
        decreases t - i,
    {
        let mut sum = Fr::zero();
        let mut j: usize = 0;
        while j < t
            invariant
                i < t,
                j <= t,
                t == state@.len(),
                t <= mds@.len(),
                forall|k: int| 0 <= k < t ==> t <= (#[trigger] mds@[k])@.len(),
                before == values(state@),
                matrix == matrix_values(mds@),
                sum@ == dot(matrix[i as int], before, j as nat),
            decreases t - j,
        {
            assert(t <= mds@[i as int]@.len());
            assert(matrix[i as int][j as int] == mds@[i as int]@[j as int]@);
            sum = sum.plus(mds[i][j].times(state[j]));
            j = j + 1;
        }
        new_state.push(sum);
        i = i + 1;
    }
    proof {
        assert(values(new_state@) =~= mix(matrix, before));
    }
    *state = new_state;
}

/// One round: adds the constants from number `offset` on, raises `n` elements to the fifth power,
/// and mixes.
fn apply_round(state: &mut Vec<Fr>, params: &PoseidonParams, offset: usize, n: usize)
    requires
        params.t <= old(state)@.len(),
        n <= old(state)@.len(),
        offset + params.t <= params.round_constants@.len(),
        old(state)@.len() <= params.mds_matrix@.len(),
        forall|i: int|
            0 <= i < old(state)@.len() ==> old(state)@.len() <= (#[trigger] params@.matrix[i]).len(),
    ensures
        values(final(state)@) == mix(
            params@.matrix,
            power_layer(
                add_constants(
                    values(old(state)@),
                    params@.constants,
                    params.t as nat,
                    offset as nat,
                ),
                n as nat,
            ),
        ),
        final(state)@.len() == old(state)@.len(),
{
    let t: usize = params.t;
    let available: usize = params.round_constants.len();
    let ghost start = values(state@);
    let ghost len = state@.len();
    let mut j: usize = 0;
    while j < t
        invariant
            j <= t,
            offset + t <= available,
            t == params.t,
            t <= len,
            state@.len() == len,
            start.len() == len,
            offset + t <= params.round_constants@.len(),
            forall|k: int|
                0 <= k < len ==> (#[trigger] state@[k])@ == (if k < j {
                    add_mod(start[k], params@.constants[offset + k])
                } else {
                    start[k]
                }),
        decreases t - j,
    {
        let sum = state[j].plus(params.round_constants[offset + j]);
        assert(params@.constants[offset + j] == params.round_constants@[offset + j]@);
        state.set(j, sum);
        j = j + 1;
    }
    let ghost shifted = values(state@);
    assert(shifted =~= add_constants(start, params@.constants, t as nat, offset as nat));
    let mut j: usize = 0;
    while j < n
        invariant
            j <= n,
            n <= len,
            state@.len() == len,
            shifted.len() == len,
            forall|k: int|
                0 <= k < len ==> (#[trigger] state@[k])@ == (if k < j {
                    fifth_power(shifted[k])
                } else {
                    shifted[k]
                }),
        decreases n - j,
    {
        let power = sbox(state[j]);
        state.set(j, power);
        j = j + 1;
    }
    assert(values(state@) =~= power_layer(shifted, n as nat));
    proof {
        assert forall|i: int| 0 <= i < state@.len() implies state@.len() <= (
        #[trigger] params.mds_matrix@[i])@.len() by {
            assert(params@.matrix[i].len() == params.mds_matrix@[i]@.len());
        }
    }
    mds_multiply(state, &params.mds_matrix);
    assert(values(state@).len() == len);
}

/// The constants of every round are there.
pub proof fn lemma_offset_in_range(p: Parameters, len: nat, r: nat)
    requires
        p.covers(len),
        r < p.rounds(),
    ensures
        r * p.t + p.t <= p.constants.len(),
        (r + 1) * p.t == r * p.t + p.t,
{
    assert((r + 1) * p.t == r * p.t + p.t) by (nonlinear_arith);
    assert((r + 1) * p.t <= p.rounds() * p.t) by (nonlinear_arith)
        requires
            r + 1 <= p.rounds(),
    ;
}

/// The permutation: half of the full rounds, the partial rounds, the other half.
pub fn poseidon_permutation(state: &mut Vec<Fr>, params: &PoseidonParams)
    requires
        params@.covers(old(state)@.len()),
    ensures
        values(final(state)@) == params@.permute(values(old(state)@)),
{
    let t: usize = params.t;
    let half_rf: usize = params.rf / 2;
    let rp: usize = params.rp;
    let available: usize = params.round_constants.len();
    let ghost p = params@;
    let ghost start = values(state@);
    let ghost len = state@.len();
    let mut rc_offset: usize = 0;

    let mut i: usize = 0;
    while i < half_rf
        invariant
            i <= half_rf,
            t == params.t,
            half_rf == params.rf / 2,
            p == params@,
            available == p.constants.len(),
            p.covers(len),
            state@.len() == len,
            rc_offset == i * t,
            values(state@) == p.first_rounds(start, i as nat),
        decreases half_rf - i,
    {
        proof {
            lemma_offset_in_range(p, len, i as nat);
        }
        apply_round(state, params, rc_offset, t);
        rc_offset = rc_offset + t;
        i = i + 1;
    }

    let mut i: usize = 0;
    assert(half_rf + 0 == half_rf);
    while i < rp
        invariant
            i <= rp,
            t == params.t,
            half_rf == params.rf / 2,
            rp == params.rp,
            p == params@,
            available == p.constants.len(),
            p.covers(len),
            state@.len() == len,
            rc_offset == (half_rf + i) * t,
            values(state@) == p.first_rounds(start, (half_rf + i) as nat),
        decreases rp - i,
    {
        proof {
            lemma_offset_in_range(p, len, (half_rf + i) as nat);
        }
        apply_round(state, params, rc_offset, 1);
        rc_offset = rc_offset + t;
        i = i + 1;
    }

    let mut i: usize = 0;
    assert(half_rf + rp + 0 == half_rf + rp);
    while i < half_rf
        invariant
            i <= half_rf,
            t == params.t,
            half_rf == params.rf / 2,
            rp == params.rp,
            p == params@,
            available == p.constants.len(),
            p.covers(len),
            state@.len() == len,
            rc_offset == (half_rf + rp + i) * t,
            values(state@) == p.first_rounds(start, (half_rf + rp + i) as nat),
        decreases half_rf - i,
    {
        proof {
            lemma_offset_in_range(p, len, (half_rf + rp + i) as nat);
        }
        apply_round(state, params, rc_offset, t);
        rc_offset = rc_offset + t;
        i = i + 1;
    }
}

/// The standard parameters serve a state of their own width.
pub proof fn lemma_standard_covers(t: nat)
    requires
        0 < t,
    ensures
        standard_parameters(t).covers(t),
{
}

/// Rounds keep the length of the state.
pub proof fn lemma_permute_len(p: Parameters, state: Seq<nat>, r: nat)
    ensures
        p.first_rounds(state, r).len() == state.len(),
    decreases r,
{
    if r > 0 {
        lemma_permute_len(p, state, (r - 1) as nat);
    }
}

/// Permutes a state with the standard parameters of its width and returns its first element.
fn squeeze(state: Vec<Fr>) -> (r: Fr)
    requires
        0 < state@.len() <= 5,
    ensures
        r@ == sponge(values(state@)),
{
    let mut state = state;
    let ghost start = values(state@);
    let params = PoseidonParams::new(state.len());
    proof {
        lemma_standard_covers(state@.len());
        lemma_permute_len(params@, start, params@.rounds());
    }
    poseidon_permutation(&mut state, &params);
    assert(values(state@).len() == start.len());
    assert(values(state@)[0] == state@[0]@);
    state[0]
}

/// Hashes two elements.
pub fn hash2(a: Fr, b: Fr) -> (r: Fr)
    ensures
        r@ == hash2_spec(a@, b@),
{
    let state = vec![Fr::from(2), a, b];
    assert(values(state@) =~= seq![2, a@, b@]);
    squeeze(state)
}

/// Hashes four elements.
pub fn hash4(a: Fr, b: Fr, c: Fr, d: Fr) -> (r: Fr)
    ensures
        r@ == hash4_spec(a@, b@, c@, d@),
{
    let state = vec![Fr::from(4), a, b, c, d];
    assert(values(state@) =~= seq![4, a@, b@, c@, d@]);
    squeeze(state)
}

/// Hashes three elements. The state is padded with a zero; the arity tag keeps the result apart
/// from the hash of the same elements and a zero.
pub fn hash3(a: Fr, b: Fr, c: Fr) -> (r: Fr)
    ensures
        r@ == hash3_spec(a@, b@, c@),
{
    let state = vec![Fr::from(3), a, b, c, Fr::from(0)];
    assert(values(state@) =~= seq![3, a@, b@, c@, 0]);
    squeeze(state)
}

/// A permuted state holds field elements.
proof fn lemma_sponge_in_field(state: Seq<nat>)
    requires
        state.len() > 0,
    ensures
        sponge(state) < modulus(),
{
    let p = standard_parameters(state.len());
    let r = (p.rounds() - 1) as nat;
    lemma_permute_len(p, state, r);
    let before = p.first_rounds(state, r);
    let n = if p.is_full(r) {
        p.t
    } else {
        1
    };
    let raised = power_layer(add_constants(before, p.constants, p.t, r * p.t), n);
    assert(p.permute(state) == mix(p.matrix, raised));
    assert(sponge(state) == dot(p.matrix[0], raised, raised.len()));
    vstd::arithmetic::div_mod::lemma_mod_bound(
        (dot(p.matrix[0], raised, (raised.len() - 1) as nat) + mul_mod(
            p.matrix[0][raised.len() - 1],
            raised[raised.len() - 1],
        )) as int,
        modulus() as int,
    );
}

/// Hashes are field elements.
pub proof fn lemma_hash_in_field(a: nat, b: nat, c: nat, d: nat)
    ensures
        hash2_spec(a, b) < modulus(),
        hash3_spec(a, b, c) < modulus(),
        hash4_spec(a, b, c, d) < modulus(),
{
    lemma_sponge_in_field(seq![2, a, b]);
    lemma_sponge_in_field(seq![3, a, b, c, 0]);
    lemma_sponge_in_field(seq![4, a, b, c, d]);
}

/// Whether a sequence holds field elements.
pub open spec fn in_field(s: Seq<nat>) -> bool {
    forall|i: int| 0 <= i < s.len() ==> #[trigger] s[i] < modulus()
}

/// Whether two different lists of elements of one length have the same hash.
pub open spec fn collide(x: Seq<nat>, y: Seq<nat>) -> bool {
    &&& in_field(x)
    &&& in_field(y)
    &&& x.len() == y.len()
    &&& x != y
    &&& {
        ||| x.len() == 2 && hash2_spec(x[0], x[1]) == hash2_spec(y[0], y[1])
        ||| x.len() == 3 && hash3_spec(x[0], x[1], x[2]) == hash3_spec(y[0], y[1], y[2])
        ||| x.len() == 4 && hash4_spec(x[0], x[1], x[2], x[3]) == hash4_spec(
            y[0],
            y[1],
            y[2],
            y[3],
        )
    }
}

/// A hash of two elements fixes both where it is not shared with another pair.
pub proof fn lemma_hash2_fixes(a: nat, b: nat, c: nat, d: nat)
    requires
        !collide(seq![a, b], seq![c, d]),
        a < modulus() && b < modulus() && c < modulus() && d < modulus(),
        hash2_spec(a, b) == hash2_spec(c, d),
    ensures
        a == c,
        b == d,
{
    let (x, y) = (seq![a, b], seq![c, d]);
    assert(in_field(x) && in_field(y));
    assert(x == y);
    assert(x[0] == y[0] && x[1] == y[1]);
}

/// A hash of three elements fixes all three where it is not shared with another list.
pub proof fn lemma_hash3_fixes(x: Seq<nat>, y: Seq<nat>)
    requires
        !collide(x, y),
        in_field(x) && in_field(y),
        x.len() == 3 && y.len() == 3,
        hash3_spec(x[0], x[1], x[2]) == hash3_spec(y[0], y[1], y[2]),
    ensures
        x == y,
{
}

/// A hash of four elements fixes all four where it is not shared with another list.
pub proof fn lemma_hash4_fixes(x: Seq<nat>, y: Seq<nat>)
    requires
        !collide(x, y),
        in_field(x) && in_field(y),
        x.len() == 4 && y.len() == 4,
        hash4_spec(x[0], x[1], x[2], x[3]) == hash4_spec(y[0], y[1], y[2], y[3]),
    ensures
        x == y,
{
}

/// A hash is the first element of a permuted state: the number of inputs, the inputs, and for three
/// inputs a zero.
pub proof fn law_hash_is_a_permuted_state(a: nat, b: nat, c: nat, d: nat)
    ensures
        hash2_spec(a, b) == standard_parameters(3).permute(seq![2, a, b])[0],
        hash3_spec(a, b, c) == standard_parameters(5).permute(seq![3, a, b, c, 0])[0],
        hash4_spec(a, b, c, d) == standard_parameters(5).permute(seq![4, a, b, c, d])[0],
{
}

/// The parameters of a width: eight full rounds, 57 partial ones or 60 at width five, the digests of
/// a text and a counter as constants, and a Cauchy matrix.
pub proof fn law_standard_parameters(t: nat, i: nat, j: nat)
    ensures
        ({
            let p = standard_parameters(t);
            let partial: nat = if t == 5 {
                60
            } else {
                57
            };
            &&& p.t == t
            &&& p.rf == 8
            &&& p.rp == partial
            &&& p.rounds() == 8 + partial
            &&& p.constants.len() == (8 + partial) * t
            &&& i < (8 + partial) * t ==> p.constants[i as int] == le_value(
                sha256_digest(tag("pRune_poseidon_bn254_rc") + le_bytes(i, 8)),
            ) % modulus()
            &&& p.matrix.len() == t
            &&& i < t && j < t ==> p.matrix[i as int].len() == t && p.matrix[i as int][j as int]
                == inverse_mod(i + j + t + 2)
        }),
{
}

/// A permutation is its rounds in turn. A round adds its constants, raises all elements, or the first
/// one in a partial round, to the fifth power, and multiplies by the matrix.
pub proof fn law_rounds_in_turn(p: Parameters, state: Seq<nat>, r: nat, i: int)
    requires
        0 <= i < state.len(),
    ensures
        p.first_rounds(state, 0) == state,
        p.first_rounds(state, r + 1) == p.round(p.first_rounds(state, r), r),
        p.permute(state) == p.first_rounds(state, p.rf / 2 + p.rp + p.rf / 2),
        ({
            let n = if r < p.rf / 2 || r >= p.rf / 2 + p.rp {
                p.t
            } else {
                1
            };
            let added = Seq::new(
                state.len(),
                |k: int|
                    if k < p.t {
                        (state[k] + p.constants[r * p.t + k]) % modulus()
                    } else {
                        state[k]
                    },
            );
            let raised = Seq::new(
                state.len(),
                |k: int|
                    if k < n {
                        (added[k] * added[k] * added[k] * added[k] * added[k]) % modulus()
                    } else {
                        added[k]
                    },
            );
            p.round(state, r)[i] == dot(p.matrix[i], raised, state.len())
        }),
{
    let n = if p.is_full(r) {
        p.t
    } else {
        1
    };
    let added = add_constants(state, p.constants, p.t, r * p.t);
    let plain = Seq::new(
        state.len(),
        |k: int|
            if k < p.t {
                (state[k] + p.constants[r * p.t + k]) % modulus()
            } else {
                state[k]
            },
    );
    assert(added =~= plain);
    let raised = Seq::new(
        state.len(),
        |k: int|
            if k < n {
                (plain[k] * plain[k] * plain[k] * plain[k] * plain[k]) % modulus()
            } else {
                plain[k]
            },
    );
    assert(power_layer(added, n) =~= raised);
}

/// The product of a row and a state is the sum of the products of their elements.
pub proof fn law_dot_term_by_term(row: Seq<nat>, state: Seq<nat>, n: nat)
    ensures
        dot(row, state, 0) == 0,
        dot(row, state, n + 1) == (dot(row, state, n) + (row[n as int] * state[n as int])
            % modulus()) % modulus(),
{
}

} // verus!
