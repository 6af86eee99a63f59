use ark_ff::{Field, PrimeField};
use prune::field::Fr;
use prune::poseidon::{
    generate_mds_matrix, generate_round_constants, hash2, hash3, hash4, mds_multiply, sbox,
    PoseidonParams,
};
use sha2::Digest;

#[test]
fn test_hash2_deterministic() {
    let a = Fr::from(123u64);
    let b = Fr::from(456u64);
    let h1 = hash2(a, b);
    let h2 = hash2(a, b);
    assert_eq!(h1, h2, "Poseidon hash must be deterministic");
}

#[test]
fn test_hash2_different_inputs() {
    let h1 = hash2(Fr::from(1u64), Fr::from(2u64));
    let h2 = hash2(Fr::from(1u64), Fr::from(3u64));
    assert_ne!(h1, h2, "Different inputs should produce different hashes");
}

#[test]
fn test_hash2_order_matters() {
    let a = Fr::from(100u64);
    let b = Fr::from(200u64);
    let h1 = hash2(a, b);
    let h2 = hash2(b, a);
    assert_ne!(h1, h2, "Input order must matter");
}

#[test]
fn test_hash4_deterministic() {
    let h1 = hash4(Fr::from(1u64), Fr::from(2u64), Fr::from(3u64), Fr::from(4u64));
    let h2 = hash4(Fr::from(1u64), Fr::from(2u64), Fr::from(3u64), Fr::from(4u64));
    assert_eq!(h1, h2);
}

#[test]
fn test_hash3_deterministic() {
    let h1 = hash3(Fr::from(10u64), Fr::from(20u64), Fr::from(30u64));
    let h2 = hash3(Fr::from(10u64), Fr::from(20u64), Fr::from(30u64));
    assert_eq!(h1, h2);
}

#[test]
fn test_sbox() {
    let x = Fr::from(3u64);
    let result = sbox(x);
    assert_eq!(result, Fr::from(243u64)); // 3^5 = 243
}

/// The round constant with the given number.
fn reference_constant(i: u64) -> ark_bn254::Fr {
    let mut hasher = sha2::Sha256::new();
    hasher.update(b"pRune_poseidon_bn254_rc");
    hasher.update(i.to_le_bytes());
    ark_bn254::Fr::from_le_bytes_mod_order(&hasher.finalize())
}

/// The permutation of a state, written out over `ark_bn254`.
fn reference_permutation(state: &[u64], rp: usize) -> ark_bn254::Fr {
    let t = state.len();
    let rf = 8;
    let entry = |i: usize, j: usize| {
        ark_bn254::Fr::from((i + 1 + t + j + 1) as u64).inverse().unwrap()
    };
    let mut state: Vec<ark_bn254::Fr> = state.iter().map(|x| ark_bn254::Fr::from(*x)).collect();
    for round in 0..rf + rp {
        let full = round < rf / 2 || round >= rf / 2 + rp;
        for (k, x) in state.iter_mut().enumerate() {
            *x += reference_constant((round * t + k) as u64);
            if full || k == 0 {
                *x = x.pow([5u64]);
            }
        }
        state = (0..t).map(|i| (0..t).map(|j| entry(i, j) * state[j]).sum()).collect();
    }
    state[0]
}

fn to_ark(x: Fr) -> ark_bn254::Fr {
    ark_bn254::Fr::from_le_bytes_mod_order(&x.to_bytes_le())
}

#[test]
fn hashes_have_their_exact_values() {
    assert_eq!(
        to_ark(hash2(Fr::from(123), Fr::from(456))),
        reference_permutation(&[2, 123, 456], 57)
    );
    assert_eq!(
        to_ark(hash3(Fr::from(1), Fr::from(2), Fr::from(3))),
        reference_permutation(&[3, 1, 2, 3, 0], 60)
    );
    assert_eq!(
        to_ark(hash4(Fr::from(1), Fr::from(2), Fr::from(3), Fr::from(4))),
        reference_permutation(&[4, 1, 2, 3, 4], 60)
    );
}

#[test]
fn number_of_inputs_separates_hashes() {
    let (a, b, c) = (Fr::from(1), Fr::from(2), Fr::from(3));
    assert_ne!(hash3(a, b, c), hash4(a, b, c, Fr::zero()));
}

#[test]
fn parameters_have_their_sizes() {
    let params = PoseidonParams::new(3);
    assert_eq!((params.t, params.rf, params.rp), (3, 8, 57));
    assert_eq!(params.round_constants.len(), 3 * 65);
    assert_eq!(params.mds_matrix.len(), 3);
    assert_eq!(params.mds_matrix[1][2].times(Fr::from(8)), Fr::from(1));
    let wide = PoseidonParams::new(5);
    assert_eq!((wide.t, wide.rf, wide.rp), (5, 8, 60));
    assert_eq!(generate_mds_matrix(2)[0][0].times(Fr::from(4)), Fr::from(1));
    assert_eq!(generate_round_constants(4).len(), 4);
}

#[test]
fn constants_hash_a_tag_and_a_number() {
    assert_eq!(to_ark(generate_round_constants(4)[3]), reference_constant(3));
}

#[test]
fn matrix_product_is_the_product() {
    let matrix = vec![vec![Fr::from(1), Fr::from(2)], vec![Fr::from(3), Fr::from(4)]];
    let mut state = vec![Fr::from(10), Fr::from(100)];
    mds_multiply(&mut state, &matrix);
    assert_eq!(state, vec![Fr::from(210), Fr::from(430)]);
}
