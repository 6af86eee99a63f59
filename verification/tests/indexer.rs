use ark_ff::{BigInteger, PrimeField, UniformRand};
use prune::chain::{OutPoint, Transaction, TxIn, TxOut, Txid};
use prune::field::Fr;
use prune::indexer::{fr_from_bytes32, fr_to_bytes32, scan_transaction, IndexerError, PruneOp};

/// An input without a script or a witness.
fn empty_input() -> TxIn {
    TxIn {
        previous_output: OutPoint { txid: Txid { bytes: [0u8; 32] }, vout: u32::MAX },
        script_sig: vec![],
        sequence: u32::MAX,
        witness: vec![],
    }
}

/// A transaction with one input whose witness spends the given tapscript.
fn tx_with_tapscript(script: &Vec<u8>) -> Transaction {
    // Control block: version byte + 32-byte internal key (dummy)
    let mut control = vec![0xc0u8];
    control.extend_from_slice(&[0x02; 32]);
    Transaction {
        version: 2,
        lock_time: 0,
        input: vec![TxIn { witness: vec![vec![], script.clone(), control], ..empty_input() }],
        output: vec![TxOut { value: 0, script_pubkey: vec![] }],
    }
}

#[test]
fn test_scan_finds_shield_op() {
    let op = PruneOp::Shield {
        rune_id: Fr::from(42u64),
        commitment: Fr::from(123u64),
        encrypted_note: vec![0xaa; 88],
    };

    let script = op.to_envelope_script();
    let tx = tx_with_tapscript(&script);
    let results = scan_transaction(&tx);

    assert_eq!(results.len(), 1);
    assert_eq!(results[0].0, 0);
    match &results[0].1 {
        PruneOp::Shield { rune_id, commitment, .. } => {
            assert_eq!(*rune_id, Fr::from(42u64));
            assert_eq!(*commitment, Fr::from(123u64));
        }
        _ => panic!("expected Shield"),
    }
}

#[test]
fn test_scan_empty_witness_skipped() {
    let tx = Transaction {
        version: 2,
        lock_time: 0,
        input: vec![empty_input()],
        output: vec![],
    };

    let results = scan_transaction(&tx);
    assert!(results.is_empty());
}

#[test]
fn test_fr_bytes32_roundtrip() {
    let original = Fr::from(9999u64);
    let bytes = fr_to_bytes32(original);
    let recovered = fr_from_bytes32(&bytes).expect("valid Fr");
    assert_eq!(original, recovered);
}

#[test]
fn test_fr_bytes32_roundtrip_zero() {
    let original = Fr::zero();
    let bytes = fr_to_bytes32(original);
    let recovered = fr_from_bytes32(&bytes).expect("valid Fr");
    assert_eq!(original, recovered);
}

#[test]
fn test_fr_bytes32_roundtrip_random() {
    let mut rng = ark_std::test_rng();
    for _ in 0..10 {
        let drawn = ark_bn254::Fr::rand(&mut rng);
        let original = Fr::from_le_bytes_mod_order(&drawn.into_bigint().to_bytes_le());
        let bytes = fr_to_bytes32(original);
        let recovered = fr_from_bytes32(&bytes).expect("valid Fr");
        assert_eq!(original, recovered);
    }
}

#[test]
fn test_fr_from_bytes32_invalid() {
    // All 0xFF should be out of range for BN254 scalar field
    let bad = [0xFFu8; 32];
    assert!(fr_from_bytes32(&bad).is_err());
}

/// A shield whose commitment is the given number.
fn shield(commitment: u64) -> PruneOp {
    PruneOp::Shield {
        rune_id: Fr::from(1),
        commitment: Fr::from(commitment),
        encrypted_note: vec![],
    }
}

#[test]
fn tapscript_is_second_to_last() {
    let with = |witness: Vec<Vec<u8>>| TxIn { witness, ..empty_input() };
    assert_eq!(with(vec![]).tapscript(), None);
    assert_eq!(with(vec![vec![1; 64]]).tapscript(), None);
    assert_eq!(with(vec![vec![7], vec![0xc0]]).tapscript(), Some(&vec![7]));
    // An annex is taken off first.
    assert_eq!(with(vec![vec![7], vec![0xc0], vec![0x50, 1]]).tapscript(), Some(&vec![7]));
    assert_eq!(with(vec![vec![1; 64], vec![0x50]]).tapscript(), None);
}

#[test]
#[allow(deprecated)]
fn tapscript_agrees_with_the_bitcoin_crate() {
    let elements: [Vec<u8>; 4] = [vec![], vec![7], vec![0xc0; 33], vec![0x50, 1]];
    for a in 0..4 {
        for b in 0..4 {
            for c in 0..4 {
                for len in 0..=3 {
                    let all = [a, b, c].map(|i| elements[i].clone());
                    let stack = all[..len].to_vec();
                    let expected = bitcoin::Witness::from_slice(&stack);
                    let input = TxIn { witness: stack, ..empty_input() };
                    assert_eq!(
                        input.tapscript().map(|script| script.as_slice()),
                        expected.tapscript().map(|script| script.as_bytes())
                    );
                }
            }
        }
    }
}

#[test]
fn operations_are_found_in_the_order_of_the_inputs() {
    let spend = |op: &PruneOp| TxIn {
        witness: vec![op.to_envelope_script(), vec![0xc0; 33]],
        ..empty_input()
    };
    let tx = Transaction {
        version: 2,
        lock_time: 0,
        input: vec![spend(&shield(10)), empty_input(), spend(&shield(20))],
        output: vec![],
    };
    let found = scan_transaction(&tx);
    assert_eq!(found.len(), 2);
    assert_eq!((found[0].0, found[1].0), (0, 2));
    match (&found[0].1, &found[1].1) {
        (PruneOp::Shield { commitment: a, .. }, PruneOp::Shield { commitment: b, .. }) => {
            assert_eq!((*a, *b), (Fr::from(10), Fr::from(20)));
        }
        _ => panic!("expected two shields"),
    }
}

#[test]
fn element_bytes_are_little_endian() {
    let mut expected = [0u8; 32];
    expected[0] = 0x0f;
    expected[1] = 0x27;
    assert_eq!(fr_to_bytes32(Fr::from(9999)), expected);
    assert_eq!(fr_from_bytes32(&[0xFF; 32]), Err(IndexerError::InvalidElement));
}
