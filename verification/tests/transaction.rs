use bitcoin::opcodes;
use bitcoin::script::Builder;
use bitcoin::Script;
use prune::field::Fr;
use prune::transaction::{
    fr_from_bytes, fr_to_bytes, parse_envelope, PruneOp, OP_SHIELD, OP_TRANSFER, OP_UNSHIELD,
    TAG_ANCHOR, TAG_COMMITMENT, TAG_ENCRYPTED_NOTE, TAG_FEE_OR_AMOUNT, TAG_NULLIFIER, TAG_OP_TYPE,
    TAG_RUNE_ID,
};

#[test]
fn test_shield_envelope_roundtrip() {
    let rune_id = Fr::from(42u64);
    let commitment = Fr::from(12345u64);
    let encrypted = vec![0xaa; 88];

    let op = PruneOp::Shield {
        rune_id,
        commitment,
        encrypted_note: encrypted.clone(),
    };

    let script = op.to_envelope_script();
    let parsed = parse_envelope(&script)
        .expect("should parse valid shield envelope");

    match parsed {
        PruneOp::Shield {
            rune_id: r,
            commitment: c,
            encrypted_note: e,
        } => {
            assert_eq!(r, rune_id);
            assert_eq!(c, commitment);
            assert_eq!(e, encrypted);
        }
        _ => panic!("expected Shield"),
    }
}

#[test]
fn test_transfer_envelope_roundtrip() {
    let op = PruneOp::Transfer {
        rune_id: Fr::from(1u64),
        nullifier: Fr::from(100u64),
        out_commitment: Fr::from(200u64),
        anchor: Fr::from(300u64),
        fee: 50,
        proof: vec![0xbb; 192],
        encrypted_note: vec![0xcc; 88],
    };

    let script = op.to_envelope_script();
    let parsed = parse_envelope(&script)
        .expect("should parse valid transfer envelope");

    match parsed {
        PruneOp::Transfer {
            rune_id, nullifier, out_commitment, anchor,
            fee, proof, encrypted_note,
        } => {
            assert_eq!(rune_id, Fr::from(1u64));
            assert_eq!(nullifier, Fr::from(100u64));
            assert_eq!(out_commitment, Fr::from(200u64));
            assert_eq!(anchor, Fr::from(300u64));
            assert_eq!(fee, 50);
            assert_eq!(proof.len(), 192);
            assert_eq!(encrypted_note.len(), 88);
        }
        _ => panic!("expected Transfer"),
    }
}

#[test]
fn test_unshield_envelope_roundtrip() {
    let op = PruneOp::Unshield {
        rune_id: Fr::from(7u64),
        nullifier: Fr::from(400u64),
        out_commitment: Fr::from(500u64),
        anchor: Fr::from(600u64),
        amount: 9999,
        proof: vec![0xdd; 192],
    };

    let script = op.to_envelope_script();
    let parsed = parse_envelope(&script)
        .expect("should parse valid unshield envelope");

    match parsed {
        PruneOp::Unshield {
            rune_id, nullifier, out_commitment, anchor,
            amount, proof,
        } => {
            assert_eq!(rune_id, Fr::from(7u64));
            assert_eq!(nullifier, Fr::from(400u64));
            assert_eq!(out_commitment, Fr::from(500u64));
            assert_eq!(anchor, Fr::from(600u64));
            assert_eq!(amount, 9999);
            assert_eq!(proof.len(), 192);
        }
        _ => panic!("expected Unshield"),
    }
}

#[test]
fn test_non_prune_script_returns_none() {
    // Random script without prune envelope
    let script = Builder::new()
        .push_opcode(opcodes::all::OP_DUP)
        .push_opcode(opcodes::all::OP_HASH160)
        .push_slice([0u8; 20])
        .into_script();

    assert!(parse_envelope(script.as_bytes()).is_none());
}

#[test]
fn test_reveal_script_contains_checksig_and_envelope() {
    let op = PruneOp::Shield {
        rune_id: Fr::from(1u64),
        commitment: Fr::from(2u64),
        encrypted_note: vec![0xee; 32],
    };

    let key = [0x02u8; 32]; // dummy X-only key
    let reveal = op.to_reveal_script(&key);
    let text = Script::from_bytes(&reveal).to_asm_string();

    // Should contain OP_CHECKSIG and the envelope
    assert!(text.contains("OP_CHECKSIG"), "reveal script must contain OP_CHECKSIG");
    assert!(text.contains("OP_IF"), "reveal script must contain OP_IF");
    assert!(text.contains("OP_ENDIF"), "reveal script must contain OP_ENDIF");
}

#[test]
fn test_envelope_size_within_limits() {
    // Transfer is the largest envelope; verify it's reasonable
    let op = PruneOp::Transfer {
        rune_id: Fr::from(1u64),
        nullifier: Fr::from(2u64),
        out_commitment: Fr::from(3u64),
        anchor: Fr::from(4u64),
        fee: 100,
        proof: vec![0xff; 192],         // Groth16 proof
        encrypted_note: vec![0xaa; 120], // encrypted note
    };

    let script = op.to_envelope_script();
    let size = script.len();
    println!("Transfer envelope script size: {size} bytes");

    // Should be well under 1000 bytes
    assert!(
        size < 1000,
        "transfer envelope should be under 1KB, got {size} bytes"
    );
}

/// The compressed form of a small element.
fn element(x: u8) -> Vec<u8> {
    let mut bytes = vec![0u8; 32];
    bytes[0] = x;
    bytes
}

/// An envelope with the given tags and values.
fn envelope(fields: &[(u8, &[u8])]) -> Vec<u8> {
    let mut script = vec![0x00, 0x63, 5];
    script.extend_from_slice(b"prune");
    for (tag, value) in fields {
        script.extend_from_slice(&[1, *tag, value.len() as u8]);
        script.extend_from_slice(value);
    }
    script.push(0x68);
    script
}

#[test]
fn envelope_has_its_exact_bytes() {
    let op = PruneOp::Shield {
        rune_id: Fr::from(1),
        commitment: Fr::from(2),
        encrypted_note: vec![9],
    };
    let expected = envelope(&[
        (TAG_OP_TYPE, &[OP_SHIELD]),
        (TAG_RUNE_ID, &element(1)),
        (TAG_COMMITMENT, &element(2)),
        (TAG_ENCRYPTED_NOTE, &[9]),
    ]);
    assert_eq!(op.to_envelope_script(), expected);
    let mut reveal = vec![32];
    reveal.extend_from_slice(&[5; 32]);
    reveal.push(0xac);
    reveal.extend_from_slice(&expected);
    assert_eq!(op.to_reveal_script(&[5; 32]), reveal);
    assert!(matches!(parse_envelope(&reveal), Some(PruneOp::Shield { .. })));
}

#[test]
fn long_pushes_are_announced_in_more_bytes() {
    for len in [75usize, 76, 255, 256, 520, 65536] {
        let op = PruneOp::Shield {
            rune_id: Fr::from(1),
            commitment: Fr::from(2),
            encrypted_note: vec![3; len],
        };
        match parse_envelope(&op.to_envelope_script()) {
            Some(PruneOp::Shield { encrypted_note, .. }) => {
                assert_eq!(encrypted_note, vec![3; len])
            }
            _ => panic!("expected Shield"),
        }
    }
}

#[test]
fn envelopes_that_lack_a_field_are_no_operations() {
    let (one, two) = (element(1), element(2));
    assert!(parse_envelope(&envelope(&[])).is_none());
    assert!(parse_envelope(&envelope(&[(TAG_OP_TYPE, &[OP_SHIELD]), (TAG_RUNE_ID, &one)])).is_none());
    assert!(parse_envelope(&envelope(&[
        (TAG_OP_TYPE, &[OP_TRANSFER]),
        (TAG_RUNE_ID, &one),
        (TAG_COMMITMENT, &two),
        (TAG_NULLIFIER, &one),
        (TAG_ANCHOR, &one),
    ]))
    .is_none());
    assert!(parse_envelope(&envelope(&[
        (TAG_OP_TYPE, &[9]),
        (TAG_RUNE_ID, &one),
        (TAG_COMMITMENT, &two),
        (TAG_NULLIFIER, &one),
        (TAG_ANCHOR, &one),
        (TAG_FEE_OR_AMOUNT, &[0; 8]),
    ]))
    .is_none());
}

#[test]
fn numbers_that_are_no_elements_are_no_operations() {
    let script = envelope(&[
        (TAG_OP_TYPE, &[OP_SHIELD]),
        (TAG_RUNE_ID, &[0xff; 32]),
        (TAG_COMMITMENT, &element(2)),
    ]);
    assert!(parse_envelope(&script).is_none());
}

#[test]
fn amounts_are_eight_bytes() {
    let (one, two) = (element(1), element(2));
    let with_amount = |amount: &[u8]| {
        parse_envelope(&envelope(&[
            (TAG_OP_TYPE, &[OP_UNSHIELD]),
            (TAG_RUNE_ID, &one),
            (TAG_COMMITMENT, &two),
            (TAG_NULLIFIER, &one),
            (TAG_ANCHOR, &one),
            (TAG_FEE_OR_AMOUNT, amount),
        ]))
    };
    assert!(with_amount(&[1; 7]).is_none());
    assert!(matches!(
        with_amount(&[1, 2, 0, 0, 0, 0, 0, 0]),
        Some(PruneOp::Unshield { amount: 513, .. })
    ));
}

#[test]
fn last_value_of_a_tag_counts() {
    let script = envelope(&[
        (TAG_OP_TYPE, &[OP_SHIELD]),
        (TAG_RUNE_ID, &element(1)),
        (TAG_COMMITMENT, &element(2)),
        (TAG_COMMITMENT, &element(3)),
    ]);
    match parse_envelope(&script) {
        Some(PruneOp::Shield { commitment, encrypted_note, .. }) => {
            assert_eq!(commitment, Fr::from(3));
            assert!(encrypted_note.is_empty());
        }
        _ => panic!("expected Shield"),
    }
}

#[test]
fn other_protocols_are_passed_over() {
    let mut script = vec![0x00, 0x63, 3, b'o', b'r', b'd', 0x68];
    assert!(parse_envelope(&script).is_none());
    let op = PruneOp::Shield {
        rune_id: Fr::from(1),
        commitment: Fr::from(2),
        encrypted_note: vec![],
    };
    script.extend_from_slice(&op.to_envelope_script());
    assert!(parse_envelope(&script).is_some());
}

#[test]
fn element_bytes() {
    assert_eq!(fr_to_bytes(Fr::from(5)), element(5));
    assert_eq!(fr_from_bytes(&element(5)), Some(Fr::from(5)));
    assert_eq!(fr_from_bytes(&[0; 31]), None);
    assert_eq!(fr_from_bytes(&[0xff; 32]), None);
}

#[test]
fn envelopes_without_an_end_are_no_operations() {
    let op = PruneOp::Shield {
        rune_id: Fr::from(1),
        commitment: Fr::from(2),
        encrypted_note: vec![0xaa; 88],
    };
    let script = op.to_envelope_script();
    assert!(parse_envelope(&script).is_some());
    for cut in 0..script.len() {
        assert!(parse_envelope(&script[..cut]).is_none(), "{cut}");
    }
}

#[test]
fn tag_without_a_value_is_passed_over() {
    let op = PruneOp::Shield {
        rune_id: Fr::from(1),
        commitment: Fr::from(2),
        encrypted_note: vec![0xaa; 88],
    };
    let mut script = op.to_envelope_script();
    let end = script.pop().unwrap();
    script.extend_from_slice(&[1, TAG_ANCHOR, end]);
    assert!(parse_envelope(&script).is_some());
    script.pop();
    assert!(parse_envelope(&script).is_none());
}

#[test]
fn operations_of_ordinary_length_are_pushable() {
    let op = PruneOp::Unshield {
        rune_id: Fr::from(1),
        nullifier: Fr::from(2),
        out_commitment: Fr::from(0),
        anchor: Fr::from(3),
        amount: 4,
        proof: vec![0; 192],
    };
    assert!(op.is_pushable());
}
