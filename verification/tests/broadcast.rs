use bitcoin::hashes::Hash as _;
use prune::broadcast::{
    taproot_script, BroadcastError, CommitRevealPlan, KnownHrp, Network, COMMIT_VALUE, DUST_LIMIT,
    SEQUENCE_RBF,
};
use prune::chain::{OutPoint, Transaction, TxOut, Txid};
use prune::field::Fr;
use prune::indexer::scan_transaction;
use prune::transaction::PruneOp;

#[test]
fn test_plan_creation() {
    let op = PruneOp::Shield {
        rune_id: Fr::from(1u64),
        commitment: Fr::from(2u64),
        encrypted_note: vec![0xaa; 88],
    };

    let plan = CommitRevealPlan::new(&op, Network::Regtest).unwrap();

    // Verify we got a valid P2TR address
    let addr_str = plan.commit_address.clone();
    assert!(
        addr_str.starts_with("bcrt1p"),
        "regtest P2TR should start with bcrt1p, got: {addr_str}"
    );

    // Verify control block serializes
    let cb = plan.control_block.clone();
    assert!(!cb.is_empty(), "control block should not be empty");

    println!("Commit address: {addr_str}");
    println!("Reveal script size: {} bytes", plan.reveal_script.len());
    println!("Estimated reveal vsize: {} vbytes", plan.estimated_reveal_vsize());
}

#[test]
fn test_plan_for_transfer() {
    let op = PruneOp::Transfer {
        rune_id: Fr::from(1u64),
        nullifier: Fr::from(100u64),
        out_commitment: Fr::from(200u64),
        anchor: Fr::from(300u64),
        fee: 50,
        proof: vec![0xbb; 192],
        encrypted_note: vec![0xcc; 88],
    };

    let plan = CommitRevealPlan::new(&op, Network::Regtest).unwrap();
    println!("Transfer reveal vsize: {} vbytes", plan.estimated_reveal_vsize());

    // Should be reasonable (under 500 vbytes)
    assert!(
        plan.estimated_reveal_vsize() < 500,
        "transfer reveal should be under 500 vbytes"
    );
}

#[test]
fn test_reveal_tx_construction() {
    let op = PruneOp::Shield {
        rune_id: Fr::from(1u64),
        commitment: Fr::from(2u64),
        encrypted_note: vec![0xaa; 88],
    };

    let plan = CommitRevealPlan::new(&op, Network::Regtest).unwrap();

    // Build reveal tx with a fake commit outpoint
    let fake_outpoint = OutPoint {
        txid: Txid { bytes: [0x42; 32] },
        vout: 0,
    };

    let reveal_tx = plan
        .build_reveal_tx(fake_outpoint, 10_000, 1, None)
        .unwrap();

    // Should have 1 input and 1 output (change)
    assert_eq!(reveal_tx.input.len(), 1);
    assert!(!reveal_tx.output.is_empty());

    // Witness should have 3 elements: [signature, script, control_block]
    let witness = &reveal_tx.input[0].witness;
    assert_eq!(
        witness.len(),
        3,
        "witness must have 3 elements (sig, script, control_block)"
    );

    // First element: Schnorr signature (64 bytes for Default sighash)
    assert_eq!(witness[0].len(), 64, "signature should be 64 bytes");

    // Second element: reveal script
    assert_eq!(
        witness[1],
        plan.reveal_script,
        "second witness element should be the reveal script"
    );

    // Third element: control block
    assert_eq!(
        witness[2],
        plan.control_block,
        "third witness element should be the control block"
    );

    println!(
        "Reveal tx: {} inputs, {} outputs",
        reveal_tx.input.len(),
        reveal_tx.output.len()
    );
}

const SECRET: [u8; 32] = [0x11; 32];

const OUTPOINT: OutPoint = OutPoint { txid: Txid { bytes: [0x42; 32] }, vout: 3 };

fn shield_op() -> PruneOp {
    PruneOp::Shield {
        rune_id: Fr::from(1),
        commitment: Fr::from(2),
        encrypted_note: vec![0xaa; 88],
    }
}

fn plan() -> CommitRevealPlan {
    CommitRevealPlan::with_secret(&shield_op(), Network::Regtest, SECRET).unwrap()
}

/// The transaction as the `bitcoin` crate holds it.
fn to_bitcoin(tx: &Transaction) -> bitcoin::Transaction {
    bitcoin::Transaction {
        version: bitcoin::transaction::Version(tx.version),
        lock_time: bitcoin::absolute::LockTime::from_consensus(tx.lock_time),
        input: tx
            .input
            .iter()
            .map(|i| bitcoin::TxIn {
                previous_output: bitcoin::OutPoint::new(
                    bitcoin::Txid::from_byte_array(i.previous_output.txid.bytes),
                    i.previous_output.vout,
                ),
                script_sig: bitcoin::ScriptBuf::from_bytes(i.script_sig.clone()),
                sequence: bitcoin::Sequence(i.sequence),
                witness: bitcoin::Witness::from_slice(&i.witness),
            })
            .collect(),
        output: tx
            .output
            .iter()
            .map(|o| bitcoin::TxOut {
                value: bitcoin::Amount::from_sat(o.value),
                script_pubkey: bitcoin::ScriptBuf::from_bytes(o.script_pubkey.clone()),
            })
            .collect(),
    }
}

#[test]
fn plan_follows_from_the_secret() {
    let plan = plan();
    let secp = secp256k1::Secp256k1::new();
    let pair = secp256k1::Keypair::from_seckey_slice(&secp, &SECRET).unwrap();
    let (key, _) = pair.x_only_public_key();
    assert_eq!(plan.public_key, key.serialize());
    assert_eq!(plan.reveal_script, shield_op().to_reveal_script(&key.serialize()));

    let script = bitcoin::ScriptBuf::from_bytes(plan.reveal_script.clone());
    let info = bitcoin::taproot::TaprootBuilder::new()
        .add_leaf(0, script.clone())
        .unwrap()
        .finalize(&secp, key)
        .unwrap();
    assert_eq!(plan.output_key, info.output_key().serialize());
    let leaf = (script, bitcoin::taproot::LeafVersion::TapScript);
    assert_eq!(plan.control_block, info.control_block(&leaf).unwrap().serialize());
    assert_eq!(plan.control_block.len(), 33);
    let address = bitcoin::Address::p2tr_tweaked(info.output_key(), bitcoin::KnownHrp::Regtest);
    assert_eq!(plan.commit_address, address.to_string());
    assert_eq!(taproot_script(&plan.output_key), address.script_pubkey().to_bytes());
}

#[test]
fn addresses_show_the_network() {
    let address = |network| {
        CommitRevealPlan::with_secret(&shield_op(), network, SECRET).unwrap().commit_address
    };
    assert!(address(Network::Bitcoin).starts_with("bc1p"));
    assert!(address(Network::Testnet).starts_with("tb1p"));
    assert_eq!(address(Network::Signet), address(Network::Testnet));
    assert!(address(Network::Regtest).starts_with("bcrt1p"));
    assert_eq!(address(Network::Other), address(Network::Regtest));
    assert_eq!(CommitRevealPlan::network_to_hrp(Network::Signet), KnownHrp::Testnets);
}

#[test]
fn plans_use_keys_of_their_own() {
    let a = CommitRevealPlan::new(&shield_op(), Network::Regtest).unwrap();
    let b = CommitRevealPlan::new(&shield_op(), Network::Regtest).unwrap();
    assert_ne!(a.secret_key, b.secret_key);
    assert_ne!(a.commit_address, b.commit_address);
}

#[test]
fn estimated_size_is_a_quarter_of_the_weight() {
    let plan = plan();
    let weight = (12 + 41 + 43) * 4 + 64 + plan.reveal_script.len() + 33 + 3;
    assert_eq!(plan.estimated_reveal_vsize(), weight.div_ceil(4));
}

#[test]
fn reveal_is_signed_for_the_commit_output() {
    let plan = plan();
    let tx = plan.build_reveal_tx(OUTPOINT, 10_000, 2, Some(vec![0x51])).unwrap();
    let fee = 2 * plan.estimated_reveal_vsize() as u64;
    assert_eq!(tx.output.len(), 1);
    assert_eq!(tx.output[0].value, 10_000 - fee);
    assert_eq!(tx.output[0].script_pubkey, vec![0x51]);
    assert_eq!((tx.version, tx.lock_time, tx.input[0].sequence), (2, 0, SEQUENCE_RBF));
    assert_eq!(tx.input[0].previous_output, OUTPOINT);

    let raw = to_bitcoin(&tx);
    let script = bitcoin::ScriptBuf::from_bytes(plan.reveal_script.clone());
    let spent = bitcoin::TxOut {
        value: bitcoin::Amount::from_sat(10_000),
        script_pubkey: bitcoin::ScriptBuf::from_bytes(taproot_script(&plan.output_key)),
    };
    let sighash = bitcoin::sighash::SighashCache::new(&raw)
        .taproot_script_spend_signature_hash(
            0,
            &bitcoin::sighash::Prevouts::All(&[spent]),
            bitcoin::TapLeafHash::from_script(&script, bitcoin::taproot::LeafVersion::TapScript),
            bitcoin::TapSighashType::Default,
        )
        .unwrap();
    let secp = secp256k1::Secp256k1::new();
    let key = secp256k1::XOnlyPublicKey::from_slice(&plan.public_key).unwrap();
    let signature =
        secp256k1::schnorr::Signature::from_slice(&tx.input[0].witness[0]).unwrap();
    let message = secp256k1::Message::from_digest(sighash.to_byte_array());
    assert!(secp.verify_schnorr(&signature, &message, &key).is_ok());
}

#[test]
fn change_goes_back_to_the_key_by_default() {
    let plan = plan();
    let tx = plan.build_reveal_tx(OUTPOINT, 10_000, 1, None).unwrap();
    let secp = secp256k1::Secp256k1::new();
    let key = secp256k1::XOnlyPublicKey::from_slice(&plan.public_key).unwrap();
    let address = bitcoin::Address::p2tr(&secp, key, None, bitcoin::KnownHrp::Regtest);
    assert_eq!(tx.output[0].script_pubkey, address.script_pubkey().to_bytes());
}

#[test]
fn dust_is_left_to_the_fee() {
    let plan = plan();
    let fee = plan.estimated_reveal_vsize() as u64;
    let at_limit = plan.build_reveal_tx(OUTPOINT, fee + DUST_LIMIT, 1, None).unwrap();
    assert!(at_limit.output.is_empty());
    let above = plan.build_reveal_tx(OUTPOINT, fee + DUST_LIMIT + 1, 1, None).unwrap();
    assert_eq!(above.output[0].value, DUST_LIMIT + 1);
    let exact = plan.build_reveal_tx(OUTPOINT, fee, 1, None).unwrap();
    assert!(exact.output.is_empty());
    assert_eq!(
        plan.build_reveal_tx(OUTPOINT, fee - 1, 1, None).unwrap_err(),
        BroadcastError::CommitValueTooLow { value: fee - 1, fee }
    );
}

#[test]
fn commit_output_is_found_by_its_script() {
    let plan = plan();
    let other = TxOut { value: 1, script_pubkey: vec![0x51] };
    let ours = TxOut { value: COMMIT_VALUE, script_pubkey: taproot_script(&plan.output_key) };
    assert_eq!(
        plan.find_commit_output(&vec![other.clone(), ours.clone(), ours]),
        Ok((1, COMMIT_VALUE))
    );
    assert_eq!(
        plan.find_commit_output(&vec![other]),
        Err(BroadcastError::CommitOutputNotFound)
    );
}

#[test]
fn reveal_shows_the_operation() {
    let tx = plan().build_reveal_tx(OUTPOINT, 10_000, 1, None).unwrap();
    let found = scan_transaction(&tx);
    assert_eq!(found.len(), 1);
    match &found[0].1 {
        PruneOp::Shield { commitment, .. } => assert_eq!(*commitment, Fr::from(2)),
        _ => panic!("expected Shield"),
    }
}

#[test]
fn estimate_covers_the_signed_reveal() {
    for len in [0usize, 88, 120, 600, 70_000] {
        let op = PruneOp::Shield {
            rune_id: Fr::from(1),
            commitment: Fr::from(2),
            encrypted_note: vec![0xaa; len],
        };
        let plan = CommitRevealPlan::with_secret(&op, Network::Regtest, SECRET).unwrap();
        for change in [None, Some(vec![0x51; 34]), Some(vec![0x51])] {
            let tx = plan.build_reveal_tx(OUTPOINT, 200_000, 3, change).unwrap();
            let raw = to_bitcoin(&tx);
            assert!(raw.vsize() <= plan.estimated_reveal_vsize());
            let paid = 200_000 - tx.output[0].value;
            assert!(paid >= 3 * raw.vsize() as u64);
        }
    }
}

#[test]
fn usual_commit_does_not_pay_for_every_rate() {
    let plan = plan();
    let fee = 1000 * plan.estimated_reveal_vsize() as u64;
    assert_eq!(
        plan.build_reveal_tx(OUTPOINT, COMMIT_VALUE, 1000, None).unwrap_err(),
        BroadcastError::CommitValueTooLow { value: COMMIT_VALUE, fee }
    );
}

#[test]
fn default_change_goes_to_the_public_key_of_the_plan() {
    let secp = secp256k1::Secp256k1::new();
    let other = secp256k1::Keypair::from_seckey_slice(&secp, &[0x22; 32]).unwrap();
    let (key, _) = other.x_only_public_key();
    let plan = CommitRevealPlan { public_key: key.serialize(), ..plan() };
    let tx = plan.build_reveal_tx(OUTPOINT, 10_000, 1, None).unwrap();
    let address = bitcoin::Address::p2tr(&secp, key, None, bitcoin::KnownHrp::Regtest);
    assert_eq!(tx.output[0].script_pubkey, address.script_pubkey().to_bytes());
}

#[test]
fn public_key_that_is_no_point_takes_no_change() {
    let plan = CommitRevealPlan { public_key: [0xff; 32], ..plan() };
    let fee = plan.estimated_reveal_vsize() as u64;
    assert_eq!(
        plan.build_reveal_tx(OUTPOINT, 10_000, 1, None).unwrap_err(),
        BroadcastError::InvalidPublicKey
    );
    assert!(plan.build_reveal_tx(OUTPOINT, 10_000, 1, Some(vec![0x51])).is_ok());
    assert!(plan.build_reveal_tx(OUTPOINT, fee, 1, None).is_ok());
}
