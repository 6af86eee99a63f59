use prune::chain::{OutPoint, Transaction, TxIn, Txid};
use prune::cli::{shield_operation, transfer_operation};
use prune::event::Event;
use prune::field::Fr;
use prune::indexer::fr_to_bytes32;
use prune::transaction::PruneOp;
use prune::tree::IncrementalMerkleTree;
use prune::updater::{PruneTables, PruneUpdater};
use prune::wallet::Wallet;

const TXID: Txid = Txid { bytes: [0x42; 32] };

fn shield(commitment: u64) -> PruneOp {
    PruneOp::Shield {
        rune_id: Fr::from(1),
        commitment: Fr::from(commitment),
        encrypted_note: vec![commitment as u8],
    }
}

fn transfer(nullifier: u64, out_commitment: u64) -> PruneOp {
    PruneOp::Transfer {
        rune_id: Fr::from(1),
        nullifier: Fr::from(nullifier),
        out_commitment: Fr::from(out_commitment),
        anchor: Fr::from(0),
        fee: 0,
        proof: vec![],
        encrypted_note: vec![out_commitment as u8],
    }
}

fn unshield(nullifier: u64, out_commitment: u64, amount: u64) -> PruneOp {
    PruneOp::Unshield {
        rune_id: Fr::from(1),
        nullifier: Fr::from(nullifier),
        out_commitment: Fr::from(out_commitment),
        anchor: Fr::from(0),
        amount,
        proof: vec![],
    }
}

/// A transaction whose inputs reveal the operations.
fn reveal_all(ops: &[PruneOp]) -> Transaction {
    Transaction {
        version: 2,
        lock_time: 0,
        input: ops
            .iter()
            .map(|op| TxIn {
                previous_output: OutPoint { txid: TXID, vout: 0 },
                script_sig: vec![],
                sequence: 0,
                witness: vec![op.to_envelope_script(), vec![0xc0; 33]],
            })
            .collect(),
        output: vec![],
    }
}

#[test]
fn operations_of_a_transaction_are_applied_in_order() {
    let mut updater = PruneUpdater::new(100, PruneTables::new());
    let tx = reveal_all(&[shield(10), transfer(7, 20), unshield(8, 30, 555)]);
    let events = updater.index_prune_ops(&tx, TXID);
    assert_eq!(events.len(), 3);
    match &events[0] {
        Event::PruneShielded { block_height, txid, commitment, tree_index } => {
            assert_eq!((*block_height, *txid, *tree_index), (100, TXID, 0));
            assert_eq!(*commitment, fr_to_bytes32(Fr::from(10)));
        }
        _ => panic!("expected a shield"),
    }
    match &events[1] {
        Event::PruneTransferred { block_height, txid, nullifier, out_commitment, tree_index } => {
            assert_eq!((*block_height, *txid, *tree_index), (100, TXID, 1));
            assert_eq!(*nullifier, fr_to_bytes32(Fr::from(7)));
            assert_eq!(*out_commitment, fr_to_bytes32(Fr::from(20)));
        }
        _ => panic!("expected a transfer"),
    }
    match &events[2] {
        Event::PruneUnshielded { block_height, txid, nullifier, amount } => {
            assert_eq!((*block_height, *txid, *amount), (100, TXID, 555));
            assert_eq!(*nullifier, fr_to_bytes32(Fr::from(8)));
        }
        _ => panic!("expected an unshield"),
    }
    assert_eq!(updater.next_index, 3);
    assert_eq!(updater.tables.encrypted_notes.get(&0), Some(&vec![10]));
    assert_eq!(updater.tables.encrypted_notes.get(&1), Some(&vec![20]));
    assert_eq!(updater.tables.encrypted_notes.get(&2), None);
    assert_eq!(updater.tables.commitment_to_index.get(&2), Some(&fr_to_bytes32(Fr::from(30))));
    let leaves = vec![Fr::from(10), Fr::from(20), Fr::from(30)];
    assert_eq!(updater.tree.leaves(), leaves);
}

#[test]
fn double_spends_change_nothing() {
    let mut updater = PruneUpdater::new(1, PruneTables::new());
    let tx = reveal_all(&[transfer(7, 20), transfer(7, 21), unshield(7, 22, 1)]);
    assert_eq!(updater.index_prune_ops(&tx, TXID).len(), 1);
    assert_eq!(updater.next_index, 1);
    assert_eq!(updater.tables.nullifier_set, vec![fr_to_bytes32(Fr::from(7))]);
    assert!(updater.process_transfer(Fr::from(7), Fr::from(23), &vec![], TXID).is_none());
    assert!(updater.process_unshield(Fr::from(7), Fr::from(23), 5, TXID).is_none());
    assert_eq!(updater.tree.leaves(), vec![Fr::from(20)]);
    assert!(updater.process_unshield(Fr::from(8), Fr::from(23), 5, TXID).is_some());
}

#[test]
fn blocks_end_with_their_root() {
    let mut updater = PruneUpdater::new(5, PruneTables::new());
    updater.process_shield(Fr::from(10), &vec![1], TXID);
    updater.finalize();
    let mut tree = IncrementalMerkleTree::new();
    tree.append(Fr::from(10));
    assert_eq!(updater.tables.tree_next_index, Some(1));
    assert_eq!(
        updater.tables.tree_root_at_height.get(&5),
        Some(&fr_to_bytes32(tree.root()))
    );
}

#[test]
fn next_block_goes_on_where_the_last_ended() {
    let mut first = PruneUpdater::new(5, PruneTables::new());
    first.process_shield(Fr::from(10), &vec![1], TXID);
    first.process_shield(Fr::from(20), &vec![2], TXID);
    first.finalize();
    let root = first.tree.root();
    let mut second = PruneUpdater::new(6, first.tables);
    assert_eq!(second.next_index, 2);
    assert_eq!(second.tree.root(), root);
    second.process_shield(Fr::from(30), &vec![3], TXID);
    second.finalize();
    assert_eq!(second.tree.leaves().len(), 3);
    assert_eq!(second.tables.tree_root_at_height.len(), 2);
}

#[test]
fn transactions_without_operations_change_nothing() {
    let mut updater = PruneUpdater::new(5, PruneTables::new());
    let tx = Transaction { version: 2, lock_time: 0, input: vec![], output: vec![] };
    assert!(updater.index_prune_ops(&tx, TXID).is_empty());
    assert_eq!(updater.next_index, 0);
}

#[test]
fn index_follows_a_wallet() {
    let rune_id = Fr::from(1);
    let mut wallet = Wallet::create();
    let mut updater = PruneUpdater::new(1, PruneTables::new());
    let shielded = wallet.shield(rune_id, 1000).unwrap();
    let op = shield_operation(rune_id, &shielded).unwrap();
    updater.index_prune_ops(&reveal_all(&[op]), TXID);
    assert_eq!(updater.tree.root(), wallet.tree.root());

    let spend = wallet.prepare_transfer(Fr::from(5), 800, rune_id, 6).unwrap();
    let sent = wallet.complete_transfer(&spend, None);
    let op = transfer_operation(&spend.out_note, &sent, &[9; 32]).unwrap();
    updater.index_prune_ops(&reveal_all(&[op]), TXID);
    assert_eq!(updater.tree.root(), wallet.tree.root());
    assert_eq!(updater.tables.nullifier_set, vec![fr_to_bytes32(wallet.notes[0].nullifier)]);
}

#[test]
fn double_spends_need_no_room() {
    let rune_id = Fr::from(1);
    let mut updater = PruneUpdater::new(1, PruneTables::new());
    let spend = PruneOp::Unshield {
        rune_id,
        nullifier: Fr::from(7),
        out_commitment: Fr::from(0),
        anchor: Fr::from(3),
        amount: 4,
        proof: vec![],
    };
    let tx = reveal_all(&[spend]);
    assert_eq!(updater.index_prune_ops(&tx, TXID).len(), 1);
    updater.next_index = u64::MAX;
    assert!(updater.index_prune_ops(&tx, TXID).is_empty());
    assert_eq!((updater.next_index, updater.tree.len()), (u64::MAX, 1));
    assert!(updater.process_transfer(Fr::from(7), Fr::from(8), &vec![1], TXID).is_none());
}
