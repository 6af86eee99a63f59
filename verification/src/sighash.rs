//! What the input of a reveal transaction signs.
use bitcoin::absolute::LockTime;
use bitcoin::sighash::{Prevouts, SighashCache};
use bitcoin::transaction::Version;
use bitcoin::{Amount, OutPoint, Script, Sequence, TapSighashType, Transaction, TxIn, TxOut};
use vstd::prelude::*;

use crate::chain::{self, TxState};

verus! {

/// The consensus encoding of a transaction without its witnesses.
pub uninterp spec fn unsigned_bytes(tx: TxState) -> Seq<u8>;

/// What the one input of a transaction, given in its encoding without witnesses, signs when it spends
/// an output of the given value and script by the given leaf script.
pub uninterp spec fn taproot_sighash(
    tx_bytes: Seq<u8>,
    value: u64,
    script_pubkey: Seq<u8>,
    leaf_script: Seq<u8>,
) -> Seq<u8>;

/// `bitcoin::consensus::serialize` of a transaction whose witnesses are empty: a function of the
/// other parts of the transaction alone.
#[verifier::external_body]
pub(crate) fn encode_unsigned(tx: &chain::Transaction) -> (bytes: Vec<u8>)
    ensures
        bytes@ == unsigned_bytes(tx@),
{
    let version = Version(tx.version);
    let lock_time = LockTime::from_consensus(tx.lock_time);
    let input = tx.input.iter().map(|i| TxIn {
        previous_output: OutPoint::new(
            bitcoin::hashes::Hash::from_byte_array(i.previous_output.txid.bytes),
            i.previous_output.vout),
        script_sig: i.script_sig.clone().into(),
        sequence: Sequence(i.sequence),
        ..TxIn::default() }).collect();
    let output = tx.output.iter().map(|o| TxOut {
        value: Amount::from_sat(o.value),
        script_pubkey: o.script_pubkey.clone().into() }).collect();
    bitcoin::consensus::serialize(&Transaction { version, lock_time, input, output })
}

/// `bitcoin::sighash::SighashCache::taproot_script_spend_signature_hash`, for the one input of the
/// transaction that `bitcoin::consensus::deserialize` reads from the bytes, with the default
/// signature hash type: 32 bytes, a function of the encoding, the output that is spent and the leaf
/// script alone.
#[verifier::external_body]
pub(crate) fn script_spend_sighash(
    tx_bytes: &[u8],
    value: u64,
    script_pubkey: &[u8],
    leaf_script: &[u8],
) -> (sighash: [u8; 32])
    requires
        exists|tx: TxState| tx.inputs.len() == 1 && #[trigger] unsigned_bytes(tx) == tx_bytes@,
    ensures
        sighash@ == taproot_sighash(tx_bytes@, value, script_pubkey@, leaf_script@),
{
    let tx: Transaction = bitcoin::consensus::deserialize(tx_bytes).unwrap();
    let value = Amount::from_sat(value);
    let spent = [TxOut { value, script_pubkey: script_pubkey.to_vec().into() }];
    let leaf = Script::from_bytes(leaf_script).tapscript_leaf_hash();
    let mut cache = SighashCache::new(&tx);
    let sighash = cache.taproot_script_spend_signature_hash(
        0, &Prevouts::All(&spent), leaf, TapSighashType::Default);
    *sighash.unwrap().as_ref()
}

} // verus!
