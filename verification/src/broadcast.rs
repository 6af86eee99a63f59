//! Commit and reveal transactions.
//!
//! A commit transaction pays to a taproot output whose script tree holds nothing but the reveal
//! script of an operation. A reveal transaction spends that output by the script path, which puts
//! the operation on the chain.
use bitcoin::key::TapTweak;
use vstd::pervasive::unreached;
use vstd::prelude::*;

use crate::bytes::bytes_equal;
use crate::chain::{
    stack_view, tapscript_of, InputState, OutPoint, OutputState, Transaction, TxIn, TxOut, TxState,
};
use crate::indexer::{law_reveal_is_found, operations};
use crate::script::push_encoding;
use crate::sighash::{encode_unsigned, script_spend_sighash, taproot_sighash, unsigned_bytes};
use crate::transaction::{law_reveal_round_trip, parse_script, Operation, PruneOp};

verus! {

/// What the commit transaction pays, in satoshis.
pub const COMMIT_VALUE: u64 = 10_000;

/// The greatest value, in satoshis, that is not worth an output of its own.
pub const DUST_LIMIT: u64 = 546;

/// The sequence number of an input that may be replaced and has no lock time.
pub const SEQUENCE_RBF: u32 = 0xffff_fffd;

/// A network.
#[derive(Clone, Copy, Debug, PartialEq, Eq, Structural)]
pub enum Network {
    Bitcoin,
    Testnet,
    Signet,
    Regtest,
    /// Any other network.
    Other,
}

/// The human-readable part of the addresses of a network.
#[derive(Clone, Copy, Debug, PartialEq, Eq, Structural)]
pub enum KnownHrp {
    Mainnet,
    Testnets,
    Regtest,
}

/// The number that big-endian bytes stand for.
pub open spec fn be_value(s: Seq<u8>) -> nat
    decreases s.len(),
{
    if s.len() == 0 {
        0
    } else {
        256 * be_value(s.drop_last()) + s.last() as nat
    }
}

/// Whether 32 bytes are a secret key: a number that is not zero and below the order of secp256k1.
pub open spec fn is_secret(bytes: Seq<u8>) -> bool {
    0 < be_value(bytes)
        < 0xFFFFFFFF_FFFFFFFF_FFFFFFFF_FFFFFFFE_BAAEDCE6_AF48A03B_BFD25E8C_D0364141nat
}

/// The x-only public key of a secret key.
pub uninterp spec fn xonly_public(secret: Seq<u8>) -> Seq<u8>;

/// The output key of a taproot output with one leaf script.
pub uninterp spec fn taproot_output_key(public_key: Seq<u8>, script: Seq<u8>) -> Seq<u8>;

/// The control block of the one leaf script of a taproot output.
pub uninterp spec fn taproot_control_block(public_key: Seq<u8>, script: Seq<u8>) -> Seq<u8>;

/// The output key of a taproot output without scripts. None where the public key is not a point.
pub uninterp spec fn taproot_key_path(public_key: Seq<u8>) -> Option<Seq<u8>>;

/// The address of an output key.
pub uninterp spec fn p2tr_address_text(output_key: Seq<u8>, hrp: KnownHrp) -> Option<Seq<char>>;

/// Whether a Schnorr signature of a message is valid for an x-only public key, as
/// `secp256k1::Secp256k1::verify_schnorr` judges it.
pub uninterp spec fn schnorr_verifies(
    public_key: Seq<u8>,
    message: Seq<u8>,
    signature: Seq<u8>,
) -> bool;

/// `secp256k1::SecretKey::new` with `rand::thread_rng`: a secret key drawn at random.
#[verifier::external_body]
fn random_secret_key() -> (secret: [u8; 32])
    ensures
        is_secret(secret@),
{
    secp256k1::SecretKey::new(&mut rand::thread_rng()).secret_bytes()
}

/// `secp256k1::XOnlyPublicKey::from_keypair`: the 32 bytes of the x-only public key, a function of
/// the secret key alone. It is a point, which has a taproot output without scripts.
#[verifier::external_body]
fn xonly_public_key(secret: [u8; 32]) -> (public_key: [u8; 32])
    requires
        is_secret(secret@),
    ensures
        public_key@ == xonly_public(secret@),
        taproot_key_path(public_key@) is Some,
{
    let secp = secp256k1::Secp256k1::new();
    let pair = secp256k1::Keypair::from_seckey_slice(&secp, &secret).unwrap();
    secp256k1::XOnlyPublicKey::from_keypair(&pair).0.serialize()
}

/// `bitcoin::taproot::TaprootSpendInfo::output_key`, for a `TaprootBuilder` with the script as its
/// one leaf and the public key of the secret key as internal key: the 32 bytes of the output key,
/// a function of the public key and the script alone. It is a point that has an address on every
/// network. The tweak is out of range for a share of 2^-128 of all inputs, for which nobody has an
/// example; the call would not return on one.
#[verifier::external_body]
fn leaf_output_key(secret: [u8; 32], script: &[u8]) -> (output_key: [u8; 32])
    requires
        is_secret(secret@),
    ensures
        output_key@ == taproot_output_key(xonly_public(secret@), script@),
        forall|hrp: KnownHrp| (#[trigger] p2tr_address_text(output_key@, hrp)) is Some,
{
    let secp = secp256k1::Secp256k1::new();
    let pair = secp256k1::Keypair::from_seckey_slice(&secp, &secret).unwrap();
    let builder = bitcoin::taproot::TaprootBuilder::new().add_leaf(0, script.to_vec().into());
    let info = builder.unwrap().finalize(&secp, pair.x_only_public_key().0).unwrap();
    info.output_key().serialize()
}

/// `bitcoin::taproot::TaprootSpendInfo::control_block`, for a `TaprootBuilder` with the script as
/// its one leaf and the public key of the secret key as internal key: a version and parity byte and
/// the public key, without a Merkle branch. The tweak is as for the output key.
#[verifier::external_body]
fn leaf_control_block(secret: [u8; 32], script: &[u8]) -> (control_block: Vec<u8>)
    requires
        is_secret(secret@),
    ensures
        control_block@ == taproot_control_block(xonly_public(secret@), script@),
        control_block@.len() == 33,
        control_block@.subrange(1, 33) == xonly_public(secret@),
        control_block@[0] == 0xc0 || control_block@[0] == 0xc1,
{
    let secp = secp256k1::Secp256k1::new();
    let pair = secp256k1::Keypair::from_seckey_slice(&secp, &secret).unwrap();
    let leaf = (script.to_vec().into(), bitcoin::taproot::LeafVersion::TapScript);
    let builder = bitcoin::taproot::TaprootBuilder::new().add_leaf(0, script.to_vec().into());
    let info = builder.unwrap().finalize(&secp, pair.x_only_public_key().0).unwrap();
    info.control_block(&leaf).unwrap().serialize()
}

/// `bitcoin::key::TapTweak::tap_tweak` of an x-only public key, without a script tree: the 32 bytes
/// of the output key, a function of the public key alone. None where `XOnlyPublicKey::from_slice`
/// finds that the bytes are not a point. The tweak is as for the output key of a leaf script.
#[verifier::external_body]
fn key_path_output_key(public_key: [u8; 32]) -> (output_key: Option<[u8; 32]>)
    ensures
        taproot_key_path(public_key@) == (match output_key {
            Some(key) => Some(key@),
            None => None,
        }),
{
    let secp = secp256k1::Secp256k1::verification_only();
    let key = secp256k1::XOnlyPublicKey::from_slice(&public_key).ok()?;
    Some(key.tap_tweak(&secp, None).0.serialize())
}

/// `bitcoin::Address::p2tr_tweaked`: the text of the address of an output key, a function of the key
/// and the network's human-readable part alone. None where the key is not a point.
#[verifier::external_body]
fn p2tr_address(output_key: [u8; 32], hrp: KnownHrp) -> (text: Option<String>)
    ensures
        p2tr_address_text(output_key@, hrp) == (match text {
            Some(t) => Some(t@),
            None => None,
        }),
{
    let hrp = match hrp {
        KnownHrp::Mainnet => bitcoin::KnownHrp::Mainnet,
        KnownHrp::Testnets => bitcoin::KnownHrp::Testnets,
        KnownHrp::Regtest => bitcoin::KnownHrp::Regtest,
    };
    let key = secp256k1::XOnlyPublicKey::from_slice(&output_key).ok()?;
    Some(bitcoin::Address::p2tr_tweaked(key.dangerous_assume_tweaked(), hrp).to_string())
}

/// `secp256k1::Secp256k1::sign_schnorr`: 64 bytes that are a valid signature of the message for the
/// public key of the secret key. Which of the valid signatures it is, is left to chance.
#[verifier::external_body]
fn schnorr_sign(message: [u8; 32], secret: [u8; 32]) -> (signature: [u8; 64])
    requires
        is_secret(secret@),
    ensures
        schnorr_verifies(xonly_public(secret@), message@, signature@),
{
    let secp = secp256k1::Secp256k1::new();
    let pair = secp256k1::Keypair::from_seckey_slice(&secp, &secret).unwrap();
    secp.sign_schnorr(&secp256k1::Message::from_digest(message), &pair).serialize()
}

/// The script of a taproot output: version one and the output key.
pub open spec fn p2tr_script(output_key: Seq<u8>) -> Seq<u8> {
    seq![0x51u8, 0x20u8] + output_key
}

/// The script of a taproot output.
pub fn taproot_script(output_key: &[u8; 32]) -> (script: Vec<u8>)
    ensures
        script@ == p2tr_script(output_key@),
{
    let mut script: Vec<u8> = vec![0x51, 0x20];
    script.extend_from_slice(output_key.as_slice());
    assert(script@ =~= p2tr_script(output_key@));
    script
}

/// The human-readable part of a network.
pub open spec fn hrp_of(network: Network) -> KnownHrp {
    match network {
        Network::Bitcoin => KnownHrp::Mainnet,
        Network::Testnet => KnownHrp::Testnets,
        Network::Signet => KnownHrp::Testnets,
        Network::Regtest => KnownHrp::Regtest,
        Network::Other => KnownHrp::Regtest,
    }
}

/// Why a plan or a transaction could not be made.
#[derive(Clone, Copy, Debug, PartialEq, Eq, Structural)]
pub enum BroadcastError {
    /// The committed value does not pay for the reveal.
    CommitValueTooLow { value: u64, fee: u64 },
    /// The commit transaction does not pay to the commit address.
    CommitOutputNotFound,
    /// The public key that the change goes to is not a point.
    InvalidPublicKey,
}

/// Everything that a commit and a reveal need.
#[derive(Clone, Debug)]
pub struct CommitRevealPlan {
    /// The reveal script of the operation.
    pub reveal_script: Vec<u8>,
    /// The control block that proves the script to be in the tree.
    pub control_block: Vec<u8>,
    /// The address that the commit transaction pays to.
    pub commit_address: String,
    /// The output key of that address.
    pub output_key: [u8; 32],
    /// The one-time secret key that signs the reveal.
    pub secret_key: [u8; 32],
    /// The x-only public key of the secret key, which the reveal script names.
    pub public_key: [u8; 32],
}

/// The estimated virtual size of a reveal: a quarter of its weight, rounded up. Bytes outside the
/// witness weigh four: 12 of the frame, 41 of the input, 43 of the change output. Bytes of the
/// witness weigh one: a signature of 64, the script, the control block and three lengths.
pub open spec fn reveal_vsize(script_len: nat, control_block_len: nat) -> nat {
    ((12 + 41 + 43) * 4 + (64 + script_len + control_block_len + 3) + 3) / 4
}

/// The number of bytes that a length takes in front of what it counts.
pub open spec fn length_size(n: nat) -> nat {
    if n < 0xfd {
        1
    } else if n <= 0xffff {
        3
    } else if n <= 0xffff_ffff {
        5
    } else {
        9
    }
}

/// The number of bytes of a byte string with its length.
pub open spec fn counted_size(s: Seq<u8>) -> nat {
    length_size(s.len()) + s.len()
}

/// The number of bytes of the first `n` byte strings of a list, each with its length.
pub open spec fn stack_size(stack: Seq<Seq<u8>>, n: nat) -> nat
    decreases n,
{
    if n == 0 {
        0
    } else {
        stack_size(stack, (n - 1) as nat) + counted_size(stack[n - 1])
    }
}

/// The number of bytes of the first `n` inputs outside the witness: the outpoint takes 36, the
/// sequence number 4.
pub open spec fn inputs_size(inputs: Seq<InputState>, n: nat) -> nat
    decreases n,
{
    if n == 0 {
        0
    } else {
        inputs_size(inputs, (n - 1) as nat) + 40 + counted_size(inputs[n - 1].script_sig)
    }
}

/// The number of bytes of the first `n` outputs: the value takes 8.
pub open spec fn outputs_size(outputs: Seq<OutputState>, n: nat) -> nat
    decreases n,
{
    if n == 0 {
        0
    } else {
        outputs_size(outputs, (n - 1) as nat) + 8 + counted_size(outputs[n - 1].script_pubkey)
    }
}

/// The number of bytes of the witnesses of the first `n` inputs.
pub open spec fn witnesses_size(inputs: Seq<InputState>, n: nat) -> nat
    decreases n,
{
    if n == 0 {
        0
    } else {
        let witness = inputs[n - 1].witness;
        witnesses_size(inputs, (n - 1) as nat) + length_size(witness.len()) + stack_size(
            witness,
            witness.len(),
        )
    }
}

/// The virtual size of a transaction with witnesses: a quarter of its weight, rounded up. Bytes
/// outside the witness weigh four; version and lock time take 4 each. Bytes of the witness weigh
/// one, and so do the two that announce it.
pub open spec fn tx_vsize(tx: TxState) -> nat {
    let base = 8 + length_size(tx.inputs.len()) + inputs_size(tx.inputs, tx.inputs.len())
        + length_size(tx.outputs.len()) + outputs_size(tx.outputs, tx.outputs.len());
    (4 * base + 2 + witnesses_size(tx.inputs, tx.inputs.len()) + 3) / 4
}

/// The outputs of a reveal: what the fee leaves, unless it is dust.
pub open spec fn reveal_outputs(change: nat, script: Seq<u8>) -> Seq<OutputState> {
    if change > DUST_LIMIT {
        seq![OutputState { value: change as u64, script_pubkey: script }]
    } else {
        Seq::empty()
    }
}

/// A reveal with the given witness.
pub open spec fn reveal_state(
    outpoint: OutPoint,
    outputs: Seq<OutputState>,
    witness: Seq<Seq<u8>>,
) -> TxState {
    TxState {
        version: 2,
        lock_time: 0,
        inputs: seq![
            InputState {
                previous_output: outpoint,
                script_sig: Seq::empty(),
                sequence: SEQUENCE_RBF,
                witness,
            },
        ],
        outputs,
    }
}

impl CommitRevealPlan {
    /// Whether this is the plan of an operation on a network with the given secret key.
    pub open spec fn is_for(self, op: Operation, network: Network, secret: Seq<u8>) -> bool {
        let public_key = xonly_public(secret);
        let script = op.reveal_script(public_key);
        &&& self.secret_key@ == secret
        &&& self.public_key@ == public_key
        &&& taproot_key_path(public_key) is Some
        &&& self.reveal_script@ == script
        &&& self.control_block@ == taproot_control_block(public_key, script)
        &&& self.control_block@.len() == 33
        &&& self.control_block@.subrange(1, 33) == public_key
        &&& self.control_block@[0] == 0xc0 || self.control_block@[0] == 0xc1
        &&& self.output_key@ == taproot_output_key(public_key, script)
        &&& p2tr_address_text(self.output_key@, hrp_of(network)) == Some(self.commit_address@)
    }

    /// The plan of an operation with the given secret key.
    pub fn with_secret(op: &PruneOp, network: Network, secret_key: [u8; 32]) -> (r: Result<
        CommitRevealPlan,
        BroadcastError,
    >)
        requires
            op@.pushable(),
            is_secret(secret_key@),
        ensures
            r is Ok,
            r->Ok_0.is_for(op@, network, secret_key@),
    {
        let public_key = xonly_public_key(secret_key);
        let reveal_script = op.to_reveal_script(&public_key);
        let output_key = leaf_output_key(secret_key, reveal_script.as_slice());
        let control_block = leaf_control_block(secret_key, reveal_script.as_slice());
        match p2tr_address(output_key, CommitRevealPlan::network_to_hrp(network)) {
            Some(commit_address) => Ok(
                CommitRevealPlan {
                    reveal_script,
                    control_block,
                    commit_address,
                    output_key,
                    secret_key,
                    public_key,
                },
            ),
            None => unreached(),
        }
    }

    /// The plan of an operation with a secret key drawn at random.
    pub fn new(op: &PruneOp, network: Network) -> (r: Result<CommitRevealPlan, BroadcastError>)
        requires
            op@.pushable(),
        ensures
            r is Ok,
            is_secret(r->Ok_0.secret_key@),
            r->Ok_0.is_for(op@, network, r->Ok_0.secret_key@),
    {
        let secret_key = random_secret_key();
        CommitRevealPlan::with_secret(op, network, secret_key)
    }

    /// The human-readable part of a network.
    pub fn network_to_hrp(network: Network) -> (hrp: KnownHrp)
        ensures
            hrp == hrp_of(network),
    {
        match network {
            Network::Bitcoin => KnownHrp::Mainnet,
            Network::Testnet => KnownHrp::Testnets,
            Network::Signet => KnownHrp::Testnets,
            Network::Regtest => KnownHrp::Regtest,
            Network::Other => KnownHrp::Regtest,
        }
    }

    /// The estimated virtual size of the reveal.
    pub fn estimated_reveal_vsize(&self) -> (vsize: usize)
        requires
            self.reveal_script@.len() + self.control_block@.len() + 454 <= usize::MAX,
        ensures
            vsize == reveal_vsize(self.reveal_script@.len(), self.control_block@.len()),
    {
        let base_size: usize = 12 + 41 + 43;
        let witness_size: usize = 64 + self.reveal_script.len() + self.control_block.len() + 3;
        let weight: usize = base_size * 4 + witness_size;
        (weight + 3) / 4
    }

    /// The fee of the reveal at the given rate.
    pub open spec fn reveal_fee(self, fee_rate: u64) -> nat {
        fee_rate as nat * reveal_vsize(self.reveal_script@.len(), self.control_block@.len())
    }

    /// The script that the change of the reveal goes to: the given one, else that of the public key
    /// itself.
    pub open spec fn change_script_of(self, change_script: Option<Vec<u8>>) -> Seq<u8> {
        match change_script {
            Some(script) => script@,
            None => p2tr_script(taproot_key_path(self.public_key@)->0),
        }
    }

    /// Whether change of the given value has a script to go to, where it is not dust.
    pub open spec fn change_has_script(self, change: int, change_script: Option<Vec<u8>>) -> bool {
        change <= DUST_LIMIT || change_script is Some || taproot_key_path(self.public_key@) is Some
    }

    /// Builds and signs the transaction that spends the commit output. What the fee leaves goes to
    /// the change script, unless it is dust.
    pub fn build_reveal_tx(
        &self,
        commit_outpoint: OutPoint,
        commit_value: u64,
        fee_rate: u64,
        change_script: Option<Vec<u8>>,
    ) -> (r: Result<Transaction, BroadcastError>)
        requires
            is_secret(self.secret_key@),
            self.reveal_script@.len() + self.control_block@.len() + 454 <= usize::MAX,
            self.reveal_fee(fee_rate) <= u64::MAX,
        ensures
            commit_value < self.reveal_fee(fee_rate) ==> r is Err && r->Err_0
                == (BroadcastError::CommitValueTooLow {
                value: commit_value,
                fee: self.reveal_fee(fee_rate) as u64,
            }),
            commit_value >= self.reveal_fee(fee_rate) && !self.change_has_script(
                commit_value - self.reveal_fee(fee_rate),
                change_script,
            ) ==> r is Err && r->Err_0 == BroadcastError::InvalidPublicKey,
            commit_value >= self.reveal_fee(fee_rate) && self.change_has_script(
                commit_value - self.reveal_fee(fee_rate),
                change_script,
            ) ==> {
                let outputs = reveal_outputs(
                    (commit_value - self.reveal_fee(fee_rate)) as nat,
                    self.change_script_of(change_script),
                );
                let unsigned = reveal_state(commit_outpoint, outputs, Seq::empty());
                let message = taproot_sighash(
                    unsigned_bytes(unsigned),
                    commit_value,
                    p2tr_script(self.output_key@),
                    self.reveal_script@,
                );
                &&& r is Ok
                &&& change_script is None && outputs.len() > 0 ==> outputs[0].script_pubkey.len()
                    == 34
                &&& r->Ok_0.input@.len() == 1
                &&& r->Ok_0.input@[0].witness@.len() == 3
                &&& r->Ok_0.input@[0].witness@[0]@.len() == 64
                &&& schnorr_verifies(
                    xonly_public(self.secret_key@),
                    message,
                    r->Ok_0.input@[0].witness@[0]@,
                )
                &&& r->Ok_0@ == reveal_state(
                    commit_outpoint,
                    outputs,
                    seq![
                        r->Ok_0.input@[0].witness@[0]@,
                        self.reveal_script@,
                        self.control_block@,
                    ],
                )
            },
            r matches Ok(tx) ==> {
                let change = commit_value - self.reveal_fee(fee_rate);
                &&& tx.version == 2
                &&& tx.lock_time == 0
                &&& tx.input@[0].previous_output == commit_outpoint
                &&& tx.input@[0].script_sig@.len() == 0
                &&& tx.input@[0].sequence == 0xffff_fffd
                &&& tx.input@[0].witness@[1]@ == self.reveal_script@
                &&& tx.input@[0].witness@[2]@ == self.control_block@
                &&& change <= 546 ==> tx.output@.len() == 0
                &&& change > 546 ==> {
                    &&& tx.output@.len() == 1
                    &&& tx.output@[0].value == change
                    &&& change_script matches Some(script) ==> tx.output@[0].script_pubkey@
                        == script@
                    &&& change_script is None ==> {
                        &&& taproot_key_path(self.public_key@) is Some
                        &&& tx.output@[0].script_pubkey@ == seq![0x51u8, 0x20u8]
                            + taproot_key_path(self.public_key@)->0
                    }
                }
            },
    {
        let vsize: usize = self.estimated_reveal_vsize();
        let fee: u64 = fee_rate * vsize as u64;
        if commit_value < fee {
            return Err(BroadcastError::CommitValueTooLow { value: commit_value, fee });
        }
        let change_value: u64 = commit_value - fee;
        let ghost outputs = reveal_outputs(
            change_value as nat,
            self.change_script_of(change_script),
        );

        let mut output: Vec<TxOut> = Vec::new();
        if change_value > DUST_LIMIT {
            let script_pubkey = match change_script {
                Some(script) => script,
                None => match key_path_output_key(self.public_key) {
                    Some(key) => taproot_script(&key),
                    None => {
                        return Err(BroadcastError::InvalidPublicKey);
                    },
                },
            };
            output.push(TxOut { value: change_value, script_pubkey });
        }
        let mut tx = Transaction {
            version: 2,
            lock_time: 0,
            input: vec![
                TxIn {
                    previous_output: commit_outpoint,
                    script_sig: Vec::new(),
                    sequence: SEQUENCE_RBF,
                    witness: Vec::new(),
                },
            ],
            output,
        };
        assert(tx@.outputs =~= outputs);
        assert(tx@.inputs[0].witness =~= Seq::<Seq<u8>>::empty());
        assert(tx@.inputs =~= reveal_state(commit_outpoint, outputs, Seq::empty()).inputs);
        assert(tx@ == reveal_state(commit_outpoint, outputs, Seq::empty()));

        let tx_bytes = encode_unsigned(&tx);
        let script_pubkey = taproot_script(&self.output_key);
        let sighash = script_spend_sighash(
            tx_bytes.as_slice(),
            commit_value,
            script_pubkey.as_slice(),
            self.reveal_script.as_slice(),
        );
        let signature = schnorr_sign(sighash, self.secret_key);
        let witness = vec![
            array_to_vec(&signature),
            self.reveal_script.clone(),
            self.control_block.clone(),
        ];
        proof {
            assert(witness@[1]@ =~= self.reveal_script@);
            assert(witness@[2]@ =~= self.control_block@);
            assert(stack_view(witness@) =~= seq![
                witness@[0]@,
                self.reveal_script@,
                self.control_block@,
            ]);
        }
        let signed = TxIn {
            previous_output: commit_outpoint,
            script_sig: Vec::new(),
            sequence: SEQUENCE_RBF,
            witness,
        };
        tx.input = vec![signed];
        proof {
            let expected = reveal_state(
                commit_outpoint,
                outputs,
                seq![witness@[0]@, self.reveal_script@, self.control_block@],
            );
            assert(tx@.inputs[0] == expected.inputs[0]);
            assert(tx@.inputs =~= expected.inputs);
            assert(tx@.outputs =~= outputs);
        }
        Ok(tx)
    }

    /// The place and the value of the output of the commit transaction that pays to the commit
    /// address: the first with its script.
    pub fn find_commit_output(&self, outputs: &Vec<TxOut>) -> (r: Result<(u32, u64), BroadcastError>)
        requires
            outputs@.len() <= 0x1_0000_0000,
        ensures
            match r {
                Ok((vout, value)) => {
                    &&& vout < outputs@.len()
                    &&& value == outputs@[vout as int].value
                    &&& outputs@[vout as int].script_pubkey@ == p2tr_script(self.output_key@)
                    &&& forall|i: int|
                        0 <= i < vout ==> (#[trigger] outputs@[i]).script_pubkey@ != p2tr_script(
                            self.output_key@,
                        )
                },
                Err(e) => {
                    &&& e == BroadcastError::CommitOutputNotFound
                    &&& forall|i: int|
                        0 <= i < outputs@.len() ==> (#[trigger] outputs@[i]).script_pubkey@
                            != p2tr_script(self.output_key@)
                },
            },
    {
        let script = taproot_script(&self.output_key);
        let mut i: usize = 0;
        while i < outputs.len()
            invariant
                i <= outputs@.len() <= 0x1_0000_0000,
                script@ == p2tr_script(self.output_key@),
                forall|k: int|
                    0 <= k < i ==> (#[trigger] outputs@[k]).script_pubkey@ != p2tr_script(
                        self.output_key@,
                    ),
            decreases outputs@.len() - i,
        {
            if bytes_equal(outputs[i].script_pubkey.as_slice(), script.as_slice()) {
                return Ok((i as u32, outputs[i].value));
            }
            i = i + 1;
        }
        Err(BroadcastError::CommitOutputNotFound)
    }
}

/// The bytes of a signature, in a vector.
fn array_to_vec(bytes: &[u8; 64]) -> (v: Vec<u8>)
    ensures
        v@ == bytes@,
        v@.len() == 64,
{
    let mut v: Vec<u8> = Vec::new();
    v.extend_from_slice(bytes.as_slice());
    assert(v@ =~= bytes@);
    v
}

/// The estimate is no less than the virtual size of the reveal once it is signed, for change that
/// goes to a taproot script or a shorter one: what the reveal pays is no less than the rate asks for
/// its size. A reveal whose change is dust has no output, and pays the change as well.
pub proof fn law_estimate_covers_reveal(
    plan: CommitRevealPlan,
    outpoint: OutPoint,
    commit_value: u64,
    fee_rate: u64,
    change_script: Seq<u8>,
    signature: Seq<u8>,
)
    requires
        signature.len() == 64,
        plan.control_block@.len() == 33,
        plan.reveal_script@.len() <= 0xffff_ffff,
        change_script.len() <= 34,
        plan.reveal_fee(fee_rate) <= commit_value,
    ensures
        ({
            let change = (commit_value - plan.reveal_fee(fee_rate)) as nat;
            let outputs = reveal_outputs(change, change_script);
            let tx = reveal_state(
                outpoint,
                outputs,
                seq![signature, plan.reveal_script@, plan.control_block@],
            );
            let paid = if outputs.len() == 0 {
                commit_value as int
            } else {
                commit_value - outputs[0].value
            };
            &&& tx_vsize(tx) <= reveal_vsize(plan.reveal_script@.len(), plan.control_block@.len())
            &&& paid >= fee_rate * tx_vsize(tx)
        }),
{
    let change = (commit_value - plan.reveal_fee(fee_rate)) as nat;
    let outputs = reveal_outputs(change, change_script);
    let witness = seq![signature, plan.reveal_script@, plan.control_block@];
    let tx = reveal_state(outpoint, outputs, witness);
    reveal_with_fuel(inputs_size, 2);
    reveal_with_fuel(outputs_size, 2);
    reveal_with_fuel(witnesses_size, 2);
    reveal_with_fuel(stack_size, 4);
    assert(inputs_size(tx.inputs, 1) == 41);
    assert(outputs_size(tx.outputs, tx.outputs.len()) <= 43);
    assert(stack_size(witness, 3) <= 65 + 34 + 5 + plan.reveal_script@.len());
    assert(witnesses_size(tx.inputs, 1) <= 65 + 34 + 6 + plan.reveal_script@.len());
    let estimate = reveal_vsize(plan.reveal_script@.len(), plan.control_block@.len());
    assert(tx_vsize(tx) <= estimate);
    assert(fee_rate as nat * tx_vsize(tx) <= fee_rate as nat * estimate) by (nonlinear_arith)
        requires
            tx_vsize(tx) <= estimate,
    ;
}

/// A reveal puts the operation on the chain: whoever reads the witness of its input finds the
/// operation that the plan was made for.
pub proof fn law_reveal_shows_operation(
    plan: CommitRevealPlan,
    op: Operation,
    network: Network,
    secret: Seq<u8>,
    signature: Seq<u8>,
)
    requires
        plan.is_for(op, network, secret),
        plan.public_key@.len() == 32,
        op.pushable(),
        op.in_range(),
    ensures
        tapscript_of(seq![signature, plan.reveal_script@, plan.control_block@]) == Some(
            plan.reveal_script@,
        ),
        parse_script(plan.reveal_script@) == Some(op),
{
    law_reveal_round_trip(op, plan.public_key@);
    let stack = seq![signature, plan.reveal_script@, plan.control_block@];
    assert(stack.last() == plan.control_block@);
}

/// Change that is more than dust goes to the script that was given, whatever its length; without one
/// it goes to the taproot script of the plan's public key. Dust goes nowhere.
pub proof fn law_change_goes_where_it_is_sent(
    plan: CommitRevealPlan,
    change: nat,
    given: Vec<u8>,
)
    requires
        change <= u64::MAX,
    ensures
        plan.change_script_of(Some(given)) == given@,
        taproot_key_path(plan.public_key@) matches Some(key) ==> plan.change_script_of(None)
            == seq![0x51u8, 0x20u8] + key,
        change <= 546 ==> reveal_outputs(change, given@).len() == 0,
        change > 546 ==> {
            let outputs = reveal_outputs(change, given@);
            &&& outputs.len() == 1
            &&& outputs[0].value == change
            &&& outputs[0].script_pubkey == given@
        },
        plan.change_has_script(change as int, Some(given)),
        plan.change_has_script(change as int, None) <==> change <= 546 || taproot_key_path(
            plan.public_key@,
        ) is Some,
{
}

/// No satoshi is lost: what a reveal spends is what its output holds and its fee, and the fee is the
/// rate times the estimate, with the change added where it is dust.
pub proof fn law_reveal_conserves(
    plan: CommitRevealPlan,
    commit_value: u64,
    fee_rate: u64,
    script: Seq<u8>,
)
    requires
        plan.reveal_fee(fee_rate) <= commit_value,
    ensures
        ({
            let len = plan.reveal_script@.len() + plan.control_block@.len();
            let fee = fee_rate * ((454 + len) / 4);
            let outputs = reveal_outputs((commit_value - fee) as nat, script);
            &&& plan.reveal_fee(fee_rate) == fee
            &&& outputs.len() == 1 ==> outputs[0].value + fee == commit_value
            &&& outputs.len() == 0 ==> fee <= commit_value <= fee + 546
            &&& outputs.len() <= 1
        }),
{
}

/// The estimate grows by one for every four bytes of script.
pub proof fn law_estimate_of_a_length(script_len: nat, control_block_len: nat)
    ensures
        reveal_vsize(script_len, control_block_len) == (454 + script_len + control_block_len) / 4,
        reveal_vsize(script_len + 4, control_block_len) == reveal_vsize(
            script_len,
            control_block_len,
        ) + 1,
{
}

/// A taproot script is two fixed bytes and the output key.
pub proof fn law_taproot_script(output_key: Seq<u8>)
    ensures
        p2tr_script(output_key).len() == output_key.len() + 2,
        p2tr_script(output_key)[0] == 0x51,
        p2tr_script(output_key)[1] == 0x20,
        p2tr_script(output_key).skip(2) == output_key,
{
    assert(p2tr_script(output_key).skip(2) =~= output_key);
}

/// Every network has the addresses of its kind.
pub proof fn law_network_prefixes()
    ensures
        hrp_of(Network::Bitcoin) == KnownHrp::Mainnet,
        hrp_of(Network::Testnet) == KnownHrp::Testnets,
        hrp_of(Network::Signet) == KnownHrp::Testnets,
        hrp_of(Network::Regtest) == KnownHrp::Regtest,
        hrp_of(Network::Other) == KnownHrp::Regtest,
{
}

/// A reveal spends the one outpoint that it is given, can be replaced, has no lock time, and carries
/// the outputs and the witness that it is given.
pub proof fn law_reveal_parts(
    outpoint: OutPoint,
    outputs: Seq<OutputState>,
    witness: Seq<Seq<u8>>,
)
    ensures
        ({
            let tx = reveal_state(outpoint, outputs, witness);
            &&& tx.version == 2
            &&& tx.lock_time == 0
            &&& tx.inputs.len() == 1
            &&& tx.inputs[0].previous_output == outpoint
            &&& tx.inputs[0].script_sig.len() == 0
            &&& tx.inputs[0].sequence == 0xffff_fffd
            &&& tx.inputs[0].witness == witness
            &&& tx.outputs == outputs
        }),
{
}

/// A plan names its operation and its key: its script is the key, a signature check and the
/// operation's envelope; its address and control block are those of that script under that key.
pub proof fn law_plan_parts(
    plan: CommitRevealPlan,
    op: Operation,
    network: Network,
    secret: Seq<u8>,
)
    requires
        plan.is_for(op, network, secret),
    ensures
        plan.secret_key@ == secret,
        plan.public_key@ == xonly_public(secret),
        plan.reveal_script@ == push_encoding(xonly_public(secret)) + (seq![0xacu8]
            + op.envelope_script()),
        plan.output_key@ == taproot_output_key(xonly_public(secret), plan.reveal_script@),
        plan.control_block@ == taproot_control_block(xonly_public(secret), plan.reveal_script@),
        plan.control_block@.len() == 33,
        plan.control_block@[0] != 0x50,
        p2tr_address_text(plan.output_key@, hrp_of(network)) == Some(plan.commit_address@),
        taproot_key_path(plan.public_key@) is Some,
{
}

/// A reveal of a plan is found: whoever scans a transaction whose input carries the witness of the
/// reveal finds the operation of the plan, and nothing else, whichever parity the control block has.
pub proof fn law_reveal_is_scanned(
    plan: CommitRevealPlan,
    op: Operation,
    network: Network,
    secret: Seq<u8>,
    signature: Seq<u8>,
    input: TxIn,
)
    requires
        plan.is_for(op, network, secret),
        plan.public_key@.len() == 32,
        op.pushable(),
        op.in_range(),
        stack_view(input.witness@) == seq![signature, plan.reveal_script@, plan.control_block@],
    ensures
        operations(seq![input], 1) == seq![(0nat, op)],
{
    assert(stack_view(input.witness@) =~= seq![signature] + seq![
        op.reveal_script(plan.public_key@),
        plan.control_block@,
    ]);
    law_reveal_is_found(input, op, plan.public_key@, seq![signature], plan.control_block@);
}

/// What a commit pays, and what counts as dust.
pub proof fn law_amounts()
    ensures
        COMMIT_VALUE == 10_000,
        DUST_LIMIT == 546,
        SEQUENCE_RBF == 0xffff_fffd,
{
}

} // verus!
