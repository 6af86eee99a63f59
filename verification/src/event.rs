//! What an index of the chain reports.
use vstd::prelude::*;

use crate::chain::{InscriptionId, OutPoint, RuneId, SatPoint, Txid};

verus! {

/// Something that happened on the chain.
#[derive(Debug, Clone, PartialEq)]
pub enum Event {
    InscriptionCreated {
        block_height: u32,
        charms: u16,
        inscription_id: InscriptionId,
        location: Option<SatPoint>,
        parent_inscription_ids: Vec<InscriptionId>,
        sequence_number: u32,
    },
    InscriptionTransferred {
        block_height: u32,
        inscription_id: InscriptionId,
        new_location: SatPoint,
        old_location: SatPoint,
        sequence_number: u32,
    },
    RuneBurned { amount: u128, block_height: u32, rune_id: RuneId, txid: Txid },
    RuneEtched { block_height: u32, rune_id: RuneId, txid: Txid },
    RuneMinted { amount: u128, block_height: u32, rune_id: RuneId, txid: Txid },
    RuneTransferred {
        amount: u128,
        block_height: u32,
        outpoint: OutPoint,
        rune_id: RuneId,
        txid: Txid,
    },
    PruneShielded { block_height: u32, txid: Txid, commitment: [u8; 32], tree_index: u64 },
    PruneTransferred {
        block_height: u32,
        txid: Txid,
        nullifier: [u8; 32],
        out_commitment: [u8; 32],
        tree_index: u64,
    },
    PruneUnshielded { block_height: u32, txid: Txid, nullifier: [u8; 32], amount: u64 },
}

/// What an event says of the private pool.
#[verifier::ext_equal]
pub enum Notice {
    Shielded { block_height: u32, txid: Txid, commitment: Seq<u8>, tree_index: u64 },
    Transferred {
        block_height: u32,
        txid: Txid,
        nullifier: Seq<u8>,
        out_commitment: Seq<u8>,
        tree_index: u64,
    },
    Unshielded { block_height: u32, txid: Txid, nullifier: Seq<u8>, amount: nat },
    /// Nothing.
    Unrelated,
}

impl View for Event {
    type V = Notice;

    open spec fn view(&self) -> Notice {
        match self {
            Event::PruneShielded { block_height, txid, commitment, tree_index } =>
                Notice::Shielded {
                block_height: *block_height,
                txid: *txid,
                commitment: commitment@,
                tree_index: *tree_index,
            },
            Event::PruneTransferred {
                block_height,
                txid,
                nullifier,
                out_commitment,
                tree_index,
            } => Notice::Transferred {
                block_height: *block_height,
                txid: *txid,
                nullifier: nullifier@,
                out_commitment: out_commitment@,
                tree_index: *tree_index,
            },
            Event::PruneUnshielded { block_height, txid, nullifier, amount } =>
                Notice::Unshielded {
                block_height: *block_height,
                txid: *txid,
                nullifier: nullifier@,
                amount: *amount as nat,
            },
            _ => Notice::Unrelated,
        }
    }
}

/// What a list of events says of the private pool.
pub open spec fn notices(events: Seq<Event>) -> Seq<Notice> {
    Seq::new(events.len(), |i: int| events[i]@)
}

/// What an event says is what its parts are.
pub proof fn law_notice_of_an_event(
    block_height: u32,
    txid: Txid,
    a: [u8; 32],
    b: [u8; 32],
    n: u64,
)
    ensures
        (Event::PruneShielded { block_height, txid, commitment: a, tree_index: n })@
            == (Notice::Shielded { block_height, txid, commitment: a@, tree_index: n }),
        (Event::PruneTransferred {
            block_height,
            txid,
            nullifier: a,
            out_commitment: b,
            tree_index: n,
        })@ == (Notice::Transferred {
            block_height,
            txid,
            nullifier: a@,
            out_commitment: b@,
            tree_index: n,
        }),
        (Event::PruneUnshielded { block_height, txid, nullifier: a, amount: n })@
            == (Notice::Unshielded { block_height, txid, nullifier: a@, amount: n as nat }),
{
}

/// Every event of a list is said, in order.
pub proof fn law_all_events_are_said(events: Seq<Event>)
    ensures
        notices(events).len() == events.len(),
        forall|i: int| 0 <= i < events.len() ==> #[trigger] notices(events)[i] == events[i]@,
{
}

} // verus!
