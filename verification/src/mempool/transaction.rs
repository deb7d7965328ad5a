//! A transaction as the mempool holds it.

use crate::account_address::AccountAddress;
use crate::hash::HashValue;
use crate::mempool::index::TxnPointer;
use crate::transaction::status::GovernanceRole;
use crate::transaction::SignedTransaction;
use vstd::prelude::*;

verus! {

/// Where a transaction stands with regard to the timeline.
#[derive(Clone, Copy, Debug, PartialEq, Eq, Structural)]
pub enum TimelineState {
    /// The transaction is ready for broadcast; the number is its timeline
    /// id.
    Ready(u64),
    /// The transaction is not ready for broadcast yet.
    NotReady,
    /// The transaction is never broadcast.
    NonQualified,
}

/// How the sequence numbers of an account go: one after another, or any
/// within a window.
#[derive(Clone, Copy, Debug, PartialEq, Eq, Structural)]
pub enum AccountSequenceInfo {
    Sequential(u64),
    CRSN { min_nonce: u64, size: u64 },
}

impl AccountSequenceInfo {
    /// The least sequence number that the account still accepts.
    pub open spec fn spec_min_seq(self) -> u64 {
        match self {
            AccountSequenceInfo::Sequential(n) => n,
            AccountSequenceInfo::CRSN { min_nonce, size } => min_nonce,
        }
    }

    pub fn min_seq(&self) -> (r: u64)
        ensures
            r == self.spec_min_seq(),
    {
        match self {
            AccountSequenceInfo::Sequential(n) => *n,
            AccountSequenceInfo::CRSN { min_nonce, size: _ } => *min_nonce,
        }
    }
}

/// The sequence number of a transaction and the way in which the sequence
/// numbers of its account go.
#[derive(Clone, Copy, Debug, PartialEq, Eq, Structural)]
pub struct SequenceInfo {
    pub transaction_sequence_number: u64,
    pub account_sequence_number_type: AccountSequenceInfo,
}

/// A transaction with what the mempool knows of it.
#[derive(Debug)]
pub struct MempoolTransaction {
    pub txn: SignedTransaction,
    /// The time at which the mempool drops the transaction.
    pub expiration_time: u64,
    pub gas_amount: u64,
    pub ranking_score: u64,
    pub timeline_state: TimelineState,
    pub governance_role: GovernanceRole,
    pub sequence_info: SequenceInfo,
}

impl Clone for MempoolTransaction {
    fn clone(&self) -> (r: Self)
        ensures
            r.same_as(*self),
    {
        MempoolTransaction {
            txn: self.txn.clone(),
            expiration_time: self.expiration_time,
            gas_amount: self.gas_amount,
            ranking_score: self.ranking_score,
            timeline_state: self.timeline_state,
            governance_role: self.governance_role,
            sequence_info: self.sequence_info,
        }
    }
}

impl MempoolTransaction {
    /// What points at the transaction.
    pub open spec fn pointer(self) -> TxnPointer {
        (self.txn.raw_txn.sender, self.sequence_info.transaction_sequence_number)
    }

    /// Whether two transactions are the same in all that the mempool reads
    /// of them: the canonical encoding of the signed transaction, its fields
    /// that the mempool ranks by, and what the mempool keeps beside it.
    pub open spec fn same_as(self, other: MempoolTransaction) -> bool {
        &&& self.txn@ == other.txn@
        &&& self.txn.raw_txn.sender == other.txn.raw_txn.sender
        &&& self.txn.raw_txn.sequence_number == other.txn.raw_txn.sequence_number
        &&& self.txn.raw_txn.payload@ == other.txn.raw_txn.payload@
        &&& self.txn.raw_txn.max_gas_amount == other.txn.raw_txn.max_gas_amount
        &&& self.txn.raw_txn.gas_unit_price == other.txn.raw_txn.gas_unit_price
        &&& self.txn.raw_txn.expiration_timestamp_secs
            == other.txn.raw_txn.expiration_timestamp_secs
        &&& self.expiration_time == other.expiration_time
        &&& self.gas_amount == other.gas_amount
        &&& self.ranking_score == other.ranking_score
        &&& self.timeline_state == other.timeline_state
        &&& self.governance_role == other.governance_role
        &&& self.sequence_info == other.sequence_info
    }

    /// A transaction as it enters the mempool; its sequence number is the
    /// one that it was signed with.
    pub fn new(
        txn: SignedTransaction,
        expiration_time: u64,
        gas_amount: u64,
        ranking_score: u64,
        timeline_state: TimelineState,
        governance_role: GovernanceRole,
        seqno_type: AccountSequenceInfo,
    ) -> (r: Self)
        ensures
            r == (MempoolTransaction {
                txn,
                expiration_time,
                gas_amount,
                ranking_score,
                timeline_state,
                governance_role,
                sequence_info: SequenceInfo {
                    transaction_sequence_number: txn.raw_txn.sequence_number,
                    account_sequence_number_type: seqno_type,
                },
            }),
    {
        let sequence_info = SequenceInfo {
            transaction_sequence_number: txn.sequence_number(),
            account_sequence_number_type: seqno_type,
        };
        MempoolTransaction {
            txn,
            expiration_time,
            gas_amount,
            ranking_score,
            timeline_state,
            governance_role,
            sequence_info,
        }
    }

    pub fn get_sender(&self) -> (r: AccountAddress)
        ensures
            r == self.txn.raw_txn.sender,
    {
        self.txn.sender()
    }

    pub fn get_gas_price(&self) -> (r: u64)
        ensures
            r == self.txn.raw_txn.gas_unit_price,
    {
        self.txn.gas_unit_price()
    }

    /// The hash of the transaction once it is committed.
    pub fn get_committed_hash(&self) -> (r: HashValue)
        ensures
            r@ == self.txn.spec_committed_hash(),
    {
        self.txn.clone().committed_hash()
    }
}

} // verus!
