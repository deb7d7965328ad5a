//! Transactions with the proofs that they stand in the ledger.

use crate::account_address::AccountAddress;
use crate::accumulator::{
    accumulator_root, hash_views, proof_check, range_check, AccumulatorProof,
    AccumulatorRangeProof, InMemoryAccumulator, ProofError,
};
use crate::bytes::le_u64;
use crate::codec::{byte_string, write_byte_string, write_u64};
use crate::hash::{HashDomain, HashValue};
use crate::transaction::status::{KeptVMStatus, TransactionStatus};
use crate::transaction::{
    ContractEvent, Transaction, Version, WriteSet,
};
use vstd::prelude::*;

verus! {

/// What the validators agreed upon: the epoch and the version of the
/// ledger, and the root hash of the accumulator of its transactions.
#[derive(Clone, Copy, Debug, PartialEq, Eq)]
pub struct LedgerInfo {
    pub epoch: u64,
    pub version: Version,
    pub transaction_accumulator_hash: HashValue,
}

impl LedgerInfo {
    pub fn new(epoch: u64, version: Version, transaction_accumulator_hash: HashValue) -> (r: Self)
        ensures
            r.epoch == epoch,
            r.version == version,
            r.transaction_accumulator_hash == transaction_accumulator_hash,
    {
        LedgerInfo { epoch, version, transaction_accumulator_hash }
    }

    pub fn epoch(&self) -> (r: u64)
        ensures
            r == self.epoch,
    {
        self.epoch
    }

    pub fn version(&self) -> (r: Version)
        ensures
            r == self.version,
    {
        self.version
    }

    pub fn transaction_accumulator_hash(&self) -> (r: HashValue)
        ensures
            r == self.transaction_accumulator_hash,
    {
        self.transaction_accumulator_hash
    }
}

/// Why a transaction, a list of transactions or a list of outputs was not
/// accepted with its proof. Each check gives one reason; the first check
/// that fails decides.
#[derive(Clone, Copy, Debug, PartialEq, Eq, Structural)]
pub enum VerifyError {
    /// The transaction is no user transaction.
    NotUserTransaction,
    /// The version is not the expected one.
    VersionMismatch,
    /// The sender is not the expected one.
    SenderMismatch,
    /// The sequence number is not the expected one.
    SequenceNumberMismatch,
    /// The hash of the transaction is not the one in its info.
    TransactionHashMismatch,
    /// The root hash of the events is not the one in the info.
    EventRootMismatch,
    /// The version is newer than the ledger info.
    VersionNewerThanLedger,
    /// The proof of the infos is not accepted.
    Proof(ProofError),
    /// The first version is not the expected one.
    FirstVersionMismatch,
    /// There is not one info for each transaction or output.
    InfoCountMismatch,
    /// There is not one list of events for each transaction.
    EventListCountMismatch,
    /// There are more transactions than were asked for.
    TooManyTransactions,
    /// Events are there that were not asked for, or are missing.
    UnexpectedOrMissingEvents,
    /// The version is newer than the version that was asked for.
    VersionNewerThanRequested,
}

impl VerifyError {
    /// The reason in words.
    pub fn description(&self) -> (r: &'static str)
        ensures
            r == self.spec_description(),
    {
        match self {
            VerifyError::NotUserTransaction => "Not a user transaction.",
            VerifyError::VersionMismatch => "Version is not expected.",
            VerifyError::SenderMismatch => "Sender is not expected.",
            VerifyError::SequenceNumberMismatch => "Sequence number is not expected.",
            VerifyError::TransactionHashMismatch => "Transaction hash is not expected.",
            VerifyError::EventRootMismatch => "Event root hash is not expected.",
            VerifyError::VersionNewerThanLedger => "Transaction version is newer than LedgerInfo version.",
            VerifyError::Proof(_) => "The proof is not accepted.",
            VerifyError::FirstVersionMismatch => "First transaction version doesn't match given version.",
            VerifyError::InfoCountMismatch => "The number of TransactionInfo objects does not match the number of transactions.",
            VerifyError::EventListCountMismatch => "The length of event_lists does not match the number of transactions.",
            VerifyError::TooManyTransactions => "number of account transactions exceeded limit",
            VerifyError::UnexpectedOrMissingEvents => "unexpected events or missing events",
            VerifyError::VersionNewerThanRequested => "transaction with version greater than requested ledger version",
        }
    }

    /// The reason in words.
    pub open spec fn spec_description(&self) -> &'static str {
        match self {
            VerifyError::NotUserTransaction => "Not a user transaction.",
            VerifyError::VersionMismatch => "Version is not expected.",
            VerifyError::SenderMismatch => "Sender is not expected.",
            VerifyError::SequenceNumberMismatch => "Sequence number is not expected.",
            VerifyError::TransactionHashMismatch => "Transaction hash is not expected.",
            VerifyError::EventRootMismatch => "Event root hash is not expected.",
            VerifyError::VersionNewerThanLedger => "Transaction version is newer than LedgerInfo version.",
            VerifyError::Proof(_) => "The proof is not accepted.",
            VerifyError::FirstVersionMismatch => "First transaction version doesn't match given version.",
            VerifyError::InfoCountMismatch => "The number of TransactionInfo objects does not match the number of transactions.",
            VerifyError::EventListCountMismatch => "The length of event_lists does not match the number of transactions.",
            VerifyError::TooManyTransactions => "number of account transactions exceeded limit",
            VerifyError::UnexpectedOrMissingEvents => "unexpected events or missing events",
            VerifyError::VersionNewerThanRequested => "transaction with version greater than requested ledger version",
        }
    }
}

/// What the ledger keeps of a transaction: the hash of the transaction, the
/// root hash of the state behind it, the root hash of its events, the gas
/// that it used and its status.
#[derive(Clone, Copy, Debug, PartialEq, Eq)]
pub struct TransactionInfo {
    pub transaction_hash: HashValue,
    pub state_root_hash: HashValue,
    pub event_root_hash: HashValue,
    pub gas_used: u64,
    pub status: KeptVMStatus,
}

impl View for TransactionInfo {
    type V = Seq<u8>;

    /// The canonical encoding: the fields in the order of their declaration.
    open spec fn view(&self) -> Seq<u8> {
        byte_string(self.transaction_hash@) + byte_string(self.state_root_hash@) + byte_string(
            self.event_root_hash@,
        ) + le_u64(self.gas_used) + self.status@
    }
}

impl TransactionInfo {
    /// Constructs a new `TransactionInfo` object.
    pub fn new(
        transaction_hash: HashValue,
        state_root_hash: HashValue,
        event_root_hash: HashValue,
        gas_used: u64,
        status: KeptVMStatus,
    ) -> (r: TransactionInfo)
        ensures
            r == (TransactionInfo {
                transaction_hash,
                state_root_hash,
                event_root_hash,
                gas_used,
                status,
            }),
    {
        TransactionInfo { transaction_hash, state_root_hash, event_root_hash, gas_used, status }
    }

    /// Returns the hash of this transaction.
    pub fn transaction_hash(&self) -> (r: HashValue)
        ensures
            r == self.transaction_hash,
    {
        self.transaction_hash
    }

    /// Returns the root hash of the state at the end of this transaction.
    pub fn state_root_hash(&self) -> (r: HashValue)
        ensures
            r == self.state_root_hash,
    {
        self.state_root_hash
    }

    /// Returns the root hash of the accumulator of the events that this
    /// transaction emitted.
    pub fn event_root_hash(&self) -> (r: HashValue)
        ensures
            r == self.event_root_hash,
    {
        self.event_root_hash
    }

    /// Returns the amount of gas used by this transaction.
    pub fn gas_used(&self) -> (r: u64)
        ensures
            r == self.gas_used,
    {
        self.gas_used
    }

    /// Returns the status of this transaction.
    pub fn status(&self) -> (r: &KeptVMStatus)
        ensures
            *r == self.status,
    {
        &self.status
    }

    /// The hash of the info: that of its canonical encoding among infos.
    pub open spec fn spec_hash(&self) -> Seq<u8> {
        HashDomain::TransactionInfo.hash_of(self@)
    }

    pub fn hash(&self) -> (r: HashValue)
        ensures
            r@ == self.spec_hash(),
    {
        let mut bytes: Vec<u8> = Vec::new();
        write_byte_string(&mut bytes, &self.transaction_hash.hash);
        write_byte_string(&mut bytes, &self.state_root_hash.hash);
        write_byte_string(&mut bytes, &self.event_root_hash.hash);
        write_u64(&mut bytes, self.gas_used);
        self.status.encode(&mut bytes);
        assert(bytes@ =~= self@);
        HashDomain::TransactionInfo.hash(bytes.as_slice())
    }
}

/// The hashes of the events of a list, one by one.
pub open spec fn event_hashes(events: Seq<ContractEvent>) -> Seq<Seq<u8>> {
    Seq::new(events.len(), |i: int| events[i].spec_hash())
}

/// The root hash of the events of a transaction: that of the accumulator
/// over their hashes, and so the placeholder for no event.
pub open spec fn event_root(events: Seq<ContractEvent>) -> Seq<u8> {
    accumulator_root(HashDomain::EventAccumulator, event_hashes(events))
}

/// The root hash of the events of a transaction.
pub fn compute_event_root(events: &[ContractEvent]) -> (r: HashValue)
    ensures
        r@ == event_root(events@),
{
    let mut hashes: Vec<HashValue> = Vec::new();
    let mut i: usize = 0;
    while i < events.len()
        invariant
            i <= events.len(),
            hashes@.len() == i,
            forall|j: int| 0 <= j < i ==> (#[trigger] hashes@[j])@ == events@[j].spec_hash(),
        decreases events.len() - i,
    {
        hashes.push(events[i].hash());
        i += 1;
    }
    assert(hash_views(hashes@) =~= event_hashes(events@));
    InMemoryAccumulator::from_leaves(HashDomain::EventAccumulator, hashes.as_slice()).root_hash()
}

/// Whether events are those of an info: their root hash is the one that the
/// info holds.
pub open spec fn events_match(events: Seq<ContractEvent>, info: TransactionInfo) -> bool {
    event_root(events) == info.event_root_hash@
}

/// Verifies a list of events against the root hash that an info holds for
/// them.
pub fn verify_events_against_root_hash(events: &[ContractEvent], transaction_info: &TransactionInfo) -> (r:
    Result<(), VerifyError>)
    ensures
        r is Ok <==> events_match(events@, *transaction_info),
        r is Err ==> r->Err_0 == VerifyError::EventRootMismatch,
{
    let event_root_hash = compute_event_root(events);
    if event_root_hash == transaction_info.event_root_hash {
        Ok(())
    } else {
        Err(VerifyError::EventRootMismatch)
    }
}

/// The events of a transaction whose info was made for them are accepted
/// with it: the root hash that is built from them anew is the one that the
/// info holds.
pub proof fn lemma_events_of_info_match(events: Seq<ContractEvent>, info: TransactionInfo)
    requires
        info.event_root_hash@ == event_root(events),
    ensures
        events_match(events, info),
{
}

/// An info with the proof that it stands in the ledger at its version.
#[derive(Debug, PartialEq, Eq)]
pub struct TransactionInfoWithProof {
    pub ledger_info_to_transaction_info_proof: AccumulatorProof,
    pub transaction_info: TransactionInfo,
}

/// What the check of an info with its proof gives.
pub open spec fn info_check(
    proof: TransactionInfoWithProof,
    ledger_info: LedgerInfo,
    transaction_version: Version,
) -> Result<(), VerifyError> {
    if transaction_version > ledger_info.version {
        Err(VerifyError::VersionNewerThanLedger)
    } else {
        match proof_check(
            HashDomain::TransactionAccumulator,
            hash_views(proof.ledger_info_to_transaction_info_proof.siblings@),
            ledger_info.transaction_accumulator_hash@,
            proof.transaction_info.spec_hash(),
            transaction_version,
        ) {
            Ok(_) => Ok(()),
            Err(e) => Err(VerifyError::Proof(e)),
        }
    }
}

impl Clone for TransactionInfoWithProof {
    fn clone(&self) -> (r: Self)
        ensures
            r.transaction_info == self.transaction_info,
            hash_views(r.ledger_info_to_transaction_info_proof.siblings@) == hash_views(
                self.ledger_info_to_transaction_info_proof.siblings@,
            ),
    {
        TransactionInfoWithProof {
            ledger_info_to_transaction_info_proof: self.ledger_info_to_transaction_info_proof.clone(),
            transaction_info: self.transaction_info,
        }
    }
}

impl TransactionInfoWithProof {
    pub fn new(
        ledger_info_to_transaction_info_proof: AccumulatorProof,
        transaction_info: TransactionInfo,
    ) -> (r: Self)
        ensures
            r.ledger_info_to_transaction_info_proof == ledger_info_to_transaction_info_proof,
            r.transaction_info == transaction_info,
    {
        TransactionInfoWithProof { ledger_info_to_transaction_info_proof, transaction_info }
    }

    pub fn transaction_info(&self) -> (r: &TransactionInfo)
        ensures
            *r == self.transaction_info,
    {
        &self.transaction_info
    }

    /// Checks that the info stands at `transaction_version` in the ledger
    /// that `ledger_info` stands for.
    pub fn verify(&self, ledger_info: &LedgerInfo, transaction_version: Version) -> (r: Result<
        (),
        VerifyError,
    >)
        ensures
            r == info_check(*self, *ledger_info, transaction_version),
    {
        if transaction_version > ledger_info.version {
            return Err(VerifyError::VersionNewerThanLedger);
        }
        match self.ledger_info_to_transaction_info_proof.verify(
            HashDomain::TransactionAccumulator,
            ledger_info.transaction_accumulator_hash,
            self.transaction_info.hash(),
            transaction_version,
        ) {
            Ok(_) => Ok(()),
            Err(e) => Err(VerifyError::Proof(e)),
        }
    }
}

/// The hashes of the infos of a list, one by one.
pub open spec fn info_hashes(infos: Seq<TransactionInfo>) -> Seq<Seq<u8>> {
    Seq::new(infos.len(), |i: int| infos[i].spec_hash())
}

/// A run of infos with the proof that they stand in the ledger one behind
/// the other.
#[derive(Debug, PartialEq, Eq)]
pub struct TransactionInfoListWithProof {
    pub ledger_info_to_transaction_infos_proof: AccumulatorRangeProof,
    pub transaction_infos: Vec<TransactionInfo>,
}

/// What the check of a run of infos with its proof gives.
pub open spec fn info_list_check(
    proof: TransactionInfoListWithProof,
    ledger_info: LedgerInfo,
    first_transaction_info_version: Option<Version>,
) -> Result<(), VerifyError> {
    match range_check(
        HashDomain::TransactionAccumulator,
        hash_views(proof.ledger_info_to_transaction_infos_proof.left_siblings@),
        hash_views(proof.ledger_info_to_transaction_infos_proof.right_siblings@),
        ledger_info.transaction_accumulator_hash@,
        first_transaction_info_version,
        info_hashes(proof.transaction_infos@),
    ) {
        Ok(_) => Ok(()),
        Err(e) => Err(VerifyError::Proof(e)),
    }
}

impl TransactionInfoListWithProof {
    pub fn new(
        ledger_info_to_transaction_infos_proof: AccumulatorRangeProof,
        transaction_infos: Vec<TransactionInfo>,
    ) -> (r: Self)
        ensures
            r.ledger_info_to_transaction_infos_proof == ledger_info_to_transaction_infos_proof,
            r.transaction_infos == transaction_infos,
    {
        TransactionInfoListWithProof { ledger_info_to_transaction_infos_proof, transaction_infos }
    }

    /// The proof for no info.
    pub fn new_empty() -> (r: Self)
        ensures
            r.transaction_infos@.len() == 0,
            r.ledger_info_to_transaction_infos_proof.left_siblings@.len() == 0,
            r.ledger_info_to_transaction_infos_proof.right_siblings@.len() == 0,
    {
        TransactionInfoListWithProof {
            ledger_info_to_transaction_infos_proof: AccumulatorRangeProof::new_empty(),
            transaction_infos: Vec::new(),
        }
    }

    /// Checks that the infos stand from `first_transaction_info_version` on
    /// in the ledger that `ledger_info` stands for.
    pub fn verify(&self, ledger_info: &LedgerInfo, first_transaction_info_version: Option<Version>) -> (r:
        Result<(), VerifyError>)
        ensures
            r == info_list_check(*self, *ledger_info, first_transaction_info_version),
    {
        let mut hashes: Vec<HashValue> = Vec::new();
        let mut i: usize = 0;
        while i < self.transaction_infos.len()
            invariant
                i <= self.transaction_infos.len(),
                hashes@.len() == i,
                forall|j: int|
                    0 <= j < i ==> (#[trigger] hashes@[j])@ == self.transaction_infos@[j].spec_hash(),
            decreases self.transaction_infos.len() - i,
        {
            hashes.push(self.transaction_infos[i].hash());
            i += 1;
        }
        assert(hash_views(hashes@) =~= info_hashes(self.transaction_infos@));
        match self.ledger_info_to_transaction_infos_proof.verify(
            HashDomain::TransactionAccumulator,
            ledger_info.transaction_accumulator_hash,
            first_transaction_info_version,
            hashes.as_slice(),
        ) {
            Ok(_) => Ok(()),
            Err(e) => Err(VerifyError::Proof(e)),
        }
    }
}

/// A transaction with the proof that it stands in the ledger at its
/// version, and with its events where they were asked for.
#[derive(Debug, PartialEq, Eq)]
pub struct TransactionWithProof {
    pub version: Version,
    pub transaction: Transaction,
    pub events: Option<Vec<ContractEvent>>,
    pub proof: TransactionInfoWithProof,
}

/// What the check of a user transaction with its proof gives. The
/// transaction is a user transaction; its version, sender and sequence
/// number are the expected ones; its hash is the one in its info; its
/// events, where there are any, are those of its info; and its info stands
/// in the ledger at the version.
pub open spec fn user_txn_check(
    t: TransactionWithProof,
    ledger_info: LedgerInfo,
    version: Version,
    sender: AccountAddress,
    sequence_number: u64,
) -> Result<(), VerifyError> {
    if !(t.transaction is UserTransaction) {
        Err(VerifyError::NotUserTransaction)
    } else if t.version != version {
        Err(VerifyError::VersionMismatch)
    } else if t.transaction->UserTransaction_0.raw_txn.sender != sender {
        Err(VerifyError::SenderMismatch)
    } else if t.transaction->UserTransaction_0.raw_txn.sequence_number != sequence_number {
        Err(VerifyError::SequenceNumberMismatch)
    } else if t.transaction.spec_hash() != t.proof.transaction_info.transaction_hash@ {
        Err(VerifyError::TransactionHashMismatch)
    } else if t.events is Some && !events_match(t.events->Some_0@, t.proof.transaction_info) {
        Err(VerifyError::EventRootMismatch)
    } else {
        info_check(t.proof, ledger_info, version)
    }
}

impl TransactionWithProof {
    pub fn new(
        version: Version,
        transaction: Transaction,
        events: Option<Vec<ContractEvent>>,
        proof: TransactionInfoWithProof,
    ) -> (r: Self)
        ensures
            r == (TransactionWithProof { version, transaction, events, proof }),
    {
        TransactionWithProof { version, transaction, events, proof }
    }

    /// Verifies the transaction with the proof, both carried by `self`.
    pub fn verify_user_txn(
        &self,
        ledger_info: &LedgerInfo,
        version: Version,
        sender: AccountAddress,
        sequence_number: u64,
    ) -> (r: Result<(), VerifyError>)
        ensures
            r == user_txn_check(*self, *ledger_info, version, sender, sequence_number),
    {
        let signed_transaction = match self.transaction.as_signed_user_txn() {
            Some(txn) => txn,
            None => {
                return Err(VerifyError::NotUserTransaction);
            },
        };
        if self.version != version {
            return Err(VerifyError::VersionMismatch);
        }
        if signed_transaction.sender() != sender {
            return Err(VerifyError::SenderMismatch);
        }
        if signed_transaction.sequence_number() != sequence_number {
            return Err(VerifyError::SequenceNumberMismatch);
        }
        let txn_hash = self.transaction.hash();
        if txn_hash != self.proof.transaction_info.transaction_hash {
            return Err(VerifyError::TransactionHashMismatch);
        }
        match &self.events {
            Some(events) => {
                match verify_events_against_root_hash(events.as_slice(), &self.proof.transaction_info) {
                    Ok(_) => {},
                    Err(e) => {
                        return Err(e);
                    },
                }
            },
            None => {},
        }
        self.proof.verify(ledger_info, version)
    }
}

/// The output of executing a transaction.
#[derive(Debug, PartialEq, Eq)]
pub struct TransactionOutput {
    /// The list of writes this transaction intends to do.
    pub write_set: WriteSet,
    /// The list of events emitted during this transaction.
    pub events: Vec<ContractEvent>,
    /// The amount of gas used during execution.
    pub gas_used: u64,
    /// The execution status.
    pub status: TransactionStatus,
}

impl TransactionOutput {
    pub fn new(
        write_set: WriteSet,
        events: Vec<ContractEvent>,
        gas_used: u64,
        status: TransactionStatus,
    ) -> (r: Self)
        ensures
            r == (TransactionOutput { write_set, events, gas_used, status }),
    {
        TransactionOutput { write_set, events, gas_used, status }
    }

    /// The writes and the events of the output.
    pub fn into(self) -> (r: (WriteSet, Vec<ContractEvent>))
        ensures
            r.0 == self.write_set,
            r.1 == self.events,
    {
        (self.write_set, self.events)
    }

    pub fn write_set(&self) -> (r: &WriteSet)
        ensures
            *r == self.write_set,
    {
        &self.write_set
    }

    pub fn events(&self) -> (r: &[ContractEvent])
        ensures
            r@ == self.events@,
    {
        self.events.as_slice()
    }

    pub fn gas_used(&self) -> (r: u64)
        ensures
            r == self.gas_used,
    {
        self.gas_used
    }

    pub fn status(&self) -> (r: &TransactionStatus)
        ensures
            *r == self.status,
    {
        &self.status
    }
}

/// The state of an account after a transaction, as bytes.
#[derive(Debug, PartialEq, Eq)]
pub struct AccountStateEntry {
    pub address: AccountAddress,
    pub blob: Vec<u8>,
}

/// The hash of a node of the state tree that a transaction wrote.
#[derive(Debug, PartialEq, Eq)]
pub struct NodeHashEntry {
    pub nibble_path: crate::jellyfish_merkle::nibble::NibblePath,
    pub hash: HashValue,
}

/// A transaction with all that is written to the ledger for it.
#[derive(Debug, PartialEq, Eq)]
pub struct TransactionToCommit {
    pub transaction: Transaction,
    pub account_states: Vec<AccountStateEntry>,
    pub jf_node_hashes: Option<Vec<NodeHashEntry>>,
    pub write_set: WriteSet,
    pub events: Vec<ContractEvent>,
    pub gas_used: u64,
    pub status: KeptVMStatus,
}

impl TransactionToCommit {
    pub fn new(
        transaction: Transaction,
        account_states: Vec<AccountStateEntry>,
        jf_node_hashes: Option<Vec<NodeHashEntry>>,
        write_set: WriteSet,
        events: Vec<ContractEvent>,
        gas_used: u64,
        status: KeptVMStatus,
    ) -> (r: Self)
        ensures
            r == (TransactionToCommit {
                transaction,
                account_states,
                jf_node_hashes,
                write_set,
                events,
                gas_used,
                status,
            }),
    {
        TransactionToCommit {
            transaction,
            account_states,
            jf_node_hashes,
            write_set,
            events,
            gas_used,
            status,
        }
    }

    pub fn transaction(&self) -> (r: &Transaction)
        ensures
            *r == self.transaction,
    {
        &self.transaction
    }

    pub fn account_states(&self) -> (r: &Vec<AccountStateEntry>)
        ensures
            *r == self.account_states,
    {
        &self.account_states
    }

    pub fn jf_node_hashes(&self) -> (r: Option<&Vec<NodeHashEntry>>)
        ensures
            r is Some <==> self.jf_node_hashes is Some,
            r is Some ==> *r->Some_0 == self.jf_node_hashes->Some_0,
    {
        match &self.jf_node_hashes {
            Some(hashes) => Some(hashes),
            None => None,
        }
    }

    pub fn write_set(&self) -> (r: &WriteSet)
        ensures
            *r == self.write_set,
    {
        &self.write_set
    }

    pub fn events(&self) -> (r: &[ContractEvent])
        ensures
            r@ == self.events@,
    {
        self.events.as_slice()
    }

    pub fn gas_used(&self) -> (r: u64)
        ensures
            r == self.gas_used,
    {
        self.gas_used
    }

    pub fn status(&self) -> (r: &KeptVMStatus)
        ensures
            *r == self.status,
    {
        &self.status
    }
}

/// Whether the hash of each transaction is the one in the info at its
/// place.
pub open spec fn hashes_match(transactions: Seq<Transaction>, infos: Seq<TransactionInfo>) -> bool {
    forall|i: int|
        0 <= i < transactions.len() ==> (#[trigger] transactions[i]).spec_hash()
            == infos[i].transaction_hash@
}

/// Whether each list of events is that of the info at its place.
pub open spec fn event_lists_match(
    event_lists: Seq<Vec<ContractEvent>>,
    infos: Seq<TransactionInfo>,
) -> bool {
    forall|i: int| 0 <= i < event_lists.len() ==> events_match((#[trigger] event_lists[i])@, infos[i])
}

/// A run of transactions with the proof that they stand in the ledger one
/// behind the other, and with their events where they were asked for.
#[derive(Debug, PartialEq, Eq)]
pub struct TransactionListWithProof {
    pub transactions: Vec<Transaction>,
    pub events: Option<Vec<Vec<ContractEvent>>>,
    pub first_transaction_version: Option<Version>,
    pub proof: TransactionInfoListWithProof,
}

/// What the check of a list of transactions with its proof gives. The first
/// version is the expected one; there is one info for each transaction; the
/// hash of each transaction is the one in its info; the infos stand in the
/// ledger from the first version on; and where events are there, there is
/// one list for each transaction, with the events of its info.
pub open spec fn list_check(
    l: TransactionListWithProof,
    ledger_info: LedgerInfo,
    first_transaction_version: Option<Version>,
) -> Result<(), VerifyError> {
    if l.first_transaction_version != first_transaction_version {
        Err(VerifyError::FirstVersionMismatch)
    } else if l.proof.transaction_infos@.len() != l.transactions@.len() {
        Err(VerifyError::InfoCountMismatch)
    } else if !hashes_match(l.transactions@, l.proof.transaction_infos@) {
        Err(VerifyError::TransactionHashMismatch)
    } else {
        match info_list_check(l.proof, ledger_info, l.first_transaction_version) {
            Err(e) => Err(e),
            Ok(_) => match l.events {
                None => Ok(()),
                Some(event_lists) => if event_lists@.len() != l.transactions@.len() {
                    Err(VerifyError::EventListCountMismatch)
                } else if !event_lists_match(event_lists@, l.proof.transaction_infos@) {
                    Err(VerifyError::EventRootMismatch)
                } else {
                    Ok(())
                },
            },
        }
    }
}

/// Checks the hash of each transaction against the info at its place.
fn verify_hashes(transactions: &Vec<Transaction>, infos: &Vec<TransactionInfo>) -> (r: bool)
    requires
        transactions@.len() == infos@.len(),
    ensures
        r == hashes_match(transactions@, infos@),
{
    let mut i: usize = 0;
    while i < transactions.len()
        invariant
            i <= transactions.len(),
            transactions@.len() == infos@.len(),
            forall|j: int|
                0 <= j < i ==> (#[trigger] transactions@[j]).spec_hash()
                    == infos@[j].transaction_hash@,
        decreases transactions.len() - i,
    {
        let txn_hash = transactions[i].hash();
        if txn_hash != infos[i].transaction_hash {
            assert(transactions@[i as int].spec_hash() != infos@[i as int].transaction_hash@);
            return false;
        }
        i += 1;
    }
    true
}

/// Checks the events of each output against the info at its place.
fn verify_outputs(outputs: &Vec<TransactionOutput>, infos: &Vec<TransactionInfo>) -> (r: bool)
    requires
        outputs@.len() == infos@.len(),
    ensures
        r == outputs_match(outputs@, infos@),
{
    let mut i: usize = 0;
    while i < outputs.len()
        invariant
            i <= outputs.len(),
            outputs@.len() == infos@.len(),
            forall|j: int| 0 <= j < i ==> events_match((#[trigger] outputs@[j]).events@, infos@[j]),
        decreases outputs.len() - i,
    {
        if verify_events_against_root_hash(outputs[i].events.as_slice(), &infos[i]).is_err() {
            assert(!events_match(outputs@[i as int].events@, infos@[i as int]));
            return false;
        }
        i += 1;
    }
    true
}

/// Checks each list of events against the info at its place.
fn verify_event_lists(event_lists: &Vec<Vec<ContractEvent>>, infos: &Vec<TransactionInfo>) -> (r:
    bool)
    requires
        event_lists@.len() == infos@.len(),
    ensures
        r == event_lists_match(event_lists@, infos@),
{
    let mut i: usize = 0;
    while i < event_lists.len()
        invariant
            i <= event_lists.len(),
            event_lists@.len() == infos@.len(),
            forall|j: int| 0 <= j < i ==> events_match((#[trigger] event_lists@[j])@, infos@[j]),
        decreases event_lists.len() - i,
    {
        if verify_events_against_root_hash(event_lists[i].as_slice(), &infos[i]).is_err() {
            assert(!events_match(event_lists@[i as int]@, infos@[i as int]));
            return false;
        }
        i += 1;
    }
    true
}

impl TransactionListWithProof {
    /// Constructor.
    pub fn new(
        transactions: Vec<Transaction>,
        events: Option<Vec<Vec<ContractEvent>>>,
        first_transaction_version: Option<Version>,
        proof: TransactionInfoListWithProof,
    ) -> (r: Self)
        ensures
            r == (TransactionListWithProof { transactions, events, first_transaction_version, proof }),
    {
        TransactionListWithProof { transactions, events, first_transaction_version, proof }
    }

    /// The empty list with the empty proof.
    pub fn new_empty() -> (r: Self)
        ensures
            r.is_empty_list(),
            forall|ledger_info: LedgerInfo| list_check(r, ledger_info, None) == Ok::<(), VerifyError>(()),
    {
        let r = TransactionListWithProof {
            transactions: Vec::new(),
            events: None,
            first_transaction_version: None,
            proof: TransactionInfoListWithProof::new_empty(),
        };
        proof {
            assert forall|ledger_info: LedgerInfo| list_check(r, ledger_info, None) == Ok::<
                (),
                VerifyError,
            >(()) by {
                lemma_empty_list_verifies(r, ledger_info);
            }
        }
        r
    }

    /// Whether the list is the empty list with the empty proof: no
    /// transaction, no events, no first version, no info and no sibling.
    pub open spec fn is_empty_list(&self) -> bool {
        &&& self.transactions@.len() == 0
        &&& self.events is None
        &&& self.first_transaction_version is None
        &&& self.proof.transaction_infos@.len() == 0
        &&& self.proof.ledger_info_to_transaction_infos_proof.left_siblings@.len() == 0
        &&& self.proof.ledger_info_to_transaction_infos_proof.right_siblings@.len() == 0
    }

    /// Verifies the transaction list with proof using the given
    /// `ledger_info`.
    pub fn verify(&self, ledger_info: &LedgerInfo, first_transaction_version: Option<Version>) -> (r:
        Result<(), VerifyError>)
        ensures
            r == list_check(*self, *ledger_info, first_transaction_version),
    {
        let same_first = match (self.first_transaction_version, first_transaction_version) {
            (Some(a), Some(b)) => a == b,
            (None, None) => true,
            _ => false,
        };
        if !same_first {
            return Err(VerifyError::FirstVersionMismatch);
        }
        if self.proof.transaction_infos.len() != self.transactions.len() {
            return Err(VerifyError::InfoCountMismatch);
        }
        if !verify_hashes(&self.transactions, &self.proof.transaction_infos) {
            return Err(VerifyError::TransactionHashMismatch);
        }
        match self.proof.verify(ledger_info, self.first_transaction_version) {
            Ok(_) => {},
            Err(e) => {
                return Err(e);
            },
        }
        match &self.events {
            Some(event_lists) => {
                if event_lists.len() != self.transactions.len() {
                    return Err(VerifyError::EventListCountMismatch);
                }
                if !verify_event_lists(event_lists, &self.proof.transaction_infos) {
                    return Err(VerifyError::EventRootMismatch);
                }
            },
            None => {},
        }
        Ok(())
    }
}

/// The empty list of transactions with the empty proof is accepted for no
/// first version, whatever the ledger info.
pub proof fn lemma_empty_list_verifies(l: TransactionListWithProof, ledger_info: LedgerInfo)
    requires
        l.is_empty_list(),
    ensures
        list_check(l, ledger_info, None) == Ok::<(), VerifyError>(()),
{
    assert(info_hashes(l.proof.transaction_infos@).len() == 0);
    assert(hash_views(l.proof.ledger_info_to_transaction_infos_proof.left_siblings@).len() == 0);
    assert(hash_views(l.proof.ledger_info_to_transaction_infos_proof.right_siblings@).len() == 0);
}

/// Whether the events of each output are those of the info at its place.
pub open spec fn outputs_match(outputs: Seq<TransactionOutput>, infos: Seq<TransactionInfo>) -> bool {
    forall|i: int| 0 <= i < outputs.len() ==> events_match((#[trigger] outputs[i]).events@, infos[i])
}

/// A run of outputs with the proof that their infos stand in the ledger one
/// behind the other. The proof says nothing of the outputs themselves but
/// that their events are those of the infos.
#[derive(Debug, PartialEq, Eq)]
pub struct TransactionOutputListWithProof {
    pub transaction_outputs: Vec<TransactionOutput>,
    pub first_transaction_output_version: Option<Version>,
    pub proof: TransactionInfoListWithProof,
}

/// What the check of a list of outputs with its proof gives. The first
/// version is the expected one; the infos stand in the ledger from the first
/// version on; there is one info for each output; and the events of each
/// output are those of its info.
pub open spec fn output_list_check(
    l: TransactionOutputListWithProof,
    ledger_info: LedgerInfo,
    first_transaction_output_version: Option<Version>,
) -> Result<(), VerifyError> {
    if l.first_transaction_output_version != first_transaction_output_version {
        Err(VerifyError::FirstVersionMismatch)
    } else {
        match info_list_check(l.proof, ledger_info, l.first_transaction_output_version) {
            Err(e) => Err(e),
            Ok(_) => if l.proof.transaction_infos@.len() != l.transaction_outputs@.len() {
                Err(VerifyError::InfoCountMismatch)
            } else if !outputs_match(l.transaction_outputs@, l.proof.transaction_infos@) {
                Err(VerifyError::EventRootMismatch)
            } else {
                Ok(())
            },
        }
    }
}

impl TransactionOutputListWithProof {
    pub fn new(
        transaction_outputs: Vec<TransactionOutput>,
        first_transaction_output_version: Option<Version>,
        proof: TransactionInfoListWithProof,
    ) -> (r: Self)
        ensures
            r == (TransactionOutputListWithProof {
                transaction_outputs,
                first_transaction_output_version,
                proof,
            }),
    {
        TransactionOutputListWithProof { transaction_outputs, first_transaction_output_version, proof }
    }

    /// The empty list with the empty proof.
    pub fn new_empty() -> (r: Self)
        ensures
            r.transaction_outputs@.len() == 0,
            r.first_transaction_output_version is None,
            r.proof.transaction_infos@.len() == 0,
            r.proof.ledger_info_to_transaction_infos_proof.left_siblings@.len() == 0,
            r.proof.ledger_info_to_transaction_infos_proof.right_siblings@.len() == 0,
    {
        TransactionOutputListWithProof {
            transaction_outputs: Vec::new(),
            first_transaction_output_version: None,
            proof: TransactionInfoListWithProof::new_empty(),
        }
    }

    /// Verifies the transaction output list with proof using the given
    /// `ledger_info`.
    pub fn verify(
        &self,
        ledger_info: &LedgerInfo,
        first_transaction_output_version: Option<Version>,
    ) -> (r: Result<(), VerifyError>)
        ensures
            r == output_list_check(*self, *ledger_info, first_transaction_output_version),
    {
        let same_first = match (
            self.first_transaction_output_version,
            first_transaction_output_version,
        ) {
            (Some(a), Some(b)) => a == b,
            (None, None) => true,
            _ => false,
        };
        if !same_first {
            return Err(VerifyError::FirstVersionMismatch);
        }
        match self.proof.verify(ledger_info, self.first_transaction_output_version) {
            Ok(_) => {},
            Err(e) => {
                return Err(e);
            },
        }
        if self.proof.transaction_infos.len() != self.transaction_outputs.len() {
            return Err(VerifyError::InfoCountMismatch);
        }
        if !verify_outputs(&self.transaction_outputs, &self.proof.transaction_infos) {
            return Err(VerifyError::EventRootMismatch);
        }
        Ok(())
    }
}

/// A list of transactions of one account, with their proofs, one behind the
/// other by sequence number.
#[derive(Debug, PartialEq, Eq)]
pub struct AccountTransactionsWithProof(pub Vec<TransactionWithProof>);

/// `start + offset`, and the largest number where that is too large.
pub open spec fn expected_seq_num(start: u64, offset: int) -> u64 {
    if start + offset > u64::MAX {
        u64::MAX
    } else {
        (start + offset) as u64
    }
}

/// What the check of the transaction at the place `i` of an account's list
/// gives. Its events are there if and only if they were asked for; its
/// version is no newer than the one that was asked for; and it is a user
/// transaction of the account, with the sequence number at its place, that
/// stands in the ledger at its version.
pub open spec fn account_item_check(
    t: TransactionWithProof,
    i: int,
    ledger_info: LedgerInfo,
    account: AccountAddress,
    start_seq_num: u64,
    include_events: bool,
    ledger_version: Version,
) -> Result<(), VerifyError> {
    if include_events != (t.events is Some) {
        Err(VerifyError::UnexpectedOrMissingEvents)
    } else if t.version > ledger_version {
        Err(VerifyError::VersionNewerThanRequested)
    } else {
        user_txn_check(t, ledger_info, t.version, account, expected_seq_num(start_seq_num, i))
    }
}

/// What the checks of the transactions from the place `i` on give: the
/// reason of the first that fails.
pub open spec fn account_items_check(
    items: Seq<TransactionWithProof>,
    i: int,
    ledger_info: LedgerInfo,
    account: AccountAddress,
    start_seq_num: u64,
    include_events: bool,
    ledger_version: Version,
) -> Result<(), VerifyError>
    decreases items.len() - i,
{
    if i < 0 || i >= items.len() {
        Ok(())
    } else {
        match account_item_check(
            items[i],
            i,
            ledger_info,
            account,
            start_seq_num,
            include_events,
            ledger_version,
        ) {
            Err(e) => Err(e),
            Ok(_) => account_items_check(
                items,
                i + 1,
                ledger_info,
                account,
                start_seq_num,
                include_events,
                ledger_version,
            ),
        }
    }
}

/// What the check of an account's list of transactions gives: there are no
/// more transactions than were asked for, and each is accepted at its
/// place.
pub open spec fn account_check(
    items: Seq<TransactionWithProof>,
    ledger_info: LedgerInfo,
    account: AccountAddress,
    start_seq_num: u64,
    limit: u64,
    include_events: bool,
    ledger_version: Version,
) -> Result<(), VerifyError> {
    if items.len() > limit {
        Err(VerifyError::TooManyTransactions)
    } else {
        account_items_check(
            items,
            0,
            ledger_info,
            account,
            start_seq_num,
            include_events,
            ledger_version,
        )
    }
}

impl AccountTransactionsWithProof {
    pub fn new(txns_with_proofs: Vec<TransactionWithProof>) -> (r: Self)
        ensures
            r.0 == txns_with_proofs,
    {
        AccountTransactionsWithProof(txns_with_proofs)
    }

    pub fn new_empty() -> (r: Self)
        ensures
            r.0@.len() == 0,
    {
        AccountTransactionsWithProof(Vec::new())
    }

    pub fn is_empty(&self) -> (r: bool)
        ensures
            r == (self.0@.len() == 0),
    {
        self.0.len() == 0
    }

    pub fn len(&self) -> (r: usize)
        ensures
            r == self.0@.len(),
    {
        self.0.len()
    }

    pub fn inner(&self) -> (r: &[TransactionWithProof])
        ensures
            r@ == self.0@,
    {
        self.0.as_slice()
    }

    pub fn into_inner(self) -> (r: Vec<TransactionWithProof>)
        ensures
            r == self.0,
    {
        self.0
    }

    /// Verifies the transactions of an account: they are consistent with
    /// the ledger info, were sent by `account`, follow one another by
    /// sequence number from `start_seq_num` on, are no more than `limit`,
    /// come with events if and only if `include_events`, and are no newer
    /// than `ledger_version`.
    pub fn verify(
        &self,
        ledger_info: &LedgerInfo,
        account: AccountAddress,
        start_seq_num: u64,
        limit: u64,
        include_events: bool,
        ledger_version: Version,
    ) -> (r: Result<(), VerifyError>)
        ensures
            r == account_check(
                self.0@,
                *ledger_info,
                account,
                start_seq_num,
                limit,
                include_events,
                ledger_version,
            ),
    {
        if self.0.len() as u64 > limit {
            return Err(VerifyError::TooManyTransactions);
        }
        let ghost goal = account_items_check(
            self.0@,
            0,
            *ledger_info,
            account,
            start_seq_num,
            include_events,
            ledger_version,
        );
        let mut i: usize = 0;
        while i < self.0.len()
            invariant
                i <= self.0.len(),
                self.0@.len() <= limit,
                goal == account_items_check(
                    self.0@,
                    0,
                    *ledger_info,
                    account,
                    start_seq_num,
                    include_events,
                    ledger_version,
                ),
                goal == account_items_check(
                    self.0@,
                    i as int,
                    *ledger_info,
                    account,
                    start_seq_num,
                    include_events,
                    ledger_version,
                ),
            decreases self.0.len() - i,
        {
            let txn_with_proof = &self.0[i];
            let expected = start_seq_num.saturating_add(i as u64);
            let txn_version = txn_with_proof.version;
            if include_events != txn_with_proof.events.is_some() {
                return Err(VerifyError::UnexpectedOrMissingEvents);
            }
            if txn_version > ledger_version {
                return Err(VerifyError::VersionNewerThanRequested);
            }
            match txn_with_proof.verify_user_txn(ledger_info, txn_version, account, expected) {
                Ok(_) => {},
                Err(e) => {
                    return Err(e);
                },
            }
            i += 1;
        }
        Ok(())
    }
}

} // verus!
