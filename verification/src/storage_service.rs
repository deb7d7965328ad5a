//! The server side of the storage service: it answers requests for chunks of
//! ledger data out of a storage reader.

use crate::hash::HashValue;
use crate::transaction::with_proof::{
    AccountStateEntry, LedgerInfo, TransactionListWithProof, TransactionOutputListWithProof,
};
use crate::transaction::Version;
use vstd::prelude::*;

verus! {

/// The most epoch ending ledger infos in one answer.
pub const MAX_EPOCH_CHUNK_SIZE: u64 = 1000;

/// The most transactions in one answer.
pub const MAX_TRANSACTION_CHUNK_SIZE: u64 = 1000;

/// The most transaction outputs in one answer.
pub const MAX_TRANSACTION_OUTPUT_CHUNK_SIZE: u64 = 1000;

/// The most account states in one answer.
pub const MAX_ACCOUNT_STATES_CHUNK_SIZE: u64 = 1000;

/// The version of the protocol that the server speaks.
pub const STORAGE_SERVER_VERSION: u64 = 1;

/// What can go wrong while a request is answered.
#[derive(Debug, PartialEq, Eq)]
pub enum Error {
    StorageErrorEncountered(String),
    UnexpectedErrorEncountered(String),
}

/// The error that a client gets to see.
#[derive(Clone, Copy, Debug, PartialEq, Eq, Structural)]
pub enum StorageServiceError {
    InternalError,
}

/// A request for a chunk of account states.
#[derive(Clone, Copy, Debug, PartialEq, Eq)]
pub struct AccountStatesChunkWithProofRequest {
    pub version: u64,
    pub start_account_key: HashValue,
    pub expected_num_account_states: u64,
}

/// A request for epoch ending ledger infos.
#[derive(Clone, Copy, Debug, PartialEq, Eq, Structural)]
pub struct EpochEndingLedgerInfoRequest {
    pub start_epoch: u64,
    pub expected_end_epoch: u64,
}

/// A request for transaction outputs.
#[derive(Clone, Copy, Debug, PartialEq, Eq, Structural)]
pub struct TransactionOutputsWithProofRequest {
    pub proof_version: u64,
    pub start_version: u64,
    pub expected_num_outputs: u64,
}

/// A request for transactions.
#[derive(Clone, Copy, Debug, PartialEq, Eq, Structural)]
pub struct TransactionsWithProofRequest {
    pub proof_version: u64,
    pub start_version: u64,
    pub expected_num_transactions: u64,
    pub include_events: bool,
}

/// A request to the storage service.
#[derive(Clone, Copy, Debug, PartialEq, Eq)]
pub enum StorageServiceRequest {
    GetAccountStatesChunkWithProof(AccountStatesChunkWithProofRequest),
    GetEpochEndingLedgerInfos(EpochEndingLedgerInfoRequest),
    GetNumberOfAccountsAtVersion(Version),
    GetServerProtocolVersion,
    GetStorageServerSummary,
    GetTransactionOutputsWithProof(TransactionOutputsWithProofRequest),
    GetTransactionsWithProof(TransactionsWithProofRequest),
}

/// A run of versions or epochs that the server holds whole, both ends
/// included.
#[derive(Clone, Copy, Debug, PartialEq, Eq, Structural)]
pub struct CompleteDataRange {
    pub lowest: u64,
    pub highest: u64,
}

impl CompleteDataRange {
    pub fn new(lowest: u64, highest: u64) -> (r: Self)
        ensures
            r == (CompleteDataRange { lowest, highest }),
    {
        CompleteDataRange { lowest, highest }
    }
}

/// What the server holds.
#[derive(Clone, Copy, Debug, PartialEq, Eq)]
pub struct DataSummary {
    pub synced_ledger_info: LedgerInfo,
    pub epoch_ending_ledger_infos: CompleteDataRange,
    pub transactions: CompleteDataRange,
    pub transaction_outputs: CompleteDataRange,
    pub account_states: CompleteDataRange,
}

/// The limits of the protocol.
#[derive(Clone, Copy, Debug, PartialEq, Eq, Structural)]
pub struct ProtocolMetadata {
    pub max_epoch_chunk_size: u64,
    pub max_transaction_chunk_size: u64,
    pub max_transaction_output_chunk_size: u64,
    pub max_account_states_chunk_size: u64,
}

/// The version of the protocol.
#[derive(Clone, Copy, Debug, PartialEq, Eq, Structural)]
pub struct ServerProtocolVersion {
    pub protocol_version: u64,
}

/// The limits of the protocol and what the server holds.
#[derive(Clone, Copy, Debug, PartialEq, Eq)]
pub struct StorageServerSummary {
    pub protocol_metadata: ProtocolMetadata,
    pub data_summary: DataSummary,
}

/// Ledger infos that end epochs, one behind the other.
#[derive(Debug, PartialEq, Eq)]
pub struct EpochChangeProof {
    pub ledger_infos: Vec<LedgerInfo>,
    pub more: bool,
}

/// A chunk of account states with the hashes that prove it.
#[derive(Debug, PartialEq, Eq)]
pub struct AccountStatesChunkWithProof {
    pub first_index: u64,
    pub last_index: u64,
    pub account_blobs: Vec<AccountStateEntry>,
    pub proof: Vec<HashValue>,
}

/// An answer of the storage service.
#[derive(Debug, PartialEq, Eq)]
pub enum StorageServiceResponse {
    AccountStatesChunkWithProof(AccountStatesChunkWithProof),
    EpochEndingLedgerInfos(EpochChangeProof),
    NumberOfAccountsAtVersion(u64),
    ServerProtocolVersion(ServerProtocolVersion),
    StorageServerSummary(StorageServerSummary),
    StorageServiceError(StorageServiceError),
    TransactionOutputsWithProof(TransactionOutputListWithProof),
    TransactionsWithProof(TransactionListWithProof),
}

/// The interface into local storage that the server answers requests from.
pub trait StorageReaderInterface {
    /// Returns a data summary of the underlying storage state.
    fn get_data_summary(&self) -> Result<DataSummary, Error>;

    /// Returns a list of transactions with a proof relative to the
    /// `proof_version`. The list holds at most `expected_num_transactions`
    /// and starts at `start_version`. If `include_events` is true, events
    /// are also returned.
    fn get_transactions_with_proof(
        &self,
        proof_version: u64,
        start_version: u64,
        expected_num_transactions: u64,
        include_events: bool,
    ) -> Result<TransactionListWithProof, Error>;

    /// Returns a list of epoch ending ledger infos, starting at
    /// `start_epoch` and ending at most at the `expected_end_epoch`.
    fn get_epoch_ending_ledger_infos(&self, start_epoch: u64, expected_end_epoch: u64) -> Result<
        EpochChangeProof,
        Error,
    >;

    /// Returns a list of transaction outputs with a proof relative to the
    /// `proof_version`. The list holds at most
    /// `expected_num_transaction_outputs` and starts at `start_version`.
    fn get_transaction_outputs_with_proof(
        &self,
        proof_version: u64,
        start_version: u64,
        expected_num_transaction_outputs: u64,
    ) -> Result<TransactionOutputListWithProof, Error>;

    /// Returns the number of accounts in the account state tree at the
    /// specified version.
    fn get_number_of_accounts(&self, version: u64) -> Result<u64, Error>;

    /// Returns a chunk holding a list of account states starting at the
    /// specified account key with at most `expected_num_account_states`.
    fn get_account_states_chunk_with_proof(
        &self,
        version: u64,
        start_account_key: HashValue,
        expected_num_account_states: u64,
    ) -> Result<AccountStatesChunkWithProof, Error>;
}

/// The limits of the protocol that the server speaks.
pub open spec fn protocol_metadata() -> ProtocolMetadata {
    ProtocolMetadata {
        max_epoch_chunk_size: MAX_EPOCH_CHUNK_SIZE,
        max_transaction_chunk_size: MAX_TRANSACTION_CHUNK_SIZE,
        max_transaction_output_chunk_size: MAX_TRANSACTION_OUTPUT_CHUNK_SIZE,
        max_account_states_chunk_size: MAX_ACCOUNT_STATES_CHUNK_SIZE,
    }
}

/// Whether a response is of the kind that answers the request.
pub open spec fn answers(request: StorageServiceRequest, response: StorageServiceResponse) -> bool {
    match request {
        StorageServiceRequest::GetAccountStatesChunkWithProof(_) => response
            is AccountStatesChunkWithProof,
        StorageServiceRequest::GetEpochEndingLedgerInfos(_) => response is EpochEndingLedgerInfos,
        StorageServiceRequest::GetNumberOfAccountsAtVersion(_) => response
            is NumberOfAccountsAtVersion,
        StorageServiceRequest::GetServerProtocolVersion => response
            == StorageServiceResponse::ServerProtocolVersion(
            ServerProtocolVersion { protocol_version: STORAGE_SERVER_VERSION },
        ),
        StorageServiceRequest::GetStorageServerSummary => response is StorageServerSummary
            && response->StorageServerSummary_0.protocol_metadata == protocol_metadata(),
        StorageServiceRequest::GetTransactionOutputsWithProof(_) => response
            is TransactionOutputsWithProof,
        StorageServiceRequest::GetTransactionsWithProof(_) => response is TransactionsWithProof,
    }
}

/// What a client gets for what the server came up with: the response, or the
/// internal error for any error.
pub open spec fn collapsed(response: Result<StorageServiceResponse, Error>) -> StorageServiceResponse {
    match response {
        Ok(r) => r,
        Err(_) => StorageServiceResponse::StorageServiceError(StorageServiceError::InternalError),
    }
}

/// Collapses any error into the internal error that a client gets to see.
pub fn collapse(response: Result<StorageServiceResponse, Error>) -> (r: Result<
    StorageServiceResponse,
    Error,
>)
    ensures
        r == Ok::<StorageServiceResponse, Error>(collapsed(response)),
{
    match response {
        Ok(r) => Ok(r),
        Err(_) => Ok(StorageServiceResponse::StorageServiceError(StorageServiceError::InternalError)),
    }
}

/// The answer to a request for a chunk of account states.
pub fn account_states_response(chunk: Result<AccountStatesChunkWithProof, Error>) -> (r: Result<
    StorageServiceResponse,
    Error,
>)
    ensures
        r == match chunk {
            Ok(chunk) => Ok::<StorageServiceResponse, Error>(
                StorageServiceResponse::AccountStatesChunkWithProof(chunk),
            ),
            Err(e) => Err::<StorageServiceResponse, Error>(e),
        },
{
    match chunk {
        Ok(chunk) => Ok(StorageServiceResponse::AccountStatesChunkWithProof(chunk)),
        Err(e) => Err(e),
    }
}

/// The answer to a request for epoch ending ledger infos.
pub fn epoch_ending_response(epoch_change_proof: Result<EpochChangeProof, Error>) -> (r: Result<
    StorageServiceResponse,
    Error,
>)
    ensures
        r == match epoch_change_proof {
            Ok(p) => Ok::<StorageServiceResponse, Error>(
                StorageServiceResponse::EpochEndingLedgerInfos(p),
            ),
            Err(e) => Err::<StorageServiceResponse, Error>(e),
        },
{
    match epoch_change_proof {
        Ok(p) => Ok(StorageServiceResponse::EpochEndingLedgerInfos(p)),
        Err(e) => Err(e),
    }
}

/// The answer to a request for transaction outputs.
pub fn transaction_outputs_response(list: Result<TransactionOutputListWithProof, Error>) -> (r:
    Result<StorageServiceResponse, Error>)
    ensures
        r == match list {
            Ok(l) => Ok::<StorageServiceResponse, Error>(
                StorageServiceResponse::TransactionOutputsWithProof(l),
            ),
            Err(e) => Err::<StorageServiceResponse, Error>(e),
        },
{
    match list {
        Ok(l) => Ok(StorageServiceResponse::TransactionOutputsWithProof(l)),
        Err(e) => Err(e),
    }
}

/// The answer to a request for transactions.
pub fn transactions_response(list: Result<TransactionListWithProof, Error>) -> (r: Result<
    StorageServiceResponse,
    Error,
>)
    ensures
        r == match list {
            Ok(l) => Ok::<StorageServiceResponse, Error>(
                StorageServiceResponse::TransactionsWithProof(l),
            ),
            Err(e) => Err::<StorageServiceResponse, Error>(e),
        },
{
    match list {
        Ok(l) => Ok(StorageServiceResponse::TransactionsWithProof(l)),
        Err(e) => Err(e),
    }
}

/// The answer to a request for the number of accounts.
pub fn number_of_accounts_response(number_of_accounts: Result<u64, Error>) -> (r: Result<
    StorageServiceResponse,
    Error,
>)
    ensures
        r == match number_of_accounts {
            Ok(n) => Ok::<StorageServiceResponse, Error>(
                StorageServiceResponse::NumberOfAccountsAtVersion(n),
            ),
            Err(e) => Err::<StorageServiceResponse, Error>(e),
        },
{
    match number_of_accounts {
        Ok(n) => Ok(StorageServiceResponse::NumberOfAccountsAtVersion(n)),
        Err(e) => Err(e),
    }
}

/// The answer to a request for the summary of the server.
pub fn storage_server_summary_response(data_summary: Result<DataSummary, Error>) -> (r: Result<
    StorageServiceResponse,
    Error,
>)
    ensures
        r == match data_summary {
            Ok(data_summary) => Ok::<StorageServiceResponse, Error>(
                StorageServiceResponse::StorageServerSummary(
                    StorageServerSummary { protocol_metadata: protocol_metadata(), data_summary },
                ),
            ),
            Err(e) => Err::<StorageServiceResponse, Error>(e),
        },
{
    match data_summary {
        Ok(data_summary) => Ok(
            StorageServiceResponse::StorageServerSummary(
                StorageServerSummary {
                    protocol_metadata: ProtocolMetadata {
                        max_epoch_chunk_size: MAX_EPOCH_CHUNK_SIZE,
                        max_transaction_chunk_size: MAX_TRANSACTION_CHUNK_SIZE,
                        max_transaction_output_chunk_size: MAX_TRANSACTION_OUTPUT_CHUNK_SIZE,
                        max_account_states_chunk_size: MAX_ACCOUNT_STATES_CHUNK_SIZE,
                    },
                    data_summary,
                },
            ),
        ),
        Err(e) => Err(e),
    }
}

/// What a server that holds everything since genesis holds, for the latest
/// ledger info of its storage. The epoch of that ledger info is not the
/// first.
pub fn data_summary_of(latest_ledger_info: LedgerInfo) -> (r: DataSummary)
    requires
        latest_ledger_info.epoch >= 1,
    ensures
        r == (DataSummary {
            synced_ledger_info: latest_ledger_info,
            epoch_ending_ledger_infos: CompleteDataRange {
                lowest: 0,
                highest: (latest_ledger_info.epoch - 1) as u64,
            },
            transactions: CompleteDataRange { lowest: 0, highest: latest_ledger_info.version },
            transaction_outputs: CompleteDataRange { lowest: 0, highest: latest_ledger_info.version },
            account_states: CompleteDataRange { lowest: 0, highest: latest_ledger_info.version },
        }),
{
    let latest_epoch = latest_ledger_info.epoch();
    let latest_version = latest_ledger_info.version();
    DataSummary {
        synced_ledger_info: latest_ledger_info,
        epoch_ending_ledger_infos: CompleteDataRange::new(0, latest_epoch - 1),
        transactions: CompleteDataRange::new(0, latest_version),
        transaction_outputs: CompleteDataRange::new(0, latest_version),
        account_states: CompleteDataRange::new(0, latest_version),
    }
}

/// Answers storage service requests out of `storage`.
pub struct StorageServiceServer<T> {
    pub storage: T,
}

impl<T: StorageReaderInterface> StorageServiceServer<T> {
    pub fn new(storage: T) -> (r: Self)
        ensures
            r.storage == storage,
    {
        Self { storage }
    }

    /// Answers a request. The answer is always a response: one of the kind
    /// that answers the request, or the internal error where the storage
    /// failed.
    pub fn handle_request(&self, request: StorageServiceRequest) -> (r: Result<
        StorageServiceResponse,
        Error,
    >)
        ensures
            r is Ok,
            answers(request, r->Ok_0) || r->Ok_0 == StorageServiceResponse::StorageServiceError(
                StorageServiceError::InternalError,
            ),
            request is GetServerProtocolVersion ==> answers(request, r->Ok_0),
    {
        let response = match request {
            StorageServiceRequest::GetAccountStatesChunkWithProof(request) => {
                self.get_account_states_chunk_with_proof(request)
            },
            StorageServiceRequest::GetEpochEndingLedgerInfos(request) => {
                self.get_epoch_ending_ledger_infos(request)
            },
            StorageServiceRequest::GetNumberOfAccountsAtVersion(version) => {
                self.get_number_of_accounts_at_version(version)
            },
            StorageServiceRequest::GetServerProtocolVersion => self.get_server_protocol_version(),
            StorageServiceRequest::GetStorageServerSummary => self.get_storage_server_summary(),
            StorageServiceRequest::GetTransactionOutputsWithProof(request) => {
                self.get_transaction_outputs_with_proof(request)
            },
            StorageServiceRequest::GetTransactionsWithProof(request) => {
                self.get_transactions_with_proof(request)
            },
        };
        collapse(response)
    }

    fn get_account_states_chunk_with_proof(&self, request: AccountStatesChunkWithProofRequest) -> (r:
        Result<StorageServiceResponse, Error>)
        ensures
            r is Ok ==> r->Ok_0 is AccountStatesChunkWithProof,
    {
        account_states_response(
            self.storage.get_account_states_chunk_with_proof(
                request.version,
                request.start_account_key,
                request.expected_num_account_states,
            ),
        )
    }

    fn get_epoch_ending_ledger_infos(&self, request: EpochEndingLedgerInfoRequest) -> (r: Result<
        StorageServiceResponse,
        Error,
    >)
        ensures
            r is Ok ==> r->Ok_0 is EpochEndingLedgerInfos,
    {
        epoch_ending_response(
            self.storage.get_epoch_ending_ledger_infos(
                request.start_epoch,
                request.expected_end_epoch,
            ),
        )
    }

    fn get_number_of_accounts_at_version(&self, version: Version) -> (r: Result<
        StorageServiceResponse,
        Error,
    >)
        ensures
            r is Ok ==> r->Ok_0 is NumberOfAccountsAtVersion,
    {
        number_of_accounts_response(self.storage.get_number_of_accounts(version))
    }

    fn get_server_protocol_version(&self) -> (r: Result<StorageServiceResponse, Error>)
        ensures
            r == Ok::<StorageServiceResponse, Error>(
                StorageServiceResponse::ServerProtocolVersion(
                    ServerProtocolVersion { protocol_version: STORAGE_SERVER_VERSION },
                ),
            ),
    {
        let server_protocol_version = ServerProtocolVersion {
            protocol_version: STORAGE_SERVER_VERSION,
        };
        Ok(StorageServiceResponse::ServerProtocolVersion(server_protocol_version))
    }

    fn get_storage_server_summary(&self) -> (r: Result<StorageServiceResponse, Error>)
        ensures
            r is Ok ==> r->Ok_0 is StorageServerSummary
                && r->Ok_0->StorageServerSummary_0.protocol_metadata == protocol_metadata(),
    {
        storage_server_summary_response(self.storage.get_data_summary())
    }

    fn get_transaction_outputs_with_proof(&self, request: TransactionOutputsWithProofRequest) -> (r:
        Result<StorageServiceResponse, Error>)
        ensures
            r is Ok ==> r->Ok_0 is TransactionOutputsWithProof,
    {
        transaction_outputs_response(
            self.storage.get_transaction_outputs_with_proof(
                request.proof_version,
                request.start_version,
                request.expected_num_outputs,
            ),
        )
    }

    fn get_transactions_with_proof(&self, request: TransactionsWithProofRequest) -> (r: Result<
        StorageServiceResponse,
        Error,
    >)
        ensures
            r is Ok ==> r->Ok_0 is TransactionsWithProof,
    {
        transactions_response(
            self.storage.get_transactions_with_proof(
                request.proof_version,
                request.start_version,
                request.expected_num_transactions,
                request.include_events,
            ),
        )
    }
}

} // verus!
