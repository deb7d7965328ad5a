use diem_core::execution_phase::{
    Block, ExecutedBlock, ExecutionError, ExecutionPhase, ExecutionRequest, StateComputeResult,
    StateComputer,
};
use diem_core::hash::HashValue;
use diem_core::spec_flatten::FlattenOptions;
use diem_core::storage_service::{
    data_summary_of, AccountStatesChunkWithProof, CompleteDataRange, DataSummary,
    EpochChangeProof, EpochEndingLedgerInfoRequest, Error, ProtocolMetadata,
    ServerProtocolVersion, StorageReaderInterface, StorageServerSummary, StorageServiceError,
    StorageServiceRequest, StorageServiceResponse, StorageServiceServer,
    TransactionOutputsWithProofRequest, TransactionsWithProofRequest,
};
use diem_core::transaction::with_proof::{
    LedgerInfo, TransactionListWithProof, TransactionOutputListWithProof,
};

struct Reader {
    broken: bool,
}

impl StorageReaderInterface for Reader {
    fn get_data_summary(&self) -> Result<DataSummary, Error> {
        if self.broken {
            return Err(Error::StorageErrorEncountered("down".to_string()));
        }
        Ok(data_summary_of(LedgerInfo::new(3, 100, HashValue::zero())))
    }

    fn get_transactions_with_proof(
        &self,
        _proof_version: u64,
        _start_version: u64,
        _expected_num_transactions: u64,
        _include_events: bool,
    ) -> Result<TransactionListWithProof, Error> {
        Ok(TransactionListWithProof::new_empty())
    }

    fn get_epoch_ending_ledger_infos(
        &self,
        start_epoch: u64,
        _expected_end_epoch: u64,
    ) -> Result<EpochChangeProof, Error> {
        Ok(EpochChangeProof {
            ledger_infos: vec![LedgerInfo::new(start_epoch, 1, HashValue::zero())],
            more: false,
        })
    }

    fn get_transaction_outputs_with_proof(
        &self,
        _proof_version: u64,
        _start_version: u64,
        _expected_num_transaction_outputs: u64,
    ) -> Result<TransactionOutputListWithProof, Error> {
        Err(Error::UnexpectedErrorEncountered(
            "The storage holds no outputs.".to_string(),
        ))
    }

    fn get_number_of_accounts(&self, version: u64) -> Result<u64, Error> {
        Ok(version + 1)
    }

    fn get_account_states_chunk_with_proof(
        &self,
        _version: u64,
        _start_account_key: HashValue,
        _expected_num_account_states: u64,
    ) -> Result<AccountStatesChunkWithProof, Error> {
        Err(Error::UnexpectedErrorEncountered("no".to_string()))
    }
}

#[test]
fn storage_service_answers() {
    let server = StorageServiceServer::new(Reader { broken: false });
    assert_eq!(
        server.handle_request(StorageServiceRequest::GetServerProtocolVersion),
        Ok(StorageServiceResponse::ServerProtocolVersion(
            ServerProtocolVersion {
                protocol_version: 1
            }
        ))
    );
    assert_eq!(
        server.handle_request(StorageServiceRequest::GetNumberOfAccountsAtVersion(41)),
        Ok(StorageServiceResponse::NumberOfAccountsAtVersion(42))
    );
    assert_eq!(
        server.handle_request(StorageServiceRequest::GetStorageServerSummary),
        Ok(StorageServiceResponse::StorageServerSummary(
            StorageServerSummary {
                protocol_metadata: ProtocolMetadata {
                    max_epoch_chunk_size: 1000,
                    max_transaction_chunk_size: 1000,
                    max_transaction_output_chunk_size: 1000,
                    max_account_states_chunk_size: 1000,
                },
                data_summary: DataSummary {
                    synced_ledger_info: LedgerInfo::new(3, 100, HashValue::zero()),
                    epoch_ending_ledger_infos: CompleteDataRange::new(0, 2),
                    transactions: CompleteDataRange::new(0, 100),
                    transaction_outputs: CompleteDataRange::new(0, 100),
                    account_states: CompleteDataRange::new(0, 100),
                },
            }
        ))
    );
    assert_eq!(
        server.handle_request(StorageServiceRequest::GetTransactionsWithProof(
            TransactionsWithProofRequest {
                proof_version: 1,
                start_version: 0,
                expected_num_transactions: 1,
                include_events: false,
            }
        )),
        Ok(StorageServiceResponse::TransactionsWithProof(
            TransactionListWithProof::new_empty()
        ))
    );
    assert!(matches!(
        server.handle_request(StorageServiceRequest::GetEpochEndingLedgerInfos(
            EpochEndingLedgerInfoRequest {
                start_epoch: 2,
                expected_end_epoch: 3,
            }
        )),
        Ok(StorageServiceResponse::EpochEndingLedgerInfos(_))
    ));
}

#[test]
fn storage_errors_are_collapsed_into_the_internal_error() {
    let internal = Ok(StorageServiceResponse::StorageServiceError(
        StorageServiceError::InternalError,
    ));
    let server = StorageServiceServer::new(Reader { broken: true });
    assert_eq!(
        server.handle_request(StorageServiceRequest::GetStorageServerSummary),
        internal
    );
    assert_eq!(
        server.handle_request(StorageServiceRequest::GetTransactionOutputsWithProof(
            TransactionOutputsWithProofRequest {
                proof_version: 1,
                start_version: 0,
                expected_num_outputs: 1,
            }
        )),
        internal
    );
    // the version of the protocol does not come from the storage
    assert_eq!(
        server.handle_request(StorageServiceRequest::GetServerProtocolVersion),
        Ok(StorageServiceResponse::ServerProtocolVersion(
            ServerProtocolVersion {
                protocol_version: 1
            }
        ))
    );
}

struct Computer {
    fail_on: Option<u8>,
}

impl StateComputer for Computer {
    fn compute(
        &self,
        block: &Block,
        parent_block_id: HashValue,
    ) -> Result<StateComputeResult, ExecutionError> {
        if Some(block.payload[0]) == self.fail_on {
            return Err(ExecutionError::BlockNotFound(parent_block_id));
        }
        Ok(StateComputeResult {
            root_hash: block.id,
            num_leaves: block.payload[0] as u64,
        })
    }
}

fn block(n: u8) -> ExecutedBlock {
    ExecutedBlock::new(
        Block {
            id: HashValue::new([n; 32]),
            parent_id: HashValue::new([n - 1; 32]),
            payload: vec![n],
        },
        StateComputeResult {
            root_hash: HashValue::zero(),
            num_leaves: 0,
        },
    )
}

#[test]
fn execution_phase_executes_in_order() {
    let phase = ExecutionPhase::new(Computer { fail_on: None });
    let response = phase.process(ExecutionRequest {
        ordered_blocks: vec![block(1), block(2), block(3)],
    });
    assert_eq!(response.block_id, HashValue::new([3; 32]));
    let executed = response.inner.unwrap();
    assert_eq!(executed.len(), 3);
    for (i, b) in executed.iter().enumerate() {
        assert_eq!(b.id(), HashValue::new([i as u8 + 1; 32]));
        assert_eq!(b.state_compute_result.num_leaves, i as u64 + 1);
    }

    let phase = ExecutionPhase::new(Computer { fail_on: Some(2) });
    let response = phase.process(ExecutionRequest {
        ordered_blocks: vec![block(1), block(2), block(3)],
    });
    assert_eq!(response.block_id, HashValue::new([3; 32]));
    assert_eq!(
        response.inner.unwrap_err(),
        ExecutionError::BlockNotFound(HashValue::new([1; 32]))
    );
}

#[test]
fn flatten_options_hold_their_fields() {
    let options = FlattenOptions {
        srcs: vec!["a.move".to_string()],
        deps: vec![],
        target: Some("f".to_string()),
        no_default_named_addresses: true,
        named_addresses_extra: Some(vec![("Std".to_string(), 1)]),
        verbose: false,
    };
    let copy = options.clone();
    assert_eq!(copy.srcs, options.srcs);
    assert_eq!(copy.target.as_deref(), Some("f"));
    assert!(copy.no_default_named_addresses);
}
