//! Core of a permissioned ledger node: primitive codecs, the transaction data
//! model with its proofs, the Jellyfish Merkle node format and the mempool.

pub mod account_address;
pub mod accumulator;
pub mod api_types;
pub mod bytes;
pub mod codec;
pub mod crypto;
pub mod execution_phase;
pub mod hash;
pub mod jellyfish_merkle;
pub mod mempool;
pub mod spec_flatten;
pub mod storage_service;
pub mod text;
pub mod transaction;
