//! What the mempool answers to a submission.

use crate::text::{decimal_digits, push_decimal, string_push_str};
use vstd::prelude::*;

verus! {

/// The outcome of a submission.
#[derive(Clone, Copy, Debug, PartialEq, Eq, Hash, Structural)]
pub enum MempoolStatusCode {
    /// The transaction was accepted.
    Accepted,
    /// The sequence number is below the account's.
    InvalidSeqNumber,
    /// The mempool has no room.
    MempoolIsFull,
    /// The account has too many transactions in the mempool.
    TooManyTransactions,
    /// The transaction is in the mempool in another version that it may not
    /// replace.
    InvalidUpdate,
    /// The virtual machine refused the transaction.
    VmError,
    UnknownStatus,
}

/// The outcome of a submission, with a message for the reader.
#[derive(Debug, PartialEq, Eq)]
pub struct MempoolStatus {
    pub code: MempoolStatusCode,
    pub message: String,
}

/// The message of a mempool that is full.
pub open spec fn full_message(size: usize, capacity: usize) -> Seq<char> {
    "mempool size: "@ + decimal_digits(size as nat) + ", capacity: "@ + decimal_digits(
        capacity as nat,
    )
}

/// The message of an account with too many transactions.
pub open spec fn too_many_message(length: usize, capacity_per_user: usize) -> Seq<char> {
    "txns length: "@ + decimal_digits(length as nat) + " capacity per user: "@ + decimal_digits(
        capacity_per_user as nat,
    )
}

/// The message of an update that is refused.
pub open spec fn invalid_update_message(gas_price: u64) -> Seq<char> {
    "Failed to update gas price to "@ + decimal_digits(gas_price as nat)
}

/// The message of a sequence number that is too old.
pub open spec fn invalid_seq_message(sequence_number: u64, current: u64) -> Seq<char> {
    "transaction sequence number is "@ + decimal_digits(sequence_number as nat)
        + ", current sequence number is  "@ + decimal_digits(current as nat)
}

impl MempoolStatus {
    /// A status without a message.
    pub fn new(code: MempoolStatusCode) -> (r: Self)
        ensures
            r.code == code,
            r.message@.len() == 0,
    {
        MempoolStatus { code, message: String::new() }
    }

    /// The status with `message` for its message.
    pub fn with_message(self, message: String) -> (r: Self)
        ensures
            r.code == self.code,
            r.message == message,
    {
        MempoolStatus { code: self.code, message }
    }

    /// The status of a mempool that is full.
    pub fn full(size: usize, capacity: usize) -> (r: Self)
        ensures
            r.code == MempoolStatusCode::MempoolIsFull,
            r.message@ == full_message(size, capacity),
    {
        let mut message = String::new();
        string_push_str(&mut message, "mempool size: ");
        push_decimal(&mut message, size as u128);
        string_push_str(&mut message, ", capacity: ");
        push_decimal(&mut message, capacity as u128);
        MempoolStatus { code: MempoolStatusCode::MempoolIsFull, message }
    }

    /// The status of an account with too many transactions.
    pub fn too_many(length: usize, capacity_per_user: usize) -> (r: Self)
        ensures
            r.code == MempoolStatusCode::TooManyTransactions,
            r.message@ == too_many_message(length, capacity_per_user),
    {
        let mut message = String::new();
        string_push_str(&mut message, "txns length: ");
        push_decimal(&mut message, length as u128);
        string_push_str(&mut message, " capacity per user: ");
        push_decimal(&mut message, capacity_per_user as u128);
        MempoolStatus { code: MempoolStatusCode::TooManyTransactions, message }
    }

    /// The status of an update that is refused.
    pub fn invalid_update(gas_price: u64) -> (r: Self)
        ensures
            r.code == MempoolStatusCode::InvalidUpdate,
            r.message@ == invalid_update_message(gas_price),
    {
        let mut message = String::new();
        string_push_str(&mut message, "Failed to update gas price to ");
        push_decimal(&mut message, gas_price as u128);
        MempoolStatus { code: MempoolStatusCode::InvalidUpdate, message }
    }

    /// The status of a sequence number that is too old.
    pub fn invalid_seq_number(sequence_number: u64, current: u64) -> (r: Self)
        ensures
            r.code == MempoolStatusCode::InvalidSeqNumber,
            r.message@ == invalid_seq_message(sequence_number, current),
    {
        let mut message = String::new();
        string_push_str(&mut message, "transaction sequence number is ");
        push_decimal(&mut message, sequence_number as u128);
        string_push_str(&mut message, ", current sequence number is  ");
        push_decimal(&mut message, current as u128);
        MempoolStatus { code: MempoolStatusCode::InvalidSeqNumber, message }
    }
}

} // verus!
