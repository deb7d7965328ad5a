//! What the virtual machine says of a transaction: whether its output is
//! kept, and how its sender ranks.

use crate::codec::{write_u64, write_u8};
use crate::bytes::le_u64;
use vstd::prelude::*;

verus! {

/// The status of a transaction whose output is kept.
#[derive(Clone, Copy, Debug, PartialEq, Eq, Structural)]
pub enum KeptVMStatus {
    Executed,
    OutOfGas,
    MoveAbort { code: u64 },
    ExecutionFailure { function: u64, code_offset: u64 },
    MiscellaneousError,
}

impl View for KeptVMStatus {
    type V = Seq<u8>;

    /// The canonical encoding: the number of the kind, then its fields.
    open spec fn view(&self) -> Seq<u8> {
        match self {
            KeptVMStatus::Executed => seq![0u8],
            KeptVMStatus::OutOfGas => seq![1u8],
            KeptVMStatus::MoveAbort { code } => seq![2u8] + le_u64(*code),
            KeptVMStatus::ExecutionFailure { function, code_offset } => seq![3u8] + le_u64(
                *function,
            ) + le_u64(*code_offset),
            KeptVMStatus::MiscellaneousError => seq![4u8],
        }
    }
}

impl KeptVMStatus {
    /// Appends the canonical encoding.
    pub fn encode(&self, out: &mut Vec<u8>)
        ensures
            final(out)@ == old(out)@ + self@,
    {
        match self {
            KeptVMStatus::Executed => {
                write_u8(out, 0);
            },
            KeptVMStatus::OutOfGas => {
                write_u8(out, 1);
            },
            KeptVMStatus::MoveAbort { code } => {
                write_u8(out, 2);
                write_u64(out, *code);
            },
            KeptVMStatus::ExecutionFailure { function, code_offset } => {
                write_u8(out, 3);
                write_u64(out, *function);
                write_u64(out, *code_offset);
            },
            KeptVMStatus::MiscellaneousError => {
                write_u8(out, 4);
            },
        }
        assert(out@ =~= old(out)@ + self@);
    }
}

/// The code of a status of the virtual machine.
#[derive(Clone, Copy, Debug, PartialEq, Eq, Structural)]
pub struct StatusCode(pub u64);

/// The code with which a transaction is discarded.
pub type DiscardedVMStatus = StatusCode;

impl StatusCode {
    /// The code of a transaction that is to be tried again.
    pub fn unknown_validation_status() -> (r: StatusCode)
        ensures
            r == StatusCode(0),
    {
        StatusCode(0)
    }
}

/// The status of executing a transaction: whether its output is kept,
/// discarded, or the transaction tried again.
#[derive(Clone, Copy, Debug, PartialEq, Eq, Structural)]
pub enum TransactionStatus {
    /// Discard the transaction output.
    Discard(DiscardedVMStatus),
    /// Keep the transaction output.
    Keep(KeptVMStatus),
    /// Retry the transaction, for one after a reconfiguration.
    Retry,
}

impl TransactionStatus {
    /// The status of a kept transaction, and else the code: that of the
    /// discard, or the unknown one for a retry.
    pub fn status(&self) -> (r: Result<KeptVMStatus, StatusCode>)
        ensures
            r == match *self {
                TransactionStatus::Keep(status) => Ok::<KeptVMStatus, StatusCode>(status),
                TransactionStatus::Discard(code) => Err::<KeptVMStatus, StatusCode>(code),
                TransactionStatus::Retry => Err::<KeptVMStatus, StatusCode>(StatusCode(0)),
            },
    {
        match self {
            TransactionStatus::Keep(status) => Ok(*status),
            TransactionStatus::Discard(code) => Err(*code),
            TransactionStatus::Retry => Err(StatusCode::unknown_validation_status()),
        }
    }

    /// Whether the output is not kept.
    pub fn is_discarded(&self) -> (r: bool)
        ensures
            r == !(self is Keep),
    {
        match self {
            TransactionStatus::Discard(_) => true,
            TransactionStatus::Keep(_) => false,
            TransactionStatus::Retry => true,
        }
    }
}

impl From<KeptVMStatus> for TransactionStatus {
    fn from(kept_vm_status: KeptVMStatus) -> (r: TransactionStatus) {
        TransactionStatus::Keep(kept_vm_status)
    }
}

impl vstd::std_specs::convert::FromSpecImpl<KeptVMStatus> for TransactionStatus {
    open spec fn obeys_from_spec() -> bool {
        true
    }

    open spec fn from_spec(kept_vm_status: KeptVMStatus) -> TransactionStatus {
        TransactionStatus::Keep(kept_vm_status)
    }
}

/// The role of an account in the governance of the network.
#[derive(Clone, Copy, Debug, PartialEq, Eq, PartialOrd, Ord, Hash, Structural)]
pub enum GovernanceRole {
    DiemRoot,
    TreasuryCompliance,
    Validator,
    ValidatorOperator,
    DesignatedDealer,
    NonGovernanceRole,
}

impl GovernanceRole {
    /// The role that an id stands for.
    pub open spec fn spec_from_role_id(role_id: u64) -> GovernanceRole {
        if role_id == 0 {
            GovernanceRole::DiemRoot
        } else if role_id == 1 {
            GovernanceRole::TreasuryCompliance
        } else if role_id == 2 {
            GovernanceRole::DesignatedDealer
        } else if role_id == 3 {
            GovernanceRole::Validator
        } else if role_id == 4 {
            GovernanceRole::ValidatorOperator
        } else {
            GovernanceRole::NonGovernanceRole
        }
    }

    pub fn from_role_id(role_id: u64) -> (r: Self)
        ensures
            r == Self::spec_from_role_id(role_id),
    {
        match role_id {
            0 => GovernanceRole::DiemRoot,
            1 => GovernanceRole::TreasuryCompliance,
            2 => GovernanceRole::DesignatedDealer,
            3 => GovernanceRole::Validator,
            4 => GovernanceRole::ValidatorOperator,
            _ => GovernanceRole::NonGovernanceRole,
        }
    }

    /// The priority of the role in the mempool; a higher number goes first.
    pub open spec fn spec_priority(self) -> u64 {
        match self {
            GovernanceRole::DiemRoot => 3,
            GovernanceRole::TreasuryCompliance => 2,
            GovernanceRole::Validator => 1,
            GovernanceRole::ValidatorOperator => 1,
            GovernanceRole::DesignatedDealer => 1,
            GovernanceRole::NonGovernanceRole => 0,
        }
    }

    pub fn priority(&self) -> (r: u64)
        ensures
            r == self.spec_priority(),
    {
        match self {
            GovernanceRole::DiemRoot => 3,
            GovernanceRole::TreasuryCompliance => 2,
            GovernanceRole::Validator => 1,
            GovernanceRole::ValidatorOperator => 1,
            GovernanceRole::DesignatedDealer => 1,
            GovernanceRole::NonGovernanceRole => 0,
        }
    }
}

/// The result of running a transaction through the validator of the
/// virtual machine.
#[derive(Clone, Copy, Debug, PartialEq, Eq, Structural)]
pub struct VMValidatorResult {
    /// `None` where the transaction is valid, and else the code with which
    /// it is discarded.
    pub status: Option<DiscardedVMStatus>,
    /// The score by which the transaction ranks; a higher one goes first.
    pub score: u64,
    /// The role of the sender.
    pub governance_role: GovernanceRole,
}

impl VMValidatorResult {
    pub fn new(vm_status: Option<DiscardedVMStatus>, score: u64, governance_role: GovernanceRole) -> (r:
        Self)
        ensures
            r == (VMValidatorResult { status: vm_status, score, governance_role }),
    {
        VMValidatorResult { status: vm_status, score, governance_role }
    }

    /// The result for a transaction that is discarded: no score, and no role
    /// in governance.
    pub fn error(vm_status: DiscardedVMStatus) -> (r: Self)
        ensures
            r == (VMValidatorResult {
                status: Some(vm_status),
                score: 0,
                governance_role: GovernanceRole::NonGovernanceRole,
            }),
    {
        VMValidatorResult {
            status: Some(vm_status),
            score: 0,
            governance_role: GovernanceRole::NonGovernanceRole,
        }
    }

    pub fn status(&self) -> (r: Option<DiscardedVMStatus>)
        ensures
            r == self.status,
    {
        self.status
    }

    pub fn score(&self) -> (r: u64)
        ensures
            r == self.score,
    {
        self.score
    }

    pub fn governance_role(&self) -> (r: GovernanceRole)
        ensures
            r == self.governance_role,
    {
        self.governance_role
    }
}

} // verus!
