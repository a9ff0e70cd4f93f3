//! Pre-proposals awaiting an approver, and the rewrite of the records a
//! version that did not store the approver left behind.
//!
//! Reading the old records and writing the new ones is the host's; what
//! each record becomes is decided here.

use crate::proposal::SingleChoiceProposeMsg;
use vstd::prelude::*;

verus! {

/// Where a pre-proposal stands.
#[derive(Debug, Clone, Copy, PartialEq, Eq, Structural)]
pub enum ApprovalProposalStatus {
    /// Awaiting the approver.
    Pending,
    /// Approved; the proposal it created has this id.
    Approved { created_proposal_id: u64 },
    /// Rejected by the approver.
    Rejected,
}

/// The asset a deposit is paid in.
#[derive(Debug, Clone, PartialEq, Eq)]
pub enum CheckedDenom {
    /// A native (bank module) asset, by denomination.
    Native(String),
    /// A cw20 token, by contract address.
    Cw20(String),
}

/// When a deposit is returned to the proposer.
#[derive(Debug, Clone, Copy, PartialEq, Eq, Structural)]
pub enum DepositRefundPolicy {
    Always,
    OnlyPassed,
    Never,
}

/// A validated proposal deposit.
#[derive(Debug, Clone, PartialEq, Eq)]
pub struct CheckedDepositInfo {
    pub denom: CheckedDenom,
    pub amount: u128,
    pub refund_policy: DepositRefundPolicy,
}

/// A pre-proposal as stored now.
#[derive(Debug, Clone, PartialEq)]
pub struct Proposal {
    pub status: ApprovalProposalStatus,
    /// The id identifying the pre-proposal.
    pub approval_id: u64,
    /// Who may approve or reject it.
    pub approver: String,
    pub proposer: String,
    /// What is proposed if it is approved.
    pub msg: SingleChoiceProposeMsg,
    /// The deposit taken when it was submitted.
    pub deposit: Option<CheckedDepositInfo>,
}

/// A pre-proposal as stored before the approver was recorded on each.
#[derive(Debug, Clone, PartialEq)]
pub struct LegacyProposal {
    pub status: ApprovalProposalStatus,
    pub approval_id: u64,
    pub proposer: String,
    pub msg: SingleChoiceProposeMsg,
    pub deposit: Option<CheckedDepositInfo>,
}

/// Why the rewrite of stored pre-proposals stopped.
#[derive(Debug, Clone, Copy, PartialEq, Eq, Structural)]
pub enum MigrationError {
    /// A completed pre-proposal was recorded as still pending.
    UnexpectedProposalStatus,
}

/// `old` with its approver recorded and its status set to `status`.
pub open spec fn upgraded(old: LegacyProposal, approver: String, status: ApprovalProposalStatus) -> Proposal {
    Proposal {
        status,
        approval_id: old.approval_id,
        approver,
        proposer: old.proposer,
        msg: old.msg,
        deposit: old.deposit,
    }
}

/// The current form of a pending pre-proposal, approved by `approver`.
pub fn migrate_pending_proposal(old: LegacyProposal, approver: String) -> (r: Proposal)
    ensures
        r == upgraded(old, approver, ApprovalProposalStatus::Pending),
{
    Proposal {
        status: ApprovalProposalStatus::Pending,
        approval_id: old.approval_id,
        approver,
        proposer: old.proposer,
        msg: old.msg,
        deposit: old.deposit,
    }
}

/// The current form of a completed pre-proposal, decided by `approver`;
/// an error if it is recorded as pending.
pub fn migrate_completed_proposal(old: LegacyProposal, approver: String) -> (r: Result<
    Proposal,
    MigrationError,
>)
    ensures
        r == match old.status {
            ApprovalProposalStatus::Pending => Err(MigrationError::UnexpectedProposalStatus),
            status => Ok(upgraded(old, approver, status)),
        },
{
    let status = old.status;
    if let ApprovalProposalStatus::Pending = status {
        return Err(MigrationError::UnexpectedProposalStatus);
    }
    Ok(
        Proposal {
            status,
            approval_id: old.approval_id,
            approver,
            proposer: old.proposer,
            msg: old.msg,
            deposit: old.deposit,
        },
    )
}

/// Whether any of the completed records is recorded as pending.
pub open spec fn has_pending(records: Seq<(u64, LegacyProposal)>) -> bool {
    exists|i: int| 0 <= i < records.len() && (#[trigger] records[i]).1.status is Pending
}

/// Rewrites the stored pre-proposals, pending and completed, keyed by id,
/// recording `approver` on each. Pending ones become pending; completed ones
/// keep their outcome. Fails, rewriting nothing, if a completed one is
/// recorded as pending.
pub fn migrate_proposals(
    pending: Vec<(u64, LegacyProposal)>,
    completed: Vec<(u64, LegacyProposal)>,
    approver: &String,
) -> (r: Result<(Vec<(u64, Proposal)>, Vec<(u64, Proposal)>), MigrationError>)
    ensures
        has_pending(completed@) ==> r == Err::<(Vec<(u64, Proposal)>, Vec<(u64, Proposal)>), MigrationError>(
            MigrationError::UnexpectedProposalStatus,
        ),
        !has_pending(completed@) ==> match r {
            Ok((p, c)) => {
                &&& p@.len() == pending@.len()
                &&& forall|i: int|
                    0 <= i < p@.len() ==> #[trigger] p@[i] == (
                        pending@[i].0,
                        upgraded(pending@[i].1, *approver, ApprovalProposalStatus::Pending),
                    )
                &&& c@.len() == completed@.len()
                &&& forall|i: int|
                    0 <= i < c@.len() ==> #[trigger] c@[i] == (
                        completed@[i].0,
                        upgraded(completed@[i].1, *approver, completed@[i].1.status),
                    )
            },
            Err(_) => false,
        },
{
    let ghost pending0 = pending@;
    let ghost completed0 = completed@;
    let mut k: usize = 0;
    while k < completed.len()
        invariant
            k <= completed@.len(),
            completed@ == completed0,
            forall|j: int| 0 <= j < k ==> !((#[trigger] completed@[j]).1.status is Pending),
        decreases completed@.len() - k,
    {
        if let ApprovalProposalStatus::Pending = completed[k].1.status {
            return Err(MigrationError::UnexpectedProposalStatus);
        }
        k = k + 1;
    }
    let mut rest = pending;
    let mut new_pending: Vec<(u64, Proposal)> = Vec::new();
    while rest.len() > 0
        invariant
            new_pending@.len() + rest@.len() == pending0.len(),
            rest@ == pending0.skip(new_pending@.len() as int),
            forall|i: int|
                0 <= i < new_pending@.len() ==> #[trigger] new_pending@[i] == (
                    pending0[i].0,
                    upgraded(pending0[i].1, *approver, ApprovalProposalStatus::Pending),
                ),
        decreases rest@.len(),
    {
        let ghost n: int = new_pending@.len() as int;
        let (id, old) = rest.remove(0);
        new_pending.push((id, migrate_pending_proposal(old, approver.clone())));
        assert(rest@ =~= pending0.skip(n + 1));
    }
    let mut rest = completed;
    let mut new_completed: Vec<(u64, Proposal)> = Vec::new();
    while rest.len() > 0
        invariant
            new_completed@.len() + rest@.len() == completed0.len(),
            rest@ == completed0.skip(new_completed@.len() as int),
            forall|j: int| 0 <= j < completed0.len() ==> !((#[trigger] completed0[j]).1.status is Pending),
            forall|i: int|
                0 <= i < new_completed@.len() ==> #[trigger] new_completed@[i] == (
                    completed0[i].0,
                    upgraded(completed0[i].1, *approver, completed0[i].1.status),
                ),
        decreases rest@.len(),
    {
        let ghost n: int = new_completed@.len() as int;
        let (id, old) = rest.remove(0);
        assert(old == completed0[n].1);
        match migrate_completed_proposal(old, approver.clone()) {
            Ok(p) => {
                new_completed.push((id, p));
            },
            Err(e) => {
                return Err(e);
            },
        }
        assert(rest@ =~= completed0.skip(n + 1));
    }
    Ok((new_pending, new_completed))
}

} // verus!
