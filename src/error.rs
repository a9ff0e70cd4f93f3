//! Errors of the delegation module.

use crate::decimal::Decimal;
use vstd::prelude::*;

verus! {

/// Why a call into the delegation module was refused. A call that returns
/// one of these has changed nothing.
#[derive(Debug, Clone, PartialEq, Eq)]
pub enum ContractError {
    /// The sender may not make this call.
    Unauthorized,
    /// The sender is already a registered delegate.
    DelegateAlreadyRegistered,
    /// The address is not a registered delegate.
    DelegateNotRegistered,
    /// The address has no voting power.
    NoVotingPower,
    /// The sender still delegates to someone and so cannot become a delegate.
    DelegateHasActiveDelegations,
    /// A registered delegate tried to delegate.
    DelegatesCannotDelegate,
    /// A delegation percent was zero or above 100%.
    InvalidVotingPowerPercent,
    /// A new delegation would go beyond the configured number.
    MaxDelegationsReached { max: u64, current: u64 },
    /// The delegator's delegations would add up to more than 100%.
    /// `current` is the sum of the other delegations, `attempt` that sum
    /// plus the requested percent.
    CannotDelegateMoreThan100Percent { current: Decimal, attempt: Decimal },
    /// No delegation from the sender to that delegate is in force.
    DelegationNotFound,
    /// A delegation validity window below the minimum was configured.
    InvalidDelegationValidityBlocks { provided: u64, min: u64 },
    /// An amount of voting power did not fit in 128 bits, or a subtraction
    /// would have gone below zero.
    Overflow,
}

} // verus!
