//! Vote delegation for DAO governance.
//!
//! Delegators hand a percentage of their voting power to registered
//! delegates; delegates vote with their own power plus what was delegated to
//! them, and a delegator may override the delegate's vote on any proposal by
//! voting directly.
//!
//! - [`snapshot`]: height-indexed values, read as of any past block.
//! - [`decimal`]: fixed-point fractions and scaling voting power by them.
//! - [`module`]: the delegation module's state machine: registry, ledger,
//!   voting power sync, reported votes, and its queries.
//! - [`delegation`]: query shapes and the override a proposal module
//!   performs when a delegator votes after their delegate.
//! - [`proposal`]: ballots, tallies and propose messages.
//! - [`approval`]: the rewrite of stored pre-proposals that lacked an
//!   approver.

pub mod approval;
pub mod decimal;
pub mod delegation;
pub mod error;
pub mod module;
pub mod proposal;
pub mod snapshot;
