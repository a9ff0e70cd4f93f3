//! The shapes in which the delegation module answers queries, and the vote
//! override a proposal module performs when a delegator votes after their
//! delegate.

use crate::decimal::{checked_scale, floor_mul, lemma_floor_mul_bounds, Decimal, DECIMAL_FRACTIONAL};
use crate::error::ContractError;
use crate::module::DelegationModule;
use crate::proposal::{
    ballot_pos, copy_ballots, find_ballot, votes_for, votes_without, Ballot, VoterBallot, Votes,
};
use vstd::prelude::*;

verus! {

/// Marks an address as a registered delegate.
#[derive(Debug, Clone, Copy, PartialEq, Eq, Structural)]
pub struct Delegate {}

/// A delegation as its delegator set it.
#[derive(Debug, Clone, PartialEq, Eq)]
pub struct Delegation {
    /// The delegate that can vote on behalf of the delegator.
    pub delegate: String,
    /// The share of the delegator's voting power that is delegated.
    pub percent: Decimal,
}

/// The delegation settings.
#[derive(Debug, Clone, Copy, PartialEq, Eq, Structural)]
pub struct Config {
    /// The number of blocks a delegation stays in force, after which the
    /// delegator must renew it; `None` for delegations that never expire.
    pub delegation_validity_blocks: Option<u64>,
    /// The most delegations one member may have in force. It bounds the
    /// loops run when a delegator's voting power changes and when a
    /// delegator overrides their delegates' votes.
    pub max_delegations: u64,
}

/// Whether a delegate is registered at a height, and the voting power
/// delegated to them there.
#[derive(Debug, Clone, Copy, PartialEq, Eq, Structural)]
pub struct RegistrationResponse {
    pub registered: bool,
    /// Still counted when the delegate has unregistered.
    pub power: u128,
    pub height: u64,
}

/// A registered delegate and the voting power delegated to them.
#[derive(Debug, Clone, PartialEq, Eq)]
pub struct DelegateResponse {
    pub delegate: String,
    pub power: u128,
}

#[derive(Debug, Clone, PartialEq, Eq)]
pub struct DelegatesResponse {
    pub delegates: Vec<DelegateResponse>,
}

/// A delegation in force at some height.
#[derive(Debug, Clone, PartialEq, Eq)]
pub struct DelegationResponse {
    /// The delegate that can vote on behalf of the delegator.
    pub delegate: String,
    /// The share of the delegator's voting power that is delegated.
    pub percent: Decimal,
    /// Whether the delegate is registered at that height. A delegation to a
    /// delegate who has since unregistered stays listed, inactive.
    pub active: bool,
}

/// What a delegation response says, over plain values.
pub open spec fn delegation_view(d: DelegationResponse) -> (Seq<char>, Decimal, bool) {
    (d.delegate@, d.percent, d.active)
}

#[derive(Debug, Clone, PartialEq, Eq)]
pub struct DelegationsResponse {
    pub delegations: Vec<DelegationResponse>,
    /// The height the delegations were read at.
    pub height: u64,
}

/// The voting power delegated to a delegate for one proposal that the
/// delegators have not used by voting themselves.
#[derive(Debug, Clone, Copy, PartialEq, Eq, Structural)]
pub struct UnvotedDelegatedVotingPowerResponse {
    /// All of it.
    pub total: u128,
    /// What the delegate may vote with once the voting power cap applies.
    pub effective: u128,
}

/// The voting power delegated by a member with voting power `vp` who
/// delegates `percent` of it: `floor(vp * percent)`, and zero where either is
/// zero.
pub fn calculate_delegated_vp(vp: u128, percent: Decimal) -> (r: u128)
    requires
        percent.atomics <= DECIMAL_FRACTIONAL,
    ensures
        r == floor_mul(vp as int, percent.atomics as int),
        r <= vp,
{
    proof {
        lemma_floor_mul_bounds(vp as int, percent.atomics as int);
    }
    if percent.is_zero() || vp == 0 {
        assert(floor_mul(vp as int, percent.atomics as int) == 0) by (nonlinear_arith)
            requires
                vp == 0 || percent.atomics == 0,
        ;
        return 0;
    }
    match checked_scale(vp, percent) {
        Some(v) => v,
        // a fraction of at most one cannot overflow, so this is never taken
        None => vp,
    }
}

/// The losing part of a delegate's effective unvoted power when a delegator
/// who had delegated `delegated` of it votes: the effective power drops to
/// `min(total - delegated, effective)`.
pub open spec fn override_loss(total: int, effective: int, delegated: int) -> int {
    let remaining = total - delegated;
    if remaining < effective {
        effective - remaining
    } else {
        0
    }
}

/// One step of a delegator's override, for the delegation `d` (delegate,
/// percent, active) as of the proposal's start: where the delegate has a
/// ballot, the delegated voting power the delegator takes back, capped as
/// the delegate's effective power is, leaves the delegate's ballot and the
/// tally behind its position. `None` where an amount would go below zero or
/// not fit in 128 bits.
pub open spec fn override_step(
    m: DelegationModule,
    module: Seq<char>,
    id: u64,
    start: int,
    total_power: u128,
    voter_power: u128,
    st: (Seq<VoterBallot>, Votes),
    d: (Seq<char>, Decimal, bool),
) -> Option<(Seq<VoterBallot>, Votes)> {
    let ballots = st.0;
    let votes = st.1;
    if !d.2 {
        Some(st)
    } else {
        match ballot_pos(ballots, d.0, 0) {
            None => Some(st),
            Some(i) => {
                let u = m.udvp(d.0, module, id, start, total_power);
                let delegated = floor_mul(voter_power as int, d.1.atomics as int);
                if u.0 > u128::MAX || u.0 < delegated {
                    None
                } else {
                    let loss = override_loss(u.0, u.1, delegated);
                    let b = ballots[i];
                    if loss == 0 {
                        Some(st)
                    } else if b.ballot.power < loss || votes_for(votes, b.ballot.vote) < loss {
                        None
                    } else {
                        Some(
                            (
                                ballots.update(
                                    i,
                                    VoterBallot {
                                        ballot: Ballot { power: (b.ballot.power - loss) as u128, ..b.ballot },
                                        ..b
                                    },
                                ),
                                votes_without(votes, b.ballot.vote, loss as u128),
                            ),
                        )
                    }
                }
            },
        }
    }
}

/// The override steps for the delegations `ds`, in order, from `init`.
pub open spec fn override_all(
    m: DelegationModule,
    module: Seq<char>,
    id: u64,
    start: int,
    total_power: u128,
    voter_power: u128,
    init: (Seq<VoterBallot>, Votes),
    ds: Seq<(Seq<char>, Decimal, bool)>,
) -> Option<(Seq<VoterBallot>, Votes)>
    decreases ds.len(),
{
    if ds.len() == 0 {
        Some(init)
    } else {
        match override_all(m, module, id, start, total_power, voter_power, init, ds.drop_last()) {
            Some(st) => override_step(m, module, id, start, total_power, voter_power, st, ds.last()),
            None => None,
        }
    }
}

proof fn lemma_override_failure_stays(
    m: DelegationModule,
    module: Seq<char>,
    id: u64,
    start: int,
    total_power: u128,
    voter_power: u128,
    init: (Seq<VoterBallot>, Votes),
    ds: Seq<(Seq<char>, Decimal, bool)>,
    j: int,
)
    requires
        0 <= j <= ds.len(),
        override_all(m, module, id, start, total_power, voter_power, init, ds.take(j)) is None,
    ensures
        override_all(m, module, id, start, total_power, voter_power, init, ds) is None,
    decreases ds.len() - j,
{
    if j < ds.len() {
        assert(ds.take(j + 1).drop_last() =~= ds.take(j));
        lemma_override_failure_stays(m, module, id, start, total_power, voter_power, init, ds, j + 1);
    } else {
        assert(ds.take(j) =~= ds);
    }
}

/// Takes back, from the delegates of `delegator` who already voted on
/// proposal `proposal_id` of `proposal_module`, the delegated voting power
/// `delegator` is now using to vote directly. `voter_power` is the
/// delegator's own voting power at the proposal's start height and
/// `total_power` the DAO's. For each delegation active at the start height
/// whose delegate has a ballot, the delegate's effective unvoted power drops
/// to `min(total - delegated, effective)` and the difference leaves the
/// delegate's ballot and the tally behind its position, so a delegate above
/// the cap loses only what was actually credited. Either every delegation is
/// handled or, on an error, `ballots` and `votes` are left as they were.
pub fn handle_delegate_vote_override(
    delegation_module: Option<&DelegationModule>,
    delegator: &String,
    proposal_module: &String,
    proposal_id: u64,
    proposal_start_height: u64,
    voter_power: u128,
    total_power: u128,
    ballots: &mut Vec<VoterBallot>,
    votes: &mut Votes,
) -> (r: Result<(), ContractError>)
    requires
        match delegation_module {
            Some(m) => m.wf(),
            None => true,
        },
    ensures
        match delegation_module {
            None => r is Ok && final(ballots)@ == old(ballots)@ && *final(votes) == *old(votes),
            Some(m) => match override_all(
                *m,
                proposal_module@,
                proposal_id,
                proposal_start_height as int,
                total_power,
                voter_power,
                (old(ballots)@, *old(votes)),
                m.delegation_views(delegator@, proposal_start_height as int),
            ) {
                Some(st) => r is Ok && final(ballots)@ == st.0 && *final(votes) == st.1,
                None => r == Err::<(), ContractError>(ContractError::Overflow) && final(ballots)@
                    == old(ballots)@ && *final(votes) == *old(votes),
            },
        },
{
    let m = match delegation_module {
        Some(m) => m,
        None => {
            return Ok(());
        },
    };
    let resp = m.delegations(delegator, proposal_start_height);
    let ds = resp.delegations;
    let ghost views = m.delegation_views(delegator@, proposal_start_height as int);
    let ghost init = (ballots@, *votes);
    let mut work = copy_ballots(ballots);
    let mut tally = *votes;
    let mut i: usize = 0;
    while i < ds.len()
        invariant
            m.wf(),
            delegation_module == Some(m),
            views == m.delegation_views(delegator@, proposal_start_height as int),
            views == ds@.map_values(|d: DelegationResponse| delegation_view(d)),
            forall|k: int| 0 <= k < ds@.len() ==> (#[trigger] ds@[k]).percent.atomics <= DECIMAL_FRACTIONAL,
            i <= ds@.len(),
            init == (old(ballots)@, *old(votes)),
            *ballots == *old(ballots),
            *votes == *old(votes),
            override_all(
                *m,
                proposal_module@,
                proposal_id,
                proposal_start_height as int,
                total_power,
                voter_power,
                init,
                views.take(i as int),
            ) == Some((work@, tally)),
        decreases ds@.len() - i,
    {
        let d = &ds[i];
        let ghost prev = (work@, tally);
        proof {
            assert(views.take(i + 1).drop_last() =~= views.take(i as int));
            assert(views.take(i + 1).last() == delegation_view(*d));
        }
        if d.active {
            match find_ballot(&work, &d.delegate) {
                Some(bi) => {
                    let udvp = match m.unvoted_delegated_voting_power(
                        &d.delegate,
                        proposal_module,
                        proposal_id,
                        proposal_start_height,
                        total_power,
                    ) {
                        Ok(u) => u,
                        Err(e) => {
                            proof {
                                lemma_override_failure_stays(
                                    *m,
                                    proposal_module@,
                                    proposal_id,
                                    proposal_start_height as int,
                                    total_power,
                                    voter_power,
                                    init,
                                    views,
                                    i + 1,
                                );
                            }
                            return Err(e);
                        },
                    };
                    let delegated = calculate_delegated_vp(voter_power, d.percent);
                    if udvp.total < delegated {
                        proof {
                            lemma_override_failure_stays(
                                *m,
                                proposal_module@,
                                proposal_id,
                                proposal_start_height as int,
                                total_power,
                                voter_power,
                                init,
                                views,
                                i + 1,
                            );
                        }
                        return Err(ContractError::Overflow);
                    }
                    let remaining = udvp.total - delegated;
                    if remaining < udvp.effective {
                        let loss = udvp.effective - remaining;
                        let vote = work[bi].ballot.vote;
                        let power = work[bi].ballot.power;
                        let new_tally = if power < loss {
                            None
                        } else {
                            tally.remove_vote(vote, loss)
                        };
                        match new_tally {
                            Some(t) => {
                                work[bi].ballot.power = power - loss;
                                tally = t;
                            },
                            None => {
                                proof {
                                    lemma_override_failure_stays(
                                        *m,
                                        proposal_module@,
                                        proposal_id,
                                        proposal_start_height as int,
                                        total_power,
                                        voter_power,
                                        init,
                                        views,
                                        i + 1,
                                    );
                                }
                                return Err(ContractError::Overflow);
                            },
                        }
                    }
                },
                None => {},
            }
        }
        proof {
            assert(override_all(
                *m,
                proposal_module@,
                proposal_id,
                proposal_start_height as int,
                total_power,
                voter_power,
                init,
                views.take(i + 1),
            ) == Some((work@, tally)));
        }
        i = i + 1;
    }
    proof {
        assert(views.take(i as int) =~= views);
    }
    *ballots = work;
    *votes = tally;
    Ok(())
}

} // verus!
