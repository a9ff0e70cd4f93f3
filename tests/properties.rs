use dao_vote_delegation::approval::{
    migrate_completed_proposal, migrate_pending_proposal, migrate_proposals,
    ApprovalProposalStatus, CheckedDenom, CheckedDepositInfo, DepositRefundPolicy,
    LegacyProposal, MigrationError,
};
use dao_vote_delegation::decimal::{checked_scale, Decimal};
use dao_vote_delegation::delegation::{calculate_delegated_vp, handle_delegate_vote_override};
use dao_vote_delegation::error::ContractError;
use dao_vote_delegation::module::{DelegationModule, Update};
use dao_vote_delegation::proposal::{
    Ballot, MultipleChoiceAutoVote, MultipleChoiceOption, MultipleChoiceOptions,
    MultipleChoiceProposeMsg, MultipleChoiceVote, ProposeMessage, SingleChoiceAutoVote,
    SingleChoiceProposeMsg, Vote, VoterBallot, Votes,
};

const DAO: &str = "dao";
const GROUP: &str = "group";
const PM: &str = "proposal_single";

fn s(a: &str) -> String {
    a.to_string()
}

fn module(cap: Option<Decimal>, validity: Option<u64>, height: u64) -> DelegationModule {
    DelegationModule::instantiate(s(DAO), vec![s(GROUP)], vec![s(PM)], cap, validity, None, height)
        .unwrap()
}

fn percent_sum(m: &DelegationModule, delegator: &str, height: u64) -> u128 {
    m.delegations(&s(delegator), height)
        .delegations
        .iter()
        .map(|d| d.percent.atomics)
        .sum()
}

#[test]
fn delegated_percents_stay_within_whole() {
    let mut m = module(None, None, 10);
    m.register(&s("d1"), 5, 10).unwrap();
    m.register(&s("d2"), 5, 10).unwrap();
    m.delegate(&s("a"), &s("d1"), Decimal::percent(60), 3, 10).unwrap();
    assert!(m.delegate(&s("a"), &s("d2"), Decimal::percent(41), 3, 10).is_err());
    m.delegate(&s("a"), &s("d2"), Decimal::percent(40), 3, 10).unwrap();
    // replacing a delegation counts only the others
    m.delegate(&s("a"), &s("d1"), Decimal::percent(50), 3, 11).unwrap();
    for h in 9..14 {
        assert!(percent_sum(&m, "a", h) <= Decimal::one().atomics);
    }
    assert_eq!(percent_sum(&m, "a", 11), Decimal::percent(100).atomics);
    assert_eq!(percent_sum(&m, "a", 12), Decimal::percent(90).atomics);
}

#[test]
fn effective_power_is_capped() {
    let mut m = module(Some(Decimal::percent(50)), None, 10);
    m.register(&s("d"), 1, 10).unwrap();
    for a in ["a", "b", "c"] {
        m.delegate(&s(a), &s("d"), Decimal::percent(100), 3, 10).unwrap();
    }
    // a total voting power of 9 caps the delegate at floor(4.5) = 4
    let u = m
        .unvoted_delegated_voting_power(&s("d"), &s(PM), 1, 11, 9)
        .unwrap();
    assert_eq!(u.total, 9);
    assert_eq!(u.effective, 4);
    assert!(u.effective <= u.total);
    // without a cap the effective power is the total
    let mut m2 = module(None, None, 10);
    m2.register(&s("d"), 1, 10).unwrap();
    m2.delegate(&s("a"), &s("d"), Decimal::percent(100), 3, 10).unwrap();
    let u2 = m2
        .unvoted_delegated_voting_power(&s("d"), &s(PM), 1, 11, 9)
        .unwrap();
    assert_eq!(u2.total, 3);
    assert_eq!(u2.effective, 3);
}

#[test]
fn delegation_shows_from_next_block() {
    let mut m = module(None, Some(5), 20);
    m.register(&s("d"), 1, 20).unwrap();
    m.delegate(&s("a"), &s("d"), Decimal::percent(100), 3, 21).unwrap();
    assert_eq!(m.delegations(&s("a"), 21).delegations.len(), 0);
    let at_next = m.delegations(&s("a"), 22);
    assert_eq!(at_next.delegations.len(), 1);
    assert_eq!(at_next.delegations[0].delegate, s("d"));
    assert_eq!(at_next.delegations[0].percent, Decimal::percent(100));
    assert!(at_next.delegations[0].active);
    assert_eq!(at_next.height, 22);
}

#[test]
fn reporting_a_vote_twice_changes_nothing() {
    let mut m = module(None, None, 10);
    m.register(&s("d"), 1, 10).unwrap();
    m.delegate(&s("a"), &s("d"), Decimal::percent(100), 3, 10).unwrap();
    m.delegate(&s("b"), &s("d"), Decimal::percent(100), 2, 10).unwrap();
    let before = m
        .unvoted_delegated_voting_power(&s("d"), &s(PM), 7, 11, 100)
        .unwrap();
    assert_eq!(before.total, 5);
    m.vote_hook(&s(PM), 7, &s("a")).unwrap();
    let once = m
        .unvoted_delegated_voting_power(&s("d"), &s(PM), 7, 11, 100)
        .unwrap();
    m.vote_hook(&s(PM), 7, &s("a")).unwrap();
    let twice = m
        .unvoted_delegated_voting_power(&s("d"), &s(PM), 7, 11, 100)
        .unwrap();
    assert_eq!(once.total, 2);
    assert_eq!(once, twice);
    // other proposals are not affected
    let other = m
        .unvoted_delegated_voting_power(&s("d"), &s(PM), 8, 11, 100)
        .unwrap();
    assert_eq!(other.total, 5);
}

#[test]
fn delegation_expires_at_its_height() {
    let mut m = module(None, Some(4), 30);
    m.register(&s("d"), 1, 30).unwrap();
    m.delegate(&s("a"), &s("d"), Decimal::percent(100), 3, 30).unwrap();
    // made at 30 with a window of 4 blocks: expires at 34
    assert_eq!(m.delegations(&s("a"), 33).delegations.len(), 1);
    assert_eq!(m.delegations(&s("a"), 34).delegations.len(), 0);
    assert_eq!(m.registration(&s("d"), 33).unwrap().power, 3);
    assert_eq!(m.registration(&s("d"), 34).unwrap().power, 0);
}

#[test]
fn delegate_vote_then_override_scenario() {
    let mut m = module(None, None, 1);
    let d_weight = 1u128;
    let a_weight = 3u128;
    m.register(&s("D"), d_weight, 1).unwrap();
    m.delegate(&s("A"), &s("D"), Decimal::percent(100), a_weight, 1).unwrap();

    let delegates = m.delegates(2).unwrap().delegates;
    assert_eq!(delegates.len(), 1);
    assert_eq!(delegates[0].delegate, s("D"));
    assert_eq!(delegates[0].power, 3);

    let total_power = d_weight + a_weight;
    let start = 2u64;
    let u = m
        .unvoted_delegated_voting_power(&s("D"), &s(PM), 1, start, total_power)
        .unwrap();
    assert_eq!((u.total, u.effective), (3, 3));

    // D votes yes with their own and the delegated power
    let mut ballots = vec![VoterBallot {
        voter: s("D"),
        ballot: Ballot { power: d_weight + u.effective, vote: Vote::Yes, rationale: None },
    }];
    let mut votes = Votes::zero().add_vote(Vote::Yes, d_weight + u.effective).unwrap();
    m.vote_hook(&s(PM), 1, &s("D")).unwrap();
    assert_eq!(votes.yes, 3 + d_weight);

    // A votes no, overriding D
    handle_delegate_vote_override(
        Some(&m),
        &s("A"),
        &s(PM),
        1,
        start,
        a_weight,
        total_power,
        &mut ballots,
        &mut votes,
    )
    .unwrap();
    ballots.push(VoterBallot {
        voter: s("A"),
        ballot: Ballot { power: a_weight, vote: Vote::No, rationale: None },
    });
    votes = votes.add_vote(Vote::No, a_weight).unwrap();
    m.vote_hook(&s(PM), 1, &s("A")).unwrap();

    assert_eq!(votes.yes, d_weight);
    assert_eq!(votes.no, a_weight);
    assert_eq!(ballots[0].ballot.power, d_weight);
    let u = m
        .unvoted_delegated_voting_power(&s("D"), &s(PM), 1, start, total_power)
        .unwrap();
    assert_eq!((u.total, u.effective), (0, 0));
}

#[test]
fn override_above_the_cap_takes_only_what_was_credited() {
    let mut m = module(Some(Decimal::percent(50)), None, 1);
    m.register(&s("D"), 1, 1).unwrap();
    m.delegate(&s("A"), &s("D"), Decimal::percent(100), 3, 1).unwrap();
    m.delegate(&s("B"), &s("D"), Decimal::percent(100), 3, 1).unwrap();
    // total 6, cap floor(10 * 0.5) = 5
    let u = m.unvoted_delegated_voting_power(&s("D"), &s(PM), 1, 2, 10).unwrap();
    assert_eq!((u.total, u.effective), (6, 5));
    let mut ballots = vec![VoterBallot {
        voter: s("D"),
        ballot: Ballot { power: 6, vote: Vote::Yes, rationale: Some(s("why")) },
    }];
    let mut votes = Votes { yes: 6, no: 0, abstain: 0 };
    handle_delegate_vote_override(Some(&m), &s("A"), &s(PM), 1, 2, 3, 10, &mut ballots, &mut votes)
        .unwrap();
    // the effective power drops from 5 to min(6 - 3, 5) = 3
    assert_eq!(ballots[0].ballot.power, 4);
    assert_eq!(ballots[0].ballot.rationale, Some(s("why")));
    assert_eq!(votes.yes, 4);
}

#[test]
fn override_that_cannot_be_tallied_changes_nothing() {
    let mut m = module(None, None, 1);
    m.register(&s("D"), 1, 1).unwrap();
    m.delegate(&s("A"), &s("D"), Decimal::percent(100), 3, 1).unwrap();
    let ballots0 = vec![VoterBallot {
        voter: s("D"),
        ballot: Ballot { power: 2, vote: Vote::Yes, rationale: None },
    }];
    let mut ballots = ballots0.clone();
    let mut votes = Votes { yes: 2, no: 0, abstain: 0 };
    let r = handle_delegate_vote_override(Some(&m), &s("A"), &s(PM), 1, 2, 3, 4, &mut ballots, &mut votes);
    assert_eq!(r, Err(ContractError::Overflow));
    assert_eq!(ballots, ballots0);
    assert_eq!(votes, Votes { yes: 2, no: 0, abstain: 0 });
    // without a delegation module nothing is overridden
    let r = handle_delegate_vote_override(None, &s("A"), &s(PM), 1, 2, 3, 4, &mut ballots, &mut votes);
    assert_eq!(r, Ok(()));
    assert_eq!(ballots, ballots0);
}

#[test]
fn delegated_power_is_scaled_and_rounded_down() {
    assert_eq!(calculate_delegated_vp(9, Decimal::percent(50)), 4);
    assert_eq!(calculate_delegated_vp(123456, Decimal::raw(380_952_380_952_380_952)), 47030);
    assert_eq!(calculate_delegated_vp(0, Decimal::percent(50)), 0);
    assert_eq!(calculate_delegated_vp(7, Decimal::zero()), 0);
    assert_eq!(calculate_delegated_vp(u128::MAX, Decimal::one()), u128::MAX);
    assert_eq!(checked_scale(u128::MAX, Decimal::percent(200)), None);
    assert_eq!(checked_scale(10, Decimal::percent(250)), Some(25));
}

#[test]
fn every_refusal_has_its_error() {
    let mut m = module(None, None, 1);
    assert_eq!(
        m.voting_power_changed_hook(&s("stranger"), &s("a"), 1, 1),
        Err(ContractError::Unauthorized)
    );
    assert_eq!(m.vote_hook(&s("stranger"), 1, &s("a")), Err(ContractError::Unauthorized));
    assert_eq!(
        m.update_config(&s(DAO), Some(Update::Assign(Decimal::percent(10))), Some(Update::Assign(1)), None, 1),
        Err(ContractError::InvalidDelegationValidityBlocks { provided: 1, min: 2 })
    );
    assert_eq!(m.config().delegation_validity_blocks, None);
    assert_eq!(m.vp_cap_percent(5), None);
    m.update_config(&s(DAO), Some(Update::Assign(Decimal::percent(10))), Some(Update::Assign(2)), None, 1)
        .unwrap();
    assert_eq!(m.config().delegation_validity_blocks, Some(2));
    assert_eq!(m.vp_cap_percent(1), None);
    assert_eq!(m.vp_cap_percent(2), Some(Decimal::percent(10)));
}

#[test]
fn delegated_power_that_does_not_fit_is_reported() {
    let mut m = module(None, None, 1);
    m.register(&s("d"), 1, 1).unwrap();
    m.delegate(&s("a"), &s("d"), Decimal::percent(100), u128::MAX, 1).unwrap();
    m.delegate(&s("b"), &s("d"), Decimal::percent(100), u128::MAX, 1).unwrap();
    assert_eq!(m.registration(&s("d"), 2), Err(ContractError::Overflow));
    assert_eq!(m.delegates(2), Err(ContractError::Overflow));
    assert_eq!(
        m.unvoted_delegated_voting_power(&s("d"), &s(PM), 1, 2, 1),
        Err(ContractError::Overflow)
    );
}

#[test]
fn hook_callers_are_added_and_removed() {
    let mut m = module(None, None, 1);
    m.update_voting_power_hook_callers(&s(DAO), Some(vec![s("x"), s("y")]), Some(vec![s(GROUP), s("y")]))
        .unwrap();
    assert_eq!(m.voting_power_hook_callers(), vec![s("x")]);
    assert_eq!(
        m.voting_power_changed_hook(&s(GROUP), &s("a"), 1, 1),
        Err(ContractError::Unauthorized)
    );
    m.voting_power_changed_hook(&s("x"), &s("a"), 1, 1).unwrap();
}

#[test]
fn propose_message_gets_the_sender_as_proposer() {
    let msg = ProposeMessage::Propose {
        title: s("title"),
        description: s("description"),
        choices: MultipleChoiceOptions {
            options: vec![MultipleChoiceOption {
                title: s("one"),
                description: s("first"),
                msgs: vec![],
            }],
        },
        vote: Some(MultipleChoiceAutoVote {
            vote: MultipleChoiceVote { option_id: 0 },
            rationale: None,
        }),
    };
    let out = msg.clone().into_propose_msg(s("sender"));
    let expected = MultipleChoiceProposeMsg {
        title: s("title"),
        description: s("description"),
        choices: MultipleChoiceOptions {
            options: vec![MultipleChoiceOption {
                title: s("one"),
                description: s("first"),
                msgs: vec![],
            }],
        },
        proposer: Some(s("sender")),
        vote: Some(MultipleChoiceAutoVote {
            vote: MultipleChoiceVote { option_id: 0 },
            rationale: None,
        }),
    };
    assert_eq!(out, expected);
}

#[test]
fn delegations_come_in_pages() {
    let mut m = module(None, None, 1);
    for d in ["d1", "d2", "d3"] {
        m.register(&s(d), 1, 1).unwrap();
    }
    m.delegate(&s("a"), &s("d1"), Decimal::percent(10), 5, 1).unwrap();
    m.delegate(&s("a"), &s("d2"), Decimal::percent(20), 5, 1).unwrap();
    m.delegate(&s("a"), &s("d3"), Decimal::percent(30), 5, 1).unwrap();
    let all = m.delegations_page(&s("a"), 2, None, None).delegations;
    assert_eq!(all.len(), 3);
    let page = m.delegations_page(&s("a"), 2, Some(1), Some(1)).delegations;
    assert_eq!(page.len(), 1);
    assert_eq!(page[0].delegate, s("d2"));
    assert_eq!(page[0].percent, Decimal::percent(20));
    let rest = m.delegations_page(&s("a"), 2, Some(1), None).delegations;
    assert_eq!(rest.iter().map(|d| d.delegate.clone()).collect::<Vec<_>>(), vec![s("d2"), s("d3")]);
    assert!(m.delegations_page(&s("a"), 2, Some(5), Some(2)).delegations.is_empty());
    assert_eq!(m.delegations_page(&s("a"), 2, None, Some(2)).delegations.len(), 2);
}

fn legacy(id: u64, status: ApprovalProposalStatus) -> LegacyProposal {
    LegacyProposal {
        status,
        approval_id: id,
        proposer: s("proposer"),
        msg: SingleChoiceProposeMsg {
            title: s("title"),
            description: s("description"),
            msgs: vec![],
            proposer: Some(s("proposer")),
            vote: Some(SingleChoiceAutoVote { vote: Vote::Yes, rationale: Some(s("because")) }),
        },
        deposit: Some(CheckedDepositInfo {
            denom: CheckedDenom::Native(s("ujuno")),
            amount: 10,
            refund_policy: DepositRefundPolicy::OnlyPassed,
        }),
    }
}

#[test]
fn stored_pre_proposals_get_their_approver() {
    let pending = vec![(1, legacy(1, ApprovalProposalStatus::Pending))];
    let completed = vec![
        (2, legacy(2, ApprovalProposalStatus::Approved { created_proposal_id: 7 })),
        (3, legacy(3, ApprovalProposalStatus::Rejected)),
    ];
    let (p, c) = migrate_proposals(pending, completed, &s("approver")).unwrap();
    assert_eq!(p.len(), 1);
    assert_eq!(p[0].0, 1);
    assert_eq!(p[0].1.status, ApprovalProposalStatus::Pending);
    assert_eq!(p[0].1.approver, s("approver"));
    assert_eq!(p[0].1.msg, legacy(1, ApprovalProposalStatus::Pending).msg);
    assert_eq!(c.len(), 2);
    assert_eq!(c[0].1.status, ApprovalProposalStatus::Approved { created_proposal_id: 7 });
    assert_eq!(c[1].1.status, ApprovalProposalStatus::Rejected);
    assert_eq!(c[1].1.approval_id, 3);
    assert_eq!(c[1].1.deposit, legacy(3, ApprovalProposalStatus::Rejected).deposit);
    assert_eq!(c[1].1.approver, s("approver"));
}

#[test]
fn completed_pre_proposal_recorded_pending_stops_the_rewrite() {
    let completed = vec![(4, legacy(4, ApprovalProposalStatus::Pending))];
    assert_eq!(
        migrate_proposals(vec![], completed, &s("approver")),
        Err(MigrationError::UnexpectedProposalStatus)
    );
    assert_eq!(
        migrate_completed_proposal(legacy(5, ApprovalProposalStatus::Pending), s("approver")),
        Err(MigrationError::UnexpectedProposalStatus)
    );
    let p = migrate_pending_proposal(legacy(6, ApprovalProposalStatus::Rejected), s("approver"));
    assert_eq!(p.status, ApprovalProposalStatus::Pending);
}
