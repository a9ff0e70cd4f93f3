//! The part of a single-choice proposal module that vote overrides touch:
//! ballots and the running tally.

use vstd::prelude::*;

verus! {

/// A position on a single-choice proposal.
#[derive(Debug, Clone, Copy, PartialEq, Eq, Structural)]
pub enum Vote {
    Yes,
    No,
    Abstain,
}

/// The voting power tallied behind each position.
#[derive(Debug, Clone, Copy, PartialEq, Eq, Structural)]
pub struct Votes {
    pub yes: u128,
    pub no: u128,
    pub abstain: u128,
}

/// The tally behind `vote`.
pub open spec fn votes_for(votes: Votes, vote: Vote) -> u128 {
    match vote {
        Vote::Yes => votes.yes,
        Vote::No => votes.no,
        Vote::Abstain => votes.abstain,
    }
}

/// `votes` with `amount` taken from the tally behind `vote`.
pub open spec fn votes_without(votes: Votes, vote: Vote, amount: u128) -> Votes
    recommends
        amount <= votes_for(votes, vote),
{
    match vote {
        Vote::Yes => Votes { yes: (votes.yes - amount) as u128, ..votes },
        Vote::No => Votes { no: (votes.no - amount) as u128, ..votes },
        Vote::Abstain => Votes { abstain: (votes.abstain - amount) as u128, ..votes },
    }
}

impl Votes {
    pub fn zero() -> (r: Votes)
        ensures
            r == (Votes { yes: 0, no: 0, abstain: 0 }),
    {
        Votes { yes: 0, no: 0, abstain: 0 }
    }

    /// Adds `power` to the tally behind `vote`, or `None` where that tally
    /// would overflow.
    pub fn add_vote(&self, vote: Vote, power: u128) -> (r: Option<Votes>)
        ensures
            match r {
                Some(v) => votes_for(v, vote) == votes_for(*self, vote) + power && votes_without(
                    v,
                    vote,
                    power,
                ) == *self,
                None => votes_for(*self, vote) + power > u128::MAX,
            },
    {
        match vote {
            Vote::Yes => if self.yes <= u128::MAX - power {
                Some(Votes { yes: self.yes + power, ..*self })
            } else {
                None
            },
            Vote::No => if self.no <= u128::MAX - power {
                Some(Votes { no: self.no + power, ..*self })
            } else {
                None
            },
            Vote::Abstain => if self.abstain <= u128::MAX - power {
                Some(Votes { abstain: self.abstain + power, ..*self })
            } else {
                None
            },
        }
    }

    /// Takes `power` from the tally behind `vote`, or `None` where that
    /// tally holds less.
    pub fn remove_vote(&self, vote: Vote, power: u128) -> (r: Option<Votes>)
        ensures
            match r {
                Some(v) => power <= votes_for(*self, vote) && v == votes_without(*self, vote, power),
                None => power > votes_for(*self, vote),
            },
    {
        match vote {
            Vote::Yes => if power <= self.yes {
                Some(Votes { yes: self.yes - power, ..*self })
            } else {
                None
            },
            Vote::No => if power <= self.no {
                Some(Votes { no: self.no - power, ..*self })
            } else {
                None
            },
            Vote::Abstain => if power <= self.abstain {
                Some(Votes { abstain: self.abstain - power, ..*self })
            } else {
                None
            },
        }
    }
}

/// A vote cast on a proposal.
#[derive(Debug, Clone, PartialEq, Eq)]
pub struct Ballot {
    /// The voting power behind the vote, delegated power included. This is
    /// the amount tallied for this ballot.
    pub power: u128,
    /// The position.
    pub vote: Vote,
    /// Why the vote was cast, if the voter said.
    pub rationale: Option<String>,
}

/// A ballot together with the address that cast it.
#[derive(Debug, Clone, PartialEq, Eq)]
pub struct VoterBallot {
    pub voter: String,
    pub ballot: Ballot,
}

/// The index of the first ballot in `ballots`, from `i` on, cast by `voter`.
pub open spec fn ballot_pos(ballots: Seq<VoterBallot>, voter: Seq<char>, i: int) -> Option<int>
    decreases ballots.len() - i,
{
    if i < 0 || i >= ballots.len() {
        None
    } else if ballots[i].voter@ == voter {
        Some(i)
    } else {
        ballot_pos(ballots, voter, i + 1)
    }
}

/// The index of the first ballot cast by `voter`, if any.
pub fn find_ballot(ballots: &Vec<VoterBallot>, voter: &String) -> (r: Option<usize>)
    ensures
        match r {
            Some(i) => ballot_pos(ballots@, voter@, 0) == Some(i as int) && i < ballots@.len()
                && ballots@[i as int].voter@ == voter@,
            None => ballot_pos(ballots@, voter@, 0) == None::<int>,
        },
{
    let mut i: usize = 0;
    while i < ballots.len()
        invariant
            i <= ballots@.len(),
            ballot_pos(ballots@, voter@, 0) == ballot_pos(ballots@, voter@, i as int),
        decreases ballots@.len() - i,
    {
        if ballots[i].voter == *voter {
            return Some(i);
        }
        i = i + 1;
    }
    None
}

/// A copy of `rationale`.
fn copy_rationale(rationale: &Option<String>) -> (r: Option<String>)
    ensures
        r == *rationale,
{
    match rationale {
        Some(s) => Some(s.clone()),
        None => None,
    }
}

/// A copy of `ballots`.
pub fn copy_ballots(ballots: &Vec<VoterBallot>) -> (r: Vec<VoterBallot>)
    ensures
        r@ == ballots@,
{
    let mut out: Vec<VoterBallot> = Vec::new();
    let mut i: usize = 0;
    while i < ballots.len()
        invariant
            i <= ballots@.len(),
            out@ == ballots@.take(i as int),
        decreases ballots@.len() - i,
    {
        let b = &ballots[i];
        let copy = VoterBallot {
            voter: b.voter.clone(),
            ballot: Ballot {
                power: b.ballot.power,
                vote: b.ballot.vote,
                rationale: copy_rationale(&b.ballot.rationale),
            },
        };
        out.push(copy);
        i = i + 1;
        assert(out@ =~= ballots@.take(i as int));
    }
    assert(ballots@.take(i as int) =~= ballots@);
    out
}

/// Declares cosmwasm_std's `Empty`, the message extension a DAO's proposals
/// carry, so that messages can be held in proposals.
#[verifier::external_type_specification]
#[verifier::external_body]
pub struct ExEmpty(cosmwasm_std::Empty);

/// Declares cosmwasm_std's `CosmosMsg`, the messages a proposal executes if
/// it passes. They are carried through, never looked into.
#[verifier::external_type_specification]
#[verifier::external_body]
#[verifier::reject_recursive_types(T)]
pub struct ExCosmosMsg<T>(cosmwasm_std::CosmosMsg<T>);

/// A vote the proposer casts when proposing.
#[derive(Debug, Clone, PartialEq, Eq)]
pub struct SingleChoiceAutoVote {
    pub vote: Vote,
    pub rationale: Option<String>,
}

/// The message that creates a proposal in a single-choice proposal module.
#[derive(Debug, Clone, PartialEq)]
pub struct SingleChoiceProposeMsg {
    pub title: String,
    pub description: String,
    /// What executes if the proposal passes.
    pub msgs: Vec<cosmwasm_std::CosmosMsg<cosmwasm_std::Empty>>,
    /// Who proposes, set by a pre-propose module and `None` otherwise.
    pub proposer: Option<String>,
    /// A vote the proposer casts at once, if any.
    pub vote: Option<SingleChoiceAutoVote>,
}

/// One choice of a multiple-choice proposal.
#[derive(Debug, Clone, PartialEq)]
pub struct MultipleChoiceOption {
    pub title: String,
    pub description: String,
    /// What executes if this choice wins.
    pub msgs: Vec<cosmwasm_std::CosmosMsg<cosmwasm_std::Empty>>,
}

/// The choices of a multiple-choice proposal.
#[derive(Debug, Clone, PartialEq)]
pub struct MultipleChoiceOptions {
    pub options: Vec<MultipleChoiceOption>,
}

/// A vote for one choice, by its index.
#[derive(Debug, Clone, Copy, PartialEq, Eq, Structural)]
pub struct MultipleChoiceVote {
    pub option_id: u32,
}

/// A vote the proposer casts when proposing.
#[derive(Debug, Clone, PartialEq, Eq)]
pub struct MultipleChoiceAutoVote {
    pub vote: MultipleChoiceVote,
    pub rationale: Option<String>,
}

/// The message that creates a proposal in a multiple-choice proposal
/// module.
#[derive(Debug, Clone, PartialEq)]
pub struct MultipleChoiceProposeMsg {
    pub title: String,
    pub description: String,
    pub choices: MultipleChoiceOptions,
    /// Who proposes, set by a pre-propose module and `None` otherwise.
    pub proposer: Option<String>,
    /// A vote the proposer casts at once, if any.
    pub vote: Option<MultipleChoiceAutoVote>,
}

/// What a member sends a multiple-choice pre-propose module to propose.
#[derive(Debug, Clone, PartialEq)]
pub enum ProposeMessage {
    Propose {
        title: String,
        description: String,
        choices: MultipleChoiceOptions,
        vote: Option<MultipleChoiceAutoVote>,
    },
}

impl ProposeMessage {
    /// The message the pre-propose module forwards to its proposal module
    /// for this one, sent by `sender`: the same proposal, with `sender` as
    /// its proposer.
    pub fn into_propose_msg(self, sender: String) -> (r: MultipleChoiceProposeMsg)
        ensures
            match self {
                ProposeMessage::Propose { title, description, choices, vote } => r == (
                MultipleChoiceProposeMsg { title, description, choices, proposer: Some(sender), vote }),
            },
    {
        match self {
            ProposeMessage::Propose { title, description, choices, vote } => MultipleChoiceProposeMsg {
                title,
                description,
                choices,
                proposer: Some(sender),
                vote,
            },
        }
    }
}

} // verus!
