//! The delegation module: delegate registry, delegation ledger, voting power
//! sync and the record of who has voted on which proposal.
//!
//! Every call takes the current block height. Writes made at height `h`
//! show in reads as of any height above `h` (see [`crate::snapshot`]); the
//! checks a call makes read the state after every write so far. Delegated
//! voting power, both a delegate's total and the part of it not yet used on a
//! proposal, is derived on read from the ledger and from the voting power
//! recorded for each delegator, so expiry needs no scheduled work.

use crate::decimal::{checked_scale, floor_mul, Decimal, DECIMAL_FRACTIONAL};
use crate::delegation::{
    calculate_delegated_vp, delegation_view, Config, Delegate, DelegateResponse, DelegatesResponse,
    Delegation, DelegationResponse, DelegationsResponse, RegistrationResponse,
    UnvotedDelegatedVotingPowerResponse,
};
use crate::error::ContractError;
use crate::snapshot::{Snapshot, SnapshotMap};
use vstd::prelude::*;

verus! {

/// The number of delegations a member may have when none is configured.
pub const DEFAULT_MAX_DELEGATIONS: u64 = 50;

/// The shortest delegation validity window that may be configured.
pub const MIN_DELEGATION_VALIDITY_BLOCKS: u64 = 2;

/// A change to an optional setting.
#[derive(Debug, Clone, Copy, PartialEq, Eq)]
pub enum Update<T> {
    Assign(T),
    Clear,
}

/// One delegation in the ledger, with the heights that bound it.
pub struct DelegationEntry {
    pub delegator: String,
    pub delegation: Delegation,
    /// The height of the call that created it.
    pub created_at: u64,
    /// The first height at which it no longer applies, if it expires.
    pub expires_at: Option<u64>,
    /// The height of the call that revoked or replaced it, if any.
    pub removed_at: Option<u64>,
}

/// A voter whose vote on a proposal has been reported.
pub struct VoteRecord {
    pub proposal_module: String,
    pub proposal_id: u64,
    pub voter: String,
}

/// Whether `e` applies to reads as of height `q`: created in an earlier
/// block, not yet expired at `q`, and not revoked before block `q`.
pub open spec fn live_at(e: DelegationEntry, q: int) -> bool {
    &&& (e.created_at as int) < q
    &&& match e.expires_at {
        Some(x) => q < x as int,
        None => true,
    }
    &&& match e.removed_at {
        Some(r) => q <= r as int,
        None => true,
    }
}

/// Whether some entry of `ds` is for delegate `a`.
pub open spec fn lists_delegate(ds: Seq<DelegateResponse>, a: Seq<char>) -> bool {
    exists|i: int| 0 <= i < ds.len() && ds[i].delegate@ == a
}

/// Whether `a` is in `s`.
pub open spec fn contains_addr(s: Seq<String>, a: Seq<char>) -> bool {
    exists|i: int| 0 <= i < s.len() && #[trigger] s[i]@ == a
}

/// The share `e` adds to its delegator's total at height `q`.
pub open spec fn percent_term(e: DelegationEntry, a: Seq<char>, q: int) -> int {
    if e.delegator@ == a && live_at(e, q) {
        e.delegation.percent.atomics as int
    } else {
        0
    }
}

/// The sum of the percents of `a`'s delegations in `s` that apply at `q`.
pub open spec fn percent_sum(s: Seq<DelegationEntry>, a: Seq<char>, q: int) -> int
    decreases s.len(),
{
    if s.len() == 0 {
        0
    } else {
        percent_sum(s.drop_last(), a, q) + percent_term(s.last(), a, q)
    }
}

/// The share `e` adds to `a`'s delegations to others than `d` at `q`.
pub open spec fn others_term(e: DelegationEntry, a: Seq<char>, d: Seq<char>, q: int) -> int {
    if e.delegation.delegate@ != d {
        percent_term(e, a, q)
    } else {
        0
    }
}

/// The sum of the percents of `a`'s delegations in `s` to delegates other
/// than `d` that apply at `q`.
pub open spec fn others_sum(s: Seq<DelegationEntry>, a: Seq<char>, d: Seq<char>, q: int) -> int
    decreases s.len(),
{
    if s.len() == 0 {
        0
    } else {
        others_sum(s.drop_last(), a, d, q) + others_term(s.last(), a, d, q)
    }
}

/// Whether `e` is a delegation of `a` that applies at `q`.
pub open spec fn is_live_of(e: DelegationEntry, a: Seq<char>, q: int) -> bool {
    e.delegator@ == a && live_at(e, q)
}

/// The number of `a`'s delegations in `s` that apply at `q`.
pub open spec fn live_count(s: Seq<DelegationEntry>, a: Seq<char>, q: int) -> int
    decreases s.len(),
{
    if s.len() == 0 {
        0
    } else {
        live_count(s.drop_last(), a, q) + if is_live_of(s.last(), a, q) {
            1int
        } else {
            0
        }
    }
}

/// The number of `a`'s delegations to `d` in `s` that apply at `q`.
pub open spec fn pair_count(s: Seq<DelegationEntry>, a: Seq<char>, d: Seq<char>, q: int) -> int
    decreases s.len(),
{
    if s.len() == 0 {
        0
    } else {
        pair_count(s.drop_last(), a, d, q) + if is_live_of(s.last(), a, q)
            && s.last().delegation.delegate@ == d {
            1int
        } else {
            0
        }
    }
}

/// `e` revoked at height `h` if it is a delegation of `a` to `d` that still
/// applies after every write so far.
pub open spec fn revoke_pair(e: DelegationEntry, a: Seq<char>, d: Seq<char>, h: u64) -> DelegationEntry {
    if is_live_of(e, a, h + 1) && e.delegation.delegate@ == d {
        DelegationEntry { removed_at: Some(h), ..e }
    } else {
        e
    }
}

pub open spec fn revoke_all(s: Seq<DelegationEntry>, a: Seq<char>, d: Seq<char>, h: u64) -> Seq<
    DelegationEntry,
> {
    Seq::new(s.len(), |i: int| revoke_pair(s[i], a, d, h))
}

/// Revoking the live delegations of one pair leaves every other member's
/// totals, and every total at a height up to the revocation, as they were;
/// above it, `a`'s total is at most that of `a`'s delegations to others.
proof fn lemma_revoke_sums(s: Seq<DelegationEntry>, a: Seq<char>, d: Seq<char>, h: u64, b: Seq<char>, q: int)
    requires
        forall|i: int| 0 <= i < s.len() ==> (#[trigger] s[i]).created_at <= h,
    ensures
        (b != a || q <= h) ==> percent_sum(revoke_all(s, a, d, h), b, q) == percent_sum(s, b, q),
        q > h ==> percent_sum(revoke_all(s, a, d, h), a, q) <= others_sum(s, a, d, h + 1),
        live_count(revoke_all(s, a, d, h), a, h + 1) == live_count(s, a, h + 1) - pair_count(s, a, d, h + 1),
    decreases s.len(),
{
    let r = revoke_all(s, a, d, h);
    if s.len() > 0 {
        let s0 = s.drop_last();
        lemma_revoke_sums(s0, a, d, h, b, q);
        assert(r.drop_last() =~= revoke_all(s0, a, d, h));
        let e = s.last();
        assert(r.last() == revoke_pair(e, a, d, h));
    }
}

/// Appending a delegation adds its share, and nothing for any other member.
proof fn lemma_push_sums(s: Seq<DelegationEntry>, e: DelegationEntry, b: Seq<char>, q: int)
    ensures
        percent_sum(s.push(e), b, q) == percent_sum(s, b, q) + percent_term(e, b, q),
        live_count(s.push(e), b, q) == live_count(s, b, q) + if is_live_of(e, b, q) {
            1int
        } else {
            0
        },
{
    assert(s.push(e).drop_last() =~= s);
}

/// The share of `a`'s delegations to others than `d` is part of `a`'s
/// whole share.
proof fn lemma_others_le(s: Seq<DelegationEntry>, a: Seq<char>, d: Seq<char>, q: int)
    ensures
        0 <= others_sum(s, a, d, q) <= percent_sum(s, a, q),
    decreases s.len(),
{
    if s.len() > 0 {
        lemma_others_le(s.drop_last(), a, d, q);
    }
}

/// A prefix of the ledger adds up to no more than the whole.
proof fn lemma_percent_prefix(s: Seq<DelegationEntry>, a: Seq<char>, q: int, i: int)
    requires
        0 <= i <= s.len(),
    ensures
        percent_sum(s.take(i), a, q) <= percent_sum(s, a, q),
    decreases s.len(),
{
    if i < s.len() {
        lemma_percent_prefix(s.drop_last(), a, q, i);
        assert(s.drop_last().take(i) =~= s.take(i));
    } else {
        assert(s.take(i) =~= s);
    }
}

/// The sums over `s.take(i + 1)` extend those over `s.take(i)` by `s[i]`.
proof fn lemma_take_step(s: Seq<DelegationEntry>, i: int)
    requires
        0 <= i < s.len(),
    ensures
        s.take(i + 1).drop_last() == s.take(i),
        s.take(i + 1).last() == s[i],
{
    assert(s.take(i + 1).drop_last() =~= s.take(i));
}

/// Whether `e` applies at height `q`.
fn is_live(e: &DelegationEntry, q: u64) -> (r: bool)
    ensures
        r == live_at(*e, q as int),
{
    if e.created_at >= q {
        return false;
    }
    let not_expired = match e.expires_at {
        Some(x) => q < x,
        None => true,
    };
    let not_removed = match e.removed_at {
        Some(r) => q <= r,
        None => true,
    };
    not_expired && not_removed
}

/// Whether `a` is in `list`.
fn list_contains(list: &Vec<String>, a: &String) -> (r: bool)
    ensures
        r == contains_addr(list@, a@),
{
    let mut i: usize = 0;
    while i < list.len()
        invariant
            i <= list@.len(),
            forall|k: int| 0 <= k < i ==> (#[trigger] list@[k])@ != a@,
        decreases list@.len() - i,
    {
        if list[i] == *a {
            return true;
        }
        i = i + 1;
    }
    false
}

/// Adds each address of `add` that `list` lacks.
fn add_all(list: &mut Vec<String>, add: &Vec<String>)
    ensures
        forall|a: Seq<char>| #[trigger]
            contains_addr(final(list)@, a) == (contains_addr(old(list)@, a) || contains_addr(add@, a)),
{
    let mut i: usize = 0;
    while i < add.len()
        invariant
            i <= add@.len(),
            forall|a: Seq<char>| #[trigger]
                contains_addr(list@, a) == (contains_addr(old(list)@, a) || contains_addr(
                    add@.take(i as int),
                    a,
                )),
        decreases add@.len() - i,
    {
        let ghost before = list@;
        if !list_contains(list, &add[i]) {
            list.push(add[i].clone());
        }
        proof {
            assert forall|a: Seq<char>| #[trigger] contains_addr(list@, a) == (contains_addr(before, a)
                || add@[i as int]@ == a) by {
                if contains_addr(before, a) {
                    let k = choose|k: int| 0 <= k < before.len() && #[trigger] before[k]@ == a;
                    assert(list@[k] == before[k]);
                }
                if add@[i as int]@ == a && !contains_addr(before, a) {
                    assert(list@[before.len() as int]@ == a);
                }
            }
            assert forall|a: Seq<char>| #[trigger] contains_addr(add@.take(i + 1), a) == (
            contains_addr(add@.take(i as int), a) || add@[i as int]@ == a) by {
                if contains_addr(add@.take(i + 1), a) {
                    let k = choose|k: int| 0 <= k < i + 1 && #[trigger] add@.take(i + 1)[k]@ == a;
                    if k < i {
                        assert(add@.take(i as int)[k] == add@.take(i + 1)[k]);
                    }
                }
                if contains_addr(add@.take(i as int), a) {
                    let k = choose|k: int| 0 <= k < i && #[trigger] add@.take(i as int)[k]@ == a;
                    assert(add@.take(i + 1)[k] == add@.take(i as int)[k]);
                }
                if add@[i as int]@ == a {
                    assert(add@.take(i + 1)[i as int] == add@[i as int]);
                }
            }
        }
        i = i + 1;
    }
    assert(add@.take(i as int) =~= add@);
}

/// Drops every address of `remove` from `list`.
fn remove_all(list: &mut Vec<String>, remove: &Vec<String>)
    ensures
        forall|a: Seq<char>| #[trigger]
            contains_addr(final(list)@, a) == (contains_addr(old(list)@, a) && !contains_addr(remove@, a)),
{
    let mut kept: Vec<String> = Vec::new();
    let mut i: usize = 0;
    while i < list.len()
        invariant
            i <= list@.len(),
            forall|a: Seq<char>| #[trigger]
                contains_addr(kept@, a) == (contains_addr(list@.take(i as int), a) && !contains_addr(
                    remove@,
                    a,
                )),
        decreases list@.len() - i,
    {
        let ghost before = kept@;
        let x = &list[i];
        if !list_contains(remove, x) {
            kept.push(x.clone());
        }
        proof {
            assert forall|a: Seq<char>| #[trigger] contains_addr(list@.take(i + 1), a) == (
            contains_addr(list@.take(i as int), a) || list@[i as int]@ == a) by {
                if contains_addr(list@.take(i + 1), a) {
                    let k = choose|k: int| 0 <= k < i + 1 && #[trigger] list@.take(i + 1)[k]@ == a;
                    if k < i {
                        assert(list@.take(i as int)[k] == list@.take(i + 1)[k]);
                    }
                }
                if contains_addr(list@.take(i as int), a) {
                    let k = choose|k: int| 0 <= k < i && #[trigger] list@.take(i as int)[k]@ == a;
                    assert(list@.take(i + 1)[k] == list@.take(i as int)[k]);
                }
                if list@[i as int]@ == a {
                    assert(list@.take(i + 1)[i as int] == list@[i as int]);
                }
            }
            assert forall|a: Seq<char>| #[trigger] contains_addr(kept@, a) == (contains_addr(before, a)
                || (list@[i as int]@ == a && !contains_addr(remove@, a))) by {
                if contains_addr(before, a) {
                    let k = choose|k: int| 0 <= k < before.len() && #[trigger] before[k]@ == a;
                    assert(kept@[k] == before[k]);
                }
                if contains_addr(kept@, a) {
                    let k = choose|k: int| 0 <= k < kept@.len() && #[trigger] kept@[k]@ == a;
                    if k < before.len() {
                        assert(before[k] == kept@[k]);
                    }
                }
                if list@[i as int]@ == a && !contains_addr(remove@, a) {
                    assert(kept@[before.len() as int]@ == a);
                }
            }
        }
        i = i + 1;
    }
    assert(list@.take(i as int) =~= list@);
    *list = kept;
}

/// A copy of `list`.
fn copy_list(list: &Vec<String>) -> (r: Vec<String>)
    ensures
        r@ == list@,
{
    let mut out: Vec<String> = Vec::new();
    let mut i: usize = 0;
    while i < list.len()
        invariant
            i <= list@.len(),
            out@ == list@.take(i as int),
        decreases list@.len() - i,
    {
        out.push(list[i].clone());
        i = i + 1;
        assert(out@ =~= list@.take(i as int));
    }
    assert(list@.take(i as int) =~= list@);
    out
}

/// Whether `v` is an acceptable delegation validity window.
pub open spec fn valid_validity_blocks(v: Option<u64>) -> bool {
    match v {
        Some(b) => b >= MIN_DELEGATION_VALIDITY_BLOCKS,
        None => true,
    }
}

/// The first height at which a delegation made at `height` no longer
/// applies, under validity window `validity`. A window reaching past the
/// largest height never closes.
pub open spec fn expiry_for(height: u64, validity: Option<u64>) -> Option<u64> {
    match validity {
        Some(b) => if height + b <= u64::MAX {
            Some((height + b) as u64)
        } else {
            None
        },
        None => None,
    }
}

/// The ledger entry that a delegation made at `height` adds.
pub open spec fn new_entry(
    delegator: String,
    delegate: String,
    percent: Decimal,
    height: u64,
    validity: Option<u64>,
) -> DelegationEntry {
    DelegationEntry {
        delegator,
        delegation: Delegation { delegate, percent },
        created_at: height,
        expires_at: expiry_for(height, validity),
        removed_at: None,
    }
}

/// The outcome the checks of a delegation call decide, in the order they
/// are made: `count` is the number of the delegator's delegations in force,
/// `pair` how many of them go to `delegate`, `others` the sum of the percents
/// of the rest.
pub open spec fn delegate_outcome(
    delegate_registered: bool,
    delegator_registered: bool,
    voting_power: u128,
    percent: Decimal,
    max: u64,
    count: int,
    pair: int,
    others: int,
) -> Result<(), ContractError> {
    if !delegate_registered {
        Err(ContractError::DelegateNotRegistered)
    } else if delegator_registered {
        Err(ContractError::DelegatesCannotDelegate)
    } else if voting_power == 0 {
        Err(ContractError::NoVotingPower)
    } else if percent.atomics == 0 || percent.atomics > DECIMAL_FRACTIONAL {
        Err(ContractError::InvalidVotingPowerPercent)
    } else if (pair == 0 && count >= max) || (pair > 0 && count > max) {
        Err(ContractError::MaxDelegationsReached { max, current: count as u64 })
    } else if others + percent.atomics > DECIMAL_FRACTIONAL {
        Err(
            ContractError::CannotDelegateMoreThan100Percent {
                current: Decimal { atomics: others as u128 },
                attempt: Decimal { atomics: (others + percent.atomics) as u128 },
            },
        )
    } else {
        Ok(())
    }
}

/// The module's state.
pub struct DelegationModule {
    dao: String,
    height: u64,
    config: Config,
    vp_cap_percent: Snapshot<Option<Decimal>>,
    vp_hook_callers: Vec<String>,
    proposal_modules: Vec<String>,
    registrations: SnapshotMap<Option<Delegate>>,
    powers: SnapshotMap<u128>,
    delegations: Vec<DelegationEntry>,
    votes: Vec<VoteRecord>,
}

impl DelegationModule {
    /// The DAO that administers the module.
    pub closed spec fn dao_addr(&self) -> Seq<char> {
        self.dao@
    }

    /// The height of the latest call that changed the state.
    pub closed spec fn last_height(&self) -> int {
        self.height as int
    }

    pub closed spec fn config_view(&self) -> Config {
        self.config
    }

    /// The ledger, oldest entry first.
    pub closed spec fn ledger(&self) -> Seq<DelegationEntry> {
        self.delegations@
    }

    /// Whether `a` is registered as of height `q`.
    pub closed spec fn registered_at(&self, a: Seq<char>, q: int) -> bool {
        self.registrations.at(a, q) == Some(Some(Delegate {  }))
    }

    /// Whether `a` is registered after every write so far.
    pub closed spec fn registered_now(&self, a: Seq<char>) -> bool {
        self.registrations.latest(a) == Some(Some(Delegate {  }))
    }

    /// The voting power recorded for `a` as of height `q`.
    pub closed spec fn power_at(&self, a: Seq<char>, q: int) -> u128 {
        match self.powers.at(a, q) {
            Some(p) => p,
            None => 0,
        }
    }

    /// The voting power cap in effect as of height `q`.
    pub closed spec fn vp_cap_at(&self, q: int) -> Option<Decimal> {
        match self.vp_cap_percent.at(q) {
            Some(c) => c,
            None => None,
        }
    }

    pub closed spec fn is_hook_caller(&self, a: Seq<char>) -> bool {
        contains_addr(self.vp_hook_callers@, a)
    }

    pub closed spec fn is_proposal_module(&self, a: Seq<char>) -> bool {
        contains_addr(self.proposal_modules@, a)
    }

    /// Whether `voter`'s vote on proposal `id` of `module` has been reported.
    pub closed spec fn has_voted(&self, module: Seq<char>, id: u64, voter: Seq<char>) -> bool {
        exists|i: int|
            0 <= i < self.votes@.len() && (#[trigger] self.votes@[i]).proposal_module@ == module
                && self.votes@[i].proposal_id == id && self.votes@[i].voter@ == voter
    }

    /// The registry is the same in both states.
    pub closed spec fn same_registry(&self, other: &Self) -> bool {
        self.registrations == other.registrations
    }

    /// The ledger is the same in both states.
    pub closed spec fn same_ledger(&self, other: &Self) -> bool {
        self.delegations@ == other.delegations@
    }

    /// The recorded voting powers are the same in both states.
    pub closed spec fn same_powers(&self, other: &Self) -> bool {
        self.powers == other.powers
    }

    /// The reported votes are the same in both states.
    pub closed spec fn same_votes(&self, other: &Self) -> bool {
        self.votes@ == other.votes@
    }

    /// The DAO, the settings, the cap history and both address lists are the
    /// same in both states.
    pub closed spec fn same_settings(&self, other: &Self) -> bool {
        &&& self.dao == other.dao
        &&& self.config == other.config
        &&& self.vp_cap_percent == other.vp_cap_percent
        &&& self.vp_hook_callers@ == other.vp_hook_callers@
        &&& self.proposal_modules@ == other.proposal_modules@
    }

    pub closed spec fn wf(&self) -> bool {
        &&& valid_validity_blocks(self.config.delegation_validity_blocks)
        &&& self.vp_cap_percent.wf()
        &&& self.registrations.wf()
        &&& self.powers.wf()
        &&& self.vp_cap_percent.writable_at(self.height as int)
        &&& self.registrations.writable_at(self.height as int)
        &&& self.powers.writable_at(self.height as int)
        &&& forall|i: int|
            0 <= i < self.delegations@.len() ==> {
                let e = #[trigger] self.delegations@[i];
                &&& e.created_at <= self.height
                &&& 0 < e.delegation.percent.atomics <= DECIMAL_FRACTIONAL
                &&& match e.removed_at {
                    Some(r) => r <= self.height,
                    None => true,
                }
            }
        &&& forall|a: Seq<char>, q: int|
            #[trigger] percent_sum(self.delegations@, a, q) <= DECIMAL_FRACTIONAL
    }

    /// A module for `dao` with the given settings, created at `height`.
    pub fn instantiate(
        dao: String,
        vp_hook_callers: Vec<String>,
        proposal_modules: Vec<String>,
        vp_cap_percent: Option<Decimal>,
        delegation_validity_blocks: Option<u64>,
        max_delegations: Option<u64>,
        height: u64,
    ) -> (r: Result<DelegationModule, ContractError>)
        ensures
            match r {
                Ok(m) => {
                    &&& valid_validity_blocks(delegation_validity_blocks)
                    &&& m.wf()
                    &&& m.last_height() == height
                    &&& m.dao_addr() == dao@
                    &&& m.config_view() == (Config {
                        delegation_validity_blocks,
                        max_delegations: match max_delegations {
                            Some(x) => x,
                            None => DEFAULT_MAX_DELEGATIONS,
                        },
                    })
                    &&& forall|q: int| #[trigger]
                        m.vp_cap_at(q) == if (height as int) < q {
                            vp_cap_percent
                        } else {
                            None
                        }
                    &&& forall|a: Seq<char>| #[trigger]
                        m.is_hook_caller(a) == contains_addr(vp_hook_callers@, a)
                    &&& forall|a: Seq<char>| #[trigger]
                        m.is_proposal_module(a) == contains_addr(proposal_modules@, a)
                    &&& forall|a: Seq<char>, q: int| !#[trigger] m.registered_at(a, q)
                    &&& forall|a: Seq<char>| !#[trigger] m.registered_now(a)
                    &&& forall|a: Seq<char>, q: int| #[trigger] m.power_at(a, q) == 0
                    &&& m.ledger() == Seq::<DelegationEntry>::empty()
                },
                Err(e) => {
                    &&& !valid_validity_blocks(delegation_validity_blocks)
                    &&& e == ContractError::InvalidDelegationValidityBlocks {
                        provided: delegation_validity_blocks->Some_0,
                        min: MIN_DELEGATION_VALIDITY_BLOCKS,
                    }
                },
            },
    {
        if let Some(b) = delegation_validity_blocks {
            if b < MIN_DELEGATION_VALIDITY_BLOCKS {
                return Err(
                    ContractError::InvalidDelegationValidityBlocks {
                        provided: b,
                        min: MIN_DELEGATION_VALIDITY_BLOCKS,
                    },
                );
            }
        }
        let max = match max_delegations {
            Some(x) => x,
            None => DEFAULT_MAX_DELEGATIONS,
        };
        let mut cap = Snapshot::new();
        cap.save(height, vp_cap_percent);
        let m = DelegationModule {
            dao,
            height,
            config: Config { delegation_validity_blocks, max_delegations: max },
            vp_cap_percent: cap,
            vp_hook_callers,
            proposal_modules,
            registrations: SnapshotMap::new(),
            powers: SnapshotMap::new(),
            delegations: Vec::new(),
            votes: Vec::new(),
        };
        proof {
            assert forall|a: Seq<char>, q: int|
                #[trigger] percent_sum(m.delegations@, a, q) <= DECIMAL_FRACTIONAL by {}
        }
        Ok(m)
    }

    /// Moves the state to `height`, which the next writes will use.
    fn advance(&mut self, height: u64)
        requires
            old(self).wf(),
            old(self).height <= height,
        ensures
            final(self).wf(),
            *final(self) == (DelegationModule { height, ..*old(self) }),
    {
        proof {
            self.vp_cap_percent.lemma_writable_mono(self.height as int, height as int);
            self.registrations.lemma_writable_mono(self.height as int, height as int);
            self.powers.lemma_writable_mono(self.height as int, height as int);
        }
        self.height = height;
    }

    /// Counts, for `a` at height `q`, the delegations in force, those among
    /// them to `d`, and the sum of the percents of the others.
    fn pending_summary(&self, a: &String, d: &String, q: u64) -> (r: (usize, usize, u128))
        requires
            self.wf(),
        ensures
            r.0 == live_count(self.delegations@, a@, q as int),
            r.1 == pair_count(self.delegations@, a@, d@, q as int),
            r.2 == others_sum(self.delegations@, a@, d@, q as int),
    {
        let ghost s = self.delegations@;
        let mut count: usize = 0;
        let mut pair: usize = 0;
        let mut others: u128 = 0;
        let mut i: usize = 0;
        while i < self.delegations.len()
            invariant
                s == self.delegations@,
                self.wf(),
                i <= s.len(),
                count <= i,
                pair <= i,
                count == live_count(s.take(i as int), a@, q as int),
                pair == pair_count(s.take(i as int), a@, d@, q as int),
                others == others_sum(s.take(i as int), a@, d@, q as int),
            decreases s.len() - i,
        {
            let e = &self.delegations[i];
            proof {
                lemma_take_step(s, i as int);
                lemma_others_le(s.take(i + 1), a@, d@, q as int);
                lemma_percent_prefix(s, a@, q as int, i + 1);
                assert(percent_sum(s, a@, q as int) <= DECIMAL_FRACTIONAL);
            }
            if e.delegator == *a && is_live(e, q) {
                count = count + 1;
                if e.delegation.delegate == *d {
                    pair = pair + 1;
                } else {
                    others = others + e.delegation.percent.atomics;
                }
            }
            i = i + 1;
        }
        proof {
            assert(s.take(i as int) =~= s);
        }
        (count, pair, others)
    }

    /// Registers the sender as a delegate. `voting_power` is the sender's
    /// voting power at `height`.
    pub fn register(&mut self, sender: &String, voting_power: u128, height: u64) -> (r: Result<
        (),
        ContractError,
    >)
        requires
            old(self).wf(),
            old(self).last_height() <= height < u64::MAX,
        ensures
            final(self).wf(),
            r == if old(self).registered_now(sender@) {
                Err(ContractError::DelegateAlreadyRegistered)
            } else if voting_power == 0 {
                Err(ContractError::NoVotingPower)
            } else if live_count(old(self).ledger(), sender@, height + 1) > 0 {
                Err(ContractError::DelegateHasActiveDelegations)
            } else {
                Ok(())
            },
            r is Err ==> *final(self) == *old(self),
            r is Ok ==> {
                &&& final(self).last_height() == height
                &&& forall|a: Seq<char>, q: int| #[trigger]
                    final(self).registered_at(a, q) == if a == sender@ && (height as int) < q {
                        true
                    } else {
                        old(self).registered_at(a, q)
                    }
                &&& forall|a: Seq<char>| #[trigger]
                    final(self).registered_now(a) == (a == sender@ || old(self).registered_now(a))
                &&& final(self).same_ledger(old(self))
                &&& final(self).same_powers(old(self))
                &&& final(self).same_votes(old(self))
                &&& final(self).same_settings(old(self))
            },
    {
        if self.registrations.may_load(sender) == Some(Some(Delegate {})) {
            return Err(ContractError::DelegateAlreadyRegistered);
        }
        if voting_power == 0 {
            return Err(ContractError::NoVotingPower);
        }
        let (count, _, _) = self.pending_summary(sender, sender, height + 1);
        if count > 0 {
            return Err(ContractError::DelegateHasActiveDelegations);
        }
        self.advance(height);
        self.registrations.save(sender, height, Some(Delegate {}));
        Ok(())
    }

    /// Unregisters the sender as a delegate. Delegations to them stay in the
    /// ledger, inactive while they are not registered.
    pub fn unregister(&mut self, sender: &String, height: u64) -> (r: Result<(), ContractError>)
        requires
            old(self).wf(),
            old(self).last_height() <= height,
        ensures
            final(self).wf(),
            r == if !old(self).registered_now(sender@) {
                Err(ContractError::DelegateNotRegistered)
            } else {
                Ok(())
            },
            r is Err ==> *final(self) == *old(self),
            r is Ok ==> {
                &&& final(self).last_height() == height
                &&& forall|a: Seq<char>, q: int| #[trigger]
                    final(self).registered_at(a, q) == if a == sender@ && (height as int) < q {
                        false
                    } else {
                        old(self).registered_at(a, q)
                    }
                &&& forall|a: Seq<char>| #[trigger]
                    final(self).registered_now(a) == (a != sender@ && old(self).registered_now(a))
                &&& final(self).same_ledger(old(self))
                &&& final(self).same_powers(old(self))
                &&& final(self).same_votes(old(self))
                &&& final(self).same_settings(old(self))
            },
    {
        if self.registrations.may_load(sender) != Some(Some(Delegate {})) {
            return Err(ContractError::DelegateNotRegistered);
        }
        self.advance(height);
        self.registrations.save(sender, height, None);
        Ok(())
    }
    /// Marks as revoked at `height` every delegation of `a` to `d` in force
    /// after every write so far.
    fn revoke(&mut self, a: &String, d: &String, height: u64)
        requires
            old(self).wf(),
            old(self).height == height,
            height < u64::MAX,
        ensures
            final(self).delegations@ == revoke_all(old(self).delegations@, a@, d@, height),
            *final(self) == (DelegationModule { delegations: final(self).delegations, ..*old(self) }),
    {
        let ghost s = self.delegations@;
        let mut j: usize = 0;
        while j < self.delegations.len()
            invariant
                height < u64::MAX,
                j <= s.len(),
                self.delegations@.len() == s.len(),
                forall|k: int| 0 <= k < j ==> #[trigger] self.delegations@[k] == revoke_pair(s[k], a@, d@, height),
                forall|k: int| j <= k < s.len() ==> #[trigger] self.delegations@[k] == s[k],
                *self == (DelegationModule { delegations: self.delegations, ..*old(self) }),
            decreases s.len() - j,
        {
            let hit = self.delegations[j].delegator == *a && self.delegations[j].delegation.delegate == *d
                && is_live(&self.delegations[j], height + 1);
            if hit {
                self.delegations[j].removed_at = Some(height);
            }
            j = j + 1;
        }
        proof {
            assert(self.delegations@ =~= revoke_all(s, a@, d@, height));
        }
    }

    /// Creates or replaces the sender's delegation of `percent` of their
    /// voting power to `delegate`. `voting_power` is the sender's voting power
    /// at `height`; it is recorded for them. The delegation applies from the
    /// next block on, and for the configured validity window if there is
    /// one.
    pub fn delegate(
        &mut self,
        sender: &String,
        delegate: &String,
        percent: Decimal,
        voting_power: u128,
        height: u64,
    ) -> (r: Result<(), ContractError>)
        requires
            old(self).wf(),
            old(self).last_height() <= height < u64::MAX,
        ensures
            final(self).wf(),
            r == delegate_outcome(
                old(self).registered_now(delegate@),
                old(self).registered_now(sender@),
                voting_power,
                percent,
                old(self).config_view().max_delegations,
                live_count(old(self).ledger(), sender@, height + 1),
                pair_count(old(self).ledger(), sender@, delegate@, height + 1),
                others_sum(old(self).ledger(), sender@, delegate@, height + 1),
            ),
            r is Err ==> *final(self) == *old(self),
            r is Ok ==> {
                &&& final(self).last_height() == height
                &&& final(self).ledger() == revoke_all(old(self).ledger(), sender@, delegate@, height).push(
                    new_entry(
                        *sender,
                        *delegate,
                        percent,
                        height,
                        old(self).config_view().delegation_validity_blocks,
                    ),
                )
                &&& live_at(final(self).ledger().last(), height + 1)
                &&& !live_at(final(self).ledger().last(), height as int)
                &&& forall|q: int|
                    q <= height ==> #[trigger] final(self).delegation_views(sender@, q)
                        == old(self).delegation_views(sender@, q)
                &&& final(self).delegation_views(sender@, height + 1).last() == (
                    delegate@,
                    percent,
                    true,
                )
                &&& forall|a: Seq<char>, q: int| #[trigger]
                    final(self).power_at(a, q) == if a == sender@ && (height as int) < q {
                        voting_power
                    } else {
                        old(self).power_at(a, q)
                    }
                &&& final(self).same_registry(old(self))
                &&& final(self).same_votes(old(self))
                &&& final(self).same_settings(old(self))
            },
    {
        if self.registrations.may_load(delegate) != Some(Some(Delegate {})) {
            return Err(ContractError::DelegateNotRegistered);
        }
        if self.registrations.may_load(sender) == Some(Some(Delegate {})) {
            return Err(ContractError::DelegatesCannotDelegate);
        }
        if voting_power == 0 {
            return Err(ContractError::NoVotingPower);
        }
        if percent.atomics == 0 || percent.atomics > DECIMAL_FRACTIONAL {
            return Err(ContractError::InvalidVotingPowerPercent);
        }
        let (count, pair, others) = self.pending_summary(sender, delegate, height + 1);
        let max = self.config.max_delegations;
        if (pair == 0 && count as u64 >= max) || (pair > 0 && count as u64 > max) {
            return Err(ContractError::MaxDelegationsReached { max, current: count as u64 });
        }
        proof {
            lemma_others_le(self.delegations@, sender@, delegate@, height + 1);
        }
        if others + percent.atomics > DECIMAL_FRACTIONAL {
            return Err(
                ContractError::CannotDelegateMoreThan100Percent {
                    current: Decimal { atomics: others },
                    attempt: Decimal { atomics: others + percent.atomics },
                },
            );
        }
        let ghost s = self.delegations@;
        self.advance(height);
        self.revoke(sender, delegate, height);
        let expires_at = match self.config.delegation_validity_blocks {
            Some(b) => height.checked_add(b),
            None => None,
        };
        let entry = DelegationEntry {
            delegator: sender.clone(),
            delegation: Delegation { delegate: delegate.clone(), percent },
            created_at: height,
            expires_at,
            removed_at: None,
        };
        let ghost revoked = self.delegations@;
        self.delegations.push(entry);
        self.powers.save(sender, height, voting_power);
        proof {
            assert(self.delegations@.drop_last() =~= revoked);
            assert forall|q: int| q <= height implies #[trigger] self.delegation_views(sender@, q)
                == old(self).delegation_views(sender@, q) by {
                self.lemma_views_revoke(old(self), s, sender@, delegate@, height, sender@, q);
            }
            self.registrations.lemma_at_after_writes(height as int, height + 1, delegate@);
            assert forall|b: Seq<char>, q: int|
                #[trigger] percent_sum(self.delegations@, b, q) <= DECIMAL_FRACTIONAL by {
                lemma_revoke_sums(s, sender@, delegate@, height, b, q);
                lemma_push_sums(revoked, entry, b, q);
            }
            assert forall|i: int| 0 <= i < self.delegations@.len() implies {
                let e = #[trigger] self.delegations@[i];
                &&& e.created_at <= self.height
                &&& 0 < e.delegation.percent.atomics <= DECIMAL_FRACTIONAL
                &&& match e.removed_at {
                    Some(r) => r <= self.height,
                    None => true,
                }
            } by {
                if i < s.len() {
                    assert(self.delegations@[i] == revoke_pair(s[i], sender@, delegate@, height));
                }
            }
        }
        Ok(())
    }

    /// Revokes the sender's delegation to `delegate`. It stops applying from
    /// the next block on.
    pub fn undelegate(&mut self, sender: &String, delegate: &String, height: u64) -> (r: Result<
        (),
        ContractError,
    >)
        requires
            old(self).wf(),
            old(self).last_height() <= height < u64::MAX,
        ensures
            final(self).wf(),
            r == if pair_count(old(self).ledger(), sender@, delegate@, height + 1) == 0 {
                Err(ContractError::DelegationNotFound)
            } else {
                Ok(())
            },
            r is Err ==> *final(self) == *old(self),
            r is Ok ==> {
                &&& final(self).last_height() == height
                &&& final(self).ledger() == revoke_all(old(self).ledger(), sender@, delegate@, height)
                &&& final(self).same_registry(old(self))
                &&& final(self).same_powers(old(self))
                &&& final(self).same_votes(old(self))
                &&& final(self).same_settings(old(self))
            },
    {
        let (_, pair, _) = self.pending_summary(sender, delegate, height + 1);
        if pair == 0 {
            return Err(ContractError::DelegationNotFound);
        }
        let ghost s = self.delegations@;
        self.advance(height);
        self.revoke(sender, delegate, height);
        proof {
            assert forall|b: Seq<char>, q: int|
                #[trigger] percent_sum(self.delegations@, b, q) <= DECIMAL_FRACTIONAL by {
                lemma_revoke_sums(s, sender@, delegate@, height, b, q);
                lemma_others_le(s, sender@, delegate@, height + 1);
                assert(percent_sum(s, sender@, height + 1) <= DECIMAL_FRACTIONAL);
            }
            assert forall|i: int| 0 <= i < self.delegations@.len() implies {
                let e = #[trigger] self.delegations@[i];
                &&& e.created_at <= self.height
                &&& 0 < e.delegation.percent.atomics <= DECIMAL_FRACTIONAL
                &&& match e.removed_at {
                    Some(r) => r <= self.height,
                    None => true,
                }
            } by {
                assert(self.delegations@[i] == revoke_pair(s[i], sender@, delegate@, height));
            }
        }
        Ok(())
    }

    /// Records that `addr`'s voting power changed to `new_power` at
    /// `height`, as reported by an authorized voting power source. A
    /// registered delegate left with no voting power is unregistered.
    pub fn voting_power_changed_hook(
        &mut self,
        sender: &String,
        addr: &String,
        new_power: u128,
        height: u64,
    ) -> (r: Result<(), ContractError>)
        requires
            old(self).wf(),
            old(self).last_height() <= height,
        ensures
            final(self).wf(),
            r == if !old(self).is_hook_caller(sender@) {
                Err(ContractError::Unauthorized)
            } else {
                Ok(())
            },
            r is Err ==> *final(self) == *old(self),
            r is Ok ==> {
                &&& final(self).last_height() == height
                &&& forall|a: Seq<char>, q: int| #[trigger]
                    final(self).power_at(a, q) == if a == addr@ && (height as int) < q {
                        new_power
                    } else {
                        old(self).power_at(a, q)
                    }
                &&& forall|a: Seq<char>, q: int| #[trigger]
                    final(self).registered_at(a, q) == if a == addr@ && (height as int) < q
                        && new_power == 0 && old(self).registered_now(addr@) {
                        false
                    } else {
                        old(self).registered_at(a, q)
                    }
                &&& forall|a: Seq<char>| #[trigger]
                    final(self).registered_now(a) == if a == addr@ && new_power == 0 {
                        false
                    } else {
                        old(self).registered_now(a)
                    }
                &&& final(self).same_ledger(old(self))
                &&& final(self).same_votes(old(self))
                &&& final(self).same_settings(old(self))
            },
    {
        if !list_contains(&self.vp_hook_callers, sender) {
            return Err(ContractError::Unauthorized);
        }
        self.advance(height);
        self.powers.save(addr, height, new_power);
        if new_power == 0 && self.registrations.may_load(addr) == Some(Some(Delegate {})) {
            self.registrations.save(addr, height, None);
        }
        Ok(())
    }

    /// Changes the settings. Only the DAO may. A new voting power cap takes
    /// effect from the next block on; a new validity window applies to
    /// delegations made from now on, not to existing ones.
    pub fn update_config(
        &mut self,
        sender: &String,
        vp_cap_percent: Option<Update<Decimal>>,
        delegation_validity_blocks: Option<Update<u64>>,
        max_delegations: Option<u64>,
        height: u64,
    ) -> (r: Result<(), ContractError>)
        requires
            old(self).wf(),
            old(self).last_height() <= height,
        ensures
            final(self).wf(),
            r == if sender@ != old(self).dao_addr() {
                Err(ContractError::Unauthorized)
            } else {
                match delegation_validity_blocks {
                    Some(Update::Assign(b)) => if b < MIN_DELEGATION_VALIDITY_BLOCKS {
                        Err(
                            ContractError::InvalidDelegationValidityBlocks {
                                provided: b,
                                min: MIN_DELEGATION_VALIDITY_BLOCKS,
                            },
                        )
                    } else {
                        Ok(())
                    },
                    _ => Ok(()),
                }
            },
            r is Err ==> *final(self) == *old(self),
            r is Ok ==> {
                &&& final(self).last_height() == height
                &&& final(self).config_view() == (Config {
                    delegation_validity_blocks: match delegation_validity_blocks {
                        Some(Update::Assign(b)) => Some(b),
                        Some(Update::Clear) => None,
                        None => old(self).config_view().delegation_validity_blocks,
                    },
                    max_delegations: match max_delegations {
                        Some(m) => m,
                        None => old(self).config_view().max_delegations,
                    },
                })
                &&& forall|q: int| #[trigger]
                    final(self).vp_cap_at(q) == match vp_cap_percent {
                        Some(u) => if (height as int) < q {
                            match u {
                                Update::Assign(c) => Some(c),
                                Update::Clear => None,
                            }
                        } else {
                            old(self).vp_cap_at(q)
                        },
                        None => old(self).vp_cap_at(q),
                    }
                &&& final(self).same_registry(old(self))
                &&& final(self).same_ledger(old(self))
                &&& final(self).same_powers(old(self))
                &&& final(self).same_votes(old(self))
                &&& final(self).dao_addr() == old(self).dao_addr()
                &&& forall|a: Seq<char>| #[trigger]
                    final(self).is_hook_caller(a) == old(self).is_hook_caller(a)
                &&& forall|a: Seq<char>| #[trigger]
                    final(self).is_proposal_module(a) == old(self).is_proposal_module(a)
            },
    {
        if *sender != self.dao {
            return Err(ContractError::Unauthorized);
        }
        if let Some(Update::Assign(b)) = delegation_validity_blocks {
            if b < MIN_DELEGATION_VALIDITY_BLOCKS {
                return Err(
                    ContractError::InvalidDelegationValidityBlocks {
                        provided: b,
                        min: MIN_DELEGATION_VALIDITY_BLOCKS,
                    },
                );
            }
        }
        self.advance(height);
        match delegation_validity_blocks {
            Some(Update::Assign(b)) => {
                self.config.delegation_validity_blocks = Some(b);
            },
            Some(Update::Clear) => {
                self.config.delegation_validity_blocks = None;
            },
            None => {},
        }
        if let Some(m) = max_delegations {
            self.config.max_delegations = m;
        }
        match vp_cap_percent {
            Some(Update::Assign(c)) => {
                self.vp_cap_percent.save(height, Some(c));
            },
            Some(Update::Clear) => {
                self.vp_cap_percent.save(height, None);
            },
            None => {},
        }
        Ok(())
    }

    /// Adds and removes authorized voting power sources. Only the DAO may.
    /// An address in both lists ends up removed.
    pub fn update_voting_power_hook_callers(
        &mut self,
        sender: &String,
        add: Option<Vec<String>>,
        remove: Option<Vec<String>>,
    ) -> (r: Result<(), ContractError>)
        requires
            old(self).wf(),
        ensures
            final(self).wf(),
            r == if sender@ != old(self).dao_addr() {
                Err(ContractError::Unauthorized)
            } else {
                Ok(())
            },
            r is Err ==> *final(self) == *old(self),
            r is Ok ==> {
                &&& forall|a: Seq<char>| #[trigger]
                    final(self).is_hook_caller(a) == ((old(self).is_hook_caller(a) || match add {
                        Some(l) => contains_addr(l@, a),
                        None => false,
                    }) && !match remove {
                        Some(l) => contains_addr(l@, a),
                        None => false,
                    })
                &&& final(self).last_height() == old(self).last_height()
                &&& final(self).same_registry(old(self))
                &&& final(self).same_ledger(old(self))
                &&& final(self).same_powers(old(self))
                &&& final(self).same_votes(old(self))
                &&& forall|a: Seq<char>| #[trigger]
                    final(self).is_proposal_module(a) == old(self).is_proposal_module(a)
            },
    {
        if *sender != self.dao {
            return Err(ContractError::Unauthorized);
        }
        if let Some(l) = &add {
            add_all(&mut self.vp_hook_callers, l);
        }
        if let Some(l) = &remove {
            remove_all(&mut self.vp_hook_callers, l);
        }
        Ok(())
    }

    /// Adds proposal modules, read from the DAO by the caller, to those whose
    /// vote reports are accepted. Anyone may call this.
    pub fn sync_proposal_modules(&mut self, modules: &Vec<String>)
        requires
            old(self).wf(),
        ensures
            final(self).wf(),
            forall|a: Seq<char>| #[trigger]
                final(self).is_proposal_module(a) == (old(self).is_proposal_module(a) || contains_addr(
                    modules@,
                    a,
                )),
            final(self).last_height() == old(self).last_height(),
            final(self).same_registry(old(self)),
            final(self).same_ledger(old(self)),
            final(self).same_powers(old(self)),
            final(self).same_votes(old(self)),
            forall|a: Seq<char>| #[trigger]
                final(self).is_hook_caller(a) == old(self).is_hook_caller(a),
    {
        add_all(&mut self.proposal_modules, modules);
    }

    /// Records that `voter` has voted on proposal `proposal_id` of the
    /// sending proposal module. From then on the delegated voting power of
    /// `voter` no longer counts as unvoted for that proposal. Reporting the
    /// same vote again changes nothing.
    pub fn vote_hook(&mut self, sender: &String, proposal_id: u64, voter: &String) -> (r: Result<
        (),
        ContractError,
    >)
        requires
            old(self).wf(),
        ensures
            final(self).wf(),
            r == if !old(self).is_proposal_module(sender@) {
                Err(ContractError::Unauthorized)
            } else {
                Ok(())
            },
            r is Err ==> *final(self) == *old(self),
            old(self).has_voted(sender@, proposal_id, voter@) ==> *final(self) == *old(self),
            r is Ok ==> {
                &&& forall|m: Seq<char>, id: u64, v: Seq<char>| #[trigger]
                    final(self).has_voted(m, id, v) == (old(self).has_voted(m, id, v) || (m
                        == sender@ && id == proposal_id && v == voter@))
                &&& final(self).last_height() == old(self).last_height()
                &&& final(self).same_registry(old(self))
                &&& final(self).same_ledger(old(self))
                &&& final(self).same_powers(old(self))
                &&& final(self).same_settings(old(self))
            },
    {
        if !list_contains(&self.proposal_modules, sender) {
            return Err(ContractError::Unauthorized);
        }
        if self.voted(sender, proposal_id, voter) {
            return Ok(());
        }
        let ghost before = self.votes@;
        self.votes.push(VoteRecord { proposal_module: sender.clone(), proposal_id, voter: voter.clone() });
        proof {
            assert forall|m: Seq<char>, id: u64, v: Seq<char>| #[trigger]
                self.has_voted(m, id, v) == (old(self).has_voted(m, id, v) || (m == sender@ && id
                    == proposal_id && v == voter@)) by {
                if old(self).has_voted(m, id, v) {
                    let i = choose|i: int|
                        0 <= i < before.len() && (#[trigger] before[i]).proposal_module@ == m
                            && before[i].proposal_id == id && before[i].voter@ == v;
                    assert(self.votes@[i] == before[i]);
                }
                if m == sender@ && id == proposal_id && v == voter@ {
                    assert(self.votes@[before.len() as int].proposal_module@ == m);
                }
                if self.has_voted(m, id, v) {
                    let i = choose|i: int|
                        0 <= i < self.votes@.len() && (#[trigger] self.votes@[i]).proposal_module@
                            == m && self.votes@[i].proposal_id == id && self.votes@[i].voter@ == v;
                    if i < before.len() {
                        assert(before[i] == self.votes@[i]);
                    }
                }
            }
        }
        Ok(())
    }

    /// Whether `voter`'s vote on proposal `id` of `module` has been reported.
    fn voted(&self, module: &String, id: u64, voter: &String) -> (r: bool)
        ensures
            r == self.has_voted(module@, id, voter@),
    {
        let mut i: usize = 0;
        while i < self.votes.len()
            invariant
                i <= self.votes@.len(),
                forall|k: int|
                    0 <= k < i ==> !((#[trigger] self.votes@[k]).proposal_module@ == module@
                        && self.votes@[k].proposal_id == id && self.votes@[k].voter@ == voter@),
            decreases self.votes@.len() - i,
        {
            let v = &self.votes[i];
            if v.proposal_module == *module && v.proposal_id == id && v.voter == *voter {
                return true;
            }
            i = i + 1;
        }
        false
    }
    /// What `a`'s delegations in `s` that apply at `q` look like in a
    /// delegations query, oldest first.
    pub closed spec fn views_of(&self, s: Seq<DelegationEntry>, a: Seq<char>, q: int) -> Seq<
        (Seq<char>, Decimal, bool),
    >
        decreases s.len(),
    {
        if s.len() == 0 {
            Seq::empty()
        } else {
            let v = self.views_of(s.drop_last(), a, q);
            let e = s.last();
            if is_live_of(e, a, q) {
                v.push(
                    (
                        e.delegation.delegate@,
                        e.delegation.percent,
                        self.registered_at(e.delegation.delegate@, q),
                    ),
                )
            } else {
                v
            }
        }
    }

    /// `a`'s delegations as of height `q`: delegate, percent, and whether
    /// the delegate is registered at `q`.
    pub closed spec fn delegation_views(&self, a: Seq<char>, q: int) -> Seq<(Seq<char>, Decimal, bool)> {
        self.views_of(self.delegations@, a, q)
    }

    /// The voting power `e` delegates to `d` as of height `q`, unless its
    /// delegator has voted on `proposal`.
    pub closed spec fn vp_term(
        &self,
        e: DelegationEntry,
        d: Seq<char>,
        q: int,
        proposal: Option<(Seq<char>, u64)>,
    ) -> int {
        let counted = match proposal {
            Some((m, id)) => !self.has_voted(m, id, e.delegator@),
            None => true,
        };
        if e.delegation.delegate@ == d && live_at(e, q) && counted {
            floor_mul(self.power_at(e.delegator@, q) as int, e.delegation.percent.atomics as int)
        } else {
            0
        }
    }

    pub closed spec fn vp_sum(
        &self,
        s: Seq<DelegationEntry>,
        d: Seq<char>,
        q: int,
        proposal: Option<(Seq<char>, u64)>,
    ) -> int
        decreases s.len(),
    {
        if s.len() == 0 {
            0
        } else {
            self.vp_sum(s.drop_last(), d, q, proposal) + self.vp_term(s.last(), d, q, proposal)
        }
    }

    /// The voting power delegated to `d` as of height `q`.
    pub closed spec fn delegated_vp_at(&self, d: Seq<char>, q: int) -> int {
        self.vp_sum(self.delegations@, d, q, None)
    }

    /// The voting power delegated to `d` as of height `q` by delegators who
    /// have not voted on proposal `id` of `module`.
    pub closed spec fn unvoted_vp_at(&self, d: Seq<char>, module: Seq<char>, id: u64, q: int) -> int {
        self.vp_sum(self.delegations@, d, q, Some((module, id)))
    }

    /// The unvoted delegated voting power of `d` on proposal `id` of
    /// `module` that started at height `q`, as `(total, effective)`, where
    /// `total_power` is the DAO's total voting power at `q`.
    pub closed spec fn udvp(&self, d: Seq<char>, module: Seq<char>, id: u64, q: int, total_power: u128) -> (int, int) {
        if !self.registered_at(d, q) {
            (0, 0)
        } else {
            let total = self.unvoted_vp_at(d, module, id, q);
            match self.vp_cap_at(q) {
                Some(c) => {
                    let cap = floor_mul(total_power as int, c.atomics as int);
                    (total, if total <= cap {
                        total
                    } else {
                        cap
                    })
                },
                None => (total, total),
            }
        }
    }

    proof fn lemma_vp_prefix(
        &self,
        s: Seq<DelegationEntry>,
        d: Seq<char>,
        q: int,
        proposal: Option<(Seq<char>, u64)>,
        i: int,
    )
        requires
            0 <= i <= s.len(),
        ensures
            0 <= self.vp_sum(s.take(i), d, q, proposal) <= self.vp_sum(s, d, q, proposal),
        decreases s.len(),
    {
        if i < s.len() {
            self.lemma_vp_prefix(s.drop_last(), d, q, proposal, i);
            assert(s.drop_last().take(i) =~= s.take(i));
            let e = s.last();
            let p = self.power_at(e.delegator@, q) as int;
            let x = e.delegation.percent.atomics as int;
            assert(p * x >= 0) by (nonlinear_arith)
                requires
                    p >= 0,
                    x >= 0,
            ;
            assert(floor_mul(p, x) >= 0) by (nonlinear_arith)
                requires
                    p * x >= 0,
            ;
        } else {
            assert(s.take(i) =~= s);
            if s.len() > 0 {
                self.lemma_vp_prefix(s.drop_last(), d, q, proposal, s.len() - 1);
                assert(s.drop_last().take(s.len() - 1) =~= s.drop_last());
                let e = s.last();
                let p = self.power_at(e.delegator@, q) as int;
                let x = e.delegation.percent.atomics as int;
                assert(p * x >= 0) by (nonlinear_arith)
                    requires
                        p >= 0,
                        x >= 0,
                ;
                assert(floor_mul(p, x) >= 0) by (nonlinear_arith)
                    requires
                        p * x >= 0,
                ;
            }
        }
    }

    /// The voting power delegated to `d` as of height `q`, leaving out
    /// delegators who voted on `proposal` if one is given; `None` where the
    /// sum does not fit in 128 bits.
    fn sum_delegated(&self, d: &String, q: u64, proposal: Option<(&String, u64)>) -> (r: Option<u128>)
        requires
            self.wf(),
        ensures
            ({
                let p = match proposal {
                    Some((m, id)) => Some((m@, id)),
                    None => None,
                };
                match r {
                    Some(v) => v == self.vp_sum(self.delegations@, d@, q as int, p),
                    None => self.vp_sum(self.delegations@, d@, q as int, p) > u128::MAX,
                }
            }),
    {
        let ghost p = match proposal {
            Some((m, id)) => Some((m@, id)),
            None => None,
        };
        let ghost s = self.delegations@;
        let mut acc: u128 = 0;
        let mut i: usize = 0;
        while i < self.delegations.len()
            invariant
                s == self.delegations@,
                self.wf(),
                i <= s.len(),
                p == match proposal {
                    Some((m, id)) => Some((m@, id)),
                    None => None::<(Seq<char>, u64)>,
                },
                acc == self.vp_sum(s.take(i as int), d@, q as int, p),
            decreases s.len() - i,
        {
            let e = &self.delegations[i];
            proof {
                lemma_take_step(s, i as int);
                self.lemma_vp_prefix(s, d@, q as int, p, i + 1);
            }
            let counted = match proposal {
                Some((m, id)) => !self.voted(m, id, &e.delegator),
                None => true,
            };
            if e.delegation.delegate == *d && is_live(e, q) && counted {
                let power = match self.powers.may_load_at_height(&e.delegator, q) {
                    Some(x) => x,
                    None => 0,
                };
                let amount = calculate_delegated_vp(power, e.delegation.percent);
                if acc > u128::MAX - amount {
                    return None;
                }
                acc = acc + amount;
            }
            i = i + 1;
        }
        proof {
            assert(s.take(i as int) =~= s);
        }
        Some(acc)
    }

    /// Whether `a` is registered as of height `q`.
    fn is_registered_at(&self, a: &String, q: u64) -> (r: bool)
        requires
            self.wf(),
        ensures
            r == self.registered_at(a@, q as int),
    {
        self.registrations.may_load_at_height(a, q) == Some(Some(Delegate {}))
    }

    /// Whether `delegate` is registered as of height `height`, and the voting
    /// power delegated to them there.
    pub fn registration(&self, delegate: &String, height: u64) -> (r: Result<RegistrationResponse, ContractError>)
        requires
            self.wf(),
        ensures
            match r {
                Ok(resp) => {
                    &&& resp.registered == self.registered_at(delegate@, height as int)
                    &&& resp.power == self.delegated_vp_at(delegate@, height as int)
                    &&& resp.height == height
                },
                Err(e) => e == ContractError::Overflow && self.delegated_vp_at(delegate@, height as int)
                    > u128::MAX,
            },
    {
        let registered = self.is_registered_at(delegate, height);
        match self.sum_delegated(delegate, height, None) {
            Some(power) => Ok(RegistrationResponse { registered, power, height }),
            None => Err(ContractError::Overflow),
        }
    }

    /// The delegates registered after every write so far, each with the
    /// voting power delegated to them as of `height`.
    pub fn delegates(&self, height: u64) -> (r: Result<DelegatesResponse, ContractError>)
        requires
            self.wf(),
        ensures
            match r {
                Ok(resp) => {
                    &&& forall|i: int|
                        0 <= i < resp.delegates@.len() ==> {
                            let d = #[trigger] resp.delegates@[i];
                            &&& self.registered_now(d.delegate@)
                            &&& d.power == self.delegated_vp_at(d.delegate@, height as int)
                        }
                    &&& forall|a: Seq<char>|
                        #[trigger] self.registered_now(a) ==> lists_delegate(resp.delegates@, a)
                },
                Err(e) => e == ContractError::Overflow && exists|a: Seq<char>|
                    #[trigger] self.registered_now(a) && self.delegated_vp_at(a, height as int)
                        > u128::MAX,
            },
    {
        let mut out: Vec<DelegateResponse> = Vec::new();
        let n = self.registrations.key_count();
        let mut i: usize = 0;
        while i < n
            invariant
                self.wf(),
                n == self.registrations.keys().len(),
                i <= n,
                forall|k: int|
                    0 <= k < out@.len() ==> {
                        let d = #[trigger] out@[k];
                        &&& self.registered_now(d.delegate@)
                        &&& d.power == self.delegated_vp_at(d.delegate@, height as int)
                    },
                forall|j: int|
                    0 <= j < i && #[trigger] self.registered_now(self.registrations.keys()[j])
                        ==> exists|k: int|
                        0 <= k < out@.len() && (#[trigger] out@[k]).delegate@
                            == self.registrations.keys()[j],
            decreases n - i,
        {
            let key = self.registrations.key(i);
            if self.registrations.may_load(key) == Some(Some(Delegate {})) {
                match self.sum_delegated(key, height, None) {
                    Some(power) => {
                        let ghost before = out@;
                        out.push(DelegateResponse { delegate: key.clone(), power });
                        proof {
                            assert forall|k: int| 0 <= k < out@.len() implies {
                                let d = #[trigger] out@[k];
                                &&& self.registered_now(d.delegate@)
                                &&& d.power == self.delegated_vp_at(d.delegate@, height as int)
                            } by {
                                if k < before.len() {
                                    assert(out@[k] == before[k]);
                                }
                            }
                            assert forall|j: int|
                                0 <= j < i + 1 && #[trigger] self.registered_now(
                                    self.registrations.keys()[j],
                                ) implies exists|k: int|
                                0 <= k < out@.len() && (#[trigger] out@[k]).delegate@
                                    == self.registrations.keys()[j] by {
                                if j < i {
                                    let k = choose|k: int|
                                        0 <= k < before.len() && (#[trigger] before[k]).delegate@
                                            == self.registrations.keys()[j];
                                    assert(out@[k] == before[k]);
                                } else {
                                    assert(out@[before.len() as int].delegate@ == key@);
                                }
                            }
                        }
                    },
                    None => {
                        assert(self.registered_now(key@));
                        return Err(ContractError::Overflow);
                    },
                }
            }
            i = i + 1;
        }
        proof {
            assert forall|a: Seq<char>| #[trigger] self.registered_now(a) implies exists|i: int|
                0 <= i < out@.len() && (#[trigger] out@[i]).delegate@ == a by {
                if !self.registrations.keys().contains(a) {
                    self.registrations.lemma_unwritten(a, 0);
                }
                let j = choose|j: int|
                    0 <= j < self.registrations.keys().len() && self.registrations.keys()[j] == a;
                assert(self.registered_now(self.registrations.keys()[j]));
                let k = choose|k: int|
                    0 <= k < out@.len() && (#[trigger] out@[k]).delegate@
                        == self.registrations.keys()[j];
                assert(out@[k].delegate@ == a);
            }
        }
        let resp = DelegatesResponse { delegates: out };
        proof {
            assert forall|a: Seq<char>| #[trigger] self.registered_now(a) implies lists_delegate(
                resp.delegates@,
                a,
            ) by {
                let k = choose|k: int| 0 <= k < out@.len() && (#[trigger] out@[k]).delegate@ == a;
                assert(resp.delegates@[k].delegate@ == a);
            }
        }
        Ok(resp)
    }

    /// The delegations of `delegator` that apply as of `height`, oldest
    /// first.
    pub fn delegations(&self, delegator: &String, height: u64) -> (r: DelegationsResponse)
        requires
            self.wf(),
        ensures
            r.delegations@.map_values(|d: DelegationResponse| delegation_view(d))
                == self.delegation_views(delegator@, height as int),
            forall|i: int|
                0 <= i < r.delegations@.len() ==> (#[trigger] r.delegations@[i]).percent.atomics
                    <= DECIMAL_FRACTIONAL,
            r.height == height,
    {
        let ghost s = self.delegations@;
        let mut out: Vec<DelegationResponse> = Vec::new();
        let mut i: usize = 0;
        while i < self.delegations.len()
            invariant
                s == self.delegations@,
                i <= s.len(),
                out@.map_values(|d: DelegationResponse| delegation_view(d)) == self.views_of(
                    s.take(i as int),
                    delegator@,
                    height as int,
                ),
                self.wf(),
                forall|k: int|
                    0 <= k < out@.len() ==> (#[trigger] out@[k]).percent.atomics
                        <= DECIMAL_FRACTIONAL,
            decreases s.len() - i,
        {
            let e = &self.delegations[i];
            proof {
                lemma_take_step(s, i as int);
            }
            let ghost before = out@;
            if e.delegator == *delegator && is_live(e, height) {
                let active = self.is_registered_at(&e.delegation.delegate, height);
                out.push(
                    DelegationResponse {
                        delegate: e.delegation.delegate.clone(),
                        percent: e.delegation.percent,
                        active,
                    },
                );
                proof {
                    assert(out@.map_values(|d: DelegationResponse| delegation_view(d))
                        =~= before.map_values(|d: DelegationResponse| delegation_view(d)).push(
                        delegation_view(out@.last()),
                    ));
                }
            }
            i = i + 1;
        }
        proof {
            assert(s.take(i as int) =~= s);
        }
        DelegationsResponse { delegations: out, height }
    }

    /// A page of the delegations of `delegator` that apply as of `height`:
    /// the `limit` (by default all) that follow the first `offset` (by
    /// default none).
    pub fn delegations_page(
        &self,
        delegator: &String,
        height: u64,
        offset: Option<u64>,
        limit: Option<u64>,
    ) -> (r: DelegationsResponse)
        requires
            self.wf(),
        ensures
            ({
                let all = self.delegation_views(delegator@, height as int);
                let start = match offset {
                    Some(o) => if (o as int) < all.len() {
                        o as int
                    } else {
                        all.len() as int
                    },
                    None => 0,
                };
                let end = match limit {
                    Some(l) => if start + l < all.len() {
                        start + l
                    } else {
                        all.len() as int
                    },
                    None => all.len() as int,
                };
                r.delegations@.map_values(|d: DelegationResponse| delegation_view(d))
                    == all.subrange(start, end)
            }),
            r.height == height,
    {
        let full = self.delegations(delegator, height);
        let mut page = full.delegations;
        let ghost all = page@;
        let n = page.len();
        let start: usize = match offset {
            Some(o) => if (o as u128) < (n as u128) {
                o as usize
            } else {
                n
            },
            None => 0,
        };
        let end: usize = match limit {
            Some(l) => if (l as u128) < ((n - start) as u128) {
                start + l as usize
            } else {
                n
            },
            None => n,
        };
        page.truncate(end);
        let mut k: usize = 0;
        while k < start
            invariant
                k <= start <= end <= all.len(),
                page@ == all.subrange(k as int, end as int),
            decreases start - k,
        {
            page.remove(0);
            k = k + 1;
            assert(page@ =~= all.subrange(k as int, end as int));
        }
        proof {
            assert(page@.map_values(|d: DelegationResponse| delegation_view(d))
                =~= all.map_values(|d: DelegationResponse| delegation_view(d)).subrange(
                start as int,
                end as int,
            ));
        }
        DelegationsResponse { delegations: page, height }
    }

    /// The voting power delegated to `delegate` for proposal `proposal_id`
    /// of `proposal_module`, started at `height`, that its delegators have
    /// not used by voting themselves: `total`, and `effective` once the cap
    /// in effect at `height` applies to it. `total_power` is the DAO's total
    /// voting power at `height`. The answer follows reported votes at once,
    /// within the block.
    pub fn unvoted_delegated_voting_power(
        &self,
        delegate: &String,
        proposal_module: &String,
        proposal_id: u64,
        height: u64,
        total_power: u128,
    ) -> (r: Result<UnvotedDelegatedVotingPowerResponse, ContractError>)
        requires
            self.wf(),
        ensures
            match r {
                Ok(u) => {
                    &&& (u.total as int, u.effective as int) == self.udvp(
                        delegate@,
                        proposal_module@,
                        proposal_id,
                        height as int,
                        total_power,
                    )
                    &&& u.effective <= u.total
                    &&& match self.vp_cap_at(height as int) {
                        Some(c) => u.effective <= floor_mul(total_power as int, c.atomics as int),
                        None => u.effective == u.total,
                    }
                },
                Err(e) => {
                    &&& e == ContractError::Overflow
                    &&& self.udvp(delegate@, proposal_module@, proposal_id, height as int, total_power).0
                        > u128::MAX
                    &&& self.registered_at(delegate@, height as int)
                    &&& self.unvoted_vp_at(delegate@, proposal_module@, proposal_id, height as int)
                        > u128::MAX
                },
            },
    {
        if !self.is_registered_at(delegate, height) {
            return Ok(UnvotedDelegatedVotingPowerResponse { total: 0, effective: 0 });
        }
        let total = match self.sum_delegated(delegate, height, Some((proposal_module, proposal_id))) {
            Some(t) => t,
            None => {
                return Err(ContractError::Overflow);
            },
        };
        let cap = match self.vp_cap_percent.may_load_at_height(height) {
            Some(c) => c,
            None => None,
        };
        let effective = match cap {
            Some(c) => match checked_scale(total_power, c) {
                Some(limit) => if total <= limit {
                    total
                } else {
                    limit
                },
                None => total,
            },
            None => total,
        };
        Ok(UnvotedDelegatedVotingPowerResponse { total, effective })
    }

    /// The current settings.
    pub fn config(&self) -> (r: Config)
        ensures
            r == self.config_view(),
    {
        self.config
    }

    /// The voting power cap in effect as of `height`.
    pub fn vp_cap_percent(&self, height: u64) -> (r: Option<Decimal>)
        requires
            self.wf(),
        ensures
            r == self.vp_cap_at(height as int),
    {
        match self.vp_cap_percent.may_load_at_height(height) {
            Some(c) => c,
            None => None,
        }
    }

    /// The proposal modules whose vote reports are accepted.
    pub fn proposal_modules(&self) -> (r: Vec<String>)
        ensures
            forall|a: Seq<char>| #[trigger] contains_addr(r@, a) == self.is_proposal_module(a),
    {
        copy_list(&self.proposal_modules)
    }

    /// The authorized voting power sources.
    pub fn voting_power_hook_callers(&self) -> (r: Vec<String>)
        ensures
            forall|a: Seq<char>| #[trigger] contains_addr(r@, a) == self.is_hook_caller(a),
    {
        copy_list(&self.vp_hook_callers)
    }
    /// Revoking at `h` leaves every delegations query at a height up to `h`
    /// as it was.
    proof fn lemma_views_revoke(
        &self,
        other: &Self,
        s: Seq<DelegationEntry>,
        a: Seq<char>,
        d: Seq<char>,
        h: u64,
        b: Seq<char>,
        q: int,
    )
        requires
            q <= h,
            self.registrations == other.registrations,
        ensures
            self.views_of(revoke_all(s, a, d, h), b, q) == other.views_of(s, b, q),
        decreases s.len(),
    {
        if s.len() > 0 {
            let r = revoke_all(s, a, d, h);
            self.lemma_views_revoke(other, s.drop_last(), a, d, h, b, q);
            assert(r.drop_last() =~= revoke_all(s.drop_last(), a, d, h));
        }
    }

    /// The percents listed by a delegations query add up to the delegator's
    /// delegated share.
    proof fn lemma_views_percent(&self, s: Seq<DelegationEntry>, a: Seq<char>, q: int)
        ensures
            sum_percents(self.views_of(s, a, q)) == percent_sum(s, a, q),
        decreases s.len(),
    {
        if s.len() > 0 {
            self.lemma_views_percent(s.drop_last(), a, q);
            let v = self.views_of(s.drop_last(), a, q);
            let e = s.last();
            if is_live_of(e, a, q) {
                let x = (e.delegation.delegate@, e.delegation.percent, self.registered_at(
                    e.delegation.delegate@,
                    q,
                ));
                assert(v.push(x).drop_last() =~= v);
            }
        }
    }

    /// The delegated share of `a` as of `q`, as listed by a delegations
    /// query, is at most 100%.
    pub proof fn lemma_delegated_percent(&self, a: Seq<char>, q: int)
        requires
            self.wf(),
        ensures
            sum_percents(self.delegation_views(a, q)) <= DECIMAL_FRACTIONAL,
    {
        self.lemma_views_percent(self.delegations@, a, q);
        assert(percent_sum(self.delegations@, a, q) <= DECIMAL_FRACTIONAL);
    }
}

/// The sum of the percents in a list of delegations.
pub open spec fn sum_percents(v: Seq<(Seq<char>, Decimal, bool)>) -> int
    decreases v.len(),
{
    if v.len() == 0 {
        0
    } else {
        sum_percents(v.drop_last()) + v.last().1.atomics
    }
}

/// No member ever delegates more than all of their voting power: at every
/// height, the percents of the delegations a delegations query lists for
/// them add up to at most 100%.
pub proof fn lemma_delegations_within_whole(m: &DelegationModule, a: Seq<char>, q: int)
    requires
        m.wf(),
    ensures
        sum_percents(m.delegation_views(a, q)) <= DECIMAL_FRACTIONAL,
{
    m.lemma_delegated_percent(a, q);
}

/// A delegation that expires at height `h` still applies as of `h - 1`,
/// when it was made before that block and has not been revoked, and applies
/// as of no height from `h` on.
pub proof fn lemma_expiry(e: DelegationEntry, h: u64)
    requires
        e.expires_at == Some(h),
        (e.created_at as int) < h - 1,
        e.removed_at == None::<u64>,
    ensures
        live_at(e, h - 1),
        forall|q: int| q >= h ==> !#[trigger] live_at(e, q),
{
}

} // verus!
