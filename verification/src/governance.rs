//! Governance configuration and the quorum and time-lock checks of the
//! upgrade and revocation workflows.
//!
//! The address type `A` is the caller's (the Soroban `Address` in the
//! contract); its `==` must be plain equality of addresses. Stored maps keyed
//! by address are handed in as lists of their entries.

use vstd::prelude::*;
use crate::address::{list_contains, same_address};
use crate::error::ContractError;

verus! {

/// Count-based quorum configuration.
#[derive(Clone, Copy, Debug, PartialEq, Eq, Structural)]
pub struct GovernanceConfig {
    pub quorum_threshold: u32,
}

/// Weight-based (N-of-M) multi-signature configuration.
#[derive(Clone, Copy, Debug, PartialEq, Eq, Structural)]
pub struct MultiSigConfig {
    /// Total weight required for quorum (N in N-of-M).
    pub required_weight: u32,
    /// Maximum weight any single signer can hold.
    pub max_signer_weight: u32,
}

impl Default for MultiSigConfig {
    fn default() -> (r: Self)
        ensures
            r == (MultiSigConfig { required_weight: 3, max_signer_weight: 1 }),
    {
        MultiSigConfig { required_weight: 3, max_signer_weight: 1 }
    }
}

impl Default for GovernanceConfig {
    fn default() -> (r: Self)
        ensures
            r == (GovernanceConfig { quorum_threshold: 2 }),
    {
        GovernanceConfig { quorum_threshold: 2 }
    }
}

/// Whether at least `delay_seconds` have passed since `staged_at`
/// (elapsed time saturates at zero when the clock is behind).
pub fn verify_staged_delay(staged_at: u64, current_time: u64, delay_seconds: u64) -> (r: bool)
    ensures
        r == ((if current_time >= staged_at { current_time - staged_at } else { 0 }) >= delay_seconds),
{
    current_time.saturating_sub(staged_at) >= delay_seconds
}

/// Whether a target block height lies strictly after the active index.
pub fn verify_block_height(target_height: u32, active_index: u32) -> (r: bool)
    ensures
        r == (target_height > active_index),
{
    target_height > active_index
}

/// Whether `a` occurs among the first `n` elements of `list`.
fn prefix_contains<A: PartialEq>(list: &Vec<A>, n: usize, a: &A) -> (r: bool)
    requires
        n <= list@.len(),
        vstd::laws_eq::obeys_concrete_eq::<A>(),
    ensures
        r == list@.take(n as int).contains(*a),
{
    proof {
        reveal(vstd::laws_eq::obeys_concrete_eq);
    }
    let mut i: usize = 0;
    while i < n
        invariant
            i <= n <= list@.len(),
            vstd::laws_eq::obeys_concrete_eq::<A>(),
            forall|k: int| 0 <= k < i ==> list@[k] != *a,
        decreases n - i,
    {
        proof {
            reveal(vstd::laws_eq::obeys_concrete_eq);
        }
        if list[i] == *a {
            proof {
                assert(list@.take(n as int)[i as int] == *a);
            }
            return true;
        }
        i = i + 1;
    }
    proof {
        assert forall|k: int| 0 <= k < list@.take(n as int).len() implies list@.take(n as int)[k] != *a by {
            assert(list@.take(n as int)[k] == list@[k]);
        }
    }
    false
}

/// The weight recorded for `a` in a list of `(signer, weight)` entries
/// (the first entry for `a`), zero when `a` has none.
pub open spec fn recorded_weight<A>(weights: Seq<(A, u32)>, a: A) -> u32
    decreases weights.len(),
{
    if weights.len() == 0 {
        0
    } else if weights[0].0 == a {
        weights[0].1
    } else {
        recorded_weight(weights.drop_first(), a)
    }
}

/// The recorded weight of `a`; zero when it is not registered.
pub fn get_signer_weight<A: PartialEq>(weights: &Vec<(A, u32)>, signer: &A) -> (r: u32)
    requires
        vstd::laws_eq::obeys_concrete_eq::<A>(),
    ensures
        r == recorded_weight(weights@, *signer),
{
    proof {
        reveal(vstd::laws_eq::obeys_concrete_eq);
    }
    let mut i: usize = 0;
    proof {
        assert(weights@.skip(0) =~= weights@);
    }
    while i < weights.len()
        invariant
            i <= weights@.len(),
            vstd::laws_eq::obeys_concrete_eq::<A>(),
            recorded_weight(weights@, *signer) == recorded_weight(weights@.skip(i as int), *signer),
        decreases weights@.len() - i,
    {
        proof {
            reveal(vstd::laws_eq::obeys_concrete_eq);
            assert(weights@.skip(i as int).drop_first() =~= weights@.skip(i + 1));
        }
        if weights[i].0 == *signer {
            return weights[i].1;
        }
        i = i + 1;
    }
    0
}

/// Some entry of `weights` is for `a`.
pub open spec fn has_entry<A>(weights: Seq<(A, u32)>, a: A) -> bool {
    exists|i: int| 0 <= i < weights.len() && (#[trigger] weights[i]).0 == a
}

/// The entries after setting `signer`'s weight: its old entries go, and a
/// non-zero weight is recorded as a new entry at the end.
pub open spec fn weights_after_set<A>(weights: Seq<(A, u32)>, signer: A, weight: u32) -> Seq<(A, u32)> {
    let kept = weights.filter(|e: (A, u32)| e.0 != signer);
    if weight == 0 { kept } else { kept.push((signer, weight)) }
}

proof fn lemma_recorded_weight_push<A>(weights: Seq<(A, u32)>, e: (A, u32), a: A)
    ensures
        !has_entry(weights, a) ==> recorded_weight(weights, a) == 0,
        recorded_weight(weights.push(e), a) == if has_entry(weights, a) {
            recorded_weight(weights, a)
        } else if e.0 == a {
            e.1
        } else {
            0
        },
    decreases weights.len(),
{
    let w = weights.push(e);
    if weights.len() == 0 {
        assert(w.drop_first() =~= Seq::<(A, u32)>::empty());
        assert(recorded_weight(w.drop_first(), a) == 0);
        assert(w[0] == e);
        assert(!has_entry(weights, a));
    } else {
        assert(w[0] == weights[0]);
        assert(w.drop_first() =~= weights.drop_first().push(e));
        lemma_recorded_weight_push(weights.drop_first(), e, a);
        if weights[0].0 != a {
            if has_entry(weights, a) {
                let i = choose|i: int| 0 <= i < weights.len() && (#[trigger] weights[i]).0 == a;
                assert(weights.drop_first()[i - 1] == weights[i]);
            }
            if has_entry(weights.drop_first(), a) {
                let i = choose|i: int| 0 <= i < weights.drop_first().len() && (#[trigger] weights.drop_first()[i]).0 == a;
                assert(weights[i + 1] == weights.drop_first()[i]);
            }
        } else {
            assert(weights[0].0 == a);
        }
    }
}

proof fn lemma_filter_keeps_others<A>(weights: Seq<(A, u32)>, signer: A, a: A)
    requires
        a != signer,
    ensures
        has_entry(weights.filter(|e: (A, u32)| e.0 != signer), a) == has_entry(weights, a),
        recorded_weight(weights.filter(|e: (A, u32)| e.0 != signer), a) == recorded_weight(weights, a),
    decreases weights.len(),
{
    let pred = |e: (A, u32)| e.0 != signer;
    if weights.len() == 0 {
        reveal(Seq::filter);
        assert(weights.filter(pred) =~= weights);
    } else {
        let t = weights.drop_last();
        let e = weights.last();
        assert(t.push(e) =~= weights);
        t.lemma_filter_push(e, pred);
        lemma_filter_keeps_others(t, signer, a);
        lemma_recorded_weight_push(t, e, a);
        lemma_recorded_weight_push(t.filter(pred), e, a);
        assert(has_entry(weights, a) == (has_entry(t, a) || e.0 == a)) by {
            if has_entry(weights, a) {
                let i = choose|i: int| 0 <= i < weights.len() && (#[trigger] weights[i]).0 == a;
                if i < t.len() {
                    assert(t[i] == weights[i]);
                }
            }
            if has_entry(t, a) {
                let i = choose|i: int| 0 <= i < t.len() && (#[trigger] t[i]).0 == a;
                assert(weights[i] == t[i]);
            }
            if e.0 == a {
                assert(weights[weights.len() - 1] == e);
            }
        }
        let f = t.filter(pred);
        if pred(e) {
            assert(has_entry(f.push(e), a) == (has_entry(f, a) || e.0 == a)) by {
                if has_entry(f.push(e), a) {
                    let i = choose|i: int| 0 <= i < f.push(e).len() && (#[trigger] f.push(e)[i]).0 == a;
                    if i < f.len() {
                        assert(f[i] == f.push(e)[i]);
                    }
                }
                if has_entry(f, a) {
                    let i = choose|i: int| 0 <= i < f.len() && (#[trigger] f[i]).0 == a;
                    assert(f.push(e)[i] == f[i]);
                }
                if e.0 == a {
                    assert(f.push(e)[f.len() as int] == e);
                }
            }
        }
    }
}

proof fn lemma_filter_drops_signer<A>(weights: Seq<(A, u32)>, signer: A)
    ensures
        !has_entry(weights.filter(|e: (A, u32)| e.0 != signer), signer),
{
    let pred = |e: (A, u32)| e.0 != signer;
    let f = weights.filter(pred);
    if has_entry(f, signer) {
        let i = choose|i: int| 0 <= i < f.len() && (#[trigger] f[i]).0 == signer;
        weights.lemma_filter_pred(pred, i);
    }
}

/// Setting a signer's weight is read back exactly: afterwards the signer's
/// recorded weight is the one set (zero unregisters it), and every other
/// signer's weight is unchanged.
pub proof fn law_signer_weight_read_after_write<A>(weights: Seq<(A, u32)>, signer: A, weight: u32, other: A)
    requires
        other != signer,
    ensures
        recorded_weight(weights_after_set(weights, signer, weight), signer) == weight,
        recorded_weight(weights_after_set(weights, signer, weight), other) == recorded_weight(weights, other),
{
    let pred = |e: (A, u32)| e.0 != signer;
    let kept = weights.filter(pred);
    lemma_filter_drops_signer(weights, signer);
    lemma_filter_keeps_others(weights, signer, other);
    lemma_recorded_weight_push(kept, (signer, weight), signer);
    lemma_recorded_weight_push(kept, (signer, weight), other);
}

/// Register, update or (with weight zero) unregister a signer's weight.
pub fn set_signer_weight<A: PartialEq>(weights: &mut Vec<(A, u32)>, signer: A, weight: u32)
    requires
        vstd::laws_eq::obeys_concrete_eq::<A>(),
    ensures
        final(weights)@ == weights_after_set(old(weights)@, signer, weight),
{
    let ghost orig = weights@;
    let mut rest: Vec<(A, u32)> = Vec::new();
    std::mem::swap(&mut rest, weights);
    let ghost pred = |e: (A, u32)| e.0 != signer;
    proof {
        assert(orig.take(0) =~= Seq::<(A, u32)>::empty());
        reveal(Seq::filter);
        assert(orig.skip(0) =~= orig);
    }
    while rest.len() > 0
        invariant
            vstd::laws_eq::obeys_concrete_eq::<A>(),
            0 <= orig.len() - rest@.len() <= orig.len(),
            rest@ == orig.skip(orig.len() - rest@.len()),
            weights@ == orig.take(orig.len() - rest@.len()).filter(pred),
            pred == (|e: (A, u32)| e.0 != signer),
        decreases rest@.len(),
    {
        let ghost k = orig.len() - rest@.len();
        let e = rest.remove(0);
        proof {
            assert(e == orig[k]);
            assert(orig.take(k + 1) =~= orig.take(k).push(e));
            orig.take(k).lemma_filter_push(e, pred);
            assert(rest@ =~= orig.skip(k + 1));
        }
        if !same_address(&e.0, &signer) {
            weights.push(e);
        }
    }
    proof {
        assert(orig.take(orig.len() as int) =~= orig);
    }
    if weight != 0 {
        weights.push((signer, weight));
    }
}

/// The admin sets a signer's weight: refused with `NotInitialized` before
/// the contract has an admin, with `NotAdmin` for any other caller, and with
/// `InvalidStakeAmount` for a weight above the configured maximum; otherwise
/// the weight is set as `set_signer_weight` sets it. A refusal changes
/// nothing.
pub fn set_signer_weight_as_admin<A: PartialEq>(
    admin_slot: &Option<A>,
    caller: &A,
    config: &MultiSigConfig,
    weights: &mut Vec<(A, u32)>,
    signer: A,
    weight: u32,
) -> (r: Result<(), ContractError>)
    requires
        vstd::laws_eq::obeys_concrete_eq::<A>(),
    ensures
        match *admin_slot {
            None => r == Err::<(), ContractError>(ContractError::NotInitialized),
            Some(adm) => if adm != *caller {
                r == Err::<(), ContractError>(ContractError::NotAdmin)
            } else if weight > config.max_signer_weight {
                r == Err::<(), ContractError>(ContractError::InvalidStakeAmount)
            } else {
                r == Ok::<(), ContractError>(())
            },
        },
        r is Ok ==> final(weights)@ == weights_after_set(old(weights)@, signer, weight),
        r is Err ==> final(weights)@ == old(weights)@,
{
    let adm = match admin_slot {
        Some(a) => a,
        None => return Err(ContractError::NotInitialized),
    };
    if !same_address(adm, caller) {
        return Err(ContractError::NotAdmin);
    }
    if weight > config.max_signer_weight {
        return Err(ContractError::InvalidStakeAmount);
    }
    set_signer_weight(weights, signer, weight);
    Ok(())
}

/// The weight a signer brings to an upgrade quorum: the admin counts with
/// at least weight one, anyone else with the recorded weight.
pub open spec fn quorum_weight<A>(admin: A, weights: Seq<(A, u32)>, s: A) -> int {
    if s == admin {
        if recorded_weight(weights, admin) >= 1 { recorded_weight(weights, admin) as int } else { 1 }
    } else {
        recorded_weight(weights, s) as int
    }
}

/// The admin and the registered signers may approve upgrades.
pub open spec fn may_sign<A>(admin: A, authorized: Seq<A>, s: A) -> bool {
    s == admin || authorized.contains(s)
}

/// Number of distinct authorized signers among `signers` and their summed
/// quorum weight; a repeated signer counts once.
pub open spec fn signer_tally<A>(signers: Seq<A>, admin: A, authorized: Seq<A>, weights: Seq<(A, u32)>) -> (int, int)
    decreases signers.len(),
{
    if signers.len() == 0 {
        (0, 0)
    } else {
        let prev = signer_tally(signers.drop_last(), admin, authorized, weights);
        let s = signers.last();
        if signers.drop_last().contains(s) || !may_sign(admin, authorized, s) {
            prev
        } else {
            (prev.0 + 1, prev.1 + quorum_weight(admin, weights, s))
        }
    }
}

proof fn lemma_tally_prefix_bounded<A>(signers: Seq<A>, admin: A, authorized: Seq<A>, weights: Seq<(A, u32)>, k: int)
    requires
        0 <= k <= signers.len(),
    ensures
        0 <= signer_tally(signers.take(k), admin, authorized, weights).0
            <= signer_tally(signers, admin, authorized, weights).0 <= signers.len(),
        0 <= signer_tally(signers.take(k), admin, authorized, weights).1
            <= signer_tally(signers, admin, authorized, weights).1,
    decreases signers.len(),
{
    if k == signers.len() {
        assert(signers.take(k) =~= signers);
        if signers.len() > 0 {
            lemma_tally_prefix_bounded(signers.drop_last(), admin, authorized, weights, k - 1);
            assert(signers.drop_last().take(k - 1) =~= signers.drop_last());
        }
    } else {
        assert(signers.drop_last().take(k) =~= signers.take(k));
        lemma_tally_prefix_bounded(signers.drop_last(), admin, authorized, weights, k);
    }
}

/// Count and weigh the distinct authorized signers; `Overflow` when the
/// summed weight exceeds `u32::MAX`.
fn tally_signers<A: PartialEq>(signers: &Vec<A>, admin: &A, authorized: &Vec<A>, weights: &Vec<(A, u32)>) -> (r: Result<(u32, u32), ContractError>)
    requires
        vstd::laws_eq::obeys_concrete_eq::<A>(),
        signers@.len() <= u32::MAX,
    ensures
        ({
            let t = signer_tally(signers@, *admin, authorized@, weights@);
            if t.1 <= u32::MAX {
                r == Ok::<(u32, u32), ContractError>((t.0 as u32, t.1 as u32))
            } else {
                r == Err::<(u32, u32), ContractError>(ContractError::Overflow)
            }
        }),
        0 <= signer_tally(signers@, *admin, authorized@, weights@).0 <= signers@.len(),
        0 <= signer_tally(signers@, *admin, authorized@, weights@).1,
{
    proof {
        reveal(vstd::laws_eq::obeys_concrete_eq);
        lemma_tally_prefix_bounded(signers@, *admin, authorized@, weights@, 0);
    }
    let ghost ss = signers@;
    let mut valid_count: u32 = 0;
    let mut collected_weight: u32 = 0;
    let mut i: usize = 0;
    proof {
        assert(ss.take(0) =~= Seq::<A>::empty());
    }
    while i < signers.len()
        invariant
            i <= ss.len(),
            ss == signers@,
            ss.len() <= u32::MAX,
            vstd::laws_eq::obeys_concrete_eq::<A>(),
            (valid_count as int, collected_weight as int) == signer_tally(ss.take(i as int), *admin, authorized@, weights@),
        decreases ss.len() - i,
    {
        let signer = &signers[i];
        let ghost t = ss.take(i + 1);
        proof {
            reveal(vstd::laws_eq::obeys_concrete_eq);
            assert(t.drop_last() =~= ss.take(i as int));
            assert(t.last() == ss[i as int]);
            lemma_tally_prefix_bounded(ss, *admin, authorized@, weights@, i + 1);
            lemma_tally_prefix_bounded(ss, *admin, authorized@, weights@, i as int);
        }
        let seen = prefix_contains(signers, i, signer);
        if !seen {
            let is_admin = *signer == *admin;
            let is_authorized = is_admin || list_contains(authorized, signer);
            if is_authorized {
                let weight = if is_admin {
                    let w = get_signer_weight(weights, admin);
                    if w >= 1 { w } else { 1 }
                } else {
                    get_signer_weight(weights, signer)
                };
                proof {
                    lemma_tally_prefix_bounded(t, *admin, authorized@, weights@, i as int);
                    assert(t.take(i as int) =~= ss.take(i as int));
                }
                valid_count = valid_count + 1;
                collected_weight = match collected_weight.checked_add(weight) {
                    Some(v) => v,
                    None => return Err(ContractError::Overflow),
                };
            }
        }
        i = i + 1;
    }
    proof {
        assert(ss.take(ss.len() as int) =~= ss);
    }
    Ok((valid_count, collected_weight))
}

/// Summed quorum weight of the distinct authorized signers (the admin with
/// at least weight one); `Overflow` when it exceeds `u32::MAX`.
pub fn calculate_collected_weight<A: PartialEq>(
    signers: &Vec<A>,
    admin: &A,
    authorized: &Vec<A>,
    weights: &Vec<(A, u32)>,
) -> (r: Result<u32, ContractError>)
    requires
        vstd::laws_eq::obeys_concrete_eq::<A>(),
        signers@.len() <= u32::MAX,
    ensures
        ({
            let t = signer_tally(signers@, *admin, authorized@, weights@);
            if t.1 <= u32::MAX {
                r == Ok::<u32, ContractError>(t.1 as u32)
            } else {
                r == Err::<u32, ContractError>(ContractError::Overflow)
            }
        }),
{
    let (_, weight) = tally_signers(signers, admin, authorized, weights)?;
    Ok(weight)
}

/// Whether the signers of an upgrade reach both quorums: at least
/// `quorum_threshold` distinct authorized signers and at least
/// `required_weight` of summed weight.
///
/// `admin` is the contract's admin (`None` before initialization).
pub fn verify_upgrade_quorum<A: PartialEq>(
    config: &GovernanceConfig,
    multisig_config: &MultiSigConfig,
    admin: &Option<A>,
    signers: &Vec<A>,
    authorized: &Vec<A>,
    weights: &Vec<(A, u32)>,
) -> (r: Result<(), ContractError>)
    requires
        vstd::laws_eq::obeys_concrete_eq::<A>(),
        signers@.len() <= u32::MAX,
    ensures
        match *admin {
            None => r == Err::<(), ContractError>(ContractError::NotInitialized),
            Some(adm) => {
                let t = signer_tally(signers@, adm, authorized@, weights@);
                if t.1 > u32::MAX {
                    r == Err::<(), ContractError>(ContractError::Overflow)
                } else if t.0 < config.quorum_threshold || t.1 < multisig_config.required_weight {
                    r == Err::<(), ContractError>(ContractError::ThresholdNotReached)
                } else {
                    r == Ok::<(), ContractError>(())
                }
            },
        },
{
    let adm = match admin {
        Some(a) => a,
        None => return Err(ContractError::NotInitialized),
    };
    let (valid_count, collected_weight) = tally_signers(signers, adm, authorized, weights)?;
    if valid_count < config.quorum_threshold {
        return Err(ContractError::ThresholdNotReached);
    }
    if collected_weight < multisig_config.required_weight {
        return Err(ContractError::ThresholdNotReached);
    }
    Ok(())
}

/// Ledgers a ballot stays live after it is opened or voted on.
pub const BALLOT_TTL_LEDGERS: u32 = 17_280;

/// Remaining lifetime below which a ballot's lifetime is extended.
pub const BALLOT_TTL_THRESHOLD: u32 = 5_000;

/// A ballot to replace `target` by `replacement`, with the voters so far.
#[derive(Clone, Debug, PartialEq, Eq)]
pub struct VotingBallot<A> {
    pub target: A,
    pub replacement: A,
    pub proposer: A,
    pub proposed_at: u64,
    /// Voters so far, each once, in the order they voted.
    pub votes: Vec<A>,
}

/// No voter appears twice.
pub open spec fn distinct_voters<A>(votes: Seq<A>) -> bool {
    forall|i: int, j: int| 0 <= i < j < votes.len() ==> votes[i] != votes[j]
}

/// Open a ballot at time `now`; fails with `ProposalAlreadyActive` while a
/// ballot with the same identifier is live (`existing`).
pub fn open_ballot<A>(
    existing: &Option<VotingBallot<A>>,
    target: A,
    replacement: A,
    proposer: A,
    now: u64,
) -> (r: Result<VotingBallot<A>, ContractError>)
    ensures
        existing is Some ==> r == Err::<VotingBallot<A>, ContractError>(ContractError::ProposalAlreadyActive),
        existing is None ==> (r matches Ok(b) && b.target == target && b.replacement == replacement
            && b.proposer == proposer && b.proposed_at == now && b.votes@ == Seq::<A>::empty()),
{
    if existing.is_some() {
        return Err(ContractError::ProposalAlreadyActive);
    }
    Ok(VotingBallot { target, replacement, proposer, proposed_at: now, votes: Vec::new() })
}

/// Record `voter`'s vote on the live ballot: `NoActiveProposal` when there
/// is none, `AlreadyVoted` when the voter has voted; otherwise the ballot
/// with the voter added.
pub fn cast_vote<A: PartialEq>(ballot: Option<VotingBallot<A>>, voter: A) -> (r: Result<VotingBallot<A>, ContractError>)
    requires
        vstd::laws_eq::obeys_concrete_eq::<A>(),
    ensures
        match ballot {
            None => r == Err::<VotingBallot<A>, ContractError>(ContractError::NoActiveProposal),
            Some(b) => if b.votes@.contains(voter) {
                r == Err::<VotingBallot<A>, ContractError>(ContractError::AlreadyVoted)
            } else {
                r matches Ok(b2) && b2.target == b.target && b2.replacement == b.replacement
                    && b2.proposer == b.proposer && b2.proposed_at == b.proposed_at
                    && b2.votes@ == b.votes@.push(voter)
            },
        },
{
    let mut b = match ballot {
        Some(b) => b,
        None => return Err(ContractError::NoActiveProposal),
    };
    if list_contains(&b.votes, &voter) {
        return Err(ContractError::AlreadyVoted);
    }
    b.votes.push(voter);
    Ok(b)
}

/// Every voter is counted once: casting votes keeps the voters distinct,
/// and a voter already on the ballot is refused.
pub proof fn law_votes_stay_distinct<A>(votes: Seq<A>, voter: A)
    requires
        distinct_voters(votes),
    ensures
        !votes.contains(voter) ==> distinct_voters(votes.push(voter)),
{
    if !votes.contains(voter) {
        let v = votes.push(voter);
        assert forall|i: int, j: int| 0 <= i < j < v.len() implies v[i] != v[j] by {
            if j == votes.len() {
                assert(v[i] == votes[i]);
            } else {
                assert(v[i] == votes[i] && v[j] == votes[j]);
            }
        }
    }
}

/// Naming a signer twice does not help reach a quorum: the tally of a
/// signer list with one signer repeated at the end equals the tally without
/// the repetition.
pub proof fn law_repeated_signer_counts_once<A>(signers: Seq<A>, i: int, admin: A, authorized: Seq<A>, weights: Seq<(A, u32)>)
    requires
        0 <= i < signers.len(),
    ensures
        signer_tally(signers.push(signers[i]), admin, authorized, weights) == signer_tally(signers, admin, authorized, weights),
{
    let ext = signers.push(signers[i]);
    assert(ext.drop_last() =~= signers);
    assert(signers.contains(signers[i]));
}

/// Only authorized signers count: a signer list that adds an address that
/// is neither the admin nor registered has the same tally.
pub proof fn law_unauthorized_signer_ignored<A>(signers: Seq<A>, outsider: A, admin: A, authorized: Seq<A>, weights: Seq<(A, u32)>)
    requires
        !may_sign(admin, authorized, outsider),
    ensures
        signer_tally(signers.push(outsider), admin, authorized, weights) == signer_tally(signers, admin, authorized, weights),
{
    assert(signers.push(outsider).drop_last() =~= signers);
}

/// The change a signer makes to a running tally: one more distinct
/// signer and its quorum weight when it may sign, nothing otherwise.
pub open spec fn tally_step<A>(admin: A, authorized: Seq<A>, weights: Seq<(A, u32)>) -> spec_fn((int, int), A) -> (int, int) {
    |acc: (int, int), x: A| if may_sign(admin, authorized, x) {
        (acc.0 + 1, acc.1 + quorum_weight(admin, weights, x))
    } else {
        acc
    }
}

proof fn lemma_tally_step_commutes<A>(admin: A, authorized: Seq<A>, weights: Seq<(A, u32)>)
    ensures
        vstd::set::fold::is_fun_commutative(tally_step(admin, authorized, weights)),
{
    let f = tally_step(admin, authorized, weights);
    assert forall|a1: A, a2: A, b: (int, int)| #[trigger] f(f(b, a2), a1) == f(f(b, a1), a2) by {}
}

/// The tally of a signer list depends only on the set of signers it names.
proof fn lemma_tally_is_set_fold<A>(signers: Seq<A>, admin: A, authorized: Seq<A>, weights: Seq<(A, u32)>)
    ensures
        signer_tally(signers, admin, authorized, weights)
            == signers.to_set().fold((0int, 0int), tally_step(admin, authorized, weights)),
    decreases signers.len(),
{
    let f = tally_step(admin, authorized, weights);
    lemma_tally_step_commutes(admin, authorized, weights);
    if signers.len() == 0 {
        assert(signers.to_set() =~= Set::<A>::empty());
        vstd::set::fold::lemma_fold_empty((0int, 0int), f);
    } else {
        let p = signers.drop_last();
        let x = signers.last();
        lemma_tally_is_set_fold(p, admin, authorized, weights);
        assert(signers =~= p.push(x));
        p.lemma_push_to_set_commute(x);
        if p.contains(x) {
            assert(p.to_set().insert(x) =~= p.to_set());
        } else {
            vstd::seq_lib::seq_to_set_is_finite(p);
            vstd::set::fold::lemma_fold_insert(p.to_set(), (0int, 0int), f, x);
        }
    }
}

/// The order in which signers are named, and how often each is named, does
/// not matter: two signer lists naming the same signers have the same tally,
/// so the same collected weight and the same quorum decision.
pub proof fn law_tally_depends_on_signer_set<A>(
    signers: Seq<A>,
    signers2: Seq<A>,
    admin: A,
    authorized: Seq<A>,
    weights: Seq<(A, u32)>,
)
    requires
        forall|x: A| signers.contains(x) <==> signers2.contains(x),
    ensures
        signer_tally(signers, admin, authorized, weights) == signer_tally(signers2, admin, authorized, weights),
{
    lemma_tally_is_set_fold(signers, admin, authorized, weights);
    lemma_tally_is_set_fold(signers2, admin, authorized, weights);
    assert(signers.to_set() =~= signers2.to_set());
}

/// Each newly named signer adds to the tally what it brings: the admin
/// counts once with its recorded weight, or with weight one when it has
/// none recorded; a registered signer counts once with its recorded weight;
/// anyone else adds nothing. So the admin alone collects its recorded
/// weight whenever that is at least one, e.g. the weight it was last set to.
pub proof fn law_signer_contribution<A>(signers: Seq<A>, x: A, admin: A, authorized: Seq<A>, weights: Seq<(A, u32)>, w: u32)
    requires
        !signers.contains(x),
    ensures
        ({
            let before = signer_tally(signers, admin, authorized, weights);
            let after = signer_tally(signers.push(x), admin, authorized, weights);
            let rw = recorded_weight(weights, x) as int;
            if x == admin {
                after == (before.0 + 1, before.1 + (if rw >= 1 { rw } else { 1 }))
            } else if authorized.contains(x) {
                after == (before.0 + 1, before.1 + rw)
            } else {
                after == before
            }
        }),
        signer_tally(seq![admin], admin, authorized, weights).1 == (if recorded_weight(weights, admin) >= 1 {
            recorded_weight(weights, admin) as int
        } else {
            1
        }),
        w >= 1 ==> signer_tally(seq![admin], admin, authorized, weights_after_set(weights, admin, w)).1 == w,
{
    assert(signers.push(x).drop_last() =~= signers);
    lemma_single_signer_tally(admin, admin, authorized, weights);
    let w2 = weights_after_set(weights, admin, w);
    lemma_single_signer_tally(admin, admin, authorized, w2);
    let kept = weights.filter(|e: (A, u32)| e.0 != admin);
    lemma_filter_drops_signer(weights, admin);
    lemma_recorded_weight_push(kept, (admin, w), admin);
}

proof fn lemma_single_signer_tally<A>(x: A, admin: A, authorized: Seq<A>, weights: Seq<(A, u32)>)
    ensures
        signer_tally(seq![x], admin, authorized, weights) == if may_sign(admin, authorized, x) {
            (1int, quorum_weight(admin, weights, x))
        } else {
            (0int, 0int)
        },
{
    let one = seq![x];
    assert(one.drop_last() =~= Seq::<A>::empty());
    assert(one.last() == x);
    assert(signer_tally(Seq::<A>::empty(), admin, authorized, weights) == (0int, 0int));
}

} // verus!
