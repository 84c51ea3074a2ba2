//! Staging-phase tester allowlist restricting the administrative pathways.
//!
//! While staging mode is active only the admin and the testers on the
//! allowlist may use administrative write pathways; otherwise anyone may.
//! The allowlist holds at most `MAX_TESTERS` distinct addresses.

use vstd::prelude::*;
use crate::address::{list_contains, same_address};
use crate::error::ContractError;

verus! {

/// Maximum number of addresses on the tester allowlist.
pub const MAX_TESTERS: u32 = 50;

/// The staging-phase access configuration.
#[derive(Clone, Debug, PartialEq, Eq)]
pub struct StagingConfig<A> {
    /// Whether the allowlist is enforced.
    pub active: bool,
    /// Addresses allowed while staging mode is active, in the order added.
    pub testers: Vec<A>,
}

impl<A> StagingConfig<A> {
    /// The configuration before any write: staging off, empty allowlist.
    pub fn new() -> (r: StagingConfig<A>)
        ensures
            !r.active,
            r.testers@ == Seq::<A>::empty(),
    {
        StagingConfig { active: false, testers: Vec::new() }
    }
}

/// Every tester appears once.
pub open spec fn distinct_testers<A>(testers: Seq<A>) -> bool {
    forall|i: int, j: int| 0 <= i < j < testers.len() ==> testers[i] != testers[j]
}

/// Whether the configuration lets `caller` through, given the admin.
pub open spec fn staging_allows<A>(active: bool, testers: Seq<A>, admin: A, caller: A) -> bool {
    !active || admin == caller || testers.contains(caller)
}

/// Switch staging mode on or off; only the admin may.
pub fn set_staging_mode<A: PartialEq>(
    admin_slot: &Option<A>,
    caller: &A,
    cfg: &mut StagingConfig<A>,
    enable: bool,
) -> (r: Result<(), ContractError>)
    requires
        vstd::laws_eq::obeys_concrete_eq::<A>(),
    ensures
        match *admin_slot {
            None => r == Err::<(), ContractError>(ContractError::NotInitialized) && *final(cfg) == *old(cfg),
            Some(adm) => if adm != *caller {
                r == Err::<(), ContractError>(ContractError::NotAdmin) && *final(cfg) == *old(cfg)
            } else {
                r == Ok::<(), ContractError>(()) && final(cfg).active == enable
                    && final(cfg).testers@ == old(cfg).testers@
            },
        },
{
    let adm = match admin_slot {
        Some(a) => a,
        None => return Err(ContractError::NotInitialized),
    };
    if !same_address(adm, caller) {
        return Err(ContractError::NotAdmin);
    }
    cfg.active = enable;
    Ok(())
}

/// Add `tester` to the allowlist; only the admin may. Adding a listed
/// tester changes nothing; adding past `MAX_TESTERS` fails with `Overflow`.
pub fn add_tester<A: PartialEq>(
    admin_slot: &Option<A>,
    caller: &A,
    cfg: &mut StagingConfig<A>,
    tester: A,
) -> (r: Result<(), ContractError>)
    requires
        vstd::laws_eq::obeys_concrete_eq::<A>(),
    ensures
        match *admin_slot {
            None => r == Err::<(), ContractError>(ContractError::NotInitialized) && *final(cfg) == *old(cfg),
            Some(adm) => if adm != *caller {
                r == Err::<(), ContractError>(ContractError::NotAdmin) && *final(cfg) == *old(cfg)
            } else if old(cfg).testers@.contains(tester) {
                r == Ok::<(), ContractError>(()) && *final(cfg) == *old(cfg)
            } else if old(cfg).testers@.len() >= MAX_TESTERS {
                r == Err::<(), ContractError>(ContractError::Overflow) && *final(cfg) == *old(cfg)
            } else {
                r == Ok::<(), ContractError>(()) && final(cfg).active == old(cfg).active
                    && final(cfg).testers@ == old(cfg).testers@.push(tester)
            },
        },
{
    let adm = match admin_slot {
        Some(a) => a,
        None => return Err(ContractError::NotInitialized),
    };
    if !same_address(adm, caller) {
        return Err(ContractError::NotAdmin);
    }
    if list_contains(&cfg.testers, &tester) {
        return Ok(());
    }
    if cfg.testers.len() >= MAX_TESTERS as usize {
        return Err(ContractError::Overflow);
    }
    cfg.testers.push(tester);
    Ok(())
}

/// The allowlist without `tester`.
pub open spec fn without_tester<A>(testers: Seq<A>, tester: A) -> Seq<A> {
    testers.filter(|x: A| x != tester)
}

/// Remove `tester` from the allowlist; only the admin may. Removing an
/// address that is not listed changes nothing.
pub fn remove_tester<A: PartialEq>(
    admin_slot: &Option<A>,
    caller: &A,
    cfg: &mut StagingConfig<A>,
    tester: &A,
) -> (r: Result<(), ContractError>)
    requires
        vstd::laws_eq::obeys_concrete_eq::<A>(),
    ensures
        match *admin_slot {
            None => r == Err::<(), ContractError>(ContractError::NotInitialized) && *final(cfg) == *old(cfg),
            Some(adm) => if adm != *caller {
                r == Err::<(), ContractError>(ContractError::NotAdmin) && *final(cfg) == *old(cfg)
            } else {
                r == Ok::<(), ContractError>(()) && final(cfg).active == old(cfg).active
                    && final(cfg).testers@ == without_tester(old(cfg).testers@, *tester)
            },
        },
{
    let adm = match admin_slot {
        Some(a) => a,
        None => return Err(ContractError::NotInitialized),
    };
    if !same_address(adm, caller) {
        return Err(ContractError::NotAdmin);
    }
    let ghost orig = cfg.testers@;
    let mut rest: Vec<A> = Vec::new();
    std::mem::swap(&mut rest, &mut cfg.testers);
    let mut kept: Vec<A> = Vec::new();
    let ghost pred = |x: A| x != *tester;
    proof {
        assert(orig.take(0) =~= Seq::<A>::empty());
        reveal(Seq::filter);
        assert(orig.skip(0) =~= orig);
    }
    while rest.len() > 0
        invariant
            vstd::laws_eq::obeys_concrete_eq::<A>(),
            0 <= orig.len() - rest@.len() <= orig.len(),
            rest@ == orig.skip(orig.len() - rest@.len()),
            kept@ == orig.take(orig.len() - rest@.len()).filter(pred),
            pred == (|x: A| x != *tester),
        decreases rest@.len(),
    {
        let ghost k = orig.len() - rest@.len();
        let e = rest.remove(0);
        proof {
            assert(e == orig[k]);
            assert(orig.take(k + 1) =~= orig.take(k).push(e));
            orig.take(k).lemma_filter_push(e, pred);
            assert(rest@ =~= orig.skip(k + 1));
        }
        if !same_address(&e, tester) {
            kept.push(e);
        }
    }
    proof {
        assert(orig.take(orig.len() as int) =~= orig);
    }
    cfg.testers = kept;
    Ok(())
}

/// Whether staging mode is on.
pub fn is_staging_active<A>(cfg: &StagingConfig<A>) -> (r: bool)
    ensures
        r == cfg.active,
{
    cfg.active
}

/// The access check of the administrative pathways.
///
/// Open while staging mode is off; otherwise the admin and the listed
/// testers pass and anyone else gets `StagingNotAuthorized`
/// (`NotInitialized` when there is no admin yet).
pub fn check_staging_access<A: PartialEq>(cfg: &StagingConfig<A>, admin_slot: &Option<A>, caller: &A) -> (r: Result<(), ContractError>)
    requires
        vstd::laws_eq::obeys_concrete_eq::<A>(),
    ensures
        !cfg.active ==> r == Ok::<(), ContractError>(()),
        cfg.active ==> match *admin_slot {
            None => r == Err::<(), ContractError>(ContractError::NotInitialized),
            Some(adm) => if staging_allows(cfg.active, cfg.testers@, adm, *caller) {
                r == Ok::<(), ContractError>(())
            } else {
                r == Err::<(), ContractError>(ContractError::StagingNotAuthorized)
            },
        },
{
    if !cfg.active {
        return Ok(());
    }
    let adm = match admin_slot {
        Some(a) => a,
        None => return Err(ContractError::NotInitialized),
    };
    if same_address(adm, caller) {
        return Ok(());
    }
    if list_contains(&cfg.testers, caller) {
        return Ok(());
    }
    Err(ContractError::StagingNotAuthorized)
}

/// Adding keeps the allowlist within `MAX_TESTERS` distinct entries, and a
/// tester that was added passes the access check.
pub proof fn law_added_tester_passes<A>(active: bool, testers: Seq<A>, admin: A, tester: A)
    requires
        distinct_testers(testers),
        testers.len() <= MAX_TESTERS,
    ensures
        !testers.contains(tester) && testers.len() < MAX_TESTERS ==> {
            &&& distinct_testers(testers.push(tester))
            &&& testers.push(tester).len() <= MAX_TESTERS
            &&& staging_allows(active, testers.push(tester), admin, tester)
        },
{
    if !testers.contains(tester) && testers.len() < MAX_TESTERS {
        let t = testers.push(tester);
        assert(t[testers.len() as int] == tester);
        assert forall|i: int, j: int| 0 <= i < j < t.len() implies t[i] != t[j] by {
            if j == testers.len() {
                assert(t[i] == testers[i]);
            } else {
                assert(t[i] == testers[i] && t[j] == testers[j]);
            }
        }
    }
}

/// A removed tester is blocked while staging mode is active, unless it is
/// the admin.
pub proof fn law_removed_tester_blocked<A>(testers: Seq<A>, admin: A, tester: A)
    requires
        admin != tester,
    ensures
        !staging_allows(true, without_tester(testers, tester), admin, tester),
{
    let pred = |x: A| x != tester;
    let w = testers.filter(pred);
    if w.contains(tester) {
        let i = choose|i: int| 0 <= i < w.len() && w[i] == tester;
        testers.lemma_filter_pred(pred, i);
    }
}

/// Staging gates callers only while it is on: with staging off everyone
/// passes; with it on, exactly the admin and the registered testers pass.
pub proof fn law_staging_gates_only_when_active<A>(testers: Seq<A>, admin: A, caller: A)
    ensures
        staging_allows(false, testers, admin, caller),
        staging_allows(true, testers, admin, admin),
        staging_allows(true, testers, admin, caller) <==> (caller == admin || testers.contains(caller)),
{
}

} // verus!
