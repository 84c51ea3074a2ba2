//! Admin state transitions: per-action nonces, the two-phase ownership
//! transfer, the two-path admin key change, the emergency pause and the
//! emergency revocation of a compromised key.
//!
//! Each operation takes the stored slots it reads and the ones it writes;
//! a rejected operation leaves every slot as it was (the transaction is
//! reverted). Facts the caller reads from per-address storage (whether an
//! address is a registered signer) are handed in as booleans.

use vstd::prelude::*;
use crate::address::{copy_address, list_contains, plain_address, same_address};
use crate::error::ContractError;
use crate::staging::{check_staging_access, staging_allows, StagingConfig};

verus! {

/// Seconds a proposed admin change must wait before it may be executed
/// without a cosigner.
pub const ADMIN_CHANGE_TIMELOCK_SECONDS: u64 = 24 * 60 * 60;

/// The admin actions, each with its own nonce sequence per caller.
#[derive(Clone, Copy, Debug, PartialEq, Eq, Structural)]
pub enum AdminAction {
    ProposeOwnershipTransfer,
    ClaimOwnership,
    SetPaused,
    ProposeEmergencyRevocation,
    VoteEmergencyRevocation,
}

/// The admin storage slots.
#[derive(Clone, Copy, Debug, PartialEq, Eq, Structural)]
pub enum AdminStorageKey {
    /// The contract data record (admin address and value).
    ContractData,
    /// Authorised signer set.
    Signers,
    /// Revoked-signer set.
    RevokedSigner,
    /// Pending ownership-transfer record.
    PendingOwner,
    /// Pending admin-change proposal.
    PendingAdmin,
    /// Emergency revocation proposal.
    EmergencyRevocationProposal,
}

/// The storage symbol of an admin slot.
pub open spec fn slot_symbol(key: AdminStorageKey) -> Seq<char> {
    match key {
        AdminStorageKey::ContractData => "DATA"@,
        AdminStorageKey::Signers => "SIGNERS"@,
        AdminStorageKey::RevokedSigner => "REVOKED"@,
        AdminStorageKey::PendingOwner => "PNDOWN"@,
        AdminStorageKey::PendingAdmin => "PADMIN"@,
        AdminStorageKey::EmergencyRevocationProposal => "EMERREV"@,
    }
}

impl AdminStorageKey {
    /// The short symbol under which this slot is stored.
    pub fn symbol(&self) -> (r: &'static str)
        ensures
            r@ == slot_symbol(*self),
    {
        match self {
            AdminStorageKey::ContractData => "DATA",
            AdminStorageKey::Signers => "SIGNERS",
            AdminStorageKey::RevokedSigner => "REVOKED",
            AdminStorageKey::PendingOwner => "PNDOWN",
            AdminStorageKey::PendingAdmin => "PADMIN",
            AdminStorageKey::EmergencyRevocationProposal => "EMERREV",
        }
    }
}

/// Distinct admin slots are stored under distinct symbols.
pub proof fn law_admin_slots_distinct(a: AdminStorageKey, b: AdminStorageKey)
    requires
        a != b,
    ensures
        slot_symbol(a) != slot_symbol(b),
{
    reveal_strlit("DATA");
    reveal_strlit("SIGNERS");
    reveal_strlit("REVOKED");
    reveal_strlit("PNDOWN");
    reveal_strlit("PADMIN");
    reveal_strlit("EMERREV");
    assert("DATA"@.len() == 4);
    assert("SIGNERS"@.len() == 7);
    assert("REVOKED"@.len() == 7 && "SIGNERS"@[0] != "REVOKED"@[0]);
    assert("PNDOWN"@.len() == 6 && "PADMIN"@.len() == 6 && "PNDOWN"@[1] != "PADMIN"@[1]);
    assert("EMERREV"@.len() == 7 && "EMERREV"@[0] != "SIGNERS"@[0] && "EMERREV"@[0] != "REVOKED"@[0]);
}

/// A nomination of a new owner awaiting the nominee's claim.
#[derive(Clone, Debug, PartialEq, Eq)]
pub struct PendingOwner<A> {
    pub nominee: A,
    pub proposed_by: A,
}

/// A proposed admin key change awaiting a cosigner or the timelock.
#[derive(Clone, Debug, PartialEq, Eq)]
pub struct AdminChangeProposal<A> {
    pub new_admin: A,
    pub proposer: A,
    pub proposed_at: u64,
}

/// The next expected nonce of a `(caller, action)` pair (zero before the
/// first use).
pub fn get_admin_action_nonce(stored: Option<u64>) -> (r: u64)
    ensures
        r == match stored { Some(n) => n, None => 0 },
{
    match stored {
        Some(n) => n,
        None => 0,
    }
}

/// Whether consuming `incoming` against the expected nonce would overflow
/// the counter (the one input the counter cannot take).
pub open spec fn nonce_fits(expected: u64, incoming: u64) -> bool {
    incoming != expected || expected < u64::MAX
}

/// Check that `incoming` is the expected nonce and advance the counter;
/// `InvalidNonce` (counter unchanged) otherwise.
pub fn consume_admin_nonce(nonce_slot: &mut u64, incoming: u64) -> (r: Result<(), ContractError>)
    requires
        nonce_fits(*old(nonce_slot), incoming),
    ensures
        incoming == *old(nonce_slot) ==> r == Ok::<(), ContractError>(()) && *final(nonce_slot) == *old(nonce_slot) + 1,
        incoming != *old(nonce_slot) ==> r == Err::<(), ContractError>(ContractError::InvalidNonce)
            && *final(nonce_slot) == *old(nonce_slot),
{
    if incoming != *nonce_slot {
        return Err(ContractError::InvalidNonce);
    }
    *nonce_slot = *nonce_slot + 1;
    Ok(())
}

/// What nominating `nominee` does: the result, the pending nomination and
/// the caller's nonce counter afterwards.
pub open spec fn transfer_step<A>(
    admin: Option<A>,
    pending: Option<PendingOwner<A>>,
    nonce_slot: u64,
    caller: A,
    nominee: A,
    nonce: u64,
) -> (Result<(), ContractError>, Option<PendingOwner<A>>, u64) {
    match admin {
        None => (Err(ContractError::NotInitialized), pending, nonce_slot),
        Some(adm) => if adm != caller {
            (Err(ContractError::NotAdmin), pending, nonce_slot)
        } else if nonce != nonce_slot {
            (Err(ContractError::InvalidNonce), pending, nonce_slot)
        } else if pending is Some {
            (Err(ContractError::TransferAlreadyPending), pending, nonce_slot)
        } else {
            (Ok(()), Some(PendingOwner { nominee, proposed_by: caller }), (nonce_slot + 1) as u64)
        },
    }
}

/// Phase one of an ownership transfer: the admin nominates a new owner.
pub fn propose_ownership_transfer<A: PartialEq>(
    admin_slot: &Option<A>,
    pending_owner: &mut Option<PendingOwner<A>>,
    nonce_slot: &mut u64,
    current_admin: A,
    nominee: A,
    nonce: u64,
) -> (r: Result<(), ContractError>)
    requires
        vstd::laws_eq::obeys_concrete_eq::<A>(),
        nonce_fits(*old(nonce_slot), nonce),
    ensures
        (r, *final(pending_owner), *final(nonce_slot)) == transfer_step(*admin_slot, *old(pending_owner),
            *old(nonce_slot), current_admin, nominee, nonce),
{
    let adm = match admin_slot {
        Some(a) => a,
        None => return Err(ContractError::NotInitialized),
    };
    if !same_address(adm, &current_admin) {
        return Err(ContractError::NotAdmin);
    }
    if nonce != *nonce_slot {
        return Err(ContractError::InvalidNonce);
    }
    if pending_owner.is_some() {
        return Err(ContractError::TransferAlreadyPending);
    }
    consume_admin_nonce(nonce_slot, nonce)?;
    *pending_owner = Some(PendingOwner { nominee, proposed_by: current_admin });
    Ok(())
}

/// What the nominee's claim does: the result, the pending nomination, the
/// admin and the claimer's nonce counter afterwards.
pub open spec fn claim_step<A>(
    pending: Option<PendingOwner<A>>,
    admin: Option<A>,
    nonce_slot: u64,
    claimer: A,
    nonce: u64,
) -> (Result<(), ContractError>, Option<PendingOwner<A>>, Option<A>, u64) {
    match pending {
        None => (Err(ContractError::NoPendingOwner), pending, admin, nonce_slot),
        Some(p) => if p.nominee != claimer {
            (Err(ContractError::NotAdmin), pending, admin, nonce_slot)
        } else if nonce != nonce_slot {
            (Err(ContractError::InvalidNonce), pending, admin, nonce_slot)
        } else if admin is None {
            (Err(ContractError::NotInitialized), pending, admin, nonce_slot)
        } else {
            (Ok(()), None, Some(claimer), (nonce_slot + 1) as u64)
        },
    }
}

/// Phase two of an ownership transfer: the nominee claims ownership.
pub fn claim_ownership<A: PartialEq>(
    pending_owner: &mut Option<PendingOwner<A>>,
    admin_slot: &mut Option<A>,
    nonce_slot: &mut u64,
    claimer: A,
    nonce: u64,
) -> (r: Result<(), ContractError>)
    requires
        vstd::laws_eq::obeys_concrete_eq::<A>(),
        nonce_fits(*old(nonce_slot), nonce),
    ensures
        (r, *final(pending_owner), *final(admin_slot), *final(nonce_slot)) == claim_step(*old(pending_owner),
            *old(admin_slot), *old(nonce_slot), claimer, nonce),
{
    match pending_owner {
        Some(p) => {
            if !same_address(&p.nominee, &claimer) {
                return Err(ContractError::NotAdmin);
            }
        },
        None => return Err(ContractError::NoPendingOwner),
    }
    if nonce != *nonce_slot {
        return Err(ContractError::InvalidNonce);
    }
    if admin_slot.is_none() {
        return Err(ContractError::NotInitialized);
    }
    consume_admin_nonce(nonce_slot, nonce)?;
    *admin_slot = Some(claimer);
    *pending_owner = None;
    Ok(())
}

/// The two-phase transfer hands ownership to exactly the nominee: after the
/// admin nominates, the nominee's claim with its expected nonce makes it the
/// admin, clears the nomination and advances its nonce by one, while anyone
/// else's claim is refused with `NotAdmin` and changes nothing; and only the
/// admin can nominate.
pub proof fn law_two_phase_transfer<A>(admin: A, nominee: A, other: A, n1: u64, n2: u64, n3: u64)
    requires
        n1 < u64::MAX,
        other != nominee,
    ensures
        ({
            let (r1, pending, _) = transfer_step(Some(admin), None, n1, admin, nominee, n1);
            &&& r1 is Ok
            &&& claim_step(pending, Some(admin), n2, other, n3).0 == Err::<(), ContractError>(ContractError::NotAdmin)
            &&& claim_step(pending, Some(admin), n2, other, n3).1 == pending
            &&& claim_step(pending, Some(admin), n2, other, n3).2 == Some(admin)
            &&& claim_step(pending, Some(admin), n2, other, n3).3 == n2
            &&& n2 < u64::MAX ==> claim_step(pending, Some(admin), n2, nominee, n2).0 is Ok
            &&& n2 < u64::MAX ==> claim_step(pending, Some(admin), n2, nominee, n2).1 is None
            &&& n2 < u64::MAX ==> claim_step(pending, Some(admin), n2, nominee, n2).2 == Some(nominee)
            &&& n2 < u64::MAX ==> claim_step(pending, Some(admin), n2, nominee, n2).3 == n2 + 1
        }),
        other != admin ==> transfer_step(Some(admin), None, n1, other, nominee, n1).0
            == Err::<(), ContractError>(ContractError::NotAdmin),
{
}

/// Phase one of an admin key change: the admin proposes `new_admin` at time
/// `now`, through the staging access check.
pub fn propose_admin_change<A: PartialEq>(
    staging: &StagingConfig<A>,
    admin_slot: &Option<A>,
    pending_admin: &mut Option<AdminChangeProposal<A>>,
    current_admin: A,
    new_admin: A,
    now: u64,
) -> (r: Result<(), ContractError>)
    requires
        vstd::laws_eq::obeys_concrete_eq::<A>(),
    ensures
        match *admin_slot {
            None => r == Err::<(), ContractError>(ContractError::NotInitialized),
            Some(adm) => if !staging_allows(staging.active, staging.testers@, adm, current_admin) {
                r == Err::<(), ContractError>(ContractError::StagingNotAuthorized)
            } else if adm != current_admin {
                r == Err::<(), ContractError>(ContractError::NotAdmin)
            } else if *old(pending_admin) is Some {
                r == Err::<(), ContractError>(ContractError::AdminChangePending)
            } else {
                r == Ok::<(), ContractError>(())
            },
        },
        r is Ok ==> *final(pending_admin) == Some(AdminChangeProposal { new_admin, proposer: current_admin, proposed_at: now }),
        r is Err ==> *final(pending_admin) == *old(pending_admin),
{
    check_staging_access(staging, admin_slot, &current_admin)?;
    let adm = match admin_slot {
        Some(a) => a,
        None => return Err(ContractError::NotInitialized),
    };
    if !same_address(adm, &current_admin) {
        return Err(ContractError::NotAdmin);
    }
    if pending_admin.is_some() {
        return Err(ContractError::AdminChangePending);
    }
    *pending_admin = Some(AdminChangeProposal { new_admin, proposer: current_admin, proposed_at: now });
    Ok(())
}

/// What a cosigner's approval does: the result, then the pending proposal
/// and the admin afterwards.
pub open spec fn countersign_step<A>(
    pending: Option<AdminChangeProposal<A>>,
    admin: Option<A>,
    cosigner: A,
    cosigner_is_signer: bool,
) -> (Result<(), ContractError>, Option<AdminChangeProposal<A>>, Option<A>) {
    match pending {
        None => (Err(ContractError::NoAdminChangePending), pending, admin),
        Some(p) => if p.proposer == cosigner {
            (Err(ContractError::CosignerCannotBeProposer), pending, admin)
        } else {
            match admin {
                None => (Err(ContractError::NotInitialized), pending, admin),
                Some(adm) => if !(cosigner_is_signer || adm == cosigner) {
                    (Err(ContractError::Unauthorized), pending, admin)
                } else {
                    (Ok(()), None, Some(p.new_admin))
                },
            }
        },
    }
}

/// Phase two, path A: a registered signer (or the admin) other than the
/// proposer approves the change, which takes effect at once.
/// `cosigner_is_signer` says whether the cosigner is a registered signer.
pub fn countersign_admin_change<A: PartialEq>(
    pending_admin: &mut Option<AdminChangeProposal<A>>,
    admin_slot: &mut Option<A>,
    cosigner: &A,
    cosigner_is_signer: bool,
) -> (r: Result<(), ContractError>)
    requires
        vstd::laws_eq::obeys_concrete_eq::<A>(),
    ensures
        (r, *final(pending_admin), *final(admin_slot)) == countersign_step(*old(pending_admin), *old(admin_slot),
            *cosigner, cosigner_is_signer),
{
    match pending_admin {
        Some(p) => {
            if same_address(&p.proposer, cosigner) {
                return Err(ContractError::CosignerCannotBeProposer);
            }
        },
        None => return Err(ContractError::NoAdminChangePending),
    }
    match admin_slot {
        Some(adm) => {
            if !(cosigner_is_signer || same_address(adm, cosigner)) {
                return Err(ContractError::Unauthorized);
            }
        },
        None => return Err(ContractError::NotInitialized),
    }
    let proposal = pending_admin.take();
    match proposal {
        Some(p) => {
            *admin_slot = Some(p.new_admin);
        },
        None => {},
    }
    Ok(())
}

/// Seconds elapsed from `from` to `now` (zero when the clock is behind).
pub open spec fn elapsed_since(from: u64, now: u64) -> int {
    if now >= from { now - from } else { 0 }
}

/// What executing a change after the timelock does: the result, then the
/// pending proposal and the admin afterwards.
pub open spec fn timelock_step<A>(
    pending: Option<AdminChangeProposal<A>>,
    admin: Option<A>,
    executor: A,
    now: u64,
) -> (Result<(), ContractError>, Option<AdminChangeProposal<A>>, Option<A>) {
    match pending {
        None => (Err(ContractError::NoAdminChangePending), pending, admin),
        Some(p) => if elapsed_since(p.proposed_at, now) < ADMIN_CHANGE_TIMELOCK_SECONDS {
            (Err(ContractError::AdminChangeTimelockNotSatisfied), pending, admin)
        } else {
            match admin {
                None => (Err(ContractError::NotInitialized), pending, admin),
                Some(adm) => if executor != p.proposer && executor != adm {
                    (Err(ContractError::Unauthorized), pending, admin)
                } else {
                    (Ok(()), None, Some(p.new_admin))
                },
            }
        },
    }
}

/// Phase two, path B: once the timelock has elapsed, the proposer or the
/// admin executes the change without a cosigner.
pub fn execute_admin_change_by_timelock<A: PartialEq>(
    pending_admin: &mut Option<AdminChangeProposal<A>>,
    admin_slot: &mut Option<A>,
    executor: &A,
    now: u64,
) -> (r: Result<(), ContractError>)
    requires
        vstd::laws_eq::obeys_concrete_eq::<A>(),
    ensures
        (r, *final(pending_admin), *final(admin_slot)) == timelock_step(*old(pending_admin), *old(admin_slot),
            *executor, now),
{
    match pending_admin {
        Some(p) => {
            let elapsed = now.saturating_sub(p.proposed_at);
            if elapsed < ADMIN_CHANGE_TIMELOCK_SECONDS {
                return Err(ContractError::AdminChangeTimelockNotSatisfied);
            }
            match admin_slot {
                Some(adm) => {
                    if !same_address(executor, &p.proposer) && !same_address(executor, adm) {
                        return Err(ContractError::Unauthorized);
                    }
                },
                None => return Err(ContractError::NotInitialized),
            }
        },
        None => return Err(ContractError::NoAdminChangePending),
    }
    let proposal = pending_admin.take();
    match proposal {
        Some(p) => {
            *admin_slot = Some(p.new_admin);
        },
        None => {},
    }
    Ok(())
}

/// Cancel a pending admin change; only the current admin may.
pub fn cancel_admin_change<A: PartialEq>(
    pending_admin: &mut Option<AdminChangeProposal<A>>,
    admin_slot: &Option<A>,
    canceller: &A,
) -> (r: Result<(), ContractError>)
    requires
        vstd::laws_eq::obeys_concrete_eq::<A>(),
    ensures
        *old(pending_admin) is None ==> r == Err::<(), ContractError>(ContractError::NoAdminChangePending),
        *old(pending_admin) is Some ==> match *admin_slot {
            None => r == Err::<(), ContractError>(ContractError::NotInitialized),
            Some(adm) => if adm != *canceller {
                r == Err::<(), ContractError>(ContractError::NotAdmin)
            } else {
                r == Ok::<(), ContractError>(())
            },
        },
        r is Ok ==> *final(pending_admin) is None,
        r is Err ==> *final(pending_admin) == *old(pending_admin),
{
    if pending_admin.is_none() {
        return Err(ContractError::NoAdminChangePending);
    }
    let adm = match admin_slot {
        Some(a) => a,
        None => return Err(ContractError::NotInitialized),
    };
    if !same_address(adm, canceller) {
        return Err(ContractError::NotAdmin);
    }
    *pending_admin = None;
    Ok(())
}

/// No single key swaps the admin at once: a proposed change takes effect
/// only through a cosigner other than the proposer, or after the timelock;
/// before the timelock has elapsed the proposer alone cannot execute it, and
/// the proposer cannot cosign its own proposal.
pub proof fn law_admin_change_needs_second_key<A>(p: AdminChangeProposal<A>, admin: A, now: u64, signer: bool)
    ensures
        countersign_step(Some(p), Some(admin), p.proposer, signer).0
            == Err::<(), ContractError>(ContractError::CosignerCannotBeProposer),
        elapsed_since(p.proposed_at, now) < ADMIN_CHANGE_TIMELOCK_SECONDS ==> timelock_step(Some(p), Some(admin),
            p.proposer, now).0 == Err::<(), ContractError>(ContractError::AdminChangeTimelockNotSatisfied),
        elapsed_since(p.proposed_at, now) >= ADMIN_CHANGE_TIMELOCK_SECONDS ==> timelock_step(Some(p), Some(admin),
            p.proposer, now) == (Ok::<(), ContractError>(()), None::<AdminChangeProposal<A>>, Some(p.new_admin)),
        countersign_step(Some(p), Some(admin), admin, signer).0 is Ok ==> admin != p.proposer,
        countersign_step(Some(p), Some(admin), admin, signer).0 is Ok ==> countersign_step(Some(p), Some(admin),
            admin, signer).2 == Some(p.new_admin),
{
}

/// Who may complete an admin change: a cosign succeeds only for someone
/// other than the proposer who is a registered signer or the admin, and
/// installs the proposed admin; an execution succeeds only for the proposer
/// or the admin once a full day (86_400 seconds) has passed since the
/// proposal, and installs the proposed admin. A refusal changes nothing.
pub proof fn law_admin_change_authorization<A>(p: AdminChangeProposal<A>, admin: A, caller: A, signer: bool, now: u64)
    ensures
        countersign_step(Some(p), Some(admin), caller, signer).0 is Ok <==> (caller != p.proposer
            && (signer || caller == admin)),
        countersign_step(Some(p), Some(admin), caller, signer).0 is Ok ==> countersign_step(Some(p), Some(admin),
            caller, signer).2 == Some(p.new_admin) && countersign_step(Some(p), Some(admin), caller, signer).1 is None,
        countersign_step(Some(p), Some(admin), caller, signer).0 is Err ==> countersign_step(Some(p), Some(admin),
            caller, signer).2 == Some(admin),
        timelock_step(Some(p), Some(admin), caller, now).0 is Ok <==> (now >= p.proposed_at + 86_400
            && (caller == p.proposer || caller == admin)),
        timelock_step(Some(p), Some(admin), caller, now).0 is Ok ==> timelock_step(Some(p), Some(admin), caller,
            now).2 == Some(p.new_admin),
        timelock_step(Some(p), Some(admin), caller, now).0 is Err ==> timelock_step(Some(p), Some(admin), caller,
            now).2 == Some(admin),
{
}

/// A proposal to revoke a compromised key, with the `aye` votes so far.
#[derive(Clone, Debug, PartialEq, Eq)]
pub struct EmergencyRevocationProposal<A> {
    /// Address whose signing rights are to be stripped.
    pub target: A,
    /// Replacement signer (the target itself when none is needed).
    pub replacement: A,
    /// Who opened the proposal.
    pub proposer: A,
    /// Ledger time of the proposal.
    pub proposed_at: u64,
    /// Addresses that have voted `aye`, each once.
    pub votes: Vec<A>,
}

/// What an executed revocation writes: the revoked address (also removed
/// from the signers), the replacement signer to add, and the new admin when
/// the admin itself was revoked.
#[derive(Clone, Debug, PartialEq, Eq)]
pub struct RevocationEffects<A> {
    pub revoked: A,
    pub added_signer: Option<A>,
    pub new_admin: Option<A>,
}

/// Where a revocation proposal stands after a proposal or a vote.
#[derive(Clone, Debug, PartialEq, Eq)]
pub enum RevocationProgress<A> {
    /// Below the threshold: the proposal to store.
    Pending(EmergencyRevocationProposal<A>),
    /// Threshold reached: the revocation to apply (the proposal is cleared).
    Executed(RevocationEffects<A>),
}

/// The effects of revoking `target` in favour of `replacement`.
pub open spec fn revocation_effects<A>(admin: A, target: A, replacement: A) -> RevocationEffects<A> {
    RevocationEffects {
        revoked: target,
        added_signer: if replacement != target { Some(replacement) } else { None },
        new_admin: if admin == target { Some(replacement) } else { None },
    }
}

/// Votes needed to execute a revocation: a strict majority of the
/// registered signers, and one when there are none.
pub open spec fn threshold_of(signer_count: Option<u32>) -> int {
    match signer_count {
        Some(n) => if n == 0 { 1 } else { n / 2 + 1 },
        None => 1,
    }
}

/// Votes needed to execute a revocation, given the stored signer count.
pub fn revocation_threshold(signer_count: Option<u32>) -> (r: u32)
    ensures
        r == threshold_of(signer_count),
{
    let n = match signer_count {
        Some(n) => n,
        None => 0,
    };
    if n == 0 {
        1
    } else {
        n / 2 + 1
    }
}

/// The revocation threshold is the smallest strict majority of the signers
/// (one vote fewer would not be a majority), and at least one vote.
pub proof fn law_revocation_threshold_is_majority(n: u32)
    ensures
        threshold_of(Some(n)) >= 1,
        2 * threshold_of(Some(n)) > n,
        n >= 1 ==> threshold_of(Some(n)) <= n,
        n >= 1 ==> 2 * (threshold_of(Some(n)) - 1) <= n,
{
}

fn execute_emergency_revocation<A: PartialEq + Clone>(admin: &A, proposal: EmergencyRevocationProposal<A>) -> (r: RevocationEffects<A>)
    requires
        plain_address::<A>(),
    ensures
        r == revocation_effects(*admin, proposal.target, proposal.replacement),
{
    let new_admin = if same_address(admin, &proposal.target) {
        Some(copy_address(&proposal.replacement))
    } else {
        None
    };
    let added_signer = if !same_address(&proposal.replacement, &proposal.target) {
        Some(proposal.replacement)
    } else {
        None
    };
    RevocationEffects { revoked: proposal.target, added_signer, new_admin }
}

/// Open an emergency revocation of `target`, through the staging access check.
///
/// The admin or a registered signer other than the target may propose
/// while no other proposal is live, against the admin or a registered
/// signer. The proposer's opening counts as its vote; when that already
/// reaches the threshold the revocation executes at once.
pub fn propose_emergency_revocation<A: PartialEq + Clone>(
    staging: &StagingConfig<A>,
    admin_slot: &Option<A>,
    proposer_is_signer: bool,
    target_is_signer: bool,
    proposal_live: bool,
    signer_count: Option<u32>,
    nonce_slot: &mut u64,
    proposer: A,
    target: A,
    replacement: A,
    nonce: u64,
    now: u64,
) -> (r: Result<RevocationProgress<A>, ContractError>)
    requires
        plain_address::<A>(),
        nonce_fits(*old(nonce_slot), nonce),
    ensures
        match *admin_slot {
            None => r == Err::<RevocationProgress<A>, ContractError>(ContractError::NotInitialized),
            Some(adm) => if !staging_allows(staging.active, staging.testers@, adm, proposer) {
                r == Err::<RevocationProgress<A>, ContractError>(ContractError::StagingNotAuthorized)
            } else if proposer == target || (adm != proposer && !proposer_is_signer) {
                r == Err::<RevocationProgress<A>, ContractError>(ContractError::Unauthorized)
            } else if nonce != *old(nonce_slot) {
                r == Err::<RevocationProgress<A>, ContractError>(ContractError::InvalidNonce)
            } else if proposal_live {
                r == Err::<RevocationProgress<A>, ContractError>(ContractError::EmergencyRevocationAlreadyActive)
            } else if adm != target && !target_is_signer {
                r == Err::<RevocationProgress<A>, ContractError>(ContractError::TargetNotAdmin)
            } else if 1 >= threshold_of(signer_count) {
                r == Ok::<RevocationProgress<A>, ContractError>(RevocationProgress::Executed(
                    revocation_effects(adm, target, replacement)))
            } else {
                r matches Ok(RevocationProgress::Pending(p)) && p.target == target && p.replacement == replacement
                    && p.proposer == proposer && p.proposed_at == now && p.votes@ == seq![proposer]
            },
        },
        r is Ok ==> *final(nonce_slot) == *old(nonce_slot) + 1,
        r is Err ==> *final(nonce_slot) == *old(nonce_slot),
{
    proof {
        reveal(vstd::laws_eq::obeys_concrete_eq);
    }
    check_staging_access(staging, admin_slot, &proposer)?;
    let adm = match admin_slot {
        Some(a) => a,
        None => return Err(ContractError::NotInitialized),
    };
    if same_address(&proposer, &target) {
        return Err(ContractError::Unauthorized);
    }
    if !same_address(adm, &proposer) && !proposer_is_signer {
        return Err(ContractError::Unauthorized);
    }
    if nonce != *nonce_slot {
        return Err(ContractError::InvalidNonce);
    }
    if proposal_live {
        return Err(ContractError::EmergencyRevocationAlreadyActive);
    }
    if !same_address(adm, &target) && !target_is_signer {
        return Err(ContractError::TargetNotAdmin);
    }
    consume_admin_nonce(nonce_slot, nonce)?;
    let mut votes: Vec<A> = Vec::new();
    votes.push(copy_address(&proposer));
    let proposal = EmergencyRevocationProposal { target, replacement, proposer, proposed_at: now, votes };
    let threshold = revocation_threshold(signer_count);
    if 1 >= threshold {
        Ok(RevocationProgress::Executed(execute_emergency_revocation(adm, proposal)))
    } else {
        proof {
            assert(proposal.votes@ =~= seq![proposal.proposer]);
        }
        Ok(RevocationProgress::Pending(proposal))
    }
}

/// Cast an `aye` vote on the live revocation proposal.
///
/// The admin or a registered signer may vote once, with a signature valid
/// until `sig_expires_at`; the target may not vote. When the votes reach
/// the threshold the revocation executes.
pub fn vote_emergency_revocation<A: PartialEq + Clone>(
    admin_slot: &Option<A>,
    voter_is_signer: bool,
    proposal: Option<EmergencyRevocationProposal<A>>,
    signer_count: Option<u32>,
    nonce_slot: &mut u64,
    voter: A,
    now: u64,
    sig_expires_at: u64,
    nonce: u64,
) -> (r: Result<RevocationProgress<A>, ContractError>)
    requires
        plain_address::<A>(),
        nonce_fits(*old(nonce_slot), nonce),
        proposal matches Some(p) ==> p.votes@.len() < usize::MAX,
    ensures
        now > sig_expires_at ==> r == Err::<RevocationProgress<A>, ContractError>(ContractError::SignatureExpired),
        now <= sig_expires_at ==> match *admin_slot {
            None => r == Err::<RevocationProgress<A>, ContractError>(ContractError::NotInitialized),
            Some(adm) => if adm != voter && !voter_is_signer {
                r == Err::<RevocationProgress<A>, ContractError>(ContractError::Unauthorized)
            } else if nonce != *old(nonce_slot) {
                r == Err::<RevocationProgress<A>, ContractError>(ContractError::InvalidNonce)
            } else {
                match proposal {
                    None => r == Err::<RevocationProgress<A>, ContractError>(ContractError::NoActiveEmergencyRevocation),
                    Some(p) => if p.votes@.contains(voter) {
                        r == Err::<RevocationProgress<A>, ContractError>(ContractError::AlreadyVoted)
                    } else if voter == p.target {
                        r == Err::<RevocationProgress<A>, ContractError>(ContractError::Unauthorized)
                    } else if p.votes@.len() + 1 >= threshold_of(signer_count) {
                        r == Ok::<RevocationProgress<A>, ContractError>(RevocationProgress::Executed(
                            revocation_effects(adm, p.target, p.replacement)))
                    } else {
                        r matches Ok(RevocationProgress::Pending(p2)) && p2.target == p.target
                            && p2.replacement == p.replacement && p2.proposer == p.proposer
                            && p2.proposed_at == p.proposed_at && p2.votes@ == p.votes@.push(voter)
                    },
                }
            },
        },
        r is Ok ==> *final(nonce_slot) == *old(nonce_slot) + 1,
        r is Err ==> *final(nonce_slot) == *old(nonce_slot),
{
    proof {
        reveal(vstd::laws_eq::obeys_concrete_eq);
    }
    if now > sig_expires_at {
        return Err(ContractError::SignatureExpired);
    }
    let adm = match admin_slot {
        Some(a) => a,
        None => return Err(ContractError::NotInitialized),
    };
    if !same_address(adm, &voter) && !voter_is_signer {
        return Err(ContractError::Unauthorized);
    }
    if nonce != *nonce_slot {
        return Err(ContractError::InvalidNonce);
    }
    let mut p = match proposal {
        Some(p) => p,
        None => return Err(ContractError::NoActiveEmergencyRevocation),
    };
    if list_contains(&p.votes, &voter) {
        return Err(ContractError::AlreadyVoted);
    }
    if same_address(&voter, &p.target) {
        return Err(ContractError::Unauthorized);
    }
    consume_admin_nonce(nonce_slot, nonce)?;
    p.votes.push(voter);
    let threshold = revocation_threshold(signer_count);
    if p.votes.len() >= threshold as usize {
        Ok(RevocationProgress::Executed(execute_emergency_revocation(adm, p)))
    } else {
        Ok(RevocationProgress::Pending(p))
    }
}

/// Drop the live revocation proposal, if any (the contract must be
/// initialized).
pub fn purge_emergency_revocation_proposal<A>(
    admin_slot: &Option<A>,
    proposal: &mut Option<EmergencyRevocationProposal<A>>,
) -> (r: Result<(), ContractError>)
    ensures
        *admin_slot is None ==> r == Err::<(), ContractError>(ContractError::NotInitialized)
            && *final(proposal) == *old(proposal),
        *admin_slot is Some ==> r == Ok::<(), ContractError>(()) && *final(proposal) is None,
{
    if admin_slot.is_none() {
        return Err(ContractError::NotInitialized);
    }
    *proposal = None;
    Ok(())
}

/// Guard for sensitive pathways: `RevokedAddress` when the caller's key has
/// been revoked.
pub fn assert_not_revoked(revoked: bool) -> (r: Result<(), ContractError>)
    ensures
        revoked ==> r == Err::<(), ContractError>(ContractError::RevokedAddress),
        !revoked ==> r == Ok::<(), ContractError>(()),
{
    if revoked {
        Err(ContractError::RevokedAddress)
    } else {
        Ok(())
    }
}

/// Emergency stop: the admin sets the paused flag.
pub fn set_paused<A: PartialEq>(
    admin_slot: &Option<A>,
    paused_slot: &mut bool,
    nonce_slot: &mut u64,
    caller: &A,
    paused: bool,
    nonce: u64,
) -> (r: Result<(), ContractError>)
    requires
        vstd::laws_eq::obeys_concrete_eq::<A>(),
        nonce_fits(*old(nonce_slot), nonce),
    ensures
        match *admin_slot {
            None => r == Err::<(), ContractError>(ContractError::NotInitialized),
            Some(adm) => if adm != *caller {
                r == Err::<(), ContractError>(ContractError::NotAdmin)
            } else if nonce != *old(nonce_slot) {
                r == Err::<(), ContractError>(ContractError::InvalidNonce)
            } else {
                r == Ok::<(), ContractError>(())
            },
        },
        r is Ok ==> *final(paused_slot) == paused && *final(nonce_slot) == *old(nonce_slot) + 1,
        r is Err ==> *final(paused_slot) == *old(paused_slot) && *final(nonce_slot) == *old(nonce_slot),
{
    let adm = match admin_slot {
        Some(a) => a,
        None => return Err(ContractError::NotInitialized),
    };
    if !same_address(adm, caller) {
        return Err(ContractError::NotAdmin);
    }
    consume_admin_nonce(nonce_slot, nonce)?;
    *paused_slot = paused;
    Ok(())
}

/// Whether the contract is paused (not paused when never set).
pub fn is_paused(stored: Option<bool>) -> (r: bool)
    ensures
        r == match stored { Some(p) => p, None => false },
{
    match stored {
        Some(p) => p,
        None => false,
    }
}

} // verus!
