//! Hash time-locked settlement.
//!
//! A depositor locks an amount behind a SHA-256 hash lock until a ledger
//! deadline. Before the deadline the beneficiary may claim it by presenting
//! the pre-image; from the deadline on the depositor may refund it. Every
//! operation here decides on values read from the ledger and returns the
//! values to write back; a rejected operation writes nothing.
//!
//! The address type `A` is the caller's (the Soroban `Address` in the
//! contract); its `==` must be plain equality of addresses.

use vstd::prelude::*;
use crate::error::ContractError;
use crate::host::{sha256_digest, sha256_of};
use crate::AssetId;

verus! {

/// Maximum number of active HTLCs per depositor.
pub const MAX_ACTIVE_HTLCS: u32 = 64;

/// Minimum deadline offset (in ledgers) from the current ledger.
pub const MIN_DEADLINE_OFFSET: u32 = 10;

/// Maximum deadline offset (in ledgers): about one year of ledgers.
pub const MAX_DEADLINE_OFFSET: u32 = 6_307_200;

/// Storage key of an individual HTLC record.
#[derive(Clone, Copy, Debug, PartialEq, Eq, Structural)]
pub struct HtlcKey(pub u64);

/// Storage key of a depositor's active-HTLC counter.
#[derive(Clone, Debug, PartialEq, Eq)]
pub struct HtlcCounterKey<A>(pub A);

/// Settlement state of an HTLC.
#[derive(Clone, Copy, Debug, PartialEq, Eq, Structural)]
pub enum HtlcState {
    /// Funds are locked; awaiting claim or refund.
    Active,
    /// Beneficiary claimed with a valid pre-image.
    Claimed,
    /// Depositor refunded after the deadline.
    Refunded,
}

/// A single HTLC record.
#[derive(Clone, Debug, PartialEq, Eq)]
pub struct Htlc<A> {
    /// Unique identifier.
    pub id: u64,
    /// The address that deposited the funds.
    pub depositor: A,
    /// The address that may claim by presenting the pre-image.
    pub beneficiary: A,
    /// SHA-256 hash of the secret pre-image.
    pub hash_lock: [u8; 32],
    /// Ledger sequence from which the depositor may refund.
    pub deadline_sequence: u32,
    /// Asset being locked.
    pub asset: AssetId,
    /// Amount locked, in stroops.
    pub amount: u64,
    /// Current settlement state.
    pub state: HtlcState,
}

/// The record `h` with its state replaced by `state`.
pub open spec fn with_state<A>(h: Htlc<A>, state: HtlcState) -> Htlc<A> {
    Htlc { state, ..h }
}

/// What creating an HTLC yields: the new record and the depositor's new
/// active count, or the error, checked in this order: zero amount, deadline
/// too soon, deadline too far, identifier overflow, too many active HTLCs.
pub open spec fn create_outcome(
    current_seq: u32,
    last_id: u64,
    active_count: u32,
    deadline_sequence: u32,
    amount: u64,
) -> Result<(u64, u32), ContractError> {
    if amount == 0 {
        Err(ContractError::ZeroSwapAmount)
    } else if deadline_sequence <= current_seq + MIN_DEADLINE_OFFSET {
        Err(ContractError::DeadlineTooSoon)
    } else if deadline_sequence > current_seq + MAX_DEADLINE_OFFSET {
        Err(ContractError::DeadlineTooFar)
    } else if last_id == u64::MAX {
        Err(ContractError::Overflow)
    } else if active_count >= MAX_ACTIVE_HTLCS {
        Err(ContractError::TooManyActiveHtlcs)
    } else {
        Ok(((last_id + 1) as u64, (active_count + 1) as u32))
    }
}

/// Create a new HTLC locking `amount` behind `hash_lock` until
/// `deadline_sequence`.
///
/// `last_id` is the last identifier handed out (zero before the first) and
/// `active_count` the depositor's current number of active HTLCs. On success
/// returns the new active record, whose identifier is `last_id + 1` (also the
/// new last identifier), and the depositor's new active count.
pub fn create_htlc<A>(
    current_seq: u32,
    last_id: u64,
    active_count: u32,
    depositor: A,
    beneficiary: A,
    hash_lock: [u8; 32],
    deadline_sequence: u32,
    asset: AssetId,
    amount: u64,
) -> (r: Result<(Htlc<A>, u32), ContractError>)
    requires
        amount == 0 || (current_seq <= u32::MAX - MIN_DEADLINE_OFFSET && (deadline_sequence <= current_seq
            + MIN_DEADLINE_OFFSET || current_seq <= u32::MAX - MAX_DEADLINE_OFFSET)),
    ensures
        match create_outcome(current_seq, last_id, active_count, deadline_sequence, amount) {
            Ok((id, count)) => r matches Ok((h, c)) && c == count && h == (Htlc {
                id,
                depositor,
                beneficiary,
                hash_lock,
                deadline_sequence,
                asset,
                amount,
                state: HtlcState::Active,
            }),
            Err(e) => r matches Err(e2) && e2 == e,
        },
{
    if amount == 0 {
        return Err(ContractError::ZeroSwapAmount);
    }
    if deadline_sequence <= current_seq + MIN_DEADLINE_OFFSET {
        return Err(ContractError::DeadlineTooSoon);
    }
    if deadline_sequence > current_seq + MAX_DEADLINE_OFFSET {
        return Err(ContractError::DeadlineTooFar);
    }
    let htlc_id = match last_id.checked_add(1) {
        Some(v) => v,
        None => return Err(ContractError::Overflow),
    };
    if active_count >= MAX_ACTIVE_HTLCS {
        return Err(ContractError::TooManyActiveHtlcs);
    }
    let htlc = Htlc {
        id: htlc_id,
        depositor,
        beneficiary,
        hash_lock,
        deadline_sequence,
        asset,
        amount,
        state: HtlcState::Active,
    };
    Ok((htlc, active_count + 1))
}

/// The depositor's active count after one of its HTLCs settles: one less
/// than the stored count (a missing count is taken as one), never below zero.
pub open spec fn released_count(stored_count: Option<u32>) -> u32 {
    match stored_count {
        Some(c) => if c > 0 { (c - 1) as u32 } else { 0 },
        None => 0,
    }
}

fn release_active_slot(stored_count: Option<u32>) -> (r: u32)
    ensures
        r == released_count(stored_count),
{
    let count = match stored_count {
        Some(c) => c,
        None => 1,
    };
    if count > 0 {
        count - 1
    } else {
        count
    }
}

/// What a claim presenting a pre-image whose digest is `digest` yields,
/// checked in this order: caller, state, deadline, digest.
pub open spec fn claim_check<A>(h: Htlc<A>, caller: A, current_seq: u32, digest: Seq<u8>) -> Result<(), ContractError> {
    if h.beneficiary != caller {
        Err(ContractError::Unauthorized)
    } else if h.state != HtlcState::Active {
        Err(ContractError::HtlcNotActive)
    } else if current_seq >= h.deadline_sequence {
        Err(ContractError::DeadlineReached)
    } else if digest != h.hash_lock@ {
        Err(ContractError::InvalidPreImage)
    } else {
        Ok(())
    }
}

/// What a refund yields, checked in this order: caller, state, deadline.
pub open spec fn refund_check<A>(h: Htlc<A>, caller: A, current_seq: u32) -> Result<(), ContractError> {
    if h.depositor != caller {
        Err(ContractError::Unauthorized)
    } else if h.state != HtlcState::Active {
        Err(ContractError::HtlcNotActive)
    } else if current_seq < h.deadline_sequence {
        Err(ContractError::DeadlineNotReached)
    } else {
        Ok(())
    }
}

fn digests_equal(a: &[u8; 32], b: &[u8; 32]) -> (r: bool)
    ensures
        r == (a@ == b@),
{
    let mut i: usize = 0;
    while i < 32
        invariant
            i <= 32,
            a@.len() == 32,
            b@.len() == 32,
            forall|k: int| 0 <= k < i ==> a@[k] == b@[k],
        decreases 32 - i,
    {
        if a[i] != b[i] {
            return false;
        }
        i = i + 1;
    }
    proof {
        assert(a@ =~= b@);
    }
    true
}

/// Decide a claim of `htlc` by `caller` at ledger `current_seq`, where
/// `computed_hash` is the SHA-256 digest of the presented pre-image.
pub fn verify_claim<A: PartialEq>(htlc: &Htlc<A>, caller: &A, current_seq: u32, computed_hash: &[u8; 32]) -> (r: Result<(), ContractError>)
    requires
        vstd::laws_eq::obeys_concrete_eq::<A>(),
    ensures
        r == claim_check(*htlc, *caller, current_seq, computed_hash@),
{
    proof {
        reveal(vstd::laws_eq::obeys_concrete_eq);
    }
    if htlc.beneficiary != *caller {
        return Err(ContractError::Unauthorized);
    }
    if htlc.state != HtlcState::Active {
        return Err(ContractError::HtlcNotActive);
    }
    if current_seq >= htlc.deadline_sequence {
        return Err(ContractError::DeadlineReached);
    }
    if !digests_equal(computed_hash, &htlc.hash_lock) {
        return Err(ContractError::InvalidPreImage);
    }
    Ok(())
}

/// Claim an HTLC by presenting the secret pre-image.
///
/// `record` is the stored record (`None` when there is none) and
/// `stored_count` the depositor's stored active count. On success returns
/// the record in the `Claimed` state and the depositor's new active count.
pub fn claim<A: PartialEq>(
    env: &soroban_sdk::Env,
    record: Option<Htlc<A>>,
    pre_image: &[u8],
    caller: &A,
    current_seq: u32,
    stored_count: Option<u32>,
) -> (r: Result<(Htlc<A>, u32), ContractError>)
    requires
        vstd::laws_eq::obeys_concrete_eq::<A>(),
    ensures
        match record {
            None => r == Err::<(Htlc<A>, u32), ContractError>(ContractError::HtlcNotFound),
            Some(h) => match claim_check(h, *caller, current_seq, sha256_of(pre_image@)) {
                Ok(_) => r matches Ok((h2, c)) && h2 == with_state(h, HtlcState::Claimed)
                    && c == released_count(stored_count),
                Err(e) => r matches Err(e2) && e2 == e,
            },
        },
{
    let mut htlc = match record {
        Some(h) => h,
        None => return Err(ContractError::HtlcNotFound),
    };
    let computed_hash = sha256_digest(env, pre_image);
    match verify_claim(&htlc, caller, current_seq, &computed_hash) {
        Ok(()) => {},
        Err(e) => return Err(e),
    }
    htlc.state = HtlcState::Claimed;
    let count = release_active_slot(stored_count);
    Ok((htlc, count))
}

/// Refund an HTLC to its depositor once the deadline has been reached.
///
/// On success returns the record in the `Refunded` state and the
/// depositor's new active count.
pub fn refund<A: PartialEq>(
    record: Option<Htlc<A>>,
    caller: &A,
    current_seq: u32,
    stored_count: Option<u32>,
) -> (r: Result<(Htlc<A>, u32), ContractError>)
    requires
        vstd::laws_eq::obeys_concrete_eq::<A>(),
    ensures
        match record {
            None => r == Err::<(Htlc<A>, u32), ContractError>(ContractError::HtlcNotFound),
            Some(h) => match refund_check(h, *caller, current_seq) {
                Ok(_) => r matches Ok((h2, c)) && h2 == with_state(h, HtlcState::Refunded)
                    && c == released_count(stored_count),
                Err(e) => r matches Err(e2) && e2 == e,
            },
        },
{
    proof {
        reveal(vstd::laws_eq::obeys_concrete_eq);
    }
    let mut htlc = match record {
        Some(h) => h,
        None => return Err(ContractError::HtlcNotFound),
    };
    if htlc.depositor != *caller {
        return Err(ContractError::Unauthorized);
    }
    if htlc.state != HtlcState::Active {
        return Err(ContractError::HtlcNotActive);
    }
    if current_seq < htlc.deadline_sequence {
        return Err(ContractError::DeadlineNotReached);
    }
    htlc.state = HtlcState::Refunded;
    let count = release_active_slot(stored_count);
    Ok((htlc, count))
}

/// The stored record, or `HtlcNotFound`.
pub fn get_htlc<A>(record: Option<Htlc<A>>) -> (r: Result<Htlc<A>, ContractError>)
    ensures
        match record {
            Some(h) => r == Ok::<Htlc<A>, ContractError>(h),
            None => r == Err::<Htlc<A>, ContractError>(ContractError::HtlcNotFound),
        },
{
    match record {
        Some(h) => Ok(h),
        None => Err(ContractError::HtlcNotFound),
    }
}

/// The depositor's number of active HTLCs (zero when none is stored).
pub fn active_htlc_count(stored_count: Option<u32>) -> (r: u32)
    ensures
        r == match stored_count { Some(c) => c, None => 0 },
{
    match stored_count {
        Some(c) => c,
        None => 0,
    }
}

/// The last identifier handed out, which the next creation increments
/// (zero before the first).
pub fn next_htlc_id(stored_id: Option<u64>) -> (r: u64)
    ensures
        r == match stored_id { Some(i) => i, None => 0 },
{
    match stored_id {
        Some(i) => i,
        None => 0,
    }
}

/// Whether the stored record is an HTLC that is still active and whose
/// deadline has been reached.
pub open spec fn htlc_expired<A>(stored: Option<Htlc<A>>, current_seq: u32) -> bool {
    stored matches Some(h) && h.state == HtlcState::Active && current_seq >= h.deadline_sequence
}

/// Whether the stored record is an HTLC that is still active and whose
/// deadline has not been reached.
pub open spec fn htlc_claimable<A>(stored: Option<Htlc<A>>, current_seq: u32) -> bool {
    stored matches Some(h) && h.state == HtlcState::Active && current_seq < h.deadline_sequence
}

/// Whether an HTLC has expired, judged by its stored record (the record
/// kept under its identifier, `None` when there is none): it is still
/// active and its deadline has been reached.
pub fn is_expired<A>(stored: &Option<Htlc<A>>, current_seq: u32) -> (r: bool)
    ensures
        r == htlc_expired(*stored, current_seq),
{
    match stored {
        Some(h) => h.state == HtlcState::Active && current_seq >= h.deadline_sequence,
        None => false,
    }
}

/// Whether an HTLC can still be claimed, judged by its stored record (the
/// record kept under its identifier, `None` when there is none): it is
/// still active and its deadline has not been reached. A copy taken before
/// a claim says nothing here; the record after the claim does.
pub fn is_claimable<A>(stored: &Option<Htlc<A>>, current_seq: u32) -> (r: bool)
    ensures
        r == htlc_claimable(*stored, current_seq),
{
    match stored {
        Some(h) => h.state == HtlcState::Active && current_seq < h.deadline_sequence,
        None => false,
    }
}

/// Claim and refund exclude each other: at any ledger, an HTLC that some
/// caller may claim cannot be refunded by anyone, and one that may be
/// refunded cannot be claimed, whatever pre-image is presented.
pub proof fn law_claim_refund_exclusive<A>(h: Htlc<A>, claimer: A, refunder: A, current_seq: u32, digest: Seq<u8>)
    ensures
        claim_check(h, claimer, current_seq, digest) is Ok ==> refund_check(h, refunder, current_seq) is Err,
        refund_check(h, refunder, current_seq) is Ok ==> claim_check(h, claimer, current_seq, digest) is Err,
{
}

/// A settled HTLC stays settled: once claimed or refunded, the beneficiary's
/// claims and the depositor's refunds are answered `HtlcNotActive`.
pub proof fn law_settled_is_final<A>(h: Htlc<A>, current_seq: u32, digest: Seq<u8>)
    requires
        h.state != HtlcState::Active,
    ensures
        claim_check(h, h.beneficiary, current_seq, digest) == Err::<(), ContractError>(ContractError::HtlcNotActive),
        refund_check(h, h.depositor, current_seq) == Err::<(), ContractError>(ContractError::HtlcNotActive),
{
}

/// An active HTLC is, at every ledger, exactly one of claimable or
/// expired; a settled or unknown one is neither.
pub proof fn law_claimable_xor_expired<A>(stored: Option<Htlc<A>>, current_seq: u32)
    ensures
        (stored matches Some(h) && h.state == HtlcState::Active) ==> htlc_claimable(stored, current_seq)
            != htlc_expired(stored, current_seq),
        !(stored matches Some(h) && h.state == HtlcState::Active) ==> !htlc_claimable(stored, current_seq)
            && !htlc_expired(stored, current_seq),
{
}

/// Once claimed, an HTLC is no longer claimable nor expired: the record a
/// successful claim stores (the HTLC in the `Claimed` state) answers `false`
/// at every ledger.
pub proof fn law_claimed_not_claimable<A>(h: Htlc<A>, later_seq: u32)
    ensures
        !htlc_claimable(Some(with_state(h, HtlcState::Claimed)), later_seq),
        !htlc_expired(Some(with_state(h, HtlcState::Claimed)), later_seq),
{
}

/// The pre-image whose digest is the hash lock opens an active HTLC for its
/// beneficiary before the deadline, and no other digest does.
pub proof fn law_claim_needs_matching_digest<A>(h: Htlc<A>, current_seq: u32, digest: Seq<u8>)
    requires
        h.state == HtlcState::Active,
        current_seq < h.deadline_sequence,
    ensures
        claim_check(h, h.beneficiary, current_seq, digest) is Ok <==> digest == h.hash_lock@,
{
}

/// Creating two HTLCs in a row hands out consecutive identifiers, each one
/// past the last identifier handed out, and counts both against the
/// depositor.
pub proof fn law_consecutive_creations(
    current_seq: u32,
    last_id: u64,
    active_count: u32,
    deadline1: u32,
    amount1: u64,
    deadline2: u32,
    amount2: u64,
)
    requires
        create_outcome(current_seq, last_id, active_count, deadline1, amount1) is Ok,
        ({
            let (id1, c1) = create_outcome(current_seq, last_id, active_count, deadline1, amount1)->Ok_0;
            create_outcome(current_seq, id1, c1, deadline2, amount2) is Ok
        }),
    ensures
        ({
            let (id1, c1) = create_outcome(current_seq, last_id, active_count, deadline1, amount1)->Ok_0;
            let (id2, c2) = create_outcome(current_seq, id1, c1, deadline2, amount2)->Ok_0;
            &&& id1 == last_id + 1
            &&& id2 == id1 + 1
            &&& c2 == active_count + 2
        }),
{
}

/// A claim (`true`) or refund (`false`) call on an HTLC: the caller, the
/// ledger sequence and, for a claim, the digest of the presented pre-image.
pub type SettleCall<A> = (bool, A, u32, Seq<u8>);

/// The record after one call and whether the call succeeded.
pub open spec fn settle_step<A>(h: Htlc<A>, call: SettleCall<A>) -> (Htlc<A>, bool) {
    if call.0 {
        match claim_check(h, call.1, call.2, call.3) {
            Ok(_) => (with_state(h, HtlcState::Claimed), true),
            Err(_) => (h, false),
        }
    } else {
        match refund_check(h, call.1, call.2) {
            Ok(_) => (with_state(h, HtlcState::Refunded), true),
            Err(_) => (h, false),
        }
    }
}

/// The record after a sequence of calls and how many of them succeeded.
pub open spec fn settle_run<A>(h: Htlc<A>, calls: Seq<SettleCall<A>>) -> (Htlc<A>, nat)
    decreases calls.len(),
{
    if calls.len() == 0 {
        (h, 0)
    } else {
        let (h1, n1) = settle_run(h, calls.drop_last());
        let (h2, ok) = settle_step(h1, calls.last());
        (h2, if ok { n1 + 1 } else { n1 })
    }
}

/// An HTLC settles at most once: over any sequence of claim and refund
/// calls, at most one succeeds; the record then holds `Claimed` or
/// `Refunded` for good and otherwise keeps every field; while no call has
/// succeeded the record is unchanged; and a settled HTLC is never changed
/// again.
pub proof fn law_settles_at_most_once<A>(h: Htlc<A>, calls: Seq<SettleCall<A>>)
    ensures
        settle_run(h, calls).1 <= 1,
        settle_run(h, calls).1 == 0 ==> settle_run(h, calls).0 == h,
        settle_run(h, calls).1 == 1 ==> h.state == HtlcState::Active
            && settle_run(h, calls).0.state != HtlcState::Active
            && settle_run(h, calls).0 == with_state(h, settle_run(h, calls).0.state),
        h.state != HtlcState::Active ==> settle_run(h, calls) == (h, 0nat),
    decreases calls.len(),
{
    if calls.len() > 0 {
        law_settles_at_most_once(h, calls.drop_last());
    }
}

/// Only the right party, at the right time, settles an HTLC: a claim
/// succeeds exactly for the beneficiary of an active HTLC before its
/// deadline presenting the pre-image whose digest is the hash lock; a
/// refund succeeds exactly for the depositor of an active HTLC once its
/// deadline is reached.
pub proof fn law_settlement_needs_party_and_time<A>(h: Htlc<A>, caller: A, current_seq: u32, digest: Seq<u8>)
    ensures
        claim_check(h, caller, current_seq, digest) is Ok <==> (caller == h.beneficiary && h.state
            == HtlcState::Active && current_seq < h.deadline_sequence && digest == h.hash_lock@),
        refund_check(h, caller, current_seq) is Ok <==> (caller == h.depositor && h.state == HtlcState::Active
            && current_seq >= h.deadline_sequence),
{
}

/// Creating an HTLC succeeds exactly for a positive amount, a deadline more
/// than 10 ledgers and at most 6_307_200 ledgers (about a year) ahead, an
/// identifier still available, and a depositor holding fewer than 64 active
/// HTLCs; the new HTLC takes the next identifier and counts one more.
pub proof fn law_creation_bounds(current_seq: u32, last_id: u64, active_count: u32, deadline_sequence: u32, amount: u64)
    ensures
        create_outcome(current_seq, last_id, active_count, deadline_sequence, amount) is Ok <==> (amount > 0
            && current_seq + 10 < deadline_sequence <= current_seq + 6_307_200 && last_id < u64::MAX
            && active_count < 64),
        create_outcome(current_seq, last_id, active_count, deadline_sequence, amount) matches Ok((id, count))
            ==> id == last_id + 1 && count == active_count + 1,
{
}

} // verus!
