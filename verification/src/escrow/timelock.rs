//! Time-locked settlement escrow.
//!
//! Funds are held until either both the sender and the receiver approve
//! before the expiry ledger (release to the receiver), or the expiry ledger
//! is reached and the depositor asks for a refund. The escrow records the
//! decision; the caller moves the tokens when an operation succeeds.

use vstd::prelude::*;
use crate::address::same_address;

verus! {

/// State of a settlement escrow.
#[derive(Clone, Debug, PartialEq, Eq)]
pub struct Escrow<A> {
    pub sender: A,
    pub receiver: A,
    pub depositor: A,
    pub token: A,
    pub amount: i128,
    pub expiry_ledger: u32,
    pub sender_approved: bool,
    pub receiver_approved: bool,
    pub released: bool,
}

impl<A> Escrow<A> {
    /// Both parties have approved.
    pub fn is_approved(&self) -> (r: bool)
        ensures
            r == (self.sender_approved && self.receiver_approved),
    {
        self.sender_approved && self.receiver_approved
    }

    /// The expiry ledger has been reached.
    pub fn is_expired(&self, current_ledger: u32) -> (r: bool)
        ensures
            r == (current_ledger >= self.expiry_ledger),
    {
        current_ledger >= self.expiry_ledger
    }
}

/// A new escrow of `amount` of `token`, with no approvals and not released
/// (the caller moves the deposit into the contract).
pub fn create<A>(sender: A, receiver: A, depositor: A, token: A, amount: i128, expiry_ledger: u32) -> (r: Escrow<A>)
    ensures
        r == (Escrow {
            sender,
            receiver,
            depositor,
            token,
            amount,
            expiry_ledger,
            sender_approved: false,
            receiver_approved: false,
            released: false,
        }),
{
    Escrow {
        sender,
        receiver,
        depositor,
        token,
        amount,
        expiry_ledger,
        sender_approved: false,
        receiver_approved: false,
        released: false,
    }
}

/// The sender's approval; refused for anyone else.
pub fn approve_by_sender<A: PartialEq>(escrow: &mut Escrow<A>, caller: &A) -> (r: Result<(), ()>)
    requires
        vstd::laws_eq::obeys_concrete_eq::<A>(),
    ensures
        *caller == old(escrow).sender ==> r is Ok && *final(escrow) == (Escrow { sender_approved: true, ..*old(escrow) }),
        *caller != old(escrow).sender ==> r is Err && *final(escrow) == *old(escrow),
{
    if !same_address(caller, &escrow.sender) {
        return Err(());
    }
    escrow.sender_approved = true;
    Ok(())
}

/// The receiver's approval; refused for anyone else.
pub fn approve_by_receiver<A: PartialEq>(escrow: &mut Escrow<A>, caller: &A) -> (r: Result<(), ()>)
    requires
        vstd::laws_eq::obeys_concrete_eq::<A>(),
    ensures
        *caller == old(escrow).receiver ==> r is Ok && *final(escrow) == (Escrow { receiver_approved: true, ..*old(escrow) }),
        *caller != old(escrow).receiver ==> r is Err && *final(escrow) == *old(escrow),
{
    if !same_address(caller, &escrow.receiver) {
        return Err(());
    }
    escrow.receiver_approved = true;
    Ok(())
}

/// Whether a release at `current_ledger` is allowed: not yet released,
/// before expiry, and approved by both parties.
pub open spec fn may_release<A>(e: Escrow<A>, current_ledger: u32) -> bool {
    !e.released && current_ledger < e.expiry_ledger && e.sender_approved && e.receiver_approved
}

/// Whether `caller` may refund at `current_ledger`: not yet released, the
/// depositor, and the expiry ledger reached.
pub open spec fn may_refund<A>(e: Escrow<A>, caller: A, current_ledger: u32) -> bool {
    !e.released && caller == e.depositor && current_ledger >= e.expiry_ledger
}

/// Release the funds to the receiver (the caller then pays `amount` of
/// `token` to the receiver).
pub fn release<A>(escrow: &mut Escrow<A>, current_ledger: u32) -> (r: Result<(), ()>)
    ensures
        may_release(*old(escrow), current_ledger) ==> r is Ok && *final(escrow) == (Escrow { released: true, ..*old(escrow) }),
        !may_release(*old(escrow), current_ledger) ==> r is Err && *final(escrow) == *old(escrow),
{
    if escrow.released {
        return Err(());
    }
    if escrow.is_expired(current_ledger) {
        return Err(());
    }
    if !escrow.is_approved() {
        return Err(());
    }
    escrow.released = true;
    Ok(())
}

/// Refund the depositor after expiry (the caller then pays `amount` of
/// `token` back to the depositor).
pub fn refund<A: PartialEq>(escrow: &mut Escrow<A>, caller: &A, current_ledger: u32) -> (r: Result<(), ()>)
    requires
        vstd::laws_eq::obeys_concrete_eq::<A>(),
    ensures
        may_refund(*old(escrow), *caller, current_ledger) ==> r is Ok && *final(escrow) == (Escrow { released: true, ..*old(escrow) }),
        !may_refund(*old(escrow), *caller, current_ledger) ==> r is Err && *final(escrow) == *old(escrow),
{
    if escrow.released {
        return Err(());
    }
    if !same_address(caller, &escrow.depositor) {
        return Err(());
    }
    if !escrow.is_expired(current_ledger) {
        return Err(());
    }
    escrow.released = true;
    Ok(())
}

/// Escrowed funds leave at most once and by one path: at any ledger a
/// release and a refund are never both allowed, and once released neither
/// is allowed again.
pub proof fn law_escrow_settles_once<A>(e: Escrow<A>, caller: A, current_ledger: u32, later: u32)
    ensures
        !(may_release(e, current_ledger) && may_refund(e, caller, current_ledger)),
        may_release(e, current_ledger) ==> !may_release(Escrow { released: true, ..e }, later)
            && !may_refund(Escrow { released: true, ..e }, caller, later),
        may_refund(e, caller, current_ledger) ==> !may_release(Escrow { released: true, ..e }, later)
            && !may_refund(Escrow { released: true, ..e }, caller, later),
{
}

/// A release needs both approvals: whenever the sender or the receiver has
/// not approved, no release is allowed at any ledger (the release then
/// fails and leaves the escrow as it was). In particular a new escrow that
/// only the receiver, or only the sender, has approved cannot be released.
pub proof fn law_release_needs_both_approvals<A>(
    e: Escrow<A>,
    current_ledger: u32,
    sender: A,
    receiver: A,
    depositor: A,
    token: A,
    amount: i128,
    expiry_ledger: u32,
)
    ensures
        may_release(e, current_ledger) ==> e.sender_approved && e.receiver_approved,
        !e.sender_approved ==> !may_release(e, current_ledger),
        !e.receiver_approved ==> !may_release(e, current_ledger),
        may_release(e, current_ledger) ==> !e.released && current_ledger < e.expiry_ledger,
        ({
            let fresh = Escrow {
                sender,
                receiver,
                depositor,
                token,
                amount,
                expiry_ledger,
                sender_approved: false,
                receiver_approved: false,
                released: false,
            };
            &&& !may_release(Escrow { receiver_approved: true, ..fresh }, current_ledger)
            &&& !may_release(Escrow { sender_approved: true, ..fresh }, current_ledger)
            &&& (current_ledger < expiry_ledger ==> may_release(
                Escrow { sender_approved: true, receiver_approved: true, ..fresh }, current_ledger))
        }),
{
}

/// Only the depositor recovers the funds, and only once the expiry ledger
/// is reached and nothing was released before.
pub proof fn law_refund_needs_depositor_after_expiry<A>(e: Escrow<A>, caller: A, current_ledger: u32)
    ensures
        may_refund(e, caller, current_ledger) ==> caller == e.depositor && current_ledger >= e.expiry_ledger
            && !e.released,
        caller != e.depositor ==> !may_refund(e, caller, current_ledger),
        current_ledger < e.expiry_ledger ==> !may_refund(e, caller, current_ledger),
        !e.released && current_ledger >= e.expiry_ledger ==> may_refund(e, e.depositor, current_ledger),
{
}

} // verus!
