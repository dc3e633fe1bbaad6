use vstd::prelude::*;

use crate::counter::Counter;
use crate::error::Error;
use crate::payable::{Payable, Settlement, Status};
use crate::store::{unchanged_except, Store};

verus! {

/// Provision the sequence allocator: the next obligation gets identifier 0.
pub fn initialize() -> (c: Counter)
    ensures
        c.next_id == 0,
{
    Counter::new()
}

/// Why a creation request against this allocator and store is rejected, if it
/// is: the record itself must be creatable, the allocator must not be
/// exhausted, and the pair must not already hold a live obligation.
pub open spec fn create_payable_rejection(
    counter: Counter,
    store: Store,
    creator: u64,
    payer: u64,
    recurrent: bool,
    installment_interval: u64,
    grace_period: i64,
    now: int,
) -> Option<Error> {
    if Payable::create_rejection(creator, payer, recurrent, installment_interval, grace_period, now) is Some {
        Payable::create_rejection(creator, payer, recurrent, installment_interval, grace_period, now)
    } else if counter.next_id == u64::MAX {
        Some(Error::ArithmeticOverflow)
    } else if store.has_live(creator, payer) {
        Some(Error::DuplicateObligation)
    } else {
        None
    }
}

/// A creation request: allocate the next identifier and file a fresh record
/// under the (creator, payer) pair. Nothing — not even the allocator — moves
/// on a rejection.
pub fn create_payable(
    counter: &mut Counter,
    store: &mut Store,
    creator: u64,
    payer: u64,
    amount: u64,
    recurrent: bool,
    installment_count: u64,
    installment_interval: u64,
    grace_period: i64,
    token: u64,
    now: i64,
) -> (r: Result<u64, Error>)
    requires
        old(store).wf(),
    ensures
        final(store).wf(),
        match r {
            Ok(id) => {
                &&& create_payable_rejection(
                    *old(counter),
                    *old(store),
                    creator,
                    payer,
                    recurrent,
                    installment_interval,
                    grace_period,
                    now as int,
                ) is None
                &&& id == old(counter).next_id
                &&& final(counter).next_id == old(counter).next_id + 1
                &&& final(store).contains(creator, payer)
                &&& final(store).record_of(creator, payer) == Payable::created(
                    id,
                    creator,
                    payer,
                    amount,
                    recurrent,
                    installment_count,
                    installment_interval,
                    grace_period,
                    token,
                    now,
                )
                &&& unchanged_except(*old(store), *final(store), creator, payer)
            },
            Err(e) => {
                &&& create_payable_rejection(
                    *old(counter),
                    *old(store),
                    creator,
                    payer,
                    recurrent,
                    installment_interval,
                    grace_period,
                    now as int,
                ) == Some(e)
                &&& *final(counter) == *old(counter)
                &&& *final(store) == *old(store)
            },
        },
{
    let rec: Payable = match Payable::create(
        counter.next_id,
        creator,
        payer,
        amount,
        recurrent,
        installment_count,
        installment_interval,
        grace_period,
        token,
        now,
    ) {
        Ok(p) => p,
        Err(e) => {
            return Err(e);
        },
    };
    if counter.next_id == u64::MAX {
        return Err(Error::ArithmeticOverflow);
    }
    match store.create(rec) {
        Ok(()) => {},
        Err(e) => {
            return Err(e);
        },
    }
    let id: u64 = counter.allocate();
    Ok(id)
}

/// An acceptance request: the payer signs off on the recurrence flag and
/// escrows the obligation's full future value. Returns the total the escrow
/// gateway must move from the payer's wallet into the escrow account.
pub fn accept_payable(
    store: &mut Store,
    creator: u64,
    payer: u64,
    signer: u64,
    recurrent_ack: bool,
) -> (r: Result<u64, Error>)
    requires
        old(store).wf(),
        old(store).contains(creator, payer),
    ensures
        final(store).wf(),
        match r {
            Ok(total) => {
                let before = old(store).record_of(creator, payer);
                &&& before.accept_rejection(signer, recurrent_ack) is None
                &&& total == before.amount * before.installments_remaining
                &&& final(store).contains(creator, payer)
                &&& final(store).record_of(creator, payer) == (Payable {
                    status: Status::Accepted,
                    ..before
                })
                &&& unchanged_except(*old(store), *final(store), creator, payer)
            },
            Err(e) => {
                &&& old(store).record_of(creator, payer).accept_rejection(signer, recurrent_ack)
                    == Some(e)
                &&& *final(store) == *old(store)
            },
        },
{
    let mut rec: Payable = match store.read(creator, payer) {
        Some(rec) => rec,
        None => {
            return Err(Error::NotAuthorized);
        },
    };
    match rec.accept(signer, recurrent_ack) {
        Ok(total) => {
            store.write(rec);
            Ok(total)
        },
        Err(e) => Err(e),
    }
}

/// A withdrawal request: the payee pulls the installments matured since the
/// last payout. Returns the payout the escrow gateway must move from the
/// escrow account to the creator's wallet.
pub fn withdraw(store: &mut Store, creator: u64, payer: u64, signer: u64, now: i64) -> (r: Result<
    u64,
    Error,
>)
    requires
        old(store).wf(),
        old(store).contains(creator, payer),
        now >= old(store).record_of(creator, payer).last_withdrawal,
    ensures
        final(store).wf(),
        match r {
            Ok(payout) => {
                let before = old(store).record_of(creator, payer);
                &&& before.withdraw_rejection(signer, now as int) is None
                &&& payout == before.withdraw_matured(now as int) * before.amount
                &&& final(store).contains(creator, payer)
                &&& final(store).record_of(creator, payer) == before.after_withdraw(now as int)
                &&& unchanged_except(*old(store), *final(store), creator, payer)
            },
            Err(e) => {
                &&& old(store).record_of(creator, payer).withdraw_rejection(signer, now as int)
                    == Some(e)
                &&& *final(store) == *old(store)
            },
        },
{
    let mut rec: Payable = match store.read(creator, payer) {
        Some(rec) => rec,
        None => {
            return Err(Error::NotAuthorized);
        },
    };
    match rec.withdraw(signer, now) {
        Ok(payout) => {
            store.write(rec);
            Ok(payout)
        },
        Err(e) => Err(e),
    }
}

/// A cancellation request: the payer exits, the payee is caught up on matured
/// time, and the remainder is split or refunded depending on maturity.
/// Returns the three transfers the escrow gateway must perform.
pub fn cancel_payable(store: &mut Store, creator: u64, payer: u64, signer: u64, now: i64) -> (r:
    Result<Settlement, Error>)
    requires
        old(store).wf(),
        old(store).contains(creator, payer),
        now >= old(store).record_of(creator, payer).last_withdrawal,
    ensures
        final(store).wf(),
        match r {
            Ok(s) => {
                let before = old(store).record_of(creator, payer);
                &&& before.cancel_rejection(signer, now as int) is None
                &&& s == before.cancel_settlement(now as int)
                &&& final(store).contains(creator, payer)
                &&& final(store).record_of(creator, payer) == before.after_cancel(now as int)
                &&& unchanged_except(*old(store), *final(store), creator, payer)
            },
            Err(e) => {
                &&& old(store).record_of(creator, payer).cancel_rejection(signer, now as int)
                    == Some(e)
                &&& *final(store) == *old(store)
            },
        },
{
    let mut rec: Payable = match store.read(creator, payer) {
        Some(rec) => rec,
        None => {
            return Err(Error::NotAuthorized);
        },
    };
    match rec.cancel(signer, now) {
        Ok(s) => {
            store.write(rec);
            Ok(s)
        },
        Err(e) => Err(e),
    }
}

} // verus!
