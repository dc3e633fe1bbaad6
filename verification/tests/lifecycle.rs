use payable::error::Error;
use payable::payable::{Payable, Status};

fn accepted(amount: u64, recurrent: bool, count: u64, interval: u64, grace: i64) -> Payable {
    let mut p = Payable::create(0, 1, 2, amount, recurrent, count, interval, grace, 7, 0)
        .expect("creation should succeed");
    p.accept(2, recurrent).expect("acceptance should succeed");
    p
}

#[test]
fn creation_sets_installments_for_recurrent() {
    let p = Payable::create(0, 1, 2, 100, true, 3, 1000, 0, 7, 0).expect("create");
    assert_eq!(p.installments_remaining, 3);
    assert_eq!(p.status, Status::Created);
    assert_eq!(p.cancel_eligible, 0);
    assert_eq!(p.last_withdrawal, 0);
    assert!(p.creator != p.payer);
}

#[test]
fn creation_sets_one_installment_for_single_shot() {
    let p = Payable::create(0, 1, 2, 100, false, 5, 0, 0, 7, 0).expect("create");
    assert_eq!(p.installments_remaining, 1);
}

#[test]
fn creation_adds_grace_period() {
    let p = Payable::create(0, 1, 2, 100, true, 3, 1000, 450, 7, 20).expect("create");
    assert_eq!(p.cancel_eligible, 470);
    assert_eq!(p.last_withdrawal, 20);
}

#[test]
fn creation_rejects_identity_conflict() {
    let r = Payable::create(0, 5, 5, 100, true, 3, 1000, 0, 7, 0);
    assert_eq!(r, Err(Error::IdentityConflict));
}

#[test]
fn creation_rejects_zero_interval_when_recurrent() {
    let r = Payable::create(0, 1, 2, 100, true, 3, 0, 0, 7, 0);
    assert_eq!(r, Err(Error::InvalidSchedule));
}

#[test]
fn creation_rejects_grace_overflow() {
    let r = Payable::create(0, 1, 2, 100, true, 3, 1000, 1, 7, i64::MAX);
    assert_eq!(r, Err(Error::ArithmeticOverflow));
}

#[test]
fn acceptance_funds_full_value() {
    let mut p = Payable::create(0, 1, 2, 100, true, 3, 1000, 0, 7, 0).expect("create");
    let total = p.accept(2, true).expect("accept");
    assert_eq!(total, 300);
    assert_eq!(p.status, Status::Accepted);
    assert_eq!(p.installments_remaining, 3);
}

#[test]
fn reacceptance_fails() {
    let mut p = accepted(100, true, 3, 1000, 0);
    assert!(p.accept(2, true).is_err());
    assert_eq!(p.status, Status::Accepted);
}

#[test]
fn acceptance_requires_the_payer() {
    let mut p = Payable::create(0, 1, 2, 100, true, 3, 1000, 0, 7, 0).expect("create");
    assert_eq!(p.accept(1, true), Err(Error::NotAuthorized));
    assert_eq!(p.status, Status::Created);
}

#[test]
fn acceptance_requires_recurrence_acknowledged() {
    let mut p = Payable::create(0, 1, 2, 100, true, 3, 1000, 0, 7, 0).expect("create");
    assert_eq!(p.accept(2, false), Err(Error::RecurrenceMismatch));
    assert_eq!(p.status, Status::Created);
}

#[test]
fn acceptance_overflow_leaves_record_unmodified() {
    let mut p = Payable::create(0, 1, 2, u64::MAX, true, 2, 1000, 0, 7, 0).expect("create");
    let before = p;
    assert_eq!(p.accept(2, true), Err(Error::ArithmeticOverflow));
    assert_eq!(p, before);
    assert_eq!(p.status, Status::Created);
}

#[test]
fn full_withdrawal_sequence_pays_everything_and_completes() {
    let mut p = accepted(100, true, 3, 1000, 0);
    let mut total: u64 = 0;
    total += p.withdraw(1, 1000).expect("first");
    assert_eq!(p.installments_remaining, 2);
    total += p.withdraw(1, 2000).expect("second");
    assert_eq!(p.installments_remaining, 1);
    total += p.withdraw(1, 3000).expect("third");
    assert_eq!(p.installments_remaining, 0);
    assert_eq!(p.status, Status::Completed);
    assert_eq!(total, 300);
    // a completed obligation is no longer Accepted, so the status check fires
    assert_eq!(p.withdraw(1, 4000), Err(Error::NotAccepted));
}

#[test]
fn uneven_withdrawal_chain_still_pays_exactly_the_escrow() {
    let mut p = accepted(100, true, 3, 1000, 0);
    let mut total: u64 = 0;
    total += p.withdraw(1, 1500).expect("one matured");
    total += p.withdraw(1, 1600).expect("none matured");
    total += p.withdraw(1, 3100).expect("one matured");
    total += p.withdraw(1, 4200).expect("the last");
    assert_eq!(total, 300);
    assert_eq!(p.installments_remaining, 0);
    assert_eq!(p.status, Status::Completed);
}

#[test]
fn withdrawal_pays_every_matured_installment() {
    let mut p = accepted(100, true, 3, 1000, 0);
    let payout = p.withdraw(1, 2500).expect("withdraw");
    assert_eq!(payout, 200);
    assert_eq!(p.installments_remaining, 1);
    assert_eq!(p.last_withdrawal, 2500);
    assert_eq!(p.status, Status::Accepted);
}

#[test]
fn withdrawal_never_pays_more_than_remains() {
    let mut p = accepted(100, true, 3, 1000, 0);
    let payout = p.withdraw(1, 999_000).expect("withdraw");
    assert_eq!(payout, 300);
    assert_eq!(p.installments_remaining, 0);
    assert_eq!(p.status, Status::Completed);
}

#[test]
fn withdrawal_before_eligibility_is_too_early() {
    let mut p = accepted(100, true, 3, 1000, 500);
    assert_eq!(p.withdraw(1, 400), Err(Error::TooEarly));
}

#[test]
fn withdrawal_requires_the_creator() {
    let mut p = accepted(100, true, 3, 1000, 0);
    assert_eq!(p.withdraw(2, 1000), Err(Error::NotAuthorized));
}

#[test]
fn withdrawal_requires_acceptance() {
    let mut p = Payable::create(0, 1, 2, 100, true, 3, 1000, 0, 7, 0).expect("create");
    assert_eq!(p.withdraw(1, 1000), Err(Error::NotAccepted));
}

#[test]
fn withdrawal_with_nothing_matured_pays_zero() {
    let mut p = accepted(100, true, 3, 1000, 0);
    let payout = p.withdraw(1, 500).expect("withdraw");
    assert_eq!(payout, 0);
    assert_eq!(p.installments_remaining, 3);
    assert_eq!(p.last_withdrawal, 500);
}

#[test]
fn withdrawal_with_no_installments_finds_nothing_due() {
    let mut p = accepted(100, true, 0, 1000, 0);
    assert_eq!(p.withdraw(1, 1000), Err(Error::NothingDue));
}

#[test]
fn single_shot_withdrawal_pays_in_full() {
    let mut p = accepted(250, false, 1, 0, 100);
    let payout = p.withdraw(1, 100).expect("withdraw");
    assert_eq!(payout, 250);
    assert_eq!(p.installments_remaining, 0);
    assert_eq!(p.status, Status::Completed);
}

#[test]
fn cancellation_after_completion_is_rejected() {
    let mut p = accepted(100, true, 2, 1000, 0);
    p.withdraw(1, 2000).expect("withdraw all");
    assert_eq!(p.status, Status::Completed);
    let before = p;
    assert_eq!(p.cancel(2, 2000), Err(Error::NotAccepted));
    assert_eq!(p, before);
}

#[test]
fn cancellation_right_after_withdrawal_owes_no_catch_up() {
    let mut p = accepted(100, true, 3, 1000, 0);
    p.withdraw(1, 1000).expect("withdraw");
    let s = p.cancel(2, 1000).expect("cancel");
    assert_eq!(s.catch_up, 0);
}

#[test]
fn mature_cancellation_splits_remainder() {
    // amount=100, installments=3, interval=1000 s, grace=0 s: immediately
    // mature. Acceptance locks 300. Withdrawing after 2500 s matures 2
    // installments for 200, leaving 1. Cancelling at 2600 s matures nothing
    // more, so the remaining 100 splits 50/50 between payee and payer.
    let mut p = accepted(100, true, 3, 1000, 0);
    let payout = p.withdraw(1, 2500).expect("withdraw");
    assert_eq!(payout, 200);
    assert_eq!(p.installments_remaining, 1);
    let s = p.cancel(2, 2600).expect("cancel");
    assert_eq!(s.catch_up, 0);
    assert_eq!(s.payee_share, 50);
    assert_eq!(s.payer_refund, 50);
    assert_eq!(p.status, Status::Completed);
    assert_eq!(p.installments_remaining, 0);
}

#[test]
fn mature_cancellation_with_nothing_left_splits_one_installment() {
    // The catch-up consumes the single outstanding installment, so one
    // original installment amount is split: half down to the payee, the rest
    // — including the odd unit — to the payer.
    let mut p = accepted(101, false, 1, 0, 0);
    let s = p.cancel(2, 10).expect("cancel");
    assert_eq!(s.catch_up, 101);
    assert_eq!(s.payee_share, 50);
    assert_eq!(s.payer_refund, 51);
    assert_eq!(p.status, Status::Completed);
    assert_eq!(p.installments_remaining, 0);
}

#[test]
fn mature_cancellation_of_emptied_recurrent_splits_one_installment() {
    // A recurrent obligation accepted with zero installments has nothing for
    // the catch-up to consume; the split of one original installment remains.
    let mut p = accepted(101, true, 0, 1000, 0);
    let s = p.cancel(2, 500).expect("cancel");
    assert_eq!(s.catch_up, 0);
    assert_eq!(s.payee_share, 50);
    assert_eq!(s.payer_refund, 51);
}

#[test]
fn early_cancellation_refunds_everything_left() {
    let mut p = accepted(100, true, 3, 1000, 10_000);
    let s = p.cancel(2, 500).expect("cancel");
    assert_eq!(s.catch_up, 0);
    assert_eq!(s.payee_share, 0);
    assert_eq!(s.payer_refund, 300);
    assert_eq!(p.status, Status::Created);
    assert_eq!(p.installments_remaining, 3);
    // the obligation is re-acceptable, and re-acceptance escrows what is left
    let total = p.accept(2, true).expect("re-accept");
    assert_eq!(total, 300);
}

#[test]
fn early_cancellation_still_pays_matured_time() {
    // 2500 s elapsed at a 1000 s interval: two installments are already the
    // payee's even though the grace period has not run out.
    let mut p = accepted(100, true, 3, 1000, 10_000);
    let s = p.cancel(2, 2500).expect("cancel");
    assert_eq!(s.catch_up, 200);
    assert_eq!(s.payee_share, 0);
    assert_eq!(s.payer_refund, 100);
    assert_eq!(p.status, Status::Created);
    assert_eq!(p.installments_remaining, 1);
}

#[test]
fn withdrawal_with_unrepresentable_elapsed_time_overflows() {
    let mut p = Payable::create(0, 1, 2, 100, true, 3, 1000, 0, 7, i64::MIN).expect("create");
    p.accept(2, true).expect("accept");
    let before = p;
    assert_eq!(p.withdraw(1, 0), Err(Error::ArithmeticOverflow));
    assert_eq!(p, before);
}

#[test]
fn cancellation_with_unrepresentable_elapsed_time_overflows() {
    let mut p = Payable::create(0, 1, 2, 100, true, 3, 1000, 0, 7, i64::MIN).expect("create");
    p.accept(2, true).expect("accept");
    let before = p;
    assert_eq!(p.cancel(2, 0), Err(Error::ArithmeticOverflow));
    assert_eq!(p, before);
}

#[test]
fn cancellation_requires_the_payer() {
    let mut p = accepted(100, true, 3, 1000, 0);
    assert_eq!(p.cancel(1, 1000), Err(Error::NotAuthorized));
}

#[test]
fn cancellation_advances_the_anchor() {
    let mut p = accepted(100, true, 3, 1000, 10_000);
    p.cancel(2, 600).expect("cancel");
    assert_eq!(p.last_withdrawal, 600);
}
