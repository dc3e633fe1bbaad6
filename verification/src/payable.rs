use vstd::prelude::*;

use crate::error::Error;

verus! {

/// Lifecycle states of an obligation. Transitions only move forward —
/// Created, then Accepted, then Completed — with one exception: an early
/// cancellation unwinds an Accepted obligation's escrow and rewinds it to
/// Created, where a later acceptance can fund it again.
#[derive(Clone, Copy, Debug, PartialEq, Eq, Structural)]
pub enum Status {
    Created,
    Accepted,
    Completed,
}

/// What a successful cancellation instructs the escrow gateway to move.
/// `catch_up` and `payee_share` flow from escrow to the payee's wallet,
/// `payer_refund` from escrow back to the payer's wallet.
#[derive(Clone, Copy, Debug, PartialEq, Eq, Structural)]
pub struct Settlement {
    /// Step one: the value of installments already matured since the last
    /// payout, owed unconditionally to the payee.
    pub catch_up: u64,
    /// Step two, mature cancellation only: half of one installment, the
    /// payee's compensation for being cancelled on.
    pub payee_share: u64,
    /// Step two: what flows back to the payer — everything left after the
    /// catch-up on an early cancellation, the rest of the split on a mature
    /// one.
    pub payer_refund: u64,
}

/// One recurring payment obligation between a creator (the payee) and a
/// payer. Identities and the settlement token are opaque principal and asset
/// identifiers; amounts are token base units; timestamps are epoch seconds.
#[derive(Clone, Copy, Debug, PartialEq, Eq, Structural)]
pub struct Payable {
    /// Stable identifier, assigned once at creation, never changed.
    pub id: u64,
    /// Fixed amount owed per installment.
    pub amount: u64,
    /// Creation time plus the caller's grace period. Before this instant a
    /// cancellation is early; at or after it, mature. Withdrawal opens here.
    pub cancel_eligible: i64,
    /// The payee: receives withdrawn funds; must differ from the payer.
    pub creator: u64,
    /// The funder: the only principal that may accept or cancel.
    pub payer: u64,
    /// Whether more than one installment is expected.
    pub recurrent: bool,
    /// Installments not yet paid out; 0 means fully settled.
    pub installments_remaining: u64,
    /// Minimum spacing, in seconds, between matured installments.
    pub installment_interval: u64,
    /// The only asset this obligation settles in.
    pub token: u64,
    /// Time of the last payout; the anchor all proration measures from.
    pub last_withdrawal: i64,
    pub status: Status,
}

impl Payable {
    /// A structurally sound record: the two identities differ, a recurrent
    /// schedule has a positive interval, an accepted obligation's outstanding
    /// value fits the numeric range (acceptance funded exactly that much into
    /// escrow), and a completed obligation has nothing left to pay.
    pub open spec fn wf(self) -> bool {
        &&& self.creator != self.payer
        &&& self.recurrent ==> self.installment_interval > 0
        &&& self.status is Accepted ==> self.amount * self.installments_remaining <= u64::MAX
        &&& self.status is Completed ==> self.installments_remaining == 0
    }

    /// Why a creation request with these parameters is rejected, if it is.
    pub open spec fn create_rejection(
        creator: u64,
        payer: u64,
        recurrent: bool,
        installment_interval: u64,
        grace_period: i64,
        now: int,
    ) -> Option<Error> {
        if creator == payer {
            Some(Error::IdentityConflict)
        } else if recurrent && installment_interval == 0 {
            Some(Error::InvalidSchedule)
        } else if now + grace_period > i64::MAX || now + grace_period < i64::MIN {
            Some(Error::ArithmeticOverflow)
        } else {
            None
        }
    }

    /// The record a successful creation writes: unfunded, eligible for mature
    /// cancellation from `now + grace_period`, its proration anchor at `now`,
    /// and exactly one installment expected when not recurrent.
    pub open spec fn created(
        id: u64,
        creator: u64,
        payer: u64,
        amount: u64,
        recurrent: bool,
        installment_count: u64,
        installment_interval: u64,
        grace_period: i64,
        token: u64,
        now: i64,
    ) -> Payable {
        Payable {
            id,
            amount,
            cancel_eligible: (now + grace_period) as i64,
            creator,
            payer,
            recurrent,
            installments_remaining: if recurrent {
                installment_count
            } else {
                1
            },
            installment_interval,
            token,
            last_withdrawal: now,
            status: Status::Created,
        }
    }

    /// Build a fresh obligation in the Created state. The creator may not be
    /// the payer, a recurrent schedule needs a positive interval, and the
    /// cancellation-eligibility instant `now + grace_period` must fit the
    /// timestamp range; nothing is escrowed yet.
    pub fn create(
        id: u64,
        creator: u64,
        payer: u64,
        amount: u64,
        recurrent: bool,
        installment_count: u64,
        installment_interval: u64,
        grace_period: i64,
        token: u64,
        now: i64,
    ) -> (r: Result<Payable, Error>)
        ensures
            match r {
                Ok(p) => {
                    &&& Self::create_rejection(
                        creator,
                        payer,
                        recurrent,
                        installment_interval,
                        grace_period,
                        now as int,
                    ) is None
                    &&& p == Self::created(
                        id,
                        creator,
                        payer,
                        amount,
                        recurrent,
                        installment_count,
                        installment_interval,
                        grace_period,
                        token,
                        now,
                    )
                    &&& p.creator != p.payer
                    &&& p.installments_remaining == if recurrent {
                        installment_count as int
                    } else {
                        1int
                    }
                    &&& p.wf()
                },
                Err(e) => Self::create_rejection(
                    creator,
                    payer,
                    recurrent,
                    installment_interval,
                    grace_period,
                    now as int,
                ) == Some(e),
            },
    {
        if creator == payer {
            return Err(Error::IdentityConflict);
        }
        if recurrent && installment_interval == 0 {
            return Err(Error::InvalidSchedule);
        }
        let cancel_eligible: i64 = match now.checked_add(grace_period) {
            Some(t) => t,
            None => {
                return Err(Error::ArithmeticOverflow);
            },
        };
        Ok(
            Payable {
                id,
                amount,
                cancel_eligible,
                creator,
                payer,
                recurrent,
                installments_remaining: if recurrent {
                    installment_count
                } else {
                    1
                },
                installment_interval,
                token,
                last_withdrawal: now,
                status: Status::Created,
            },
        )
    }
    /// Why an acceptance by `acceptor`, acknowledging `recurrent_ack`, is
    /// rejected, if it is. Only the payer may accept, only while the
    /// obligation is still Created, and only acknowledging the recurrence
    /// flag actually recorded; the full future value must fit the numeric
    /// range, since acceptance escrows all of it at once.
    pub open spec fn accept_rejection(self, acceptor: u64, recurrent_ack: bool) -> Option<
        Error,
    > {
        if recurrent_ack != self.recurrent {
            Some(Error::RecurrenceMismatch)
        } else if acceptor != self.payer {
            Some(Error::NotAuthorized)
        } else if !(self.status is Created) {
            Some(Error::NotAuthorized)
        } else if self.amount * self.installments_remaining > u64::MAX {
            Some(Error::ArithmeticOverflow)
        } else {
            None
        }
    }

    /// Accept locks the obligation's full future value into escrow: the
    /// returned total, amount × installments remaining, is what the escrow
    /// gateway must move from the payer's wallet into the obligation's escrow
    /// account, and the record moves to Accepted. On any rejection — a
    /// recurrence-flag mismatch, a caller other than the payer, a record no
    /// longer in the Created state, or a total that overflows — the record is
    /// left untouched.
    pub fn accept(&mut self, acceptor: u64, recurrent_ack: bool) -> (r: Result<u64, Error>)
        requires
            old(self).wf(),
        ensures
            final(self).wf(),
            match r {
                Ok(total) => {
                    &&& old(self).accept_rejection(acceptor, recurrent_ack) is None
                    &&& total == old(self).amount * old(self).installments_remaining
                    &&& *final(self) == (Payable { status: Status::Accepted, ..*old(self) })
                },
                Err(e) => {
                    &&& old(self).accept_rejection(acceptor, recurrent_ack) == Some(e)
                    &&& *final(self) == *old(self)
                },
            },
    {
        if recurrent_ack != self.recurrent {
            return Err(Error::RecurrenceMismatch);
        }
        if acceptor != self.payer {
            return Err(Error::NotAuthorized);
        }
        if self.status != Status::Created {
            return Err(Error::NotAuthorized);
        }
        let total: u64 = match self.amount.checked_mul(self.installments_remaining) {
            Some(t) => t,
            None => {
                return Err(Error::ArithmeticOverflow);
            },
        };
        self.status = Status::Accepted;
        Ok(total)
    }

    /// Installments matured at `now`, before clamping: a recurrent obligation
    /// with more than one installment left matures one installment per full
    /// interval elapsed since the last payout; otherwise the single
    /// outstanding installment is due in full.
    pub open spec fn withdraw_matured_raw(self, now: int) -> int {
        if self.recurrent && self.installments_remaining > 1 {
            (now - self.last_withdrawal) / (self.installment_interval as int)
        } else {
            1
        }
    }

    /// Installments a withdrawal at `now` actually pays: never more than
    /// remain.
    pub open spec fn withdraw_matured(self, now: int) -> int {
        if self.withdraw_matured_raw(now) > self.installments_remaining {
            self.installments_remaining as int
        } else {
            self.withdraw_matured_raw(now)
        }
    }

    /// Why a withdrawal by `requester` at `now` is rejected, if it is. Only
    /// the creator may withdraw, only from `cancel_eligible` on, only from an
    /// Accepted obligation with installments left, and only while the elapsed
    /// time since the last payout still fits the timestamp range.
    pub open spec fn withdraw_rejection(self, requester: u64, now: int) -> Option<Error> {
        if requester != self.creator {
            Some(Error::NotAuthorized)
        } else if now < self.cancel_eligible {
            Some(Error::TooEarly)
        } else if !(self.status is Accepted) {
            Some(Error::NotAccepted)
        } else if self.installments_remaining == 0 {
            Some(Error::NothingDue)
        } else if self.recurrent && self.installments_remaining > 1 && now - self.last_withdrawal
            > i64::MAX {
            Some(Error::ArithmeticOverflow)
        } else {
            None
        }
    }

    /// The record a successful withdrawal at `now` leaves behind: the matured
    /// installments are consumed, the proration anchor advances to `now`, and
    /// the obligation completes exactly when the last installment leaves.
    pub open spec fn after_withdraw(self, now: int) -> Payable {
        Payable {
            installments_remaining: (self.installments_remaining - self.withdraw_matured(now)) as u64,
            last_withdrawal: now as i64,
            status: if self.withdraw_matured(now) == self.installments_remaining {
                Status::Completed
            } else {
                Status::Accepted
            },
            ..self
        }
    }

    /// Withdraw: the payee pulls every installment matured since the last
    /// payout, clamped to what remains. The returned payout — matured × amount
    /// — is what the escrow gateway must move from the escrow account to the
    /// creator's wallet. The proration anchor advances to `now`, and the
    /// obligation becomes Completed exactly when the last installment leaves.
    /// On any rejection the record is left untouched.
    pub fn withdraw(&mut self, requester: u64, now: i64) -> (r: Result<u64, Error>)
        requires
            old(self).wf(),
            // the clock never runs backwards past the anchor of the last payout
            now >= old(self).last_withdrawal,
        ensures
            final(self).wf(),
            match r {
                Ok(payout) => {
                    &&& old(self).withdraw_rejection(requester, now as int) is None
                    &&& *final(self) == old(self).after_withdraw(now as int)
                    &&& payout == old(self).withdraw_matured(now as int) * old(self).amount
                },
                Err(e) => {
                    &&& old(self).withdraw_rejection(requester, now as int) == Some(e)
                    &&& *final(self) == *old(self)
                },
            },
    {
        if requester != self.creator {
            return Err(Error::NotAuthorized);
        }
        if now < self.cancel_eligible {
            return Err(Error::TooEarly);
        }
        if self.status != Status::Accepted {
            return Err(Error::NotAccepted);
        }
        if self.installments_remaining == 0 {
            return Err(Error::NothingDue);
        }
        let matured: u64 = if self.recurrent && self.installments_remaining > 1 {
            let elapsed: i64 = match now.checked_sub(self.last_withdrawal) {
                Some(e) => e,
                None => {
                    return Err(Error::ArithmeticOverflow);
                },
            };
            let q: u64 = elapsed as u64 / self.installment_interval;
            if q > self.installments_remaining {
                self.installments_remaining
            } else {
                q
            }
        } else {
            1
        };
        proof {
            assert(matured * self.amount <= self.installments_remaining * self.amount)
                by (nonlinear_arith)
                requires
                    matured <= self.installments_remaining,
            ;
            assert(self.installments_remaining * self.amount == self.amount
                * self.installments_remaining) by (nonlinear_arith);
        }
        let payout: u64 = matured * self.amount;
        self.installments_remaining = self.installments_remaining - matured;
        self.last_withdrawal = now;
        if self.installments_remaining == 0 {
            self.status = Status::Completed;
        }
        proof {
            let ghost rem_before = old(self).installments_remaining;
            assert(self.amount * self.installments_remaining <= self.amount * rem_before)
                by (nonlinear_arith)
                requires
                    self.installments_remaining <= rem_before,
                    self.amount >= 0,
            ;
        }
        Ok(payout)
    }

    /// Whether a cancellation at `now` is mature: the grace period has
    /// elapsed, so the payee shares in the exit instead of the payer being
    /// refunded in full.
    pub open spec fn is_mature(self, now: int) -> bool {
        now >= self.cancel_eligible
    }

    /// Installments the cancellation catch-up matures at `now`, before
    /// clamping: one per full interval elapsed since the last payout for a
    /// recurrent obligation, the single outstanding installment otherwise.
    /// Unlike withdrawal, a recurrent obligation prorates by elapsed time
    /// down to its very last installment.
    pub open spec fn cancel_matured_raw(self, now: int) -> int {
        if self.recurrent {
            (now - self.last_withdrawal) / (self.installment_interval as int)
        } else {
            1
        }
    }

    /// Installments the catch-up actually pays: never more than remain.
    pub open spec fn cancel_matured(self, now: int) -> int {
        if self.cancel_matured_raw(now) > self.installments_remaining {
            self.installments_remaining as int
        } else {
            self.cancel_matured_raw(now)
        }
    }

    /// Why a cancellation by `requester` at `now` is rejected, if it is. Only
    /// the payer may cancel, only an Accepted obligation holds escrow to
    /// settle, and the elapsed time since the last payout must fit the
    /// timestamp range.
    pub open spec fn cancel_rejection(self, requester: u64, now: int) -> Option<Error> {
        if requester != self.payer {
            Some(Error::NotAuthorized)
        } else if !(self.status is Accepted) {
            Some(Error::NotAccepted)
        } else if self.recurrent && now - self.last_withdrawal > i64::MAX {
            Some(Error::ArithmeticOverflow)
        } else {
            None
        }
    }

    /// The three transfers a successful cancellation at `now` instructs.
    /// Step one, the catch-up, pays the payee the matured installments.
    /// Step two settles what is left, `left × amount`: mature, with
    /// installments left, the payee gets half of one installment and the
    /// payer the rest; mature, with nothing left after the catch-up, one
    /// original installment amount is split instead, its odd unit going to
    /// the payer; early, the payer is refunded everything left.
    pub open spec fn cancel_settlement(self, now: int) -> Settlement {
        let m = self.cancel_matured(now);
        let left = self.installments_remaining - m;
        Settlement {
            catch_up: (m * self.amount) as u64,
            payee_share: if self.is_mature(now) {
                (self.amount / 2) as u64
            } else {
                0
            },
            payer_refund: if self.is_mature(now) {
                if left > 0 {
                    (left * self.amount - self.amount / 2) as u64
                } else {
                    (self.amount - self.amount / 2) as u64
                }
            } else {
                (left * self.amount) as u64
            },
        }
    }

    /// The record a successful cancellation at `now` leaves behind: a mature
    /// cancellation settles everything and completes the obligation; an early
    /// one rewinds it to Created, holding whatever installments the catch-up
    /// did not consume, ready to be accepted and escrowed again.
    pub open spec fn after_cancel(self, now: int) -> Payable {
        let left = self.installments_remaining - self.cancel_matured(now);
        Payable {
            installments_remaining: if self.is_mature(now) {
                0
            } else {
                left as u64
            },
            last_withdrawal: now as i64,
            status: if self.is_mature(now) {
                Status::Completed
            } else {
                Status::Created
            },
            ..self
        }
    }

    /// Cancel: the payer exits the obligation. Step one pays the payee every
    /// installment already matured since the last payout — unconditionally,
    /// even inside the grace period, because elapsed time is the payee's.
    /// Step two settles the remainder: at or past `cancel_eligible` the payee
    /// is compensated with half of one installment, the payer receives the
    /// rest, and the obligation completes; before `cancel_eligible` the payer
    /// is refunded everything left and the obligation rewinds to Created. On
    /// any rejection the record is left untouched and nothing is transferred.
    pub fn cancel(&mut self, requester: u64, now: i64) -> (r: Result<Settlement, Error>)
        requires
            old(self).wf(),
            // the clock never runs backwards past the anchor of the last payout
            now >= old(self).last_withdrawal,
        ensures
            final(self).wf(),
            match r {
                Ok(s) => {
                    &&& old(self).cancel_rejection(requester, now as int) is None
                    &&& s == old(self).cancel_settlement(now as int)
                    &&& *final(self) == old(self).after_cancel(now as int)
                },
                Err(e) => {
                    &&& old(self).cancel_rejection(requester, now as int) == Some(e)
                    &&& *final(self) == *old(self)
                },
            },
    {
        if requester != self.payer {
            return Err(Error::NotAuthorized);
        }
        if self.status != Status::Accepted {
            return Err(Error::NotAccepted);
        }
        let matured: u64 = if self.recurrent {
            let elapsed: i64 = match now.checked_sub(self.last_withdrawal) {
                Some(e) => e,
                None => {
                    return Err(Error::ArithmeticOverflow);
                },
            };
            let q: u64 = elapsed as u64 / self.installment_interval;
            if q > self.installments_remaining {
                self.installments_remaining
            } else {
                q
            }
        } else {
            if 1 > self.installments_remaining {
                self.installments_remaining
            } else {
                1
            }
        };
        let left: u64 = self.installments_remaining - matured;
        proof {
            assert(matured * self.amount + left * self.amount == self.installments_remaining
                * self.amount) by (nonlinear_arith)
                requires
                    matured + left == self.installments_remaining,
            ;
            assert(self.installments_remaining * self.amount == self.amount
                * self.installments_remaining) by (nonlinear_arith);
            if left > 0 {
                assert(self.amount <= left * self.amount) by (nonlinear_arith)
                    requires
                        left >= 1,
                        self.amount >= 0,
                ;
            }
        }
        let catch_up: u64 = matured * self.amount;
        let remainder: u64 = left * self.amount;
        let settlement: Settlement = if now >= self.cancel_eligible {
            let half: u64 = self.amount / 2;
            let payer_refund: u64 = if left > 0 {
                remainder - half
            } else {
                self.amount - half
            };
            self.installments_remaining = 0;
            self.status = Status::Completed;
            Settlement { catch_up, payee_share: half, payer_refund }
        } else {
            self.installments_remaining = left;
            self.status = Status::Created;
            Settlement { catch_up, payee_share: 0, payer_refund: remainder }
        };
        self.last_withdrawal = now;
        Ok(settlement)
    }
}

/// Law: withdrawal conserves the escrow and makes progress. A successful
/// withdrawal never consumes more installments than remain, its payout is
/// exactly (remaining before − remaining after) × amount — so the payouts of
/// any chain of successful withdrawals telescope, and a chain that drives the
/// count to 0 has paid out exactly the original count × amount in total — it
/// consumes at least one installment whenever at least one full interval has
/// elapsed since the last payout, and it completes the obligation exactly
/// when the last installment leaves.
pub proof fn lemma_withdraw_step(o: Payable, requester: u64, now: int)
    requires
        o.wf(),
        now >= o.last_withdrawal,
        o.withdraw_rejection(requester, now) is None,
    ensures
        0 <= o.withdraw_matured(now) <= o.installments_remaining,
        o.after_withdraw(now).installments_remaining == o.installments_remaining
            - o.withdraw_matured(now),
        o.withdraw_matured(now) * o.amount == (o.installments_remaining - o.after_withdraw(
            now,
        ).installments_remaining) * o.amount,
        o.after_withdraw(now).installments_remaining * o.amount == o.installments_remaining
            * o.amount - o.withdraw_matured(now) * o.amount,
        now - o.last_withdrawal >= o.installment_interval ==> o.withdraw_matured(now) >= 1,
        o.after_withdraw(now).status is Completed <==> o.after_withdraw(
            now,
        ).installments_remaining == 0,
        o.after_withdraw(now).wf(),
{
    let elapsed = now - o.last_withdrawal;
    let interval = o.installment_interval as int;
    if o.recurrent && o.installments_remaining > 1 {
        vstd::arithmetic::div_mod::lemma_div_pos_is_pos(elapsed, interval);
        if elapsed >= interval {
            vstd::arithmetic::div_mod::lemma_div_non_zero(elapsed, interval);
        }
    }
    let m = o.withdraw_matured(now);
    let rem = o.installments_remaining as int;
    assert(m * o.amount + (rem - m) * o.amount == rem * o.amount) by (nonlinear_arith);
    assert(o.amount * ((rem - m) as u64) <= o.amount * rem <= u64::MAX ==> o.after_withdraw(
        now,
    ).wf()) by {
        assert(o.amount * rem == rem * o.amount) by (nonlinear_arith);
    }
    assert(o.amount * (rem - m) <= o.amount * rem) by (nonlinear_arith)
        requires
            0 <= m && o.amount >= 0,
    ;
}

/// The record a chain of withdrawals, one at each time in turn, leaves
/// behind.
pub open spec fn after_withdrawals(o: Payable, times: Seq<int>) -> Payable
    decreases times.len(),
{
    if times.len() == 0 {
        o
    } else {
        after_withdrawals(o.after_withdraw(times[0]), times.skip(1))
    }
}

/// Every withdrawal in the chain is accepted: the clock never runs backwards
/// and no rejection fires at any step.
pub open spec fn withdrawals_succeed(o: Payable, requester: u64, times: Seq<int>) -> bool
    decreases times.len(),
{
    times.len() == 0 || {
        &&& times[0] >= o.last_withdrawal
        &&& o.withdraw_rejection(requester, times[0]) is None
        &&& withdrawals_succeed(o.after_withdraw(times[0]), requester, times.skip(1))
    }
}

/// Every withdrawal in the chain comes at least one full interval after the
/// payout before it.
pub open spec fn withdrawals_spaced(o: Payable, times: Seq<int>) -> bool
    decreases times.len(),
{
    times.len() == 0 || {
        &&& times[0] - o.last_withdrawal >= o.installment_interval
        &&& withdrawals_spaced(o.after_withdraw(times[0]), times.skip(1))
    }
}

/// The sum a chain of withdrawals pays out.
pub open spec fn total_withdrawn(o: Payable, times: Seq<int>) -> int
    decreases times.len(),
{
    if times.len() == 0 {
        0
    } else {
        o.withdraw_matured(times[0]) * o.amount + total_withdrawn(
            o.after_withdraw(times[0]),
            times.skip(1),
        )
    }
}

/// Law: withdrawal chains conserve the escrow and make progress. A chain of
/// successful withdrawals only ever lowers the installment count, pays out in
/// total exactly the installments it consumed times the amount, and — when
/// its calls are spaced at least one interval apart — consumes at least one
/// installment per call; the obligation is Completed exactly when the chain
/// ends with nothing remaining.
pub proof fn lemma_withdrawal_sequence(o: Payable, requester: u64, times: Seq<int>)
    requires
        o.wf(),
        withdrawals_succeed(o, requester, times),
    ensures
        after_withdrawals(o, times).wf(),
        after_withdrawals(o, times).amount == o.amount,
        after_withdrawals(o, times).installments_remaining <= o.installments_remaining,
        total_withdrawn(o, times) == (o.installments_remaining - after_withdrawals(
            o,
            times,
        ).installments_remaining) * o.amount,
        withdrawals_spaced(o, times) ==> times.len() <= o.installments_remaining
            && after_withdrawals(o, times).installments_remaining <= o.installments_remaining
            - times.len(),
        times.len() > 0 ==> (after_withdrawals(o, times).installments_remaining == 0
            <==> after_withdrawals(o, times).status is Completed),
    decreases times.len(),
{
    if times.len() == 0 {
        let a = o.amount as int;
        assert((o.installments_remaining - o.installments_remaining) * a == 0);
    } else {
        let t0 = times[0];
        lemma_withdraw_step(o, requester, t0);
        let o1 = o.after_withdraw(t0);
        lemma_withdrawal_sequence(o1, requester, times.skip(1));
        let m0 = o.withdraw_matured(t0);
        let a = o.amount as int;
        let rem0 = o.installments_remaining as int;
        let rem1 = o1.installments_remaining as int;
        let fin = after_withdrawals(o, times);
        assert(fin == after_withdrawals(o1, times.skip(1)));
        let rem_end = fin.installments_remaining as int;
        assert(total_withdrawn(o1, times.skip(1)) == (rem1 - rem_end) * a);
        assert(m0 * a + (rem1 - rem_end) * a == (m0 + rem1 - rem_end) * a) by (nonlinear_arith);
        assert(m0 + rem1 == rem0);
        if times.len() == 1 {
            assert(fin == o1);
        }
    }
}

/// Law: a full withdrawal chain settles the obligation exactly. Successful
/// withdrawals spaced at least one interval apart, one per outstanding
/// installment, drive the installment count to 0, leave the obligation
/// Completed, and pay out in total exactly the outstanding count × amount.
pub proof fn lemma_full_withdrawal_completes(o: Payable, requester: u64, times: Seq<int>)
    requires
        o.wf(),
        o.installments_remaining > 0,
        times.len() == o.installments_remaining,
        withdrawals_succeed(o, requester, times),
        withdrawals_spaced(o, times),
    ensures
        after_withdrawals(o, times).installments_remaining == 0,
        after_withdrawals(o, times).status is Completed,
        total_withdrawn(o, times) == o.installments_remaining * o.amount,
{
    lemma_withdrawal_sequence(o, requester, times);
    let a = o.amount as int;
    let rem0 = o.installments_remaining as int;
    assert((rem0 - 0) * a == rem0 * a);
}

/// Law: the cancellation catch-up is idempotent with withdrawal. It never
/// pays anything when no installments remain, and a recurrent obligation
/// cancelled before a full interval has elapsed since the last payout — in
/// particular, cancelled immediately after a withdrawal — owes no catch-up.
pub proof fn lemma_cancel_catch_up_idempotent(o: Payable, now: int)
    requires
        o.wf(),
        now >= o.last_withdrawal,
    ensures
        o.installments_remaining == 0 ==> o.cancel_settlement(now).catch_up == 0,
        o.recurrent && now - o.last_withdrawal < o.installment_interval
            ==> o.cancel_settlement(now).catch_up == 0,
{
    let elapsed = now - o.last_withdrawal;
    let interval = o.installment_interval as int;
    if o.recurrent {
        vstd::arithmetic::div_mod::lemma_div_pos_is_pos(elapsed, interval);
        if elapsed < interval {
            vstd::arithmetic::div_mod::lemma_basic_div(elapsed, interval);
            assert(o.cancel_matured_raw(now) == 0);
        }
        assert(o.cancel_matured_raw(now) >= 0);
    }
    assert(o.installments_remaining == 0 ==> o.cancel_matured(now) == 0);
    assert(o.recurrent && elapsed < interval ==> o.cancel_matured(now) == 0);
    assert(o.cancel_matured(now) == 0 ==> o.cancel_settlement(now).catch_up == 0);
}

/// Law: installments never come back. Whatever a withdrawal or a
/// cancellation leaves behind holds no more installments than the record it
/// started from, so after acceptance the count only falls until it reaches 0.
pub proof fn lemma_installments_non_increasing(o: Payable, now: int)
    requires
        o.wf(),
        now >= o.last_withdrawal,
    ensures
        o.after_withdraw(now).installments_remaining <= o.installments_remaining,
        o.after_cancel(now).installments_remaining <= o.installments_remaining,
{
    let elapsed = now - o.last_withdrawal;
    let interval = o.installment_interval as int;
    if o.recurrent {
        vstd::arithmetic::div_mod::lemma_div_pos_is_pos(elapsed, interval);
    }
}

/// Law: cancellation disburses exactly the escrowed value. The three
/// transfers of a successful cancellation add up to installments_remaining ×
/// amount — the whole escrow — except in the mature case whose catch-up
/// consumed the last installment, where one extra original installment amount
/// is split between the parties on top of it.
pub proof fn lemma_cancel_conservation(o: Payable, requester: u64, now: int)
    requires
        o.wf(),
        now >= o.last_withdrawal,
        o.cancel_rejection(requester, now) is None,
    ensures
        ({
            let s = o.cancel_settlement(now);
            let left = o.installments_remaining - o.cancel_matured(now);
            s.catch_up + s.payee_share + s.payer_refund == o.installments_remaining * o.amount + (
            if o.is_mature(now) && left == 0 {
                o.amount as int
            } else {
                0
            })
        }),
{
    let elapsed = now - o.last_withdrawal;
    let interval = o.installment_interval as int;
    if o.recurrent {
        vstd::arithmetic::div_mod::lemma_div_pos_is_pos(elapsed, interval);
    }
    let m = o.cancel_matured(now);
    let rem = o.installments_remaining as int;
    let left = rem - m;
    assert(0 <= m <= rem);
    let a = o.amount as int;
    assert(m * a + left * a == rem * a && 0 <= m * a && 0 <= left * a && rem * a == a * rem)
        by (nonlinear_arith)
        requires
            m + left == rem && 0 <= m && 0 <= left && 0 <= a,
    ;
    assert(a * rem <= u64::MAX);
    if left > 0 {
        assert(a <= left * a) by (nonlinear_arith)
            requires
                left >= 1 && a >= 0,
        ;
    }
}

} // verus!
