//! A verified engine for recurring payment obligations between a creator (the
//! payee) and a payer: creation, acceptance that locks the obligation's full
//! future value into escrow, payee-initiated withdrawal of matured
//! installments, and payer-initiated cancellation that settles matured time
//! first and then splits or refunds the remainder depending on whether the
//! grace period has elapsed.
//!
//! The engine computes every transfer amount and state change; actually moving
//! value between wallets and the escrow account, reading the clock, and
//! emitting notifications are the host's business.

pub mod counter;
pub mod error;
pub mod ops;
pub mod payable;
pub mod store;
