//! Turns a list of bank transactions into an OFX statement document.
//!
//! The emitter produces the document as an ordered list of XML events:
//! a fixed sign-on header, DTSTART/DTEND bounds chosen by a linear scan
//! with a deterministic id tie-break, one STMTTRN block per transaction in
//! input order, and a ledger balance holding the exact decimal sum of all
//! amounts. Amounts are coefficient/exponent pairs, never binary floats,
//! so totals carry no rounding whatever the summation order.

pub mod amount;
pub mod currency;
pub mod date;
pub mod event;
pub mod strings;
pub mod transaction;
