//! Verification core of a self-certifying identifier protocol: a hash-chained,
//! signed key event log is folded into the identifier's current key state, and
//! receipts from other identifiers are bound to the events they attest to.
pub mod bytes;
pub mod crypto;
pub mod prefix;
pub mod event;
pub mod state;
pub mod log;
pub mod parse;
