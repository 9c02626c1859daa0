//! A local, append-only, tamper-evident log of state-transition records.
//!
//! Each record ("message") is admitted to the log only after a proof-of-work
//! search links it to the previous record. The log can be replayed
//! deterministically into a current application state, and independently
//! re-validated to detect corruption or tampering.

pub mod action_interface;
pub mod book;
pub mod error;
pub mod hex_string;
pub mod json;
pub mod ledger;
pub mod message;
pub mod mode_a;
pub mod ops;
pub mod text;
pub mod traits;
pub mod update;
pub mod work;
