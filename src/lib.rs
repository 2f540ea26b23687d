//! A poll-and-vote state machine: entities stored as fixed-format binary
//! records at deterministically derived addresses, changed only through a
//! small set of validated instructions.
//!
//! `poll`, `candidate`, `voter` and `processor` hold the named-candidate
//! polls; `tally`, `ballot` and `referendum` hold the simpler two-counter,
//! titled and yes/no polls; `codec`, `address` and `accounts` are shared.

pub mod accounts;
pub mod address;
pub mod ballot;
pub mod candidate;
pub mod codec;
pub mod error;
pub mod instruction;
pub mod poll;
pub mod processor;
pub mod referendum;
pub mod tally;
pub mod voter;
