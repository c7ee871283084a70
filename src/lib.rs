//! A registry of staked non-fungible tokens kept in one fixed-size byte
//! buffer.
//!
//! The buffer holds a fixed-width header followed by fixed-width record
//! slots. Records are appended, searched by their owner and token
//! identities without decoding the rest, and removed by a compacting pass.
//! The staking lifecycle decides each step of Initialize, Deposit and
//! Withdraw; the token movements themselves are left to a custody service
//! that the host runs between the steps.
pub mod error;
pub mod instruction;
pub mod layout;
pub mod runtime;
pub mod state;
pub mod utils;
pub mod record_store;
pub mod processor;
pub mod laws;
