//! The decisions of a program that schedules commits of delegated accounts,
//! of the client that asks for account snapshots, and of the diagnostics that
//! its tests print.
pub mod account;
pub mod counter;
pub mod diagnostics;
pub mod error;
pub mod fetcher;
pub mod instruction;
pub mod laws;
pub mod outcome;
pub mod processor;
pub mod pubkey;
pub mod wire;
