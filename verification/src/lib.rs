//! Core engine of a command-line safe-delete tool.
//!
//! Instead of destroying files, the tool relocates them into a recoverable
//! holding area ("trash"). This crate holds the verified lifecycle rules of
//! that holding area: how an incoming item gets a unique name, how the ledger
//! of held entries is queried and filtered by age or name, how entries are
//! restored to their original location, and how a retention window selects
//! entries for permanent deletion. The filesystem moves themselves, the OS
//! trash facility, and all console output live outside this crate; they hand
//! the engine plain values and carry out the orders it returns.

pub mod args;
pub mod conflict;
pub mod dispatch;
pub mod pathname;
pub mod retention;
pub mod store;
