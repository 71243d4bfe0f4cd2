//! The typed cores of the user-facing commands. Each takes already-parsed
//! parameters and plain values, works on the journal in memory, and hands
//! plain results back; reading input, persisting and printing are the
//! caller's concern.

pub mod add;
pub mod backup;
pub mod remove;
pub mod search;
pub mod view;
pub mod edit;
pub mod export;
pub mod init;
