//! Credential lifecycle engine for short-lived delegated credentials.
//!
//! The engine builds an assume-role request with a timestamped session name,
//! normalizes the identity service's answer into a credential set, routes that
//! set to exactly one delivery sink (shell export lines, a profile upsert in a
//! key-grouped credentials store, or a one-line structured credential-process
//! response), and, when refresh is enabled, decides the schedule on which the
//! cycle repeats.  All decisions and all text the engine produces are verified;
//! the surrounding process (argument parsing, the network call, file and
//! terminal I/O, sleeping) stays outside the library and only carries the
//! engine's plain values around.

pub mod chars;
pub mod creds;
pub mod errors;
pub mod schedule;
pub mod session;
pub mod sink;
pub mod store;
pub mod store_text;
