//! Error taxonomy of the engine.
//!
//! `ConfigError` rejects invalid configuration before any cycle runs,
//! `AssumeError` carries an identity-service failure, and `DeliveryError`
//! reports a sink failure.  `EngineError` is the union surfaced by one
//! issue-and-deliver cycle.  No error is retried anywhere in the engine:
//! every error aborts the current cycle and is handed to the caller.

use vstd::prelude::*;

verus! {

/// A configuration problem found before the first cycle.
#[derive(Debug)]
pub enum ConfigError {
    /// The requested duration is below the 900-second floor.
    DurationTooShort,
    /// Refresh is enabled but the refresh interval would not be positive.
    RefreshIntervalNotPositive,
    /// The invoking user's home directory could not be resolved.
    MissingHomeDirectory,
}

/// A failure reported by the identity service, or by the transport to it.
/// The engine does not interpret the text; it only carries it upward.
#[derive(Debug)]
pub struct AssumeError {
    pub message: String,
}

/// A failure while delivering one credential set to the configured sink.
#[derive(Debug)]
pub enum DeliveryError {
    /// The existing credentials store could not be parsed, or the values to
    /// write cannot be represented in the line-based store format.
    MalformedStore,
    /// Creating, reading or writing the store file failed.
    Io(String),
}

/// Everything one issue-and-deliver cycle can fail with.
#[derive(Debug)]
pub enum EngineError {
    Config(ConfigError),
    Assume(AssumeError),
    Delivery(DeliveryError),
}

impl ConfigError {
    /// A human-readable description; the process prints it and exits non-zero.
    pub fn describe(&self) -> (r: &'static str)
        ensures
            r@.len() > 0,
    {
        proof {
            reveal_strlit("duration must be at least 900 seconds");
            reveal_strlit("refresh interval must be positive: duration must exceed the 300 second lead");
            reveal_strlit("failed to resolve the home directory");
        }
        match self {
            ConfigError::DurationTooShort => "duration must be at least 900 seconds",
            ConfigError::RefreshIntervalNotPositive => "refresh interval must be positive: duration must exceed the 300 second lead",
            ConfigError::MissingHomeDirectory => "failed to resolve the home directory",
        }
    }
}

} // verus!
