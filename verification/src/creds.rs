//! The engine's credential data model: the assume-role request and the
//! credential set the identity service answers with.

use vstd::prelude::*;

use crate::errors::ConfigError;

verus! {

/// The floor the service places on a requested duration, validated locally.
pub const MIN_DURATION_SECONDS: i64 = 900;

/// One short-lived credential set, immutable once produced; the expiration is
/// an epoch timestamp in seconds.
pub struct CredentialSet {
    pub access_key_id: String,
    pub secret_access_key: String,
    pub session_token: String,
    pub expiration: i64,
}

/// One assume-role request, constructed fresh per cycle.
pub struct AssumeRequest {
    pub role_arn: String,
    pub session_name: String,
    pub duration_seconds: i64,
}

impl AssumeRequest {
    /// The request's invariant: names present, duration at or above the floor.
    pub open spec fn valid(&self) -> bool {
        &&& self.role_arn@.len() > 0
        &&& self.session_name@.len() > 0
        &&& self.duration_seconds >= MIN_DURATION_SECONDS
    }

    /// Builds a request, rejecting a duration below the 900-second floor
    /// before anything reaches the identity service.
    pub fn build(role_arn: String, session_name: String, duration_seconds: i64) -> (r: Result<
        AssumeRequest,
        ConfigError,
    >)
        ensures
            duration_seconds >= MIN_DURATION_SECONDS <==> r is Ok,
            r matches Ok(req) ==> req.role_arn == role_arn && req.session_name == session_name
                && req.duration_seconds == duration_seconds,
            r is Err ==> r matches Err(ConfigError::DurationTooShort),
    {
        if duration_seconds < MIN_DURATION_SECONDS {
            Err(ConfigError::DurationTooShort)
        } else {
            Ok(AssumeRequest { role_arn, session_name, duration_seconds })
        }
    }
}

} // verus!
