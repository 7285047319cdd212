//! The refresh scheduler and the issue-and-deliver cycle's decisions.  The
//! engine decides; the process around it performs the one network call, the
//! I/O and the sleep, and hands the outcomes back.

use vstd::prelude::*;

use crate::creds::CredentialSet;
use crate::errors::{AssumeError, ConfigError, DeliveryError, EngineError};
use crate::sink::{DeliveryPlan, SinkConfig, plan_delivery};
use crate::store_text::parse_store_spec;

verus! {

/// How long before expiry the next credential set is requested.
pub const REFRESH_LEAD_SECONDS: i64 = 300;

/// The refresh configuration: when enabled, the cycle repeats every
/// `total_duration_seconds - 300` seconds, indefinitely.
pub struct RefreshConfig {
    pub enabled: bool,
    pub total_duration_seconds: i64,
}

impl RefreshConfig {
    /// The derived refresh interval.
    pub open spec fn interval(&self) -> int {
        self.total_duration_seconds - REFRESH_LEAD_SECONDS
    }

    /// A refresh-enabled configuration is valid only with a positive interval.
    pub open spec fn valid(&self) -> bool {
        self.enabled ==> self.interval() > 0
    }

    /// Rejects, before the first cycle, a refresh schedule whose interval
    /// would not be positive.
    pub fn validate(&self) -> (r: Result<(), ConfigError>)
        ensures
            r is Ok <==> self.valid(),
            r is Err ==> r matches Err(ConfigError::RefreshIntervalNotPositive),
    {
        if self.enabled && self.total_duration_seconds <= REFRESH_LEAD_SECONDS {
            Err(ConfigError::RefreshIntervalNotPositive)
        } else {
            Ok(())
        }
    }

    /// The seconds to wait between cycles.
    pub fn refresh_interval_seconds(&self) -> (r: i64)
        requires
            self.enabled,
            self.valid(),
        ensures
            r == self.interval(),
            r > 0,
    {
        self.total_duration_seconds - REFRESH_LEAD_SECONDS
    }
}

/// What the scheduler does after one cycle.
pub enum NextStep {
    /// Refresh is disabled and the cycle delivered: the run is over.
    Finish,
    /// Refresh is enabled and the cycle delivered: wait this many seconds
    /// (always positive), then run the next cycle.
    SleepThenRepeat(i64),
    /// The cycle failed: stop, surfacing this error; it is never retried.
    Halt(EngineError),
}

/// The scheduler's decision after one cycle: an error always halts the run,
/// a delivered cycle ends the run when refresh is disabled and otherwise
/// schedules the next cycle after the derived interval.
pub fn next_step(config: &RefreshConfig, outcome: Result<(), EngineError>) -> (s: NextStep)
    requires
        config.valid(),
    ensures
        outcome matches Err(e) ==> (s matches NextStep::Halt(halted) && halted == e),
        outcome is Ok && !config.enabled ==> s is Finish,
        outcome is Ok && config.enabled ==> (s matches NextStep::SleepThenRepeat(d) && d
            == config.interval() && d > 0),
{
    match outcome {
        Err(e) => NextStep::Halt(e),
        Ok(()) => {
            if config.enabled {
                NextStep::SleepThenRepeat(config.refresh_interval_seconds())
            } else {
                NextStep::Finish
            }
        },
    }
}

/// One issue-and-deliver cycle's decision, given what the identity service
/// answered.  A failed assumption produces no delivery plan at all — nothing
/// is printed and nothing is written — and the failure is surfaced as the
/// cycle's error; a successful assumption is routed to the configured sink,
/// and a sink failure is surfaced as a delivery error.
pub fn plan_cycle(
    assume_result: Result<CredentialSet, AssumeError>,
    sink: &SinkConfig,
    store_text: Option<&String>,
) -> (r: Result<DeliveryPlan, EngineError>)
    requires
        sink is WriteProfile ==> store_text is Some,
    ensures
        assume_result matches Err(e) ==> (r matches Err(EngineError::Assume(surfaced)) && surfaced
            == e),
        assume_result matches Ok(creds) ==> match r {
            Ok(plan) => plan_delivery_delivers(&creds, sink, store_text, &plan),
            Err(e) => e matches EngineError::Delivery(DeliveryError::MalformedStore)
                && sink is WriteProfile && parse_store_spec(store_text->Some_0@) is None,
        },
{
    let creds = match assume_result {
        Ok(creds) => creds,
        Err(e) => {
            return Err(EngineError::Assume(e));
        },
    };
    match plan_delivery(&creds, sink, store_text) {
        Ok(plan) => Ok(plan),
        Err(e) => Err(EngineError::Delivery(e)),
    }
}

/// What a produced plan says for each sink: the same promise `plan_delivery`
/// makes in its contract, packaged for `plan_cycle`'s callers.
pub open spec fn plan_delivery_delivers(
    creds: &CredentialSet,
    sink: &SinkConfig,
    store_text: Option<&String>,
    plan: &DeliveryPlan,
) -> bool {
    &&& sink is CredentialProcessResponse ==> (plan matches DeliveryPlan::PrintProcessResponse(
        line,
    ) && line@ == crate::sink::process_response_seq(
        creds.access_key_id@,
        creds.secret_access_key@,
        creds.session_token@,
        creds.expiration as int,
    ))
    &&& sink is ExportToStdout ==> (plan matches DeliveryPlan::PrintExports(text) && text@
        == crate::sink::export_text_seq(
        creds.access_key_id@,
        creds.secret_access_key@,
        creds.session_token@,
    ))
    &&& sink matches SinkConfig::WriteProfile { profile_name, .. } ==> (plan matches
    DeliveryPlan::WriteStore { text, confirmation } && parse_store_spec(store_text->Some_0@)
        matches Some(m) && text@ == crate::store_text::render_sections(
        crate::store::upsert_credentials_model(
            m,
            profile_name@,
            creds.access_key_id@,
            creds.secret_access_key@,
            creds.session_token@,
        ),
    ) && confirmation@ == crate::sink::confirmation_seq(profile_name@))
}

} // verus!
