use sts_assume::creds::{AssumeRequest, CredentialSet};
use sts_assume::errors::{AssumeError, ConfigError, EngineError};
use sts_assume::schedule::{NextStep, RefreshConfig, next_step, plan_cycle};
use sts_assume::sink::{DeliveryPlan, SinkConfig};

#[test]
fn interval_for_an_hour_is_3300() {
    let cfg = RefreshConfig { enabled: true, total_duration_seconds: 3600 };
    cfg.validate().expect("valid");
    assert_eq!(cfg.refresh_interval_seconds(), 3300);
}

#[test]
fn interval_for_900_is_600() {
    let cfg = RefreshConfig { enabled: true, total_duration_seconds: 900 };
    cfg.validate().expect("valid");
    assert_eq!(cfg.refresh_interval_seconds(), 600);
}

#[test]
fn duration_300_is_rejected_when_refresh_is_enabled() {
    let cfg = RefreshConfig { enabled: true, total_duration_seconds: 300 };
    assert!(matches!(cfg.validate(), Err(ConfigError::RefreshIntervalNotPositive)));
}

#[test]
fn disabled_refresh_accepts_any_duration() {
    let cfg = RefreshConfig { enabled: false, total_duration_seconds: 300 };
    assert!(cfg.validate().is_ok());
}

#[test]
fn delivered_cycle_without_refresh_finishes() {
    let cfg = RefreshConfig { enabled: false, total_duration_seconds: 3600 };
    assert!(matches!(next_step(&cfg, Ok(())), NextStep::Finish));
}

#[test]
fn delivered_cycle_with_refresh_sleeps_the_interval() {
    let cfg = RefreshConfig { enabled: true, total_duration_seconds: 3600 };
    match next_step(&cfg, Ok(())) {
        NextStep::SleepThenRepeat(secs) => assert_eq!(secs, 3300),
        _ => panic!("expected another cycle"),
    }
}

#[test]
fn failed_cycle_halts_the_loop() {
    let cfg = RefreshConfig { enabled: true, total_duration_seconds: 3600 };
    let err = EngineError::Assume(AssumeError { message: "denied".to_string() });
    match next_step(&cfg, Err(err)) {
        NextStep::Halt(EngineError::Assume(e)) => assert_eq!(e.message, "denied"),
        _ => panic!("an error must halt the loop"),
    }
}

#[test]
fn assume_failure_produces_no_delivery() {
    let sink = SinkConfig::WriteProfile {
        profile_name: "p1".to_string(),
        file_path: ".aws/credentials".to_string(),
    };
    let loaded = String::new();
    let failure = Err(AssumeError { message: "service unavailable".to_string() });
    match plan_cycle(failure, &sink, Some(&loaded)) {
        Err(EngineError::Assume(e)) => assert_eq!(e.message, "service unavailable"),
        _ => panic!("a failed assumption must surface, and nothing may be delivered"),
    }
}

#[test]
fn single_shot_export_cycle() {
    let creds = CredentialSet {
        access_key_id: "AK1".to_string(),
        secret_access_key: "SK1".to_string(),
        session_token: "ST1".to_string(),
        expiration: 1700000000,
    };
    let plan = plan_cycle(Ok(creds), &SinkConfig::ExportToStdout, None).expect("delivers");
    match plan {
        DeliveryPlan::PrintExports(text) => {
            assert_eq!(
                text,
                "export AWS_ACCESS_KEY_ID=AK1\nexport AWS_SECRET_ACCESS_KEY=SK1\nexport AWS_SESSION_TOKEN=ST1\n"
            );
        }
        _ => panic!("the export sink prints export lines and touches no file"),
    }
}

#[test]
fn request_below_the_floor_is_rejected() {
    let r = AssumeRequest::build("arn:aws:iam::111111111111:role/demo".to_string(), "ci".to_string(), 899);
    assert!(matches!(r, Err(ConfigError::DurationTooShort)));
    let ok = AssumeRequest::build("arn:aws:iam::111111111111:role/demo".to_string(), "ci".to_string(), 900)
        .expect("at the floor");
    assert_eq!(ok.duration_seconds, 900);
    assert_eq!(ok.role_arn, "arn:aws:iam::111111111111:role/demo");
}

#[test]
fn config_errors_describe_themselves() {
    assert!(!ConfigError::DurationTooShort.describe().is_empty());
    assert!(!ConfigError::RefreshIntervalNotPositive.describe().is_empty());
    assert!(!ConfigError::MissingHomeDirectory.describe().is_empty());
}
