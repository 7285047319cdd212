use sts_assume::creds::CredentialSet;
use sts_assume::sink::{
    DeliveryPlan, SinkConfig, plan_delivery, render_export_lines, render_process_response,
    select_sink,
};

fn creds(ak: &str, sk: &str, st: &str, exp: i64) -> CredentialSet {
    CredentialSet {
        access_key_id: ak.to_string(),
        secret_access_key: sk.to_string(),
        session_token: st.to_string(),
        expiration: exp,
    }
}

#[test]
fn export_lines_have_the_fixed_order() {
    let c = creds("AK1", "SK1", "ST1", 1700000000);
    assert_eq!(
        render_export_lines(&c),
        "export AWS_ACCESS_KEY_ID=AK1\nexport AWS_SECRET_ACCESS_KEY=SK1\nexport AWS_SESSION_TOKEN=ST1\n"
    );
}

#[test]
fn process_response_is_one_json_line() {
    let c = creds("AK1", "SK1", "ST1", 1700000000);
    assert_eq!(
        render_process_response(&c),
        "{\"Version\":1,\"AccessKeyId\":\"AK1\",\"SecretAccessKey\":\"SK1\",\"SessionToken\":\"ST1\",\"Expiration\":\"1700000000\"}"
    );
}

#[test]
fn process_response_parses_as_json() {
    let c = creds("AK\"quote", "back\\slash", "tab\there", -5);
    let line = render_process_response(&c);
    let v: serde_json::Value = serde_json::from_str(&line).expect("valid json");
    assert_eq!(v.get("Version").and_then(|x| x.as_i64()), Some(1));
    assert_eq!(v.get("AccessKeyId").and_then(|x| x.as_str()), Some("AK\"quote"));
    assert_eq!(v.get("SecretAccessKey").and_then(|x| x.as_str()), Some("back\\slash"));
    assert_eq!(v.get("SessionToken").and_then(|x| x.as_str()), Some("tab\there"));
    assert_eq!(v.get("Expiration").and_then(|x| x.as_str()), Some("-5"));
}

#[test]
fn selection_prefers_process_response() {
    let s = select_sink(true, Some("p1".to_string()), ".aws/credentials".to_string());
    assert!(matches!(s, SinkConfig::CredentialProcessResponse));
}

#[test]
fn selection_uses_profile_when_given() {
    let s = select_sink(false, Some("p1".to_string()), ".aws/credentials".to_string());
    match s {
        SinkConfig::WriteProfile { profile_name, file_path } => {
            assert_eq!(profile_name, "p1");
            assert_eq!(file_path, ".aws/credentials");
        }
        _ => panic!("expected the profile sink"),
    }
}

#[test]
fn selection_falls_back_to_exports() {
    let s = select_sink(false, None, ".aws/credentials".to_string());
    assert!(matches!(s, SinkConfig::ExportToStdout));
}

#[test]
fn process_mode_emits_only_the_payload() {
    let c = creds("AK1", "SK1", "ST1", 42);
    let sink = select_sink(true, Some("p1".to_string()), ".aws/credentials".to_string());
    let plan = plan_delivery(&c, &sink, None).expect("process response never fails");
    match plan {
        DeliveryPlan::PrintProcessResponse(line) => {
            assert!(line.starts_with("{\"Version\":1,"));
        }
        _ => panic!("process mode must not write a file or print exports"),
    }
}

#[test]
fn export_sink_touches_no_file() {
    let c = creds("AK1", "SK1", "ST1", 7);
    let plan = plan_delivery(&c, &SinkConfig::ExportToStdout, None).expect("exports never fail");
    match plan {
        DeliveryPlan::PrintExports(text) => {
            assert_eq!(text.lines().count(), 3);
        }
        _ => panic!("export mode must only print export lines"),
    }
}

#[test]
fn profile_sink_writes_the_upserted_store() {
    let c = creds("AK1", "SK1", "ST1", 7);
    let sink = SinkConfig::WriteProfile {
        profile_name: "p1".to_string(),
        file_path: ".aws/credentials".to_string(),
    };
    let loaded = String::new();
    let plan = plan_delivery(&c, &sink, Some(&loaded)).expect("empty store is well formed");
    match plan {
        DeliveryPlan::WriteStore { text, confirmation } => {
            assert_eq!(
                text,
                "[p1]\naws_access_key_id=AK1\naws_secret_access_key=SK1\naws_session_token=ST1\n"
            );
            assert_eq!(confirmation, "aws profile [p1] credentials updated");
        }
        _ => panic!("profile mode must write the store"),
    }
}

#[test]
fn profile_sink_reports_a_malformed_store() {
    let c = creds("AK1", "SK1", "ST1", 7);
    let sink = SinkConfig::WriteProfile {
        profile_name: "p1".to_string(),
        file_path: ".aws/credentials".to_string(),
    };
    let loaded = "not a store".to_string();
    assert!(plan_delivery(&c, &sink, Some(&loaded)).is_err());
}
