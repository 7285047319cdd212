use sts_assume::store::CredStore;
use sts_assume::store_text::{parse_store, render_store};

fn lookup_owned(store: &CredStore, profile: &str, key: &str) -> Option<String> {
    store.lookup(profile, key).cloned()
}

#[test]
fn write_then_read_one_profile() {
    let mut store = CredStore::new();
    store.upsert_credentials("p1", "AK", "SK", "ST");
    assert_eq!(store.sections.len(), 1);
    assert_eq!(store.sections[0].name, "p1");
    assert_eq!(store.sections[0].entries.len(), 3);
    assert_eq!(lookup_owned(&store, "p1", "aws_access_key_id"), Some("AK".to_string()));
    assert_eq!(lookup_owned(&store, "p1", "aws_secret_access_key"), Some("SK".to_string()));
    assert_eq!(lookup_owned(&store, "p1", "aws_session_token"), Some("ST".to_string()));
}

#[test]
fn second_profile_leaves_first_unchanged() {
    let mut store = CredStore::new();
    store.upsert_credentials("p1", "AK", "SK", "ST");
    store.upsert_credentials("p2", "AK2", "SK2", "ST2");
    assert_eq!(store.sections.len(), 2);
    assert_eq!(lookup_owned(&store, "p1", "aws_access_key_id"), Some("AK".to_string()));
    assert_eq!(lookup_owned(&store, "p1", "aws_secret_access_key"), Some("SK".to_string()));
    assert_eq!(lookup_owned(&store, "p1", "aws_session_token"), Some("ST".to_string()));
    assert_eq!(lookup_owned(&store, "p2", "aws_access_key_id"), Some("AK2".to_string()));
}

#[test]
fn rewrite_keeps_unrelated_keys() {
    let text = "[p1]\nregion=eu-west-1\naws_access_key_id=OLD\n[other]\nx=1\n";
    let mut store = parse_store(text).expect("well formed");
    store.upsert_credentials("p1", "NEW", "NSK", "NST");
    assert_eq!(lookup_owned(&store, "p1", "region"), Some("eu-west-1".to_string()));
    assert_eq!(lookup_owned(&store, "p1", "aws_access_key_id"), Some("NEW".to_string()));
    assert_eq!(lookup_owned(&store, "p1", "aws_secret_access_key"), Some("NSK".to_string()));
    assert_eq!(lookup_owned(&store, "p1", "aws_session_token"), Some("NST".to_string()));
    assert_eq!(lookup_owned(&store, "other", "x"), Some("1".to_string()));
}

#[test]
fn render_writes_sections_in_order() {
    let mut store = CredStore::new();
    store.upsert_credentials("p1", "AK", "SK", "ST");
    let text = render_store(&store);
    assert_eq!(
        text,
        "[p1]\naws_access_key_id=AK\naws_secret_access_key=SK\naws_session_token=ST\n"
    );
}

#[test]
fn text_round_trip_preserves_the_store() {
    let text = "[p1]\naws_access_key_id=AK\naws_secret_access_key=SK\naws_session_token=ST\n[p2]\nk=v=with=equals\n";
    let store = parse_store(text).expect("well formed");
    assert_eq!(render_store(&store), text);
    let again = parse_store(&render_store(&store)).expect("still well formed");
    assert_eq!(lookup_owned(&again, "p2", "k"), Some("v=with=equals".to_string()));
}

#[test]
fn parse_skips_blank_and_comment_lines() {
    let text = "; a comment\n\n[p1]\n# another\nk=v\n\n";
    let store = parse_store(text).expect("well formed");
    assert_eq!(store.sections.len(), 1);
    assert_eq!(lookup_owned(&store, "p1", "k"), Some("v".to_string()));
}

#[test]
fn parse_rejects_key_outside_a_section() {
    assert!(parse_store("k=v\n").is_err());
}

#[test]
fn parse_rejects_unclosed_header() {
    assert!(parse_store("[p1\nk=v\n").is_err());
}

#[test]
fn parse_rejects_line_without_equals() {
    assert!(parse_store("[p1]\nnonsense\n").is_err());
}

#[test]
fn parse_rejects_empty_key() {
    assert!(parse_store("[p1]\n=v\n").is_err());
}

#[test]
fn parse_rejects_duplicate_section() {
    assert!(parse_store("[p1]\n[p1]\n").is_err());
}

#[test]
fn parse_rejects_duplicate_key() {
    assert!(parse_store("[p1]\nk=a\nk=b\n").is_err());
}

#[test]
fn rendered_store_reads_back_with_an_ini_reader() {
    let mut store = CredStore::new();
    store.upsert_credentials("p1", "AKIDEXAMPLE", "wJalrXUt", "FQoGZXIvYXdzEJr");
    let text = render_store(&store);
    let ini = ini::Ini::load_from_str(&text).expect("ini reader accepts the rendered store");
    let section = ini.section(Some("p1")).expect("profile present");
    assert_eq!(section.get("aws_access_key_id"), Some("AKIDEXAMPLE"));
    assert_eq!(section.get("aws_secret_access_key"), Some("wJalrXUt"));
    assert_eq!(section.get("aws_session_token"), Some("FQoGZXIvYXdzEJr"));
}

#[test]
fn empty_store_renders_to_nothing_and_reads_back() {
    let store = CredStore::new();
    assert_eq!(render_store(&store), "");
    let again = parse_store("").expect("the empty text is a well-formed store");
    assert_eq!(again.sections.len(), 0);
}
