use sts_assume::session::{UtcFields, format_timestamp, make_session_name, make_session_name_now};

fn fields(
    year: i32,
    month: u32,
    day: u32,
    hour: u32,
    minute: u32,
    second: u32,
) -> UtcFields {
    UtcFields { year, month, day, hour, minute, second }
}

#[test]
fn timestamp_has_fixed_form() {
    let t = fields(2026, 10, 11, 12, 34, 56);
    assert_eq!(format_timestamp(&t), "2026-10-11123456Z");
}

#[test]
fn timestamp_pads_small_fields() {
    let t = fields(987, 1, 2, 3, 4, 5);
    assert_eq!(format_timestamp(&t), "0987-01-02030405Z");
}

#[test]
fn session_name_appends_timestamp() {
    let t = fields(2026, 10, 11, 0, 0, 0);
    assert_eq!(make_session_name("ci", &t), "ci@2026-10-11000000Z");
}

#[test]
fn session_names_differ_across_seconds() {
    let t1 = fields(2026, 10, 11, 12, 34, 56);
    let t2 = fields(2026, 10, 11, 12, 34, 57);
    assert_ne!(make_session_name("ci", &t1), make_session_name("ci", &t2));
}

#[test]
fn session_name_now_has_the_form() {
    let name = make_session_name_now("deploy");
    assert_eq!(name.len(), "deploy".len() + 18);
    assert_eq!(name.chars().nth("deploy".len()), Some('@'));
    assert!(name.ends_with('Z'));
    let stamp: Vec<char> = name.chars().skip("deploy".len() + 1).collect();
    assert_eq!(stamp[4], '-');
    assert_eq!(stamp[7], '-');
    for (i, c) in stamp.iter().enumerate() {
        if i != 4 && i != 7 && i != 16 {
            assert!(c.is_ascii_digit(), "position {} is {}", i, c);
        }
    }
}

#[test]
fn timestamp_renders_a_negative_year() {
    let t = fields(-1, 1, 1, 0, 0, 0);
    assert_eq!(format_timestamp(&t), "-0001-01-01000000Z");
}
