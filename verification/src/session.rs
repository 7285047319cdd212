//! Session naming: a session identifier is the user-supplied base name with
//! the current UTC time appended, `"{base}@{YYYY-MM-DDHHMMSSZ}"`, so repeated
//! assumptions at different whole seconds never share a name.

use vstd::prelude::*;

use crate::chars::{
    digit_char, dec_seq, pad2, pad4, is_digit_char, push_char, push_pad2, push_pad4,
};
use vstd::arithmetic::div_mod::{lemma_fundamental_div_mod, lemma_div_denominator};

verus! {

/// A UTC wall-clock instant at second granularity, split into calendar fields.
#[derive(Clone, Copy, PartialEq, Eq, Structural, Debug)]
pub struct UtcFields {
    pub year: i32,
    pub month: u32,
    pub day: u32,
    pub hour: u32,
    pub minute: u32,
    pub second: u32,
}

impl UtcFields {
    /// Ranges every calendar instant satisfies.
    pub open spec fn wf(&self) -> bool {
        &&& 1 <= self.month <= 12
        &&& 1 <= self.day <= 31
        &&& self.hour < 24
        &&& self.minute < 60
        &&& self.second < 60
    }
}

/// The year zero-padded to four digits, with a sign for negative years.
pub open spec fn year_seq(y: int) -> Seq<char> {
    if y < 0 {
        seq!['-'] + pad4((-y) as nat)
    } else {
        pad4(y as nat)
    }
}

/// The timestamp form `YYYY-MM-DDHHMMSSZ`.
pub open spec fn timestamp_seq(t: UtcFields) -> Seq<char> {
    year_seq(t.year as int) + seq!['-'] + pad2(t.month as nat) + seq!['-'] + pad2(t.day as nat)
        + pad2(t.hour as nat) + pad2(t.minute as nat) + pad2(t.second as nat) + seq!['Z']
}

/// The session name `"{base}@{timestamp}"`.
pub open spec fn session_name_seq(base: Seq<char>, t: UtcFields) -> Seq<char> {
    base + seq!['@'] + timestamp_seq(t)
}

/// Relies on chrono's `Utc::now` and its `Datelike`/`Timelike` accessors:
/// `month()` is 1 to 12, `day()` is 1 to 31, `hour()` is below 24, and
/// `minute()` and `second()` are below 60 (a leap second is carried in the
/// sub-second field, not here).  Which instant comes back depends on the
/// wall clock, so only the field ranges are stated.
#[verifier::external_body]
pub fn now_utc() -> (t: UtcFields)
    ensures
        t.wf(),
{
    let now = chrono::Utc::now();
    UtcFields {
        year: chrono::Datelike::year(&now),
        month: chrono::Datelike::month(&now),
        day: chrono::Datelike::day(&now),
        hour: chrono::Timelike::hour(&now),
        minute: chrono::Timelike::minute(&now),
        second: chrono::Timelike::second(&now),
    }
}

/// Renders `t` as `YYYY-MM-DDHHMMSSZ`.
pub fn format_timestamp(t: &UtcFields) -> (r: String)
    ensures
        r@ == timestamp_seq(*t),
{
    let mut out = String::new();
    if t.year < 0 {
        push_char(&mut out, '-');
        let mag: u64 = (-(t.year as i64)) as u64;
        push_pad4(&mut out, mag);
    } else {
        push_pad4(&mut out, t.year as u64);
    }
    push_char(&mut out, '-');
    push_pad2(&mut out, t.month as u64);
    push_char(&mut out, '-');
    push_pad2(&mut out, t.day as u64);
    push_pad2(&mut out, t.hour as u64);
    push_pad2(&mut out, t.minute as u64);
    push_pad2(&mut out, t.second as u64);
    push_char(&mut out, 'Z');
    proof {
        assert(out@ =~= timestamp_seq(*t));
    }
    out
}

/// Derives the session name for one assumption made at instant `t`.
pub fn make_session_name(base: &str, t: &UtcFields) -> (r: String)
    ensures
        r@ == session_name_seq(base@, *t),
{
    let mut out = String::from_str(base);
    push_char(&mut out, '@');
    let stamp = format_timestamp(t);
    out.append(stamp.as_str());
    proof {
        assert(out@ =~= session_name_seq(base@, *t));
    }
    out
}

/// Derives the session name for an assumption made now.  The clock decides
/// the instant, so the contract says only that the name has the session-name
/// form for some well-formed instant.
pub fn make_session_name_now(base: &str) -> (r: String)
    ensures
        exists|t: UtcFields| t.wf() && r@ == session_name_seq(base@, t),
{
    let t = now_utc();
    let r = make_session_name(base, &t);
    proof {
        assert(t.wf() && r@ == session_name_seq(base@, t));
    }
    r
}

/// Two-digit zero-padded rendering, written out.
proof fn lemma_pad2_digits(n: nat)
    requires
        n < 100,
    ensures
        pad2(n) =~= seq![digit_char(n / 10), digit_char(n % 10)],
{
    if n < 10 {
        assert(n / 10 == 0);
        assert(n % 10 == n);
    } else {
        assert(10 <= n / 10 * 10 + n % 10 < 100) by {
            lemma_fundamental_div_mod(n as int, 10);
        }
        assert(1 <= n / 10 < 10);
        assert(dec_seq(n / 10) =~= seq![digit_char(n / 10)]);
    }
}

/// Four-digit zero-padded rendering, written out.
proof fn lemma_pad4_digits(n: nat)
    requires
        n < 10000,
    ensures
        pad4(n) =~= seq![
            digit_char(n / 1000),
            digit_char((n / 100) % 10),
            digit_char((n / 10) % 10),
            digit_char(n % 10),
        ],
{
    lemma_fundamental_div_mod(n as int, 10);
    lemma_fundamental_div_mod(n as int / 10, 10);
    lemma_fundamental_div_mod(n as int / 100, 10);
    lemma_div_denominator(n as int, 10, 10);
    lemma_div_denominator(n as int, 100, 10);
    lemma_div_denominator(n as int, 10, 100);
    assert(n as int / 10 / 10 == n as int / 100);
    assert(n as int / 100 / 10 == n as int / 1000);
    assert(n as int / 10 / 100 == n as int / 1000);
    if n < 10 {
        assert(n % 10 == n && n / 10 == 0 && n / 100 == 0 && n / 1000 == 0);
    } else if n < 100 {
        lemma_pad2_digits(n);
        assert(n / 100 == 0 && n / 1000 == 0);
        assert((n / 10) % 10 == n / 10);
    } else if n < 1000 {
        assert(10 <= n / 10 < 100);
        lemma_pad2_digits((n / 10) as nat);
        assert(dec_seq(n) =~= dec_seq(n / 10).push(digit_char(n % 10)));
        assert((n / 100) % 10 == n / 100);
        assert(n / 1000 == 0);
        assert(pad2((n / 10) as nat) =~= seq![
            digit_char(n / 10 / 10),
            digit_char((n / 10) % 10),
        ]);
    } else {
        assert(100 <= n / 10 < 1000);
        lemma_pad2_digits((n / 100) as nat);
        assert(dec_seq(n / 10) =~= dec_seq(n / 10 / 10).push(digit_char((n / 10) % 10)));
        assert(dec_seq(n / 100) =~= dec_seq(n / 100 / 10).push(digit_char((n / 100) % 10)));
        assert(10 <= n / 100 < 100);
        assert(1 <= n / 1000 < 10);
        assert(dec_seq(n / 1000) =~= seq![digit_char(n / 1000)]);
    }
}

/// Distinct decimal digits render as distinct characters.
proof fn lemma_digit_char_injective(d1: nat, d2: nat)
    requires
        d1 < 10,
        d2 < 10,
        digit_char(d1) == digit_char(d2),
    ensures
        d1 == d2,
{
}

/// The timestamp of an instant with a four-digit year, written out position
/// by position: 17 characters, digits everywhere except the two hyphens and
/// the closing 'Z'.
pub proof fn lemma_timestamp_shape(t: UtcFields)
    requires
        t.wf(),
        0 <= t.year <= 9999,
    ensures
        timestamp_seq(t) =~= seq![
            digit_char(t.year as nat / 1000),
            digit_char((t.year as nat / 100) % 10),
            digit_char((t.year as nat / 10) % 10),
            digit_char(t.year as nat % 10),
            '-',
            digit_char(t.month as nat / 10),
            digit_char(t.month as nat % 10),
            '-',
            digit_char(t.day as nat / 10),
            digit_char(t.day as nat % 10),
            digit_char(t.hour as nat / 10),
            digit_char(t.hour as nat % 10),
            digit_char(t.minute as nat / 10),
            digit_char(t.minute as nat % 10),
            digit_char(t.second as nat / 10),
            digit_char(t.second as nat % 10),
            'Z',
        ],
{
    lemma_pad4_digits(t.year as nat);
    lemma_pad2_digits(t.month as nat);
    lemma_pad2_digits(t.day as nat);
    lemma_pad2_digits(t.hour as nat);
    lemma_pad2_digits(t.minute as nat);
    lemma_pad2_digits(t.second as nat);
}

/// Law: every session name has the form `<base>@<timestamp>`, where the
/// timestamp is 17 characters — a four-digit year, a hyphen, two two-digit
/// fields separated by a hyphen, six more digits, and a final 'Z'.
pub proof fn lemma_session_name_form(base: Seq<char>, t: UtcFields)
    requires
        t.wf(),
        0 <= t.year <= 9999,
    ensures
        session_name_seq(base, t).len() == base.len() + 18,
        session_name_seq(base, t)[base.len() as int] == '@',
        session_name_seq(base, t).last() == 'Z',
        session_name_seq(base, t)[base.len() as int + 5] == '-',
        session_name_seq(base, t)[base.len() as int + 8] == '-',
        forall|i: int|
            base.len() + 1 <= i < base.len() + 18 - 1 && i != base.len() + 5 && i != base.len()
                + 8 ==> is_digit_char(#[trigger] session_name_seq(base, t)[i]),
{
    lemma_timestamp_shape(t);
    let n = session_name_seq(base, t);
    assert forall|i: int|
        base.len() + 1 <= i < base.len() + 18 - 1 && i != base.len() + 5 && i != base.len()
            + 8 implies is_digit_char(#[trigger] n[i]) by {
        let k = i - base.len() - 1;
        assert(n[i] == timestamp_seq(t)[k]);
        assert(is_digit_char(timestamp_seq(t)[k])) by {
            if k == 0 {
                assert(timestamp_seq(t)[k] == digit_char(t.year as nat / 1000));
                assert(t.year as nat / 1000 < 10);
            } else if k == 1 {
                assert((t.year as nat / 100) % 10 < 10);
            } else if k == 2 {
                assert((t.year as nat / 10) % 10 < 10);
            } else if k == 3 {
                assert(t.year as nat % 10 < 10);
            } else if k == 5 {
                assert(t.month as nat / 10 < 10);
            } else if k == 6 {
                assert(t.month as nat % 10 < 10);
            } else if k == 8 {
                assert(t.day as nat / 10 < 10);
            } else if k == 9 {
                assert(t.day as nat % 10 < 10);
            } else if k == 10 {
                assert(t.hour as nat / 10 < 10);
            } else if k == 11 {
                assert(t.hour as nat % 10 < 10);
            } else if k == 12 {
                assert(t.minute as nat / 10 < 10);
            } else if k == 13 {
                assert(t.minute as nat % 10 < 10);
            } else if k == 14 {
                assert(t.second as nat / 10 < 10);
            } else {
                assert(k == 15);
                assert(t.second as nat % 10 < 10);
            }
        }
    }
}

/// A two-digit field is recovered from its two digit characters.
proof fn lemma_two_digits_determine(n1: nat, n2: nat)
    requires
        n1 < 100,
        n2 < 100,
        digit_char(n1 / 10) == digit_char(n2 / 10),
        digit_char(n1 % 10) == digit_char(n2 % 10),
    ensures
        n1 == n2,
{
    lemma_digit_char_injective(n1 / 10, n2 / 10);
    lemma_digit_char_injective(n1 % 10, n2 % 10);
    lemma_fundamental_div_mod(n1 as int, 10);
    lemma_fundamental_div_mod(n2 as int, 10);
}

/// A four-digit field is recovered from its four digit characters.
proof fn lemma_four_digits_determine(n1: nat, n2: nat)
    requires
        n1 < 10000,
        n2 < 10000,
        digit_char(n1 / 1000) == digit_char(n2 / 1000),
        digit_char((n1 / 100) % 10) == digit_char((n2 / 100) % 10),
        digit_char((n1 / 10) % 10) == digit_char((n2 / 10) % 10),
        digit_char(n1 % 10) == digit_char(n2 % 10),
    ensures
        n1 == n2,
{
    lemma_digit_char_injective(n1 / 1000, n2 / 1000);
    lemma_digit_char_injective((n1 / 100) % 10, (n2 / 100) % 10);
    lemma_digit_char_injective((n1 / 10) % 10, (n2 / 10) % 10);
    lemma_digit_char_injective(n1 % 10, n2 % 10);
    lemma_div_denominator(n1 as int, 10, 10);
    lemma_div_denominator(n1 as int, 100, 10);
    lemma_div_denominator(n2 as int, 10, 10);
    lemma_div_denominator(n2 as int, 100, 10);
    lemma_fundamental_div_mod(n1 as int / 100, 10);
    lemma_fundamental_div_mod(n2 as int / 100, 10);
    assert(n1 / 100 == n2 / 100);
    lemma_fundamental_div_mod(n1 as int / 10, 10);
    lemma_fundamental_div_mod(n2 as int / 10, 10);
    assert(n1 / 10 == n2 / 10);
    lemma_fundamental_div_mod(n1 as int, 10);
    lemma_fundamental_div_mod(n2 as int, 10);
}

/// Law: two assumptions whose wall-clock instants differ in any calendar
/// field — in particular, any two made at different whole seconds — get
/// different session names for the same base.
#[verifier::rlimit(60)]
pub proof fn lemma_session_name_distinct(base: Seq<char>, t1: UtcFields, t2: UtcFields)
    requires
        t1.wf(),
        t2.wf(),
        0 <= t1.year <= 9999,
        0 <= t2.year <= 9999,
        t1 != t2,
    ensures
        session_name_seq(base, t1) != session_name_seq(base, t2),
{
    lemma_timestamp_shape(t1);
    lemma_timestamp_shape(t2);
    if session_name_seq(base, t1) == session_name_seq(base, t2) {
        let s1 = timestamp_seq(t1);
        let s2 = timestamp_seq(t2);
        assert(s1 =~= s2) by {
            assert forall|k: int| 0 <= k < 17 implies s1[k] == s2[k] by {
                assert(session_name_seq(base, t1)[base.len() + 1 + k] == s1[k]);
                assert(session_name_seq(base, t2)[base.len() + 1 + k] == s2[k]);
            }
        }
        lemma_four_digits_determine(t1.year as nat, t2.year as nat);
        lemma_two_digits_determine(t1.month as nat, t2.month as nat);
        lemma_two_digits_determine(t1.day as nat, t2.day as nat);
        lemma_two_digits_determine(t1.hour as nat, t2.hour as nat);
        lemma_two_digits_determine(t1.minute as nat, t2.minute as nat);
        lemma_two_digits_determine(t1.second as nat, t2.second as nat);
        assert(t1 == t2);
        assert(false);
    }
}

} // verus!
