//! The sink dispatcher: routes one credential set to exactly one of three
//! delivery modes.  Everything here is pure text construction — the process
//! around the engine prints the lines or writes the file.

use vstd::prelude::*;

use crate::chars::{dec_seq_signed, digit_char, push_char, render_i64};
use crate::creds::CredentialSet;
use crate::errors::DeliveryError;
use crate::store::upsert_credentials_model;
use crate::store_text::{
    parse_store, parse_store_spec, render_sections, render_store, storable_name, storable_value,
};

verus! {

/// Where one credential set goes; exactly one mode is active per invocation.
pub enum SinkConfig {
    /// Three `export KEY=value` lines on standard output.
    ExportToStdout,
    /// Upsert into the named profile of the credentials store at `file_path`
    /// (a path relative to the invoking user's home directory).
    WriteProfile { profile_name: String, file_path: String },
    /// One structured credential-process line on standard output.
    CredentialProcessResponse,
}

/// The selection rule: a requested process response takes precedence over any
/// profile; otherwise a supplied profile selects the store upsert; otherwise
/// the export lines.
pub fn select_sink(process: bool, profile: Option<String>, file_path: String) -> (s: SinkConfig)
    ensures
        process ==> s is CredentialProcessResponse,
        (!process && profile is Some) ==> (s matches SinkConfig::WriteProfile {
            profile_name,
            file_path: fp,
        } && profile_name == profile->Some_0 && fp == file_path),
        (!process && profile is None) ==> s is ExportToStdout,
{
    if process {
        SinkConfig::CredentialProcessResponse
    } else {
        match profile {
            Some(profile_name) => SinkConfig::WriteProfile { profile_name, file_path },
            None => SinkConfig::ExportToStdout,
        }
    }
}

/// The lowercase hexadecimal digit character for `d` (meaningful for `d < 16`).
pub open spec fn hex_char(d: nat) -> char {
    if d < 10 {
        digit_char(d)
    } else if d == 10 {
        'a'
    } else if d == 11 {
        'b'
    } else if d == 12 {
        'c'
    } else if d == 13 {
        'd'
    } else if d == 14 {
        'e'
    } else {
        'f'
    }
}

/// How one character reads inside a JSON string: quotes and backslashes are
/// escaped, the named control characters get their short escapes, any other
/// control character a `\u00..` escape, and everything else stands as it is.
pub open spec fn json_escaped_char(c: char) -> Seq<char> {
    if c == '"' {
        seq!['\\', '"']
    } else if c == '\\' {
        seq!['\\', '\\']
    } else if c == '\u{8}' {
        seq!['\\', 'b']
    } else if c == '\u{c}' {
        seq!['\\', 'f']
    } else if c == '\n' {
        seq!['\\', 'n']
    } else if c == '\r' {
        seq!['\\', 'r']
    } else if c == '\t' {
        seq!['\\', 't']
    } else if (c as u32) < 32 {
        seq!['\\', 'u', '0', '0', hex_char((c as u32) as nat / 16), hex_char(
            (c as u32) as nat % 16,
        )]
    } else {
        seq![c]
    }
}

/// A string's characters, each as it reads inside a JSON string.
pub open spec fn json_escape(s: Seq<char>) -> Seq<char>
    decreases s.len(),
{
    if s.len() == 0 {
        Seq::empty()
    } else {
        json_escaped_char(s[0]) + json_escape(s.drop_first())
    }
}

/// The lowercase hexadecimal digit character for `d`.
fn hex_of(d: u32) -> (c: char)
    requires
        d < 16,
    ensures
        c == hex_char(d as nat),
{
    if d == 0 {
        '0'
    } else if d == 1 {
        '1'
    } else if d == 2 {
        '2'
    } else if d == 3 {
        '3'
    } else if d == 4 {
        '4'
    } else if d == 5 {
        '5'
    } else if d == 6 {
        '6'
    } else if d == 7 {
        '7'
    } else if d == 8 {
        '8'
    } else if d == 9 {
        '9'
    } else if d == 10 {
        'a'
    } else if d == 11 {
        'b'
    } else if d == 12 {
        'c'
    } else if d == 13 {
        'd'
    } else if d == 14 {
        'e'
    } else {
        'f'
    }
}

/// Appends `s` to `out`, escaped for the inside of a JSON string.
fn push_json_escaped(out: &mut String, s: &str)
    ensures
        final(out)@ == old(out)@ + json_escape(s@),
{
    let n = s.unicode_len();
    let mut i: usize = 0;
    proof {
        assert(s@.skip(0) =~= s@);
        assert(old(out)@ + json_escape(s@) == old(out)@ + json_escape(s@.skip(0)));
    }
    while i < n
        invariant
            i <= n,
            n == s@.len(),
            out@ + json_escape(s@.skip(i as int)) == old(out)@ + json_escape(s@),
        decreases n - i,
    {
        proof {
            assert(s@.skip(i as int)[0] == s@[i as int]);
            assert(s@.skip(i as int).drop_first() =~= s@.skip(i as int + 1));
        }
        let c = s.get_char(i);
        let ghost before = out@;
        if c == '"' {
            push_char(out, '\\');
            push_char(out, '"');
        } else if c == '\\' {
            push_char(out, '\\');
            push_char(out, '\\');
        } else if c == '\u{8}' {
            push_char(out, '\\');
            push_char(out, 'b');
        } else if c == '\u{c}' {
            push_char(out, '\\');
            push_char(out, 'f');
        } else if c == '\n' {
            push_char(out, '\\');
            push_char(out, 'n');
        } else if c == '\r' {
            push_char(out, '\\');
            push_char(out, 'r');
        } else if c == '\t' {
            push_char(out, '\\');
            push_char(out, 't');
        } else if (c as u32) < 32 {
            push_char(out, '\\');
            push_char(out, 'u');
            push_char(out, '0');
            push_char(out, '0');
            let hi = hex_of((c as u32) / 16);
            push_char(out, hi);
            let lo = hex_of((c as u32) % 16);
            push_char(out, lo);
        } else {
            push_char(out, c);
        }
        proof {
            assert(out@ =~= before + json_escaped_char(s@[i as int]));
            assert(out@ + json_escape(s@.skip(i as int + 1)) =~= old(out)@ + json_escape(s@));
        }
        i += 1;
    }
    proof {
        assert(s@.skip(n as int) =~= Seq::<char>::empty());
        assert(json_escape(s@.skip(n as int)) =~= Seq::<char>::empty());
        assert(out@ =~= out@ + json_escape(s@.skip(n as int)));
    }
}

/// The one-line structured credential-process payload: a JSON object with the
/// fixed fields Version (always 1), the three credential strings, and the
/// expiration timestamp rendered as its decimal string form.
pub open spec fn process_response_seq(
    access_key_id: Seq<char>,
    secret_access_key: Seq<char>,
    session_token: Seq<char>,
    expiration: int,
) -> Seq<char> {
    "{\"Version\":1,\"AccessKeyId\":\""@ + json_escape(access_key_id)
        + "\",\"SecretAccessKey\":\""@ + json_escape(secret_access_key)
        + "\",\"SessionToken\":\""@ + json_escape(session_token) + "\",\"Expiration\":\""@
        + dec_seq_signed(expiration) + "\"}"@
}

/// Renders the credential-process response line (no trailing newline).
pub fn render_process_response(creds: &CredentialSet) -> (r: String)
    ensures
        r@ == process_response_seq(
            creds.access_key_id@,
            creds.secret_access_key@,
            creds.session_token@,
            creds.expiration as int,
        ),
{
    let mut out = String::from_str("{\"Version\":1,\"AccessKeyId\":\"");
    push_json_escaped(&mut out, creds.access_key_id.as_str());
    out.append("\",\"SecretAccessKey\":\"");
    push_json_escaped(&mut out, creds.secret_access_key.as_str());
    out.append("\",\"SessionToken\":\"");
    push_json_escaped(&mut out, creds.session_token.as_str());
    out.append("\",\"Expiration\":\"");
    let exp = render_i64(creds.expiration);
    out.append(exp.as_str());
    out.append("\"}");
    proof {
        assert(out@ =~= process_response_seq(
            creds.access_key_id@,
            creds.secret_access_key@,
            creds.session_token@,
            creds.expiration as int,
        ));
    }
    out
}

/// The three shell export lines, in the fixed key order, each ending in a
/// newline.
pub open spec fn export_text_seq(
    access_key_id: Seq<char>,
    secret_access_key: Seq<char>,
    session_token: Seq<char>,
) -> Seq<char> {
    "export AWS_ACCESS_KEY_ID="@ + access_key_id + seq!['\n'] + "export AWS_SECRET_ACCESS_KEY="@
        + secret_access_key + seq!['\n'] + "export AWS_SESSION_TOKEN="@ + session_token
        + seq!['\n']
}

/// Renders the three export lines.
pub fn render_export_lines(creds: &CredentialSet) -> (r: String)
    ensures
        r@ == export_text_seq(
            creds.access_key_id@,
            creds.secret_access_key@,
            creds.session_token@,
        ),
{
    let mut out = String::from_str("export AWS_ACCESS_KEY_ID=");
    out.append(creds.access_key_id.as_str());
    push_char(&mut out, '\n');
    out.append("export AWS_SECRET_ACCESS_KEY=");
    out.append(creds.secret_access_key.as_str());
    push_char(&mut out, '\n');
    out.append("export AWS_SESSION_TOKEN=");
    out.append(creds.session_token.as_str());
    push_char(&mut out, '\n');
    proof {
        assert(out@ =~= export_text_seq(
            creds.access_key_id@,
            creds.secret_access_key@,
            creds.session_token@,
        ));
    }
    out
}

/// The confirmation line printed after a profile write (no trailing newline).
pub open spec fn confirmation_seq(profile: Seq<char>) -> Seq<char> {
    "aws profile ["@ + profile + "] credentials updated"@
}

/// What one delivery amounts to; the process around the engine performs it.
pub enum DeliveryPlan {
    /// Print this text (the three export lines) to standard output.
    PrintExports(String),
    /// Replace the store file's contents with `text`, then print `confirmation`.
    WriteStore { text: String, confirmation: String },
    /// Print this one structured line to standard output.
    PrintProcessResponse(String),
}

/// The full profile upsert on the store's text: parse the loaded store,
/// upsert the three credential keys of the named profile, and render the
/// full store back, together with the confirmation line.
pub fn apply_profile_update(store_text: &str, profile: &str, creds: &CredentialSet) -> (r: Result<
    (String, String),
    DeliveryError,
>)
    ensures
        match r {
            Ok((new_text, confirmation)) => {
                &&& parse_store_spec(store_text@) matches Some(m) && new_text@ == render_sections(
                    upsert_credentials_model(
                        m,
                        profile@,
                        creds.access_key_id@,
                        creds.secret_access_key@,
                        creds.session_token@,
                    ),
                ) && ((storable_name(profile@) && storable_value(creds.access_key_id@)
                    && storable_value(creds.secret_access_key@) && storable_value(
                    creds.session_token@,
                )) ==> parse_store_spec(new_text@) == Some(
                    upsert_credentials_model(
                        m,
                        profile@,
                        creds.access_key_id@,
                        creds.secret_access_key@,
                        creds.session_token@,
                    ),
                ))
                &&& confirmation@ == confirmation_seq(profile@)
            },
            Err(e) => e matches DeliveryError::MalformedStore && parse_store_spec(store_text@)
                is None,
        },
{
    let mut store = match parse_store(store_text) {
        Ok(store) => store,
        Err(e) => {
            return Err(e);
        },
    };
    let ghost parsed = store.model();
    store.upsert_credentials(
        profile,
        creds.access_key_id.as_str(),
        creds.secret_access_key.as_str(),
        creds.session_token.as_str(),
    );
    let new_text = render_store(&store);
    proof {
        if storable_name(profile@) && storable_value(creds.access_key_id@) && storable_value(
            creds.secret_access_key@,
        ) && storable_value(creds.session_token@) {
            crate::store_text::lemma_delivery_round_trip(
                parsed,
                profile@,
                creds.access_key_id@,
                creds.secret_access_key@,
                creds.session_token@,
            );
        }
    }
    let mut confirmation = String::from_str("aws profile [");
    confirmation.append(profile);
    confirmation.append("] credentials updated");
    proof {
        assert(confirmation@ =~= confirmation_seq(profile@));
    }
    Ok((new_text, confirmation))
}

/// Routes one credential set to the configured sink.  For the profile sink,
/// `store_text` is the loaded contents of the credentials store; the other
/// sinks ignore it.  The returned plan is the sink's entire observable
/// effect: exactly one of the three output shapes per cycle.
pub fn plan_delivery(creds: &CredentialSet, sink: &SinkConfig, store_text: Option<&String>) -> (r:
    Result<DeliveryPlan, DeliveryError>)
    requires
        sink is WriteProfile ==> store_text is Some,
    ensures
        sink is CredentialProcessResponse ==> (r matches Ok(
            DeliveryPlan::PrintProcessResponse(line),
        ) && line@ == process_response_seq(
            creds.access_key_id@,
            creds.secret_access_key@,
            creds.session_token@,
            creds.expiration as int,
        )),
        sink is ExportToStdout ==> (r matches Ok(DeliveryPlan::PrintExports(text)) && text@
            == export_text_seq(
            creds.access_key_id@,
            creds.secret_access_key@,
            creds.session_token@,
        )),
        sink matches SinkConfig::WriteProfile { profile_name, .. } ==> match parse_store_spec(
            store_text->Some_0@,
        ) {
            Some(m) => r matches Ok(DeliveryPlan::WriteStore { text, confirmation }) && text@
                == render_sections(
                upsert_credentials_model(
                    m,
                    profile_name@,
                    creds.access_key_id@,
                    creds.secret_access_key@,
                    creds.session_token@,
                ),
            ) && confirmation@ == confirmation_seq(profile_name@),
            None => r matches Err(DeliveryError::MalformedStore),
        },
{
    match sink {
        SinkConfig::CredentialProcessResponse => Ok(
            DeliveryPlan::PrintProcessResponse(render_process_response(creds)),
        ),
        SinkConfig::ExportToStdout => Ok(DeliveryPlan::PrintExports(render_export_lines(creds))),
        SinkConfig::WriteProfile { profile_name, .. } => {
            let loaded = match store_text {
                Some(loaded) => loaded,
                None => {
                    proof {
                        assert(false);
                    }
                    return Err(DeliveryError::MalformedStore);
                },
            };
            match apply_profile_update(loaded.as_str(), profile_name.as_str(), creds) {
                Ok((text, confirmation)) => Ok(DeliveryPlan::WriteStore { text, confirmation }),
                Err(e) => Err(e),
            }
        },
    }
}

} // verus!
