//! The text form of the credentials store: one `[name]` header line per
//! section followed by one `key=value` line per entry.  Blank lines and lines
//! starting with `;` or `#` (comments) are accepted when reading and dropped
//! on the full-store rewrite.  A header line must close its bracket, a value
//! line must have a non-empty key before the first `=` and must stand inside
//! a section, and neither section names nor keys may repeat; anything else is
//! a malformed store.

use vstd::prelude::*;

use crate::chars::{find_char, first_index_of, push_char, str_eq};
use crate::errors::DeliveryError;
use crate::store::{
    CredStore, ProfileEntry, ProfileSection, SectionModel, entries_model, section_wf, store_wf,
};

verus! {

/// One rendered entry line, `key=value` and a newline.
pub open spec fn render_entry(e: (Seq<char>, Seq<char>)) -> Seq<char> {
    e.0 + seq!['='] + e.1 + seq!['\n']
}

/// The rendered entry lines of a section, in order.
pub open spec fn render_entries(es: Seq<(Seq<char>, Seq<char>)>) -> Seq<char>
    decreases es.len(),
{
    if es.len() == 0 {
        Seq::empty()
    } else {
        render_entry(es[0]) + render_entries(es.drop_first())
    }
}

/// One rendered section: its header line and its entry lines.
pub open spec fn render_section(s: SectionModel) -> Seq<char> {
    seq!['['] + s.name + seq![']', '\n'] + render_entries(s.entries)
}

/// The whole rendered store, sections in order.
pub open spec fn render_sections(m: Seq<SectionModel>) -> Seq<char>
    decreases m.len(),
{
    if m.len() == 0 {
        Seq::empty()
    } else {
        render_section(m[0]) + render_sections(m.drop_first())
    }
}

/// Renders the store into its full text, ready to replace the file's contents.
pub fn render_store(store: &CredStore) -> (r: String)
    ensures
        r@ == render_sections(store.model()),
{
    let ghost m = store.model();
    let mut out = String::new();
    let n = store.sections.len();
    let mut i: usize = 0;
    proof {
        assert(m.skip(0) =~= m);
        assert(out@ + render_sections(m) =~= render_sections(m));
    }
    while i < n
        invariant
            i <= n,
            n == store.sections@.len(),
            m == store.model(),
            out@ + render_sections(m.skip(i as int)) == render_sections(m),
        decreases n - i,
    {
        proof {
            assert(m.skip(i as int)[0] == m[i as int]);
            assert(m.skip(i as int).drop_first() =~= m.skip(i as int + 1));
        }
        push_char(&mut out, '[');
        out.append(store.sections[i].name.as_str());
        push_char(&mut out, ']');
        push_char(&mut out, '\n');
        let ghost es = m[i as int].entries;
        let en = store.sections[i].entries.len();
        let mut j: usize = 0;
        proof {
            assert(es.skip(0) =~= es);
            assert(out@ + render_entries(es) + render_sections(m.skip(i as int + 1))
                =~= render_sections(m));
        }
        while j < en
            invariant
                j <= en,
                i < n,
                n == store.sections@.len(),
                en == store.sections@[i as int].entries@.len(),
                m == store.model(),
                es == m[i as int].entries,
                out@ + render_entries(es.skip(j as int)) + render_sections(m.skip(i as int + 1))
                    == render_sections(m),
            decreases en - j,
        {
            proof {
                assert(es.skip(j as int)[0] == es[j as int]);
                assert(es.skip(j as int).drop_first() =~= es.skip(j as int + 1));
                assert(es[j as int] == entries_model(store.sections@[i as int].entries@)[j as int]);
            }
            out.append(store.sections[i].entries[j].key.as_str());
            push_char(&mut out, '=');
            out.append(store.sections[i].entries[j].value.as_str());
            push_char(&mut out, '\n');
            proof {
                assert(out@ + render_entries(es.skip(j as int + 1)) + render_sections(
                    m.skip(i as int + 1),
                ) =~= render_sections(m));
            }
            j += 1;
        }
        proof {
            assert(es.skip(en as int) =~= Seq::<(Seq<char>, Seq<char>)>::empty());
            assert(out@ + render_sections(m.skip(i as int + 1)) =~= render_sections(m));
        }
        i += 1;
    }
    proof {
        assert(m.skip(n as int) =~= Seq::<SectionModel>::empty());
        assert(out@ =~= render_sections(m));
    }
    out
}

/// The lines of `s`: split at every newline; the text after the last newline
/// (possibly empty) is the final line.
pub open spec fn split_rec(s: Seq<char>, cur: Seq<char>, acc: Seq<Seq<char>>) -> Seq<Seq<char>>
    decreases s.len(),
{
    if s.len() == 0 {
        acc.push(cur)
    } else if s[0] == '\n' {
        split_rec(s.drop_first(), Seq::empty(), acc.push(cur))
    } else {
        split_rec(s.drop_first(), cur.push(s[0]), acc)
    }
}

pub open spec fn split_lines(s: Seq<char>) -> Seq<Seq<char>> {
    split_rec(s, Seq::empty(), Seq::empty())
}

pub open spec fn lines_model(lines: Seq<String>) -> Seq<Seq<char>> {
    lines.map_values(|l: String| l@)
}

/// Splits the text into lines; no produced line carries a newline.
fn split_text_lines(text: &str) -> (r: Vec<String>)
    ensures
        lines_model(r@) == split_lines(text@),
        forall|i: int, j: int|
            0 <= i < r@.len() && 0 <= j < r@[i]@.len() ==> #[trigger] r@[i]@[j] != '\n',
{
    let n = text.unicode_len();
    let mut cur = String::new();
    let mut acc: Vec<String> = Vec::new();
    let mut i: usize = 0;
    proof {
        assert(text@.skip(0) =~= text@);
        assert(lines_model(acc@) =~= Seq::<Seq<char>>::empty());
    }
    while i < n
        invariant
            i <= n,
            n == text@.len(),
            split_rec(text@.skip(i as int), cur@, lines_model(acc@)) == split_lines(text@),
            forall|j: int| 0 <= j < cur@.len() ==> cur@[j] != '\n',
            forall|k: int, j: int|
                0 <= k < acc@.len() && 0 <= j < acc@[k]@.len() ==> #[trigger] acc@[k]@[j] != '\n',
        decreases n - i,
    {
        proof {
            assert(text@.skip(i as int)[0] == text@[i as int]);
            assert(text@.skip(i as int).drop_first() =~= text@.skip(i as int + 1));
        }
        let c = text.get_char(i);
        if c == '\n' {
            let ghost prev_acc = lines_model(acc@);
            let ghost prev_cur = cur@;
            acc.push(cur);
            cur = String::new();
            proof {
                assert(lines_model(acc@) =~= prev_acc.push(prev_cur));
            }
        } else {
            push_char(&mut cur, c);
        }
        proof {
            assert(split_rec(text@.skip(i as int + 1), cur@, lines_model(acc@)) == split_lines(
                text@,
            ));
        }
        i += 1;
    }
    proof {
        assert(text@.skip(n as int) =~= Seq::<char>::empty());
    }
    acc.push(cur);
    acc
}

/// Whether any section of `m` is named `name`.
pub open spec fn has_section(m: Seq<SectionModel>, name: Seq<char>) -> bool {
    exists|i: int| 0 <= i < m.len() && m[i].name == name
}

/// Whether the section already stores `key`.
pub open spec fn section_has_key(sec: SectionModel, key: Seq<char>) -> bool {
    exists|i: int| 0 <= i < sec.entries.len() && sec.entries[i].0 == key
}

/// What one line does to the store built so far: `None` is a malformed store.
pub open spec fn parse_line_step(m: Seq<SectionModel>, line: Seq<char>) -> Option<
    Seq<SectionModel>,
> {
    if line.len() == 0 || line[0] == ';' || line[0] == '#' {
        Some(m)
    } else if line[0] == '[' {
        if line.len() >= 2 && line.last() == ']' && !has_section(
            m,
            line.subrange(1, line.len() - 1),
        ) {
            Some(
                m.push(
                    SectionModel { name: line.subrange(1, line.len() - 1), entries: Seq::empty() },
                ),
            )
        } else {
            None
        }
    } else {
        match first_index_of(line, '=') {
            Some(idx) => {
                if idx == 0 || m.len() == 0 || section_has_key(m.last(), line.subrange(0, idx)) {
                    None
                } else {
                    Some(
                        m.update(
                            m.len() - 1,
                            SectionModel {
                                name: m.last().name,
                                entries: m.last().entries.push(
                                    (
                                        line.subrange(0, idx),
                                        line.subrange(idx + 1, line.len() as int),
                                    ),
                                ),
                            },
                        ),
                    )
                }
            },
            None => None,
        }
    }
}

/// Parses a list of lines on top of the store built so far.
pub open spec fn parse_rec(lines: Seq<Seq<char>>, m: Seq<SectionModel>) -> Option<Seq<SectionModel>>
    decreases lines.len(),
{
    if lines.len() == 0 {
        Some(m)
    } else {
        match parse_line_step(m, lines[0]) {
            Some(m2) => parse_rec(lines.drop_first(), m2),
            None => None,
        }
    }
}

/// What the full text parses to, if it is well formed.
pub open spec fn parse_store_spec(s: Seq<char>) -> Option<Seq<SectionModel>> {
    parse_rec(split_lines(s), Seq::empty())
}

/// Whether the section's entry list already stores `key`.
fn entries_contain_key(entries: &Vec<ProfileEntry>, key: &str) -> (r: bool)
    ensures
        r == section_has_key(
            SectionModel { name: Seq::empty(), entries: entries_model(entries@) },
            key@,
        ),
{
    let ghost es = entries_model(entries@);
    let n = entries.len();
    let mut i: usize = 0;
    while i < n
        invariant
            i <= n,
            n == entries@.len(),
            es == entries_model(entries@),
            forall|j: int| 0 <= j < i ==> es[j].0 != key@,
        decreases n - i,
    {
        if str_eq(entries[i].key.as_str(), key) {
            proof {
                let sec = SectionModel { name: Seq::empty(), entries: es };
                assert(sec.entries[i as int].0 == key@);
                assert(section_has_key(sec, key@));
            }
            return true;
        }
        i += 1;
    }
    proof {
        let sec = SectionModel { name: Seq::empty(), entries: es };
        assert(!section_has_key(sec, key@));
    }
    false
}

/// Whether any section of the store is named `name`.
fn store_contains_section(sections: &Vec<ProfileSection>, name: &str) -> (r: bool)
    ensures
        r == has_section(crate::store::sections_model(sections@), name@),
{
    let ghost m = crate::store::sections_model(sections@);
    let n = sections.len();
    let mut i: usize = 0;
    while i < n
        invariant
            i <= n,
            n == sections@.len(),
            m == crate::store::sections_model(sections@),
            forall|j: int| 0 <= j < i ==> m[j].name != name@,
        decreases n - i,
    {
        if str_eq(sections[i].name.as_str(), name) {
            proof {
                assert(m[i as int].name == name@);
            }
            return true;
        }
        i += 1;
    }
    false
}

/// Parses the full text of a credentials store.  Returns the parsed store —
/// well-formed, and storable, so that its rendering reads back — exactly when
/// the text is well formed, and reports a malformed store otherwise.
#[verifier::rlimit(100)]
pub fn parse_store(text: &str) -> (r: Result<CredStore, DeliveryError>)
    ensures
        match r {
            Ok(st) => parse_store_spec(text@) == Some(st.model()) && st.wf() && storable_store(
                st.model(),
            ),
            Err(e) => e matches DeliveryError::MalformedStore && parse_store_spec(text@)
                is None,
        },
{
    let lines = split_text_lines(text);
    let ghost all_lines = lines_model(lines@);
    let mut st = CredStore::new();
    let n = lines.len();
    let mut i: usize = 0;
    proof {
        assert(all_lines.skip(0) =~= all_lines);
    }
    while i < n
        invariant
            i <= n,
            n == lines@.len(),
            all_lines == lines_model(lines@),
            store_wf(st.model()),
            storable_store(st.model()),
            parse_rec(all_lines.skip(i as int), st.model()) == parse_store_spec(text@),
            forall|k: int, j: int|
                0 <= k < lines@.len() && 0 <= j < lines@[k]@.len() ==> #[trigger] lines@[k]@[j]
                    != '\n',
        decreases n - i,
    {
        let ghost m = st.model();
        let ghost line = all_lines[i as int];
        proof {
            assert(all_lines.skip(i as int)[0] == line);
            assert(all_lines.skip(i as int).drop_first() =~= all_lines.skip(i as int + 1));
        }
        let ln = lines[i].as_str();
        proof {
            assert(ln@ == line);
        }
        let llen = ln.unicode_len();
        if llen == 0 {
            // blank line: kept out of the model
        } else {
            let c0 = ln.get_char(0);
            if c0 == ';' || c0 == '#' {
                // comment line: kept out of the model
            } else if c0 == '[' {
                if llen >= 2 && ln.get_char(llen - 1) == ']' {
                    let name = ln.substring_char(1, llen - 1);
                    if store_contains_section(&st.sections, name) {
                        return Err(DeliveryError::MalformedStore);
                    }
                    let ghost pre = st.model();
                    let fresh_entries: Vec<ProfileEntry> = Vec::new();
                    proof {
                        assert(entries_model(fresh_entries@) =~= Seq::<(
                            Seq<char>,
                            Seq<char>,
                        )>::empty());
                    }
                    st.sections.push(
                        ProfileSection { name: String::from_str(name), entries: fresh_entries },
                    );
                    proof {
                        let fresh = SectionModel { name: name@, entries: Seq::empty() };
                        assert(st.model() =~~= pre.push(fresh));
                        assert(parse_line_step(m, line) == Some(st.model()));
                        assert(storable_name(fresh.name)) by {
                            assert forall|j: int| 0 <= j < fresh.name.len() implies fresh.name[j]
                                != '\n' by {
                                assert(fresh.name[j] == lines@[i as int]@[j + 1]);
                            }
                        }
                        assert forall|a: int| 0 <= a < st.model().len() implies storable_section(
                            #[trigger] st.model()[a],
                        ) by {
                            if a < pre.len() as int {
                                assert(st.model()[a] == pre[a]);
                            } else {
                                assert(st.model()[a] == fresh);
                            }
                        }
                        assert forall|a: int, b: int|
                            0 <= a < b < st.model().len() implies st.model()[a].name
                            != st.model()[b].name by {
                            if b < pre.len() as int {
                                assert(st.model()[a] == pre[a] && st.model()[b] == pre[b]);
                            } else {
                                assert(st.model()[a] == pre[a]);
                                assert(!(pre[a].name == fresh.name));
                            }
                        }
                        assert forall|a: int| 0 <= a < st.model().len() implies section_wf(
                            #[trigger] st.model()[a],
                        ) by {
                            if a < pre.len() as int {
                                assert(st.model()[a] == pre[a]);
                            }
                        }
                    }
                } else {
                    return Err(DeliveryError::MalformedStore);
                }
            } else {
                match find_char(ln, '=') {
                    Some(idx) => {
                        if idx == 0 {
                            return Err(DeliveryError::MalformedStore);
                        }
                        if st.sections.len() == 0 {
                            return Err(DeliveryError::MalformedStore);
                        }
                        let key = ln.substring_char(0, idx);
                        let value = ln.substring_char(idx + 1, llen);
                        let last = st.sections.len() - 1;
                        let hit = entries_contain_key(&st.sections[last].entries, key);
                        proof {
                            assert(m.last() == st.model()[last as int]);
                            assert(entries_model(st.sections@[last as int].entries@)
                                == m.last().entries);
                        }
                        proof {
                            let probe = SectionModel {
                                name: Seq::empty(),
                                entries: m.last().entries,
                            };
                            assert(section_has_key(probe, key@) == section_has_key(
                                m.last(),
                                key@,
                            )) by {
                                if section_has_key(probe, key@) {
                                    let w = choose|w: int|
                                        0 <= w < probe.entries.len() && probe.entries[w].0 == key@;
                                    assert(m.last().entries[w].0 == key@);
                                }
                                if section_has_key(m.last(), key@) {
                                    let w = choose|w: int|
                                        0 <= w < m.last().entries.len() && m.last().entries[w].0
                                            == key@;
                                    assert(probe.entries[w].0 == key@);
                                }
                            }
                        }
                        if hit {
                            return Err(DeliveryError::MalformedStore);
                        }
                        let ghost pre = st.model();
                        let mut sec = st.sections.remove(last);
                        sec.entries.push(
                            ProfileEntry {
                                key: String::from_str(key),
                                value: String::from_str(value),
                            },
                        );
                        st.sections.insert(last, sec);
                        proof {
                            let updated = SectionModel {
                                name: pre.last().name,
                                entries: pre.last().entries.push((key@, value@)),
                            };
                            assert(st.model() =~~= pre.update(last as int, updated));
                            assert(parse_line_step(m, line) == Some(st.model()));
                            assert(storable_key(key@)) by {
                                assert(key@[0] == lines@[i as int]@[0]);
                                assert forall|j: int| 0 <= j < key@.len() implies key@[j] != '\n'
                                    && key@[j] != '=' by {
                                    assert(key@[j] == lines@[i as int]@[j]);
                                    assert(line[j] != '=');
                                }
                            }
                            assert(storable_value(value@)) by {
                                assert forall|j: int| 0 <= j < value@.len() implies value@[j]
                                    != '\n' by {
                                    assert(value@[j] == lines@[i as int]@[j + idx + 1]);
                                }
                            }
                            assert forall|a: int| 0 <= a < st.model().len() implies
                                storable_section(#[trigger] st.model()[a]) by {
                                if a != last as int {
                                    assert(st.model()[a] == pre[a]);
                                } else {
                                    assert(st.model()[a] == updated);
                                    assert(storable_section(pre[a]));
                                    assert forall|x: int|
                                        0 <= x < updated.entries.len() implies storable_key(
                                        #[trigger] updated.entries[x].0,
                                    ) && storable_value(updated.entries[x].1) by {
                                        if x < updated.entries.len() - 1 {
                                            assert(updated.entries[x] == pre.last().entries[x]);
                                        }
                                    }
                                }
                            }
                            assert forall|a: int, b: int|
                                0 <= a < b < st.model().len() implies st.model()[a].name
                                != st.model()[b].name by {
                                assert(st.model()[a].name == pre[a].name);
                                assert(st.model()[b].name == pre[b].name);
                            }
                            assert forall|a: int| 0 <= a < st.model().len() implies section_wf(
                                #[trigger] st.model()[a],
                            ) by {
                                if a < last as int {
                                    assert(st.model()[a] == pre[a]);
                                } else {
                                    assert(st.model()[a] == updated);
                                    assert(section_wf(pre[a]));
                                    let es2 = updated.entries;
                                    assert forall|x: int, y: int|
                                        0 <= x < y < es2.len() implies es2[x].0 != es2[y].0 by {
                                        if y < es2.len() - 1 {
                                            assert(es2[x] == pre.last().entries[x]);
                                            assert(es2[y] == pre.last().entries[y]);
                                        } else {
                                            assert(es2[x] == pre.last().entries[x]);
                                            assert(!section_has_key(pre.last(), key@));
                                        }
                                    }
                                }
                            }
                        }
                    },
                    None => {
                        return Err(DeliveryError::MalformedStore);
                    },
                }
            }
        }
        proof {
            assert(parse_rec(all_lines.skip(i as int + 1), st.model()) == parse_store_spec(text@));
        }
        i += 1;
    }
    proof {
        assert(all_lines.skip(n as int) =~= Seq::<Seq<char>>::empty());
    }
    Ok(st)
}

} // verus!
// The round trip: a well-formed store whose names, keys and values fit the
// line-based format parses back, from its own rendering, to exactly itself.

verus! {

/// A section name the format can carry: no newline (the brackets close it).
pub open spec fn storable_name(name: Seq<char>) -> bool {
    forall|i: int| 0 <= i < name.len() ==> name[i] != '\n'
}

/// A key the format can carry: non-empty, free of newlines and `=`, and not
/// opening like a header or a comment.
pub open spec fn storable_key(k: Seq<char>) -> bool {
    &&& k.len() > 0
    &&& forall|i: int| 0 <= i < k.len() ==> k[i] != '\n' && k[i] != '='
    &&& k[0] != '['
    &&& k[0] != ';'
    &&& k[0] != '#'
}

/// A value the format can carry: free of newlines.
pub open spec fn storable_value(v: Seq<char>) -> bool {
    forall|i: int| 0 <= i < v.len() ==> v[i] != '\n'
}

pub open spec fn storable_section(s: SectionModel) -> bool {
    &&& storable_name(s.name)
    &&& forall|i: int|
        0 <= i < s.entries.len() ==> storable_key(#[trigger] s.entries[i].0) && storable_value(
            s.entries[i].1,
        )
}

pub open spec fn storable_store(m: Seq<SectionModel>) -> bool {
    forall|i: int| 0 <= i < m.len() ==> storable_section(#[trigger] m[i])
}

/// The header line of a section.
pub open spec fn header_line(name: Seq<char>) -> Seq<char> {
    seq!['['] + name + seq![']']
}

/// The entry lines of a section, one per entry, in order.
pub open spec fn entry_lines(es: Seq<(Seq<char>, Seq<char>)>) -> Seq<Seq<char>>
    decreases es.len(),
{
    if es.len() == 0 {
        Seq::empty()
    } else {
        seq![es[0].0 + seq!['='] + es[0].1] + entry_lines(es.drop_first())
    }
}

/// The lines of the whole rendered store, in order, without the final empty
/// line that the trailing newline produces.
pub open spec fn store_lines(m: Seq<SectionModel>) -> Seq<Seq<char>>
    decreases m.len(),
{
    if m.len() == 0 {
        Seq::empty()
    } else {
        seq![header_line(m[0].name)] + entry_lines(m[0].entries) + store_lines(m.drop_first())
    }
}

/// Splitting consumes one newline-free line at a time.
proof fn lemma_split_one_line(line: Seq<char>, rest: Seq<char>, cur: Seq<char>, acc: Seq<Seq<char>>)
    requires
        forall|i: int| 0 <= i < line.len() ==> line[i] != '\n',
    ensures
        split_rec(line + seq!['\n'] + rest, cur, acc) == split_rec(rest, Seq::empty(), acc.push(cur + line)),
    decreases line.len(),
{
    let whole = line + seq!['\n'] + rest;
    if line.len() == 0 {
        assert(whole =~= seq!['\n'] + rest);
        assert(whole[0] == '\n');
        assert(whole.drop_first() =~= rest);
        assert(cur + line =~= cur);
    } else {
        let c = line[0];
        assert(whole[0] == c);
        assert(c != '\n');
        assert(whole.drop_first() =~= line.drop_first() + seq!['\n'] + rest);
        lemma_split_one_line(line.drop_first(), rest, cur.push(c), acc);
        assert(cur.push(c) + line.drop_first() =~= cur + line);
    }
}

/// Splitting the rendered entry lines peels off `entry_lines`.
proof fn lemma_split_entries(es: Seq<(Seq<char>, Seq<char>)>, rest: Seq<char>, acc: Seq<Seq<char>>)
    requires
        forall|i: int|
            0 <= i < es.len() ==> storable_key(#[trigger] es[i].0) && storable_value(es[i].1),
    ensures
        split_rec(render_entries(es) + rest, Seq::empty(), acc) == split_rec(
            rest,
            Seq::empty(),
            acc + entry_lines(es),
        ),
    decreases es.len(),
{
    if es.len() == 0 {
        assert(render_entries(es) + rest =~= rest);
        assert(acc + entry_lines(es) =~= acc);
    } else {
        let line = es[0].0 + seq!['='] + es[0].1;
        assert(forall|i: int| 0 <= i < line.len() ==> line[i] != '\n') by {
            assert forall|i: int| 0 <= i < line.len() implies line[i] != '\n' by {
                if i < es[0].0.len() {
                    assert(line[i] == es[0].0[i]);
                } else if i == es[0].0.len() {
                    assert(line[i] == '=');
                } else {
                    assert(line[i] == es[0].1[i - es[0].0.len() - 1]);
                }
            }
        }
        assert(render_entries(es) + rest =~= line + seq!['\n'] + (render_entries(es.drop_first())
            + rest)) by {
            assert(render_entry(es[0]) =~= line + seq!['\n']);
        }
        lemma_split_one_line(line, render_entries(es.drop_first()) + rest, Seq::empty(), acc);
        assert(Seq::<char>::empty() + line =~= line);
        lemma_split_entries(es.drop_first(), rest, acc.push(line));
        assert(acc.push(line) + entry_lines(es.drop_first()) =~= acc + entry_lines(es)) by {
            assert(entry_lines(es) =~= seq![line] + entry_lines(es.drop_first()));
        }
    }
}

/// Splitting the rendered store yields its lines and one final empty line.
proof fn lemma_split_render(m: Seq<SectionModel>, acc: Seq<Seq<char>>)
    requires
        storable_store(m),
    ensures
        split_rec(render_sections(m), Seq::empty(), acc) == acc + store_lines(m) + seq![
            Seq::<char>::empty(),
        ],
    decreases m.len(),
{
    if m.len() == 0 {
        assert(render_sections(m) =~= Seq::<char>::empty());
        assert(split_rec(render_sections(m), Seq::empty(), acc) == acc.push(Seq::<char>::empty()));
        assert(acc.push(Seq::<char>::empty()) =~= acc + store_lines(m) + seq![Seq::<char>::empty()]);
    } else {
        let s = m[0];
        assert(storable_section(s));
        let header = header_line(s.name);
        assert(forall|i: int| 0 <= i < header.len() ==> header[i] != '\n') by {
            assert forall|i: int| 0 <= i < header.len() implies header[i] != '\n' by {
                if i == 0 {
                    assert(header[i] == '[');
                } else if i < header.len() - 1 {
                    assert(header[i] == s.name[i - 1]);
                } else {
                    assert(header[i] == ']');
                }
            }
        }
        let tail = render_entries(s.entries) + render_sections(m.drop_first());
        assert(render_sections(m) =~= header + seq!['\n'] + tail) by {
            assert(render_section(s) =~= header + seq!['\n'] + render_entries(s.entries));
        }
        lemma_split_one_line(header, tail, Seq::empty(), acc);
        assert(Seq::<char>::empty() + header =~= header);
        lemma_split_entries(s.entries, render_sections(m.drop_first()), acc.push(header));
        assert(forall|i: int| 0 <= i < m.drop_first().len() ==> #[trigger] m.drop_first()[i]
            == m[i + 1]);
        lemma_split_render(m.drop_first(), acc.push(header) + entry_lines(s.entries));
        assert(acc.push(header) + entry_lines(s.entries) + store_lines(m.drop_first()) + seq![
            Seq::<char>::empty(),
        ] =~= acc + store_lines(m) + seq![Seq::<char>::empty()]) by {
            assert(store_lines(m) =~= seq![header] + entry_lines(s.entries) + store_lines(
                m.drop_first(),
            ));
        }
    }
}

/// Parsing the entry lines of one section fills exactly that section.
proof fn lemma_parse_entry_lines(
    done: Seq<SectionModel>,
    partial: SectionModel,
    pending: Seq<(Seq<char>, Seq<char>)>,
    tail: Seq<Seq<char>>,
)
    requires
        forall|i: int|
            0 <= i < pending.len() ==> storable_key(#[trigger] pending[i].0) && storable_value(
                pending[i].1,
            ),
        section_wf(
            SectionModel { name: partial.name, entries: partial.entries + pending },
        ),
    ensures
        parse_rec(entry_lines(pending) + tail, done.push(partial)) == parse_rec(
            tail,
            done.push(SectionModel { name: partial.name, entries: partial.entries + pending }),
        ),
    decreases pending.len(),
{
    if pending.len() == 0 {
        assert(entry_lines(pending) + tail =~= tail);
        assert(partial.entries + pending =~= partial.entries);
        assert(done.push(SectionModel { name: partial.name, entries: partial.entries + pending })
            =~= done.push(partial));
    } else {
        let k = pending[0].0;
        let v = pending[0].1;
        let line = k + seq!['='] + v;
        let lines = entry_lines(pending) + tail;
        assert(lines[0] == line) by {
            assert(entry_lines(pending) =~= seq![line] + entry_lines(pending.drop_first()));
        }
        assert(lines.drop_first() =~= entry_lines(pending.drop_first()) + tail) by {
            assert(entry_lines(pending) =~= seq![line] + entry_lines(pending.drop_first()));
        }
        // the line is a key/value line, not blank, comment or header
        assert(line.len() > 0);
        assert(line[0] == k[0]);
        // the first '=' stands exactly after the key
        assert(line[k.len() as int] == '=');
        assert(forall|j: int| 0 <= j < k.len() ==> line[j] == k[j]);
        crate::chars::lemma_first_index_unique(line, '=', k.len() as int);
        let acc = done.push(partial);
        assert(acc.last() == partial);
        assert(line.subrange(0, k.len() as int) =~= k);
        assert(line.subrange(k.len() as int + 1, line.len() as int) =~= v);
        // the key is not yet stored in the partial section
        assert(!section_has_key(partial, k)) by {
            if section_has_key(partial, k) {
                let w = choose|w: int|
                    0 <= w < partial.entries.len() && partial.entries[w].0 == k;
                let whole = partial.entries + pending;
                assert(whole[w].0 == k);
                assert(whole[partial.entries.len() as int].0 == k);
                let sec_whole = SectionModel { name: partial.name, entries: whole };
                assert(section_wf(sec_whole));
                assert(sec_whole.entries[w].0 != sec_whole.entries[
                    partial.entries.len() as int
                ].0);
                assert(false);
            }
        }
        let partial2 = SectionModel { name: partial.name, entries: partial.entries.push((k, v)) };
        assert(parse_line_step(acc, line) == Some(acc.update(acc.len() - 1, partial2)));
        assert(acc.update(acc.len() - 1, partial2) =~= done.push(partial2));
        assert(partial2.entries + pending.drop_first() =~= partial.entries + pending);
        lemma_parse_entry_lines(done, partial2, pending.drop_first(), tail);
    }
}

/// Parsing the rendered lines of the remaining sections appends exactly them.
proof fn lemma_parse_store_lines(
    done: Seq<SectionModel>,
    todo: Seq<SectionModel>,
    tail: Seq<Seq<char>>,
)
    requires
        store_wf(done + todo),
        storable_store(todo),
    ensures
        parse_rec(store_lines(todo) + tail, done) == parse_rec(tail, done + todo),
    decreases todo.len(),
{
    if todo.len() == 0 {
        assert(store_lines(todo) + tail =~= tail);
        assert(done + todo =~= done);
    } else {
        let s = todo[0];
        assert(storable_section(s));
        let header = header_line(s.name);
        let lines = store_lines(todo) + tail;
        assert(store_lines(todo) =~= seq![header] + entry_lines(s.entries) + store_lines(
            todo.drop_first(),
        ));
        assert(lines[0] == header);
        assert(lines.drop_first() =~= entry_lines(s.entries) + (store_lines(todo.drop_first())
            + tail));
        // the header line parses as a fresh section named after s
        assert(header.len() >= 2);
        assert(header[0] == '[');
        assert(header.last() == ']');
        assert(header[0] != ';' && header[0] != '#');
        assert(header.subrange(1, header.len() - 1) =~= s.name);
        assert(!has_section(done, s.name)) by {
            if has_section(done, s.name) {
                let w = choose|w: int| 0 <= w < done.len() && done[w].name == s.name;
                let whole = done + todo;
                assert(whole[w].name == s.name);
                assert(whole[done.len() as int].name == s.name);
                assert(!store_wf(whole));
            }
        }
        let fresh = SectionModel { name: s.name, entries: Seq::empty() };
        assert(parse_line_step(done, header) == Some(done.push(fresh)));
        assert(section_wf(SectionModel { name: fresh.name, entries: fresh.entries + s.entries }))
            by {
            assert(fresh.entries + s.entries =~= s.entries);
            assert(done + todo =~= done + todo);
            assert((done + todo)[done.len() as int] == s);
            assert(section_wf(s));
        }
        lemma_parse_entry_lines(done, fresh, s.entries, store_lines(todo.drop_first()) + tail);
        assert(fresh.entries + s.entries =~= s.entries);
        assert(SectionModel { name: fresh.name, entries: fresh.entries + s.entries } =~= s);
        assert(done.push(SectionModel { name: fresh.name, entries: fresh.entries + s.entries })
            =~= done.push(s));
        assert(done.push(s) + todo.drop_first() =~= done + todo);
        assert(store_wf(done.push(s) + todo.drop_first()));
        assert(storable_store(todo.drop_first())) by {
            assert(forall|i: int| 0 <= i < todo.drop_first().len() ==> #[trigger] todo.drop_first()[i]
                == todo[i + 1]);
        }
        lemma_parse_store_lines(done.push(s), todo.drop_first(), tail);
    }
}

/// Law: the store's delivery to its file is a full round trip.  Rendering a
/// well-formed store whose names, keys and values the line format can carry,
/// and parsing the rendered text back, yields exactly the same store.
pub proof fn lemma_store_text_round_trip(m: Seq<SectionModel>)
    requires
        store_wf(m),
        storable_store(m),
    ensures
        parse_store_spec(render_sections(m)) == Some(m),
{
    lemma_split_render(m, Seq::empty());
    assert(split_lines(render_sections(m)) == Seq::<Seq<char>>::empty() + store_lines(m) + seq![
        Seq::<char>::empty(),
    ]);
    let tail = seq![Seq::<char>::empty()];
    assert(Seq::<Seq<char>>::empty() + store_lines(m) + tail =~= store_lines(m) + tail);
    assert(Seq::<SectionModel>::empty() + m =~= m);
    lemma_parse_store_lines(Seq::empty(), m, tail);
    assert(parse_rec(tail, m) == Some(m)) by {
        assert(tail[0] =~= Seq::<char>::empty());
        assert(tail[0].len() == 0);
        assert(parse_line_step(m, tail[0]) == Some(m));
        assert(tail.drop_first() =~= Seq::<Seq<char>>::empty());
        assert(parse_rec(tail.drop_first(), m) == Some(m));
    }
}

} // verus!

verus! {

/// The three credential keys fit the line format.
proof fn lemma_credential_keys_storable()
    ensures
        storable_key(crate::store::access_key_id_key()),
        storable_key(crate::store::secret_access_key_key()),
        storable_key(crate::store::session_token_key()),
{
    reveal_strlit("aws_access_key_id");
    reveal_strlit("aws_secret_access_key");
    reveal_strlit("aws_session_token");
}

/// Setting a storable key to a storable value keeps the entries storable.
proof fn lemma_set_entry_storable(
    entries: Seq<(Seq<char>, Seq<char>)>,
    key: Seq<char>,
    value: Seq<char>,
)
    requires
        forall|i: int|
            0 <= i < entries.len() ==> storable_key(#[trigger] entries[i].0) && storable_value(
                entries[i].1,
            ),
        storable_key(key),
        storable_value(value),
    ensures
        forall|i: int|
            0 <= i < crate::store::set_entry(entries, key, value).len() ==> storable_key(
                #[trigger] crate::store::set_entry(entries, key, value)[i].0,
            ) && storable_value(crate::store::set_entry(entries, key, value)[i].1),
    decreases entries.len(),
{
    let se = crate::store::set_entry(entries, key, value);
    if entries.len() == 0 {
        assert(se =~= seq![(key, value)]);
    } else if entries[0].0 == key {
        assert(se =~= seq![(key, value)] + entries.drop_first());
        assert forall|i: int| 0 <= i < se.len() implies storable_key(#[trigger] se[i].0)
            && storable_value(se[i].1) by {
            if i > 0 {
                assert(se[i] == entries[i]);
            }
        }
    } else {
        lemma_set_entry_storable(entries.drop_first(), key, value);
        let rest = crate::store::set_entry(entries.drop_first(), key, value);
        assert(se =~= seq![entries[0]] + rest);
        assert forall|i: int| 0 <= i < se.len() implies storable_key(#[trigger] se[i].0)
            && storable_value(se[i].1) by {
            if i > 0 {
                assert(se[i] == rest[i - 1]);
            }
        }
    }
}

/// Upserting a storable profile with storable values keeps the store storable.
pub proof fn lemma_upsert_preserves_storable(
    m: Seq<SectionModel>,
    profile: Seq<char>,
    access_key_id: Seq<char>,
    secret_access_key: Seq<char>,
    session_token: Seq<char>,
)
    requires
        storable_store(m),
        storable_name(profile),
        storable_value(access_key_id),
        storable_value(secret_access_key),
        storable_value(session_token),
    ensures
        storable_store(
            crate::store::upsert_credentials_model(
                m,
                profile,
                access_key_id,
                secret_access_key,
                session_token,
            ),
        ),
    decreases m.len(),
{
    let u = crate::store::upsert_credentials_model(
        m,
        profile,
        access_key_id,
        secret_access_key,
        session_token,
    );
    lemma_credential_keys_storable();
    if m.len() == 0 {
        let base = Seq::<(Seq<char>, Seq<char>)>::empty();
        lemma_set_entry_storable(base, crate::store::access_key_id_key(), access_key_id);
        lemma_set_entry_storable(
            crate::store::set_entry(base, crate::store::access_key_id_key(), access_key_id),
            crate::store::secret_access_key_key(),
            secret_access_key,
        );
        lemma_set_entry_storable(
            crate::store::set_entry(
                crate::store::set_entry(base, crate::store::access_key_id_key(), access_key_id),
                crate::store::secret_access_key_key(),
                secret_access_key,
            ),
            crate::store::session_token_key(),
            session_token,
        );
    } else if m[0].name == profile {
        let base = m[0].entries;
        assert(storable_section(m[0]));
        assert forall|i: int|
            0 <= i < base.len() implies storable_key(#[trigger] base[i].0) && storable_value(
            base[i].1,
        ) by {
            assert(m[0].entries[i] == base[i]);
        }
        lemma_set_entry_storable(base, crate::store::access_key_id_key(), access_key_id);
        lemma_set_entry_storable(
            crate::store::set_entry(base, crate::store::access_key_id_key(), access_key_id),
            crate::store::secret_access_key_key(),
            secret_access_key,
        );
        lemma_set_entry_storable(
            crate::store::set_entry(
                crate::store::set_entry(base, crate::store::access_key_id_key(), access_key_id),
                crate::store::secret_access_key_key(),
                secret_access_key,
            ),
            crate::store::session_token_key(),
            session_token,
        );
        assert forall|i: int| 0 <= i < u.len() implies storable_section(#[trigger] u[i]) by {
            if i > 0 {
                assert(u[i] == m[i]);
            }
        }
    } else {
        assert(forall|i: int| 0 <= i < m.drop_first().len() ==> #[trigger] m.drop_first()[i]
            == m[i + 1]);
        lemma_upsert_preserves_storable(
            m.drop_first(),
            profile,
            access_key_id,
            secret_access_key,
            session_token,
        );
        let rest = crate::store::upsert_credentials_model(
            m.drop_first(),
            profile,
            access_key_id,
            secret_access_key,
            session_token,
        );
        assert forall|i: int| 0 <= i < u.len() implies storable_section(#[trigger] u[i]) by {
            if i == 0 {
                assert(u[0] == m[0]);
            } else {
                assert(u[i] == rest[i - 1]);
            }
        }
    }
}

/// Law: a profile delivery is a full round trip through the store's file.
/// Upserting a profile into a well-formed, storable store, writing the full
/// rendering back, and parsing the file's new contents yields exactly the
/// upserted store — the target profile carries the three written values and
/// everything else reads as before.
pub proof fn lemma_delivery_round_trip(
    m: Seq<SectionModel>,
    profile: Seq<char>,
    access_key_id: Seq<char>,
    secret_access_key: Seq<char>,
    session_token: Seq<char>,
)
    requires
        store_wf(m),
        storable_store(m),
        storable_name(profile),
        storable_value(access_key_id),
        storable_value(secret_access_key),
        storable_value(session_token),
    ensures
        ({
            let u = crate::store::upsert_credentials_model(
                m,
                profile,
                access_key_id,
                secret_access_key,
                session_token,
            );
            parse_store_spec(render_sections(u)) == Some(u)
        }),
{
    let u = crate::store::upsert_credentials_model(
        m,
        profile,
        access_key_id,
        secret_access_key,
        session_token,
    );
    crate::store::lemma_upsert_preserves_wf(
        m,
        profile,
        access_key_id,
        secret_access_key,
        session_token,
    );
    lemma_upsert_preserves_storable(m, profile, access_key_id, secret_access_key, session_token);
    lemma_store_text_round_trip(u);
}

} // verus!
