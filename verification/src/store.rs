//! The in-memory model of the credentials store: an ordered list of named
//! sections (profiles), each an ordered list of key/value entries.  The engine
//! reads the full store, upserts exactly the three credential keys of one
//! profile, and writes the full store back; every other section and entry is
//! left as loaded.

use vstd::prelude::*;

use crate::chars::str_eq;

verus! {

/// One `key = value` entry of a profile section.
#[derive(Clone, Debug)]
pub struct ProfileEntry {
    pub key: String,
    pub value: String,
}

/// One named profile section.
#[derive(Clone, Debug)]
pub struct ProfileSection {
    pub name: String,
    pub entries: Vec<ProfileEntry>,
}

/// The whole store, sections in file order.
#[derive(Clone, Debug)]
pub struct CredStore {
    pub sections: Vec<ProfileSection>,
}

/// The mathematical value of a section.
#[verifier::ext_equal]
pub ghost struct SectionModel {
    pub name: Seq<char>,
    pub entries: Seq<(Seq<char>, Seq<char>)>,
}

impl ProfileEntry {
    pub open spec fn model(&self) -> (Seq<char>, Seq<char>) {
        (self.key@, self.value@)
    }
}

/// The mathematical value of an entry list.
pub open spec fn entries_model(entries: Seq<ProfileEntry>) -> Seq<(Seq<char>, Seq<char>)> {
    entries.map_values(|e: ProfileEntry| e.model())
}

/// The mathematical value of a section list.
pub open spec fn sections_model(sections: Seq<ProfileSection>) -> Seq<SectionModel> {
    sections.map_values(|s: ProfileSection| s.model())
}

impl ProfileSection {
    pub open spec fn model(&self) -> SectionModel {
        SectionModel { name: self.name@, entries: entries_model(self.entries@) }
    }
}

impl CredStore {
    pub open spec fn model(&self) -> Seq<SectionModel> {
        sections_model(self.sections@)
    }

    /// Well-formedness: section names unique, keys unique within a section.
    pub open spec fn wf(&self) -> bool {
        store_wf(self.model())
    }
}

/// Keys unique within the section.
pub open spec fn section_wf(s: SectionModel) -> bool {
    forall|i: int, j: int| 0 <= i < j < s.entries.len() ==> s.entries[i].0 != s.entries[j].0
}

/// Section names unique, every section well-formed.
pub open spec fn store_wf(m: Seq<SectionModel>) -> bool {
    &&& forall|i: int, j: int| 0 <= i < j < m.len() ==> m[i].name != m[j].name
    &&& forall|i: int| 0 <= i < m.len() ==> section_wf(#[trigger] m[i])
}

/// The value stored under `key` in the section, if any (first match).
pub open spec fn lookup_entry(entries: Seq<(Seq<char>, Seq<char>)>, key: Seq<char>) -> Option<
    Seq<char>,
>
    decreases entries.len(),
{
    if entries.len() == 0 {
        None
    } else if entries[0].0 == key {
        Some(entries[0].1)
    } else {
        lookup_entry(entries.drop_first(), key)
    }
}

/// The section named `name`, if any (first match).
pub open spec fn lookup_section(m: Seq<SectionModel>, name: Seq<char>) -> Option<SectionModel>
    decreases m.len(),
{
    if m.len() == 0 {
        None
    } else if m[0].name == name {
        Some(m[0])
    } else {
        lookup_section(m.drop_first(), name)
    }
}

/// Sets `key` to `value`: replaces the first entry with that key in place,
/// or appends a new entry when the key is absent.
pub open spec fn set_entry(
    entries: Seq<(Seq<char>, Seq<char>)>,
    key: Seq<char>,
    value: Seq<char>,
) -> Seq<(Seq<char>, Seq<char>)>
    decreases entries.len(),
{
    if entries.len() == 0 {
        seq![(key, value)]
    } else if entries[0].0 == key {
        seq![(key, value)] + entries.drop_first()
    } else {
        seq![entries[0]] + set_entry(entries.drop_first(), key, value)
    }
}

/// The three credential keys, as written in the store.
pub open spec fn access_key_id_key() -> Seq<char> {
    "aws_access_key_id"@
}

pub open spec fn secret_access_key_key() -> Seq<char> {
    "aws_secret_access_key"@
}

pub open spec fn session_token_key() -> Seq<char> {
    "aws_session_token"@
}

/// Sets the three credential keys of a section's entries, in the fixed order
/// access key id, secret access key, session token.
pub open spec fn set_credential_entries(
    entries: Seq<(Seq<char>, Seq<char>)>,
    access_key_id: Seq<char>,
    secret_access_key: Seq<char>,
    session_token: Seq<char>,
) -> Seq<(Seq<char>, Seq<char>)> {
    set_entry(
        set_entry(
            set_entry(entries, access_key_id_key(), access_key_id),
            secret_access_key_key(),
            secret_access_key,
        ),
        session_token_key(),
        session_token,
    )
}

/// Upserts the three credential keys under the profile named `profile`:
/// updates the first section with that name in place, or appends a fresh
/// section at the end when none exists.
pub open spec fn upsert_credentials_model(
    m: Seq<SectionModel>,
    profile: Seq<char>,
    access_key_id: Seq<char>,
    secret_access_key: Seq<char>,
    session_token: Seq<char>,
) -> Seq<SectionModel>
    decreases m.len(),
{
    if m.len() == 0 {
        seq![
            SectionModel {
                name: profile,
                entries: set_credential_entries(
                    Seq::empty(),
                    access_key_id,
                    secret_access_key,
                    session_token,
                ),
            },
        ]
    } else if m[0].name == profile {
        seq![
            SectionModel {
                name: profile,
                entries: set_credential_entries(
                    m[0].entries,
                    access_key_id,
                    secret_access_key,
                    session_token,
                ),
            },
        ] + m.drop_first()
    } else {
        seq![m[0]] + upsert_credentials_model(
            m.drop_first(),
            profile,
            access_key_id,
            secret_access_key,
            session_token,
        )
    }
}

/// When the first matching key stands at `i`, setting replaces that entry.
proof fn lemma_set_entry_found(
    entries: Seq<(Seq<char>, Seq<char>)>,
    key: Seq<char>,
    value: Seq<char>,
    i: int,
)
    requires
        0 <= i < entries.len(),
        entries[i].0 == key,
        forall|j: int| 0 <= j < i ==> entries[j].0 != key,
    ensures
        set_entry(entries, key, value) =~= entries.update(i, (key, value)),
    decreases i,
{
    if i == 0 {
    } else {
        lemma_set_entry_found(entries.drop_first(), key, value, i - 1);
        assert(entries.drop_first().update(i - 1, (key, value)) =~= entries.update(
            i,
            (key, value),
        ).drop_first());
    }
}

/// When the key is absent, setting appends the entry.
proof fn lemma_set_entry_absent(
    entries: Seq<(Seq<char>, Seq<char>)>,
    key: Seq<char>,
    value: Seq<char>,
)
    requires
        forall|j: int| 0 <= j < entries.len() ==> entries[j].0 != key,
    ensures
        set_entry(entries, key, value) =~= entries.push((key, value)),
    decreases entries.len(),
{
    if entries.len() == 0 {
    } else {
        lemma_set_entry_absent(entries.drop_first(), key, value);
        assert(entries.drop_first().push((key, value)) =~= entries.push((key, value)).drop_first());
    }
}

/// When the first matching section stands at `i`, upserting updates it in place.
proof fn lemma_upsert_found(
    m: Seq<SectionModel>,
    profile: Seq<char>,
    access_key_id: Seq<char>,
    secret_access_key: Seq<char>,
    session_token: Seq<char>,
    i: int,
)
    requires
        0 <= i < m.len(),
        m[i].name == profile,
        forall|j: int| 0 <= j < i ==> m[j].name != profile,
    ensures
        upsert_credentials_model(m, profile, access_key_id, secret_access_key, session_token)
            =~= m.update(
            i,
            SectionModel {
                name: profile,
                entries: set_credential_entries(
                    m[i].entries,
                    access_key_id,
                    secret_access_key,
                    session_token,
                ),
            },
        ),
    decreases i,
{
    if i == 0 {
    } else {
        lemma_upsert_found(
            m.drop_first(),
            profile,
            access_key_id,
            secret_access_key,
            session_token,
            i - 1,
        );
        let updated = SectionModel {
            name: profile,
            entries: set_credential_entries(
                m[i].entries,
                access_key_id,
                secret_access_key,
                session_token,
            ),
        };
        assert(m.drop_first().update(i - 1, updated) =~= m.update(i, updated).drop_first());
    }
}

/// When no section carries the profile name, upserting appends a fresh one.
proof fn lemma_upsert_absent(
    m: Seq<SectionModel>,
    profile: Seq<char>,
    access_key_id: Seq<char>,
    secret_access_key: Seq<char>,
    session_token: Seq<char>,
)
    requires
        forall|j: int| 0 <= j < m.len() ==> m[j].name != profile,
    ensures
        upsert_credentials_model(m, profile, access_key_id, secret_access_key, session_token)
            =~= m.push(
            SectionModel {
                name: profile,
                entries: set_credential_entries(
                    Seq::empty(),
                    access_key_id,
                    secret_access_key,
                    session_token,
                ),
            },
        ),
    decreases m.len(),
{
    let fresh = SectionModel {
        name: profile,
        entries: set_credential_entries(
            Seq::empty(),
            access_key_id,
            secret_access_key,
            session_token,
        ),
    };
    if m.len() == 0 {
    } else {
        lemma_upsert_absent(
            m.drop_first(),
            profile,
            access_key_id,
            secret_access_key,
            session_token,
        );
        assert(m.drop_first().push(fresh) =~= m.push(fresh).drop_first());
    }
}

/// Sets `key` to `value` in the entry list: the first entry with that key is
/// replaced in place, or a new entry is appended when the key is absent.
pub fn set_key(entries: &mut Vec<ProfileEntry>, key: &str, value: &str)
    ensures
        entries_model(final(entries)@) == set_entry(
            entries_model(old(entries)@),
            key@,
            value@,
        ),
{
    let ghost es = entries_model(old(entries)@);
    let n = entries.len();
    let mut i: usize = 0;
    while i < n
        invariant
            i <= n,
            n == old(entries)@.len(),
            es == entries_model(old(entries)@),
            entries@ == old(entries)@,
            forall|j: int| 0 <= j < i ==> es[j].0 != key@,
        decreases n - i,
    {
        if str_eq(entries[i].key.as_str(), key) {
            entries.remove(i);
            entries.insert(i, ProfileEntry { key: String::from_str(key), value: String::from_str(value) });
            proof {
                lemma_set_entry_found(es, key@, value@, i as int);
                assert(entries_model(entries@) =~~= es.update(i as int, (key@, value@)));
            }
            return;
        }
        i += 1;
    }
    entries.push(ProfileEntry { key: String::from_str(key), value: String::from_str(value) });
    proof {
        lemma_set_entry_absent(es, key@, value@);
        assert(entries_model(entries@) =~~= es.push((key@, value@)));
    }
}

impl CredStore {
    /// An empty store.
    pub fn new() -> (r: CredStore)
        ensures
            r.model() == Seq::<SectionModel>::empty(),
            r.wf(),
    {
        let r = CredStore { sections: Vec::new() };
        proof {
            assert(r.model() =~= Seq::<SectionModel>::empty());
        }
        r
    }

    /// Upserts the three credential keys of one profile, leaving every other
    /// section and every unrelated key of the target section as they were.
    pub fn upsert_credentials(
        &mut self,
        profile: &str,
        access_key_id: &str,
        secret_access_key: &str,
        session_token: &str,
    )
        ensures
            final(self).model() == upsert_credentials_model(
                old(self).model(),
                profile@,
                access_key_id@,
                secret_access_key@,
                session_token@,
            ),
    {
        let ghost m = old(self).model();
        let n = self.sections.len();
        let mut i: usize = 0;
        while i < n
            invariant
                i <= n,
                n == old(self).sections@.len(),
                m == old(self).model(),
                self.sections@ == old(self).sections@,
                forall|j: int| 0 <= j < i ==> m[j].name != profile@,
            decreases n - i,
        {
            if str_eq(self.sections[i].name.as_str(), profile) {
                let mut sec = self.sections.remove(i);
                set_key(&mut sec.entries, "aws_access_key_id", access_key_id);
                set_key(&mut sec.entries, "aws_secret_access_key", secret_access_key);
                set_key(&mut sec.entries, "aws_session_token", session_token);
                proof {
                    reveal_strlit("aws_access_key_id");
                    reveal_strlit("aws_secret_access_key");
                    reveal_strlit("aws_session_token");
                    assert("aws_access_key_id"@ == access_key_id_key());
                }
                self.sections.insert(i, sec);
                proof {
                    lemma_upsert_found(
                        m,
                        profile@,
                        access_key_id@,
                        secret_access_key@,
                        session_token@,
                        i as int,
                    );
                    assert(self.model() =~~= m.update(
                        i as int,
                        SectionModel {
                            name: profile@,
                            entries: set_credential_entries(
                                m[i as int].entries,
                                access_key_id@,
                                secret_access_key@,
                                session_token@,
                            ),
                        },
                    ));
                }
                return;
            }
            i += 1;
        }
        let mut entries: Vec<ProfileEntry> = Vec::new();
        proof {
            assert(entries_model(entries@) =~= Seq::<(Seq<char>, Seq<char>)>::empty());
        }
        set_key(&mut entries, "aws_access_key_id", access_key_id);
        set_key(&mut entries, "aws_secret_access_key", secret_access_key);
        set_key(&mut entries, "aws_session_token", session_token);
        self.sections.push(ProfileSection { name: String::from_str(profile), entries });
        proof {
            lemma_upsert_absent(m, profile@, access_key_id@, secret_access_key@, session_token@);
            assert(self.model() =~~= m.push(
                SectionModel {
                    name: profile@,
                    entries: set_credential_entries(
                        Seq::empty(),
                        access_key_id@,
                        secret_access_key@,
                        session_token@,
                    ),
                },
            ));
        }
    }

    /// The value stored under `key` in the section named `profile`, if any.
    pub fn lookup(&self, profile: &str, key: &str) -> (r: Option<&String>)
        ensures
            match lookup_section(self.model(), profile@) {
                Some(sec) => match lookup_entry(sec.entries, key@) {
                    Some(v) => r matches Some(s) && s@ == v,
                    None => r is None,
                },
                None => r is None,
            },
    {
        let ghost m = self.model();
        proof {
            assert(m.skip(0) =~= m);
        }
        let n = self.sections.len();
        let mut i: usize = 0;
        while i < n
            invariant
                i <= n,
                n == self.sections@.len(),
                m == self.model(),
                forall|j: int| 0 <= j < i ==> m[j].name != profile@,
                lookup_section(m, profile@) == lookup_section(m.skip(i as int), profile@),
            decreases n - i,
    {
            proof {
                assert(m.skip(i as int)[0] == m[i as int]);
            }
            if str_eq(self.sections[i].name.as_str(), profile) {
                let r = lookup_in_entries(&self.sections[i].entries, key);
                proof {
                    assert(lookup_section(m, profile@) == Some(m[i as int]));
                }
                return r;
            }
            proof {
                assert(m.skip(i as int).drop_first() =~= m.skip(i as int + 1));
            }
            i += 1;
        }
        proof {
            assert(m.skip(n as int) =~= Seq::<SectionModel>::empty());
        }
        None
    }
}

/// The three credential keys are pairwise distinct.
pub proof fn lemma_credential_keys_distinct()
    ensures
        access_key_id_key() != secret_access_key_key(),
        access_key_id_key() != session_token_key(),
        secret_access_key_key() != session_token_key(),
{
    reveal_strlit("aws_access_key_id");
    reveal_strlit("aws_secret_access_key");
    reveal_strlit("aws_session_token");
    assert(access_key_id_key().len() == 17);
    assert(secret_access_key_key().len() == 21);
    assert(session_token_key().len() == 17);
    assert(access_key_id_key()[4] == 'a' && session_token_key()[4] == 's');
}

/// What every key reads as after one `set_entry`: the set key reads the new
/// value, every other key reads what it read before.
pub proof fn lemma_set_entry_lookup(
    entries: Seq<(Seq<char>, Seq<char>)>,
    key: Seq<char>,
    value: Seq<char>,
    probe: Seq<char>,
)
    ensures
        lookup_entry(set_entry(entries, key, value), probe) == if probe == key {
            Some(value)
        } else {
            lookup_entry(entries, probe)
        },
    decreases entries.len(),
{
    let se = set_entry(entries, key, value);
    if entries.len() == 0 {
        let one = seq![(key, value)];
        assert(se == one);
        assert(one[0] == (key, value));
        assert(one.drop_first() =~= Seq::<(Seq<char>, Seq<char>)>::empty());
        assert(lookup_entry(one.drop_first(), probe) == None::<Seq<char>>);
        assert(lookup_entry(entries, probe) == None::<Seq<char>>);
    } else if entries[0].0 == key {
        let s = seq![(key, value)] + entries.drop_first();
        assert(se == s);
        assert(s[0] == (key, value));
        assert(s.drop_first() =~= entries.drop_first());
        if probe != key {
            assert(lookup_entry(se, probe) == lookup_entry(s.drop_first(), probe));
            assert(lookup_entry(entries, probe) == lookup_entry(entries.drop_first(), probe));
        }
    } else {
        lemma_set_entry_lookup(entries.drop_first(), key, value, probe);
        let s = seq![entries[0]] + set_entry(entries.drop_first(), key, value);
        assert(se == s);
        assert(s[0] == entries[0]);
        assert(s.drop_first() =~= set_entry(entries.drop_first(), key, value));
        if probe == entries[0].0 {
            assert(lookup_entry(s, probe) == Some(entries[0].1));
            assert(lookup_entry(entries, probe) == Some(entries[0].1));
        } else {
            assert(lookup_entry(s, probe) == lookup_entry(s.drop_first(), probe));
            assert(lookup_entry(entries, probe) == lookup_entry(entries.drop_first(), probe));
        }
    }
}

/// `set_entry` keeps keys unique.
pub proof fn lemma_set_entry_wf(
    entries: Seq<(Seq<char>, Seq<char>)>,
    key: Seq<char>,
    value: Seq<char>,
)
    requires
        forall|i: int, j: int| 0 <= i < j < entries.len() ==> entries[i].0 != entries[j].0,
    ensures
        forall|i: int, j: int|
            0 <= i < j < set_entry(entries, key, value).len() ==> set_entry(entries, key, value)[i].0
                != set_entry(entries, key, value)[j].0,
        set_entry(entries, key, value).len() == if exists|i: int|
            0 <= i < entries.len() && entries[i].0 == key {
            entries.len() as int
        } else {
            entries.len() + 1 as int
        },
        forall|i: int|
            0 <= i < set_entry(entries, key, value).len() ==> (#[trigger] set_entry(
                entries,
                key,
                value,
            )[i].0 == key || (0 <= i < entries.len() && set_entry(entries, key, value)[i].0
                == entries[i].0)),
    decreases entries.len(),
{
    if entries.len() == 0 {
    } else if entries[0].0 == key {
        let s = seq![(key, value)] + entries.drop_first();
        assert forall|i: int, j: int| 0 <= i < j < s.len() implies s[i].0 != s[j].0 by {
            if i == 0 {
                assert(s[j].0 == entries[j].0);
                assert(entries[0].0 != entries[j].0);
            } else {
                assert(s[i].0 == entries[i].0 && s[j].0 == entries[j].0);
            }
        }
        assert(exists|i: int| 0 <= i < entries.len() && entries[i].0 == key) by {
            assert(entries[0].0 == key);
        }
    } else {
        lemma_set_entry_wf(entries.drop_first(), key, value);
        let rest = set_entry(entries.drop_first(), key, value);
        let s = seq![entries[0]] + rest;
        assert forall|i: int, j: int| 0 <= i < j < s.len() implies s[i].0 != s[j].0 by {
            if i == 0 {
                assert(s[j].0 == rest[j - 1].0);
                if rest[j - 1].0 == key {
                } else {
                    assert(rest[j - 1].0 == entries.drop_first()[j - 1].0);
                    assert(entries.drop_first()[j - 1].0 == entries[j].0);
                }
            } else {
                assert(s[i].0 == rest[i - 1].0 && s[j].0 == rest[j - 1].0);
            }
        }
        if exists|i: int| 0 <= i < entries.len() && entries[i].0 == key {
            let w = choose|i: int| 0 <= i < entries.len() && entries[i].0 == key;
            assert(entries.drop_first()[w - 1].0 == key);
        } else {
            assert(forall|i: int|
                0 <= i < entries.drop_first().len() ==> (#[trigger] entries.drop_first()[i]).0
                    == entries[i + 1].0);
        }
    }
}

/// Upserting one profile does not touch any section with another name.
pub proof fn lemma_upsert_other_sections(
    m: Seq<SectionModel>,
    profile: Seq<char>,
    access_key_id: Seq<char>,
    secret_access_key: Seq<char>,
    session_token: Seq<char>,
    other: Seq<char>,
)
    requires
        other != profile,
    ensures
        lookup_section(
            upsert_credentials_model(m, profile, access_key_id, secret_access_key, session_token),
            other,
        ) == lookup_section(m, other),
    decreases m.len(),
{
    let u = upsert_credentials_model(m, profile, access_key_id, secret_access_key, session_token);
    if m.len() == 0 {
        assert(u[0].name == profile);
        assert(u.drop_first() =~= Seq::<SectionModel>::empty());
        assert(lookup_section(u, other) == lookup_section(u.drop_first(), other));
        assert(lookup_section(u.drop_first(), other) == None::<SectionModel>);
        assert(lookup_section(m, other) == None::<SectionModel>);
    } else if m[0].name == profile {
        assert(u[0].name == profile);
        assert(u.drop_first() =~= m.drop_first());
        assert(lookup_section(u, other) == lookup_section(u.drop_first(), other));
        assert(lookup_section(m, other) == lookup_section(m.drop_first(), other));
    } else {
        lemma_upsert_other_sections(
            m.drop_first(),
            profile,
            access_key_id,
            secret_access_key,
            session_token,
            other,
        );
        assert(u[0] == m[0]);
        assert(u.drop_first() =~= upsert_credentials_model(
            m.drop_first(),
            profile,
            access_key_id,
            secret_access_key,
            session_token,
        ));
        if m[0].name == other {
            assert(lookup_section(u, other) == Some(u[0]));
            assert(lookup_section(m, other) == Some(m[0]));
        } else {
            assert(lookup_section(u, other) == lookup_section(u.drop_first(), other));
            assert(lookup_section(m, other) == lookup_section(m.drop_first(), other));
        }
    }
}

/// After an upsert, the target profile exists, and its entries are its old
/// entries (empty when the profile was absent) with the three credential keys
/// set.
pub proof fn lemma_upsert_target_section(
    m: Seq<SectionModel>,
    profile: Seq<char>,
    access_key_id: Seq<char>,
    secret_access_key: Seq<char>,
    session_token: Seq<char>,
)
    ensures
        lookup_section(
            upsert_credentials_model(m, profile, access_key_id, secret_access_key, session_token),
            profile,
        ) == Some(
            SectionModel {
                name: profile,
                entries: set_credential_entries(
                    match lookup_section(m, profile) {
                        Some(sec) => sec.entries,
                        None => Seq::empty(),
                    },
                    access_key_id,
                    secret_access_key,
                    session_token,
                ),
            },
        ),
    decreases m.len(),
{
    let u = upsert_credentials_model(m, profile, access_key_id, secret_access_key, session_token);
    if m.len() == 0 {
    } else if m[0].name == profile {
    } else {
        lemma_upsert_target_section(
            m.drop_first(),
            profile,
            access_key_id,
            secret_access_key,
            session_token,
        );
        assert(u[0] == m[0]);
        assert(u.drop_first() =~= upsert_credentials_model(
            m.drop_first(),
            profile,
            access_key_id,
            secret_access_key,
            session_token,
        ));
    }
}

/// Law: upserting keeps the store well-formed.
pub proof fn lemma_upsert_preserves_wf(
    m: Seq<SectionModel>,
    profile: Seq<char>,
    access_key_id: Seq<char>,
    secret_access_key: Seq<char>,
    session_token: Seq<char>,
)
    requires
        store_wf(m),
    ensures
        store_wf(
            upsert_credentials_model(m, profile, access_key_id, secret_access_key, session_token),
        ),
    decreases m.len(),
{
    let u = upsert_credentials_model(m, profile, access_key_id, secret_access_key, session_token);
    if m.len() == 0 {
        lemma_set_credential_entries_wf(Seq::empty(), access_key_id, secret_access_key, session_token);
    } else if m[0].name == profile {
        lemma_set_credential_entries_wf(
            m[0].entries,
            access_key_id,
            secret_access_key,
            session_token,
        );
        assert(forall|j: int| 0 <= j < m.drop_first().len() ==> #[trigger] m.drop_first()[j]
            == m[j + 1]);
        assert forall|i: int| 0 <= i < u.len() implies section_wf(#[trigger] u[i]) by {
            if i > 0 {
                assert(u[i] == m[i]);
            }
        }
        assert forall|i: int, j: int| 0 <= i < j < u.len() implies u[i].name != u[j].name by {
            assert(u[j] == m[j]);
            if i > 0 {
                assert(u[i] == m[i]);
            }
        }
    } else {
        assert(forall|j: int| 0 <= j < m.drop_first().len() ==> #[trigger] m.drop_first()[j]
            == m[j + 1]);
        lemma_upsert_preserves_wf(
            m.drop_first(),
            profile,
            access_key_id,
            secret_access_key,
            session_token,
        );
        let rest = upsert_credentials_model(
            m.drop_first(),
            profile,
            access_key_id,
            secret_access_key,
            session_token,
        );
        lemma_upsert_section_names(
            m.drop_first(),
            profile,
            access_key_id,
            secret_access_key,
            session_token,
        );
        assert forall|i: int, j: int| 0 <= i < j < u.len() implies u[i].name != u[j].name by {
            if i == 0 {
                assert(u[j] == rest[j - 1]);
                if rest[j - 1].name == profile {
                } else {
                    let w = choose|w: int|
                        0 <= w < m.drop_first().len() && rest[j - 1].name == m.drop_first()[w].name;
                    assert(m[0].name != m[w + 1].name);
                }
            } else {
                assert(u[i] == rest[i - 1] && u[j] == rest[j - 1]);
            }
        }
        assert forall|i: int| 0 <= i < u.len() implies section_wf(#[trigger] u[i]) by {
            if i > 0 {
                assert(u[i] == rest[i - 1]);
            }
        }
    }
}

/// Every section name after an upsert is the profile or one of the old names.
proof fn lemma_upsert_section_names(
    m: Seq<SectionModel>,
    profile: Seq<char>,
    access_key_id: Seq<char>,
    secret_access_key: Seq<char>,
    session_token: Seq<char>,
)
    ensures
        forall|i: int|
            0 <= i < upsert_credentials_model(
                m,
                profile,
                access_key_id,
                secret_access_key,
                session_token,
            ).len() ==> (#[trigger] upsert_credentials_model(
                m,
                profile,
                access_key_id,
                secret_access_key,
                session_token,
            )[i].name == profile || exists|w: int|
                0 <= w < m.len() && upsert_credentials_model(
                    m,
                    profile,
                    access_key_id,
                    secret_access_key,
                    session_token,
                )[i].name == m[w].name),
    decreases m.len(),
{
    let u = upsert_credentials_model(m, profile, access_key_id, secret_access_key, session_token);
    if m.len() == 0 {
    } else if m[0].name == profile {
        assert forall|i: int| 0 <= i < u.len() implies (u[i].name == profile || exists|w: int|
            0 <= w < m.len() && u[i].name == m[w].name) by {
            if i > 0 {
                assert(u[i] == m[i]);
            }
        }
    } else {
        lemma_upsert_section_names(
            m.drop_first(),
            profile,
            access_key_id,
            secret_access_key,
            session_token,
        );
        let rest = upsert_credentials_model(
            m.drop_first(),
            profile,
            access_key_id,
            secret_access_key,
            session_token,
        );
        assert forall|i: int| 0 <= i < u.len() implies (u[i].name == profile || exists|w: int|
            0 <= w < m.len() && u[i].name == m[w].name) by {
            if i == 0 {
                assert(u[0].name == m[0].name);
            } else {
                assert(u[i] == rest[i - 1]);
                if rest[i - 1].name != profile {
                    let w = choose|w: int|
                        0 <= w < m.drop_first().len() && rest[i - 1].name == m.drop_first()[w].name;
                    assert(u[i].name == m[w + 1].name);
                }
            }
        }
    }
}

/// Setting the three credential keys keeps an entry list's keys unique.
proof fn lemma_set_credential_entries_wf(
    entries: Seq<(Seq<char>, Seq<char>)>,
    access_key_id: Seq<char>,
    secret_access_key: Seq<char>,
    session_token: Seq<char>,
)
    requires
        forall|i: int, j: int| 0 <= i < j < entries.len() ==> entries[i].0 != entries[j].0,
    ensures
        ({
            let s = set_credential_entries(
                entries,
                access_key_id,
                secret_access_key,
                session_token,
            );
            forall|i: int, j: int| 0 <= i < j < s.len() ==> s[i].0 != s[j].0
        }),
{
    let s1 = set_entry(entries, access_key_id_key(), access_key_id);
    lemma_set_entry_wf(entries, access_key_id_key(), access_key_id);
    let s2 = set_entry(s1, secret_access_key_key(), secret_access_key);
    lemma_set_entry_wf(s1, secret_access_key_key(), secret_access_key);
    lemma_set_entry_wf(s2, session_token_key(), session_token);
}

/// Law: re-writing a profile's credentials touches nothing else.  Any other
/// profile reads exactly as before, and within the target profile any key
/// other than the three credential keys reads exactly as before.
pub proof fn lemma_upsert_preserves_unrelated(
    m: Seq<SectionModel>,
    profile: Seq<char>,
    access_key_id: Seq<char>,
    secret_access_key: Seq<char>,
    session_token: Seq<char>,
    other: Seq<char>,
    key: Seq<char>,
)
    ensures
        other != profile ==> lookup_section(
            upsert_credentials_model(m, profile, access_key_id, secret_access_key, session_token),
            other,
        ) == lookup_section(m, other),
        (key != access_key_id_key() && key != secret_access_key_key() && key
            != session_token_key()) ==> ({
            let target = lookup_section(
                upsert_credentials_model(
                    m,
                    profile,
                    access_key_id,
                    secret_access_key,
                    session_token,
                ),
                profile,
            );
            target matches Some(sec) && lookup_entry(sec.entries, key) == match lookup_section(
                m,
                profile,
            ) {
                Some(old_sec) => lookup_entry(old_sec.entries, key),
                None => None,
            }
        }),
{
    if other != profile {
        lemma_upsert_other_sections(
            m,
            profile,
            access_key_id,
            secret_access_key,
            session_token,
            other,
        );
    }
    if key != access_key_id_key() && key != secret_access_key_key() && key != session_token_key() {
        lemma_upsert_target_section(m, profile, access_key_id, secret_access_key, session_token);
        let base = match lookup_section(m, profile) {
            Some(sec) => sec.entries,
            None => Seq::<(Seq<char>, Seq<char>)>::empty(),
        };
        let s1 = set_entry(base, access_key_id_key(), access_key_id);
        let s2 = set_entry(s1, secret_access_key_key(), secret_access_key);
        lemma_set_entry_lookup(base, access_key_id_key(), access_key_id, key);
        lemma_set_entry_lookup(s1, secret_access_key_key(), secret_access_key, key);
        lemma_set_entry_lookup(s2, session_token_key(), session_token, key);
    }
}

/// Law: writing a profile into the empty store and reading it back yields
/// exactly one section, named after the profile, holding exactly the three
/// credential keys with the written values; and writing a second, differently
/// named profile afterwards leaves the first untouched.
pub proof fn lemma_write_then_read(
    profile: Seq<char>,
    access_key_id: Seq<char>,
    secret_access_key: Seq<char>,
    session_token: Seq<char>,
)
    ensures
        ({
            let m = upsert_credentials_model(
                Seq::empty(),
                profile,
                access_key_id,
                secret_access_key,
                session_token,
            );
            &&& m.len() == 1
            &&& m[0].name == profile
            &&& m[0].entries.len() == 3
            &&& lookup_entry(m[0].entries, access_key_id_key()) == Some(access_key_id)
            &&& lookup_entry(m[0].entries, secret_access_key_key()) == Some(secret_access_key)
            &&& lookup_entry(m[0].entries, session_token_key()) == Some(session_token)
            &&& forall|p2: Seq<char>, a2: Seq<char>, s2: Seq<char>, t2: Seq<char>|
                p2 != profile ==> lookup_section(
                    #[trigger] upsert_credentials_model(m, p2, a2, s2, t2),
                    profile,
                ) == Some(m[0])
        }),
{
    lemma_credential_keys_distinct();
    let m = upsert_credentials_model(
        Seq::empty(),
        profile,
        access_key_id,
        secret_access_key,
        session_token,
    );
    let e0 = Seq::<(Seq<char>, Seq<char>)>::empty();
    let s1 = set_entry(e0, access_key_id_key(), access_key_id);
    let s2 = set_entry(s1, secret_access_key_key(), secret_access_key);
    let s3 = set_entry(s2, session_token_key(), session_token);
    assert(s1 =~= seq![(access_key_id_key(), access_key_id)]);
    assert(s2 =~= seq![
        (access_key_id_key(), access_key_id),
        (secret_access_key_key(), secret_access_key),
    ]) by {
        assert(s1[0].0 != secret_access_key_key());
        assert(s1.drop_first() =~= Seq::<(Seq<char>, Seq<char>)>::empty());
        assert(s2 =~= seq![s1[0]] + set_entry(s1.drop_first(), secret_access_key_key(), secret_access_key));
    }
    assert(s3 =~= seq![
        (access_key_id_key(), access_key_id),
        (secret_access_key_key(), secret_access_key),
        (session_token_key(), session_token),
    ]) by {
        assert(s2[0].0 != session_token_key());
        assert(s2.drop_first() =~= seq![(secret_access_key_key(), secret_access_key)]);
        let inner = set_entry(s2.drop_first(), session_token_key(), session_token);
        assert(s2.drop_first()[0].0 != session_token_key());
        assert(s2.drop_first().drop_first() =~= Seq::<(Seq<char>, Seq<char>)>::empty());
        assert(set_entry(s2.drop_first().drop_first(), session_token_key(), session_token)
            =~= seq![(session_token_key(), session_token)]);
        assert(inner =~= seq![
            (secret_access_key_key(), secret_access_key),
            (session_token_key(), session_token),
        ]);
        assert(s3 =~= seq![s2[0]] + inner);
    }
    assert(s3.len() == 3);
    lemma_set_entry_lookup(e0, access_key_id_key(), access_key_id, access_key_id_key());
    lemma_set_entry_lookup(s1, secret_access_key_key(), secret_access_key, access_key_id_key());
    lemma_set_entry_lookup(s2, session_token_key(), session_token, access_key_id_key());
    lemma_set_entry_lookup(s1, secret_access_key_key(), secret_access_key, secret_access_key_key());
    lemma_set_entry_lookup(s2, session_token_key(), session_token, secret_access_key_key());
    lemma_set_entry_lookup(s2, session_token_key(), session_token, session_token_key());
    assert(m[0].entries == s3);
    assert forall|p2: Seq<char>, a2: Seq<char>, s2v: Seq<char>, t2: Seq<char>|
        p2 != profile implies lookup_section(
        #[trigger] upsert_credentials_model(m, p2, a2, s2v, t2),
        profile,
    ) == Some(m[0]) by {
        lemma_upsert_other_sections(m, p2, a2, s2v, t2, profile);
    }
}

/// The value under `key` among the entries, if any (first match).
fn lookup_in_entries<'a>(entries: &'a Vec<ProfileEntry>, key: &str) -> (r: Option<&'a String>)
    ensures
        match lookup_entry(entries_model(entries@), key@) {
            Some(v) => r matches Some(s) && s@ == v,
            None => r is None,
        },
{
    let ghost es = entries_model(entries@);
    proof {
        assert(es.skip(0) =~= es);
    }
    let n = entries.len();
    let mut i: usize = 0;
    while i < n
        invariant
            i <= n,
            n == entries@.len(),
            es == entries_model(entries@),
            forall|j: int| 0 <= j < i ==> es[j].0 != key@,
            lookup_entry(es, key@) == lookup_entry(es.skip(i as int), key@),
        decreases n - i,
    {
        proof {
            assert(es.skip(i as int)[0] == es[i as int]);
        }
        if str_eq(entries[i].key.as_str(), key) {
            return Some(&entries[i].value);
        }
        proof {
            assert(es.skip(i as int).drop_first() =~= es.skip(i as int + 1));
        }
        i += 1;
    }
    proof {
        assert(es.skip(n as int) =~= Seq::<(Seq<char>, Seq<char>)>::empty());
    }
    None
}

} // verus!

