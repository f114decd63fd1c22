//! The fact storage: an ordered map id -> (domain, actor, content) with
//! per-domain access rights, the text format it is read from and written
//! to, and the select / insert / update / delete operations.
use crate::fact_map::{
    entries_insert, entries_remove, fact_entries, has_key, key_index, lemma_key_index,
    map_clear, map_contains_key, map_get, map_get_index, map_insert, map_len, map_new,
    map_retain_with_content, map_shift_remove, unique_keys, content_kept, EntryView, FactBody,
};
use crate::state::{FailureView, State};
use crate::text::{
    chars_of, contains_char, decimal, decimal_chars, has_char, join, join_chars, lines, lines_of,
    split, split_chars, str_eq, string_of, trim, trim_chars,
};
use indexmap::IndexMap;
use std::hash::RandomState;
use vstd::prelude::*;

verus! {

/// The fact storage.
pub struct Storage {
    last_generated_id: u128,
    state: State,
    facts: IndexMap<String, FactBody, RandomState>,
    /// The rights of each domain, one row per domain: setting a domain's
    /// rights replaces its row (see `access_set`), so the table acts as a map
    /// from domain to rights. Only insertion and lookup are made on it.
    access: Vec<(String, String)>,
    fact_delimiter: String,
}

/// `"#FACT"`, the header mark that facts are parsed by and written with by default.
pub open spec fn fact_mark() -> Seq<char> {
    seq!['#', 'F', 'A', 'C', 'T']
}

/// The rights of `domain` in an access table: those of its first row.
pub open spec fn rights_of(acc: Seq<(Seq<char>, Seq<char>)>, domain: Seq<char>) -> Option<Seq<char>>
    decreases acc.len(),
{
    if acc.len() == 0 {
        None
    } else if acc[0].0 == domain {
        Some(acc[0].1)
    } else {
        rights_of(acc.drop_first(), domain)
    }
}

/// Whether the access table grants `right` on `domain`.
pub open spec fn allows(acc: Seq<(Seq<char>, Seq<char>)>, domain: Seq<char>, right: char) -> bool {
    match rights_of(acc, domain) {
        Some(r) => has_char(r, right),
        None => false,
    }
}

/// The access table after setting the rights of `domain`: its row takes the
/// new rights, or a row is added last.
pub open spec fn access_set(acc: Seq<(Seq<char>, Seq<char>)>, domain: Seq<char>, rights: Seq<char>) -> Seq<(Seq<char>, Seq<char>)>
    decreases acc.len(),
{
    if acc.len() == 0 {
        seq![(domain, rights)]
    } else if acc[0].0 == domain {
        acc.update(0, (domain, rights))
    } else {
        seq![acc[0]] + access_set(acc.drop_first(), domain, rights)
    }
}

pub open spec fn access_view(a: Seq<(String, String)>) -> Seq<(Seq<char>, Seq<char>)> {
    a.map_values(|p: (String, String)| (p.0@, p.1@))
}

/// The text of one fact: header line, blank line, content, blank line.
pub open spec fn fact_text(delim: Seq<char>, e: EntryView) -> Seq<char> {
    delim + seq!['|'] + e.1.0 + seq!['|'] + e.1.1 + seq!['|'] + e.0 + seq!['\n', '\n'] + e.1.2 + seq!['\n', '\n']
}

/// The text of all facts, in order.
pub open spec fn entries_text(delim: Seq<char>, es: Seq<EntryView>) -> Seq<char>
    decreases es.len(),
{
    if es.len() == 0 {
        seq![]
    } else {
        fact_text(delim, es[0]) + entries_text(delim, es.drop_first())
    }
}

/// Whether a string marks a fact as new, to be given a generated id.
pub open spec fn is_new_id(id: Seq<char>) -> bool {
    id == seq!['-'] || id == seq!['N', 'E', 'W'] || id == seq!['n', 'e', 'w']
}

/// An update is allowed when access is ignored, when the domain stays and
/// the domain grants `u`, or when the domain changes and the new domain
/// grants `i` and the old one `d`.
pub open spec fn update_allowed(acc: Seq<(Seq<char>, Seq<char>)>, old_domain: Seq<char>, domain: Seq<char>, ignore_access: bool) -> bool {
    ||| ignore_access
    ||| (domain == old_domain && allows(acc, domain, 'u'))
    ||| (domain != old_domain && allows(acc, domain, 'i') && allows(acc, old_domain, 'd'))
}

/// The id `generate_id` yields after `last`: `last + 1` when the clock is
/// not ahead of it (wrapping at the top), else the clock.
pub open spec fn next_id(last: u128, now: u128) -> u128 {
    if now <= last {
        if last == u128::MAX { 0 } else { (last + 1) as u128 }
    } else {
        now
    }
}

#[verifier::external_type_specification]
#[verifier::external_body]
pub struct ExSystemTime(std::time::SystemTime);

#[verifier::external_type_specification]
#[verifier::external_body]
pub struct ExSystemTimeError(std::time::SystemTimeError);

/// `SystemTime::now`: the current time of the system clock. Nothing is
/// stated of it: it is the clock.
#[verifier::external_body]
fn clock_now() -> (t: std::time::SystemTime) {
    std::time::SystemTime::now()
}

/// `SystemTime::duration_since(UNIX_EPOCH)`: the time elapsed since the Unix
/// epoch, or an error when `t` lies before it. The value of `t` is not
/// modelled, so nothing is stated of the outcome.
#[verifier::external_body]
fn since_epoch(t: &std::time::SystemTime) -> (r: Result<std::time::Duration, std::time::SystemTimeError>) {
    t.duration_since(std::time::UNIX_EPOCH)
}

/// `Duration::as_micros`: the whole microseconds of `d`. A `Duration` is not
/// modelled, so nothing is stated of the result.
#[verifier::external_body]
fn duration_micros(d: &std::time::Duration) -> (r: u128) {
    d.as_micros()
}

/// The microseconds since the Unix epoch by the system clock, 0 when the clock
/// is before the epoch.
fn now_micros() -> (r: u128) {
    let t = clock_now();
    match since_epoch(&t) {
        Ok(d) => duration_micros(&d),
        Err(_) => 0,
    }
}

/// The id counter moved from `old_last` to `new_last` by one reading of the clock.
pub open spec fn advanced(old_last: u128, new_last: u128) -> bool {
    exists|now: u128| new_last == next_id(old_last, now)
}

/// Inserting or removing keeps the ids unique.
pub proof fn lemma_unique_after_insert(e: Seq<EntryView>, k: Seq<char>, v: (Seq<char>, Seq<char>, Seq<char>))
    requires
        unique_keys(e),
    ensures
        unique_keys(entries_insert(e, k, v)),
{
    lemma_key_index(e, k);
    let r = entries_insert(e, k, v);
    assert forall|i: int, j: int| 0 <= i < r.len() && 0 <= j < r.len() && i != j implies (#[trigger] r[i]).0 != (#[trigger] r[j]).0 by {
        if key_index(e, k) < 0 {
            if i < e.len() && j < e.len() {
                assert(r[i] == e[i] && r[j] == e[j]);
            } else if i < e.len() {
                assert(r[i] == e[i]);
            } else {
                assert(r[j] == e[j]);
            }
        } else {
            let x = key_index(e, k);
            if i != x && j != x {
                assert(r[i] == e[i] && r[j] == e[j]);
            } else if i == x {
                assert(r[j] == e[j]);
                assert(e[x].0 == k);
            } else {
                assert(r[i] == e[i]);
                assert(e[x].0 == k);
            }
        }
    }
}

pub proof fn lemma_unique_after_remove(e: Seq<EntryView>, k: Seq<char>)
    requires
        unique_keys(e),
    ensures
        unique_keys(entries_remove(e, k)),
{
    lemma_key_index(e, k);
    let r = entries_remove(e, k);
    if key_index(e, k) >= 0 {
        let x = key_index(e, k);
        assert forall|i: int, j: int| 0 <= i < r.len() && 0 <= j < r.len() && i != j implies (#[trigger] r[i]).0 != (#[trigger] r[j]).0 by {
            let ii = if i < x { i } else { i + 1 };
            let jj = if j < x { j } else { j + 1 };
            assert(r[i] == e[ii]);
            assert(r[j] == e[jj]);
        }
    }
}

fn literal(s: &str) -> (r: String)
    ensures
        r@ == s@,
{
    s.to_owned()
}

fn pair(k: &str, v: &str) -> (r: (String, String))
    ensures
        r.0@ == k@,
        r.1@ == v@,
{
    (k.to_owned(), v.to_owned())
}

impl Storage {
    pub closed spec fn entries(&self) -> Seq<EntryView> {
        fact_entries(self.facts)
    }

    pub closed spec fn access_table(&self) -> Seq<(Seq<char>, Seq<char>)> {
        access_view(self.access@)
    }

    pub closed spec fn delimiter(&self) -> Seq<char> {
        self.fact_delimiter@
    }

    pub closed spec fn last_id(&self) -> u128 {
        self.last_generated_id
    }

    pub closed spec fn failure(&self) -> Option<FailureView> {
        self.state.view_failure()
    }

    /// The storage's invariant: no two facts share an id.
    pub closed spec fn wf(&self) -> bool {
        unique_keys(self.entries())
    }

    /// An empty storage, ok, with no access rights and the `#FACT` delimiter.
    pub fn new() -> (s: Storage)
        ensures
            s.wf(),
            s.entries() == Seq::<EntryView>::empty(),
            s.access_table() == Seq::<(Seq<char>, Seq<char>)>::empty(),
            s.delimiter() == fact_mark(),
            s.last_id() == 0,
            s.failure() is None,
    {
        let d = literal("#FACT");
        proof {
            reveal_strlit("#FACT");
        }
        Storage {
            last_generated_id: 0,
            state: State::ok(),
            facts: map_new(),
            access: Vec::new(),
            fact_delimiter: d,
        }
    }

    /// The state of the storage.
    pub fn get_state(&self) -> (r: &State)
        ensures
            r.view_failure() == self.failure(),
    {
        &self.state
    }

    /// Clears the storage's failure.
    pub fn set_ok(&mut self)
        ensures
            final(self).failure() is None,
            old(self).wf() ==> final(self).wf(),
            final(self).same_settings(old(self)),
            final(self).entries() == old(self).entries(),
            final(self).access_table() == old(self).access_table(),
            final(self).delimiter() == old(self).delimiter(),
            final(self).last_id() == old(self).last_id(),
    {
        self.state.set_ok();
    }

    /// Removes every fact.
    pub fn clear(&mut self)
        ensures
            final(self).wf(),
            final(self).entries() == Seq::<EntryView>::empty(),
            final(self).failure() == old(self).failure(),
            final(self).access_table() == old(self).access_table(),
            final(self).delimiter() == old(self).delimiter(),
            final(self).last_id() == old(self).last_id(),
    {
        map_clear(&mut self.facts);
    }

    /// The delimiter that facts are written with.
    pub fn get_fact_delimiter(&self) -> (r: String)
        ensures
            r@ == self.delimiter(),
    {
        self.fact_delimiter.clone()
    }

    /// Sets the delimiter that facts are written with.
    pub fn set_fact_delimiter(&mut self, delimiter: &str)
        ensures
            final(self).delimiter() == delimiter@,
            old(self).wf() ==> final(self).wf(),
            final(self).entries() == old(self).entries(),
            final(self).failure() == old(self).failure(),
            final(self).access_table() == old(self).access_table(),
            final(self).last_id() == old(self).last_id(),
    {
        self.fact_delimiter = delimiter.to_owned();
    }

    /// The number of facts.
    pub fn len(&self) -> (r: usize)
        ensures
            r == self.entries().len(),
    {
        map_len(&self.facts)
    }

    /// The fact at position `i`, with its id.
    pub fn entry_at(&self, i: usize) -> (r: Option<(&String, &FactBody)>)
        ensures
            match r {
                Some(kv) => i < self.entries().len() && (kv.0@, kv.1@) == self.entries()[i as int],
                None => i >= self.entries().len(),
            },
    {
        map_get_index(&self.facts, i)
    }

    /// Whether a fact with id `id` exists.
    pub fn exists_id(&self, id: &str) -> (r: bool)
        ensures
            r == has_key(self.entries(), id@),
    {
        proof {
            lemma_key_index(self.entries(), id@);
        }
        map_contains_key(&self.facts, id)
    }

    /// The fact with id `id`, if there is one.
    pub fn get_by_id(&self, id: &str) -> (r: Option<&FactBody>)
        ensures
            match r {
                Some(v) => has_key(self.entries(), id@) && v@ == self.entries()[key_index(self.entries(), id@)].1,
                None => !has_key(self.entries(), id@),
            },
    {
        proof {
            lemma_key_index(self.entries(), id@);
        }
        map_get(&self.facts, id)
    }

    /// Sets the rights of `domain` (letters among `s`, `i`, `u`, `d`).
    pub fn set_access(&mut self, domain: &str, rights: &str)
        ensures
            final(self).access_table() == access_set(old(self).access_table(), domain@, rights@),
            old(self).wf() ==> final(self).wf(),
            final(self).entries() == old(self).entries(),
            final(self).failure() == old(self).failure(),
            final(self).delimiter() == old(self).delimiter(),
            final(self).last_id() == old(self).last_id(),
    {
        let ghost acc0 = self.access_table();
        let mut i: usize = 0;
        while i < self.access.len()
            invariant
                i <= self.access@.len(),
                self.access_table() == acc0,
                acc0 == old(self).access_table(),
                forall|j: int| 0 <= j < i ==> acc0[j].0 != domain@,
                self.entries() == old(self).entries(),
                self.failure() == old(self).failure(),
                self.delimiter() == old(self).delimiter(),
                self.last_id() == old(self).last_id(),
            decreases self.access@.len() - i,
        {
            if str_eq(self.access[i].0.as_str(), domain) {
                assert(acc0[i as int].0 == domain@);
                proof {
                    lemma_access_set_at(acc0, domain@, rights@, i as int);
                }
                self.access.set(i, pair(domain, rights));
                assert(self.access_table() == acc0.update(i as int, (domain@, rights@)));
                assert(self.access_table() == access_set(acc0, domain@, rights@));
                return;
            }
            i = i + 1;
        }
        proof {
            lemma_access_set_at(acc0, domain@, rights@, acc0.len() as int);
        }
        self.access.push(pair(domain, rights));
        assert(self.access_table() == acc0.push((domain@, rights@)));
    }

    /// The rights of `domain`, empty when it has none.
    pub fn get_access(&self, domain: &str) -> (r: String)
        ensures
            r@ == match rights_of(self.access_table(), domain@) {
                Some(rs) => rs,
                None => Seq::<char>::empty(),
            },
    {
        let ghost acc = self.access_table();
        let mut i: usize = 0;
        assert(acc.skip(0) == acc);
        while i < self.access.len()
            invariant
                i <= self.access@.len(),
                acc == self.access_table(),
                rights_of(acc, domain@) == rights_of(acc.skip(i as int), domain@),
            decreases self.access@.len() - i,
        {
            assert(acc.skip(i as int).drop_first() == acc.skip(i + 1));
            if str_eq(self.access[i].0.as_str(), domain) {
                return self.access[i].1.clone();
            }
            i = i + 1;
        }
        String::new()
    }

    /// Whether the rights of `domain` hold `right`.
    pub fn check_access(&self, domain: &str, right: char) -> (r: bool)
        ensures
            r == allows(self.access_table(), domain@, right),
    {
        let ghost acc = self.access_table();
        let mut i: usize = 0;
        assert(acc.skip(0) == acc);
        while i < self.access.len()
            invariant
                i <= self.access@.len(),
                acc == self.access_table(),
                rights_of(acc, domain@) == rights_of(acc.skip(i as int), domain@),
            decreases self.access@.len() - i,
        {
            assert(acc.skip(i as int).drop_first() == acc.skip(i + 1));
            if str_eq(self.access[i].0.as_str(), domain) {
                let rs = chars_of(self.access[i].1.as_str());
                return contains_char(&rs, right);
            }
            i = i + 1;
        }
        false
    }
}

impl Storage {
    /// The storage's settings (access rights, delimiter) are those of `other`.
    pub closed spec fn same_settings(&self, other: &Storage) -> bool {
        &&& self.access_table() == other.access_table()
        &&& self.delimiter() == other.delimiter()
    }

    /// Every storage has its own settings.
    pub proof fn lemma_same_settings_refl(a: &Storage)
        ensures
            a.same_settings(a),
    {
    }

    /// Storages with the same settings have the same access table and delimiter.
    pub proof fn lemma_same_settings_tables(a: &Storage, b: &Storage)
        requires
            a.same_settings(b),
        ensures
            a.access_table() == b.access_table(),
            a.delimiter() == b.delimiter(),
    {
    }

    /// Having the same settings is transitive.
    pub proof fn lemma_same_settings_trans(a: &Storage, b: &Storage, c: &Storage)
        requires
            a.same_settings(b),
            b.same_settings(c),
        ensures
            a.same_settings(c),
    {
    }

    /// A new unique id: the clock in microseconds, or one more than the last
    /// id when the clock is not ahead of it.
    pub fn generate_id(&mut self) -> (r: String)
        ensures
            advanced(old(self).last_id(), final(self).last_id()),
            r@ == decimal(final(self).last_id() as nat),
            final(self).entries() == old(self).entries(),
            final(self).failure() == old(self).failure(),
            final(self).same_settings(old(self)),
    {
        let now = now_micros();
        let last = self.last_generated_id;
        let id = if now <= last {
            last.wrapping_add(1)
        } else {
            now
        };
        proof {
            if now <= last && last < u128::MAX {
                assert(id == last + 1) by (bit_vector)
                    requires
                        id == last.wrapping_add(1),
                        last < u128::MAX;
            }
            if now <= last && last == u128::MAX {
                assert(id == 0) by (bit_vector)
                    requires
                        id == last.wrapping_add(1),
                        last == u128::MAX;
            }
            assert(id == next_id(last, now));
        }
        self.last_generated_id = id;
        let ds = decimal_chars(id);
        string_of(&ds)
    }

    /// The fact with id `id` as (domain, actor, content); three empty strings,
    /// and the failure `storage-select-not-found`, when there is none.
    pub fn select(&mut self, id: &str) -> (r: (String, String, String))
        ensures
            has_key(old(self).entries(), id@) ==> {
                &&& r@ == old(self).entries()[key_index(old(self).entries(), id@)].1
                &&& final(self).failure() == old(self).failure()
            },
            !has_key(old(self).entries(), id@) ==> {
                &&& r@ == (Seq::<char>::empty(), Seq::<char>::empty(), Seq::<char>::empty())
                &&& final(self).failure() == Some(("storage-select-not-found"@, seq![("id"@, id@)]))
            },
            final(self).entries() == old(self).entries(),
            final(self).last_id() == old(self).last_id(),
            final(self).same_settings(old(self)),
    {
        match self.get_by_id(id) {
            Some(v) => (v.0.clone(), v.1.clone(), v.2.clone()),
            None => {
                let mut d: Vec<(String, String)> = Vec::new();
                d.push(pair("id", id));
                self.state.set_state(literal("storage-select-not-found"), d);
                assert(crate::state::details_view(d@) == seq![("id"@, id@)]);
                (String::new(), String::new(), String::new())
            },
        }
    }

    /// Adds or replaces a fact without looking at state or access.
    pub fn put(&mut self, id: &str, domain: &str, actor: &str, content: &str)
        requires
            old(self).wf(),
        ensures
            final(self).wf(),
            final(self).entries() == entries_insert(old(self).entries(), id@, (domain@, actor@, content@)),
            final(self).failure() == old(self).failure(),
            final(self).last_id() == old(self).last_id(),
            final(self).same_settings(old(self)),
    {
        proof {
            lemma_unique_after_insert(self.entries(), id@, (domain@, actor@, content@));
        }
        map_insert(&mut self.facts, id.to_owned(), (domain.to_owned(), actor.to_owned(), content.to_owned()));
    }

    /// Inserts a fact when the state is ok and `domain` grants `i` (or
    /// `no_right` is set). An empty `id` gets a generated one; an existing id
    /// is replaced in place. Otherwise sets `storage-insert-not-allowed`.
    /// Returns the id the fact was stored under, empty when nothing was stored.
    pub fn insert(&mut self, id: &str, domain: &str, actor: &str, content: &str, no_right: bool) -> (r: String)
        requires
            old(self).wf(),
        ensures
            final(self).wf(),
            final(self).same_settings(old(self)),
            old(self).failure() is Some ==> {
                &&& final(self).entries() == old(self).entries()
                &&& final(self).failure() == old(self).failure()
                &&& final(self).last_id() == old(self).last_id()
            },
            old(self).failure() is None && (allows(old(self).access_table(), domain@, 'i') || no_right) ==> {
                &&& final(self).failure() is None
                &&& id@.len() == 0 ==> {
                    &&& advanced(old(self).last_id(), final(self).last_id())
                    &&& final(self).entries() == entries_insert(old(self).entries(), decimal(final(self).last_id() as nat), (domain@, actor@, content@))
                }
                &&& id@.len() > 0 ==> {
                    &&& final(self).last_id() == old(self).last_id()
                    &&& final(self).entries() == entries_insert(old(self).entries(), id@, (domain@, actor@, content@))
                }
            },
            old(self).failure() is None && !(allows(old(self).access_table(), domain@, 'i') || no_right) ==> {
                &&& final(self).entries() == old(self).entries()
                &&& final(self).last_id() == old(self).last_id()
                &&& final(self).failure() == Some(("storage-insert-not-allowed"@, seq![("domain"@, domain@), ("actor"@, actor@), ("content"@, content@)]))
            },
            inserted(*old(self), *final(self), id@, domain@, actor@, content@, no_right),
            r@ == if old(self).failure() is None && (allows(old(self).access_table(), domain@, 'i') || no_right) {
                if id@.len() == 0 { decimal(final(self).last_id() as nat) } else { id@ }
            } else {
                Seq::<char>::empty()
            },
    {
        if self.state.is_ok() {
            if self.check_access(domain, 'i') || no_right {
                if id.is_empty() {
                    let gid = self.generate_id();
                    self.put(gid.as_str(), domain, actor, content);
                    return gid;
                } else {
                    self.put(id, domain, actor, content);
                    return id.to_owned();
                }
            } else {
                let mut d: Vec<(String, String)> = Vec::new();
                d.push(pair("domain", domain));
                d.push(pair("actor", actor));
                d.push(pair("content", content));
                self.state.set_state(literal("storage-insert-not-allowed"), d);
                assert(crate::state::details_view(d@) == seq![("domain"@, domain@), ("actor"@, actor@), ("content"@, content@)]);
            }
        }
        String::new()
    }

    /// Replaces the fact `id` when the state is ok, the fact exists and
    /// `update_allowed` holds; otherwise sets `storage-update-not-allowed` or
    /// `fact-not-found-for-update`.
    pub fn update(&mut self, id: &str, domain: &str, actor: &str, content: &str, ignore_access: bool)
        requires
            old(self).wf(),
        ensures
            final(self).wf(),
            final(self).same_settings(old(self)),
            final(self).last_id() == old(self).last_id(),
            old(self).failure() is Some ==> {
                &&& final(self).entries() == old(self).entries()
                &&& final(self).failure() == old(self).failure()
            },
            old(self).failure() is None && !has_key(old(self).entries(), id@) ==> {
                &&& final(self).entries() == old(self).entries()
                &&& final(self).failure() == Some(("fact-not-found-for-update"@, seq![("id"@, id@)]))
            },
            old(self).failure() is None && has_key(old(self).entries(), id@) ==> {
                let old_domain = old(self).entries()[key_index(old(self).entries(), id@)].1.0;
                if update_allowed(old(self).access_table(), old_domain, domain@, ignore_access) {
                    &&& final(self).failure() is None
                    &&& final(self).entries() == old(self).entries().update(
                        key_index(old(self).entries(), id@),
                        (id@, (domain@, actor@, content@)),
                    )
                } else {
                    &&& final(self).entries() == old(self).entries()
                    &&& final(self).failure() == Some(("storage-update-not-allowed"@, seq![("id"@, id@), ("content"@, content@)]))
                }
            },
            updated(*old(self), *final(self), id@, domain@, actor@, content@, ignore_access),
    {
        if self.state.is_ok() {
            let found = match self.get_by_id(id) {
                Some(v) => Some(v.0.clone()),
                None => None,
            };
            match found {
                Some(old_domain) => {
                    proof {
                        lemma_key_index(self.entries(), id@);
                    }
                    let same = str_eq(domain, old_domain.as_str());
                    if ignore_access || (same && self.check_access(domain, 'u')) || (!same
                        && self.check_access(domain, 'i') && self.check_access(
                        old_domain.as_str(),
                        'd',
                    )) {
                        self.put(id, domain, actor, content);
                    } else {
                        let mut d: Vec<(String, String)> = Vec::new();
                        d.push(pair("id", id));
                        d.push(pair("content", content));
                        self.state.set_state(literal("storage-update-not-allowed"), d);
                        assert(crate::state::details_view(d@) == seq![("id"@, id@), ("content"@, content@)]);
                    }
                },
                None => {
                    let mut d: Vec<(String, String)> = Vec::new();
                    d.push(pair("id", id));
                    self.state.set_state(literal("fact-not-found-for-update"), d);
                    assert(crate::state::details_view(d@) == seq![("id"@, id@)]);
                },
            }
        }
    }

    /// Removes the fact `id` when the state is ok, the fact exists and its
    /// domain grants `d` (or `no_right` is set); otherwise sets
    /// `storage-delete-not-allowed` or `fact-not-found-for-delete`.
    pub fn delete(&mut self, id: &str, no_right: bool)
        requires
            old(self).wf(),
        ensures
            final(self).wf(),
            final(self).same_settings(old(self)),
            final(self).last_id() == old(self).last_id(),
            old(self).failure() is Some ==> {
                &&& final(self).entries() == old(self).entries()
                &&& final(self).failure() == old(self).failure()
            },
            old(self).failure() is None && !has_key(old(self).entries(), id@) ==> {
                &&& final(self).entries() == old(self).entries()
                &&& final(self).failure() == Some(("fact-not-found-for-delete"@, seq![("id"@, id@)]))
            },
            old(self).failure() is None && has_key(old(self).entries(), id@) ==> {
                let old_domain = old(self).entries()[key_index(old(self).entries(), id@)].1.0;
                if no_right || allows(old(self).access_table(), old_domain, 'd') {
                    &&& final(self).failure() is None
                    &&& final(self).entries() == old(self).entries().remove(key_index(old(self).entries(), id@))
                } else {
                    &&& final(self).entries() == old(self).entries()
                    &&& final(self).failure() == Some(("storage-delete-not-allowed"@, seq![("id"@, id@)]))
                }
            },
            deleted(*old(self), *final(self), id@, no_right),
    {
        if self.state.is_ok() {
            let found = match self.get_by_id(id) {
                Some(v) => Some(v.0.clone()),
                None => None,
            };
            match found {
                Some(old_domain) => {
                    proof {
                        lemma_key_index(self.entries(), id@);
                    }
                    if no_right || self.check_access(old_domain.as_str(), 'd') {
                        proof {
                            lemma_unique_after_remove(self.entries(), id@);
                        }
                        map_shift_remove(&mut self.facts, id);
                    } else {
                        let mut d: Vec<(String, String)> = Vec::new();
                        d.push(pair("id", id));
                        self.state.set_state(literal("storage-delete-not-allowed"), d);
                        assert(crate::state::details_view(d@) == seq![("id"@, id@)]);
                    }
                },
                None => {
                    let mut d: Vec<(String, String)> = Vec::new();
                    d.push(pair("id", id));
                    self.state.set_state(literal("fact-not-found-for-delete"), d);
                    assert(crate::state::details_view(d@) == seq![("id"@, id@)]);
                },
            }
        }
    }
}

/// `s1` is `s0` after `Storage::insert` with these arguments.
pub open spec fn inserted(s0: Storage, s1: Storage, id: Seq<char>, domain: Seq<char>, actor: Seq<char>, content: Seq<char>, no_right: bool) -> bool {
    &&& s1.wf()
    &&& s1.same_settings(&s0)
    &&& s0.failure() is Some ==> {
        &&& s1.entries() == s0.entries()
        &&& s1.failure() == s0.failure()
        &&& s1.last_id() == s0.last_id()
    }
    &&& s0.failure() is None && (allows(s0.access_table(), domain, 'i') || no_right) ==> {
        &&& s1.failure() is None
        &&& id.len() == 0 ==> {
            &&& advanced(s0.last_id(), s1.last_id())
            &&& s1.entries() == entries_insert(s0.entries(), decimal(s1.last_id() as nat), (domain, actor, content))
        }
        &&& id.len() > 0 ==> {
            &&& s1.last_id() == s0.last_id()
            &&& s1.entries() == entries_insert(s0.entries(), id, (domain, actor, content))
        }
    }
    &&& s0.failure() is None && !(allows(s0.access_table(), domain, 'i') || no_right) ==> {
        &&& s1.entries() == s0.entries()
        &&& s1.last_id() == s0.last_id()
        &&& s1.failure() == Some(("storage-insert-not-allowed"@, seq![("domain"@, domain), ("actor"@, actor), ("content"@, content)]))
    }
}

/// `s1` is `s0` after `Storage::update` with these arguments.
pub open spec fn updated(s0: Storage, s1: Storage, id: Seq<char>, domain: Seq<char>, actor: Seq<char>, content: Seq<char>, ignore_access: bool) -> bool {
    &&& s1.wf()
    &&& s1.same_settings(&s0)
    &&& s1.last_id() == s0.last_id()
    &&& s0.failure() is Some ==> {
        &&& s1.entries() == s0.entries()
        &&& s1.failure() == s0.failure()
    }
    &&& s0.failure() is None && !has_key(s0.entries(), id) ==> {
        &&& s1.entries() == s0.entries()
        &&& s1.failure() == Some(("fact-not-found-for-update"@, seq![("id"@, id)]))
    }
    &&& s0.failure() is None && has_key(s0.entries(), id) ==> {
        let old_domain = s0.entries()[key_index(s0.entries(), id)].1.0;
        if update_allowed(s0.access_table(), old_domain, domain, ignore_access) {
            &&& s1.failure() is None
            &&& s1.entries() == s0.entries().update(
                key_index(s0.entries(), id),
                (id, (domain, actor, content)),
            )
        } else {
            &&& s1.entries() == s0.entries()
            &&& s1.failure() == Some(("storage-update-not-allowed"@, seq![("id"@, id), ("content"@, content)]))
        }
    }
}

/// `s1` is `s0` after `Storage::delete` with these arguments.
pub open spec fn deleted(s0: Storage, s1: Storage, id: Seq<char>, no_right: bool) -> bool {
    &&& s1.wf()
    &&& s1.same_settings(&s0)
    &&& s1.last_id() == s0.last_id()
    &&& s0.failure() is Some ==> {
        &&& s1.entries() == s0.entries()
        &&& s1.failure() == s0.failure()
    }
    &&& s0.failure() is None && !has_key(s0.entries(), id) ==> {
        &&& s1.entries() == s0.entries()
        &&& s1.failure() == Some(("fact-not-found-for-delete"@, seq![("id"@, id)]))
    }
    &&& s0.failure() is None && has_key(s0.entries(), id) ==> {
        let old_domain = s0.entries()[key_index(s0.entries(), id)].1.0;
        if no_right || allows(s0.access_table(), old_domain, 'd') {
            &&& s1.failure() is None
            &&& s1.entries() == s0.entries().remove(key_index(s0.entries(), id))
        } else {
            &&& s1.entries() == s0.entries()
            &&& s1.failure() == Some(("storage-delete-not-allowed"@, seq![("id"@, id)]))
        }
    }
}

/// Whether `d` is among `domains`.
pub open spec fn domain_listed(domains: Seq<Seq<char>>, d: Seq<char>) -> bool {
    domains.contains(d)
}

pub open spec fn strs_view(v: Seq<&str>) -> Seq<Seq<char>> {
    v.map_values(|d: &str| d@)
}

/// Every element of a filtered sequence is an element of the sequence.
pub proof fn lemma_filter_subset<A>(s: Seq<A>, p: spec_fn(A) -> bool)
    ensures
        forall|i: int| 0 <= i < s.filter(p).len() ==> s.contains(#[trigger] s.filter(p)[i]),
    decreases s.len(),
{
    reveal(Seq::filter);
    if s.len() > 0 {
        lemma_filter_subset(s.drop_last(), p);
        let f = s.filter(p);
        assert forall|i: int| 0 <= i < f.len() implies s.contains(#[trigger] f[i]) by {
            let g = s.drop_last().filter(p);
            if i < g.len() {
                assert(f[i] == g[i]);
                let j = choose|j: int| 0 <= j < s.drop_last().len() && s.drop_last()[j] == g[i];
                assert(s[j] == g[i]);
            } else {
                assert(f[i] == s.last());
                assert(s[s.len() - 1] == s.last());
            }
        }
    }
}

fn push_str(v: &mut Vec<char>, s: &str)
    ensures
        final(v)@ == old(v)@ + s@,
{
    let cs = chars_of(s);
    crate::text::append_chars(v, &cs);
}

/// Appends the text of one fact.
fn push_fact_text(out: &mut Vec<char>, delim: &str, id: &str, body: &FactBody)
    ensures
        final(out)@ == old(out)@ + fact_text(delim@, (id@, body@)),
{
    push_str(out, delim);
    out.push('|');
    push_str(out, body.0.as_str());
    out.push('|');
    push_str(out, body.1.as_str());
    out.push('|');
    push_str(out, id);
    out.push('\n');
    out.push('\n');
    push_str(out, body.2.as_str());
    out.push('\n');
    out.push('\n');
    assert(out@ == old(out)@ + fact_text(delim@, (id@, body@)));
}

impl Storage {
    /// The text of fact `id` with the storage's delimiter; empty when there is none.
    pub fn to_string_by_id(&self, id: &str) -> (r: String)
        ensures
            has_key(self.entries(), id@) ==> r@ == fact_text(
                self.delimiter(),
                (id@, self.entries()[key_index(self.entries(), id@)].1),
            ),
            !has_key(self.entries(), id@) ==> r@.len() == 0,
    {
        match self.get_by_id(id) {
            Some(v) => {
                let mut out: Vec<char> = Vec::new();
                push_fact_text(&mut out, self.fact_delimiter.as_str(), id, v);
                string_of(&out)
            },
            None => String::new(),
        }
    }

    /// The text of all facts, in order, with the storage's delimiter.
    pub fn to_string(&self) -> (r: String)
        ensures
            r@ == entries_text(self.delimiter(), self.entries()),
    {
        let ghost es = self.entries();
        let n = self.len();
        let mut out: Vec<char> = Vec::new();
        let mut i: usize = 0;
        assert(es.skip(0) == es);
        while i < n
            invariant
                es == self.entries(),
                n == es.len(),
                i <= n,
                entries_text(self.delimiter(), es) == out@ + entries_text(self.delimiter(), es.skip(i as int)),
            decreases n - i,
        {
            match self.entry_at(i) {
                Some(kv) => {
                    let (k, v) = kv;
                    assert(es.skip(i as int)[0] == es[i as int]);
                    assert(es.skip(i as int).drop_first() == es.skip(i + 1));
                    push_fact_text(&mut out, self.fact_delimiter.as_str(), k.as_str(), v);
                },
                None => {},
            }
            i = i + 1;
        }
        string_of(&out)
    }

    /// A new storage holding the facts whose domain is among `domains`, in
    /// their order, with default settings.
    pub fn split(&self, domains: &[&str]) -> (r: Storage)
        requires
            self.wf(),
        ensures
            r.wf(),
            r.entries() == self.entries().filter(|e: EntryView| domain_listed(strs_view(domains@), e.1.0)),
            r.access_table() == Seq::<(Seq<char>, Seq<char>)>::empty(),
            r.delimiter() == fact_mark(),
            r.last_id() == 0,
            r.failure() is None,
    {
        let ghost es = self.entries();
        let ghost p = |e: EntryView| domain_listed(strs_view(domains@), e.1.0);
        let mut r = Storage::new();
        let n = self.len();
        let mut i: usize = 0;
        assert(es.take(0).filter(p) == Seq::<EntryView>::empty()) by {
            reveal(Seq::filter);
        }
        while i < n
            invariant
                es == self.entries(),
                unique_keys(es),
                n == es.len(),
                i <= n,
                p == (|e: EntryView| domain_listed(strs_view(domains@), e.1.0)),
                r.wf(),
                r.entries() == es.take(i as int).filter(p),
                r.access_table() == Seq::<(Seq<char>, Seq<char>)>::empty(),
                r.delimiter() == fact_mark(),
                r.last_id() == 0,
                r.failure() is None,
            decreases n - i,
        {
            match self.entry_at(i) {
                Some(kv) => {
                    let (k, v) = kv;
                    assert(es.take(i + 1).drop_last() == es.take(i as int));
                    assert(es.take(i + 1).last() == es[i as int]);
                    let listed = listed_in(domains, v.0.as_str());
                    assert(listed == p(es[i as int]));
                    if listed {
                        proof {
                            let f = es.take(i as int).filter(p);
                            lemma_filter_subset(es.take(i as int), p);
                            lemma_key_index(f, k@);
                            if has_key(f, k@) {
                                let j = choose|j: int| 0 <= j < f.len() && (#[trigger] f[j]).0 == k@;
                                assert(es.take(i as int).contains(f[j]));
                                let m = choose|m: int| 0 <= m < es.take(i as int).len() && es.take(i as int)[m] == f[j];
                                assert(es[m] == f[j]);
                                assert(false);
                            }
                        }
                        r.put(k.as_str(), v.0.as_str(), v.1.as_str(), v.2.as_str());
                        assert(r.entries() == es.take(i + 1).filter(p)) by {
                            reveal(Seq::filter);
                        }
                    } else {
                        assert(r.entries() == es.take(i + 1).filter(p)) by {
                            reveal(Seq::filter);
                        }
                    }
                },
                None => {},
            }
            i = i + 1;
        }
        assert(es.take(n as int) == es);
        r
    }

    /// Removes the facts whose content is blank; the others keep their order.
    pub fn clear_empty_content(&mut self)
        requires
            old(self).wf(),
        ensures
            final(self).wf(),
            final(self).entries() == old(self).entries().filter(|e: EntryView| content_kept(e.1)),
            final(self).failure() == old(self).failure(),
            final(self).last_id() == old(self).last_id(),
            final(self).same_settings(old(self)),
    {
        map_retain_with_content(&mut self.facts);
        proof {
            let es = old(self).entries();
            let f = es.filter(|e: EntryView| content_kept(e.1));
            lemma_filter_subset(es, |e: EntryView| content_kept(e.1));
            lemma_filter_order(es, |e: EntryView| content_kept(e.1));
            assert forall|i: int, j: int| 0 <= i < f.len() && 0 <= j < f.len() && i != j implies (#[trigger] f[i]).0 != (#[trigger] f[j]).0 by {
                let (a, b) = choose|a: int, b: int| 0 <= a < es.len() && 0 <= b < es.len() && a != b && es[a] == f[i] && es[b] == f[j];
            }
        }
    }
}

/// Distinct positions of a filtered sequence come from distinct positions.
pub proof fn lemma_filter_order<A>(s: Seq<A>, p: spec_fn(A) -> bool)
    ensures
        forall|i: int, j: int| 0 <= i < s.filter(p).len() && 0 <= j < s.filter(p).len() && i != j ==>
            exists|a: int, b: int| 0 <= a < s.len() && 0 <= b < s.len() && a != b && s[a] == #[trigger] s.filter(p)[i] && s[b] == #[trigger] s.filter(p)[j],
    decreases s.len(),
{
    reveal(Seq::filter);
    if s.len() > 0 {
        let t = s.drop_last();
        lemma_filter_order(t, p);
        lemma_filter_subset(t, p);
        let f = s.filter(p);
        let g = t.filter(p);
        assert forall|i: int, j: int| 0 <= i < f.len() && 0 <= j < f.len() && i != j implies
            exists|a: int, b: int| 0 <= a < s.len() && 0 <= b < s.len() && a != b && s[a] == #[trigger] f[i] && s[b] == #[trigger] f[j] by {
            if i < g.len() && j < g.len() {
                assert(f[i] == g[i] && f[j] == g[j]);
                let (a, b) = choose|a: int, b: int| 0 <= a < t.len() && 0 <= b < t.len() && a != b && t[a] == g[i] && t[b] == g[j];
                assert(s[a] == t[a] && s[b] == t[b]);
            } else if i < g.len() {
                assert(f[i] == g[i]);
                assert(t.contains(g[i]));
                let a = choose|a: int| 0 <= a < t.len() && t[a] == g[i];
                assert(s[a] == t[a]);
                assert(f[j] == s.last());
                assert(s[s.len() - 1] == s.last());
            } else {
                assert(f[j] == g[j]);
                assert(t.contains(g[j]));
                let b = choose|b: int| 0 <= b < t.len() && t[b] == g[j];
                assert(s[b] == t[b]);
                assert(f[i] == s.last());
                assert(s[s.len() - 1] == s.last());
            }
        }
    }
}

/// Whether `d` is among `domains`.
fn listed_in(domains: &[&str], d: &str) -> (r: bool)
    ensures
        r == domain_listed(strs_view(domains@), d@),
{
    let mut i: usize = 0;
    while i < domains.len()
        invariant
            i <= domains@.len(),
            forall|j: int| 0 <= j < i ==> domains@[j]@ != d@,
        decreases domains@.len() - i,
    {
        if str_eq(domains[i], d) {
            assert(strs_view(domains@)[i as int] == d@);
            return true;
        }
        i = i + 1;
    }
    assert(!strs_view(domains@).contains(d@)) by {
        if strs_view(domains@).contains(d@) {
            let j = choose|j: int| 0 <= j < strs_view(domains@).len() && strs_view(domains@)[j] == d@;
            assert(domains@[j]@ == d@);
        }
    }
    false
}

/// A header line's fields: (domain, actor, id, the rest joined by `|`).
pub type HeaderView = (Seq<char>, Seq<char>, Seq<char>, Seq<char>);

/// The fields of a header line `#FACT|<domain>|<actor>|<id>[|...]`, or
/// `None` for any other line. Missing fields are empty.
pub open spec fn header_of(line: Seq<char>) -> Option<HeaderView> {
    let parts = split(line, '|');
    if parts.len() >= 2 && parts[0] == fact_mark() {
        Some(
            (
                parts[1],
                if parts.len() >= 3 { parts[2] } else { Seq::<char>::empty() },
                if parts.len() >= 4 { parts[3] } else { Seq::<char>::empty() },
                if parts.len() >= 5 { join(parts.skip(4), seq!['|']) } else { Seq::<char>::empty() },
            ),
        )
    } else {
        None
    }
}

/// The fact that a header and its body lines make: the header's id, domain
/// and actor, and the body lines joined by `'\n'` and trimmed.
pub open spec fn emit(cur: Option<HeaderView>, body: Seq<Seq<char>>) -> Seq<EntryView> {
    match cur {
        Some(h) => seq![(h.2, (h.0, h.1, trim(join(body, seq!['\n']))))],
        None => seq![],
    }
}

/// The facts of the remaining lines `ls`, given the header `cur` under way
/// and the body lines gathered for it. Lines before the first header are
/// ignored.
pub open spec fn blocks_from(ls: Seq<Seq<char>>, cur: Option<HeaderView>, body: Seq<Seq<char>>) -> Seq<EntryView>
    decreases ls.len(),
{
    if ls.len() == 0 {
        emit(cur, body)
    } else {
        match header_of(ls[0]) {
            Some(h) => emit(cur, body) + blocks_from(ls.drop_first(), Some(h), seq![]),
            None => blocks_from(
                ls.drop_first(),
                cur,
                if cur is Some { body.push(ls[0]) } else { body },
            ),
        }
    }
}

/// Whether a storage at `(last1, es1)` is one at `(last0, es0)` after
/// reading `content` (see `Storage::parse`).
pub open spec fn parsed(last0: u128, es0: Seq<EntryView>, content: Seq<char>, last1: u128, es1: Seq<EntryView>) -> bool {
    exists|gen: Seq<u128>| {
        &&& chain_ok(last0, parse_blocks(content), gen)
        &&& last1 == chain_last(last0, parse_blocks(content), gen)
        &&& #[trigger] insert_all(es0, resolve_ids(parse_blocks(content), gen)) == es1
    }
}

/// The facts written in `content`, in order, with their ids as written.
pub open spec fn parse_blocks(content: Seq<char>) -> Seq<EntryView> {
    blocks_from(lines(content), None, seq![])
}

/// The facts with each new-id marker replaced by the decimal id generated for it.
pub open spec fn resolve_ids(bs: Seq<EntryView>, gen: Seq<u128>) -> Seq<EntryView> {
    Seq::new(bs.len(), |j: int| if is_new_id(bs[j].0) { (decimal(gen[j] as nat), bs[j].1) } else { bs[j] })
}

/// The id counter after the generated ids `gen` (one per fact; used where the
/// fact's id is a new-id marker).
pub open spec fn chain_last(last: u128, bs: Seq<EntryView>, gen: Seq<u128>) -> u128
    decreases bs.len(),
{
    if bs.len() == 0 {
        last
    } else if is_new_id(bs.last().0) {
        gen[bs.len() - 1]
    } else {
        chain_last(last, bs.drop_last(), gen.take(bs.len() - 1))
    }
}

/// Each generated id came from one reading of the clock after the previous one.
pub open spec fn chain_ok(last: u128, bs: Seq<EntryView>, gen: Seq<u128>) -> bool
    decreases bs.len(),
{
    if bs.len() == 0 {
        gen.len() == 0
    } else {
        &&& gen.len() == bs.len()
        &&& chain_ok(last, bs.drop_last(), gen.take(bs.len() - 1))
        &&& is_new_id(bs.last().0) ==> advanced(
            chain_last(last, bs.drop_last(), gen.take(bs.len() - 1)),
            gen[bs.len() - 1],
        )
    }
}

/// The entries after inserting `bs` one after another.
pub open spec fn insert_all(es: Seq<EntryView>, bs: Seq<EntryView>) -> Seq<EntryView>
    decreases bs.len(),
{
    if bs.len() == 0 {
        es
    } else {
        entries_insert(insert_all(es, bs.drop_last()), bs.last().0, bs.last().1)
    }
}

/// The fields of a header line, or `None`.
fn parse_header(line: &[char]) -> (r: Option<(Vec<char>, Vec<char>, Vec<char>, Vec<char>)>)
    ensures
        match r {
            Some(h) => header_of(line@) == Some((h.0@, h.1@, h.2@, h.3@)),
            None => header_of(line@) is None,
        },
{
    let parts = split_chars(line, '|');
    let ghost ps = split(line@, '|');
    if parts.len() >= 2 && is_mark(&parts[0]) {
        let domain = slice_copy_all(&parts[1]);
        let actor = if parts.len() >= 3 { slice_copy_all(&parts[2]) } else { Vec::new() };
        let id = if parts.len() >= 4 { slice_copy_all(&parts[3]) } else { Vec::new() };
        let rest = if parts.len() >= 5 {
            let mut tail: Vec<Vec<char>> = Vec::new();
            let mut k: usize = 4;
            while k < parts.len()
                invariant
                    4 <= k <= parts@.len(),
                    parts@.len() == ps.len(),
                    forall|j: int| 0 <= j < parts@.len() ==> #[trigger] parts@[j]@ == ps[j],
                    tail@.len() == k - 4,
                    forall|j: int| 0 <= j < tail@.len() ==> #[trigger] tail@[j]@ == ps[j + 4],
                decreases parts@.len() - k,
            {
                tail.push(slice_copy_all(&parts[k]));
                k = k + 1;
            }
            let bar = ['|'];
            let joined = join_chars(&tail, &bar);
            assert(tail@.map_values(|p: Vec<char>| p@) == ps.skip(4));
            assert(bar@ == seq!['|']);
            joined
        } else {
            Vec::new()
        };
        Some((domain, actor, id, rest))
    } else {
        None
    }
}

fn slice_copy_all(v: &Vec<char>) -> (r: Vec<char>)
    ensures
        r@ == v@,
{
    let r = crate::text::slice_copy(v.as_slice(), 0, v.len());
    assert(v@.subrange(0, v@.len() as int) == v@);
    r
}

pub open spec fn hdr_view(c: Option<(Vec<char>, Vec<char>, Vec<char>, Vec<char>)>) -> Option<HeaderView> {
    match c {
        Some(h) => Some((h.0@, h.1@, h.2@, h.3@)),
        None => None,
    }
}

/// Whether `v` is `#FACT`.
fn is_mark(v: &Vec<char>) -> (r: bool)
    ensures
        r == (v@ == fact_mark()),
{
    let r = v.len() == 5 && v[0] == '#' && v[1] == 'F' && v[2] == 'A' && v[3] == 'C' && v[4] == 'T';
    if r {
        assert(v@ == fact_mark());
    }
    r
}

/// Whether `v` is a new-id marker (`-`, `NEW`, `new`).
fn is_new_marker(v: &Vec<char>) -> (r: bool)
    ensures
        r == is_new_id(v@),
{
    let r = (v.len() == 1 && v[0] == '-') || (v.len() == 3 && v[0] == 'N' && v[1] == 'E' && v[2] == 'W')
        || (v.len() == 3 && v[0] == 'n' && v[1] == 'e' && v[2] == 'w');
    if v.len() == 1 && v[0] == '-' {
        assert(v@ == seq!['-']);
    }
    if v.len() == 3 && v[0] == 'N' && v[1] == 'E' && v[2] == 'W' {
        assert(v@ == seq!['N', 'E', 'W']);
    }
    if v.len() == 3 && v[0] == 'n' && v[1] == 'e' && v[2] == 'w' {
        assert(v@ == seq!['n', 'e', 'w']);
    }
    r
}

impl Storage {
    /// Inserts the fact that header `h` and `body` make; a new-id marker gets
    /// a generated id, whose counter value is handed back.
    fn emit_fact(&mut self, h: &(Vec<char>, Vec<char>, Vec<char>, Vec<char>), body: &Vec<Vec<char>>) -> (g: Ghost<u128>)
        requires
            old(self).wf(),
        ensures
            final(self).wf(),
            final(self).same_settings(old(self)),
            final(self).failure() == old(self).failure(),
            ({
                let b = emit(Some((h.0@, h.1@, h.2@, h.3@)), body@.map_values(|l: Vec<char>| l@))[0];
                if is_new_id(b.0) {
                    &&& advanced(old(self).last_id(), g@)
                    &&& final(self).last_id() == g@
                    &&& final(self).entries() == entries_insert(old(self).entries(), decimal(g@ as nat), b.1)
                } else {
                    &&& final(self).last_id() == old(self).last_id()
                    &&& final(self).entries() == entries_insert(old(self).entries(), b.0, b.1)
                }
            }),
    {
        let nl = ['\n'];
        let joined = join_chars(body, &nl);
        assert(nl@ == seq!['\n']);
        let content = trim_chars(&joined);
        let content_s = string_of(&content);
        let domain = string_of(&h.0);
        let actor = string_of(&h.1);
        if is_new_marker(&h.2) {
            let gid = self.generate_id();
            let ghost g = self.last_id();
            self.put(gid.as_str(), domain.as_str(), actor.as_str(), content_s.as_str());
            Ghost(g)
        } else {
            let id = string_of(&h.2);
            self.put(id.as_str(), domain.as_str(), actor.as_str(), content_s.as_str());
            Ghost(self.last_id())
        }
    }

    /// Reads the facts written in `content` (see `parse_blocks`) and inserts
    /// them in order; a fact whose id is a new-id marker gets a generated id.
    pub fn parse(&mut self, content: &str)
        requires
            old(self).wf(),
        ensures
            final(self).wf(),
            final(self).same_settings(old(self)),
            final(self).failure() == old(self).failure(),
            exists|gen: Seq<u128>| {
                &&& chain_ok(old(self).last_id(), parse_blocks(content@), gen)
                &&& final(self).last_id() == chain_last(old(self).last_id(), parse_blocks(content@), gen)
                &&& final(self).entries() == insert_all(old(self).entries(), resolve_ids(parse_blocks(content@), gen))
            },
            parsed(old(self).last_id(), old(self).entries(), content@, final(self).last_id(), final(self).entries()),
    {
        let cs = chars_of(content);
        let ls = lines_of(&cs);
        let ghost lv = lines(content@);
        let n = ls.len();
        let mut cur: Option<(Vec<char>, Vec<char>, Vec<char>, Vec<char>)> = None;
        let mut body: Vec<Vec<char>> = Vec::new();
        let ghost mut emitted: Seq<EntryView> = seq![];
        let ghost mut gen: Seq<u128> = seq![];
        let mut i: usize = 0;
        assert(lv.skip(0) == lv);
        assert(body@.map_values(|l: Vec<char>| l@) == Seq::<Seq<char>>::empty());
        while i < n
            invariant
                lv == lines(content@),
                n == lv.len(),
                ls@.len() == n,
                forall|k: int| 0 <= k < n ==> #[trigger] ls@[k]@ == lv[k],
                i <= n,
                self.wf(),
                self.same_settings(old(self)),
                self.failure() == old(self).failure(),
                parse_blocks(content@) == emitted + blocks_from(
                    lv.skip(i as int),
                    hdr_view(cur),
                    body@.map_values(|l: Vec<char>| l@),
                ),
                chain_ok(old(self).last_id(), emitted, gen),
                self.last_id() == chain_last(old(self).last_id(), emitted, gen),
                self.entries() == insert_all(old(self).entries(), resolve_ids(emitted, gen)),
            decreases n - i,
        {
            let ghost cv = hdr_view(cur);
            let ghost bv = body@.map_values(|l: Vec<char>| l@);
            assert(lv.skip(i as int)[0] == lv[i as int]);
            assert(lv.skip(i as int).drop_first() == lv.skip(i + 1));
            match parse_header(&ls[i]) {
                Some(h) => {
                    match cur {
                        Some(c) => {
                            let g = self.emit_fact(&c, &body);
                            proof {
                                let b = emit(cv, bv)[0];
                                self.lemma_parse_step(emitted, gen, b, g@, old(self).last_id(), old(self).entries());
                                emitted = emitted.push(b);
                                gen = gen.push(g@);
                            }
                        },
                        None => {},
                    }
                    cur = Some(h);
                    body = Vec::new();
                    assert(body@.map_values(|l: Vec<char>| l@) == Seq::<Seq<char>>::empty());
                },
                None => {
                    if cur.is_some() {
                        let line = slice_copy_all(&ls[i]);
                        body.push(line);
                        assert(body@.map_values(|l: Vec<char>| l@) == bv.push(lv[i as int]));
                    }
                },
            }
            i = i + 1;
        }
        let ghost cv = hdr_view(cur);
        let ghost bv = body@.map_values(|l: Vec<char>| l@);
        assert(lv.skip(n as int).len() == 0);
        match cur {
            Some(c) => {
                let g = self.emit_fact(&c, &body);
                proof {
                    let b = emit(cv, bv)[0];
                    self.lemma_parse_step(emitted, gen, b, g@, old(self).last_id(), old(self).entries());
                    emitted = emitted.push(b);
                    gen = gen.push(g@);
                }
            },
            None => {},
        }
        assert(parse_blocks(content@) == emitted);
        assert(insert_all(old(self).entries(), resolve_ids(parse_blocks(content@), gen)) == self.entries());
    }

    proof fn lemma_parse_step(&self, emitted: Seq<EntryView>, gen: Seq<u128>, b: EntryView, g: u128, last0: u128, es0: Seq<EntryView>)
        requires
            chain_ok(last0, emitted, gen),
            is_new_id(b.0) ==> advanced(chain_last(last0, emitted, gen), g) && self.last_id() == g
                && self.entries() == entries_insert(insert_all(es0, resolve_ids(emitted, gen)), decimal(g as nat), b.1),
            !is_new_id(b.0) ==> self.last_id() == chain_last(last0, emitted, gen)
                && self.entries() == entries_insert(insert_all(es0, resolve_ids(emitted, gen)), b.0, b.1),
        ensures
            chain_ok(last0, emitted.push(b), gen.push(g)),
            self.last_id() == chain_last(last0, emitted.push(b), gen.push(g)),
            self.entries() == insert_all(es0, resolve_ids(emitted.push(b), gen.push(g))),
    {
        let e2 = emitted.push(b);
        let g2 = gen.push(g);
        assert(e2.drop_last() == emitted);
        assert(g2.take(e2.len() - 1) == gen) by {
            if emitted.len() == 0 {
                assert(gen.len() == 0);
            }
        }
        let r = resolve_ids(e2, g2);
        assert(r.drop_last() == resolve_ids(emitted, gen)) by {
            if emitted.len() == 0 {
                assert(gen.len() == 0);
            }
        }
    }
}

proof fn lemma_access_set_at(acc: Seq<(Seq<char>, Seq<char>)>, domain: Seq<char>, rights: Seq<char>, i: int)
    requires
        0 <= i <= acc.len(),
        forall|j: int| 0 <= j < i ==> acc[j].0 != domain,
        i < acc.len() ==> acc[i].0 == domain,
    ensures
        access_set(acc, domain, rights) == if i < acc.len() {
            acc.update(i, (domain, rights))
        } else {
            acc.push((domain, rights))
        },
    decreases i,
{
    if i > 0 {
        lemma_access_set_at(acc.drop_first(), domain, rights, i - 1);
        if i < acc.len() {
            assert(seq![acc[0]] + acc.drop_first().update(i - 1, (domain, rights)) == acc.update(i, (domain, rights)));
        } else {
            assert(seq![acc[0]] + acc.drop_first().push((domain, rights)) == acc.push((domain, rights)));
        }
    } else if acc.len() == 0 {
        assert(seq![(domain, rights)] == acc.push((domain, rights)));
    }
}


/// What reading a storage file gave.
pub enum ReadOutcome {
    /// The file's text.
    Content(String),
    /// There is no such file.
    Missing,
    /// It could not be read, with the error.
    Failed(String),
}

/// What writing a storage file gave.
pub enum WriteOutcome {
    /// It was written.
    Written,
    /// Its directory could not be made, with the error.
    DirFailed(String),
    /// It could not be written, with the error.
    WriteFailed(String),
}

impl Storage {
    /// The state of the storage, to change.
    pub fn get_state_mut(&mut self) -> (r: &mut State)
        ensures
            r.view_failure() == old(self).failure(),
            final(self).failure() == final(r).view_failure(),
            final(self).entries() == old(self).entries(),
            final(self).access_table() == old(self).access_table(),
            final(self).delimiter() == old(self).delimiter(),
            final(self).last_id() == old(self).last_id(),
    {
        &mut self.state
    }

    /// Loads the storage from the text of its file (read by the caller from
    /// `path`): the facts are replaced by those of the text; a missing file
    /// changes nothing; a file that cannot be read sets `storage-load-error`.
    pub fn load(&mut self, path: &str, read: ReadOutcome)
        requires
            old(self).wf(),
        ensures
            final(self).wf(),
            final(self).same_settings(old(self)),
            match read {
                ReadOutcome::Content(c) => {
                    &&& parsed(old(self).last_id(), seq![], c@, final(self).last_id(), final(self).entries())
                    &&& final(self).failure() == old(self).failure()
                },
                ReadOutcome::Missing => {
                    &&& final(self).entries() == old(self).entries()
                    &&& final(self).failure() == old(self).failure()
                    &&& final(self).last_id() == old(self).last_id()
                },
                ReadOutcome::Failed(e) => {
                    &&& final(self).entries() == old(self).entries()
                    &&& final(self).last_id() == old(self).last_id()
                    &&& final(self).failure() == Some(("storage-load-error"@, seq![("path"@, path@), ("error"@, e@)]))
                },
            },
    {
        match read {
            ReadOutcome::Content(c) => {
                self.clear();
                self.parse(c.as_str());
            },
            ReadOutcome::Missing => {},
            ReadOutcome::Failed(e) => {
                let mut d: Vec<(String, String)> = Vec::new();
                d.push(pair("path", path));
                d.push(("error".to_owned(), e));
                assert(crate::state::details_view(d@) =~= seq![("path"@, path@), ("error"@, e@)]);
                self.state.set_state(literal("storage-load-error"), d);
            },
        }
    }

    /// Records the outcome of saving the storage's text (`to_string`) to
    /// `path`: a directory that cannot be made sets `storage-save-dir-error`,
    /// a file that cannot be written `storage-save-error`.
    pub fn save(&mut self, path: &str, written: WriteOutcome)
        ensures
            final(self).entries() == old(self).entries(),
            final(self).last_id() == old(self).last_id(),
            final(self).same_settings(old(self)),
            old(self).wf() ==> final(self).wf(),
            match written {
                WriteOutcome::Written => final(self).failure() == old(self).failure(),
                WriteOutcome::DirFailed(e) => final(self).failure() == Some(("storage-save-dir-error"@, seq![("path"@, path@), ("error"@, e@)])),
                WriteOutcome::WriteFailed(e) => final(self).failure() == Some(("storage-save-error"@, seq![("path"@, path@), ("error"@, e@)])),
            },
    {
        match written {
            WriteOutcome::Written => {},
            WriteOutcome::DirFailed(e) => {
                let mut d: Vec<(String, String)> = Vec::new();
                d.push(pair("path", path));
                d.push(("error".to_owned(), e));
                assert(crate::state::details_view(d@) =~= seq![("path"@, path@), ("error"@, e@)]);
                self.state.set_state(literal("storage-save-dir-error"), d);
            },
            WriteOutcome::WriteFailed(e) => {
                let mut d: Vec<(String, String)> = Vec::new();
                d.push(pair("path", path));
                d.push(("error".to_owned(), e));
                assert(crate::state::details_view(d@) =~= seq![("path"@, path@), ("error"@, e@)]);
                self.state.set_state(literal("storage-save-error"), d);
            },
        }
    }
}

} // verus!
