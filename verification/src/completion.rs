//! Shell completion: the keys the command line knows, the values a key
//! takes, and which candidates to offer for the word under the cursor.
use crate::ai::{keys_view, Ai};
use crate::text::{chars_of, find_char, is_ws, string_of};
use vstd::prelude::*;

verus! {

broadcast use vstd::std_specs::vec::group_vec_axioms;

pub open spec fn strings_view(v: Seq<String>) -> Seq<Seq<char>> {
    v.map_values(|s: String| s@)
}

/// Whether `s` starts with `p`.
pub open spec fn starts_with(s: Seq<char>, p: Seq<char>) -> bool {
    p.len() <= s.len() && s.take(p.len() as int) == p
}

/// The candidates that start with `prefix`, in order.
pub open spec fn with_prefix(v: Seq<Seq<char>>, prefix: Seq<char>) -> Seq<Seq<char>>
    decreases v.len(),
{
    if v.len() == 0 {
        seq![]
    } else if starts_with(v.last(), prefix) {
        with_prefix(v.drop_last(), prefix).push(v.last())
    } else {
        with_prefix(v.drop_last(), prefix)
    }
}

/// Whether `s` starts with `p` (`str::starts_with`).
pub fn str_starts_with(s: &str, p: &str) -> (r: bool)
    ensures
        r == starts_with(s@, p@),
{
    let v = chars_of(s);
    let q = chars_of(p);
    if q.len() > v.len() {
        return false;
    }
    let r = crate::text::matches_at(&v, 0, &q);
    assert(v@.subrange(0, q@.len() as int) =~= v@.take(q@.len() as int));
    r
}

/// The values that start with `val`, in order.
pub fn compl_filter_by_key(values: &Vec<String>, val: &str) -> (r: Vec<String>)
    ensures
        strings_view(r@) == with_prefix(strings_view(values@), val@),
{
    let ghost vs = strings_view(values@);
    let mut r: Vec<String> = Vec::new();
    let mut i: usize = 0;
    assert(vs.take(0) =~= Seq::<Seq<char>>::empty());
    assert(strings_view(r@) =~= Seq::<Seq<char>>::empty());
    while i < values.len()
        invariant
            vs == strings_view(values@),
            i <= values@.len(),
            strings_view(r@) == with_prefix(vs.take(i as int), val@),
        decreases values@.len() - i,
    {
        assert(vs.take(i + 1).drop_last() =~= vs.take(i as int));
        assert(vs.take(i + 1).last() == values@[i as int]@);
        if str_starts_with(values[i].as_str(), val) {
            let ghost before = strings_view(r@);
            r.push(values[i].clone());
            assert(strings_view(r@) =~= before.push(values@[i as int]@));
        }
        i = i + 1;
    }
    assert(vs.take(values@.len() as int) =~= vs);
    r
}

fn strings_of(v: &Vec<&str>) -> (r: Vec<String>)
    ensures
        strings_view(r@) == keys_view(v@),
{
    let mut r: Vec<String> = Vec::new();
    let mut i: usize = 0;
    while i < v.len()
        invariant
            i <= v@.len(),
            strings_view(r@) == keys_view(v@.take(i as int)),
        decreases v@.len() - i,
    {
        let ghost before = strings_view(r@);
        r.push(v[i].to_owned());
        assert(strings_view(r@) =~= before.push(v@[i as int]@));
        assert(keys_view(v@.take(i + 1)) =~= keys_view(v@.take(i as int)).push(v@[i as int]@));
        i = i + 1;
    }
    assert(v@.take(v@.len() as int) =~= v@);
    r
}

/// The keys every command line knows.
pub open spec fn help_keys() -> Seq<Seq<char>> {
    seq!["-?"@, "-h"@, "--help"@, "-v"@, "--version"@]
}

/// The keys known once a profile directory exists.
pub open spec fn session_keys() -> Seq<Seq<char>> {
    seq![
        "--info"@, "-i"@, "--no-prompt"@, "--no-command"@, "--color"@, "--status"@, "--set"@,
        "--read"@, "--write"@, "--restore"@, "--profile"@, "--provider"@, "--model"@, "--chat"@,
        "--memory"@, "--prompt"@, "--bind-profile"@, "--bind-provider"@, "--bind-prompt"@,
        "--bind-model"@, "--bind-chat"@, "--bind-memory"@, "--access-history"@, "--access-memory"@,
        "--access-prompt"@, "-rmh"@, "--out-history"@, "-oh"@, "--remove-history"@, "-rh"@,
        "--out-memory"@, "-om"@, "--remove-memory"@, "-rm"@, "--out-prompt"@, "-op"@,
        "--out-prompt-content"@, "-opc"@, "--build-prompt"@, "--select-fact"@, "--delete-fact"@,
        "--update-fact"@, "--insert-fact"@, "--comp-line"@, "--comp-point"@, "--tiocsti"@,
    ]
}

/// The keys of a fact that is inserted or updated.
pub open spec fn fact_keys() -> Seq<Seq<char>> {
    seq!["--actor"@, "--body"@, "--domain"@]
}

/// The keys offered: the help keys, then `--init` without a profile
/// directory or the session keys with one, then the fact keys when the line
/// holds `--update` or `--insert`.
pub open spec fn completion_keys(has_profiles: bool, comp_line: Seq<char>) -> Seq<Seq<char>> {
    help_keys() + (if has_profiles { session_keys() } else { seq!["--init"@] }) + (if crate::ai::contains_seq(comp_line, "--update"@) || crate::ai::contains_seq(comp_line, "--insert"@) {
        fact_keys()
    } else {
        seq![]
    })
}

fn push_all(r: &mut Vec<&'static str>, v: &Vec<&'static str>)
    ensures
        keys_view(final(r)@) == keys_view(old(r)@) + keys_view(v@),
{
    let mut i: usize = 0;
    while i < v.len()
        invariant
            i <= v@.len(),
            keys_view(r@) == keys_view(old(r)@) + keys_view(v@.take(i as int)),
        decreases v@.len() - i,
    {
        let ghost before = keys_view(r@);
        r.push(v[i]);
        assert(keys_view(r@) =~= before.push(v@[i as int]@));
        assert(keys_view(v@.take(i + 1)) =~= keys_view(v@.take(i as int)).push(v@[i as int]@));
        i = i + 1;
    }
    assert(v@.take(v@.len() as int) =~= v@);
}

fn session_key_list() -> (r: Vec<&'static str>)
    ensures
        keys_view(r@) == session_keys(),
{
    let r: Vec<&'static str> = vec![
        "--info", "-i", "--no-prompt", "--no-command", "--color", "--status", "--set",
        "--read", "--write", "--restore", "--profile", "--provider", "--model", "--chat",
        "--memory", "--prompt", "--bind-profile", "--bind-provider", "--bind-prompt",
        "--bind-model", "--bind-chat", "--bind-memory", "--access-history", "--access-memory",
        "--access-prompt", "-rmh", "--out-history", "-oh", "--remove-history", "-rh",
        "--out-memory", "-om", "--remove-memory", "-rm", "--out-prompt", "-op",
        "--out-prompt-content", "-opc", "--build-prompt", "--select-fact", "--delete-fact",
        "--update-fact", "--insert-fact", "--comp-line", "--comp-point", "--tiocsti",
    ];
    assert(keys_view(r@) =~= session_keys());
    r
}

/// The keys that start with `key` (see `completion_keys`); `has_profiles`
/// tells whether a profile directory was found.
pub fn find_keys(has_profiles: bool, key: &str, comp_line: &str) -> (r: Vec<String>)
    ensures
        strings_view(r@) == with_prefix(completion_keys(has_profiles, comp_line@), key@),
{
    let mut all: Vec<&'static str> = vec!["-?", "-h", "--help", "-v", "--version"];
    assert(keys_view(all@) =~= help_keys());
    if has_profiles {
        let s = session_key_list();
        push_all(&mut all, &s);
    } else {
        let s: Vec<&'static str> = vec!["--init"];
        assert(keys_view(s@) =~= seq!["--init"@]);
        push_all(&mut all, &s);
    }
    if crate::ai::contains_str(comp_line, "--update") || crate::ai::contains_str(comp_line, "--insert") {
        let s: Vec<&'static str> = vec!["--actor", "--body", "--domain"];
        assert(keys_view(s@) =~= fact_keys());
        push_all(&mut all, &s);
    } else {
        assert(keys_view(all@) =~= keys_view(all@) + Seq::<Seq<char>>::empty());
    }
    let owned = strings_of(&all);
    compl_filter_by_key(&owned, key)
}

/// The access rights offered as values.
pub open spec fn access_values() -> Seq<Seq<char>> {
    seq![
        "s"@, "u"@, "i"@, "d"@, "su"@, "si"@, "sd"@, "ui"@, "ud"@, "id"@,
        "sui"@, "sud"@, "siu"@, "sid"@, "sdu"@, "sdi"@, "uis"@, "uid"@, "usi"@, "usd"@, "udi"@, "uds"@,
        "ids"@, "idu"@, "dis"@, "diu"@, "suid"@, "sudi"@, "siud"@, "sidu"@, "sdui"@, "sdiu"@,
        "usid"@, "usdi"@, "uisd"@, "uids"@, "udsi"@, "udis"@, "isud"@, "isdu"@, "iusd"@, "iuds"@,
        "idus"@, "idsu"@, "dsui"@, "dsiu"@, "dusi"@, "duis"@, "disu"@, "dius"@,
    ]
}

/// The access rights offered as values (see `access_values`).
pub fn get_complete_value_access() -> (r: Vec<String>)
    ensures
        strings_view(r@) == access_values(),
{
    let v: Vec<&'static str> = vec![
        "s", "u", "i", "d", "su", "si", "sd", "ui", "ud", "id",
        "sui", "sud", "siu", "sid", "sdu", "sdi", "uis", "uid", "usi", "usd", "udi", "uds",
        "ids", "idu", "dis", "diu", "suid", "sudi", "siud", "sidu", "sdui", "sdiu",
        "usid", "usdi", "uisd", "uids", "udsi", "udis", "isud", "isdu", "iusd", "iuds",
        "idus", "idsu", "dsui", "dsiu", "dusi", "duis", "disu", "dius",
    ];
    assert(keys_view(v@) =~= access_values());
    strings_of(&v)
}

/// The word under the cursor: the text after the last space of `line`,
/// split at its first `=` into key and value (with whether there was one).
pub open spec fn current_word(line: Seq<char>) -> (Seq<char>, Seq<char>, bool) {
    let current = crate::text::split(line, ' ').last();
    let i = find_char(current, '=');
    if i >= 0 {
        (current.take(i), current.skip(i + 1), true)
    } else {
        (current, seq![], false)
    }
}

/// The word under the cursor (see `current_word`).
pub fn split_current(line: &str) -> (r: (String, String, bool))
    ensures
        (r.0@, r.1@, r.2) == current_word(line@),
{
    let cs = chars_of(line);
    let parts = crate::text::split_chars(&cs, ' ');
    proof {
        crate::text::lemma_split_nonempty(line@, ' ');
    }
    let last = &parts[parts.len() - 1];
    let ghost cur = crate::text::split(line@, ' ').last();
    assert(last@ == cur);
    assert(last@.skip(0) =~= last@);
    let n = last.len();
    match crate::text::find_char_from(last.as_slice(), 0, '=') {
        Some(i) => {
            let k = crate::text::slice_copy(last.as_slice(), 0, i);
            let v = crate::text::slice_copy(last.as_slice(), i + 1, n);
            assert(k@ =~= cur.take(i as int));
            assert(v@ =~= cur.skip(i + 1));
            (string_of(&k), string_of(&v), true)
        },
        None => {
            (string_of(last.as_slice()), String::new(), false)
        },
    }
}

/// The candidates to print for the word under the cursor, given the keys
/// that start with its key and the values of that key: several keys are all
/// offered; one key that is not yet complete is completed; a complete key
/// is followed by a space (no values), or by `=` (values but no `=` typed
/// yet); after `=` its one value or all its values are offered.
pub open spec fn completion_list(keys: Seq<Seq<char>>, key: Seq<char>, eq: bool, values: Seq<Seq<char>>) -> Seq<Seq<char>> {
    if keys.len() == 0 {
        seq![]
    } else if keys.len() == 1 {
        if key == keys[0] {
            if values.len() == 0 {
                if eq { seq![] } else { seq![key + seq![' ']] }
            } else if values.len() == 1 {
                if eq { seq![values[0]] } else { seq![key + seq!['=']] }
            } else {
                if eq { values } else { seq![key + seq!['=']] }
            }
        } else {
            seq![keys[0]]
        }
    } else {
        keys
    }
}

fn with_char(s: &str, c: char) -> (r: String)
    ensures
        r@ == s@ + seq![c],
{
    let mut v = chars_of(s);
    v.push(c);
    string_of(&v)
}

/// The candidates to print (see `completion_list`).
pub fn complete(keys: &Vec<String>, key: &str, eq: bool, values: &Vec<String>) -> (r: Vec<String>)
    ensures
        strings_view(r@) == completion_list(strings_view(keys@), key@, eq, strings_view(values@)),
{
    let mut r: Vec<String> = Vec::new();
    assert(strings_view(r@) =~= Seq::<Seq<char>>::empty());
    if keys.len() == 0 {
        return r;
    }
    if keys.len() > 1 {
        let c = keys.clone();
        assert(c@ == keys@);
        return c;
    }
    if !crate::text::str_eq(key, keys[0].as_str()) {
        r.push(keys[0].clone());
        assert(strings_view(r@) =~= seq![keys@[0]@]);
        return r;
    }
    if values.len() == 0 {
        if !eq {
            r.push(with_char(key, ' '));
            assert(strings_view(r@) =~= seq![key@ + seq![' ']]);
        }
        r
    } else if values.len() == 1 {
        if eq {
            r.push(values[0].clone());
            assert(strings_view(r@) =~= seq![values@[0]@]);
        } else {
            r.push(with_char(key, '='));
            assert(strings_view(r@) =~= seq![key@ + seq!['=']]);
        }
        r
    } else {
        if eq {
            let c = values.clone();
            assert(c@ == values@);
            c
        } else {
            r.push(with_char(key, '='));
            assert(strings_view(r@) =~= seq![key@ + seq!['=']]);
            r
        }
    }
}

/// Where the values of a key come from.
#[derive(PartialEq, Eq, Structural, Clone, Copy, Debug)]
pub enum ValueSource {
    /// Files next to the typed path.
    Files,
    /// The sets the application knows.
    Sets,
    /// The chats of the profile.
    Chats,
    /// The configured providers.
    Providers,
    /// The models of the provider on the line.
    Models,
    /// The memories of the profile.
    Memories,
    /// The configured prompt templates.
    PromptTemplates,
    /// The prompts of the chat on the line.
    Prompts,
    /// Access rights.
    Access,
    /// The ids of the prompt's facts.
    FactIds,
    /// `true` and `false`.
    Bool,
    /// No values.
    Nothing,
}

/// Where the values of `key` come from.
pub open spec fn source_of(key: Seq<char>) -> ValueSource {
    if key == "--read"@ || key == "--write"@ || key == "--restore"@ {
        ValueSource::Files
    } else if key == "--set"@ {
        ValueSource::Sets
    } else if key == "--chat"@ || key == "--bind-chat"@ {
        ValueSource::Chats
    } else if key == "--provider"@ || key == "--bind-provider"@ {
        ValueSource::Providers
    } else if key == "--model"@ || key == "--bind-model"@ {
        ValueSource::Models
    } else if key == "--memory"@ || key == "--bind-memory"@ {
        ValueSource::Memories
    } else if key == "--build-prompt"@ {
        ValueSource::PromptTemplates
    } else if key == "--prompt"@ || key == "--bind-prompt"@ {
        ValueSource::Prompts
    } else if key == "--access-history"@ || key == "--access-memory"@ || key == "--access-prompt"@ {
        ValueSource::Access
    } else if key == "--update-fact"@ || key == "--delete-fact"@ || key == "--select-fact"@ {
        ValueSource::FactIds
    } else if key == "--color"@ || key == "--status"@ {
        ValueSource::Bool
    } else {
        ValueSource::Nothing
    }
}

fn is(a: &str, b: &str) -> (r: bool)
    ensures
        r == (a@ == b@),
{
    crate::text::str_eq(a, b)
}

/// Where the values of `key` come from (see `source_of`).
pub fn value_source(key: &str) -> (r: ValueSource)
    ensures
        r == source_of(key@),
{
    if is(key, "--read") || is(key, "--write") || is(key, "--restore") {
        ValueSource::Files
    } else if is(key, "--set") {
        ValueSource::Sets
    } else if is(key, "--chat") || is(key, "--bind-chat") {
        ValueSource::Chats
    } else if is(key, "--provider") || is(key, "--bind-provider") {
        ValueSource::Providers
    } else if is(key, "--model") || is(key, "--bind-model") {
        ValueSource::Models
    } else if is(key, "--memory") || is(key, "--bind-memory") {
        ValueSource::Memories
    } else if is(key, "--build-prompt") {
        ValueSource::PromptTemplates
    } else if is(key, "--prompt") || is(key, "--bind-prompt") {
        ValueSource::Prompts
    } else if is(key, "--access-history") || is(key, "--access-memory") || is(key, "--access-prompt") {
        ValueSource::Access
    } else if is(key, "--update-fact") || is(key, "--delete-fact") || is(key, "--select-fact") {
        ValueSource::FactIds
    } else if is(key, "--color") || is(key, "--status") {
        ValueSource::Bool
    } else {
        ValueSource::Nothing
    }
}


/// The length of the run of non-whitespace characters that `s` starts with.
pub open spec fn word_len(s: Seq<char>) -> int
    decreases s.len(),
{
    if s.len() == 0 || is_ws(s[0]) {
        0
    } else {
        1 + word_len(s.drop_first())
    }
}

/// `word_len` stated without recursion.
pub proof fn lemma_word_len(s: Seq<char>)
    ensures
        0 <= word_len(s) <= s.len(),
        forall|k: int| 0 <= k < word_len(s) ==> !is_ws(#[trigger] s[k]),
        word_len(s) < s.len() ==> is_ws(s[word_len(s)]),
    decreases s.len(),
{
    if s.len() > 0 && !is_ws(s[0]) {
        lemma_word_len(s.drop_first());
        assert forall|k: int| 0 <= k < word_len(s) implies !is_ws(#[trigger] s[k]) by {
            if k > 0 {
                assert(s[k] == s.drop_first()[k - 1]);
            }
        }
        if word_len(s) < s.len() {
            assert(s[word_len(s)] == s.drop_first()[word_len(s) - 1]);
        }
    }
}

/// `word_len` is determined by where the first whitespace is.
pub proof fn lemma_word_len_at(s: Seq<char>, n: int)
    requires
        0 <= n <= s.len(),
        forall|k: int| 0 <= k < n ==> !is_ws(#[trigger] s[k]),
        n < s.len() ==> is_ws(s[n]),
    ensures
        word_len(s) == n,
{
    lemma_word_len(s);
    let w = word_len(s);
    if w < n {
        assert(!is_ws(s[w]));
    } else if n < w {
        assert(!is_ws(s[n]));
    }
}

/// The words of `s`: its runs of non-whitespace characters, in order (`str::split_whitespace`).
pub open spec fn words(s: Seq<char>) -> Seq<Seq<char>>
    decreases s.len(),
{
    if s.len() == 0 {
        seq![]
    } else if is_ws(s[0]) {
        words(s.drop_first())
    } else {
        proof {
            lemma_word_len(s);
        }
        let n = word_len(s);
        seq![s.take(n)] + words(s.skip(n))
    }
}

/// The words of `s` (see `words`).
pub fn split_words(s: &str) -> (r: Vec<String>)
    ensures
        strings_view(r@) == words(s@),
{
    let v = chars_of(s);
    let n = v.len();
    let mut r: Vec<String> = Vec::new();
    let mut i: usize = 0;
    assert(v@.skip(0) =~= v@);
    assert(strings_view(r@) =~= Seq::<Seq<char>>::empty());
    while i < n
        invariant
            v@ == s@,
            n == v@.len(),
            i <= n,
            words(s@) == strings_view(r@) + words(v@.skip(i as int)),
        decreases n - i,
    {
        let ghost rest = v@.skip(i as int);
        if crate::text::char_is_ws(v[i]) {
            assert(rest.drop_first() =~= v@.skip(i + 1));
            i = i + 1;
        } else {
            let mut j = i + 1;
            while j < n && !crate::text::char_is_ws(v[j])
                invariant
                    i < j <= n,
                    n == v@.len(),
                    rest == v@.skip(i as int),
                    forall|k: int| i <= k < j ==> !is_ws(#[trigger] v@[k]),
                decreases n - j,
            {
                j = j + 1;
            }
            proof {
                assert forall|k: int| 0 <= k < j - i implies !is_ws(#[trigger] rest[k]) by {
                    assert(rest[k] == v@[k + i]);
                }
                if j < n {
                    assert(rest[j - i] == v@[j as int]);
                }
                lemma_word_len_at(rest, j - i);
            }
            let w = crate::text::slice_copy(v.as_slice(), i, j);
            let ghost before = strings_view(r@);
            r.push(string_of(&w));
            assert(w@ =~= rest.take(j - i));
            assert(rest.skip(j - i) =~= v@.skip(j as int));
            assert(strings_view(r@) =~= before.push(w@));
            assert(words(rest) == seq![rest.take(j - i)] + words(rest.skip(j - i)));
            assert(before + words(rest) =~= before.push(w@) + words(v@.skip(j as int)));
            i = j;
        }
    }
    assert(v@.skip(n as int).len() == 0);
    assert(strings_view(r@) + words(v@.skip(n as int)) =~= strings_view(r@));
    r
}

/// What follows the first of the prefixes `ps` that `w` starts with.
pub open spec fn strip_any(w: Seq<char>, ps: Seq<Seq<char>>) -> Option<Seq<char>>
    decreases ps.len(),
{
    if ps.len() == 0 {
        None
    } else if starts_with(w, ps[0]) {
        Some(w.skip(ps[0].len() as int))
    } else {
        strip_any(w, ps.drop_first())
    }
}

/// What follows a prefix among `ps` in the first word that has one.
pub open spec fn first_stripped(ws: Seq<Seq<char>>, ps: Seq<Seq<char>>) -> Option<Seq<char>>
    decreases ws.len(),
{
    if ws.len() == 0 {
        None
    } else {
        match strip_any(ws[0], ps) {
            Some(r) => Some(r),
            None => first_stripped(ws.drop_first(), ps),
        }
    }
}

fn strip_any_of(w: &str, ps: &Vec<&str>) -> (r: Option<String>)
    ensures
        match r {
            Some(x) => strip_any(w@, keys_view(ps@)) == Some(x@),
            None => strip_any(w@, keys_view(ps@)) is None,
        },
{
    let ghost pv = keys_view(ps@);
    let mut i: usize = 0;
    assert(pv.skip(0) =~= pv);
    while i < ps.len()
        invariant
            pv == keys_view(ps@),
            i <= ps@.len(),
            strip_any(w@, pv) == strip_any(w@, pv.skip(i as int)),
        decreases ps@.len() - i,
    {
        assert(pv.skip(i as int)[0] == ps@[i as int]@);
        assert(pv.skip(i as int).drop_first() =~= pv.skip(i + 1));
        if str_starts_with(w, ps[i]) {
            let cs = chars_of(w);
            let p = chars_of(ps[i]);
            let rest = crate::text::slice_copy(cs.as_slice(), p.len(), cs.len());
            assert(rest@ =~= w@.skip(ps@[i as int]@.len() as int));
            return Some(string_of(&rest));
        }
        i = i + 1;
    }
    None
}

/// What follows one of the prefixes `ps` in the first word of `line` that
/// has one (see `first_stripped`).
pub fn extract_from_line(line: &str, ps: &Vec<&str>) -> (r: Option<String>)
    ensures
        match r {
            Some(x) => first_stripped(words(line@), keys_view(ps@)) == Some(x@),
            None => first_stripped(words(line@), keys_view(ps@)) is None,
        },
{
    let ws = split_words(line);
    let ghost wv = strings_view(ws@);
    let mut i: usize = 0;
    assert(wv.skip(0) =~= wv);
    while i < ws.len()
        invariant
            wv == strings_view(ws@),
            wv == words(line@),
            i <= ws@.len(),
            first_stripped(wv, keys_view(ps@)) == first_stripped(wv.skip(i as int), keys_view(ps@)),
        decreases ws@.len() - i,
    {
        assert(wv.skip(i as int)[0] == ws@[i as int]@);
        assert(wv.skip(i as int).drop_first() =~= wv.skip(i + 1));
        match strip_any_of(ws[i].as_str(), ps) {
            Some(x) => {
                return Some(x);
            },
            None => {},
        }
        i = i + 1;
    }
    None
}

impl Ai {
    /// The provider named on the command line (`--provider=` or
    /// `--bind-provider=`), else `fallback` (the bound provider).
    pub fn extract_provider_from_line(&self, comp_line: &str, fallback: &str) -> (r: String)
        ensures
            r@ == match first_stripped(words(comp_line@), seq!["--provider="@, "--bind-provider="@]) {
                Some(x) => x,
                None => fallback@,
            },
    {
        let ps: Vec<&str> = vec!["--provider=", "--bind-provider="];
        assert(keys_view(ps@) =~= seq!["--provider="@, "--bind-provider="@]);
        match extract_from_line(comp_line, &ps) {
            Some(x) => x,
            None => fallback.to_owned(),
        }
    }

    /// The chat named on the command line (`--chat=` or `--chat-provider=`),
    /// else the current chat.
    pub fn extract_chat_from_line(&self, comp_line: &str) -> (r: String)
        ensures
            r@ == match first_stripped(words(comp_line@), seq!["--chat="@, "--chat-provider="@]) {
                Some(x) => x,
                None => self.chat@,
            },
    {
        let ps: Vec<&str> = vec!["--chat=", "--chat-provider="];
        assert(keys_view(ps@) =~= seq!["--chat="@, "--chat-provider="@]);
        match extract_from_line(comp_line, &ps) {
            Some(x) => x,
            None => self.chat.clone(),
        }
    }

    /// The values of `key` that start with `val`. Values that come from the
    /// file system or the application (`listed`) are handed in by the
    /// caller; `provider_fallback` is the bound provider.
    pub fn find_values(&self, key: &str, val: &str, comp_line: &str, listed: &Vec<String>, provider_fallback: &str) -> (r: Vec<String>)
        ensures
            strings_view(r@) == match source_of(key@) {
                ValueSource::Providers => with_prefix(crate::json::keys_of(Some(crate::ai::at_path(jview_config(self), seq!["application"@, "ai"@, "providers"@]))), val@),
                ValueSource::Models => with_prefix(crate::ai::models_of(jview_config(self), match first_stripped(words(comp_line@), seq!["--provider="@, "--bind-provider="@]) {
                    Some(x) => x,
                    None => provider_fallback@,
                }), val@),
                ValueSource::PromptTemplates => with_prefix(crate::ai::dedup(crate::json::keys_of(Some(crate::ai::at_path(jview_config(self), seq!["prompts"@])))), val@),
                ValueSource::Access => with_prefix(access_values(), val@),
                ValueSource::Bool => seq!["true"@, "false"@],
                ValueSource::Nothing => seq![],
                _ => with_prefix(strings_view(listed@), val@),
            },
    {
        match value_source(key) {
            ValueSource::Providers => {
                let v = self.get_providers();
                compl_filter_by_key(&v, val)
            },
            ValueSource::Models => {
                let p = self.extract_provider_from_line(comp_line, provider_fallback);
                let v = self.get_models(p.as_str());
                compl_filter_by_key(&v, val)
            },
            ValueSource::PromptTemplates => {
                let v = self.get_prompt_templates();
                compl_filter_by_key(&v, val)
            },
            ValueSource::Access => {
                let v = get_complete_value_access();
                compl_filter_by_key(&v, val)
            },
            ValueSource::Bool => {
                let mut v: Vec<String> = Vec::new();
                v.push("true".to_owned());
                v.push("false".to_owned());
                assert(strings_view(v@) =~= seq!["true"@, "false"@]);
                v
            },
            ValueSource::Nothing => {
                let v: Vec<String> = Vec::new();
                assert(strings_view(v@) =~= Seq::<Seq<char>>::empty());
                v
            },
            _ => compl_filter_by_key(listed, val),
        }
    }
}

/// The configuration of a session as a spec value.
pub open spec fn jview_config(a: &Ai) -> crate::json::JsonView {
    crate::json::jview(a.config)
}


impl Ai {
    /// The candidates to print for the command line `line` cut at the
    /// cursor (see `completion_list`); `comp_line` is the whole line,
    /// `has_profiles` whether a profile directory exists, and `listed` the
    /// values the caller found for the key under the cursor.
    pub fn completion(&self, line: &str, comp_line: &str, has_profiles: bool, listed: &Vec<String>, provider_fallback: &str) -> (r: Vec<String>)
        ensures
            ({
                let (key, val, eq) = current_word(line@);
                let keys = with_prefix(completion_keys(has_profiles, comp_line@), key);
                let values = if keys.len() == 1 && key == keys[0] {
                    match source_of(key) {
                        ValueSource::Providers => with_prefix(crate::json::keys_of(Some(crate::ai::at_path(jview_config(self), seq!["application"@, "ai"@, "providers"@]))), val),
                        ValueSource::Models => with_prefix(crate::ai::models_of(jview_config(self), match first_stripped(words(comp_line@), seq!["--provider="@, "--bind-provider="@]) {
                            Some(x) => x,
                            None => provider_fallback@,
                        }), val),
                        ValueSource::PromptTemplates => with_prefix(crate::ai::dedup(crate::json::keys_of(Some(crate::ai::at_path(jview_config(self), seq!["prompts"@])))), val),
                        ValueSource::Access => with_prefix(access_values(), val),
                        ValueSource::Bool => seq!["true"@, "false"@],
                        ValueSource::Nothing => seq![],
                        _ => with_prefix(strings_view(listed@), val),
                    }
                } else {
                    seq![]
                };
                strings_view(r@) == completion_list(keys, key, eq, values)
            }),
    {
        let (key, val, eq) = split_current(line);
        let keys = find_keys(has_profiles, key.as_str(), comp_line);
        let values = if keys.len() == 1 && crate::text::str_eq(key.as_str(), keys[0].as_str()) {
            self.find_values(key.as_str(), val.as_str(), comp_line, listed, provider_fallback)
        } else {
            let v: Vec<String> = Vec::new();
            assert(strings_view(v@) =~= Seq::<Seq<char>>::empty());
            v
        };
        complete(&keys, key.as_str(), eq, &values)
    }
}

} // verus!
