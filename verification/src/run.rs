//! The decisions of a run: which command-line actions suppress the prompt
//! and the request, the prompt text with its placeholders filled, the
//! prompt size limit, the facts a user asks to change, building a prompt
//! from a template, and putting the session's files and inputs into the
//! prompt storage.
use crate::ai::{access_text, keys1, keys_view, Ai};
use crate::chat::pairs_view;
use crate::fact_map::{entries_insert, has_key, key_index, EntryView};
use crate::json::{get_str, jview, str_or, JsonValue, JsonView};
use crate::state::details_view;
use crate::storage::{parsed, Storage};
use crate::text::{append_chars, chars_of, decimal, decimal_chars, string_of, trim, trim_chars};
use vstd::prelude::*;

verus! {

broadcast use vstd::std_specs::vec::group_vec_axioms;

/// The actions that show or change stored state and so run without a
/// prompt and without a request.
pub open spec fn quiet_actions() -> Seq<Seq<char>> {
    seq![
        "i"@, "info"@, "rmh"@, "reset-history"@, "remove-history"@, "rh"@, "reset-memory"@,
        "remove-memory"@, "rm"@, "out-history"@,
        "oh"@, "out-memory"@, "om"@, "out-prompt"@, "op"@, "out-prompt-content"@, "opc"@,
        "tiocsti"@, "comp-line"@, "build-prompt"@, "bind-provider"@, "bind-prompt"@, "bind-model"@,
        "bind-chat"@, "bind-memory"@, "select-fact"@, "insert-fact"@, "update-fact"@, "delete-fact"@,
    ]
}

fn quiet_list() -> (r: Vec<&'static str>)
    ensures
        keys_view(r@) == quiet_actions(),
{
    let mut r: Vec<&'static str> = Vec::new();
    r.push("i");
    r.push("info");
    r.push("rmh");
    r.push("reset-history");
    r.push("remove-history");
    r.push("rh");
    r.push("reset-memory");
    r.push("remove-memory");
    r.push("rm");
    r.push("out-history");
    r.push("oh");
    r.push("out-memory");
    r.push("om");
    r.push("out-prompt");
    r.push("op");
    r.push("out-prompt-content");
    r.push("opc");
    r.push("tiocsti");
    r.push("comp-line");
    r.push("build-prompt");
    r.push("bind-provider");
    r.push("bind-prompt");
    r.push("bind-model");
    r.push("bind-chat");
    r.push("bind-memory");
    r.push("select-fact");
    r.push("insert-fact");
    r.push("update-fact");
    r.push("delete-fact");
    assert(keys_view(r@) =~= quiet_actions());
    r
}

/// Whether `action` runs without a prompt and without a request.
pub fn is_quiet_action(action: &str) -> (r: bool)
    ensures
        r == quiet_actions().contains(action@),
{
    let list = quiet_list();
    let ghost q = quiet_actions();
    let mut i: usize = 0;
    while i < list.len()
        invariant
            keys_view(list@) == q,
            q == quiet_actions(),
            i <= list@.len(),
            forall|j: int| 0 <= j < i ==> q[j] != action@,
        decreases list@.len() - i,
    {
        assert(q[i as int] == list@[i as int]@);
        if crate::text::str_eq(list[i], action) {
            return true;
        }
        i = i + 1;
    }
    proof {
        if q.contains(action@) {
            let j = choose|j: int| 0 <= j < q.len() && q[j] == action@;
            assert(q[j] != action@);
        }
    }
    false
}

/// Whether some action of `actions` is quiet.
pub open spec fn any_quiet(actions: Seq<(Seq<char>, Seq<char>)>) -> bool {
    exists|i: int| 0 <= i < actions.len() && quiet_actions().contains(#[trigger] actions[i].0)
}

/// The no-prompt and no-request flags after the actions are seen: both
/// set when some action is quiet, else as they were.
pub fn action_flags(actions: &Vec<(String, String)>, no_prompt: bool, no_request: bool) -> (r: (bool, bool))
    ensures
        r == (no_prompt || any_quiet(pairs_view(actions@)), no_request || any_quiet(pairs_view(actions@))),
{
    let ghost av = pairs_view(actions@);
    let mut np = no_prompt;
    let mut nr = no_request;
    let mut found = false;
    let mut i: usize = 0;
    while i < actions.len()
        invariant
            av == pairs_view(actions@),
            i <= actions@.len(),
            found == exists|j: int| 0 <= j < i && quiet_actions().contains(#[trigger] av[j].0),
            np == (no_prompt || found),
            nr == (no_request || found),
        decreases actions@.len() - i,
    {
        assert(av[i as int].0 == actions@[i as int].0@);
        if is_quiet_action(actions[i].0.as_str()) {
            np = true;
            nr = true;
            found = true;
        }
        i = i + 1;
    }
    (np, nr)
}

/// The actions of the configuration: each top-level key with its string
/// value (empty when the value is not a string).
pub open spec fn actions_of(config: JsonView) -> Seq<(Seq<char>, Seq<char>)> {
    match config {
        JsonView::Object(es) => es.map_values(|e: (Seq<char>, JsonView)| (e.0, str_or(Some(e.1), seq![]))),
        _ => seq![],
    }
}

/// The actions of the configuration (see `actions_of`).
pub fn collect_actions(config: &JsonValue) -> (r: Vec<(String, String)>)
    ensures
        pairs_view(r@) == actions_of(jview(*config)),
{
    let mut r: Vec<(String, String)> = Vec::new();
    proof {
        reveal_strlit("");
    }
    match config {
        JsonValue::Object(es) => {
            let ghost ev = match jview(*config) {
                JsonView::Object(x) => x,
                _ => seq![],
            };
            assert(ev =~= Seq::new(es@.len(), |i: int| if 0 <= i < es@.len() { (es@[i].0@, jview(es@[i].1)) } else { (Seq::<char>::empty(), JsonView::Null) }));
            let mut i: usize = 0;
            while i < es.len()
                invariant
                    ev.len() == es@.len(),
                    forall|j: int| 0 <= j < es@.len() ==> ev[j] == (es@[j].0@, jview(es@[j].1)),
                    jview(*config) == JsonView::Object(ev),
                    i <= es@.len(),
                    pairs_view(r@) == ev.take(i as int).map_values(|e: (Seq<char>, JsonView)| (e.0, str_or(Some(e.1), seq![]))),
                decreases es@.len() - i,
            {
                proof {
                    reveal_strlit("");
                    assert(""@ =~= Seq::<char>::empty());
                }
                let v = get_str(Some(&es[i].1), "");
                assert(v@ == str_or(Some(jview(es@[i as int].1)), seq![]));
                let ghost before = r@;
                let k = es[i].0.clone();
                assert(k@ == es@[i as int].0@);
                r.push((k, v));
                assert(r@ == before.push((k, v)));
                assert(pairs_view(before.push((k, v))) =~= pairs_view(before).push((k@, v@)));
                assert(ev.take(i + 1) =~= ev.take(i as int).push(ev[i as int]));
                assert(pairs_view(r@) =~= pairs_view(before).push((es@[i as int].0@, str_or(Some(jview(es@[i as int].1)), seq![]))));
                assert(ev.take(i + 1).map_values(|e: (Seq<char>, JsonView)| (e.0, str_or(Some(e.1), seq![]))) =~= ev.take(i as int).map_values(|e: (Seq<char>, JsonView)| (e.0, str_or(Some(e.1), seq![]))).push((ev[i as int].0, str_or(Some(ev[i as int].1), seq![]))));
                i = i + 1;
            }
            assert(ev.take(es@.len() as int) =~= ev);
            r
        },
        _ => {
            assert(pairs_view(r@) =~= Seq::<(Seq<char>, Seq<char>)>::empty());
            r
        },
    }
}

/// The body of a fact that a user inserts or updates: the user's input
/// (command line or typed) and the piped standard input, a space between
/// them, trimmed.
pub open spec fn user_fact_body(input: Seq<char>, stdin: Seq<char>) -> Seq<char> {
    trim(input + seq![' '] + stdin)
}

/// The body of a fact that a user inserts or updates (see `user_fact_body`).
pub fn fact_body(input: &str, stdin: &str) -> (r: String)
    ensures
        r@ == user_fact_body(input@, stdin@),
{
    let mut v = chars_of(input);
    let sp = [' '];
    assert(sp@ == seq![' ']);
    let c = chars_of(stdin);
    append_chars(&mut v, &sp);
    append_chars(&mut v, &c);
    let t = trim_chars(&v);
    string_of(&t)
}


/// The entries after the files `(path, content)` are put in one after
/// another as facts of `domain` by `user`, each with its path as id.
pub open spec fn files_put(es: Seq<EntryView>, domain: Seq<char>, files: Seq<(Seq<char>, Seq<char>)>) -> Seq<EntryView>
    decreases files.len(),
{
    if files.len() == 0 {
        es
    } else {
        entries_insert(files_put(es, domain, files.drop_last()), files.last().0, (domain, "user"@, files.last().1))
    }
}

/// Index of the first pair with key `k`, or -1.
pub open spec fn first_pair(wt: Seq<(Seq<char>, Seq<char>)>, k: Seq<char>) -> int
    decreases wt.len(),
{
    if wt.len() == 0 {
        -1
    } else if wt[0].0 == k {
        0
    } else {
        let r = first_pair(wt.drop_first(), k);
        if r < 0 { -1 } else { r + 1 }
    }
}

/// The table with `k` mapped to `v`: its pair replaced, or added at the end.
pub open spec fn pair_set(wt: Seq<(Seq<char>, Seq<char>)>, k: Seq<char>, v: Seq<char>) -> Seq<(Seq<char>, Seq<char>)> {
    let i = first_pair(wt, k);
    if i >= 0 {
        wt.update(i, (k, v))
    } else {
        wt.push((k, v))
    }
}

/// The write table after each written file is mapped to itself.
pub open spec fn files_mapped(wt: Seq<(Seq<char>, Seq<char>)>, files: Seq<(Seq<char>, Seq<char>)>) -> Seq<(Seq<char>, Seq<char>)>
    decreases files.len(),
{
    if files.len() == 0 {
        wt
    } else {
        let w = files_mapped(wt, files.drop_last());
        pair_set(w, files.last().0, files.last().0)
    }
}

proof fn lemma_first_pair_at(wt: Seq<(Seq<char>, Seq<char>)>, k: Seq<char>, i: int)
    requires
        -1 <= i < wt.len(),
        i >= 0 ==> wt[i].0 == k,
        forall|j: int| 0 <= j < wt.len() && (i < 0 || j < i) ==> wt[j].0 != k,
    ensures
        first_pair(wt, k) == i,
    decreases wt.len(),
{
    if wt.len() > 0 && i != 0 {
        assert(wt[0].0 != k);
        assert forall|j: int| 0 <= j < wt.drop_first().len() && (i - 1 < 0 || j < i - 1) implies wt.drop_first()[j].0 != k by {
            assert(wt.drop_first()[j] == wt[j + 1]);
        }
        if i > 0 {
            assert(wt.drop_first()[i - 1] == wt[i]);
            lemma_first_pair_at(wt.drop_first(), k, i - 1);
        } else {
            lemma_first_pair_at(wt.drop_first(), k, -1);
        }
    }
}

/// Maps `k` to `v` in the table (see `pair_set`).
pub fn set_pair(wt: &mut Vec<(String, String)>, k: &str, v: &str)
    ensures
        pairs_view(final(wt)@) == pair_set(pairs_view(old(wt)@), k@, v@),
{
    let ghost w0 = pairs_view(wt@);
    let mut i: usize = 0;
    while i < wt.len()
        invariant
            w0 == pairs_view(wt@),
            wt@ == old(wt)@,
            i <= wt@.len(),
            forall|j: int| 0 <= j < i ==> w0[j].0 != k@,
        decreases wt@.len() - i,
    {
        assert(w0[i as int] == (wt@[i as int].0@, wt@[i as int].1@));
        if crate::text::str_eq(wt[i].0.as_str(), k) {
            proof {
                lemma_first_pair_at(w0, k@, i as int);
            }
            wt.set(i, (k.to_owned(), v.to_owned()));
            assert(pairs_view(wt@) =~= w0.update(i as int, (k@, v@)));
            return;
        }
        i = i + 1;
    }
    proof {
        lemma_first_pair_at(w0, k@, -1);
    }
    wt.push((k.to_owned(), v.to_owned()));
    assert(pairs_view(wt@) =~= w0.push((k@, v@)));
}

impl Ai {
    /// The prompt that is sent: the storage's text with `%shell%`, `%chat%`,
    /// `%provider%`, `%model-name%`, `%version%`, `%now%` and the eight
    /// `%access-..%` placeholders filled in turn.
    pub open spec fn prompt_of(&self, version: Seq<char>, now: Seq<char>) -> Seq<char> {
        crate::ai::fill(
            crate::storage::entries_text(self.storage.delimiter(), self.storage.entries()),
            seq![
                ("%shell%"@, self.cfg_str("shell"@, "/bin/bash"@)),
                ("%chat%"@, self.chat@),
                ("%provider%"@, self.provider@),
                ("%model-name%"@, str_or(Some(crate::ai::at_path(jview(self.config), seq!["application"@, "ai"@, "providers"@, self.provider@, "models"@, self.model@])), "unknown"@)),
                ("%version%"@, version),
                ("%now%"@, now),
                ("%access-access%"@, access_text(self.access_access@)),
                ("%access-history%"@, access_text(self.access_history@)),
                ("%access-memory%"@, access_text(self.access_memory@)),
                ("%access-prompt%"@, access_text(self.access_prompt@)),
                ("%access-read%"@, access_text(self.access_read@)),
                ("%access-write%"@, access_text(self.access_write@)),
                ("%access-clipboard%"@, access_text(self.access_clipboard@)),
                ("%access-shell%"@, access_text(self.access_shell@)),
            ],
        )
    }

    /// The prompt that is sent (see `prompt_of`); `now` is the local time
    /// as `%Y-%m-%d %H:%M:%S`.
    pub fn build_prompt_text(&self, version: &str, now: &str) -> (r: String)
        ensures
            r@ == self.prompt_of(version@, now@),
    {
        let mut pairs: Vec<(String, String)> = Vec::new();
        let ks = keys1("shell");
        pairs.push(("%shell%".to_owned(), self.get_config_str(ks.as_slice(), "/bin/bash")));
        pairs.push(("%chat%".to_owned(), self.chat.clone()));
        pairs.push(("%provider%".to_owned(), self.provider.clone()));
        pairs.push(("%model-name%".to_owned(), self.get_model_name()));
        pairs.push(("%version%".to_owned(), version.to_owned()));
        pairs.push(("%now%".to_owned(), now.to_owned()));
        pairs.push(("%access-access%".to_owned(), self.access_to_str(self.access_access.as_str())));
        pairs.push(("%access-history%".to_owned(), self.access_to_str(self.access_history.as_str())));
        pairs.push(("%access-memory%".to_owned(), self.access_to_str(self.access_memory.as_str())));
        pairs.push(("%access-prompt%".to_owned(), self.access_to_str(self.access_prompt.as_str())));
        pairs.push(("%access-read%".to_owned(), self.access_to_str(self.access_read.as_str())));
        pairs.push(("%access-write%".to_owned(), self.access_to_str(self.access_write.as_str())));
        pairs.push(("%access-clipboard%".to_owned(), self.access_to_str(self.access_clipboard.as_str())));
        pairs.push(("%access-shell%".to_owned(), self.access_to_str(self.access_shell.as_str())));
        proof {
            reveal_strlit("%shell%");
            reveal_strlit("%chat%");
            reveal_strlit("%provider%");
            reveal_strlit("%model-name%");
            reveal_strlit("%version%");
            reveal_strlit("%now%");
            reveal_strlit("%access-access%");
            reveal_strlit("%access-history%");
            reveal_strlit("%access-memory%");
            reveal_strlit("%access-prompt%");
            reveal_strlit("%access-read%");
            reveal_strlit("%access-write%");
            reveal_strlit("%access-clipboard%");
            reveal_strlit("%access-shell%");
            assert(pairs_view(pairs@) =~= seq![
                ("%shell%"@, self.cfg_str("shell"@, "/bin/bash"@)),
                ("%chat%"@, self.chat@),
                ("%provider%"@, self.provider@),
                ("%model-name%"@, str_or(Some(crate::ai::at_path(jview(self.config), seq!["application"@, "ai"@, "providers"@, self.provider@, "models"@, self.model@])), "unknown"@)),
                ("%version%"@, version@),
                ("%now%"@, now@),
                ("%access-access%"@, access_text(self.access_access@)),
                ("%access-history%"@, access_text(self.access_history@)),
                ("%access-memory%"@, access_text(self.access_memory@)),
                ("%access-prompt%"@, access_text(self.access_prompt@)),
                ("%access-read%"@, access_text(self.access_read@)),
                ("%access-write%"@, access_text(self.access_write@)),
                ("%access-clipboard%"@, access_text(self.access_clipboard@)),
                ("%access-shell%"@, access_text(self.access_shell@)),
            ]);
        }
        let text = self.storage.to_string();
        crate::ai::fill_template(text.as_str(), &pairs)
    }

    /// Whether a prompt of `size` bytes may be sent: it must be under
    /// `max-prompt-bytes`; otherwise the failure `prompt-size-exceededs` is set.
    pub fn check_prompt_size(&mut self, size: usize) -> (r: bool)
        ensures
            ({
                let max = match crate::json::uint_of(Some(crate::ai::config_value(jview(old(self).config), old(self).provider@, old(self).model@, seq!["max-prompt-bytes"@])), usize::MAX as nat) {
                    Some(n) => n,
                    None => 100000,
                };
                &&& r == (size < max)
                &&& r ==> final(self).state == old(self).state
                &&& !r ==> final(self).state.view_failure() == Some(("prompt-size-exceededs"@, seq![
                    ("message"@, "Prompt exceeds limit bytes"@),
                    ("size-bytes"@, decimal(size as nat)),
                    ("max-size-bytes"@, decimal(max)),
                ]))
            }),
            final(self).config == old(self).config,
            final(self).storage == old(self).storage,
            final(self).fact_db == old(self).fact_db,
            final(self).provider == old(self).provider,
            final(self).model == old(self).model,
    {
        let max = self.get_max_prompt_bytes();
        if size < max {
            return true;
        }
        let a = decimal_chars(size as u128);
        let b = decimal_chars(max as u128);
        let mut d: Vec<(String, String)> = Vec::new();
        d.push(("message".to_owned(), "Prompt exceeds limit bytes".to_owned()));
        d.push(("size-bytes".to_owned(), string_of(&a)));
        d.push(("max-size-bytes".to_owned(), string_of(&b)));
        assert(details_view(d@) =~= seq![
            ("message"@, "Prompt exceeds limit bytes"@),
            ("size-bytes"@, decimal(size as nat)),
            ("max-size-bytes"@, decimal(max as nat)),
        ]);
        self.state.set_state("prompt-size-exceededs".to_owned(), d);
        false
    }

    /// Puts the files `(path, content)` into the prompt storage as facts of
    /// the domain `type_operation` by `user`, each under its path; the files
    /// of `write` are also mapped to themselves in the write table.
    pub fn insert_files(&mut self, type_operation: &str, files: &Vec<(String, String)>)
        requires
            old(self).wf(),
        ensures
            final(self).wf(),
            final(self).storage.entries() == files_put(old(self).storage.entries(), type_operation@, pairs_view(files@)),
            final(self).storage.failure() == old(self).storage.failure(),
            final(self).storage.last_id() == old(self).storage.last_id(),
            final(self).storage.same_settings(&old(self).storage),
            pairs_view(final(self).write_translation@) == if type_operation@ == "write"@ {
                files_mapped(pairs_view(old(self).write_translation@), pairs_view(files@))
            } else {
                pairs_view(old(self).write_translation@)
            },
            final(self).config == old(self).config,
            final(self).fact_db == old(self).fact_db,
            final(self).state == old(self).state,
            final(self).no_history == old(self).no_history,
            final(self).fact_delimiter == old(self).fact_delimiter,
    {
        let ghost fv = pairs_view(files@);
        let is_write = crate::text::str_eq(type_operation, "write");
        let mut i: usize = 0;
        proof {
            Storage::lemma_same_settings_refl(&self.storage);
            assert(fv.take(0) =~= Seq::<(Seq<char>, Seq<char>)>::empty());
        }
        while i < files.len()
            invariant
                fv == pairs_view(files@),
                i <= files@.len(),
                self.wf(),
                is_write == (type_operation@ == "write"@),
                self.storage.entries() == files_put(old(self).storage.entries(), type_operation@, fv.take(i as int)),
                self.storage.failure() == old(self).storage.failure(),
                self.storage.last_id() == old(self).storage.last_id(),
                self.storage.same_settings(&old(self).storage),
                pairs_view(self.write_translation@) == if is_write {
                    files_mapped(pairs_view(old(self).write_translation@), fv.take(i as int))
                } else {
                    pairs_view(old(self).write_translation@)
                },
                self.config == old(self).config,
                self.fact_db == old(self).fact_db,
                self.state == old(self).state,
                self.no_history == old(self).no_history,
                self.fact_delimiter == old(self).fact_delimiter,
            decreases files@.len() - i,
        {
            assert(fv.take(i + 1).drop_last() =~= fv.take(i as int));
            assert(fv.take(i + 1).last() == (files@[i as int].0@, files@[i as int].1@));
            if is_write {
                set_pair(&mut self.write_translation, files[i].0.as_str(), files[i].0.as_str());
            }
            let ghost s0 = self.storage;
            proof {
                reveal_strlit("user");
            }
            self.storage.put(files[i].0.as_str(), type_operation, "user", files[i].1.as_str());
            proof {
                Storage::lemma_same_settings_trans(&self.storage, &s0, &old(self).storage);
            }
            i = i + 1;
        }
        assert(fv.take(files@.len() as int) =~= fv);
    }
}


/// `s` with the fact delimiter `delim` written as `` `fact-delimiter` ``, so
/// that a user's text cannot start a fact.
pub open spec fn escaped(s: Seq<char>, delim: Seq<char>) -> Seq<char> {
    crate::text::str_replace(s, delim, "`fact-delimiter`"@)
}

/// `s1` is `s0`, or `s0` with `text` added as a user's history fact when
/// `add` holds (see `chat::inserted_new`).
pub open spec fn history_added(s0: Storage, s1: Storage, add: bool, text: Seq<char>) -> bool {
    if add {
        crate::chat::inserted_new(s0, s1, "history"@, "user"@, text, true)
    } else {
        s1 == s0
    }
}

impl Ai {
    /// `after` is `self` after the prompt was compiled from the prompt,
    /// memory and history texts, the read and written files and the user's
    /// input, through the storages `a` .. `f`: the prompt read, the read
    /// files and then the written files put in, the memory and then the
    /// history read, the standard input and then the command-line input
    /// added as history (unless `no_history`, and only when not empty).
    pub open spec fn compiled(&self, after: &Ai, prompt: Seq<char>, memory: Seq<char>, history: Seq<char>,
        read: Seq<(Seq<char>, Seq<char>)>, write: Seq<(Seq<char>, Seq<char>)>, input: Seq<char>, stdin: Seq<char>,
        a: Storage, b: Storage, c: Storage, d: Storage, e: Storage, f: Storage) -> bool
    {
        let delim = self.fact_delimiter@;
        &&& parsed(self.storage.last_id(), self.storage.entries(), prompt, a.last_id(), a.entries())
        &&& a.failure() == self.storage.failure()
        &&& b.entries() == files_put(a.entries(), "read"@, read)
        &&& b.last_id() == a.last_id() && b.failure() == a.failure()
        &&& c.entries() == files_put(b.entries(), "write"@, write)
        &&& c.last_id() == b.last_id() && c.failure() == b.failure()
        &&& parsed(c.last_id(), c.entries(), memory, d.last_id(), d.entries())
        &&& d.failure() == c.failure()
        &&& parsed(d.last_id(), d.entries(), history, e.last_id(), e.entries())
        &&& e.failure() == d.failure()
        &&& e.access_table() == self.storage.access_table()
        &&& history_added(e, f, !self.no_history && stdin.len() > 0, escaped(stdin, delim))
        &&& history_added(f, after.storage, !self.no_history && input.len() > 0, escaped(input, delim))
        &&& pairs_view(after.write_translation@) == files_mapped(pairs_view(self.write_translation@), write)
    }

    /// Builds the prompt storage (see `compiled`). The caller reads the
    /// prompt, memory and history files and the listed read and write files
    /// (an unreadable file counts as empty).
    pub fn compile_prompt(&mut self, prompt: &str, memory: &str, history: &str,
        read: &Vec<(String, String)>, write: &Vec<(String, String)>, input: &str, stdin: &str)
        requires
            old(self).wf(),
        ensures
            final(self).wf(),
            exists|a: Storage, b: Storage, c: Storage, d: Storage, e: Storage, f: Storage|
                #[trigger] old(self).compiled(&*final(self), prompt@, memory@, history@, pairs_view(read@), pairs_view(write@), input@, stdin@, a, b, c, d, e, f),
            final(self).config == old(self).config,
            final(self).fact_db == old(self).fact_db,
            final(self).state == old(self).state,
            final(self).fact_delimiter == old(self).fact_delimiter,
            final(self).no_history == old(self).no_history,
    {
        self.storage.parse(prompt);
        let ghost a = self.storage;
        proof {
            reveal_strlit("write");
            reveal_strlit("read");
            assert("read"@.len() != "write"@.len());
        }
        self.insert_files("read", read);
        assert(pairs_view(self.write_translation@) == pairs_view(old(self).write_translation@));
        let ghost b = self.storage;
        self.insert_files("write", write);
        let ghost c = self.storage;
        self.storage.parse(memory);
        let ghost d = self.storage;
        self.storage.parse(history);
        let ghost e = self.storage;
        let mark = chars_of("`fact-delimiter`");
        let delim = chars_of(self.fact_delimiter.as_str());
        proof {
            reveal_strlit("write");
            reveal_strlit("read");
            Storage::lemma_same_settings_trans(&c, &b, &a);
            Storage::lemma_same_settings_trans(&d, &c, &a);
            Storage::lemma_same_settings_trans(&e, &d, &a);
            Storage::lemma_same_settings_trans(&e, &a, &old(self).storage);
        }
        if !self.no_history && !stdin.is_empty() {
            let cs = chars_of(stdin);
            let t = crate::text::str_replace_chars(&cs, &delim, &mark);
            let ts = string_of(&t);
            self.storage.insert("", "history", "user", ts.as_str(), true);
        }
        let ghost f = self.storage;
        if !self.no_history && !input.is_empty() {
            let cs = chars_of(input);
            let t = crate::text::str_replace_chars(&cs, &delim, &mark);
            let ts = string_of(&t);
            self.storage.insert("", "history", "user", ts.as_str(), true);
        }
        proof {
            reveal_strlit("");
            Storage::lemma_same_settings_tables(&e, &old(self).storage);
        }
        assert(old(self).compiled(&*self, prompt@, memory@, history@, pairs_view(read@), pairs_view(write@), input@, stdin@, a, b, c, d, e, f));
    }
}


/// The facts of `db` that the ids `ids` name, put one after another into
/// an empty storage.
pub open spec fn picked(db: Seq<EntryView>, ids: Seq<Seq<char>>) -> Seq<EntryView>
    decreases ids.len(),
{
    if ids.len() == 0 {
        seq![]
    } else {
        let acc = picked(db, ids.drop_last());
        let id = ids.last();
        if has_key(db, id) {
            entries_insert(acc, id, db[key_index(db, id)].1)
        } else {
            acc
        }
    }
}

/// The facts the listed `ids` pick from `db`, the `k`-th stored under
/// `used[k]`, in order of first occurrence.
pub open spec fn picked_as(db: Seq<EntryView>, ids: Seq<Seq<char>>, used: Seq<Seq<char>>) -> Seq<EntryView>
    decreases ids.len(),
{
    if ids.len() == 0 || used.len() != ids.len() {
        seq![]
    } else {
        let acc = picked_as(db, ids.drop_last(), used.drop_last());
        if has_key(db, ids.last()) {
            entries_insert(acc, used.last(), db[key_index(db, ids.last())].1)
        } else {
            acc
        }
    }
}

/// The ids facts are stored under: a listed id itself, or, for an empty
/// one, an id made from the clock (the decimal text of a number).
pub open spec fn ids_used(ids: Seq<Seq<char>>, used: Seq<Seq<char>>) -> bool {
    &&& used.len() == ids.len()
    &&& forall|k: int| 0 <= k < ids.len() ==> {
        &&& (#[trigger] ids[k]).len() > 0 ==> used[k] == ids[k]
        &&& ids[k].len() == 0 ==> exists|n: u128| used[k] == decimal(n as nat)
    }
}

/// The ids a template lists: its `facts` items as strings (empty for others).
pub open spec fn template_ids(facts: JsonView) -> Seq<Seq<char>> {
    crate::json::path_items(facts).map_values(|v: JsonView| str_or(Some(v), seq![]))
}

impl Ai {
    /// The `facts` value of the template `template` (null when missing).
    pub open spec fn template_facts(&self, template: Seq<char>) -> JsonView {
        crate::ai::at_path(jview(self.config), seq!["prompts"@, template, "facts"@])
    }

    /// Builds the prompt of the template `template` from the built-in facts:
    /// the text of the facts its `facts` list names, or none when the list
    /// is not an array. A template without `facts` sets the failure
    /// `prompt-template-not-found`.
    pub fn build_prompt(&mut self, template: &str) -> (r: Option<String>)
        requires
            old(self).wf(),
        ensures
            final(self).wf(),
            final(self).storage == old(self).storage,
            final(self).fact_db == old(self).fact_db,
            final(self).config == old(self).config,
            old(self).template_facts(template@) == JsonView::Null ==> {
                &&& r is None
                &&& final(self).state.view_failure() == Some(("prompt-template-not-found"@, seq![
                    ("message"@, "Template not found for your prompt."@),
                    ("current-prompt-id"@, old(self).prompt_id@),
                    ("requested-template-id"@, template@),
                    ("tip"@, "Your need to run `ai --build-promt=<template>`"@),
                    ("aviable-prompt-templates"@, crate::text::join(crate::ai::dedup(crate::json::keys_of(Some(crate::ai::at_path(jview(old(self).config), seq!["prompts"@])))), ","@)),
                ]))
            },
            old(self).template_facts(template@) != JsonView::Null ==> final(self).state == old(self).state,
            old(self).template_facts(template@) is Array <==> r is Some,
            old(self).template_facts(template@) is Array
                && !(template_ids(old(self).template_facts(template@)).contains(seq![]) && has_key(old(self).fact_db.entries(), seq![])) ==>
                r->0@ == crate::storage::entries_text(crate::storage::fact_mark(), picked(old(self).fact_db.entries(), template_ids(old(self).template_facts(template@)))),
            old(self).template_facts(template@) is Array ==> exists|used: Seq<Seq<char>>|
                #[trigger] ids_used(template_ids(old(self).template_facts(template@)), used)
                && r->0@ == crate::storage::entries_text(crate::storage::fact_mark(), picked_as(old(self).fact_db.entries(), template_ids(old(self).template_facts(template@)), used)),
    {
        let ks = crate::ai::keys3("prompts", template, "facts");
        proof {
            reveal_strlit("prompts");
            reveal_strlit("facts");
            reveal_strlit("");
            reveal_strlit(",");
        }
        let facts = crate::ai::value_at(&self.config, ks.as_slice());
        match facts {
            JsonValue::Null => {
                let names = self.get_prompt_templates();
                let mut nv: Vec<Vec<char>> = Vec::new();
                let mut i: usize = 0;
                while i < names.len()
                    invariant
                        i <= names@.len(),
                        nv@.map_values(|w: Vec<char>| w@) == names@.take(i as int).map_values(|s: String| s@),
                    decreases names@.len() - i,
                {
                    let ghost before = nv@.map_values(|w: Vec<char>| w@);
                    nv.push(chars_of(names[i].as_str()));
                    assert(nv@.map_values(|w: Vec<char>| w@) =~= before.push(names@[i as int]@));
                    assert(names@.take(i + 1).map_values(|s: String| s@) =~= names@.take(i as int).map_values(|s: String| s@).push(names@[i as int]@));
                    i = i + 1;
                }
                assert(names@.take(names@.len() as int) =~= names@);
                let comma = chars_of(",");
                let joined = crate::text::join_chars(&nv, &comma);
                let mut d: Vec<(String, String)> = Vec::new();
                d.push(("message".to_owned(), "Template not found for your prompt.".to_owned()));
                d.push(("current-prompt-id".to_owned(), self.prompt_id.clone()));
                d.push(("requested-template-id".to_owned(), template.to_owned()));
                d.push(("tip".to_owned(), "Your need to run `ai --build-promt=<template>`".to_owned()));
                d.push(("aviable-prompt-templates".to_owned(), string_of(&joined)));
                assert(details_view(d@) =~= seq![
                    ("message"@, "Template not found for your prompt."@),
                    ("current-prompt-id"@, old(self).prompt_id@),
                    ("requested-template-id"@, template@),
                    ("tip"@, "Your need to run `ai --build-promt=<template>`"@),
                    ("aviable-prompt-templates"@, crate::text::join(crate::ai::dedup(crate::json::keys_of(Some(crate::ai::at_path(jview(old(self).config), seq!["prompts"@])))), ","@)),
                ]);
                self.state.set_state("prompt-template-not-found".to_owned(), d);
                None
            },
            JsonValue::Array(items) => {
                let ghost db = self.fact_db.entries();
                let ghost ids = template_ids(jview(facts));
                assert(ids =~= Seq::new(items@.len(), |j: int| str_or(Some(jview(items@[j])), seq![])));
                let mut dest = Storage::new();
                let mut i: usize = 0;
                let ghost mut used: Seq<Seq<char>> = seq![];
                assert(ids.take(0) =~= Seq::<Seq<char>>::empty());
                while i < items.len()
                    invariant
                        db == self.fact_db.entries(),
                        self.fact_db.wf(),
                        ids =~= Seq::new(items@.len(), |j: int| str_or(Some(jview(items@[j])), seq![])),
                        i <= items@.len(),
                        dest.wf(),
                        dest.failure() is None,
                        dest.delimiter() == crate::storage::fact_mark(),
                        !(ids.contains(seq![]) && has_key(db, seq![])) ==> dest.entries() == picked(db, ids.take(i as int)),
                        ids_used(ids.take(i as int), used),
                        dest.entries() == picked_as(db, ids.take(i as int), used),
                    decreases items@.len() - i,
                {
                    proof {
                        reveal_strlit("");
                    }
                    let id = get_str(Some(&items[i]), "");
                    assert(id@ == ids[i as int]);
                    assert(ids.take(i + 1).drop_last() =~= ids.take(i as int));
                    let ghost used0 = used;
                    match self.fact_db.get_by_id(id.as_str()) {
                        Some(body) => {
                            let ghost s0 = dest;
                            let stored_as = dest.insert(id.as_str(), body.0.as_str(), body.1.as_str(), body.2.as_str(), true);
                            proof {
                                used = used.push(stored_as@);
                            }
                            proof {
                                Storage::lemma_same_settings_tables(&dest, &s0);
                                if id@.len() == 0 {
                                    assert(id@ =~= Seq::<char>::empty());
                                    assert(ids.contains(ids[i as int]));
                                }
                            }
                        },
                        None => {
                            proof {
                                used = used.push(if id@.len() == 0 { decimal(0nat) } else { id@ });
                            }
                        },
                    }
                    proof {
                        assert(used.drop_last() == used0);
                        assert(used.len() == i + 1);
                        assert(ids.take(i + 1).last() == id@);
                        assert forall|k: int| 0 <= k < i + 1 implies {
                            &&& (#[trigger] ids.take(i + 1)[k]).len() > 0 ==> used[k] == ids.take(i + 1)[k]
                            &&& ids.take(i + 1)[k].len() == 0 ==> exists|n: u128| used[k] == decimal(n as nat)
                        } by {
                            if k < i {
                                assert(ids.take(i + 1)[k] == ids.take(i as int)[k]);
                                assert(used[k] == used0[k]);
                            } else if ids.take(i + 1)[k].len() == 0 && !has_key(db, id@) {
                                assert(used[k] == decimal(0u128 as nat));
                            }
                        }
                    }
                    i = i + 1;
                }
                assert(ids.take(items@.len() as int) =~= ids);
                Some(dest.to_string())
            },
            _ => None,
        }
    }
}


impl Ai {
    /// The string at the top-level key `key` of the configuration, else `d`.
    pub open spec fn top_str(&self, key: Seq<char>, d: Seq<char>) -> Seq<char> {
        str_or(Some(crate::ai::member(jview(self.config), key)), d)
    }

    /// `after` is the prompt storage after the user's fact operations (see
    /// `apply_user_facts`), through the storages `s1` (after the delete) and
    /// `s2` (after the insert).
    pub open spec fn user_facts_done(&self, after: Storage, ins_input: Seq<char>, ins_stdin: Seq<char>, upd_input: Seq<char>, upd_stdin: Seq<char>, s1: Storage, s2: Storage) -> bool {
        let del = self.top_str("delete-fact"@, seq![]);
        let ins = self.top_str("insert-fact"@, seq![]);
        let upd = self.top_str("update-fact"@, seq![]);
        let actor = self.top_str("actor"@, "user"@);
        let domain = self.top_str("domain"@, "history"@);
        let ibody = user_fact_body(ins_input, ins_stdin);
        let ubody = user_fact_body(upd_input, upd_stdin);
        &&& if del.len() > 0 { crate::storage::deleted(self.storage, s1, del, true) } else { s1 == self.storage }
        &&& if ins.len() > 0 && ibody.len() > 0 { crate::storage::inserted(s1, s2, ins, domain, actor, ibody, true) } else { s2 == s1 }
        &&& if upd.len() > 0 && ubody.len() > 0 { crate::storage::updated(s2, after, upd, domain, actor, ubody, true) } else { after == s2 }
    }

    /// The fact operations a user asks for, when the state is ok: the fact
    /// `delete-fact` is deleted; then `insert-fact` and `update-fact` are
    /// inserted and updated, as facts of `domain` (`history`) by `actor`
    /// (`user`) whose body is the user's input and the piped standard input
    /// (see `user_fact_body`; none when that is empty). Access rights are
    /// not asked. `insert_input` and `update_input` are the (input, standard
    /// input) read for each.
    pub fn apply_user_facts(&mut self, insert_input: (&str, &str), update_input: (&str, &str))
        requires
            old(self).wf(),
        ensures
            final(self).wf(),
            final(self).config == old(self).config,
            final(self).state == old(self).state,
            old(self).state.view_failure() is Some ==> final(self).storage == old(self).storage,
            old(self).state.view_failure() is None ==> exists|s1: Storage, s2: Storage|
                #[trigger] old(self).user_facts_done(final(self).storage, insert_input.0@, insert_input.1@, update_input.0@, update_input.1@, s1, s2),
    {
        if !self.state.is_ok() {
            return;
        }
        proof {
            reveal_strlit("");
            assert(""@ =~= Seq::<char>::empty());
        }
        let del = get_str(self.config.get("delete-fact"), "");
        if !del.as_str().is_empty() {
            self.storage.delete(del.as_str(), true);
        }
        let ghost s1 = self.storage;
        let actor = get_str(self.config.get("actor"), "user");
        let domain = get_str(self.config.get("domain"), "history");
        let ins = get_str(self.config.get("insert-fact"), "");
        if !ins.as_str().is_empty() {
            let body = fact_body(insert_input.0, insert_input.1);
            if !body.as_str().is_empty() {
                self.storage.insert(ins.as_str(), domain.as_str(), actor.as_str(), body.as_str(), true);
            }
        }
        let ghost s2 = self.storage;
        let upd = get_str(self.config.get("update-fact"), "");
        if !upd.as_str().is_empty() {
            let body = fact_body(update_input.0, update_input.1);
            if !body.as_str().is_empty() {
                self.storage.update(upd.as_str(), domain.as_str(), actor.as_str(), body.as_str(), true);
            }
        }
        assert(old(self).user_facts_done(self.storage, insert_input.0@, insert_input.1@, update_input.0@, update_input.1@, s1, s2));
    }
}


/// What a run does before it looks at a profile, as the command line asks.
pub struct RunPlan {
    /// Completing the command line `comp-line` (empty when not).
    pub comp_line: String,
    /// Printing the version (`version`, `v`).
    pub show_version: bool,
    /// Printing the help (`?`, `h`, `help`).
    pub show_help: bool,
    /// Typing standard input into the terminal (`tiocsti`).
    pub tiocsti: bool,
    /// Making a profile here (`init`).
    pub init: bool,
    /// No prompt is read (`no-prompt`, or `init`).
    pub no_prompt: bool,
    /// No request is sent (`no-request`, or `init`).
    pub no_request: bool,
    /// Printing the session's information (`i`, `info`).
    pub info: bool,
}

/// The boolean at the top-level key `key` of the configuration, else false.
pub open spec fn top_flag(config: JsonView, key: Seq<char>) -> bool {
    crate::json::bool_or(crate::json::path_get(config, seq![key]), false)
}

fn flag(config: &JsonValue, key: &str) -> (r: bool)
    ensures
        r == top_flag(jview(*config), key@),
{
    let ks = keys1(key);
    crate::json::get_bool(crate::json::get_path(config, ks.as_slice()), false)
}

/// What a run does first (see `RunPlan`): the version, help and terminal
/// requests count only when not completing.
pub fn run_plan(config: &JsonValue) -> (r: RunPlan)
    ensures
        r.comp_line@ == str_or(crate::json::path_get(jview(*config), seq!["comp-line"@]), seq![]),
        r.show_version == (r.comp_line@.len() == 0 && (top_flag(jview(*config), "version"@) || top_flag(jview(*config), "v"@))),
        r.show_help == (r.comp_line@.len() == 0 && (top_flag(jview(*config), "?"@) || top_flag(jview(*config), "h"@) || top_flag(jview(*config), "help"@))),
        r.tiocsti == (r.comp_line@.len() == 0 && top_flag(jview(*config), "tiocsti"@)),
        r.init == top_flag(jview(*config), "init"@),
        r.no_prompt == (top_flag(jview(*config), "no-prompt"@) || r.init),
        r.no_request == (top_flag(jview(*config), "no-request"@) || r.init),
        r.info == (top_flag(jview(*config), "i"@) || top_flag(jview(*config), "info"@)),
{
    let ks = keys1("comp-line");
    proof {
        reveal_strlit("");
        assert(""@ =~= Seq::<char>::empty());
    }
    let comp_line = get_str(crate::json::get_path(config, ks.as_slice()), "");
    let completing = !comp_line.as_str().is_empty();
    let init = flag(config, "init");
    RunPlan {
        show_version: !completing && (flag(config, "version") || flag(config, "v")),
        show_help: !completing && (flag(config, "?") || flag(config, "h") || flag(config, "help")),
        tiocsti: !completing && flag(config, "tiocsti"),
        init,
        no_prompt: flag(config, "no-prompt") || init,
        no_request: flag(config, "no-request") || init,
        info: flag(config, "i") || flag(config, "info"),
        comp_line,
    }
}

/// What a command-line action asks for.
#[derive(PartialEq, Eq, Structural, Clone, Copy, Debug)]
pub enum ActionKind {
    BindChat,
    BindProvider,
    BindPrompt,
    BindModel,
    BindMemory,
    ResetHistory,
    ResetMemory,
    ResetMemoryAndHistory,
    OutHistory,
    OutMemory,
    OutPrompt,
    OutPromptContent,
    SelectFact,
    Other,
}

/// What the action `a` asks for.
pub open spec fn kind_of(a: Seq<char>) -> ActionKind {
    if a == "bind-chat"@ {
        ActionKind::BindChat
    } else if a == "bind-provider"@ {
        ActionKind::BindProvider
    } else if a == "bind-prompt"@ {
        ActionKind::BindPrompt
    } else if a == "bind-model"@ {
        ActionKind::BindModel
    } else if a == "bind-memory"@ {
        ActionKind::BindMemory
    } else if a == "reset-history"@ || a == "remove-history"@ || a == "rh"@ {
        ActionKind::ResetHistory
    } else if a == "reset-memory"@ || a == "remove-memory"@ || a == "rm"@ {
        ActionKind::ResetMemory
    } else if a == "rmh"@ {
        ActionKind::ResetMemoryAndHistory
    } else if a == "out-history"@ || a == "oh"@ {
        ActionKind::OutHistory
    } else if a == "out-memory"@ || a == "om"@ {
        ActionKind::OutMemory
    } else if a == "out-prompt"@ || a == "op"@ {
        ActionKind::OutPrompt
    } else if a == "out-prompt-content"@ || a == "opc"@ {
        ActionKind::OutPromptContent
    } else if a == "select-fact"@ {
        ActionKind::SelectFact
    } else {
        ActionKind::Other
    }
}

fn is(a: &str, b: &str) -> (r: bool)
    ensures
        r == (a@ == b@),
{
    crate::text::str_eq(a, b)
}

/// What the action `a` asks for (see `kind_of`).
pub fn action_kind(a: &str) -> (r: ActionKind)
    ensures
        r == kind_of(a@),
{
    if is(a, "bind-chat") {
        ActionKind::BindChat
    } else if is(a, "bind-provider") {
        ActionKind::BindProvider
    } else if is(a, "bind-prompt") {
        ActionKind::BindPrompt
    } else if is(a, "bind-model") {
        ActionKind::BindModel
    } else if is(a, "bind-memory") {
        ActionKind::BindMemory
    } else if is(a, "reset-history") || is(a, "remove-history") || is(a, "rh") {
        ActionKind::ResetHistory
    } else if is(a, "reset-memory") || is(a, "remove-memory") || is(a, "rm") {
        ActionKind::ResetMemory
    } else if is(a, "rmh") {
        ActionKind::ResetMemoryAndHistory
    } else if is(a, "out-history") || is(a, "oh") {
        ActionKind::OutHistory
    } else if is(a, "out-memory") || is(a, "om") {
        ActionKind::OutMemory
    } else if is(a, "out-prompt") || is(a, "op") {
        ActionKind::OutPrompt
    } else if is(a, "out-prompt-content") || is(a, "opc") {
        ActionKind::OutPromptContent
    } else if is(a, "select-fact") {
        ActionKind::SelectFact
    } else {
        ActionKind::Other
    }
}

impl Ai {
    /// Makes a binding action's target current for the session: the chat,
    /// provider, prompt, model or memory; other actions change nothing.
    pub fn apply_binding(&mut self, kind: ActionKind, target: &str)
        ensures
            kind == ActionKind::BindChat ==> final(self).chat@ == target@,
            kind != ActionKind::BindChat ==> final(self).chat == old(self).chat,
            kind == ActionKind::BindProvider ==> final(self).provider@ == target@,
            kind != ActionKind::BindProvider ==> final(self).provider == old(self).provider,
            kind == ActionKind::BindPrompt ==> final(self).prompt_id@ == target@,
            kind != ActionKind::BindPrompt ==> final(self).prompt_id == old(self).prompt_id,
            kind == ActionKind::BindModel ==> final(self).model@ == target@,
            kind != ActionKind::BindModel ==> final(self).model == old(self).model,
            kind == ActionKind::BindMemory ==> final(self).memory_id@ == target@,
            kind != ActionKind::BindMemory ==> final(self).memory_id == old(self).memory_id,
            final(self).storage == old(self).storage,
            final(self).config == old(self).config,
            final(self).state == old(self).state,
            final(self).fact_db == old(self).fact_db,
    {
        match kind {
            ActionKind::BindChat => {
                self.chat = target.to_owned();
            },
            ActionKind::BindProvider => {
                self.provider = target.to_owned();
            },
            ActionKind::BindPrompt => {
                self.prompt_id = target.to_owned();
            },
            ActionKind::BindModel => {
                self.model = target.to_owned();
            },
            ActionKind::BindMemory => {
                self.memory_id = target.to_owned();
            },
            _ => {},
        }
    }

    /// Sets `unknown-provider` when the current provider is not configured.
    pub fn validate_provider(&mut self)
        ensures
            crate::ai::at_path(jview(old(self).config), seq!["application"@, "ai"@, "providers"@, old(self).provider@]) == JsonView::Null ==>
                final(self).state.view_failure() == Some(("unknown-provider"@, seq![("requested-provider"@, old(self).provider@)])),
            crate::ai::at_path(jview(old(self).config), seq!["application"@, "ai"@, "providers"@, old(self).provider@]) != JsonView::Null ==>
                final(self).state == old(self).state,
            final(self).storage == old(self).storage,
            final(self).config == old(self).config,
            final(self).provider == old(self).provider,
    {
        let p = self.provider.clone();
        if !self.provider_exists(p.as_str()) {
            let mut d: Vec<(String, String)> = Vec::new();
            d.push(("requested-provider".to_owned(), p));
            assert(details_view(d@) =~= seq![("requested-provider"@, old(self).provider@)]);
            self.state.set_state("unknown-provider".to_owned(), d);
        }
    }

    /// Takes the session's switches and rights from the configuration:
    /// `no-history`, `no-memory`, `no-prompt` (false), and the rights
    /// `access-access` (`s`), `access-history` (`si`), `access-memory`
    /// (`si`), `access-prompt` (`s`), `access-shell` (`i`),
    /// `access-clipboard` (`i`), `access-read` (`s`), `access-write` (`su`).
    pub fn load_session_settings(&mut self)
        ensures
            final(self).no_history == crate::json::bool_or(Some(crate::ai::config_value(jview(old(self).config), old(self).provider@, old(self).model@, seq!["no-history"@])), false),
            final(self).no_memory == crate::json::bool_or(Some(crate::ai::config_value(jview(old(self).config), old(self).provider@, old(self).model@, seq!["no-memory"@])), false),
            final(self).no_prompt == crate::json::bool_or(Some(crate::ai::config_value(jview(old(self).config), old(self).provider@, old(self).model@, seq!["no-prompt"@])), false),
            final(self).access_access@ == old(self).cfg_str("access-access"@, "s"@),
            final(self).access_history@ == old(self).cfg_str("access-history"@, "si"@),
            final(self).access_memory@ == old(self).cfg_str("access-memory"@, "si"@),
            final(self).access_prompt@ == old(self).cfg_str("access-prompt"@, "s"@),
            final(self).access_shell@ == old(self).cfg_str("access-shell"@, "i"@),
            final(self).access_clipboard@ == old(self).cfg_str("access-clipboard"@, "i"@),
            final(self).access_read@ == old(self).cfg_str("access-read"@, "s"@),
            final(self).access_write@ == old(self).cfg_str("access-write"@, "su"@),
            final(self).storage == old(self).storage,
            final(self).config == old(self).config,
            final(self).state == old(self).state,
            final(self).provider == old(self).provider,
            final(self).model == old(self).model,
    {
        let k = keys1("no-history");
        self.no_history = self.get_config_bool(k.as_slice(), false);
        let k = keys1("no-memory");
        self.no_memory = self.get_config_bool(k.as_slice(), false);
        let k = keys1("no-prompt");
        self.no_prompt = self.get_config_bool(k.as_slice(), false);
        let k = keys1("access-access");
        self.access_access = self.get_config_str(k.as_slice(), "s");
        let k = keys1("access-history");
        self.access_history = self.get_config_str(k.as_slice(), "si");
        let k = keys1("access-memory");
        self.access_memory = self.get_config_str(k.as_slice(), "si");
        let k = keys1("access-prompt");
        self.access_prompt = self.get_config_str(k.as_slice(), "s");
        let k = keys1("access-shell");
        self.access_shell = self.get_config_str(k.as_slice(), "i");
        let k = keys1("access-clipboard");
        self.access_clipboard = self.get_config_str(k.as_slice(), "i");
        let k = keys1("access-read");
        self.access_read = self.get_config_str(k.as_slice(), "s");
        let k = keys1("access-write");
        self.access_write = self.get_config_str(k.as_slice(), "su");
    }

    /// The id at the top-level key `key` when it is a string, else the id
    /// that the file with text `file` names (see `files::named_id`), else `d`.
    pub open spec fn chosen_id(&self, key: Seq<char>, file: Option<Seq<char>>, d: Seq<char>) -> Seq<char> {
        match crate::json::path_get(jview(self.config), seq![key]) {
            Some(JsonView::Str(s)) => s,
            _ => crate::files::named_id(file, d),
        }
    }

    /// The id at the top-level key `key`, else the one the file names (see `chosen_id`).
    pub fn choose_id(&self, key: &str, file: Option<&str>, d: &str) -> (r: String)
        ensures
            r@ == self.chosen_id(key@, match file { Some(c) => Some(c@), None => None }, d@),
    {
        let ks = keys1(key);
        match crate::json::get_path(&self.config, ks.as_slice()) {
            Some(JsonValue::Str(s)) => s.clone(),
            _ => crate::files::named_id_of(file, d),
        }
    }
}

} // verus!
