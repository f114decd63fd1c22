//! What the session does with an answer of the model: each fact of the
//! answer is stored, shown, run or written according to its domain and the
//! access rights, and leaves a status mark. The work outside the process
//! (showing, running a command, writing a file) comes back as effects, in
//! order, for the caller to carry out.
use crate::ai::{contains_seq, Ai, Color};
use crate::fact_map::{entries_insert, has_key, key_index, EntryView};
use crate::json::{bool_or, get_bool, get_path, jview, path_get};
use crate::storage::{access_set, advanced, allows, chain_last, chain_ok, insert_all, parse_blocks, resolve_ids, update_allowed, Storage};
use crate::text::{append_chars, chars_of, decimal, has_char, replace, replace_chars, string_of};
use vstd::prelude::*;

verus! {

broadcast use vstd::std_specs::vec::group_vec_axioms;

/// Work for the caller, in the order it is to be done.
pub enum Effect {
    /// Send `text` (shown in `color` where colours are on) to the destination
    /// `dest` (see `Ai::run_destination`); `wait` for a command to finish.
    Destination { text: String, color: Color, dest: String, wait: bool },
    /// Write `body` to the file `path`, then mark `^w`, or `^!w` on failure.
    WriteFile { path: String, body: String },
    /// Print `text` on standard output.
    Print { text: String },
    /// Push the status mark `text` (see `Ai::mnemo`).
    Mark { text: String },
    /// Print the status line: the marks, the sizes of the history, memory
    /// and prompt files, and the token counts.
    OutStatus,
}

/// The spec value of an effect.
pub enum EffectView {
    Destination(Seq<char>, Color, Seq<char>, bool),
    WriteFile(Seq<char>, Seq<char>),
    Print(Seq<char>),
    Mark(Seq<char>),
    OutStatus,
}

pub open spec fn effect_view(e: Effect) -> EffectView {
    match e {
        Effect::Destination { text, color, dest, wait } => EffectView::Destination(text@, color, dest@, wait),
        Effect::WriteFile { path, body } => EffectView::WriteFile(path@, body@),
        Effect::Print { text } => EffectView::Print(text@),
        Effect::Mark { text } => EffectView::Mark(text@),
        Effect::OutStatus => EffectView::OutStatus,
    }
}

pub open spec fn effects_view(v: Seq<Effect>) -> Seq<EffectView> {
    v.map_values(|e: Effect| effect_view(e))
}

/// A status mark: the operation, `!` when it failed, and the kind.
pub open spec fn mark(op: char, ok: bool, kind: char) -> Seq<char> {
    if ok {
        seq![op, kind]
    } else {
        seq![op, '!', kind]
    }
}

/// A shell command from the model on one line: newlines become spaces and
/// carriage returns are dropped.
pub open spec fn one_line(body: Seq<char>) -> Seq<char> {
    replace(replace(body, seq!['\n'], seq![' ']), seq!['\r'], seq![])
}

/// The text shown for a fact of an unknown domain.
pub open spec fn unrecognized(id: Seq<char>, domain: Seq<char>, actor: Seq<char>, body: Seq<char>) -> Seq<char> {
    "Unrecognized fact:\n"@ + domain + seq!['\n'] + actor + seq!['\n'] + id + seq!['\n'] + body + seq!['\n']
}

/// The file that the write fact `id` goes to: the first entry for `id`.
pub open spec fn write_target(wt: Seq<(Seq<char>, Seq<char>)>, id: Seq<char>) -> Option<Seq<char>>
    decreases wt.len(),
{
    if wt.len() == 0 {
        None
    } else if wt[0].0 == id {
        Some(wt[0].1)
    } else {
        write_target(wt.drop_first(), id)
    }
}

pub open spec fn pairs_view(v: Seq<(String, String)>) -> Seq<(Seq<char>, Seq<char>)> {
    v.map_values(|p: (String, String)| (p.0@, p.1@))
}

/// Whether shell facts are only shown (`no-shell` or `nsh`).
pub open spec fn shell_off(config: crate::json::JsonView) -> bool {
    bool_or(path_get(config, seq!["no-shell"@]), false) || bool_or(path_get(config, seq!["nsh"@]), false)
}

/// `s1` is `s0` after a fact with a generated id was inserted, as
/// `Storage::insert` does with an empty id.
pub open spec fn inserted_new(s0: Storage, s1: Storage, domain: Seq<char>, actor: Seq<char>, body: Seq<char>, no_right: bool) -> bool {
    &&& s1.wf()
    &&& s1.same_settings(&s0)
    &&& s0.failure() is Some ==> {
        &&& s1.entries() == s0.entries()
        &&& s1.failure() == s0.failure()
        &&& s1.last_id() == s0.last_id()
    }
    &&& s0.failure() is None && (allows(s0.access_table(), domain, 'i') || no_right) ==> {
        &&& s1.failure() is None
        &&& advanced(s0.last_id(), s1.last_id())
        &&& s1.entries() == entries_insert(s0.entries(), decimal(s1.last_id() as nat), (domain, actor, body))
    }
    &&& s0.failure() is None && !(allows(s0.access_table(), domain, 'i') || no_right) ==> {
        &&& s1.entries() == s0.entries()
        &&& s1.last_id() == s0.last_id()
        &&& s1.failure() == Some(("storage-insert-not-allowed"@, seq![("domain"@, domain), ("actor"@, actor), ("content"@, body)]))
    }
}

/// `s1` is `s0` after a fact of a stored domain (memory, history, prompt):
/// the failure is cleared, then an empty body deletes the fact `id`, and a
/// body updates it, or inserts a fact with a generated id when there is no
/// fact `id`; access rights decide as in `Storage::delete`, `update` and `insert`.
pub open spec fn stored(s0: Storage, s1: Storage, id: Seq<char>, domain: Seq<char>, actor: Seq<char>, body: Seq<char>) -> bool {
    let es = s0.entries();
    let acc = s0.access_table();
    &&& s1.wf()
    &&& s1.same_settings(&s0)
    &&& if !has_key(es, id) {
        if body.len() == 0 {
            &&& s1.entries() == es
            &&& s1.failure() is None
            &&& s1.last_id() == s0.last_id()
        } else if allows(acc, domain, 'i') {
            &&& s1.failure() is None
            &&& advanced(s0.last_id(), s1.last_id())
            &&& s1.entries() == entries_insert(es, decimal(s1.last_id() as nat), (domain, actor, body))
        } else {
            &&& s1.entries() == es
            &&& s1.last_id() == s0.last_id()
            &&& s1.failure() == Some(("storage-insert-not-allowed"@, seq![("domain"@, domain), ("actor"@, actor), ("content"@, body)]))
        }
    } else {
        let k = key_index(es, id);
        let old_domain = es[k].1.0;
        &&& s1.last_id() == s0.last_id()
        &&& if body.len() == 0 {
            if allows(acc, old_domain, 'd') {
                &&& s1.failure() is None
                &&& s1.entries() == es.remove(k)
            } else {
                &&& s1.entries() == es
                &&& s1.failure() == Some(("storage-delete-not-allowed"@, seq![("id"@, id)]))
            }
        } else {
            if update_allowed(acc, old_domain, domain, false) {
                &&& s1.failure() is None
                &&& s1.entries() == es.update(k, (id, (domain, actor, body)))
            } else {
                &&& s1.entries() == es
                &&& s1.failure() == Some(("storage-update-not-allowed"@, seq![("id"@, id), ("content"@, body)]))
            }
        }
    }
}

/// The effects of a stored fact: the body shown (`show`, unless it is
/// empty), then the mark: `+` for an insert, `^` for an update, `-` for a
/// delete; nothing when an empty body names no fact.
pub open spec fn stored_effects(es: Seq<EntryView>, id: Seq<char>, body: Seq<char>, ok: bool, kind: char, show: Option<EffectView>) -> Seq<EffectView> {
    if !has_key(es, id) {
        if body.len() == 0 {
            seq![]
        } else {
            shown_then(show, EffectView::Mark(mark('+', ok, kind)))
        }
    } else if body.len() == 0 {
        seq![EffectView::Mark(mark('-', ok, kind))]
    } else {
        shown_then(show, EffectView::Mark(mark('^', ok, kind)))
    }
}

pub open spec fn shown_then(show: Option<EffectView>, m: EffectView) -> Seq<EffectView> {
    match show {
        Some(d) => seq![d].push(m),
        None => seq![m],
    }
}

impl Ai {
    /// The session is `other` but for the prompt storage.
    pub open spec fn same_rules(&self, other: &Ai) -> bool {
        &&& self.config == other.config
        &&& self.no_prompt == other.no_prompt
        &&& self.no_history == other.no_history
        &&& self.no_memory == other.no_memory
        &&& self.access_write == other.access_write
        &&& self.access_clipboard == other.access_clipboard
        &&& self.write_translation == other.write_translation
        &&& self.status == other.status
        &&& self.state == other.state
        &&& self.profiles_path == other.profiles_path
        &&& self.profile == other.profile
        &&& self.provider == other.provider
        &&& self.model == other.model
        &&& self.chat == other.chat
        &&& self.memory_id == other.memory_id
        &&& self.prompt_id == other.prompt_id
        &&& self.fact_delimiter == other.fact_delimiter
        &&& self.fact_db == other.fact_db
        &&& self.access_access == other.access_access
        &&& self.access_history == other.access_history
        &&& self.access_memory == other.access_memory
        &&& self.access_prompt == other.access_prompt
        &&& self.access_shell == other.access_shell
        &&& self.access_read == other.access_read
        &&& self.colorize == other.colorize
    }

    /// What one fact `(id, domain, actor, body)` of an answer does: the
    /// effects `effs`, and the storage of `self` becoming that of `after`.
    pub open spec fn fact_step(&self, after: &Ai, id: Seq<char>, domain: Seq<char>, actor: Seq<char>, body: Seq<char>, effs: Seq<EffectView>) -> bool {
        let s0 = self.storage;
        let s1 = after.storage;
        let ok = s1.failure() is None;
        &&& after.same_rules(self)
        &&& if domain == "read"@ {
            &&& s1 == s0
            &&& effs == seq![EffectView::Mark("^!r"@)]
        } else if domain == "write"@ {
            &&& s1 == s0
            &&& effs == if contains_seq(self.access_write@, "u"@) {
                match write_target(pairs_view(self.write_translation@), id) {
                    Some(path) => seq![EffectView::WriteFile(path, body)],
                    None => seq![EffectView::Mark("^!w"@)],
                }
            } else {
                seq![EffectView::Mark("^!w"@)]
            }
        } else if domain == "clipboard"@ {
            &&& s1 == s0
            &&& effs == if contains_seq(self.access_clipboard@, "i"@) {
                seq![EffectView::Destination(body, Color::Default, "clipboard"@, true)].push(EffectView::Mark("+c"@))
            } else {
                seq![EffectView::Destination(body, Color::Yellow, "message"@, true)].push(EffectView::Mark("+!c"@))
            }
        } else if domain == "shell"@ {
            if shell_off(jview(self.config)) {
                &&& s1 == s0
                &&& effs == seq![EffectView::Destination(body, Color::Yellow, "message"@, true)]
            } else if !contains_seq(self.access_shell@, "i"@) {
                &&& s1 == s0
                &&& effs == seq![EffectView::Destination(body, Color::Yellow, "message"@, true)].push(EffectView::Mark("+!s"@))
            } else {
                &&& if self.no_history {
                    s1 == s0
                } else {
                    inserted_new(s0, s1, "history"@, "assistant"@, body, false)
                }
                &&& effs == seq![EffectView::Destination(one_line(body), Color::Default, "command"@, false)].push(
                    EffectView::Mark(if body.contains('\n') { "+!s"@ } else { "+s"@ }),
                )
            }
        } else if domain == "memory"@ || domain == "history"@ || domain == "prompt"@ {
            let kind = if domain == "memory"@ { 'm' } else if domain == "history"@ { 'h' } else { 'p' };
            let off = if domain == "memory"@ { self.no_memory } else if domain == "history"@ { self.no_history } else { self.no_prompt };
            if off {
                &&& s1.failure() is None
                &&& s1.entries() == s0.entries()
                &&& s1.last_id() == s0.last_id()
                &&& s1.same_settings(&s0)
                &&& s1.wf()
                &&& effs == seq![EffectView::Print(body)]
            } else {
                let show = if domain == "memory"@ {
                    None
                } else if domain == "history"@ {
                    Some(EffectView::Destination(body, Color::Cyan, "message"@, true))
                } else {
                    Some(EffectView::Destination(body, Color::Default, "message"@, true))
                };
                &&& stored(s0, s1, id, domain, actor, body)
                &&& effs == stored_effects(s0.entries(), id, body, ok, kind, show)
            }
        } else {
            let text = unrecognized(id, domain, actor, body);
            &&& if self.no_history {
                s1 == s0
            } else {
                inserted_new(s0, s1, "history"@, "assistant"@, text, false)
            }
            &&& effs == seq![EffectView::Mark("!!"@)].push(EffectView::Destination(text, Color::Default, "message"@, true))
        }
    }
}

fn push_effect(r: &mut Vec<Effect>, e: Effect)
    ensures
        effects_view(final(r)@) == effects_view(old(r)@).push(effect_view(e)),
{
    let ghost e0 = e;
    r.push(e);
    assert(effects_view(r@) =~= effects_view(old(r)@).push(effect_view(e0)));
}

/// The status mark text `op`, `!` when not `ok`, `kind`.
fn mark_text(op: char, ok: bool, kind: char) -> (r: String)
    ensures
        r@ == mark(op, ok, kind),
{
    let mut v: Vec<char> = Vec::new();
    v.push(op);
    if !ok {
        v.push('!');
    }
    v.push(kind);
    assert(v@ =~= mark(op, ok, kind));
    string_of(&v)
}

fn mark_effect(text: &str) -> (r: Effect)
    ensures
        effect_view(r) == EffectView::Mark(text@),
{
    Effect::Mark { text: text.to_owned() }
}

fn destination(text: &str, color: Color, dest: &str, wait: bool) -> (r: Effect)
    ensures
        effect_view(r) == EffectView::Destination(text@, color, dest@, wait),
{
    Effect::Destination { text: text.to_owned(), color, dest: dest.to_owned(), wait }
}

/// The file the write fact `id` goes to.
pub fn find_write_target(wt: &Vec<(String, String)>, id: &str) -> (r: Option<String>)
    ensures
        match r {
            Some(p) => write_target(pairs_view(wt@), id@) == Some(p@),
            None => write_target(pairs_view(wt@), id@) is None,
        },
{
    let ghost wv = pairs_view(wt@);
    let mut i: usize = 0;
    assert(wv.skip(0) =~= wv);
    while i < wt.len()
        invariant
            wv == pairs_view(wt@),
            i <= wt@.len(),
            write_target(wv, id@) == write_target(wv.skip(i as int), id@),
        decreases wt@.len() - i,
    {
        assert(wv.skip(i as int)[0] == (wt@[i as int].0@, wt@[i as int].1@));
        assert(wv.skip(i as int).drop_first() =~= wv.skip(i + 1));
        if crate::text::str_eq(wt[i].0.as_str(), id) {
            return Some(wt[i].1.clone());
        }
        i = i + 1;
    }
    None
}

/// `body` on one line (see `one_line`).
pub fn one_line_command(body: &str) -> (r: String)
    ensures
        r@ == one_line(body@),
{
    let cs = chars_of(body);
    let nl = ['\n'];
    let sp = [' '];
    let cr = ['\r'];
    let none: [char; 0] = [];
    assert(nl@ == seq!['\n']);
    assert(sp@ == seq![' ']);
    assert(cr@ == seq!['\r']);
    assert(none@ =~= Seq::<char>::empty());
    let a = replace_chars(&cs, &nl, &sp);
    let b = replace_chars(&a, &cr, &none);
    string_of(&b)
}

/// The text shown for a fact of an unknown domain (see `unrecognized`).
pub fn unrecognized_text(id: &str, domain: &str, actor: &str, body: &str) -> (r: String)
    ensures
        r@ == unrecognized(id@, domain@, actor@, body@),
{
    let mut v = chars_of("Unrecognized fact:\n");
    let nl = ['\n'];
    assert(nl@ == seq!['\n']);
    let d = chars_of(domain);
    let a = chars_of(actor);
    let i = chars_of(id);
    let b = chars_of(body);
    append_chars(&mut v, &d);
    append_chars(&mut v, &nl);
    append_chars(&mut v, &a);
    append_chars(&mut v, &nl);
    append_chars(&mut v, &i);
    append_chars(&mut v, &nl);
    append_chars(&mut v, &b);
    append_chars(&mut v, &nl);
    string_of(&v)
}


impl Ai {
    /// Whether shell facts are only shown (see `shell_off`).
    pub fn shell_is_off(&self) -> (r: bool)
        ensures
            r == shell_off(jview(self.config)),
    {
        let a = crate::ai::keys1("no-shell");
        let b = crate::ai::keys1("nsh");
        get_bool(get_path(&self.config, a.as_slice()), false) || get_bool(get_path(&self.config, b.as_slice()), false)
    }

    /// Handles one fact of an answer (see `fact_step`) and returns its effects.
    pub fn apply_fact(&mut self, id: &str, domain: &str, actor: &str, body: &str) -> (r: Vec<Effect>)
        requires
            old(self).wf(),
        ensures
            final(self).wf(),
            old(self).fact_step(&*final(self), id@, domain@, actor@, body@, effects_view(r@)),
    {
        let mut r: Vec<Effect> = Vec::new();
        assert(effects_view(r@) =~= Seq::<EffectView>::empty());
        proof {
            reveal_strlit("");
        }
        if crate::text::str_eq(domain, "read") {
            push_effect(&mut r, mark_effect("^!r"));
        } else if crate::text::str_eq(domain, "write") {
            if Ai::check_access(self.access_write.as_str(), "u") {
                match find_write_target(&self.write_translation, id) {
                    Some(path) => {
                        push_effect(&mut r, Effect::WriteFile { path, body: body.to_owned() });
                    },
                    None => {
                        push_effect(&mut r, mark_effect("^!w"));
                    },
                }
            } else {
                push_effect(&mut r, mark_effect("^!w"));
            }
        } else if crate::text::str_eq(domain, "clipboard") {
            if Ai::check_access(self.access_clipboard.as_str(), "i") {
                push_effect(&mut r, destination(body, Color::Default, "clipboard", true));
                push_effect(&mut r, mark_effect("+c"));
            } else {
                push_effect(&mut r, destination(body, Color::Yellow, "message", true));
                push_effect(&mut r, mark_effect("+!c"));
            }
        } else if crate::text::str_eq(domain, "shell") {
            if self.shell_is_off() {
                push_effect(&mut r, destination(body, Color::Yellow, "message", true));
            } else if !Ai::check_access(self.access_shell.as_str(), "i") {
                push_effect(&mut r, destination(body, Color::Yellow, "message", true));
                push_effect(&mut r, mark_effect("+!s"));
            } else {
                if !self.no_history {
                    self.storage.insert("", "history", "assistant", body, false);
                }
                let clean = one_line_command(body);
                push_effect(&mut r, destination(clean.as_str(), Color::Default, "command", false));
                let bs = chars_of(body);
                let has_nl = crate::text::contains_char(&bs, '\n');
                assert(has_char(body@, '\n') == body@.contains('\n'));
                if has_nl {
                    push_effect(&mut r, mark_effect("+!s"));
                } else {
                    push_effect(&mut r, mark_effect("+s"));
                }
            }
        } else if crate::text::str_eq(domain, "memory") || crate::text::str_eq(domain, "history")
            || crate::text::str_eq(domain, "prompt") {
            proof {
                reveal_strlit("memory");
                reveal_strlit("history");
                reveal_strlit("prompt");
            }
            let is_memory = crate::text::str_eq(domain, "memory");
            let is_history = crate::text::str_eq(domain, "history");
            let kind = if is_memory { 'm' } else if is_history { 'h' } else { 'p' };
            let off = if is_memory { self.no_memory } else if is_history { self.no_history } else { self.no_prompt };
            let ghost s_orig = self.storage;
            self.storage.set_ok();
            let ghost s0 = self.storage;
            if off {
                push_effect(&mut r, Effect::Print { text: body.to_owned() });
            } else {
                let exists = self.storage.exists_id(id);
                if body.is_empty() {
                    if exists {
                        self.storage.delete(id, false);
                        let ok = self.storage.get_state().is_ok();
                        let t = mark_text('-', ok, kind);
                        push_effect(&mut r, mark_effect(t.as_str()));
                    }
                } else {
                    if is_history {
                        push_effect(&mut r, destination(body, Color::Cyan, "message", true));
                    } else if !is_memory {
                        push_effect(&mut r, destination(body, Color::Default, "message", true));
                    }
                    if exists {
                        self.storage.update(id, domain, actor, body, false);
                        let ok = self.storage.get_state().is_ok();
                        let t = mark_text('^', ok, kind);
                        push_effect(&mut r, mark_effect(t.as_str()));
                    } else {
                        self.storage.insert("", domain, actor, body, false);
                        let ok = self.storage.get_state().is_ok();
                        let t = mark_text('+', ok, kind);
                        push_effect(&mut r, mark_effect(t.as_str()));
                    }
                }
                proof {
                    Storage::lemma_same_settings_refl(&s0);
                    Storage::lemma_same_settings_trans(&self.storage, &s0, &s_orig);
                }
            }
        } else {
            let text = unrecognized_text(id, domain, actor, body);
            push_effect(&mut r, mark_effect("!!"));
            if !self.no_history {
                self.storage.insert("", "history", "assistant", text.as_str(), false);
            }
            push_effect(&mut r, destination(text.as_str(), Color::Default, "message", true));
        }
        r
    }
}


/// The parts one after another.
pub open spec fn concat(parts: Seq<Seq<EffectView>>) -> Seq<EffectView>
    decreases parts.len(),
{
    if parts.len() == 0 {
        seq![]
    } else {
        concat(parts.drop_last()) + parts.last()
    }
}

/// The facts of an answer `content`, as a fresh storage holds them after
/// reading it with the generated ids `gen`.
pub open spec fn answer_facts(content: Seq<char>, gen: Seq<u128>) -> Seq<EntryView> {
    insert_all(seq![], resolve_ids(parse_blocks(content), gen))
}

/// The access table after the session's rights are set, domain by domain.
pub open spec fn rights_table(acc: Seq<(Seq<char>, Seq<char>)>, a: &Ai) -> Seq<(Seq<char>, Seq<char>)> {
    access_set(access_set(access_set(access_set(access_set(access_set(access_set(access_set(acc,
        "access"@, a.access_access@), "history"@, a.access_history@), "prompt"@, a.access_prompt@),
        "memory"@, a.access_memory@), "shell"@, a.access_shell@), "clipboard"@, a.access_clipboard@),
        "read"@, a.access_read@), "write"@, a.access_write@)
}

fn append_effects(r: &mut Vec<Effect>, mut e: Vec<Effect>)
    ensures
        effects_view(final(r)@) == effects_view(old(r)@) + effects_view(e@),
{
    let ghost ev = effects_view(e@);
    r.append(&mut e);
    assert(effects_view(r@) =~= effects_view(old(r)@) + ev);
}

impl Ai {
    /// Sets the session's access rights on the prompt storage.
    pub fn apply_rights(&mut self)
        requires
            old(self).wf(),
        ensures
            final(self).wf(),
            final(self).same_rules(old(self)),
            final(self).storage.entries() == old(self).storage.entries(),
            final(self).storage.failure() == old(self).storage.failure(),
            final(self).storage.last_id() == old(self).storage.last_id(),
            final(self).storage.delimiter() == old(self).storage.delimiter(),
            final(self).storage.access_table() == rights_table(old(self).storage.access_table(), old(self)),
    {
        let a = self.access_access.clone();
        self.storage.set_access("access", a.as_str());
        let a = self.access_history.clone();
        self.storage.set_access("history", a.as_str());
        let a = self.access_prompt.clone();
        self.storage.set_access("prompt", a.as_str());
        let a = self.access_memory.clone();
        self.storage.set_access("memory", a.as_str());
        let a = self.access_shell.clone();
        self.storage.set_access("shell", a.as_str());
        let a = self.access_clipboard.clone();
        self.storage.set_access("clipboard", a.as_str());
        let a = self.access_read.clone();
        self.storage.set_access("read", a.as_str());
        let a = self.access_write.clone();
        self.storage.set_access("write", a.as_str());
    }

    /// `after` and the effects `effs` are what handling the answer `content`
    /// from `self` gives, the answer's facts read with the generated ids
    /// `gen`, through the sessions `chain` and the effects `parts` of each fact.
    pub open spec fn answer_handled(&self, after: &Ai, content: Seq<char>, effs: Seq<EffectView>, gen: Seq<u128>, chain: Seq<Ai>, parts: Seq<Seq<EffectView>>) -> bool {
        let before = self;
        let facts = answer_facts(content, gen);
        let n = facts.len();
        let tail = if crate::json::bool_or(Some(crate::ai::config_value(jview(before.config), before.provider@, before.model@, seq!["out-status"@])), false) {
            seq![EffectView::OutStatus]
        } else {
            seq![]
        };
        &&& chain_ok(0, parse_blocks(content), gen)
        &&& chain.len() == n + 1
        &&& parts.len() == n
        &&& chain[0].same_rules(before)
        &&& chain[0].storage.wf()
        &&& chain[0].storage.entries() == before.storage.entries()
        &&& chain[0].storage.failure() == before.storage.failure()
        &&& chain[0].storage.last_id() == before.storage.last_id()
        &&& chain[0].storage.access_table() == rights_table(before.storage.access_table(), before)
        &&& chain[n as int] == *after
        &&& forall|i: int| 0 <= i < n ==> (#[trigger] chain[i]).fact_step(&chain[i + 1], facts[i].0, facts[i].1.0, facts[i].1.1, facts[i].1.2, parts[i])
        &&& effs == if n > 0 {
            concat(parts) + tail
        } else {
            seq![EffectView::Destination(content, Color::Default, "message"@, true), EffectView::Mark("!E"@)] + tail
        }
    }

    /// Handles an answer of the model: its facts (read as `Storage::parse`
    /// reads them) one by one with `apply_fact`, after the session's access
    /// rights are set; an answer without facts is shown as it is and marked
    /// `!E`. The status line follows when `out-status` is set.
    pub fn handle_chat_response(&mut self, content: &str) -> (r: Vec<Effect>)
        requires
            old(self).wf(),
        ensures
            final(self).wf(),
            final(self).same_rules(old(self)),
            exists|gen: Seq<u128>, chain: Seq<Ai>, parts: Seq<Seq<EffectView>>| #[trigger] old(self).answer_handled(&*final(self), content@, effects_view(r@), gen, chain, parts),
    {
        self.apply_rights();
        let ghost start = *self;
        let mut answer = Storage::new();
        answer.set_fact_delimiter(self.fact_delimiter.as_str());
        answer.parse(content);
        let ghost gen = choose|gen: Seq<u128>| {
            &&& chain_ok(0, parse_blocks(content@), gen)
            &&& answer.last_id() == chain_last(0, parse_blocks(content@), gen)
            &&& answer.entries() == insert_all(seq![], resolve_ids(parse_blocks(content@), gen))
        };
        let ghost facts = answer.entries();
        let n = answer.len();
        let mut r: Vec<Effect> = Vec::new();
        let ghost mut chain: Seq<Ai> = seq![*self];
        let ghost mut parts: Seq<Seq<EffectView>> = seq![];
        assert(effects_view(r@) =~= Seq::<EffectView>::empty());
        if n > 0 {
            let mut i: usize = 0;
            while i < n
                invariant
                    n == facts.len(),
                    facts == answer.entries(),
                    i <= n,
                    self.wf(),
                    chain.len() == i + 1,
                    parts.len() == i,
                    chain[0] == start,
                    chain[i as int] == *self,
                    forall|j: int| 0 <= j < i ==> (#[trigger] chain[j]).fact_step(&chain[j + 1], facts[j].0, facts[j].1.0, facts[j].1.1, facts[j].1.2, parts[j]),
                    effects_view(r@) == concat(parts),
                    self.same_rules(&start),
                decreases n - i,
            {
                let (id, body) = match answer.entry_at(i) {
                    Some(kv) => (kv.0.clone(), (kv.1.0.clone(), kv.1.1.clone(), kv.1.2.clone())),
                    None => (String::new(), (String::new(), String::new(), String::new())),
                };
                let ghost before = *self;
                let e = self.apply_fact(id.as_str(), body.0.as_str(), body.1.as_str(), body.2.as_str());
                let ghost ev = effects_view(e@);
                append_effects(&mut r, e);
                proof {
                    assert(parts.push(ev).drop_last() =~= parts);
                    chain = chain.push(*self);
                    parts = parts.push(ev);
                }
                i = i + 1;
            }
        } else {
            push_effect(&mut r, destination(content, Color::Default, "message", true));
            push_effect(&mut r, mark_effect("!E"));
            assert(effects_view(r@) =~= seq![EffectView::Destination(content@, Color::Default, "message"@, true), EffectView::Mark("!E"@)]);
        }
        assert(facts == answer_facts(content@, gen));
        assert(chain_ok(0, parse_blocks(content@), gen));
        assert(chain[n as int] == *self);
        assert(chain[0].storage.access_table() == rights_table(old(self).storage.access_table(), old(self)));
        let ghost body_effs = effects_view(r@);
        let ks = crate::ai::keys1("out-status");
        if self.get_config_bool(ks.as_slice(), false) {
            push_effect(&mut r, Effect::OutStatus);
            assert(effects_view(r@) =~= body_effs + seq![EffectView::OutStatus]);
        } else {
            assert(effects_view(r@) =~= body_effs + Seq::<EffectView>::empty());
        }
        assert(old(self).answer_handled(&*self, content@, effects_view(r@), gen, chain, parts));
        r
    }
}


/// How data reaches a destination.
pub enum Dispatch {
    /// No command is configured: print the data.
    Print { data: String },
    /// Run `command` with `shell -c`, the data on its standard input; wait
    /// for it when `wait`. Where it cannot be started, the data is printed.
    Run { shell: String, command: String, data: String, wait: bool },
}

/// The spec value of a dispatch.
pub enum DispatchView {
    Print(Seq<char>),
    Run(Seq<char>, Seq<char>, Seq<char>, bool),
}

pub open spec fn dispatch_view(d: Dispatch) -> DispatchView {
    match d {
        Dispatch::Print { data } => DispatchView::Print(data@),
        Dispatch::Run { shell, command, data, wait } => DispatchView::Run(shell@, command@, data@, wait),
    }
}

impl Ai {
    /// How `data` is sent through `command`: printed when the command is
    /// empty, else run by the configured `shell` (`/bin/bash`) with `%data%`
    /// in the command replaced by the data.
    pub open spec fn command_dispatch(&self, data: Seq<char>, command: Seq<char>, wait: bool) -> DispatchView {
        if command.len() == 0 {
            DispatchView::Print(data)
        } else {
            DispatchView::Run(self.cfg_str("shell"@, "/bin/bash"@), replace(command, "%data%"@, data), data, wait)
        }
    }

    /// The command configured for the destination `dest` (`destination.<dest>`), else empty.
    pub open spec fn destination_command(&self, dest: Seq<char>) -> Seq<char> {
        crate::json::str_or(Some(crate::ai::config_value(jview(self.config), self.provider@, self.model@, seq!["destination"@, dest])), seq![])
    }

    /// How `data` is sent through `command` (see `command_dispatch`).
    pub fn run_command(&self, data: &str, command: &str, wait: bool) -> (r: Dispatch)
        ensures
            dispatch_view(r) == self.command_dispatch(data@, command@, wait),
    {
        if command.is_empty() {
            return Dispatch::Print { data: data.to_owned() };
        }
        let ks = crate::ai::keys1("shell");
        let shell = self.get_config_str(ks.as_slice(), "/bin/bash");
        let cs = chars_of(command);
        let pat = chars_of("%data%");
        let rep = chars_of(data);
        proof {
            reveal_strlit("%data%");
        }
        let run = replace_chars(&cs, &pat, &rep);
        Dispatch::Run { shell, command: string_of(&run), data: data.to_owned(), wait }
    }

    /// How `data` is sent to the destination `dest_type` (see `destination_command`).
    pub fn run_destination(&self, data: &str, dest_type: &str, wait: bool) -> (r: Dispatch)
        ensures
            dispatch_view(r) == self.command_dispatch(data@, self.destination_command(dest_type@), wait),
    {
        let mut ks: Vec<&str> = Vec::new();
        ks.push("destination");
        ks.push(dest_type);
        assert(crate::ai::keys_view(ks@) =~= seq!["destination"@, dest_type@]);
        proof {
            reveal_strlit("");
        }
        let command = self.get_config_str(ks.as_slice(), "");
        self.run_command(data, command.as_str(), wait)
    }

    /// The terminal that commands are typed into (`tty_device`, `/dev/tty`).
    pub fn tty_device(&self) -> (r: String)
        ensures
            r@ == self.cfg_str("tty_device"@, "/dev/tty"@),
    {
        let ks = crate::ai::keys1("tty_device");
        self.get_config_str(ks.as_slice(), "/dev/tty")
    }
}

} // verus!
