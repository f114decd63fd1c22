//! The decisions that steer a run: whether it goes on past its start, the
//! profile it works in, the files a reset action empties, whether the
//! request is sent, and the files written when it ends.
use crate::ai::Ai;
use crate::chat::pairs_view;
use crate::completion::strings_view;
use crate::json::{get_str, jview};
use crate::run::{ActionKind, RunPlan};
use crate::state::details_view;
use crate::storage::{domain_listed, entries_text, fact_mark, strs_view};
use crate::fact_map::EntryView;
use vstd::prelude::*;

verus! {

broadcast use vstd::std_specs::vec::group_vec_axioms;

/// How a run goes on after its first requests are served.
#[derive(PartialEq, Eq, Structural, Clone, Copy, Debug)]
pub enum RunGate {
    /// A profile is found and no standalone request was made: the run goes on.
    Proceed,
    /// No profile or a standalone request, while completing: only the
    /// completion is given.
    Complete,
    /// A standalone request (version, help, terminal input) was served: the
    /// run ends.
    Finish,
    /// No profile was found and nothing else was asked: the run ends with
    /// the failure `profile-not-found`.
    ProfileNotFound,
}

/// Whether the plan asks for something that is served on its own: the
/// version, the help or typing into the terminal.
pub open spec fn standalone(plan: RunPlan) -> bool {
    plan.show_version || plan.show_help || plan.tiocsti
}

/// How the run goes on (see `RunGate`), given whether a profile was found.
pub fn start_gate(plan: &RunPlan, has_profile: bool) -> (r: RunGate)
    ensures
        has_profile && !standalone(*plan) ==> r == RunGate::Proceed,
        !(has_profile && !standalone(*plan)) && plan.comp_line@.len() > 0 ==> r == RunGate::Complete,
        !(has_profile && !standalone(*plan)) && plan.comp_line@.len() == 0 && standalone(*plan) ==> r == RunGate::Finish,
        !(has_profile && !standalone(*plan)) && plan.comp_line@.len() == 0 && !standalone(*plan) ==> r == RunGate::ProfileNotFound,
{
    let alone = plan.show_version || plan.show_help || plan.tiocsti;
    if has_profile && !alone {
        RunGate::Proceed
    } else if !plan.comp_line.as_str().is_empty() {
        RunGate::Complete
    } else if alone {
        RunGate::Finish
    } else {
        RunGate::ProfileNotFound
    }
}

/// The phases of a run that passed its start, in the order they run.
#[derive(PartialEq, Eq, Structural, Clone, Copy, Debug)]
pub enum Phase {
    /// Before the first phase.
    Start,
    /// Choosing the profile (`choose_profile`).
    Profile,
    /// Reading the configuration.
    Config,
    /// Choosing the chat, memory, provider, model and prompt, and building
    /// the prompt a `build-prompt` names.
    Session,
    /// The binding and reset actions, then checking the provider.
    Actions,
    /// Completing the command line.
    Complete,
    /// The session's switches and rights, the prompt file, the user's prompt
    /// and the prompt storage.
    Settings,
    /// The user's fact operations.
    UserFacts,
    /// The outputs asked for, the request, and saving the facts.
    Output,
    /// The run ends.
    Finish,
}

/// Where a run goes when a phase cannot be entered: to the completion when
/// completing, else to its end.
pub open spec fn phase_skipped(completing: bool) -> Phase {
    if completing { Phase::Complete } else { Phase::Finish }
}

/// The phase after `phase`, given whether the state is ok and whether the
/// command line is being completed. Every phase but the completion is
/// entered only with an ok state; the completion follows the actions (or
/// the first phase that could not be entered) whatever the state.
pub open spec fn phase_after(phase: Phase, ok: bool, completing: bool) -> Phase {
    match phase {
        Phase::Start => if ok { Phase::Profile } else { phase_skipped(completing) },
        Phase::Profile => if ok { Phase::Config } else { phase_skipped(completing) },
        Phase::Config => if ok { Phase::Session } else { phase_skipped(completing) },
        Phase::Session => if ok { Phase::Actions } else { phase_skipped(completing) },
        Phase::Actions => if completing { Phase::Complete } else if ok { Phase::Settings } else { Phase::Finish },
        Phase::Settings => if ok { Phase::UserFacts } else { Phase::Finish },
        Phase::UserFacts => if ok { Phase::Output } else { Phase::Finish },
        _ => Phase::Finish,
    }
}

/// Whether the prompt content file must be built from the prompt's
/// template: it is missing (`size` none) or empty.
pub fn prompt_file_needs_build(size: Option<u64>) -> (r: bool)
    ensures
        r == (size is None || size == Some(0u64)),
{
    match size {
        Some(n) => n == 0,
        None => true,
    }
}

/// The domains whose facts are saved to the prompt content file.
pub open spec fn prompt_domains() -> Seq<Seq<char>> {
    seq!["prompt"@, "access"@, "env"@]
}

impl Ai {
    /// The phase after `phase` (see `phase_after`). A failed state ends the
    /// run unless it is completing: no later phase, and so neither the
    /// request nor the saving of the facts, runs.
    pub fn next_phase(&self, phase: Phase, completing: bool) -> (r: Phase)
        ensures
            r == phase_after(phase, self.state.view_failure() is None, completing),
            self.state.view_failure() is Some && !completing ==> r == Phase::Finish,
            r == Phase::Output ==> self.state.view_failure() is None,
    {
        let ok = self.state.is_ok();
        match phase {
            Phase::Start => if ok { Phase::Profile } else if completing { Phase::Complete } else { Phase::Finish },
            Phase::Profile => if ok { Phase::Config } else if completing { Phase::Complete } else { Phase::Finish },
            Phase::Config => if ok { Phase::Session } else if completing { Phase::Complete } else { Phase::Finish },
            Phase::Session => if ok { Phase::Actions } else if completing { Phase::Complete } else { Phase::Finish },
            Phase::Actions => if completing { Phase::Complete } else if ok { Phase::Settings } else { Phase::Finish },
            Phase::Settings => if ok { Phase::UserFacts } else { Phase::Finish },
            Phase::UserFacts => if ok { Phase::Output } else { Phase::Finish },
            _ => Phase::Finish,
        }
    }

    /// The prompt id: the top-level `prompt` when it is a string, else the
    /// text of the chat's prompt file (`file`, as it is), else `default`.
    pub open spec fn chosen_prompt_id(&self, file: Option<Seq<char>>) -> Seq<char> {
        match crate::json::path_get(jview(self.config), seq!["prompt"@]) {
            Some(crate::json::JsonView::Str(p)) => p,
            _ => match file {
                Some(c) => c,
                None => "default"@,
            },
        }
    }

    /// The prompt id (see `chosen_prompt_id`).
    pub fn choose_prompt_id(&self, file: Option<&str>) -> (r: String)
        ensures
            r@ == self.chosen_prompt_id(match file { Some(c) => Some(c@), None => None }),
    {
        let ks = crate::ai::keys1("prompt");
        match crate::json::get_path(&self.config, ks.as_slice()) {
            Some(crate::json::JsonValue::Str(p)) => p.clone(),
            _ => match file {
                Some(c) => c.to_owned(),
                None => "default".to_owned(),
            },
        }
    }

    /// Sets the failure `profile-not-found`.
    pub fn report_profile_not_found(&mut self)
        ensures
            final(self).state.view_failure() == Some(("profile-not-found"@, seq![
                ("message"@, "Profile not found."@),
                ("tip"@, "Your need to run `ai --init`"@),
            ])),
            final(self).storage == old(self).storage,
            final(self).config == old(self).config,
            final(self).profile == old(self).profile,
    {
        let mut d: Vec<(String, String)> = Vec::new();
        d.push(("message".to_owned(), "Profile not found.".to_owned()));
        d.push(("tip".to_owned(), "Your need to run `ai --init`".to_owned()));
        assert(details_view(d@) =~= seq![("message"@, "Profile not found."@), ("tip"@, "Your need to run `ai --init`"@)]);
        self.state.set_state("profile-not-found".to_owned(), d);
    }

    /// Chooses the session's profile when the state is ok: the one
    /// `bind-profile` names (returning true: it is to be written to the
    /// profile file and no prompt is read), else the one the profile file
    /// names (`stored`, its text), `default` when it names none. Returns
    /// false when the profile is not bound. No other field of the session
    /// changes.
    pub fn choose_profile(&mut self, stored: Option<&str>) -> (r: bool)
        ensures
            ({
                let bound = old(self).top_str("bind-profile"@, seq![]);
                &&& old(self).state.view_failure() is Some ==> !r && final(self).profile == old(self).profile
                &&& old(self).state.view_failure() is None && bound.len() > 0 ==> r && final(self).profile@ == bound
                &&& old(self).state.view_failure() is None && bound.len() == 0 ==> !r
                    && final(self).profile@ == crate::files::named_id(match stored { Some(c) => Some(c@), None => None }, "default"@)
            }),
            *final(self) == (Ai { profile: final(self).profile, ..*old(self) }),
    {
        if !self.state.is_ok() {
            return false;
        }
        proof {
            reveal_strlit("");
            assert(""@ =~= Seq::<char>::empty());
        }
        let bound = get_str(self.config.get("bind-profile"), "");
        if !bound.as_str().is_empty() {
            self.profile = bound;
            true
        } else {
            self.profile = crate::files::named_id_of(stored, "default");
            false
        }
    }

    /// The files that the reset action `kind` empties, in order: the history
    /// file, the memory file, or the memory file then the history file;
    /// none for other actions.
    pub fn reset_paths(&self, kind: ActionKind) -> (r: Vec<String>)
        ensures
            strings_view(r@) == match kind {
                ActionKind::ResetHistory => seq![self.history_file_path_of()],
                ActionKind::ResetMemory => seq![self.memory_file_of()],
                ActionKind::ResetMemoryAndHistory => seq![self.memory_file_of(), self.history_file_path_of()],
                _ => Seq::<Seq<char>>::empty(),
            },
    {
        let mut r: Vec<String> = Vec::new();
        match kind {
            ActionKind::ResetHistory => {
                r.push(self.history_file_path());
            },
            ActionKind::ResetMemory => {
                r.push(self.memory_file());
            },
            ActionKind::ResetMemoryAndHistory => {
                r.push(self.memory_file());
                r.push(self.history_file_path());
            },
            _ => {},
        }
        assert(strings_view(r@) =~= match kind {
            ActionKind::ResetHistory => seq![self.history_file_path_of()],
            ActionKind::ResetMemory => seq![self.memory_file_of()],
            ActionKind::ResetMemoryAndHistory => seq![self.memory_file_of(), self.history_file_path_of()],
            _ => Seq::<Seq<char>>::empty(),
        });
        r
    }

    /// The text saved for the facts of the prompt storage in `domains`.
    pub open spec fn saved_text(&self, domains: Seq<Seq<char>>) -> Seq<char> {
        entries_text(fact_mark(), self.storage.entries().filter(|e: EntryView| domain_listed(domains, e.1.0)))
    }

    /// The files written when a run ends, each with its text: the history
    /// facts to the history file, the memory facts to the memory file, and
    /// the prompt, access and environment facts to the prompt content file.
    pub fn end_of_run_files(&self) -> (r: Vec<(String, String)>)
        requires
            self.wf(),
        ensures
            pairs_view(r@) == seq![
                (self.history_file_path_of(), self.saved_text(seq!["history"@])),
                (self.memory_file_of(), self.saved_text(seq!["memory"@])),
                (self.prompt_content_file_of(), self.saved_text(prompt_domains())),
            ],
    {
        let mut h: Vec<&str> = Vec::new();
        h.push("history");
        assert(strs_view(h@) =~= seq!["history"@]);
        let mut m: Vec<&str> = Vec::new();
        m.push("memory");
        assert(strs_view(m@) =~= seq!["memory"@]);
        let mut p: Vec<&str> = Vec::new();
        p.push("prompt");
        p.push("access");
        p.push("env");
        assert(strs_view(p@) =~= prompt_domains());
        let history = self.storage.split(h.as_slice()).to_string();
        let memory = self.storage.split(m.as_slice()).to_string();
        let prompt = self.storage.split(p.as_slice()).to_string();
        let mut r: Vec<(String, String)> = Vec::new();
        r.push((self.history_file_path(), history));
        r.push((self.memory_file(), memory));
        r.push((self.prompt_content_file(), prompt));
        assert(pairs_view(r@) =~= seq![
            (self.history_file_path_of(), self.saved_text(seq!["history"@])),
            (self.memory_file_of(), self.saved_text(seq!["memory"@])),
            (self.prompt_content_file_of(), self.saved_text(prompt_domains())),
        ]);
        r
    }

    /// The largest prompt, in bytes, that may be sent: `max-prompt-bytes`,
    /// 100000 when it is not a number.
    pub open spec fn prompt_limit(&self) -> nat {
        match crate::json::uint_of(Some(crate::ai::config_value(jview(self.config), self.provider@, self.model@, seq!["max-prompt-bytes"@])), usize::MAX as nat) {
            Some(n) => n,
            None => 100000,
        }
    }

    /// Whether the request is sent for a prompt of `size` bytes: not when
    /// `no_request` is set; otherwise when the prompt is under the limit,
    /// else the failure `prompt-size-exceededs` is set.
    pub fn request_allowed(&mut self, no_request: bool, size: usize) -> (r: bool)
        ensures
            r == (!no_request && size < old(self).prompt_limit()),
            no_request || r ==> final(self).state == old(self).state,
            !no_request && !r ==> final(self).state.view_failure() == Some(("prompt-size-exceededs"@, seq![
                ("message"@, "Prompt exceeds limit bytes"@),
                ("size-bytes"@, crate::text::decimal(size as nat)),
                ("max-size-bytes"@, crate::text::decimal(old(self).prompt_limit())),
            ])),
            final(self).config == old(self).config,
            final(self).storage == old(self).storage,
            final(self).fact_db == old(self).fact_db,
            final(self).provider == old(self).provider,
            final(self).model == old(self).model,
    {
        if no_request {
            return false;
        }
        self.check_prompt_size(size)
    }
}

} // verus!
