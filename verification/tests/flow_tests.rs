use ai_cli::ai::Ai;
use ai_cli::flow::{prompt_file_needs_build, start_gate, Phase, RunGate};
use ai_cli::json::JsonValue;
use ai_cli::run::{action_flags, action_kind, is_quiet_action, run_plan, ActionKind};

fn obj(items: Vec<(&str, JsonValue)>) -> JsonValue {
    JsonValue::Object(items.into_iter().map(|(k, v)| (k.to_string(), v)).collect())
}

fn session(config: JsonValue) -> Ai {
    let mut a = Ai::create(config);
    a.provider = "deepseek".to_string();
    a.model = "chat".to_string();
    a.profiles_path = "/w/.ai-cli".to_string();
    a.chat = "work".to_string();
    a.memory_id = "mem".to_string();
    a.prompt_id = "default".to_string();
    a
}

const HISTORY: &str = "/w/.ai-cli/profiles/default/chats/work/history.txt";
const MEMORY: &str = "/w/.ai-cli/profiles/default/memory/mem.txt";
const PROMPT: &str = "/w/.ai-cli/profiles/default/chats/work/prompts/default.txt";

#[test]
fn remove_actions_reset_and_are_quiet() {
    assert_eq!(action_kind("remove-history"), ActionKind::ResetHistory);
    assert_eq!(action_kind("reset-history"), ActionKind::ResetHistory);
    assert_eq!(action_kind("rh"), ActionKind::ResetHistory);
    assert_eq!(action_kind("remove-memory"), ActionKind::ResetMemory);
    assert_eq!(action_kind("rm"), ActionKind::ResetMemory);
    assert_eq!(action_kind("rmh"), ActionKind::ResetMemoryAndHistory);
    assert!(is_quiet_action("remove-history"));
    assert!(is_quiet_action("remove-memory"));
    let actions = vec![("remove-history".to_string(), String::new())];
    assert_eq!(action_flags(&actions, false, false), (true, true));
}

#[test]
fn reset_paths_of_each_action() {
    let a = session(obj(vec![]));
    assert_eq!(a.reset_paths(ActionKind::ResetHistory), vec![HISTORY.to_string()]);
    assert_eq!(a.reset_paths(ActionKind::ResetMemory), vec![MEMORY.to_string()]);
    assert_eq!(a.reset_paths(ActionKind::ResetMemoryAndHistory), vec![MEMORY.to_string(), HISTORY.to_string()]);
    assert!(a.reset_paths(ActionKind::OutHistory).is_empty());
    assert!(a.reset_paths(ActionKind::Other).is_empty());
}

#[test]
fn gate_of_a_run() {
    let plan = run_plan(&obj(vec![]));
    assert_eq!(start_gate(&plan, true), RunGate::Proceed);
    assert_eq!(start_gate(&plan, false), RunGate::ProfileNotFound);
    let plan = run_plan(&obj(vec![("version", JsonValue::Bool(true))]));
    assert_eq!(start_gate(&plan, true), RunGate::Finish);
    assert_eq!(start_gate(&plan, false), RunGate::Finish);
    let plan = run_plan(&obj(vec![("comp-line", JsonValue::Str("ai --ch".to_string()))]));
    assert_eq!(start_gate(&plan, false), RunGate::Complete);
    assert_eq!(start_gate(&plan, true), RunGate::Proceed);
}

#[test]
fn profile_not_found_is_reported() {
    let mut a = session(obj(vec![]));
    a.report_profile_not_found();
    let f = a.state.failure.as_ref().unwrap();
    assert_eq!(f.code, "profile-not-found");
    assert_eq!(f.details, vec![
        ("message".to_string(), "Profile not found.".to_string()),
        ("tip".to_string(), "Your need to run `ai --init`".to_string()),
    ]);
}

#[test]
fn profile_is_bound_or_read() {
    let mut a = session(obj(vec![("bind-profile", JsonValue::Str("work".to_string()))]));
    assert!(a.choose_profile(Some("home\n")));
    assert_eq!(a.profile, "work");
    assert_eq!((a.chat.as_str(), a.provider.as_str(), a.model.as_str()), ("work", "deepseek", "chat"));
    assert_eq!((a.memory_id.as_str(), a.prompt_id.as_str()), ("mem", "default"));
    let mut a = session(obj(vec![]));
    assert!(!a.choose_profile(Some("  home\n")));
    assert_eq!(a.profile, "home");
    assert!(!a.choose_profile(None));
    assert_eq!(a.profile, "default");
}

#[test]
fn request_needs_no_flag_and_a_small_prompt() {
    let mut a = session(obj(vec![("max-prompt-bytes", JsonValue::Number("10".to_string()))]));
    assert!(!a.request_allowed(true, 100));
    assert!(a.state.is_ok());
    assert!(a.request_allowed(false, 9));
    assert!(!a.request_allowed(false, 10));
    let f = a.state.failure.as_ref().unwrap();
    assert_eq!(f.code, "prompt-size-exceededs");
}

#[test]
fn end_of_run_files_split_the_storage() {
    let mut a = session(obj(vec![]));
    a.storage.put("h1", "history", "user", "hi");
    a.storage.put("m1", "memory", "user", "likes tea");
    a.storage.put("p1", "prompt", "system", "be brief");
    a.storage.put("e1", "env", "system", "os");
    a.storage.put("r1", "read", "user", "file");
    let files = a.end_of_run_files();
    assert_eq!(files.len(), 3);
    assert_eq!(files[0], (HISTORY.to_string(), "#FACT|history|user|h1\n\nhi\n\n".to_string()));
    assert_eq!(files[1], (MEMORY.to_string(), "#FACT|memory|user|m1\n\nlikes tea\n\n".to_string()));
    assert_eq!(files[2], (PROMPT.to_string(), "#FACT|prompt|system|p1\n\nbe brief\n\n#FACT|env|system|e1\n\nos\n\n".to_string()));
}

#[test]
fn phases_run_in_order_while_ok() {
    let a = session(obj(vec![]));
    let mut seen = Vec::new();
    let mut p = Phase::Start;
    loop {
        p = a.next_phase(p, false);
        seen.push(p);
        if p == Phase::Finish {
            break;
        }
    }
    assert_eq!(seen, vec![Phase::Profile, Phase::Config, Phase::Session, Phase::Actions, Phase::Settings, Phase::UserFacts, Phase::Output, Phase::Finish]);
    assert_eq!(a.next_phase(Phase::Actions, true), Phase::Complete);
    assert_eq!(a.next_phase(Phase::Complete, true), Phase::Finish);
}

#[test]
fn failed_state_ends_the_run() {
    let mut a = session(obj(vec![]));
    a.report_profile_not_found();
    for p in [Phase::Start, Phase::Profile, Phase::Config, Phase::Session, Phase::Actions, Phase::Settings, Phase::UserFacts, Phase::Output] {
        assert_eq!(a.next_phase(p, false), Phase::Finish);
    }
    assert_eq!(a.next_phase(Phase::Session, true), Phase::Complete);
}

#[test]
fn prompt_id_from_config_file_or_default() {
    let a = session(obj(vec![("prompt", JsonValue::Str("terse".to_string()))]));
    assert_eq!(a.choose_prompt_id(Some("other")), "terse");
    let a = session(obj(vec![]));
    assert_eq!(a.choose_prompt_id(Some("other\n")), "other\n");
    assert_eq!(a.choose_prompt_id(None), "default");
}

#[test]
fn prompt_file_built_when_missing_or_empty() {
    assert!(prompt_file_needs_build(None));
    assert!(prompt_file_needs_build(Some(0)));
    assert!(!prompt_file_needs_build(Some(12)));
}
