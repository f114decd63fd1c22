use ai_cli::ai::Ai;
use ai_cli::json::JsonValue;
use ai_cli::run::{action_flags, action_kind, collect_actions, fact_body, is_quiet_action, set_pair, ActionKind};

fn s(x: &str) -> JsonValue {
    JsonValue::Str(x.to_string())
}

fn obj(items: Vec<(&str, JsonValue)>) -> JsonValue {
    JsonValue::Object(items.into_iter().map(|(k, v)| (k.to_string(), v)).collect())
}

fn code(a: &Ai) -> Option<String> {
    a.state.failure.as_ref().map(|f| f.code.clone())
}

fn detail(a: &Ai, key: &str) -> Option<String> {
    a.state.failure.as_ref().and_then(|f| f.details.iter().find(|(k, _)| k == key).map(|(_, v)| v.clone()))
}

#[test]
fn quiet_actions() {
    assert!(is_quiet_action("info"));
    assert!(is_quiet_action("rmh"));
    assert!(is_quiet_action("bind-model"));
    assert!(is_quiet_action("delete-fact"));
    assert!(!is_quiet_action("model"));
    assert!(!is_quiet_action("no-prompt"));
}

#[test]
fn flags_from_actions() {
    let acts = vec![("model".to_string(), "x".to_string()), ("oh".to_string(), "".to_string())];
    assert_eq!(action_flags(&acts, false, false), (true, true));
    let acts = vec![("model".to_string(), "x".to_string())];
    assert_eq!(action_flags(&acts, false, false), (false, false));
    assert_eq!(action_flags(&acts, true, false), (true, false));
}

#[test]
fn actions_of_config() {
    let cfg = obj(vec![("bind-chat", s("work")), ("info", JsonValue::Bool(true))]);
    assert_eq!(
        collect_actions(&cfg),
        vec![("bind-chat".to_string(), "work".to_string()), ("info".to_string(), "".to_string())]
    );
    assert!(collect_actions(&JsonValue::Null).is_empty());
}

#[test]
fn user_fact_body_is_trimmed() {
    assert_eq!(fact_body("", "hello"), "hello");
    assert_eq!(fact_body(" in ", "cli "), "in  cli");
    assert_eq!(fact_body("", ""), "");
}

#[test]
fn prompt_text_fills_placeholders() {
    let cfg = obj(vec![("shell", s("/bin/zsh"))]);
    let mut a = Ai::create(cfg);
    a.chat = "work".to_string();
    a.provider = "p".to_string();
    a.storage.insert("x", "prompt", "user", "%shell% %chat% %provider% %model-name% %version% %now% %access-memory% %access-write%", true);
    let t = a.build_prompt_text("v1", "2024-01-01 00:00:00");
    assert_eq!(t, "#FACT|prompt|user|x\n\n/bin/zsh work p unknown v1 2024-01-01 00:00:00 select select|update\n\n");
}

#[test]
fn prompt_size_limit() {
    let mut a = Ai::create(obj(vec![("max-prompt-bytes", JsonValue::Number("10".to_string()))]));
    assert!(a.check_prompt_size(9));
    assert!(a.state.is_ok());
    assert!(!a.check_prompt_size(10));
    assert_eq!(code(&a).as_deref(), Some("prompt-size-exceededs"));
    assert_eq!(detail(&a, "size-bytes").as_deref(), Some("10"));
    assert_eq!(detail(&a, "max-size-bytes").as_deref(), Some("10"));
    assert_eq!(detail(&a, "message").as_deref(), Some("Prompt exceeds limit bytes"));
}

#[test]
fn files_put_into_prompt() {
    let mut a = Ai::create(obj(vec![]));
    let files = vec![("/a.txt".to_string(), "A".to_string()), ("/b.txt".to_string(), "B".to_string())];
    a.insert_files("read", &files);
    assert_eq!(a.storage.len(), 2);
    assert_eq!(a.storage.get_by_id("/a.txt").unwrap(), &("read".to_string(), "user".to_string(), "A".to_string()));
    assert!(a.write_translation.is_empty());
    a.insert_files("write", &files);
    assert_eq!(a.storage.len(), 2);
    assert_eq!(a.storage.get_by_id("/b.txt").unwrap().0, "write");
    assert_eq!(a.write_translation, vec![("/a.txt".to_string(), "/a.txt".to_string()), ("/b.txt".to_string(), "/b.txt".to_string())]);
}

#[test]
fn pairs_are_replaced_or_added() {
    let mut wt = vec![("a".to_string(), "1".to_string())];
    set_pair(&mut wt, "b", "2");
    set_pair(&mut wt, "a", "3");
    assert_eq!(wt, vec![("a".to_string(), "3".to_string()), ("b".to_string(), "2".to_string())]);
}

#[test]
fn compile_prompt_collects_everything() {
    let mut a = Ai::create(obj(vec![]));
    a.compile_prompt(
        "#FACT|prompt|user|p\nbe nice\n",
        "#FACT|memory|user|m\nremember\n",
        "#FACT|history|user|h\nearlier\n",
        &vec![("/r".to_string(), "R".to_string())],
        &vec![("/w".to_string(), "W".to_string())],
        "question #FACT|memory|user|x",
        "",
    );
    assert_eq!(a.storage.len(), 6);
    let ids: Vec<String> = (0..5).map(|i| a.storage.entry_at(i).unwrap().0.clone()).collect();
    assert_eq!(ids, vec!["p", "/r", "/w", "m", "h"]);
    let (_, last) = a.storage.entry_at(5).unwrap();
    assert_eq!(last, &("history".to_string(), "user".to_string(), "question `fact-delimiter`|memory|user|x".to_string()));
    assert_eq!(a.write_translation, vec![("/w".to_string(), "/w".to_string())]);
}

#[test]
fn compile_prompt_without_history() {
    let mut a = Ai::create(obj(vec![]));
    a.no_history = true;
    a.compile_prompt("", "", "", &vec![], &vec![], "question", "piped");
    assert_eq!(a.storage.len(), 0);
}

#[test]
fn build_prompt_from_template() {
    let cfg = obj(vec![(
        "prompts",
        obj(vec![
            ("default", obj(vec![("facts", JsonValue::Array(vec![s("protocol"), s("missing"), s("style")]))])),
            ("odd", obj(vec![("facts", s("protocol"))])),
        ]),
    )]);
    let mut a = Ai::create(cfg);
    a.fact_db.parse("#FACT|prompt|user|protocol\nFollow the protocol.\n#FACT|prompt|user|style\nBe short.\n#FACT|prompt|user|other\nno\n");
    let t = a.build_prompt("default").unwrap();
    assert_eq!(t, "#FACT|prompt|user|protocol\n\nFollow the protocol.\n\n#FACT|prompt|user|style\n\nBe short.\n\n");
    assert!(a.state.is_ok());
    assert!(a.build_prompt("odd").is_none());
    assert!(a.state.is_ok());
    assert!(a.build_prompt("nothing").is_none());
    assert_eq!(code(&a).as_deref(), Some("prompt-template-not-found"));
    assert_eq!(detail(&a, "requested-template-id").as_deref(), Some("nothing"));
    assert_eq!(detail(&a, "aviable-prompt-templates").as_deref(), Some("default,odd"));
}

#[test]
fn user_fact_operations() {
    let cfg = obj(vec![("delete-fact", s("a")), ("insert-fact", s("n")), ("update-fact", s("b")), ("domain", s("memory"))]);
    let mut a = Ai::create(cfg);
    a.storage.insert("a", "history", "user", "1", true);
    a.storage.insert("b", "history", "user", "2", true);
    a.apply_user_facts(("new", "fact"), ("", "changed"));
    assert!(a.storage.get_by_id("a").is_none());
    assert_eq!(a.storage.get_by_id("n").unwrap(), &("memory".to_string(), "user".to_string(), "new fact".to_string()));
    assert_eq!(a.storage.get_by_id("b").unwrap(), &("memory".to_string(), "user".to_string(), "changed".to_string()));
}

#[test]
fn plan_of_a_run() {
    let p = ai_cli::run::run_plan(&obj(vec![("v", JsonValue::Bool(true)), ("init", JsonValue::Bool(true)), ("info", JsonValue::Bool(true))]));
    assert!(p.show_version && !p.show_help && !p.tiocsti);
    assert!(p.init && p.no_prompt && p.no_request && p.info);
    assert_eq!(p.comp_line, "");
    let p = ai_cli::run::run_plan(&obj(vec![("comp-line", s("ai --ch")), ("help", JsonValue::Bool(true))]));
    assert_eq!(p.comp_line, "ai --ch");
    assert!(!p.show_help);
    assert!(!p.no_prompt && !p.no_request && !p.info);
}

#[test]
fn kinds_of_actions() {
    assert_eq!(action_kind("bind-chat"), ActionKind::BindChat);
    assert_eq!(action_kind("rh"), ActionKind::ResetHistory);
    assert_eq!(action_kind("rmh"), ActionKind::ResetMemoryAndHistory);
    assert_eq!(action_kind("opc"), ActionKind::OutPromptContent);
    assert_eq!(action_kind("select-fact"), ActionKind::SelectFact);
    assert_eq!(action_kind("model"), ActionKind::Other);
}

#[test]
fn bindings_switch_the_session() {
    let mut a = Ai::create(obj(vec![]));
    a.apply_binding(ActionKind::BindChat, "c2");
    a.apply_binding(ActionKind::BindModel, "m2");
    a.apply_binding(ActionKind::OutHistory, "x");
    assert_eq!(a.chat, "c2");
    assert_eq!(a.model, "m2");
    assert_eq!(a.provider, "");
}

#[test]
fn unknown_provider_is_reported() {
    let mut a = Ai::create(obj(vec![]));
    a.provider = "nobody".to_string();
    a.validate_provider();
    assert_eq!(code(&a).as_deref(), Some("unknown-provider"));
    assert_eq!(detail(&a, "requested-provider").as_deref(), Some("nobody"));
}

#[test]
fn session_settings_from_config() {
    let mut a = Ai::create(obj(vec![("no-memory", JsonValue::Bool(true)), ("access-write", s("s"))]));
    a.load_session_settings();
    assert!(a.no_memory && !a.no_history && !a.no_prompt);
    assert_eq!(a.access_write, "s");
    assert_eq!(a.access_memory, "si");
    assert_eq!(a.access_shell, "i");
}

#[test]
fn ids_from_config_or_file() {
    let a = Ai::create(obj(vec![("chat", s("c1"))]));
    assert_eq!(a.choose_id("chat", Some("file-chat"), "default"), "c1");
    assert_eq!(a.choose_id("memory", Some(" m \n"), "default"), "m");
    assert_eq!(a.choose_id("provider", None, "deepseek"), "deepseek");
}

#[test]
fn empty_delimiter_escapes_between_characters() {
    let mut a = Ai::create(obj(vec![]));
    a.fact_delimiter = String::new();
    a.compile_prompt("", "", "", &vec![], &vec![], "ab", "");
    assert_eq!(a.storage.entry_at(0).unwrap().1 .2, "`fact-delimiter`a`fact-delimiter`b`fact-delimiter`");
}

#[test]
fn build_prompt_stores_an_empty_listed_id_under_a_new_one() {
    let cfg = obj(vec![("prompts", obj(vec![("blank", obj(vec![("facts", JsonValue::Array(vec![s(""), s("style")]))]))]))]);
    let mut a = Ai::create(cfg);
    a.fact_db.put("", "prompt", "user", "Untitled.");
    a.fact_db.put("style", "prompt", "user", "Be short.");
    let t = a.build_prompt("blank").unwrap();
    let head = t.lines().next().unwrap();
    let id = head.rsplit('|').next().unwrap();
    assert!(!id.is_empty() && id.chars().all(|c| c.is_ascii_digit()));
    assert!(t.ends_with("\n\nUntitled.\n\n#FACT|prompt|user|style\n\nBe short.\n\n"));
}
