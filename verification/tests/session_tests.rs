use ai_cli::ai::{contains_str, dedup_strings, fill_template, get_api_url, Ai, Color};
use ai_cli::json::{
    get_bool, get_by_path, get_by_path_int, get_by_path_string, get_int, get_path, get_size, get_str,
    get_string_list, merge, parse_uint, replace_placeholders, JsonValue,
};

fn s(x: &str) -> JsonValue {
    JsonValue::Str(x.to_string())
}

fn n(x: &str) -> JsonValue {
    JsonValue::Number(x.to_string())
}

fn obj(items: Vec<(&str, JsonValue)>) -> JsonValue {
    JsonValue::Object(items.into_iter().map(|(k, v)| (k.to_string(), v)).collect())
}

fn arr(items: Vec<JsonValue>) -> JsonValue {
    JsonValue::Array(items)
}

fn text(v: &JsonValue) -> String {
    match v {
        JsonValue::Null => "null".to_string(),
        JsonValue::Bool(b) => b.to_string(),
        JsonValue::Number(t) => t.clone(),
        JsonValue::Str(x) => format!("{:?}", x),
        JsonValue::Array(items) => format!("[{}]", items.iter().map(text).collect::<Vec<_>>().join(",")),
        JsonValue::Object(es) => format!(
            "{{{}}}",
            es.iter().map(|(k, v)| format!("{:?}:{}", k, text(v))).collect::<Vec<_>>().join(",")
        ),
    }
}

fn config() -> JsonValue {
    obj(vec![
        (
            "application",
            obj(vec![(
                "ai",
                obj(vec![
                    (
                        "providers",
                        obj(vec![
                            (
                                "deepseek",
                                obj(vec![
                                    ("api", s("https://api.deepseek.com/chat")),
                                    ("models", obj(vec![("chat", s("deepseek-chat")), ("coder", s("deepseek-coder"))])),
                                ]),
                            ),
                            ("github", obj(vec![("api", s("https://models.github.ai"))])),
                            ("off", JsonValue::Null),
                        ]),
                    ),
                    (
                        "rules",
                        arr(vec![
                            obj(vec![("provider", s("github")), ("model", s("*")), ("proxy", s("http://p:1"))]),
                            obj(vec![("provider", s("deepseek")), ("proxy", s("http://q:2")), ("request-timeout-ms", n("500"))]),
                        ]),
                    ),
                ]),
            )]),
        ),
        ("proxy", s("http://top:3")),
        ("shell", s("/bin/zsh")),
        ("prompts", obj(vec![("default", obj(vec![("facts", arr(vec![s("protocol")]))])), ("simple", obj(vec![]))])),
    ])
}

fn session() -> Ai {
    let mut a = Ai::create(config());
    a.provider = "deepseek".to_string();
    a.model = "chat".to_string();
    a.profiles_path = "/w/.ai-cli".to_string();
    a.chat = "work".to_string();
    a.memory_id = "mem".to_string();
    a.prompt_id = "default".to_string();
    a
}

#[test]
fn create_has_defaults() {
    let a = Ai::create(JsonValue::Null);
    assert_eq!(a.profile, "default");
    assert_eq!(a.fact_delimiter, "#FACT");
    assert_eq!(a.access_access, "s");
    assert_eq!(a.access_history, "si");
    assert_eq!(a.access_memory, "s");
    assert_eq!(a.access_prompt, "s");
    assert_eq!(a.access_shell, "i");
    assert_eq!(a.access_clipboard, "i");
    assert_eq!(a.access_read, "s");
    assert_eq!(a.access_write, "su");
    assert!(a.colorize);
    assert!(a.state.is_ok());
}

#[test]
fn check_access_is_a_substring_test() {
    assert!(Ai::check_access("su", "u"));
    assert!(!Ai::check_access("s", "u"));
    assert!(Ai::check_access("siud", "iu"));
    assert!(Ai::check_access("", ""));
}

#[test]
fn contains_str_cases() {
    assert!(contains_str("hello", "ll"));
    assert!(!contains_str("hello", "lo!"));
    assert!(contains_str("hello", ""));
}

#[test]
fn mnemo_colors_by_priority() {
    let mut a = Ai::create(JsonValue::Null);
    a.mnemo("+m");
    a.mnemo("^h");
    a.mnemo("-p");
    a.mnemo("+!s");
    a.mnemo("xy");
    a.mnemo("^-");
    let colors: Vec<Color> = a.status.iter().map(|(c, _)| *c).collect();
    assert_eq!(colors, vec![Color::Cyan, Color::Magenta, Color::Yellow, Color::Red, Color::White, Color::Yellow]);
    assert_eq!(a.status[3].1, "+!s");
}

#[test]
fn access_to_str_words() {
    let a = Ai::create(JsonValue::Null);
    assert_eq!(a.access_to_str("siud"), "select|insert|update|delete");
    assert_eq!(a.access_to_str("s"), "select");
    assert_eq!(a.access_to_str(""), "none");
    assert_eq!(a.access_to_str("xz"), "none");
    assert_eq!(a.access_to_str("dxs"), "delete|select");
}

#[test]
fn model_safe_for_file_names() {
    let mut a = Ai::create(JsonValue::Null);
    a.model = "openai/gpt-4.1\\mini".to_string();
    assert_eq!(a.get_model_safe(), "openai_gpt-4_1_mini");
}

#[test]
fn fill_template_replaces_in_turn() {
    let pairs = vec![("%a%".to_string(), "%b%".to_string()), ("%b%".to_string(), "x".to_string())];
    assert_eq!(fill_template("%a%-%b%", &pairs), "x-x");
}

#[test]
fn fill_template_with_empty_placeholder() {
    let pairs = vec![("".to_string(), "-".to_string())];
    assert_eq!(fill_template("ab", &pairs), "ab".replace("", "-"));
    assert_eq!(fill_template("ab", &pairs), "-a-b-");
}

#[test]
fn dedup_keeps_first() {
    let v = vec!["a".to_string(), "b".to_string(), "a".to_string(), "c".to_string(), "b".to_string()];
    assert_eq!(dedup_strings(&v), vec!["a", "b", "c"]);
}

#[test]
fn select_rule_first_match() {
    let a = session();
    assert_eq!(text(&a.select_rule("github", "gpt")), text(&obj(vec![("provider", s("github")), ("model", s("*")), ("proxy", s("http://p:1"))])));
    assert_eq!(a.select_rule("deepseek", "chat").get("proxy").map(text), Some("\"http://q:2\"".to_string()));
    assert_eq!(text(&a.select_rule("other", "x")), "null");
}

#[test]
fn select_rule_without_rules_is_null() {
    let a = Ai::create(obj(vec![]));
    assert_eq!(text(&a.select_rule("github", "gpt")), "null");
}

#[test]
fn config_value_prefers_the_rule() {
    let mut a = session();
    assert_eq!(a.read_proxy(), "http://q:2");
    assert_eq!(a.get_request_timeout_ms(), 500);
    assert_eq!(a.get_connect_timeout_ms(), 10000);
    a.provider = "other".to_string();
    assert_eq!(a.read_proxy(), "http://top:3");
    assert_eq!(a.get_request_timeout_ms(), 30000);
    assert_eq!(a.get_max_prompt_bytes(), 100000);
    assert_eq!(text(&a.get_config_value(&["missing", "x"])), "null");
    assert_eq!(a.get_config_str(&["shell"], "/bin/bash"), "/bin/zsh");
    assert!(!a.get_config_bool(&["no-history"], false));
    assert_eq!(a.get_config_int(&["shell"], 7), 7);
    assert_eq!(a.get_config_size(&["none"], 9), 9);
}

#[test]
fn providers_and_models() {
    let a = session();
    assert_eq!(a.get_providers(), vec!["deepseek", "github", "off"]);
    assert_eq!(a.get_models("deepseek"), vec!["chat", "coder"]);
    assert!(a.get_models("github").is_empty());
    assert!(a.provider_exists("deepseek"));
    assert!(!a.provider_exists("off"));
    assert!(!a.provider_exists("nobody"));
    assert_eq!(a.get_model_name(), "deepseek-chat");
    assert_eq!(get_api_url(&a, "deepseek"), "https://api.deepseek.com/chat");
    assert_eq!(get_api_url(&a, "nobody"), "");
    let mut b = session();
    b.model = "none".to_string();
    assert_eq!(b.get_model_name(), "unknown");
}

#[test]
fn prompt_templates_from_config() {
    let a = session();
    assert_eq!(a.get_prompt_templates(), vec!["default", "simple"]);
}

#[test]
fn default_paths() {
    let a = session();
    assert_eq!(a.profile_path(), "/w/.ai-cli/profiles/default");
    assert_eq!(a.profile_file(), "/w/.ai-cli/profile.txt");
    assert_eq!(a.config_file(), "/w/.ai-cli/profiles/default/config.yaml");
    assert_eq!(a.chat_file(), "/w/.ai-cli/profiles/default/chat.txt");
    assert_eq!(a.chats_path(), "/w/.ai-cli/profiles/default/chats");
    assert_eq!(a.chat_path("c1"), "/w/.ai-cli/profiles/default/chats/c1");
    assert_eq!(a.model_file_path(), "/w/.ai-cli/profiles/default/chats/work/models/deepseek.txt");
    assert_eq!(a.provider_file(), "/w/.ai-cli/profiles/default/chats/work/provider.txt");
    assert_eq!(a.memory_path(), "/w/.ai-cli/profiles/default/memory");
    assert_eq!(a.memory_file(), "/w/.ai-cli/profiles/default/memory/mem.txt");
    assert_eq!(a.memory_of_chat_file(), "/w/.ai-cli/profiles/default/chats/work/memory.txt");
    assert_eq!(a.history_file_path(), "/w/.ai-cli/profiles/default/chats/work/history.txt");
    assert_eq!(a.prompt_file("work"), "/w/.ai-cli/profiles/default/chats/work/prompt.txt");
    assert_eq!(a.prompts_path("work"), "/w/.ai-cli/profiles/default/chats/work/prompts/");
    assert_eq!(a.prompt_content_file(), "/w/.ai-cli/profiles/default/chats/work/prompts/default.txt");
    assert_eq!(a.token_path(), "~/.config/ai/app/cli/default/tokens/deepseek.txt");
    assert_eq!(a.tty_device(), "/dev/tty");
}

#[test]
fn configured_path_templates() {
    let mut cfg = config();
    if let JsonValue::Object(es) = &mut cfg {
        es.push(("history".to_string(), s("/h/%profile%/%model%/%chat%.txt")));
    }
    let mut a = Ai::create(cfg);
    a.provider = "x".to_string();
    a.model = "a.b".to_string();
    a.chat = "c".to_string();
    assert_eq!(a.history_file_path(), "/h/default/a_b/c.txt");
}

#[test]
fn json_lookups() {
    let v = obj(vec![("a", obj(vec![("b", s("x")), ("n", n("42")), ("t", JsonValue::Bool(true))]))]);
    assert_eq!(get_path(&v, &["a", "b"]).map(text), Some("\"x\"".to_string()));
    assert!(get_path(&v, &["a", "c"]).is_none());
    assert_eq!(get_str(get_path(&v, &["a", "b"]), "d"), "x");
    assert_eq!(get_str(get_path(&v, &["a", "n"]), "d"), "d");
    assert_eq!(get_int(get_path(&v, &["a", "n"]), 0), 42);
    assert_eq!(get_size(get_path(&v, &["a", "n"]), 0), 42);
    assert!(get_bool(get_path(&v, &["a", "t"]), false));
    assert!(!get_bool(get_path(&v, &["a", "b"]), false));
    assert_eq!(get_int(Some(&n("-1")), 5), 5);
    assert_eq!(get_int(Some(&n("1.5")), 5), 5);
}

#[test]
fn parse_uint_bounds() {
    assert_eq!(parse_uint("0", 10), Some(0));
    assert_eq!(parse_uint("10", 10), Some(10));
    assert_eq!(parse_uint("11", 10), None);
    assert_eq!(parse_uint("", 10), None);
    assert_eq!(parse_uint("1a", 10), None);
    assert_eq!(parse_uint("18446744073709551615", u64::MAX), Some(u64::MAX));
    assert_eq!(parse_uint("18446744073709551616", u64::MAX), None);
}

#[test]
fn string_lists() {
    let v = arr(vec![s("a"), n("1"), s("b")]);
    assert_eq!(get_string_list(Some(&v), vec![]), vec!["a", "b"]);
    assert_eq!(get_string_list(Some(&s("one")), vec![]), vec!["one"]);
    assert_eq!(get_string_list(None, vec!["d".to_string()]), vec!["d"]);
}

#[test]
fn paths_by_value() {
    let v = obj(vec![("choices", arr(vec![obj(vec![("message", obj(vec![("content", s("hi"))]))])])), ("usage", obj(vec![("t", n("7"))]))]);
    let p = arr(vec![s("choices"), n("0"), s("message"), s("content")]);
    assert_eq!(get_by_path_string(&v, &p, ""), "hi");
    assert_eq!(get_by_path_int(&v, &arr(vec![s("usage"), s("t")]), 0), 7);
    assert_eq!(get_by_path_int(&v, &arr(vec![s("usage"), s("x")]), 3), 3);
    assert_eq!(get_by_path_string(&v, &arr(vec![s("choices"), n("1")]), "-"), "-");
    assert!(get_by_path(&v, &JsonValue::Null).is_some());
}

#[test]
fn merge_objects_deeply() {
    let a = obj(vec![("model", s("m")), ("opts", obj(vec![("t", n("1")), ("k", n("2"))]))]);
    let b = obj(vec![("opts", obj(vec![("t", n("9"))])), ("messages", arr(vec![]))]);
    let m = merge(&a, &b);
    assert_eq!(text(&m), "{\"model\":\"m\",\"opts\":{\"t\":9,\"k\":2},\"messages\":[]}");
    assert_eq!(text(&merge(&a, &JsonValue::Null)), text(&a));
    assert_eq!(text(&merge(&a, &s("x"))), "\"x\"");
    assert_eq!(text(&merge(&s("x"), &b)), text(&b));
}

#[test]
fn placeholders_in_every_string() {
    let mut r = obj(vec![("model", s("%model-name%")), ("messages", arr(vec![obj(vec![("content", s("Q: %prompt%!"))])])), ("n", n("1"))]);
    replace_placeholders(&mut r, "hello", "gpt");
    assert_eq!(text(&r), "{\"model\":\"gpt\",\"messages\":[{\"content\":\"Q: hello!\"}],\"n\":1}");
}

#[test]
fn deep_clone_and_keys() {
    let v = config();
    assert_eq!(text(&v.deep_clone()), text(&v));
    assert_eq!(v.keys(), vec!["application", "proxy", "shell", "prompts"]);
    assert!(s("x").keys().is_empty());
    assert_eq!(arr(vec![s("a")]).at(0).map(text), Some("\"a\"".to_string()));
    assert!(arr(vec![]).at(0).is_none());
    assert_eq!(s("q").as_string().map(|x| x.as_str()), Some("q"));
}
