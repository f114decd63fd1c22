use ai_cli::ai::Ai;
use ai_cli::completion::{
    compl_filter_by_key, complete, extract_from_line, find_keys, get_complete_value_access, split_current,
    split_words, str_starts_with, value_source, ValueSource,
};
use ai_cli::json::JsonValue;

fn v(items: &[&str]) -> Vec<String> {
    items.iter().map(|x| x.to_string()).collect()
}

fn obj(items: Vec<(&str, JsonValue)>) -> JsonValue {
    JsonValue::Object(items.into_iter().map(|(k, v)| (k.to_string(), v)).collect())
}

#[test]
fn filter_by_prefix() {
    assert_eq!(compl_filter_by_key(&v(&["--chat", "--bind-chat", "--chatter"]), "--chat"), v(&["--chat", "--chatter"]));
    assert_eq!(compl_filter_by_key(&v(&["a", "b"]), ""), v(&["a", "b"]));
    assert!(str_starts_with("abc", "ab"));
    assert!(!str_starts_with("ab", "abc"));
}

#[test]
fn keys_without_profile() {
    assert_eq!(find_keys(false, "", "ai "), v(&["-?", "-h", "--help", "-v", "--version", "--init"]));
    assert_eq!(find_keys(false, "--i", "ai --i"), v(&["--init"]));
}

#[test]
fn keys_with_profile() {
    assert_eq!(find_keys(true, "--bind-m", "ai --bind-m"), v(&["--bind-model", "--bind-memory"]));
    assert_eq!(find_keys(true, "--out-prompt", ""), v(&["--out-prompt", "--out-prompt-content"]));
    assert_eq!(find_keys(true, "", "").len(), 51);
}

#[test]
fn fact_keys_after_insert_or_update() {
    assert_eq!(find_keys(true, "--a", "ai --insert-fact=x --a"), v(&["--access-history", "--access-memory", "--access-prompt", "--actor"]));
    assert_eq!(find_keys(true, "--a", "ai --a"), v(&["--access-history", "--access-memory", "--access-prompt"]));
}

#[test]
fn access_values() {
    let a = get_complete_value_access();
    assert_eq!(a.len(), 50);
    assert_eq!(a[0], "s");
    assert_eq!(a[49], "dius");
}

#[test]
fn word_under_cursor() {
    assert_eq!(split_current("ai --model=gp"), ("--model".to_string(), "gp".to_string(), true));
    assert_eq!(split_current("ai --mod"), ("--mod".to_string(), "".to_string(), false));
    assert_eq!(split_current("ai "), ("".to_string(), "".to_string(), false));
    assert_eq!(split_current("ai --set=a=b"), ("--set".to_string(), "a=b".to_string(), true));
}

#[test]
fn candidates() {
    let keys = v(&["--model"]);
    assert_eq!(complete(&v(&[]), "--x", false, &v(&[])), v(&[]));
    assert_eq!(complete(&v(&["--a", "--b"]), "--", false, &v(&[])), v(&["--a", "--b"]));
    assert_eq!(complete(&keys, "--mo", false, &v(&["x"])), v(&["--model"]));
    assert_eq!(complete(&keys, "--model", false, &v(&[])), v(&["--model "]));
    assert_eq!(complete(&keys, "--model", true, &v(&[])), v(&[]));
    assert_eq!(complete(&keys, "--model", false, &v(&["x"])), v(&["--model="]));
    assert_eq!(complete(&keys, "--model", true, &v(&["x"])), v(&["x"]));
    assert_eq!(complete(&keys, "--model", false, &v(&["x", "y"])), v(&["--model="]));
    assert_eq!(complete(&keys, "--model", true, &v(&["x", "y"])), v(&["x", "y"]));
}

#[test]
fn sources_of_values() {
    assert_eq!(value_source("--read"), ValueSource::Files);
    assert_eq!(value_source("--bind-chat"), ValueSource::Chats);
    assert_eq!(value_source("--status"), ValueSource::Bool);
    assert_eq!(value_source("--select-fact"), ValueSource::FactIds);
    assert_eq!(value_source("--nothing"), ValueSource::Nothing);
}

#[test]
fn words_and_prefixes() {
    assert_eq!(split_words("  ai\t--chat=x   y \n"), v(&["ai", "--chat=x", "y"]));
    assert!(split_words("   ").is_empty());
    let ps = vec!["--provider=", "--bind-provider="];
    assert_eq!(extract_from_line("ai --bind-provider=gh --provider=ds", &ps), Some("gh".to_string()));
    assert_eq!(extract_from_line("ai --model=x", &ps), None);
}

#[test]
fn session_values() {
    let cfg = obj(vec![(
        "application",
        obj(vec![(
            "ai",
            obj(vec![(
                "providers",
                obj(vec![
                    ("deepseek", obj(vec![("models", obj(vec![("chat", JsonValue::Str("x".into())), ("coder", JsonValue::Str("y".into()))]))])),
                    ("github", obj(vec![])),
                ]),
            )]),
        )]),
    )]);
    let mut a = Ai::create(cfg);
    a.chat = "main".to_string();
    assert_eq!(a.extract_provider_from_line("ai --provider=github", "deepseek"), "github");
    assert_eq!(a.extract_provider_from_line("ai", "deepseek"), "deepseek");
    assert_eq!(a.extract_chat_from_line("ai --chat=c1"), "c1");
    assert_eq!(a.extract_chat_from_line("ai"), "main");
    assert_eq!(a.find_values("--provider", "g", "", &v(&[]), "deepseek"), v(&["github"]));
    assert_eq!(a.find_values("--model", "c", "ai --model=c", &v(&[]), "deepseek"), v(&["chat", "coder"]));
    assert_eq!(a.find_values("--color", "zz", "", &v(&[]), ""), v(&["true", "false"]));
    assert_eq!(a.find_values("--read", "/t", "", &v(&["/tmp/", "/etc/"]), ""), v(&["/tmp/"]));
    assert!(a.find_values("--unknown", "", "", &v(&["x"]), "").is_empty());
    assert_eq!(a.completion("ai --model=co", "ai --model=co", true, &v(&[]), "deepseek"), v(&["coder"]));
    assert_eq!(a.completion("ai --prov", "ai --prov", true, &v(&[]), "deepseek"), v(&["--provider"]));
    assert_eq!(a.completion("ai --provider", "ai --provider", true, &v(&[]), "deepseek"), v(&["--provider="]));
}
