use ai_cli::ai::Ai;
use ai_cli::backup::string_to_sha256;
use ai_cli::files::{get_chats, get_memories, named_id_of, prompt_from_args};
use ai_cli::json::JsonValue;

fn v(items: &[&str]) -> Vec<String> {
    items.iter().map(|x| x.to_string()).collect()
}

#[test]
fn ids_named_by_files() {
    assert_eq!(named_id_of(Some("  work \n"), "default"), "work");
    assert_eq!(named_id_of(Some(" \n"), "default"), "default");
    assert_eq!(named_id_of(None, "deepseek"), "deepseek");
    let a = Ai::create(JsonValue::Null);
    assert_eq!(a.read_model(Some("gpt\n")), "gpt");
    assert_eq!(a.read_model(None), "default");
}

#[test]
fn chat_and_memory_lists() {
    assert_eq!(get_chats(&v(&["work", "default", "play"])), v(&["default", "work", "play"]));
    assert_eq!(get_memories(&v(&["a.txt", "b.md", "default.txt", "c.txt.txt"])), v(&["default", "a", "c"]));
}

#[test]
fn prompt_lists() {
    let cfg = JsonValue::Object(vec![("prompts".to_string(), JsonValue::Object(vec![("default".to_string(), JsonValue::Null), ("simple".to_string(), JsonValue::Null)]))]);
    let a = Ai::create(cfg);
    assert_eq!(a.get_prompts(&v(&["mine.txt", "simple.txt", "x.md"])), v(&["default", "simple", "mine"]));
    let b = Ai::create(JsonValue::Null);
    assert_eq!(b.get_prompts(&v(&[])), v(&["default"]));
}

#[test]
fn prompt_from_arguments() {
    let known = v(&["--chat", "-h"]);
    assert_eq!(prompt_from_args(&v(&["--chat=x", "make", "a", "-h", "list"]), &known), "make a list");
    assert_eq!(prompt_from_args(&v(&["--chat"]), &known), "");
}

#[test]
fn sha256_in_hex() {
    assert_eq!(string_to_sha256("abc"), "ba7816bf8f01cfea414140de5dae2223b00361a396177a9cb410ff61f20015ad");
    assert_eq!(string_to_sha256(""), "e3b0c44298fc1c149afbf4c8996fb92427ae41e4649b934ca495991b7852b855");
}

#[test]
fn backup_paths() {
    let mut a = Ai::create(JsonValue::Null);
    a.profiles_path = "/w/.ai-cli".to_string();
    a.chat = "c".to_string();
    assert_eq!(a.get_backup_path("abc"), "/w/.ai-cli/profiles/c/backup/ba7816bf8f01cfea414140de5dae2223b00361a396177a9cb410ff61f20015ad");
}
