use ai_cli::ai::{Ai, Color};
use ai_cli::chat::{find_write_target, one_line_command, unrecognized_text, Dispatch, Effect};
use ai_cli::json::JsonValue;

fn obj(items: Vec<(&str, JsonValue)>) -> JsonValue {
    JsonValue::Object(items.into_iter().map(|(k, v)| (k.to_string(), v)).collect())
}

fn show(e: &Effect) -> String {
    match e {
        Effect::Destination { text, color, dest, wait } => format!("dest:{}:{:?}:{}:{}", dest, color, wait, text),
        Effect::WriteFile { path, body } => format!("write:{}:{}", path, body),
        Effect::Print { text } => format!("print:{}", text),
        Effect::Mark { text } => format!("mark:{}", text),
        Effect::OutStatus => "status".to_string(),
    }
}

fn shows(v: &[Effect]) -> Vec<String> {
    v.iter().map(show).collect()
}

fn fresh() -> Ai {
    Ai::create(obj(vec![]))
}

#[test]
fn read_fact_is_refused() {
    let mut a = fresh();
    let e = a.apply_fact("f", "read", "assistant", "x");
    assert_eq!(shows(&e), vec!["mark:^!r"]);
}

#[test]
fn write_fact_goes_to_its_file() {
    let mut a = fresh();
    a.write_translation.push(("notes.txt".to_string(), "/abs/notes.txt".to_string()));
    let e = a.apply_fact("notes.txt", "write", "assistant", "new text");
    assert_eq!(shows(&e), vec!["write:/abs/notes.txt:new text"]);
    let e = a.apply_fact("other.txt", "write", "assistant", "x");
    assert_eq!(shows(&e), vec!["mark:^!w"]);
    a.access_write = "s".to_string();
    let e = a.apply_fact("notes.txt", "write", "assistant", "x");
    assert_eq!(shows(&e), vec!["mark:^!w"]);
}

#[test]
fn clipboard_fact() {
    let mut a = fresh();
    let e = a.apply_fact("c", "clipboard", "assistant", "copy me");
    assert_eq!(shows(&e), vec!["dest:clipboard:Default:true:copy me", "mark:+c"]);
    a.access_clipboard = "s".to_string();
    let e = a.apply_fact("c", "clipboard", "assistant", "copy me");
    assert_eq!(shows(&e), vec!["dest:message:Yellow:true:copy me", "mark:+!c"]);
}

#[test]
fn shell_fact_runs_one_line_and_is_remembered() {
    let mut a = fresh();
    a.storage.set_access("history", "si");
    let e = a.apply_fact("s", "shell", "assistant", "ls\r\n-la");
    assert_eq!(shows(&e), vec!["dest:command:Default:false:ls -la", "mark:+!s"]);
    assert_eq!(a.storage.len(), 1);
    let (_, body) = a.storage.entry_at(0).unwrap();
    assert_eq!(body, &("history".to_string(), "assistant".to_string(), "ls\r\n-la".to_string()));
    let e = a.apply_fact("s", "shell", "assistant", "pwd");
    assert_eq!(shows(&e), vec!["dest:command:Default:false:pwd", "mark:+s"]);
}

#[test]
fn shell_fact_only_shown_with_no_shell() {
    let mut a = Ai::create(obj(vec![("nsh", JsonValue::Bool(true))]));
    let e = a.apply_fact("s", "shell", "assistant", "rm -rf x");
    assert_eq!(shows(&e), vec!["dest:message:Yellow:true:rm -rf x"]);
    assert_eq!(a.storage.len(), 0);
}

#[test]
fn memory_fact_insert_update_delete() {
    let mut a = fresh();
    a.storage.set_access("memory", "siud");
    let e = a.apply_fact("NEWID", "memory", "assistant", "likes tea");
    assert_eq!(shows(&e), vec!["mark:+m"]);
    assert_eq!(a.storage.len(), 1);
    let id = a.storage.entry_at(0).unwrap().0.clone();
    let e = a.apply_fact(&id, "memory", "assistant", "likes coffee");
    assert_eq!(shows(&e), vec!["mark:^m"]);
    assert_eq!(a.storage.get_by_id(&id).unwrap().2, "likes coffee");
    let e = a.apply_fact(&id, "memory", "assistant", "");
    assert_eq!(shows(&e), vec!["mark:-m"]);
    assert_eq!(a.storage.len(), 0);
    let e = a.apply_fact("gone", "memory", "assistant", "");
    assert!(e.is_empty());
}

#[test]
fn memory_fact_refused_without_right() {
    let mut a = fresh();
    a.storage.set_access("memory", "s");
    let e = a.apply_fact("x", "memory", "assistant", "secret");
    assert_eq!(shows(&e), vec!["mark:+!m"]);
    assert_eq!(a.storage.len(), 0);
}

#[test]
fn history_and_prompt_facts_are_shown() {
    let mut a = fresh();
    a.storage.set_access("history", "si");
    a.storage.set_access("prompt", "si");
    let e = a.apply_fact("h", "history", "assistant", "answer");
    assert_eq!(shows(&e), vec!["dest:message:Cyan:true:answer", "mark:+h"]);
    let e = a.apply_fact("p", "prompt", "assistant", "rule");
    assert_eq!(shows(&e), vec!["dest:message:Default:true:rule", "mark:+p"]);
}

#[test]
fn memory_fact_printed_with_no_memory() {
    let mut a = fresh();
    a.no_memory = true;
    let e = a.apply_fact("x", "memory", "assistant", "body");
    assert_eq!(shows(&e), vec!["print:body"]);
}

#[test]
fn unknown_domain_is_reported() {
    let mut a = fresh();
    a.storage.set_access("history", "si");
    let e = a.apply_fact("i", "weird", "assistant", "b");
    assert_eq!(shows(&e), vec!["mark:!!", "dest:message:Default:true:Unrecognized fact:\nweird\nassistant\ni\nb\n"]);
    assert_eq!(a.storage.len(), 1);
    assert_eq!(unrecognized_text("i", "weird", "assistant", "b"), "Unrecognized fact:\nweird\nassistant\ni\nb\n");
    let mut b = fresh();
    let _ = b.apply_fact("i", "weird", "assistant", "b");
    assert_eq!(b.storage.len(), 0);
}

#[test]
fn answer_without_facts_is_shown() {
    let mut a = fresh();
    let e = a.handle_chat_response("plain text");
    assert_eq!(shows(&e), vec!["dest:message:Default:true:plain text", "mark:!E"]);
}

#[test]
fn answer_facts_are_handled_in_order_with_session_rights() {
    let mut a = fresh();
    a.access_memory = "siud".to_string();
    let e = a.handle_chat_response("#FACT|history|assistant|NEW\nHello\n#FACT|memory|assistant|NEW\nuser name is Bob\n#FACT|read|assistant|f\nx\n");
    assert_eq!(shows(&e), vec!["dest:message:Cyan:true:Hello", "mark:+h", "mark:+m", "mark:^!r"]);
    assert_eq!(a.storage.len(), 2);
    assert_eq!(a.storage.get_access("memory"), "siud");
    assert_eq!(a.storage.get_access("write"), "su");
}

#[test]
fn status_line_when_asked() {
    let mut a = Ai::create(obj(vec![("out-status", JsonValue::Bool(true))]));
    let e = a.handle_chat_response("x");
    assert_eq!(shows(&e), vec!["dest:message:Default:true:x", "mark:!E", "status"]);
}

#[test]
fn one_line_commands() {
    assert_eq!(one_line_command("a\nb\r\nc"), "a b c");
    assert_eq!(one_line_command("plain"), "plain");
}

#[test]
fn write_target_lookup() {
    let wt = vec![("a".to_string(), "/1".to_string()), ("a".to_string(), "/2".to_string())];
    assert_eq!(find_write_target(&wt, "a"), Some("/1".to_string()));
    assert_eq!(find_write_target(&wt, "b"), None);
}

#[test]
fn destinations_and_commands() {
    let cfg = obj(vec![("destination", obj(vec![("clipboard", JsonValue::Str("xclip -i \"%data%\"".to_string()))])), ("shell", JsonValue::Str("/bin/sh".to_string()))]);
    let a = Ai::create(cfg);
    match a.run_destination("hi", "clipboard", true) {
        Dispatch::Run { shell, command, data, wait } => {
            assert_eq!(shell, "/bin/sh");
            assert_eq!(command, "xclip -i \"hi\"");
            assert_eq!(data, "hi");
            assert!(wait);
        }
        Dispatch::Print { .. } => panic!("expected a command"),
    }
    match a.run_destination("hi", "message", true) {
        Dispatch::Print { data } => assert_eq!(data, "hi"),
        Dispatch::Run { .. } => panic!("expected printing"),
    }
    let b = Ai::create(obj(vec![]));
    match b.run_command("d", "cat", false) {
        Dispatch::Run { shell, command, .. } => {
            assert_eq!(shell, "/bin/bash");
            assert_eq!(command, "cat");
        }
        Dispatch::Print { .. } => panic!("expected a command"),
    }
    let _ = Color::Default;
}

#[test]
fn shell_fact_refused_without_shell_right() {
    let mut a = fresh();
    a.storage.set_access("history", "si");
    a.access_shell = "s".to_string();
    let e = a.apply_fact("s", "shell", "assistant", "rm -rf x");
    assert_eq!(shows(&e), vec!["dest:message:Yellow:true:rm -rf x", "mark:+!s"]);
    assert_eq!(a.storage.len(), 0);
}
