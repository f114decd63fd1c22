use ai_cli::storage::{ReadOutcome, Storage, WriteOutcome};

fn code(s: &Storage) -> Option<String> {
    s.get_state().failure.as_ref().map(|f| f.code.clone())
}

fn detail(s: &Storage, key: &str) -> Option<String> {
    s.get_state()
        .failure
        .as_ref()
        .and_then(|f| f.details.iter().find(|(k, _)| k == key).map(|(_, v)| v.clone()))
}

#[test]
fn new_storage_is_empty_and_ok() {
    let s = Storage::new();
    assert_eq!(s.len(), 0);
    assert!(s.get_state().is_ok());
    assert_eq!(s.get_fact_delimiter(), "#FACT");
    assert_eq!(s.to_string(), "");
}

#[test]
fn insert_with_rights_then_select() {
    let mut s = Storage::new();
    s.set_access("memory", "si");
    s.insert("m1", "memory", "user", "likes tea", false);
    assert!(s.get_state().is_ok());
    assert!(s.exists_id("m1"));
    let (d, a, c) = s.select("m1");
    assert_eq!((d.as_str(), a.as_str(), c.as_str()), ("memory", "user", "likes tea"));
}

#[test]
fn insert_without_right_is_refused() {
    let mut s = Storage::new();
    s.set_access("memory", "s");
    s.insert("m1", "memory", "assistant", "x", false);
    assert_eq!(s.len(), 0);
    assert_eq!(code(&s).as_deref(), Some("storage-insert-not-allowed"));
    assert_eq!(detail(&s, "domain").as_deref(), Some("memory"));
    assert_eq!(detail(&s, "actor").as_deref(), Some("assistant"));
    assert_eq!(detail(&s, "content").as_deref(), Some("x"));
}

#[test]
fn insert_ignoring_rights() {
    let mut s = Storage::new();
    s.insert("h1", "history", "user", "hi", true);
    assert_eq!(s.len(), 1);
    assert!(s.get_state().is_ok());
}

#[test]
fn insert_with_empty_id_generates_one() {
    let mut s = Storage::new();
    s.insert("", "history", "user", "one", true);
    s.insert("", "history", "user", "two", true);
    assert_eq!(s.len(), 2);
    let (id1, _) = s.entry_at(0).unwrap();
    let (id2, _) = s.entry_at(1).unwrap();
    let a: u128 = id1.parse().unwrap();
    let b: u128 = id2.parse().unwrap();
    assert!(b > a);
}

#[test]
fn generated_ids_increase() {
    let mut s = Storage::new();
    let a: u128 = s.generate_id().parse().unwrap();
    let b: u128 = s.generate_id().parse().unwrap();
    let c: u128 = s.generate_id().parse().unwrap();
    assert!(a < b && b < c);
}

#[test]
fn insert_existing_id_replaces_in_place() {
    let mut s = Storage::new();
    s.insert("a", "memory", "user", "1", true);
    s.insert("b", "memory", "user", "2", true);
    s.insert("a", "prompt", "user", "3", true);
    assert_eq!(s.len(), 2);
    let (id, body) = s.entry_at(0).unwrap();
    assert_eq!(id, "a");
    assert_eq!(body.0, "prompt");
    assert_eq!(body.2, "3");
}

#[test]
fn insert_on_failed_state_does_nothing() {
    let mut s = Storage::new();
    let _ = s.select("missing");
    assert_eq!(code(&s).as_deref(), Some("storage-select-not-found"));
    s.insert("a", "memory", "user", "1", true);
    assert_eq!(s.len(), 0);
    s.set_ok();
    s.insert("a", "memory", "user", "1", true);
    assert_eq!(s.len(), 1);
}

#[test]
fn select_missing_sets_failure() {
    let mut s = Storage::new();
    let r = s.select("nope");
    assert_eq!(r, (String::new(), String::new(), String::new()));
    assert_eq!(code(&s).as_deref(), Some("storage-select-not-found"));
    assert_eq!(detail(&s, "id").as_deref(), Some("nope"));
}

#[test]
fn update_same_domain_needs_u() {
    let mut s = Storage::new();
    s.insert("x", "memory", "user", "old", true);
    s.set_access("memory", "si");
    s.update("x", "memory", "assistant", "new", false);
    assert_eq!(code(&s).as_deref(), Some("storage-update-not-allowed"));
    assert_eq!(s.get_by_id("x").unwrap().2, "old");
    s.set_ok();
    s.set_access("memory", "su");
    s.update("x", "memory", "assistant", "new", false);
    assert!(s.get_state().is_ok());
    assert_eq!(s.get_by_id("x").unwrap().2, "new");
}

#[test]
fn update_to_other_domain_needs_i_there_and_d_here() {
    let mut s = Storage::new();
    s.insert("x", "history", "user", "t", true);
    s.set_access("history", "d");
    s.set_access("memory", "i");
    s.update("x", "memory", "user", "t", false);
    assert!(s.get_state().is_ok());
    assert_eq!(s.get_by_id("x").unwrap().0, "memory");
}

#[test]
fn update_missing_fact() {
    let mut s = Storage::new();
    s.update("x", "memory", "user", "t", true);
    assert_eq!(code(&s).as_deref(), Some("fact-not-found-for-update"));
}

#[test]
fn delete_needs_d() {
    let mut s = Storage::new();
    s.insert("x", "memory", "user", "t", true);
    s.set_access("memory", "siu");
    s.delete("x", false);
    assert_eq!(code(&s).as_deref(), Some("storage-delete-not-allowed"));
    assert_eq!(s.len(), 1);
    s.set_ok();
    s.set_access("memory", "d");
    s.delete("x", false);
    assert!(s.get_state().is_ok());
    assert_eq!(s.len(), 0);
}

#[test]
fn delete_missing_fact() {
    let mut s = Storage::new();
    s.delete("x", true);
    assert_eq!(code(&s).as_deref(), Some("fact-not-found-for-delete"));
}

#[test]
fn delete_keeps_order_of_others() {
    let mut s = Storage::new();
    s.insert("a", "memory", "user", "1", true);
    s.insert("b", "memory", "user", "2", true);
    s.insert("c", "memory", "user", "3", true);
    s.delete("b", true);
    assert_eq!(s.entry_at(0).unwrap().0, "a");
    assert_eq!(s.entry_at(1).unwrap().0, "c");
}

#[test]
fn access_is_set_and_checked() {
    let mut s = Storage::new();
    assert_eq!(s.get_access("memory"), "");
    assert!(!s.check_access("memory", 'i'));
    s.set_access("memory", "si");
    s.set_access("history", "s");
    s.set_access("memory", "d");
    assert_eq!(s.get_access("memory"), "d");
    assert!(s.check_access("memory", 'd'));
    assert!(!s.check_access("memory", 'i'));
    assert!(s.check_access("history", 's'));
}

#[test]
fn text_format_of_facts() {
    let mut s = Storage::new();
    s.insert("p1", "prompt", "user", "be brief", true);
    assert_eq!(s.to_string(), "#FACT|prompt|user|p1\n\nbe brief\n\n");
    assert_eq!(s.to_string_by_id("p1"), "#FACT|prompt|user|p1\n\nbe brief\n\n");
    assert_eq!(s.to_string_by_id("zz"), "");
    s.set_fact_delimiter("#X");
    assert_eq!(s.to_string(), "#X|prompt|user|p1\n\nbe brief\n\n");
}

#[test]
fn parse_reads_facts_in_order() {
    let mut s = Storage::new();
    s.parse("ignored line\n#FACT|memory|user|m1\nfirst\nline\n#FACT|history|assistant|h1\n\n  second  \n\n");
    assert_eq!(s.len(), 2);
    let (id, b) = s.entry_at(0).unwrap();
    assert_eq!(id, "m1");
    assert_eq!(b, &("memory".to_string(), "user".to_string(), "first\nline".to_string()));
    let (id, b) = s.entry_at(1).unwrap();
    assert_eq!(id, "h1");
    assert_eq!(b.2, "second");
}

#[test]
fn parse_new_ids_are_generated() {
    let mut s = Storage::new();
    s.parse("#FACT|memory|assistant|NEW\nfact one\n#FACT|memory|assistant|-\nfact two\n#FACT|memory|assistant|new\nthree\n");
    assert_eq!(s.len(), 3);
    for i in 0..3 {
        let (id, _) = s.entry_at(i).unwrap();
        assert!(id.parse::<u128>().is_ok());
    }
}

#[test]
fn parse_short_header_has_empty_fields() {
    let mut s = Storage::new();
    s.parse("#FACT|shell\nls -la\n");
    assert_eq!(s.len(), 1);
    let (id, b) = s.entry_at(0).unwrap();
    assert_eq!(id, "");
    assert_eq!(b.0, "shell");
    assert_eq!(b.1, "");
    assert_eq!(b.2, "ls -la");
}

#[test]
fn write_then_read_gives_the_same_facts() {
    let mut s = Storage::new();
    s.insert("a", "memory", "user", "alpha\nbeta", true);
    s.insert("b", "history", "assistant", "gamma", true);
    let text = s.to_string();
    let mut t = Storage::new();
    t.parse(&text);
    assert_eq!(t.to_string(), text);
    assert_eq!(t.len(), 2);
    assert_eq!(t.get_by_id("a").unwrap().2, "alpha\nbeta");
}

#[test]
fn split_keeps_listed_domains() {
    let mut s = Storage::new();
    s.insert("a", "memory", "user", "1", true);
    s.insert("b", "history", "user", "2", true);
    s.insert("c", "prompt", "user", "3", true);
    s.insert("d", "env", "user", "4", true);
    let p = s.split(&["prompt", "access", "env"]);
    assert_eq!(p.len(), 2);
    assert_eq!(p.entry_at(0).unwrap().0, "c");
    assert_eq!(p.entry_at(1).unwrap().0, "d");
    let h = s.split(&["history"]);
    assert_eq!(h.len(), 1);
}

#[test]
fn clear_empty_content_removes_blank_facts() {
    let mut s = Storage::new();
    s.insert("a", "memory", "user", "x", true);
    s.insert("b", "memory", "user", "   \n ", true);
    s.insert("c", "memory", "user", "", true);
    s.clear_empty_content();
    assert_eq!(s.len(), 1);
    assert_eq!(s.entry_at(0).unwrap().0, "a");
}

#[test]
fn clear_removes_all() {
    let mut s = Storage::new();
    s.insert("a", "memory", "user", "x", true);
    s.clear();
    assert_eq!(s.len(), 0);
}

#[test]
fn put_ignores_state_and_rights() {
    let mut s = Storage::new();
    let _ = s.select("missing");
    s.put("f", "read", "user", "data");
    assert_eq!(s.len(), 1);
}

#[test]
fn load_outcomes() {
    let mut s = Storage::new();
    s.insert("old", "memory", "user", "x", true);
    s.load("/p", ReadOutcome::Missing);
    assert_eq!(s.len(), 1);
    s.load("/p", ReadOutcome::Content("#FACT|history|user|h\nhello\n".to_string()));
    assert_eq!(s.len(), 1);
    assert_eq!(s.entry_at(0).unwrap().0, "h");
    s.load("/p", ReadOutcome::Failed("denied".to_string()));
    assert_eq!(code(&s).as_deref(), Some("storage-load-error"));
    assert_eq!(detail(&s, "path").as_deref(), Some("/p"));
    assert_eq!(detail(&s, "error").as_deref(), Some("denied"));
}

#[test]
fn save_outcomes() {
    let mut s = Storage::new();
    s.save("/p", WriteOutcome::Written);
    assert!(s.get_state().is_ok());
    s.save("/p", WriteOutcome::DirFailed("no dir".to_string()));
    assert_eq!(code(&s).as_deref(), Some("storage-save-dir-error"));
    s.save("/p", WriteOutcome::WriteFailed("full".to_string()));
    assert_eq!(code(&s).as_deref(), Some("storage-save-error"));
}

#[test]
fn state_can_be_changed_through_get_state_mut() {
    let mut s = Storage::new();
    let _ = s.select("missing");
    s.get_state_mut().set_ok();
    assert!(s.get_state().is_ok());
}

#[test]
fn insert_returns_the_id_used() {
    let mut s = Storage::new();
    assert_eq!(s.insert("h1", "history", "user", "hi", true), "h1");
    let g = s.insert("", "history", "user", "two", true);
    assert!(!g.is_empty());
    assert!(s.exists_id(&g));
    let (id, _) = s.entry_at(1).unwrap();
    assert_eq!(id, &g);
    s.set_access("memory", "s");
    assert_eq!(s.insert("m1", "memory", "user", "x", false), "");
}
