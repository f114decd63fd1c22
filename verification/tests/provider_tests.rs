use ai_cli::ai::Ai;
use ai_cli::chat::Effect;
use ai_cli::json::JsonValue;
use ai_cli::provider::{answer_path, ollama_payload, parse_ollama_response, split_answer, strip_fences, ChatResponse, ParsedAnswer};

fn s(x: &str) -> JsonValue {
    JsonValue::Str(x.to_string())
}

fn n(x: &str) -> JsonValue {
    JsonValue::Number(x.to_string())
}

fn obj(items: Vec<(&str, JsonValue)>) -> JsonValue {
    JsonValue::Object(items.into_iter().map(|(k, v)| (k.to_string(), v)).collect())
}

fn arr(items: Vec<JsonValue>) -> JsonValue {
    JsonValue::Array(items)
}

fn rule() -> JsonValue {
    obj(vec![
        ("answer", arr(vec![s("choices"), n("0"), s("message"), s("content")])),
        ("tokens_in", arr(vec![s("usage"), s("prompt_tokens")])),
        ("tokens_out", arr(vec![s("usage"), s("completion_tokens")])),
        ("request", obj(vec![("messages", arr(vec![obj(vec![("role", s("user")), ("content", s("%prompt%"))])])), ("note", s("%model-name%"))])),
    ])
}

fn answer(content: &str) -> JsonValue {
    obj(vec![
        ("choices", arr(vec![obj(vec![("message", obj(vec![("content", s(content))]))])])),
        ("usage", obj(vec![("prompt_tokens", n("12")), ("completion_tokens", n("5"))])),
    ])
}

#[test]
fn chat_response_default_is_empty() {
    let r = ChatResponse::default();
    assert_eq!(r.message, "");
    assert_eq!(r.prompt_tokens, 0);
    assert_eq!(r.answer_tokens, 0);
}

#[test]
fn think_blocks_are_split_off() {
    let (think, clear) = split_answer("  <think>step\none</think>{\"a\":1}<think>more</think>  ");
    assert_eq!(think, "step\none");
    assert_eq!(clear, "{\"a\":1}");
    let (think, clear) = split_answer("no thinking");
    assert_eq!(think, "");
    assert_eq!(clear, "no thinking");
}

#[test]
fn fences_are_stripped() {
    assert_eq!(strip_fences(" ```json\n{\"x\":1}\n``` "), "{\"x\":1}");
    assert_eq!(strip_fences("``````text``````"), "text");
    assert_eq!(strip_fences("plain"), "plain");
}

#[test]
fn reading_a_good_answer() {
    let mut a = Ai::create(obj(vec![]));
    let r = a.parse_response("raw", "t".to_string(), Ok(answer("```\nhello\n```")), &rule());
    assert!(r.success);
    assert_eq!(r.content, "hello");
    assert_eq!(r.error, "");
    assert_eq!(r.think, "t");
    assert_eq!((r.tokens_in, r.tokens_out, r.tokens_billed, r.tokens_cached), (12, 5, 0, 0));
    assert!(a.state.is_ok());
}

#[test]
fn reading_an_error_answer() {
    let mut a = Ai::create(obj(vec![]));
    let e = obj(vec![("error", obj(vec![("message", s("bad key"))]))]);
    let r = a.parse_response("raw", String::new(), Ok(e), &rule());
    assert!(!r.success);
    assert_eq!(r.error, "API error bad key:");
    assert_eq!(r.content, "raw");
    let e = obj(vec![("error", s("x"))]);
    let r = a.parse_response("raw", String::new(), Ok(e), &rule());
    assert_eq!(r.error, "API error Unknown API error:");
}

#[test]
fn reading_text_that_is_not_json() {
    let mut a = Ai::create(obj(vec![]));
    let r = a.parse_response("oops", String::new(), Err("expected value at line 1 column 1".to_string()), &rule());
    assert!(!r.success);
    assert_eq!(r.error, "Failed to parse response: expected value at line 1 column 1");
    assert_eq!(r.content, "oops");
}

#[test]
fn reading_an_answer_without_content() {
    let mut a = Ai::create(obj(vec![]));
    let r = a.parse_response("raw", String::new(), Ok(obj(vec![])), &rule());
    assert!(!r.success);
    assert_eq!(r.content, "");
    let f = a.state.failure.as_ref().unwrap();
    assert_eq!(f.code, "answer-source-is-empty");
    assert_eq!(f.details, vec![("path".to_string(), "choices,0,message,content".to_string())]);
    assert_eq!(answer_path(&obj(vec![])), "");
}

fn text(v: &JsonValue) -> String {
    match v {
        JsonValue::Null => "null".to_string(),
        JsonValue::Bool(b) => b.to_string(),
        JsonValue::Number(t) => t.clone(),
        JsonValue::Str(x) => format!("{:?}", x),
        JsonValue::Array(items) => format!("[{}]", items.iter().map(text).collect::<Vec<_>>().join(",")),
        JsonValue::Object(es) => format!("{{{}}}", es.iter().map(|(k, v)| format!("{:?}:{}", k, text(v))).collect::<Vec<_>>().join(",")),
    }
}

fn session() -> Ai {
    let cfg = obj(vec![(
        "application",
        obj(vec![(
            "ai",
            obj(vec![
                ("providers", obj(vec![("p", obj(vec![("api", s("https://x/v1")), ("models", obj(vec![("m", s("model-1"))]))]))])),
                ("rules", arr(vec![rule()])),
            ]),
        )]),
    )]);
    let mut a = Ai::create(cfg);
    a.provider = "p".to_string();
    a.model = "m".to_string();
    a
}

#[test]
fn request_is_built_from_the_rule() {
    let mut a = session();
    let r = a.chat_request("p", "hi there").unwrap();
    assert_eq!(r.api_url, "https://x/v1");
    assert_eq!(text(&r.payload), "{\"model\":\"m\",\"messages\":[{\"role\":\"user\",\"content\":\"hi there\"}],\"note\":\"model-1\"}");
    assert!(a.state.is_ok());
}

#[test]
fn request_without_rule_fails() {
    let mut a = Ai::create(obj(vec![]));
    a.model = "m".to_string();
    assert!(a.chat_request("p", "hi").is_none());
    let f = a.state.failure.as_ref().unwrap();
    assert_eq!(f.code, "rule-not-found");
    assert_eq!(f.details, vec![("model".to_string(), "m".to_string()), ("provider".to_string(), "p".to_string())]);
}

fn parsed(success: bool, error: &str, content: &str) -> ParsedAnswer {
    ParsedAnswer {
        error: error.to_string(),
        think: String::new(),
        content: content.to_string(),
        tokens_in: 0,
        tokens_out: 0,
        tokens_billed: 0,
        tokens_cached: 0,
        success,
    }
}

#[test]
fn failed_answer_is_printed() {
    let mut a = Ai::create(obj(vec![]));
    let e = a.chat_answer(&parsed(false, "API error x:", "body"));
    match &e[..] {
        [Effect::Print { text }] => assert_eq!(text, "API error x:\nbody"),
        _ => panic!("expected one print"),
    }
    let e = a.chat_answer(&parsed(false, "", "body"));
    match &e[..] {
        [Effect::Print { text }] => assert_eq!(text, "body"),
        _ => panic!("expected one print"),
    }
}

#[test]
fn good_answer_is_handled() {
    let mut a = Ai::create(obj(vec![]));
    let e = a.chat_answer(&parsed(true, "", "just text"));
    assert_eq!(e.len(), 2);
}

#[test]
fn request_failure_is_recorded() {
    let mut a = session();
    a.chat_failed("p", "https://x/v1", "timeout");
    let f = a.state.failure.as_ref().unwrap();
    assert_eq!(f.code, "api-error");
    assert_eq!(
        f.details,
        vec![
            ("message".to_string(), "timeout".to_string()),
            ("provider".to_string(), "p".to_string()),
            ("api".to_string(), "https://x/v1".to_string()),
            ("proxy".to_string(), "".to_string()),
        ]
    );
}

#[test]
fn ollama_answers() {
    let ok = obj(vec![("response", s("  hi  ")), ("prompt_eval_count", n("3")), ("eval_count", n("4"))]);
    let r = parse_ollama_response(" {..} ", Ok(ok));
    assert!(r.success);
    assert_eq!(r.content, "hi");
    assert_eq!((r.tokens_in, r.tokens_out), (3, 4));
    let r = parse_ollama_response("x", Ok(obj(vec![("error", s("model not found"))])));
    assert!(!r.success);
    assert_eq!(r.error, "model not found");
    assert_eq!(r.content, "model not found");
    let r = parse_ollama_response("x", Ok(obj(vec![("error", n("1"))])));
    assert_eq!(r.error, "Unknown Ollama error");
    let r = parse_ollama_response(" bad ", Err("eof".to_string()));
    assert_eq!(r.error, "eof");
    assert_eq!(r.content, "bad");
    assert_eq!(text(&ollama_payload("llama", "q")), "{\"model\":\"llama\",\"prompt\":\"q\",\"stream\":false}");
}

#[test]
fn think_blocks_match_leftmost_first() {
    let (think, clear) = split_answer("a<think>x<think>y</think>b</think>c");
    assert_eq!(think, "x<think>y");
    assert_eq!(clear, "ab</think>c");
    let (think, clear) = split_answer("a<think>open only");
    assert_eq!(think, "");
    assert_eq!(clear, "a<think>open only");
    let (think, clear) = split_answer("</think>a<think>t</think>");
    assert_eq!(think, "t");
    assert_eq!(clear, "</think>a");
}
