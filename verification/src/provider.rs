//! Talking to an OpenAI-compatible provider: the request a chat sends (the
//! rule's request merged over the model, placeholders filled), reading the
//! provider's answer into its content, error and token counts, and what
//! the session does with the outcome. The HTTP exchange itself is the
//! caller's.
use crate::ai::{member, selected_rule, Ai};
use crate::chat::{effects_view, Effect, EffectView};
use crate::json::{get_str, jview, merge, merged, obj_get, parse_uint, path_by, path_items, replace_placeholders, str_or, uint_of, uint_text, digits_value, with_placeholders, JsonValue, JsonView};
use crate::state::details_view;
use crate::text::{append_chars, chars_of, decimal, decimal_chars, join, join_chars, string_of, trim, trim_chars};
use regex::Regex;
use vstd::prelude::*;

verus! {

broadcast use vstd::std_specs::vec::group_vec_axioms;

/// A chat answer in one shape for every provider.
pub struct ChatResponse {
    /// Command to type into the terminal.
    pub command: String,
    /// Message to show.
    pub message: String,
    /// Text for the clipboard.
    pub clipboard: String,
    /// The model's reasoning, where it gives one.
    pub think: String,
    /// Text for the buffer file, also shown.
    pub buffer: String,
    /// Facts for the chat memory.
    pub memory: String,
    /// Tokens of the prompt.
    pub prompt_tokens: u64,
    /// Tokens of the answer.
    pub answer_tokens: u64,
}

impl Default for ChatResponse {
    fn default() -> (r: ChatResponse)
        ensures
            r.command@.len() == 0 && r.message@.len() == 0 && r.clipboard@.len() == 0,
            r.think@.len() == 0 && r.buffer@.len() == 0 && r.memory@.len() == 0,
            r.prompt_tokens == 0 && r.answer_tokens == 0,
    {
        ChatResponse {
            command: String::new(),
            message: String::new(),
            clipboard: String::new(),
            think: String::new(),
            buffer: String::new(),
            memory: String::new(),
            prompt_tokens: 0,
            answer_tokens: 0,
        }
    }
}

/// A service that answers chat prompts.
pub trait Provider {
    /// The provider's name (`deepseek`, `openai`, ...).
    fn get_name(&self) -> &str;

    /// Sends the prompt and handles the answer.
    fn chat(&mut self, prompt: &str);
}

/// The first position at or after `from` where `pat` occurs in `s`.
pub open spec fn first_at(s: Seq<char>, pat: Seq<char>, from: int) -> Option<int>
    decreases s.len() - from,
{
    if from < 0 || from + pat.len() > s.len() {
        None
    } else if s.subrange(from, from + pat.len()) == pat {
        Some(from)
    } else if from >= s.len() {
        None
    } else {
        first_at(s, pat, from + 1)
    }
}

/// Where the expression `(?s)<think>(.*?)</think>` first matches `s`: the
/// position of the first `<think>` and that of the first `</think>` after
/// it. A later `<think>` cannot start a match where the first one does not,
/// since any `</think>` after it also follows the first.
pub open spec fn think_span(s: Seq<char>) -> Option<(int, int)> {
    match first_at(s, "<think>"@, 0) {
        Some(i) => match first_at(s, "</think>"@, i + 7) {
            Some(j) => Some((i, j)),
            None => None,
        },
        None => None,
    }
}

/// The text of the first `<think>...</think>` block of `raw`, empty when
/// there is none.
pub open spec fn think_block(raw: Seq<char>) -> Seq<char> {
    match think_span(raw) {
        Some((i, j)) => if 0 <= i && i + 7 <= j && j + 8 <= raw.len() { raw.subrange(i + 7, j) } else { seq![] },
        None => seq![],
    }
}

/// `raw` with every `<think>...</think>` block removed, each found from the
/// end of the one before.
pub open spec fn without_think(raw: Seq<char>) -> Seq<char>
    decreases raw.len(),
{
    match think_span(raw) {
        Some((i, j)) => if 0 <= i && i + 7 <= j && j + 8 <= raw.len() {
            raw.subrange(0, i) + without_think(raw.subrange(j + 8, raw.len() as int))
        } else {
            raw
        },
        None => raw,
    }
}

/// `regex::Regex::captures` with the expression `(?s)<think>(.*?)</think>`:
/// the text of its first group, or empty when it does not match. The
/// expression is a valid one, so building it does not fail.
#[verifier::external_body]
fn think_capture(raw: &str) -> (r: String)
    ensures
        r@ == think_block(raw@),
{
    let re = Regex::new(r"(?s)<think>(.*?)</think>").unwrap();
    re.captures(raw).and_then(|cap| cap.get(1).map(|m| m.as_str().to_string())).unwrap_or_default()
}

/// `regex::Regex::replace_all` of the expression `(?s)<think>(.*?)</think>`
/// with the empty string.
#[verifier::external_body]
fn think_removed(raw: &str) -> (r: String)
    ensures
        r@ == without_think(raw@),
{
    let re = Regex::new(r"(?s)<think>(.*?)</think>").unwrap();
    re.replace_all(raw, "").to_string()
}

/// An answer split into its reasoning and the rest: `raw` trimmed, the
/// first think block, and the text without think blocks.
pub fn split_answer(raw: &str) -> (r: (String, String))
    ensures
        r.0@ == think_block(trim(raw@)),
        r.1@ == without_think(trim(raw@)),
{
    let cs = chars_of(raw);
    let t = trim_chars(&cs);
    let ts = string_of(&t);
    (think_capture(ts.as_str()), think_removed(ts.as_str()))
}

/// `s` with `p` removed from its start as often as it is there (`str::trim_start_matches`).
pub open spec fn strip_start_all(s: Seq<char>, p: Seq<char>) -> Seq<char>
    decreases s.len(),
{
    if p.len() > 0 && p.len() <= s.len() && s.take(p.len() as int) == p {
        strip_start_all(s.skip(p.len() as int), p)
    } else {
        s
    }
}

/// `s` with `p` removed from its end as often as it is there (`str::trim_end_matches`).
pub open spec fn strip_end_all(s: Seq<char>, p: Seq<char>) -> Seq<char>
    decreases s.len(),
{
    if p.len() > 0 && p.len() <= s.len() && s.skip(s.len() - p.len()) == p {
        strip_end_all(s.take(s.len() - p.len()), p)
    } else {
        s
    }
}

/// The content of an answer without the code fences around it.
pub open spec fn unfenced(s: Seq<char>) -> Seq<char> {
    trim(strip_end_all(strip_start_all(strip_start_all(trim(s), "```json"@), "```"@), "```"@))
}

fn strip_start(v: &Vec<char>, p: &Vec<char>) -> (r: Vec<char>)
    ensures
        r@ == strip_start_all(v@, p@),
{
    let mut cur = v.clone();
    assert(cur@ == v@);
    if p.len() == 0 {
        return cur;
    }
    let mut start: usize = 0;
    assert(v@.skip(0) =~= v@);
    while start <= v.len()
        invariant
            p@.len() > 0,
            start <= v@.len(),
            strip_start_all(v@, p@) == strip_start_all(v@.skip(start as int), p@),
        decreases v@.len() - start,
    {
        let ghost rest = v@.skip(start as int);
        if crate::text::matches_at(v.as_slice(), start, p.as_slice()) {
            assert(rest.take(p@.len() as int) =~= v@.subrange(start as int, start + p@.len()));
            assert(rest.skip(p@.len() as int) =~= v@.skip(start + p@.len()));
            start = start + p.len();
        } else {
            proof {
                if p@.len() <= rest.len() {
                    assert(rest.take(p@.len() as int) =~= v@.subrange(start as int, start + p@.len()));
                }
            }
            let r = crate::text::slice_copy(v.as_slice(), start, v.len());
            assert(r@ =~= rest);
            return r;
        }
    }
    let r = crate::text::slice_copy(v.as_slice(), start, v.len());
    r
}

pub fn strip_suffix_chars(v: &Vec<char>, p: &Vec<char>) -> (r: Vec<char>)
    ensures
        r@ == strip_end_all(v@, p@),
{
    if p.len() == 0 {
        let c = v.clone();
        assert(c@ == v@);
        return c;
    }
    let mut end: usize = v.len();
    assert(v@.take(v@.len() as int) =~= v@);
    while end > 0
        invariant
            p@.len() > 0,
            end <= v@.len(),
            strip_end_all(v@, p@) == strip_end_all(v@.take(end as int), p@),
        decreases end,
    {
        let ghost rest = v@.take(end as int);
        if p.len() <= end && crate::text::matches_at(v.as_slice(), end - p.len(), p.as_slice()) {
            assert(rest.skip(rest.len() - p@.len()) =~= v@.subrange(end - p@.len(), end as int));
            assert(rest.take(rest.len() - p@.len()) =~= v@.take(end - p@.len()));
            end = end - p.len();
        } else {
            proof {
                if p@.len() <= rest.len() {
                    assert(rest.skip(rest.len() - p@.len()) =~= v@.subrange(end - p@.len(), end as int));
                }
            }
            let r = crate::text::slice_copy(v.as_slice(), 0, end);
            assert(r@ =~= rest);
            return r;
        }
    }
    let r = crate::text::slice_copy(v.as_slice(), 0, 0);
    assert(r@ =~= v@.take(0));
    r
}

/// The content of an answer without the code fences around it (see `unfenced`).
pub fn strip_fences(s: &str) -> (r: String)
    ensures
        r@ == unfenced(s@),
{
    let cs = chars_of(s);
    let a = trim_chars(&cs);
    let j = chars_of("```json");
    let f = chars_of("```");
    let b = strip_start(&a, &j);
    let c = strip_start(&b, &f);
    let d = strip_suffix_chars(&c, &f);
    let e = trim_chars(&d);
    string_of(&e)
}

/// What reading an answer gave.
pub struct ParsedAnswer {
    /// Error text, empty when there is none.
    pub error: String,
    /// The model's reasoning.
    pub think: String,
    /// The content: the answer's text, or the raw answer on an error.
    pub content: String,
    pub tokens_in: u64,
    pub tokens_out: u64,
    pub tokens_billed: u64,
    pub tokens_cached: u64,
    /// Whether content was found.
    pub success: bool,
}

/// The name of a path item: a key, or an index in decimal, else empty.
pub open spec fn item_name(p: JsonView) -> Seq<char> {
    match p {
        JsonView::Str(s) => s,
        JsonView::Number(t) => if uint_text(t, u64::MAX as nat) {
            decimal(digits_value(t))
        } else {
            seq![]
        },
        _ => seq![],
    }
}

/// The unsigned number at the path that member `key` of the rule gives, else 0.
pub open spec fn token_count(json: JsonView, rule: JsonView, key: Seq<char>) -> nat {
    match uint_of(path_by(json, path_items(member(rule, key))), u64::MAX as nat) {
        Some(n) => n,
        None => 0,
    }
}

/// The path of the answer's content as text: its item names joined by `,`.
pub open spec fn answer_path_text(rule: JsonView) -> Seq<char> {
    join(path_items(member(rule, "answer"@)).map_values(|p: JsonView| item_name(p)), ","@)
}

/// The name of a path item (see `item_name`).
fn item_name_of(p: &JsonValue) -> (r: String)
    ensures
        r@ == item_name(jview(*p)),
{
    match p {
        JsonValue::Str(s) => s.clone(),
        JsonValue::Number(t) => match parse_uint(t.as_str(), u64::MAX) {
            Some(n) => {
                let d = decimal_chars(n as u128);
                string_of(&d)
            },
            None => String::new(),
        },
        _ => String::new(),
    }
}

/// The path of the answer's content as text (see `answer_path_text`).
pub fn answer_path(rule: &JsonValue) -> (r: String)
    ensures
        r@ == answer_path_text(jview(*rule)),
{
    proof {
        reveal_strlit(",");
    }
    let ghost items = path_items(member(jview(*rule), "answer"@));
    let mut names: Vec<Vec<char>> = Vec::new();
    match rule.get("answer") {
        Some(JsonValue::Array(xs)) => {
            assert(items =~= Seq::new(xs@.len(), |i: int| if 0 <= i < xs@.len() { jview(xs@[i]) } else { JsonView::Null }));
            let mut i: usize = 0;
            while i < xs.len()
                invariant
                    items == Seq::new(xs@.len(), |i: int| if 0 <= i < xs@.len() { jview(xs@[i]) } else { JsonView::Null }),
                    i <= xs@.len(),
                    names@.map_values(|w: Vec<char>| w@) == items.take(i as int).map_values(|p: JsonView| item_name(p)),
                decreases xs@.len() - i,
            {
                let n = item_name_of(&xs[i]);
                let ghost before = names@.map_values(|w: Vec<char>| w@);
                names.push(chars_of(n.as_str()));
                assert(items.take(i + 1) =~= items.take(i as int).push(items[i as int]));
                assert(names@.map_values(|w: Vec<char>| w@) =~= before.push(item_name(items[i as int])));
                i = i + 1;
            }
            assert(items.take(xs@.len() as int) =~= items);
        },
        _ => {
            assert(items =~= Seq::<JsonView>::empty());
            assert(names@.map_values(|w: Vec<char>| w@) =~= items.map_values(|p: JsonView| item_name(p)));
        },
    }
    let comma = chars_of(",");
    let j = join_chars(&names, &comma);
    string_of(&j)
}

/// What reading an answer gives, as a spec value: (error, content, the
/// four token counts, success).
pub open spec fn answer_reading(clear: Seq<char>, parsed: Result<JsonView, Seq<char>>, rule: JsonView) -> (Seq<char>, Seq<char>, nat, nat, nat, nat, bool) {
    match parsed {
        Err(e) => ("Failed to parse response: "@ + e, clear, 0, 0, 0, 0, false),
        Ok(json) => match obj_get(json, "error"@) {
            Some(err) => ("API error "@ + str_or(Some(member(err, "message"@)), "Unknown API error"@) + ":"@, clear, 0, 0, 0, 0, false),
            None => {
                let source = str_or(path_by(json, path_items(member(rule, "answer"@))), seq![]);
                if source.len() > 0 {
                    (seq![], unfenced(source), token_count(json, rule, "tokens_in"@), token_count(json, rule, "tokens_out"@),
                        token_count(json, rule, "tokens_billed"@), token_count(json, rule, "tokens_cached"@), true)
                } else {
                    (seq![], seq![], 0, 0, 0, 0, false)
                }
            },
        },
    }
}

pub open spec fn result_view(r: Result<JsonValue, String>) -> Result<JsonView, Seq<char>> {
    match r {
        Ok(v) => Ok(jview(v)),
        Err(e) => Err(e@),
    }
}

/// The unsigned number at the path that member `key` of `rule` gives, else 0.
fn token_of(json: &JsonValue, rule: &JsonValue, key: &str) -> (r: u64)
    ensures
        r == token_count(jview(*json), jview(*rule), key@),
{
    match rule.get(key) {
        Some(p) => crate::json::get_by_path_int(json, p, 0),
        None => {
            let n = JsonValue::Null;
            crate::json::get_by_path_int(json, &n, 0)
        },
    }
}

fn concat3(a: &str, b: &str, c: &str) -> (r: String)
    ensures
        r@ == a@ + b@ + c@,
{
    let mut v = chars_of(a);
    let bv = chars_of(b);
    let cv = chars_of(c);
    append_chars(&mut v, &bv);
    append_chars(&mut v, &cv);
    string_of(&v)
}

impl Ai {
    /// Reads an answer: `clear` is the answer without think blocks and
    /// `parsed` its reading as JSON. On an answer with no content at the
    /// rule's path the failure `answer-source-is-empty` is set, with the path.
    pub fn parse_response(&mut self, clear: &str, think: String, parsed: Result<JsonValue, String>, rule: &JsonValue) -> (r: ParsedAnswer)
        ensures
            ({
                let (error, content, tin, tout, tbill, tcache, success) = answer_reading(clear@, result_view(parsed), jview(*rule));
                &&& r.error@ == error
                &&& r.content@ == content
                &&& r.tokens_in == tin && r.tokens_out == tout
                &&& r.tokens_billed == tbill && r.tokens_cached == tcache
                &&& r.success == success
                &&& r.think@ == think@
            }),
            ({
                let empty_source = match result_view(parsed) {
                    Ok(json) => obj_get(json, "error"@) is None && str_or(path_by(json, path_items(member(jview(*rule), "answer"@))), seq![]).len() == 0,
                    Err(_) => false,
                };
                &&& empty_source ==> final(self).state.view_failure() == Some(("answer-source-is-empty"@, seq![("path"@, answer_path_text(jview(*rule)))]))
                &&& !empty_source ==> final(self).state == old(self).state
            }),
            final(self).storage == old(self).storage,
            final(self).config == old(self).config,
            final(self).fact_db == old(self).fact_db,
    {
        proof {
            reveal_strlit("");
        }
        match parsed {
            Err(e) => {
                let msg = concat3("Failed to parse response: ", e.as_str(), "");
                assert(msg@ =~= "Failed to parse response: "@ + e@);
                ParsedAnswer { error: msg, think, content: clear.to_owned(), tokens_in: 0, tokens_out: 0, tokens_billed: 0, tokens_cached: 0, success: false }
            },
            Ok(json) => match json.get("error") {
                Some(err) => {
                    let m = get_str(err.get("message"), "Unknown API error");
                    assert(m@ == str_or(Some(member(jview(*err), "message"@)), "Unknown API error"@));
                    let msg = concat3("API error ", m.as_str(), ":");
                    ParsedAnswer { error: msg, think, content: clear.to_owned(), tokens_in: 0, tokens_out: 0, tokens_billed: 0, tokens_cached: 0, success: false }
                },
                None => {
                    let answer = match rule.get("answer") {
                        Some(a) => a.deep_clone(),
                        None => JsonValue::Null,
                    };
                    assert(jview(answer) == member(jview(*rule), "answer"@));
                    let source = crate::json::get_by_path_string(&json, &answer, "");
                    if !source.as_str().is_empty() {
                        let content = strip_fences(source.as_str());
                        let tin = token_of(&json, rule, "tokens_in");
                        let tout = token_of(&json, rule, "tokens_out");
                        let tbill = token_of(&json, rule, "tokens_billed");
                        let tcache = token_of(&json, rule, "tokens_cached");
                        ParsedAnswer { error: String::new(), think, content, tokens_in: tin, tokens_out: tout, tokens_billed: tbill, tokens_cached: tcache, success: true }
                    } else {
                        let path = answer_path(rule);
                        let mut d: Vec<(String, String)> = Vec::new();
                        d.push(("path".to_owned(), path));
                        assert(details_view(d@) =~= seq![("path"@, answer_path_text(jview(*rule)))]);
                        self.state.set_state("answer-source-is-empty".to_owned(), d);
                        ParsedAnswer { error: String::new(), think, content: String::new(), tokens_in: 0, tokens_out: 0, tokens_billed: 0, tokens_cached: 0, success: false }
                    }
                },
            },
        }
    }
}


/// A request to send.
pub struct ChatRequest {
    /// Where it goes.
    pub api_url: String,
    /// The rule it was built by (see `Ai::select_rule`).
    pub rule: JsonValue,
    /// Its JSON body.
    pub payload: JsonValue,
}

/// The request body for `model`: `{"model": model}` with the rule's
/// `request` merged over it, then `%prompt%` and `%model-name%` filled.
pub open spec fn payload_of(rule: JsonView, model: Seq<char>, prompt: Seq<char>, model_name: Seq<char>) -> JsonView {
    with_placeholders(
        merged(JsonView::Object(seq![("model"@, JsonView::Str(model))]), member(rule, "request"@)),
        prompt,
        model_name,
    )
}

/// The message shown for an answer without content: the error, a newline
/// and the content, or the content alone when there is no error.
pub open spec fn failure_message(error: Seq<char>, content: Seq<char>) -> Seq<char> {
    if error.len() == 0 {
        content
    } else {
        error + seq!['\n'] + content
    }
}

impl Ai {
    /// The model name the current model stands for (see `get_model_name`).
    pub open spec fn model_name_of(&self) -> Seq<char> {
        str_or(Some(crate::ai::at_path(jview(self.config), seq!["application"@, "ai"@, "providers"@, self.provider@, "models"@, self.model@])), "unknown"@)
    }

    /// The request a chat with `provider_name` sends for `prompt`: none, and
    /// the failure `rule-not-found`, when no rule applies to the provider
    /// and the current model.
    pub fn chat_request(&mut self, provider_name: &str, prompt: &str) -> (r: Option<ChatRequest>)
        ensures
            ({
                let rule = selected_rule(jview(old(self).config), provider_name@, old(self).model@);
                if rule == JsonView::Null {
                    &&& r is None
                    &&& final(self).state.view_failure() == Some(("rule-not-found"@, seq![("model"@, old(self).model@), ("provider"@, provider_name@)]))
                } else {
                    &&& r is Some
                    &&& r->0.api_url@ == crate::ai::api_url_of(jview(old(self).config), provider_name@)
                    &&& jview(r->0.rule) == rule
                    &&& jview(r->0.payload) == payload_of(rule, old(self).model@, prompt@, old(self).model_name_of())
                    &&& final(self).state == old(self).state
                }
            }),
            final(self).storage == old(self).storage,
            final(self).config == old(self).config,
            final(self).fact_db == old(self).fact_db,
            final(self).provider == old(self).provider,
            final(self).model == old(self).model,
    {
        let api_url = crate::ai::get_api_url(self, provider_name);
        let model_name = self.get_model_name();
        let rule = self.select_rule(provider_name, self.model.as_str());
        let is_null = match rule {
            JsonValue::Null => true,
            _ => false,
        };
        if is_null {
            let mut d: Vec<(String, String)> = Vec::new();
            d.push(("model".to_owned(), self.model.clone()));
            d.push(("provider".to_owned(), provider_name.to_owned()));
            assert(details_view(d@) =~= seq![("model"@, old(self).model@), ("provider"@, provider_name@)]);
            self.state.set_state("rule-not-found".to_owned(), d);
            return None;
        }
        let request = match rule.get("request") {
            Some(x) => x.deep_clone(),
            None => JsonValue::Null,
        };
        let mut base: Vec<(String, JsonValue)> = Vec::new();
        let c = self.model.clone();
        let e = JsonValue::Str(c);
        assert(jview(e) == JsonView::Str(old(self).model@));
        let k = "model".to_owned();
        base.push((k, e));
        assert(base@ == seq![(k, e)]);
        let p = JsonValue::Object(base);
        assert(jview(p) == JsonView::Object(seq![("model"@, JsonView::Str(old(self).model@))])) by {
            if let JsonView::Object(x) = jview(p) {
                assert(x[0] == (k@, jview(e)));
                assert(x =~= seq![("model"@, JsonView::Str(old(self).model@))]);
            }
        }
        let m = merge(&p, &request);
        let mut payload = m;
        replace_placeholders(&mut payload, prompt, model_name.as_str());
        Some(ChatRequest { api_url, rule, payload })
    }

    /// What follows an answer that was read: its content handled (see
    /// `handle_chat_response`), or, without content, the message printed
    /// (see `failure_message`).
    pub fn chat_answer(&mut self, answer: &ParsedAnswer) -> (r: Vec<Effect>)
        requires
            old(self).wf(),
        ensures
            final(self).wf(),
            answer.success ==> exists|gen: Seq<u128>, chain: Seq<Ai>, parts: Seq<Seq<EffectView>>|
                #[trigger] old(self).answer_handled(&*final(self), answer.content@, effects_view(r@), gen, chain, parts),
            !answer.success ==> {
                &&& effects_view(r@) == seq![EffectView::Print(failure_message(answer.error@, answer.content@))]
                &&& *final(self) == *old(self)
            },
    {
        if answer.success {
            self.handle_chat_response(answer.content.as_str())
        } else {
            let text = if answer.error.as_str().is_empty() {
                answer.content.clone()
            } else {
                let nl = ['\n'];
                assert(nl@ == seq!['\n']);
                let mut v = chars_of(answer.error.as_str());
                append_chars(&mut v, &nl);
                let c = chars_of(answer.content.as_str());
                append_chars(&mut v, &c);
                string_of(&v)
            };
            let mut r: Vec<Effect> = Vec::new();
            r.push(Effect::Print { text });
            assert(effects_view(r@) =~= seq![EffectView::Print(failure_message(answer.error@, answer.content@))]);
            r
        }
    }

    /// Records a request that failed: the failure `api-error` with the
    /// error, the provider, the API URL and the proxy.
    pub fn chat_failed(&mut self, provider_name: &str, api_url: &str, error: &str)
        ensures
            final(self).state.view_failure() == Some(("api-error"@, seq![
                ("message"@, error@),
                ("provider"@, provider_name@),
                ("api"@, api_url@),
                ("proxy"@, crate::json::str_or(Some(crate::ai::config_value(jview(old(self).config), old(self).provider@, old(self).model@, seq!["proxy"@])), seq![])),
            ])),
            final(self).storage == old(self).storage,
            final(self).config == old(self).config,
    {
        let proxy = self.read_proxy();
        let mut d: Vec<(String, String)> = Vec::new();
        d.push(("message".to_owned(), error.to_owned()));
        d.push(("provider".to_owned(), provider_name.to_owned()));
        d.push(("api".to_owned(), api_url.to_owned()));
        d.push(("proxy".to_owned(), proxy));
        assert(details_view(d@) =~= seq![
            ("message"@, error@),
            ("provider"@, provider_name@),
            ("api"@, api_url@),
            ("proxy"@, crate::json::str_or(Some(crate::ai::config_value(jview(old(self).config), old(self).provider@, old(self).model@, seq!["proxy"@])), seq![])),
        ]);
        self.state.set_state("api-error".to_owned(), d);
    }
}


/// What reading an Ollama answer gives (error, content, prompt tokens,
/// answer tokens, success); `raw` is the answer trimmed and `parsed` its
/// reading as JSON.
pub open spec fn ollama_reading(raw: Seq<char>, parsed: Result<JsonView, Seq<char>>) -> (Seq<char>, Seq<char>, nat, nat, bool) {
    match parsed {
        Err(e) => (e, raw, 0, 0, false),
        Ok(json) => match obj_get(json, "error"@) {
            Some(err) => {
                let m = str_or(Some(err), "Unknown Ollama error"@);
                (m, m, 0, 0, false)
            },
            None => (
                seq![],
                trim(str_or(obj_get(json, "response"@), seq![])),
                match uint_of(obj_get(json, "prompt_eval_count"@), u64::MAX as nat) { Some(n) => n, None => 0 },
                match uint_of(obj_get(json, "eval_count"@), u64::MAX as nat) { Some(n) => n, None => 0 },
                true,
            ),
        },
    }
}

/// Reads an answer of Ollama (see `ollama_reading`): `raw` is the answer
/// and `parsed` the reading of `raw` trimmed as JSON. Ollama gives no
/// reasoning, billed or cached tokens.
pub fn parse_ollama_response(raw: &str, parsed: Result<JsonValue, String>) -> (r: ParsedAnswer)
    ensures
        ({
            let (error, content, tin, tout, success) = ollama_reading(trim(raw@), result_view(parsed));
            &&& r.error@ == error
            &&& r.content@ == content
            &&& r.tokens_in == tin && r.tokens_out == tout
            &&& r.tokens_billed == 0 && r.tokens_cached == 0
            &&& r.success == success
            &&& r.think@.len() == 0
        }),
{
    proof {
        reveal_strlit("");
        assert(""@ =~= Seq::<char>::empty());
    }
    let cs = chars_of(raw);
    let t = trim_chars(&cs);
    let raw_t = string_of(&t);
    match parsed {
        Err(e) => ParsedAnswer { error: e, think: String::new(), content: raw_t, tokens_in: 0, tokens_out: 0, tokens_billed: 0, tokens_cached: 0, success: false },
        Ok(json) => match json.get("error") {
            Some(err) => {
                let m = get_str(Some(err), "Unknown Ollama error");
                let c = m.clone();
                ParsedAnswer { error: m, think: String::new(), content: c, tokens_in: 0, tokens_out: 0, tokens_billed: 0, tokens_cached: 0, success: false }
            },
            None => {
                let resp = get_str(json.get("response"), "");
                let rc = chars_of(resp.as_str());
                let rt = trim_chars(&rc);
                let tin = crate::json::get_int(json.get("prompt_eval_count"), 0);
                let tout = crate::json::get_int(json.get("eval_count"), 0);
                ParsedAnswer { error: String::new(), think: String::new(), content: string_of(&rt), tokens_in: tin, tokens_out: tout, tokens_billed: 0, tokens_cached: 0, success: true }
            },
        },
    }
}

/// The request body Ollama is sent: the model, the prompt, no streaming.
pub fn ollama_payload(model: &str, prompt: &str) -> (r: JsonValue)
    ensures
        jview(r) == JsonView::Object(seq![
            ("model"@, JsonView::Str(model@)),
            ("prompt"@, JsonView::Str(prompt@)),
            ("stream"@, JsonView::Bool(false)),
        ]),
{
    let mut es: Vec<(String, JsonValue)> = Vec::new();
    let a = ("model".to_owned(), JsonValue::Str(model.to_owned()));
    let b = ("prompt".to_owned(), JsonValue::Str(prompt.to_owned()));
    let c = ("stream".to_owned(), JsonValue::Bool(false));
    es.push(a);
    es.push(b);
    es.push(c);
    assert(es@ == seq![a, b, c]);
    let r = JsonValue::Object(es);
    assert(jview(r) == JsonView::Object(seq![
        ("model"@, JsonView::Str(model@)),
        ("prompt"@, JsonView::Str(prompt@)),
        ("stream"@, JsonView::Bool(false)),
    ])) by {
        if let JsonView::Object(x) = jview(r) {
            assert(x[0] == (a.0@, jview(a.1)));
            assert(x[1] == (b.0@, jview(b.1)));
            assert(x[2] == (c.0@, jview(c.1)));
            assert(x =~= seq![
                ("model"@, JsonView::Str(model@)),
                ("prompt"@, JsonView::Str(prompt@)),
                ("stream"@, JsonView::Bool(false)),
            ]);
        }
    }
    r
}

} // verus!
