//! The session: configuration, current profile/provider/model/chat, the fact
//! storages, access rights and the status marks of the last answer, with the
//! lookups and decisions made over them. Reading files, the terminal and the
//! network is left to the caller, which hands the results in as plain values.
use crate::json::{bool_or, get_path, get_str, jview, keys_of, obj_get, path_get, str_or, uint_of, JsonValue, JsonView};
use crate::state::State;
use crate::storage::Storage;
use crate::text::{chars_of, join, join_chars, matches_at, replace, str_replace, str_replace_chars, string_of};
use vstd::prelude::*;

verus! {

broadcast use vstd::std_specs::vec::group_vec_axioms;

/// The colour a status mark or a message is shown in.
#[derive(PartialEq, Eq, Structural, Clone, Copy, Debug)]
pub enum Color {
    Default,
    White,
    Gray,
    Cyan,
    Magenta,
    Yellow,
    Red,
}

/// Whether `sub` occurs in `s` (`str::contains`; the empty string occurs in every string).
pub open spec fn contains_seq(s: Seq<char>, sub: Seq<char>) -> bool {
    exists|i: int| 0 <= i && i + sub.len() <= s.len() && #[trigger] s.subrange(i, i + sub.len()) == sub
}

/// Whether `sub` occurs in `s` (`str::contains`).
pub fn contains_str(s: &str, sub: &str) -> (r: bool)
    ensures
        r == contains_seq(s@, sub@),
{
    let v = chars_of(s);
    let p = chars_of(sub);
    let n = v.len();
    let mut i: usize = 0;
    while i < n
        invariant
            v@ == s@,
            p@ == sub@,
            n == v@.len(),
            i <= n,
            forall|j: int| 0 <= j < i && j + sub@.len() <= s@.len() ==> #[trigger] s@.subrange(j, j + sub@.len()) != sub@,
        decreases n - i,
    {
        if matches_at(&v, i, &p) {
            return true;
        }
        i = i + 1;
    }
    matches_at(&v, n, &p)
}

/// The colour of a status mark: red with `!`, else yellow with `-`, else
/// magenta with `^`, else cyan with `+`, else white.
pub open spec fn mnemo_color(t: Seq<char>) -> Color {
    if t.contains('!') {
        Color::Red
    } else if t.contains('-') {
        Color::Yellow
    } else if t.contains('^') {
        Color::Magenta
    } else if t.contains('+') {
        Color::Cyan
    } else {
        Color::White
    }
}

/// The words of the access letters `s`, `i`, `u`, `d` in `a`, in order;
/// other characters are skipped.
pub open spec fn access_words(a: Seq<char>) -> Seq<Seq<char>>
    decreases a.len(),
{
    if a.len() == 0 {
        seq![]
    } else {
        let rest = access_words(a.drop_last());
        let c = a.last();
        if c == 's' {
            rest.push("select"@)
        } else if c == 'i' {
            rest.push("insert"@)
        } else if c == 'u' {
            rest.push("update"@)
        } else if c == 'd' {
            rest.push("delete"@)
        } else {
            rest
        }
    }
}

/// The access letters of `a` as words joined by `|`, or `none`.
pub open spec fn access_text(a: Seq<char>) -> Seq<char> {
    if access_words(a).len() == 0 {
        "none"@
    } else {
        join(access_words(a), "|"@)
    }
}

/// A model id made safe for a file name: `/`, `\` and `.` become `_`.
pub open spec fn safe_model(m: Seq<char>) -> Seq<char> {
    replace(replace(replace(replace(m, "/"@, "_"@), "\\"@, "_"@), "."@, "_"@), ".."@, "_"@)
}

/// `t` with each `(placeholder, value)` pair replaced in turn.
pub open spec fn fill(t: Seq<char>, pairs: Seq<(Seq<char>, Seq<char>)>) -> Seq<char>
    decreases pairs.len(),
{
    if pairs.len() == 0 {
        t
    } else {
        str_replace(fill(t, pairs.drop_last()), pairs.last().0, pairs.last().1)
    }
}

/// `t` with each `(placeholder, value)` pair replaced in turn (an empty
/// placeholder is replaced as `str::replace` does).
pub fn fill_template(t: &str, pairs: &Vec<(String, String)>) -> (r: String)
    ensures
        r@ == fill(t@, pairs@.map_values(|p: (String, String)| (p.0@, p.1@))),
{
    let ghost ps = pairs@.map_values(|p: (String, String)| (p.0@, p.1@));
    let mut cur = chars_of(t);
    let mut i: usize = 0;
    assert(ps.take(0) == Seq::<(Seq<char>, Seq<char>)>::empty());
    while i < pairs.len()
        invariant
            ps == pairs@.map_values(|p: (String, String)| (p.0@, p.1@)),
            i <= pairs@.len(),
            cur@ == fill(t@, ps.take(i as int)),
        decreases pairs@.len() - i,
    {
        let pat = chars_of(pairs[i].0.as_str());
        let rep = chars_of(pairs[i].1.as_str());
        assert(ps.take(i + 1).drop_last() == ps.take(i as int));
        cur = str_replace_chars(&cur, &pat, &rep);
        i = i + 1;
    }
    assert(ps.take(pairs@.len() as int) == ps);
    string_of(&cur)
}

/// The keys of `v` without repeats, first occurrence kept.
pub open spec fn dedup(v: Seq<Seq<char>>) -> Seq<Seq<char>>
    decreases v.len(),
{
    if v.len() == 0 {
        seq![]
    } else {
        let d = dedup(v.drop_last());
        if d.contains(v.last()) {
            d
        } else {
            d.push(v.last())
        }
    }
}

/// `v[k]` as serde indexes a value: the member `k` of an object, else null.
pub open spec fn member(v: JsonView, k: Seq<char>) -> JsonView {
    match obj_get(v, k) {
        Some(x) => x,
        None => JsonView::Null,
    }
}

/// The value at `keys` under `v`, or null where the path is missing.
pub open spec fn at_path(v: JsonView, keys: Seq<Seq<char>>) -> JsonView {
    match path_get(v, keys) {
        Some(x) => x,
        None => JsonView::Null,
    }
}

/// Whether a rule applies to `provider` and `model`: its `provider` and
/// `model` strings (`*` when absent) are `*` or equal them.
pub open spec fn rule_matches(rule: JsonView, provider: Seq<char>, model: Seq<char>) -> bool {
    let rp = str_or(Some(member(rule, "provider"@)), "*"@);
    let rm = str_or(Some(member(rule, "model"@)), "*"@);
    (rp == "*"@ || rp == provider) && (rm == "*"@ || rm == model)
}

/// Index of the first rule among `rules` that applies, or -1.
pub open spec fn first_rule(rules: Seq<JsonView>, provider: Seq<char>, model: Seq<char>) -> int
    decreases rules.len(),
{
    if rules.len() == 0 {
        -1
    } else if rule_matches(rules[0], provider, model) {
        0
    } else {
        let r = first_rule(rules.drop_first(), provider, model);
        if r < 0 {
            -1
        } else {
            r + 1
        }
    }
}

/// The rule that `application.ai.rules` gives for `provider` and `model`:
/// the first that applies, or null.
pub open spec fn selected_rule(config: JsonView, provider: Seq<char>, model: Seq<char>) -> JsonView {
    match at_path(config, seq!["application"@, "ai"@, "rules"@]) {
        JsonView::Array(rules) => {
            let i = first_rule(rules, provider, model);
            if i >= 0 {
                rules[i]
            } else {
                JsonView::Null
            }
        },
        _ => JsonView::Null,
    }
}

/// A configuration value: from the selected rule where it has the path,
/// else from the configuration, else null.
pub open spec fn config_value(config: JsonView, provider: Seq<char>, model: Seq<char>, keys: Seq<Seq<char>>) -> JsonView {
    let rule = selected_rule(config, provider, model);
    if rule != JsonView::Null && path_get(rule, keys) is Some {
        path_get(rule, keys)->0
    } else {
        at_path(config, keys)
    }
}

pub open spec fn keys_view(keys: Seq<&str>) -> Seq<Seq<char>> {
    keys.map_values(|k: &str| k@)
}

/// The session.
pub struct Ai {
    /// The configuration, as read from file and command line.
    pub config: JsonValue,
    /// Ok, or the last failure.
    pub state: State,
    /// The directory that holds the profiles (empty when none was found).
    pub profiles_path: String,
    pub profile: String,
    pub provider: String,
    pub model: String,
    pub chat: String,
    pub memory_id: String,
    pub prompt_id: String,
    pub fact_delimiter: String,
    /// The status marks of this session, with their colours.
    pub status: Vec<(Color, String)>,
    /// The facts of the prompt.
    pub storage: Storage,
    /// The built-in facts that prompts are built from.
    pub fact_db: Storage,
    pub access_access: String,
    pub access_history: String,
    pub access_memory: String,
    pub access_prompt: String,
    pub access_shell: String,
    pub access_clipboard: String,
    pub access_read: String,
    pub access_write: String,
    pub no_prompt: bool,
    pub no_history: bool,
    pub no_memory: bool,
    /// Which file each write fact goes to: (fact id, file path), one row
    /// per fact id. Setting an id replaces its row (see `run::set_pair`) and
    /// a lookup takes its row, so the table acts as a map from id to path.
    pub write_translation: Vec<(String, String)>,
    pub colorize: bool,
}

impl Ai {
    /// The session's invariant: both storages are well formed.
    pub open spec fn wf(&self) -> bool {
        self.storage.wf() && self.fact_db.wf()
    }

    /// A new session: profile `default`, delimiter `#FACT`, empty storages,
    /// the default access rights, colours on.
    pub fn create(config: JsonValue) -> (r: Ai)
        ensures
            r.wf(),
            jview(r.config) == jview(config),
            r.state.view_failure() is None,
            r.profiles_path@ == Seq::<char>::empty(),
            r.profile@ == "default"@,
            r.fact_delimiter@ == "#FACT"@,
            r.provider@.len() == 0 && r.model@.len() == 0 && r.chat@.len() == 0,
            r.memory_id@.len() == 0 && r.prompt_id@.len() == 0,
            r.status@.len() == 0,
            r.storage.entries().len() == 0 && r.fact_db.entries().len() == 0,
            r.access_access@ == "s"@ && r.access_history@ == "si"@ && r.access_memory@ == "s"@,
            r.access_prompt@ == "s"@ && r.access_shell@ == "i"@ && r.access_clipboard@ == "i"@,
            r.access_read@ == "s"@ && r.access_write@ == "su"@,
            !r.no_history && !r.no_memory && !r.no_prompt,
            r.write_translation@.len() == 0,
            r.colorize,
    {
        Ai {
            config,
            state: State::ok(),
            profiles_path: String::new(),
            profile: "default".to_owned(),
            provider: String::new(),
            model: String::new(),
            chat: String::new(),
            memory_id: String::new(),
            prompt_id: String::new(),
            fact_delimiter: "#FACT".to_owned(),
            status: Vec::new(),
            storage: Storage::new(),
            fact_db: Storage::new(),
            access_access: "s".to_owned(),
            access_history: "si".to_owned(),
            access_memory: "s".to_owned(),
            access_prompt: "s".to_owned(),
            access_shell: "i".to_owned(),
            access_clipboard: "i".to_owned(),
            access_read: "s".to_owned(),
            access_write: "su".to_owned(),
            no_prompt: false,
            no_history: false,
            no_memory: false,
            write_translation: Vec::new(),
            colorize: true,
        }
    }

    /// Whether the rights `rights` hold `right` (a substring test).
    pub fn check_access(rights: &str, right: &str) -> (r: bool)
        ensures
            r == contains_seq(rights@, right@),
    {
        contains_str(rights, right)
    }

    /// Pushes the status mark `text` with its colour (see `mnemo_color`).
    pub fn mnemo(&mut self, text: &str)
        ensures
            final(self).status@ == old(self).status@.push((mnemo_color(text@), final(self).status@.last().1)),
            final(self).status@.last().1@ == text@,
            final(self).config == old(self).config,
            final(self).storage == old(self).storage,
            final(self).state == old(self).state,
    {
        let cs = chars_of(text);
        let mut color = Color::White;
        if crate::text::contains_char(&cs, '+') {
            color = Color::Cyan;
        }
        if crate::text::contains_char(&cs, '^') {
            color = Color::Magenta;
        }
        if crate::text::contains_char(&cs, '-') {
            color = Color::Yellow;
        }
        if crate::text::contains_char(&cs, '!') {
            color = Color::Red;
        }
        proof {
            assert(crate::text::has_char(text@, '!') == text@.contains('!'));
            assert(crate::text::has_char(text@, '-') == text@.contains('-'));
            assert(crate::text::has_char(text@, '^') == text@.contains('^'));
            assert(crate::text::has_char(text@, '+') == text@.contains('+'));
        }
        self.status.push((color, text.to_owned()));
    }
}


/// The three keys `a`, `b`, `c`.
pub(crate) fn keys3<'a>(a: &'a str, b: &'a str, c: &'a str) -> (r: Vec<&'a str>)
    ensures
        keys_view(r@) == seq![a@, b@, c@],
{
    let mut r: Vec<&str> = Vec::new();
    r.push(a);
    r.push(b);
    r.push(c);
    assert(keys_view(r@) =~= seq![a@, b@, c@]);
    r
}

/// The single key `a`.
pub(crate) fn keys1<'a>(a: &'a str) -> (r: Vec<&'a str>)
    ensures
        keys_view(r@) == seq![a@],
{
    let mut r: Vec<&str> = Vec::new();
    r.push(a);
    assert(keys_view(r@) =~= seq![a@]);
    r
}

/// The string of member `k` of `v`, else `d`.
fn member_str(v: &JsonValue, k: &str, d: &str) -> (r: String)
    ensures
        r@ == str_or(Some(member(jview(*v), k@)), d@),
{
    get_str(v.get(k), d)
}

impl Ai {
    /// The rule for `provider` and `model` (see `selected_rule`), null when none applies.
    pub fn select_rule(&self, provider: &str, model: &str) -> (r: JsonValue)
        ensures
            jview(r) == selected_rule(jview(self.config), provider@, model@),
    {
        let ks = keys3("application", "ai", "rules");
        proof {
            reveal_strlit("application");
            reveal_strlit("ai");
            reveal_strlit("rules");
        }
        match get_path(&self.config, ks.as_slice()) {
            Some(JsonValue::Array(rules)) => {
                let ghost rv = match at_path(jview(self.config), seq!["application"@, "ai"@, "rules"@]) {
                    JsonView::Array(x) => x,
                    _ => seq![],
                };
                assert(rv =~= Seq::new(rules@.len(), |i: int| if 0 <= i < rules@.len() { jview(rules@[i]) } else { JsonView::Null }));
                let mut i: usize = 0;
                while i < rules.len()
                    invariant
                        rv.len() == rules@.len(),
                        forall|j: int| 0 <= j < rules@.len() ==> rv[j] == jview(#[trigger] rules@[j]),
                        i <= rules@.len(),
                        forall|j: int| 0 <= j < i ==> !rule_matches(#[trigger] rv[j], provider@, model@),
                        match at_path(jview(self.config), seq!["application"@, "ai"@, "rules"@]) {
                            JsonView::Array(x) => x == rv,
                            _ => false,
                        },
                    decreases rules@.len() - i,
                {
                    let rp = member_str(&rules[i], "provider", "*");
                    let rm = member_str(&rules[i], "model", "*");
                    proof {
                        reveal_strlit("provider");
                        reveal_strlit("model");
                        reveal_strlit("*");
                    }
                    let pm = crate::text::str_eq(rp.as_str(), "*") || crate::text::str_eq(rp.as_str(), provider);
                    let mm = crate::text::str_eq(rm.as_str(), "*") || crate::text::str_eq(rm.as_str(), model);
                    assert(rv[i as int] == jview(rules@[i as int]));
                    if pm && mm {
                        proof {
                            lemma_first_rule_at(rv, provider@, model@, i as int);
                        }
                        return rules[i].deep_clone();
                    }
                    i = i + 1;
                }
                proof {
                    lemma_first_rule_at(rv, provider@, model@, -1);
                }
                JsonValue::Null
            },
            _ => JsonValue::Null,
        }
    }

    /// The configuration value at `keys` (see `config_value`).
    pub fn get_config_value(&self, keys: &[&str]) -> (r: JsonValue)
        ensures
            jview(r) == config_value(jview(self.config), self.provider@, self.model@, keys_view(keys@)),
    {
        let rule = self.select_rule(self.provider.as_str(), self.model.as_str());
        let is_null = match rule {
            JsonValue::Null => true,
            _ => false,
        };
        if !is_null {
            match get_path(&rule, keys) {
                Some(v) => {
                    return v.deep_clone();
                },
                None => {},
            }
        }
        match get_path(&self.config, keys) {
            Some(v) => v.deep_clone(),
            None => JsonValue::Null,
        }
    }

    /// The boolean configuration value at `keys`, else `d`.
    pub fn get_config_bool(&self, keys: &[&str], d: bool) -> (r: bool)
        ensures
            r == bool_or(Some(config_value(jview(self.config), self.provider@, self.model@, keys_view(keys@))), d),
    {
        let v = self.get_config_value(keys);
        crate::json::get_bool(Some(&v), d)
    }

    /// The string configuration value at `keys`, else `d`.
    pub fn get_config_str(&self, keys: &[&str], d: &str) -> (r: String)
        ensures
            r@ == str_or(Some(config_value(jview(self.config), self.provider@, self.model@, keys_view(keys@))), d@),
    {
        let v = self.get_config_value(keys);
        get_str(Some(&v), d)
    }

    /// The unsigned configuration value at `keys`, else `d`.
    pub fn get_config_int(&self, keys: &[&str], d: u64) -> (r: u64)
        ensures
            r == match uint_of(Some(config_value(jview(self.config), self.provider@, self.model@, keys_view(keys@))), u64::MAX as nat) {
                Some(n) => n,
                None => d as nat,
            },
    {
        let v = self.get_config_value(keys);
        crate::json::get_int(Some(&v), d)
    }

    /// The size configuration value at `keys`, else `d`.
    pub fn get_config_size(&self, keys: &[&str], d: usize) -> (r: usize)
        ensures
            r == match uint_of(Some(config_value(jview(self.config), self.provider@, self.model@, keys_view(keys@))), usize::MAX as nat) {
                Some(n) => n,
                None => d as nat,
            },
    {
        let v = self.get_config_value(keys);
        crate::json::get_size(Some(&v), d)
    }
}

/// `first_rule` is the first index whose rule applies.
pub proof fn lemma_first_rule_at(rules: Seq<JsonView>, provider: Seq<char>, model: Seq<char>, i: int)
    requires
        -1 <= i < rules.len(),
        i >= 0 ==> rule_matches(rules[i], provider, model),
        forall|j: int| 0 <= j < rules.len() && (i < 0 || j < i) ==> !rule_matches(#[trigger] rules[j], provider, model),
    ensures
        first_rule(rules, provider, model) == i,
    decreases rules.len(),
{
    if rules.len() > 0 && i != 0 {
        assert(!rule_matches(rules[0], provider, model));
        assert forall|j: int| 0 <= j < rules.drop_first().len() && (i - 1 < 0 || j < i - 1) implies !rule_matches(#[trigger] rules.drop_first()[j], provider, model) by {
            assert(rules.drop_first()[j] == rules[j + 1]);
        }
        if i > 0 {
            assert(rules.drop_first()[i - 1] == rules[i]);
            lemma_first_rule_at(rules.drop_first(), provider, model, i - 1);
        } else {
            lemma_first_rule_at(rules.drop_first(), provider, model, -1);
        }
    }
}


/// The five keys `a`..`e`.
pub(crate) fn keys5<'a>(a: &'a str, b: &'a str, c: &'a str, d: &'a str, e: &'a str) -> (r: Vec<&'a str>)
    ensures
        keys_view(r@) == seq![a@, b@, c@, d@, e@],
{
    let mut r: Vec<&str> = Vec::new();
    r.push(a);
    r.push(b);
    r.push(c);
    r.push(d);
    r.push(e);
    assert(keys_view(r@) =~= seq![a@, b@, c@, d@, e@]);
    r
}

/// The four keys `a`..`d`.
pub(crate) fn keys4<'a>(a: &'a str, b: &'a str, c: &'a str, d: &'a str) -> (r: Vec<&'a str>)
    ensures
        keys_view(r@) == seq![a@, b@, c@, d@],
{
    let mut r: Vec<&str> = Vec::new();
    r.push(a);
    r.push(b);
    r.push(c);
    r.push(d);
    assert(keys_view(r@) =~= seq![a@, b@, c@, d@]);
    r
}

/// The value at `keys`, or null.
pub(crate) fn value_at<'a>(v: &'a JsonValue, keys: &[&str]) -> (r: JsonValue)
    ensures
        jview(r) == at_path(jview(*v), keys_view(keys@)),
{
    match get_path(v, keys) {
        Some(x) => x.deep_clone(),
        None => JsonValue::Null,
    }
}

/// The keys of `v` without repeats, first occurrence kept.
pub fn dedup_strings(v: &Vec<String>) -> (r: Vec<String>)
    ensures
        r@.map_values(|s: String| s@) == dedup(v@.map_values(|s: String| s@)),
{
    let ghost vs = v@.map_values(|s: String| s@);
    let mut r: Vec<String> = Vec::new();
    let mut i: usize = 0;
    assert(vs.take(0) =~= Seq::<Seq<char>>::empty());
    assert(r@.map_values(|s: String| s@) =~= Seq::<Seq<char>>::empty());
    while i < v.len()
        invariant
            vs == v@.map_values(|s: String| s@),
            i <= v@.len(),
            r@.map_values(|s: String| s@) == dedup(vs.take(i as int)),
        decreases v@.len() - i,
    {
        let ghost rv = r@.map_values(|s: String| s@);
        assert(vs.take(i + 1).drop_last() =~= vs.take(i as int));
        assert(vs.take(i + 1).last() == v@[i as int]@);
        let mut found = false;
        let mut j: usize = 0;
        while j < r.len()
            invariant
                rv == r@.map_values(|s: String| s@),
                i < v@.len(),
                j <= r@.len(),
                found == (exists|k: int| 0 <= k < j && rv[k] == v@[i as int]@),
            decreases r@.len() - j,
        {
            if crate::text::str_eq(r[j].as_str(), v[i].as_str()) {
                found = true;
            }
            assert(rv[j as int] == r@[j as int]@);
            j = j + 1;
        }
        proof {
            if found {
                let k = choose|k: int| 0 <= k < r@.len() && rv[k] == v@[i as int]@;
                assert(rv.contains(v@[i as int]@)) by {
                    assert(rv[k] == v@[i as int]@);
                }
            } else {
                assert(!rv.contains(v@[i as int]@)) by {
                    if rv.contains(v@[i as int]@) {
                        let k = choose|k: int| 0 <= k < rv.len() && rv[k] == v@[i as int]@;
                        assert(rv[k] == v@[i as int]@);
                    }
                }
            }
        }
        if !found {
            r.push(v[i].clone());
            assert(r@.map_values(|s: String| s@) =~= rv.push(v@[i as int]@));
        }
        i = i + 1;
    }
    assert(vs.take(v@.len() as int) =~= vs);
    r
}

/// The model ids configured for a provider (`application.ai.providers.<p>.models`).
pub open spec fn models_of(config: JsonView, provider: Seq<char>) -> Seq<Seq<char>> {
    keys_of(Some(at_path(config, seq!["application"@, "ai"@, "providers"@, provider, "models"@])))
}

/// The API URL configured for a provider, else empty.
pub open spec fn api_url_of(config: JsonView, provider: Seq<char>) -> Seq<char> {
    str_or(Some(at_path(config, seq!["application"@, "ai"@, "providers"@, provider, "api"@])), seq![])
}

/// The API URL configured for `provider_name`, empty when there is none.
pub fn get_api_url(ai: &Ai, provider_name: &str) -> (r: String)
    ensures
        r@ == api_url_of(jview(ai.config), provider_name@),
{
    let ks = keys5("application", "ai", "providers", provider_name, "api");
    proof {
        reveal_strlit("application");
        reveal_strlit("ai");
        reveal_strlit("providers");
        reveal_strlit("api");
        reveal_strlit("");
    }
    let v = value_at(&ai.config, ks.as_slice());
    get_str(Some(&v), "")
}

impl Ai {
    /// The request timeout in milliseconds (`request-timeout-ms`, 30000).
    pub fn get_request_timeout_ms(&self) -> (r: u64)
        ensures
            r == match uint_of(Some(config_value(jview(self.config), self.provider@, self.model@, seq!["request-timeout-ms"@])), u64::MAX as nat) {
                Some(n) => n,
                None => 30000,
            },
    {
        let ks = keys1("request-timeout-ms");
        self.get_config_int(ks.as_slice(), 30000)
    }

    /// The connect timeout in milliseconds (`connect-timeout-ms`, 10000).
    pub fn get_connect_timeout_ms(&self) -> (r: u64)
        ensures
            r == match uint_of(Some(config_value(jview(self.config), self.provider@, self.model@, seq!["connect-timeout-ms"@])), u64::MAX as nat) {
                Some(n) => n,
                None => 10000,
            },
    {
        let ks = keys1("connect-timeout-ms");
        self.get_config_int(ks.as_slice(), 10000)
    }

    /// The largest prompt in bytes (`max-prompt-bytes`, 100000).
    pub fn get_max_prompt_bytes(&self) -> (r: usize)
        ensures
            r == match uint_of(Some(config_value(jview(self.config), self.provider@, self.model@, seq!["max-prompt-bytes"@])), usize::MAX as nat) {
                Some(n) => n,
                None => 100000,
            },
    {
        let ks = keys1("max-prompt-bytes");
        self.get_config_size(ks.as_slice(), 100000)
    }

    /// The proxy for the current provider (`proxy`), empty when none.
    pub fn read_proxy(&self) -> (r: String)
        ensures
            r@ == str_or(Some(config_value(jview(self.config), self.provider@, self.model@, seq!["proxy"@])), seq![]),
    {
        let ks = keys1("proxy");
        proof {
            reveal_strlit("");
        }
        self.get_config_str(ks.as_slice(), "")
    }

    /// The model ids configured for `provider`.
    pub fn get_models(&self, provider: &str) -> (r: Vec<String>)
        ensures
            r@.map_values(|s: String| s@) == models_of(jview(self.config), provider@),
    {
        let ks = keys5("application", "ai", "providers", provider, "models");
        proof {
            reveal_strlit("application");
            reveal_strlit("ai");
            reveal_strlit("providers");
            reveal_strlit("models");
        }
        let v = value_at(&self.config, ks.as_slice());
        v.keys()
    }

    /// The configured provider names.
    pub fn get_providers(&self) -> (r: Vec<String>)
        ensures
            r@.map_values(|s: String| s@) == keys_of(Some(at_path(jview(self.config), seq!["application"@, "ai"@, "providers"@]))),
    {
        let ks = keys3("application", "ai", "providers");
        proof {
            reveal_strlit("application");
            reveal_strlit("ai");
            reveal_strlit("providers");
        }
        let v = value_at(&self.config, ks.as_slice());
        v.keys()
    }

    /// Whether the provider `id` is configured (with a value that is not null).
    pub fn provider_exists(&self, id: &str) -> (r: bool)
        ensures
            r == (at_path(jview(self.config), seq!["application"@, "ai"@, "providers"@, id@]) != JsonView::Null),
    {
        let ks = keys4("application", "ai", "providers", id);
        proof {
            reveal_strlit("application");
            reveal_strlit("ai");
            reveal_strlit("providers");
        }
        let v = value_at(&self.config, ks.as_slice());
        match v {
            JsonValue::Null => false,
            _ => true,
        }
    }

    /// The model name that the current model id stands for, else `unknown`.
    pub fn get_model_name(&self) -> (r: String)
        ensures
            r@ == str_or(Some(at_path(jview(self.config), seq!["application"@, "ai"@, "providers"@, self.provider@, "models"@, self.model@])), "unknown"@),
    {
        let mut ks = keys5("application", "ai", "providers", self.provider.as_str(), "models");
        let ghost before = ks@;
        let m = self.model.as_str();
        ks.push(m);
        assert(ks@ == before.push(m));
        assert(keys_view(ks@) =~= keys_view(before).push(m@));
        assert(keys_view(ks@) =~= seq!["application"@, "ai"@, "providers"@, self.provider@, "models"@, self.model@]);
        proof {
            reveal_strlit("application");
            reveal_strlit("ai");
            reveal_strlit("providers");
            reveal_strlit("models");
        }
        let v = value_at(&self.config, ks.as_slice());
        get_str(Some(&v), "unknown")
    }

    /// The names of the prompt templates in the configuration (`prompts`), without repeats.
    pub fn get_prompt_templates(&self) -> (r: Vec<String>)
        ensures
            r@.map_values(|s: String| s@) == dedup(keys_of(Some(at_path(jview(self.config), seq!["prompts"@])))),
    {
        let ks = keys1("prompts");
        let v = value_at(&self.config, ks.as_slice());
        let names = v.keys();
        dedup_strings(&names)
    }

    /// The model id made safe for a file name (see `safe_model`).
    pub fn get_model_safe(&self) -> (r: String)
        ensures
            r@ == safe_model(self.model@),
    {
        let mut pairs: Vec<(String, String)> = Vec::new();
        pairs.push(("/".to_owned(), "_".to_owned()));
        pairs.push(("\\".to_owned(), "_".to_owned()));
        pairs.push((".".to_owned(), "_".to_owned()));
        pairs.push(("..".to_owned(), "_".to_owned()));
        proof {
            reveal_strlit("/");
            reveal_strlit("\\");
            reveal_strlit(".");
            reveal_strlit("..");
            reveal_strlit("_");
            reveal_with_fuel(fill, 5);
            assert(pairs@.map_values(|p: (String, String)| (p.0@, p.1@)) =~= seq![("/"@, "_"@), ("\\"@, "_"@), ("."@, "_"@), (".."@, "_"@)]);
        }
        fill_template(self.model.as_str(), &pairs)
    }

    /// The access letters of `access` as words (see `access_text`).
    pub fn access_to_str(&self, access: &str) -> (r: String)
        ensures
            r@ == access_text(access@),
    {
        let cs = chars_of(access);
        let mut words: Vec<Vec<char>> = Vec::new();
        let mut i: usize = 0;
        assert(cs@.take(0) =~= Seq::<char>::empty());
        assert(words@.map_values(|w: Vec<char>| w@) =~= Seq::<Seq<char>>::empty());
        while i < cs.len()
            invariant
                cs@ == access@,
                i <= cs@.len(),
                words@.map_values(|w: Vec<char>| w@) == access_words(cs@.take(i as int)),
            decreases cs@.len() - i,
        {
            let ghost before = words@.map_values(|w: Vec<char>| w@);
            assert(cs@.take(i + 1).drop_last() =~= cs@.take(i as int));
            assert(cs@.take(i + 1).last() == cs@[i as int]);
            let c = cs[i];
            proof {
                reveal_strlit("select");
                reveal_strlit("insert");
                reveal_strlit("update");
                reveal_strlit("delete");
            }
            if c == 's' {
                words.push(chars_of("select"));
            } else if c == 'i' {
                words.push(chars_of("insert"));
            } else if c == 'u' {
                words.push(chars_of("update"));
            } else if c == 'd' {
                words.push(chars_of("delete"));
            }
            if c == 's' || c == 'i' || c == 'u' || c == 'd' {
                assert(words@.map_values(|w: Vec<char>| w@) =~= before.push(words@.last()@));
            } else {
                assert(words@.map_values(|w: Vec<char>| w@) =~= before);
            }
            i = i + 1;
        }
        assert(cs@.take(cs@.len() as int) =~= cs@);
        proof {
            reveal_strlit("none");
            reveal_strlit("|");
        }
        if words.len() == 0 {
            "none".to_owned()
        } else {
            let bar = chars_of("|");
            let joined = join_chars(&words, &bar);
            string_of(&joined)
        }
    }
}


impl Ai {
    /// The string configuration value at the single key `key`, else `d`.
    pub open spec fn cfg_str(&self, key: Seq<char>, d: Seq<char>) -> Seq<char> {
        str_or(Some(config_value(jview(self.config), self.provider@, self.model@, seq![key])), d)
    }

    /// The directory of the current profile.
    pub open spec fn profile_path_of(&self) -> Seq<char> {
        self.profiles_path@ + "/profiles/"@ + self.profile@
    }

    /// The directory of the current profile (`<profiles>/profiles/<profile>`).
    pub fn profile_path(&self) -> (r: String)
        ensures
            r@ == self.profile_path_of(),
    {
        let mut v = chars_of(self.profiles_path.as_str());
        let a = chars_of("/profiles/");
        let b = chars_of(self.profile.as_str());
        crate::text::append_chars(&mut v, &a);
        crate::text::append_chars(&mut v, &b);
        string_of(&v)
    }

    /// The file that names the current profile (`<profiles>/profile.txt`).
    pub fn profile_file(&self) -> (r: String)
        ensures
            r@ == self.profiles_path@ + "/profile.txt"@,
    {
        let mut v = chars_of(self.profiles_path.as_str());
        let a = chars_of("/profile.txt");
        crate::text::append_chars(&mut v, &a);
        string_of(&v)
    }

    /// The configuration file of the current profile (`<profile path>/config.yaml`).
    pub fn config_file(&self) -> (r: String)
        ensures
            r@ == self.profile_path_of() + "/config.yaml"@,
    {
        let p = self.profile_path();
        let mut v = chars_of(p.as_str());
        let a = chars_of("/config.yaml");
        crate::text::append_chars(&mut v, &a);
        string_of(&v)
    }
}

impl Ai {
    /// The `chat-file` path before `~` is expanded: `%profile-path%/chat.txt` unless configured.
    pub open spec fn chat_file_of(&self) -> Seq<char>
    {
        fill(self.cfg_str("chat-file"@, "%profile-path%/chat.txt"@), seq![("%profile-path%"@, self.profile_path_of()), ("%profile%"@, self.profile@)])
    }

    /// The `chats-path` path before `~` is expanded: `%profile-path%/chats` unless configured.
    pub open spec fn chats_path_of(&self) -> Seq<char>
    {
        fill(self.cfg_str("chats-path"@, "%profile-path%/chats"@), seq![("%profile-path%"@, self.profile_path_of())])
    }

    /// The `chat-path` path before `~` is expanded: `%chats-path%/%chat%` unless configured.
    pub open spec fn chat_path_of(&self, chat_id: Seq<char>) -> Seq<char>
    {
        fill(self.cfg_str("chat-path"@, "%chats-path%/%chat%"@), seq![("%profile-path%"@, self.profile_path_of()), ("%chats-path%"@, self.chats_path_of()), ("%chat%"@, chat_id)])
    }

    /// The `model-file` path before `~` is expanded: `%profile-path%/chats/%chat%/models/%provider%.txt` unless configured.
    pub open spec fn model_file_path_of(&self) -> Seq<char>
    {
        fill(self.cfg_str("model-file"@, "%profile-path%/chats/%chat%/models/%provider%.txt"@), seq![("%profile-path%"@, self.profile_path_of()), ("%profile%"@, self.profile@), ("%provider%"@, self.provider@), ("%chat%"@, self.chat@)])
    }

    /// The `provider-file` path before `~` is expanded: `%profile-path%/chats/%chat%/provider.txt` unless configured.
    pub open spec fn provider_file_of(&self) -> Seq<char>
    {
        fill(self.cfg_str("provider-file"@, "%profile-path%/chats/%chat%/provider.txt"@), seq![("%profile-path%"@, self.profile_path_of()), ("%profile%"@, self.profile@), ("%chat%"@, self.chat@)])
    }

    /// The `memory-path` path before `~` is expanded: `%profile-path%/memory` unless configured.
    pub open spec fn memory_path_of(&self) -> Seq<char>
    {
        fill(self.cfg_str("memory-path"@, "%profile-path%/memory"@), seq![("%profile-path%"@, self.profile_path_of()), ("%chat%"@, self.chat@)])
    }

    /// The `memory-file` path before `~` is expanded: `%memory-path%/%memory-id%.txt` unless configured.
    pub open spec fn memory_file_of(&self) -> Seq<char>
    {
        fill(self.cfg_str("memory-file"@, "%memory-path%/%memory-id%.txt"@), seq![("%memory-path%"@, self.memory_path_of()), ("%profile-path%"@, self.profile_path_of()), ("%profile%"@, self.profile@), ("%provider%"@, self.provider@), ("%model%"@, safe_model(self.model@)), ("%memory-id%"@, self.memory_id@), ("%chat%"@, self.chat@)])
    }

    /// The `memory-of-chat-file` path before `~` is expanded: `%profile-path%/chats/%chat%/memory.txt` unless configured.
    pub open spec fn memory_of_chat_file_of(&self) -> Seq<char>
    {
        fill(self.cfg_str("memory-of-chat-file"@, "%profile-path%/chats/%chat%/memory.txt"@), seq![("%profile-path%"@, self.profile_path_of()), ("%profile%"@, self.profile@), ("%provider%"@, self.provider@), ("%model%"@, safe_model(self.model@)), ("%memory-id%"@, self.memory_id@), ("%chat%"@, self.chat@)])
    }

    /// The `history` path before `~` is expanded: `%chat-path%/history.txt` unless configured.
    pub open spec fn history_file_path_of(&self) -> Seq<char>
    {
        fill(self.cfg_str("history"@, "%chat-path%/history.txt"@), seq![("%chat-path%"@, self.chat_path_of(self.chat@)), ("%profile-path%"@, self.profile_path_of()), ("%profile%"@, self.profile@), ("%model%"@, safe_model(self.model@)), ("%provider%"@, self.provider@), ("%chat%"@, self.chat@)])
    }

    /// The `prompt-file-id` path before `~` is expanded: `%chat-path%/prompt.txt` unless configured.
    pub open spec fn prompt_file_of(&self, chat_id: Seq<char>) -> Seq<char>
    {
        fill(self.cfg_str("prompt-file-id"@, "%chat-path%/prompt.txt"@), seq![("%chat-path%"@, self.chat_path_of(chat_id)), ("%profile%"@, self.profile@), ("%chat%"@, self.chat@), ("%provider%"@, self.provider@), ("%model%"@, safe_model(self.model@))])
    }

    /// The `prompts-path` path before `~` is expanded: `%chat-path%/prompts/` unless configured.
    pub open spec fn prompts_path_of(&self, chat_id: Seq<char>) -> Seq<char>
    {
        fill(self.cfg_str("prompts-path"@, "%chat-path%/prompts/"@), seq![("%chat-path%"@, self.chat_path_of(chat_id)), ("%profile-path%"@, self.profile_path_of()), ("%profile%"@, self.profile@), ("%chat%"@, chat_id), ("%provider%"@, self.provider@), ("%model%"@, safe_model(self.model@))])
    }

    /// The `prompt-file` path before `~` is expanded: `%profile-path%/chats/%chat%/prompts/%prompt%.txt` unless configured.
    pub open spec fn prompt_content_file_of(&self) -> Seq<char>
    {
        fill(self.cfg_str("prompt-file"@, "%profile-path%/chats/%chat%/prompts/%prompt%.txt"@), seq![("%profile-path%"@, self.profile_path_of()), ("%profile%"@, self.profile@), ("%provider%"@, self.provider@), ("%model%"@, self.model@), ("%chat%"@, self.chat@), ("%prompt%"@, self.prompt_id@)])
    }

    /// The `token` path before `~` is expanded: `~/.config/ai/app/cli/%profile%/tokens/%provider%.txt` unless configured.
    pub open spec fn token_path_of(&self) -> Seq<char>
    {
        fill(self.cfg_str("token"@, "~/.config/ai/app/cli/%profile%/tokens/%provider%.txt"@), seq![("%profile-path%"@, self.profile_path_of()), ("%profile%"@, self.profile@), ("%chat%"@, self.chat@), ("%provider%"@, self.provider@), ("%model%"@, safe_model(self.model@))])
    }

    /// The `chat-file` path before `~` is expanded (see `chat_file_of`).
    pub fn chat_file(&self) -> (r: String)
        ensures
            r@ == self.chat_file_of(),
    {
        let mut pairs: Vec<(String, String)> = Vec::new();
        pairs.push(("%profile-path%".to_owned(), self.profile_path()));
        pairs.push(("%profile%".to_owned(), self.profile.clone()));
        let ks = keys1("chat-file");
        proof {
            reveal_strlit("%profile%");
            reveal_strlit("%profile-path%");
            reveal_strlit("%profile-path%/chat.txt");
            reveal_strlit("chat-file");
            assert(pairs@.map_values(|p: (String, String)| (p.0@, p.1@)) =~= seq![("%profile-path%"@, self.profile_path_of()), ("%profile%"@, self.profile@)]);
        }
        let t = self.get_config_str(ks.as_slice(), "%profile-path%/chat.txt");
        fill_template(t.as_str(), &pairs)
    }

    /// The `chats-path` path before `~` is expanded (see `chats_path_of`).
    pub fn chats_path(&self) -> (r: String)
        ensures
            r@ == self.chats_path_of(),
    {
        let mut pairs: Vec<(String, String)> = Vec::new();
        pairs.push(("%profile-path%".to_owned(), self.profile_path()));
        let ks = keys1("chats-path");
        proof {
            reveal_strlit("%profile-path%");
            reveal_strlit("%profile-path%/chats");
            reveal_strlit("chats-path");
            assert(pairs@.map_values(|p: (String, String)| (p.0@, p.1@)) =~= seq![("%profile-path%"@, self.profile_path_of())]);
        }
        let t = self.get_config_str(ks.as_slice(), "%profile-path%/chats");
        fill_template(t.as_str(), &pairs)
    }

    /// The `chat-path` path before `~` is expanded (see `chat_path_of`).
    pub fn chat_path(&self, chat_id: &str) -> (r: String)
        ensures
            r@ == self.chat_path_of(chat_id@),
    {
        let mut pairs: Vec<(String, String)> = Vec::new();
        pairs.push(("%profile-path%".to_owned(), self.profile_path()));
        pairs.push(("%chats-path%".to_owned(), self.chats_path()));
        pairs.push(("%chat%".to_owned(), chat_id.to_owned()));
        let ks = keys1("chat-path");
        proof {
            reveal_strlit("%chat%");
            reveal_strlit("%chats-path%");
            reveal_strlit("%chats-path%/%chat%");
            reveal_strlit("%profile-path%");
            reveal_strlit("chat-path");
            assert(pairs@.map_values(|p: (String, String)| (p.0@, p.1@)) =~= seq![("%profile-path%"@, self.profile_path_of()), ("%chats-path%"@, self.chats_path_of()), ("%chat%"@, chat_id@)]);
        }
        let t = self.get_config_str(ks.as_slice(), "%chats-path%/%chat%");
        fill_template(t.as_str(), &pairs)
    }

    /// The `model-file` path before `~` is expanded (see `model_file_path_of`).
    pub fn model_file_path(&self) -> (r: String)
        ensures
            r@ == self.model_file_path_of(),
    {
        let mut pairs: Vec<(String, String)> = Vec::new();
        pairs.push(("%profile-path%".to_owned(), self.profile_path()));
        pairs.push(("%profile%".to_owned(), self.profile.clone()));
        pairs.push(("%provider%".to_owned(), self.provider.clone()));
        pairs.push(("%chat%".to_owned(), self.chat.clone()));
        let ks = keys1("model-file");
        proof {
            reveal_strlit("%chat%");
            reveal_strlit("%profile%");
            reveal_strlit("%profile-path%");
            reveal_strlit("%profile-path%/chats/%chat%/models/%provider%.txt");
            reveal_strlit("%provider%");
            reveal_strlit("model-file");
            assert(pairs@.map_values(|p: (String, String)| (p.0@, p.1@)) =~= seq![("%profile-path%"@, self.profile_path_of()), ("%profile%"@, self.profile@), ("%provider%"@, self.provider@), ("%chat%"@, self.chat@)]);
        }
        let t = self.get_config_str(ks.as_slice(), "%profile-path%/chats/%chat%/models/%provider%.txt");
        fill_template(t.as_str(), &pairs)
    }

    /// The `provider-file` path before `~` is expanded (see `provider_file_of`).
    pub fn provider_file(&self) -> (r: String)
        ensures
            r@ == self.provider_file_of(),
    {
        let mut pairs: Vec<(String, String)> = Vec::new();
        pairs.push(("%profile-path%".to_owned(), self.profile_path()));
        pairs.push(("%profile%".to_owned(), self.profile.clone()));
        pairs.push(("%chat%".to_owned(), self.chat.clone()));
        let ks = keys1("provider-file");
        proof {
            reveal_strlit("%chat%");
            reveal_strlit("%profile%");
            reveal_strlit("%profile-path%");
            reveal_strlit("%profile-path%/chats/%chat%/provider.txt");
            reveal_strlit("provider-file");
            assert(pairs@.map_values(|p: (String, String)| (p.0@, p.1@)) =~= seq![("%profile-path%"@, self.profile_path_of()), ("%profile%"@, self.profile@), ("%chat%"@, self.chat@)]);
        }
        let t = self.get_config_str(ks.as_slice(), "%profile-path%/chats/%chat%/provider.txt");
        fill_template(t.as_str(), &pairs)
    }

    /// The `memory-path` path before `~` is expanded (see `memory_path_of`).
    pub fn memory_path(&self) -> (r: String)
        ensures
            r@ == self.memory_path_of(),
    {
        let mut pairs: Vec<(String, String)> = Vec::new();
        pairs.push(("%profile-path%".to_owned(), self.profile_path()));
        pairs.push(("%chat%".to_owned(), self.chat.clone()));
        let ks = keys1("memory-path");
        proof {
            reveal_strlit("%chat%");
            reveal_strlit("%profile-path%");
            reveal_strlit("%profile-path%/memory");
            reveal_strlit("memory-path");
            assert(pairs@.map_values(|p: (String, String)| (p.0@, p.1@)) =~= seq![("%profile-path%"@, self.profile_path_of()), ("%chat%"@, self.chat@)]);
        }
        let t = self.get_config_str(ks.as_slice(), "%profile-path%/memory");
        fill_template(t.as_str(), &pairs)
    }

    /// The `memory-file` path before `~` is expanded (see `memory_file_of`).
    pub fn memory_file(&self) -> (r: String)
        ensures
            r@ == self.memory_file_of(),
    {
        let mut pairs: Vec<(String, String)> = Vec::new();
        pairs.push(("%memory-path%".to_owned(), self.memory_path()));
        pairs.push(("%profile-path%".to_owned(), self.profile_path()));
        pairs.push(("%profile%".to_owned(), self.profile.clone()));
        pairs.push(("%provider%".to_owned(), self.provider.clone()));
        pairs.push(("%model%".to_owned(), self.get_model_safe()));
        pairs.push(("%memory-id%".to_owned(), self.memory_id.clone()));
        pairs.push(("%chat%".to_owned(), self.chat.clone()));
        let ks = keys1("memory-file");
        proof {
            reveal_strlit("%chat%");
            reveal_strlit("%memory-id%");
            reveal_strlit("%memory-path%");
            reveal_strlit("%memory-path%/%memory-id%.txt");
            reveal_strlit("%model%");
            reveal_strlit("%profile%");
            reveal_strlit("%profile-path%");
            reveal_strlit("%provider%");
            reveal_strlit("memory-file");
            assert(pairs@.map_values(|p: (String, String)| (p.0@, p.1@)) =~= seq![("%memory-path%"@, self.memory_path_of()), ("%profile-path%"@, self.profile_path_of()), ("%profile%"@, self.profile@), ("%provider%"@, self.provider@), ("%model%"@, safe_model(self.model@)), ("%memory-id%"@, self.memory_id@), ("%chat%"@, self.chat@)]);
        }
        let t = self.get_config_str(ks.as_slice(), "%memory-path%/%memory-id%.txt");
        fill_template(t.as_str(), &pairs)
    }

    /// The `memory-of-chat-file` path before `~` is expanded (see `memory_of_chat_file_of`).
    pub fn memory_of_chat_file(&self) -> (r: String)
        ensures
            r@ == self.memory_of_chat_file_of(),
    {
        let mut pairs: Vec<(String, String)> = Vec::new();
        pairs.push(("%profile-path%".to_owned(), self.profile_path()));
        pairs.push(("%profile%".to_owned(), self.profile.clone()));
        pairs.push(("%provider%".to_owned(), self.provider.clone()));
        pairs.push(("%model%".to_owned(), self.get_model_safe()));
        pairs.push(("%memory-id%".to_owned(), self.memory_id.clone()));
        pairs.push(("%chat%".to_owned(), self.chat.clone()));
        let ks = keys1("memory-of-chat-file");
        proof {
            reveal_strlit("%chat%");
            reveal_strlit("%memory-id%");
            reveal_strlit("%model%");
            reveal_strlit("%profile%");
            reveal_strlit("%profile-path%");
            reveal_strlit("%profile-path%/chats/%chat%/memory.txt");
            reveal_strlit("%provider%");
            reveal_strlit("memory-of-chat-file");
            assert(pairs@.map_values(|p: (String, String)| (p.0@, p.1@)) =~= seq![("%profile-path%"@, self.profile_path_of()), ("%profile%"@, self.profile@), ("%provider%"@, self.provider@), ("%model%"@, safe_model(self.model@)), ("%memory-id%"@, self.memory_id@), ("%chat%"@, self.chat@)]);
        }
        let t = self.get_config_str(ks.as_slice(), "%profile-path%/chats/%chat%/memory.txt");
        fill_template(t.as_str(), &pairs)
    }

    /// The `history` path before `~` is expanded (see `history_file_path_of`).
    pub fn history_file_path(&self) -> (r: String)
        ensures
            r@ == self.history_file_path_of(),
    {
        let mut pairs: Vec<(String, String)> = Vec::new();
        pairs.push(("%chat-path%".to_owned(), self.chat_path(self.chat.as_str())));
        pairs.push(("%profile-path%".to_owned(), self.profile_path()));
        pairs.push(("%profile%".to_owned(), self.profile.clone()));
        pairs.push(("%model%".to_owned(), self.get_model_safe()));
        pairs.push(("%provider%".to_owned(), self.provider.clone()));
        pairs.push(("%chat%".to_owned(), self.chat.clone()));
        let ks = keys1("history");
        proof {
            reveal_strlit("%chat%");
            reveal_strlit("%chat-path%");
            reveal_strlit("%chat-path%/history.txt");
            reveal_strlit("%model%");
            reveal_strlit("%profile%");
            reveal_strlit("%profile-path%");
            reveal_strlit("%provider%");
            reveal_strlit("history");
            assert(pairs@.map_values(|p: (String, String)| (p.0@, p.1@)) =~= seq![("%chat-path%"@, self.chat_path_of(self.chat@)), ("%profile-path%"@, self.profile_path_of()), ("%profile%"@, self.profile@), ("%model%"@, safe_model(self.model@)), ("%provider%"@, self.provider@), ("%chat%"@, self.chat@)]);
        }
        let t = self.get_config_str(ks.as_slice(), "%chat-path%/history.txt");
        fill_template(t.as_str(), &pairs)
    }

    /// The `prompt-file-id` path before `~` is expanded (see `prompt_file_of`).
    pub fn prompt_file(&self, chat_id: &str) -> (r: String)
        ensures
            r@ == self.prompt_file_of(chat_id@),
    {
        let mut pairs: Vec<(String, String)> = Vec::new();
        pairs.push(("%chat-path%".to_owned(), self.chat_path(chat_id)));
        pairs.push(("%profile%".to_owned(), self.profile.clone()));
        pairs.push(("%chat%".to_owned(), self.chat.clone()));
        pairs.push(("%provider%".to_owned(), self.provider.clone()));
        pairs.push(("%model%".to_owned(), self.get_model_safe()));
        let ks = keys1("prompt-file-id");
        proof {
            reveal_strlit("%chat%");
            reveal_strlit("%chat-path%");
            reveal_strlit("%chat-path%/prompt.txt");
            reveal_strlit("%model%");
            reveal_strlit("%profile%");
            reveal_strlit("%provider%");
            reveal_strlit("prompt-file-id");
            assert(pairs@.map_values(|p: (String, String)| (p.0@, p.1@)) =~= seq![("%chat-path%"@, self.chat_path_of(chat_id@)), ("%profile%"@, self.profile@), ("%chat%"@, self.chat@), ("%provider%"@, self.provider@), ("%model%"@, safe_model(self.model@))]);
        }
        let t = self.get_config_str(ks.as_slice(), "%chat-path%/prompt.txt");
        fill_template(t.as_str(), &pairs)
    }

    /// The `prompts-path` path before `~` is expanded (see `prompts_path_of`).
    pub fn prompts_path(&self, chat_id: &str) -> (r: String)
        ensures
            r@ == self.prompts_path_of(chat_id@),
    {
        let mut pairs: Vec<(String, String)> = Vec::new();
        pairs.push(("%chat-path%".to_owned(), self.chat_path(chat_id)));
        pairs.push(("%profile-path%".to_owned(), self.profile_path()));
        pairs.push(("%profile%".to_owned(), self.profile.clone()));
        pairs.push(("%chat%".to_owned(), chat_id.to_owned()));
        pairs.push(("%provider%".to_owned(), self.provider.clone()));
        pairs.push(("%model%".to_owned(), self.get_model_safe()));
        let ks = keys1("prompts-path");
        proof {
            reveal_strlit("%chat%");
            reveal_strlit("%chat-path%");
            reveal_strlit("%chat-path%/prompts/");
            reveal_strlit("%model%");
            reveal_strlit("%profile%");
            reveal_strlit("%profile-path%");
            reveal_strlit("%provider%");
            reveal_strlit("prompts-path");
            assert(pairs@.map_values(|p: (String, String)| (p.0@, p.1@)) =~= seq![("%chat-path%"@, self.chat_path_of(chat_id@)), ("%profile-path%"@, self.profile_path_of()), ("%profile%"@, self.profile@), ("%chat%"@, chat_id@), ("%provider%"@, self.provider@), ("%model%"@, safe_model(self.model@))]);
        }
        let t = self.get_config_str(ks.as_slice(), "%chat-path%/prompts/");
        fill_template(t.as_str(), &pairs)
    }

    /// The `prompt-file` path before `~` is expanded (see `prompt_content_file_of`).
    pub fn prompt_content_file(&self) -> (r: String)
        ensures
            r@ == self.prompt_content_file_of(),
    {
        let mut pairs: Vec<(String, String)> = Vec::new();
        pairs.push(("%profile-path%".to_owned(), self.profile_path()));
        pairs.push(("%profile%".to_owned(), self.profile.clone()));
        pairs.push(("%provider%".to_owned(), self.provider.clone()));
        pairs.push(("%model%".to_owned(), self.model.clone()));
        pairs.push(("%chat%".to_owned(), self.chat.clone()));
        pairs.push(("%prompt%".to_owned(), self.prompt_id.clone()));
        let ks = keys1("prompt-file");
        proof {
            reveal_strlit("%chat%");
            reveal_strlit("%model%");
            reveal_strlit("%profile%");
            reveal_strlit("%profile-path%");
            reveal_strlit("%profile-path%/chats/%chat%/prompts/%prompt%.txt");
            reveal_strlit("%prompt%");
            reveal_strlit("%provider%");
            reveal_strlit("prompt-file");
            assert(pairs@.map_values(|p: (String, String)| (p.0@, p.1@)) =~= seq![("%profile-path%"@, self.profile_path_of()), ("%profile%"@, self.profile@), ("%provider%"@, self.provider@), ("%model%"@, self.model@), ("%chat%"@, self.chat@), ("%prompt%"@, self.prompt_id@)]);
        }
        let t = self.get_config_str(ks.as_slice(), "%profile-path%/chats/%chat%/prompts/%prompt%.txt");
        fill_template(t.as_str(), &pairs)
    }

    /// The `token` path before `~` is expanded (see `token_path_of`).
    pub fn token_path(&self) -> (r: String)
        ensures
            r@ == self.token_path_of(),
    {
        let mut pairs: Vec<(String, String)> = Vec::new();
        pairs.push(("%profile-path%".to_owned(), self.profile_path()));
        pairs.push(("%profile%".to_owned(), self.profile.clone()));
        pairs.push(("%chat%".to_owned(), self.chat.clone()));
        pairs.push(("%provider%".to_owned(), self.provider.clone()));
        pairs.push(("%model%".to_owned(), self.get_model_safe()));
        let ks = keys1("token");
        proof {
            reveal_strlit("%chat%");
            reveal_strlit("%model%");
            reveal_strlit("%profile%");
            reveal_strlit("%profile-path%");
            reveal_strlit("%provider%");
            reveal_strlit("token");
            reveal_strlit("~/.config/ai/app/cli/%profile%/tokens/%provider%.txt");
            assert(pairs@.map_values(|p: (String, String)| (p.0@, p.1@)) =~= seq![("%profile-path%"@, self.profile_path_of()), ("%profile%"@, self.profile@), ("%chat%"@, self.chat@), ("%provider%"@, self.provider@), ("%model%"@, safe_model(self.model@))]);
        }
        let t = self.get_config_str(ks.as_slice(), "~/.config/ai/app/cli/%profile%/tokens/%provider%.txt");
        fill_template(t.as_str(), &pairs)
    }

}

} // verus!
