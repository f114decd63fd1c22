//! A JSON value held as plain data (numbers by their literal text), the spec
//! view it is stated over, and the lookups and rewrites that configuration
//! and provider answers go through.
use crate::text::{chars_of, replace, replace_chars, string_of};
use vstd::prelude::*;

verus! {

broadcast use vstd::std_specs::vec::group_vec_axioms;

/// A JSON value. Numbers keep their literal text, as JSON writes them.
pub enum JsonValue {
    Null,
    Bool(bool),
    Number(String),
    Str(String),
    Array(Vec<JsonValue>),
    Object(Vec<(String, JsonValue)>),
}

/// The spec value of a `JsonValue`.
pub enum JsonView {
    Null,
    Bool(bool),
    Number(Seq<char>),
    Str(Seq<char>),
    Array(Seq<JsonView>),
    Object(Seq<(Seq<char>, JsonView)>),
}

pub open spec fn jview(v: JsonValue) -> JsonView
    decreases v,
{
    match v {
        JsonValue::Null => JsonView::Null,
        JsonValue::Bool(b) => JsonView::Bool(b),
        JsonValue::Number(n) => JsonView::Number(n@),
        JsonValue::Str(s) => JsonView::Str(s@),
        JsonValue::Array(items) => JsonView::Array(
            Seq::new(items@.len(), |i: int| if 0 <= i < items@.len() { jview(items@[i]) } else { JsonView::Null }),
        ),
        JsonValue::Object(entries) => JsonView::Object(
            Seq::new(
                entries@.len(),
                |i: int|
                    if 0 <= i < entries@.len() {
                        (entries@[i].0@, jview(entries@[i].1))
                    } else {
                        (Seq::empty(), JsonView::Null)
                    },
            ),
        ),
    }
}

pub open spec fn opt_view(v: Option<&JsonValue>) -> Option<JsonView> {
    match v {
        Some(x) => Some(jview(*x)),
        None => None,
    }
}

/// Index of the first entry with key `k`, or -1.
pub open spec fn first_key<V>(es: Seq<(Seq<char>, V)>, k: Seq<char>) -> int
    decreases es.len(),
{
    if es.len() == 0 {
        -1
    } else if es[0].0 == k {
        0
    } else {
        let r = first_key(es.drop_first(), k);
        if r < 0 {
            -1
        } else {
            r + 1
        }
    }
}

pub proof fn lemma_first_key_at<V>(es: Seq<(Seq<char>, V)>, k: Seq<char>, i: int)
    requires
        -1 <= i < es.len(),
        i >= 0 ==> es[i].0 == k,
        forall|j: int| 0 <= j < es.len() && (i < 0 || j < i) ==> es[j].0 != k,
    ensures
        first_key(es, k) == i,
    decreases es.len(),
{
    if es.len() > 0 && i != 0 {
        assert(es[0].0 != k);
        assert forall|j: int| 0 <= j < es.drop_first().len() && (i - 1 < 0 || j < i - 1) implies es.drop_first()[j].0 != k by {
            assert(es.drop_first()[j] == es[j + 1]);
        }
        if i > 0 {
            assert(es.drop_first()[i - 1] == es[i]);
            lemma_first_key_at(es.drop_first(), k, i - 1);
        } else {
            lemma_first_key_at(es.drop_first(), k, -1);
        }
    }
}

/// The member `k` of an object (the first one with that key); `None` for
/// other values.
pub open spec fn obj_get(v: JsonView, k: Seq<char>) -> Option<JsonView> {
    match v {
        JsonView::Object(es) => {
            let i = first_key(es, k);
            if i >= 0 {
                Some(es[i].1)
            } else {
                None
            }
        },
        _ => None,
    }
}

/// The value reached by following the keys `keys` from `v`.
pub open spec fn path_get(v: JsonView, keys: Seq<Seq<char>>) -> Option<JsonView>
    decreases keys.len(),
{
    if keys.len() == 0 {
        Some(v)
    } else {
        match obj_get(v, keys[0]) {
            Some(n) => path_get(n, keys.drop_first()),
            None => None,
        }
    }
}

/// The string of a string value.
pub open spec fn as_str(v: Option<JsonView>) -> Option<Seq<char>> {
    match v {
        Some(JsonView::Str(s)) => Some(s),
        _ => None,
    }
}

/// The string of a string value, else `d`.
pub open spec fn str_or(v: Option<JsonView>, d: Seq<char>) -> Seq<char> {
    match as_str(v) {
        Some(s) => s,
        None => d,
    }
}

/// The boolean of a boolean value, else `d`.
pub open spec fn bool_or(v: Option<JsonView>, d: bool) -> bool {
    match v {
        Some(JsonView::Bool(b)) => b,
        _ => d,
    }
}

pub open spec fn is_digit(c: char) -> bool {
    '0' <= c && c <= '9'
}

/// The value of a string of decimal digits.
pub open spec fn digits_value(s: Seq<char>) -> nat
    decreases s.len(),
{
    if s.len() == 0 {
        0
    } else {
        digits_value(s.drop_last()) * 10 + ((s.last() as u32 - '0' as u32) as nat)
    }
}

/// Whether `t` is a non-empty string of decimal digits whose value is at most `max`.
pub open spec fn uint_text(t: Seq<char>, max: nat) -> bool {
    t.len() > 0 && (forall|i: int| 0 <= i < t.len() ==> is_digit(#[trigger] t[i])) && digits_value(t) <= max
}

/// The value of a number written as plain decimal digits, if it is at most `max`.
pub open spec fn uint_of(v: Option<JsonView>, max: nat) -> Option<nat> {
    match v {
        Some(JsonView::Number(t)) => if uint_text(t, max) {
            Some(digits_value(t))
        } else {
            None
        },
        _ => None,
    }
}

/// The strings of a value used as a list: the strings of an array, in order,
/// or a single string; else `d`.
pub open spec fn string_list_or(v: Option<JsonView>, d: Seq<Seq<char>>) -> Seq<Seq<char>> {
    match v {
        Some(JsonView::Str(s)) => seq![s],
        Some(JsonView::Array(items)) => strings_in(items),
        _ => d,
    }
}

/// The strings among `items`, in order.
pub open spec fn strings_in(items: Seq<JsonView>) -> Seq<Seq<char>>
    decreases items.len(),
{
    if items.len() == 0 {
        seq![]
    } else {
        match items.last() {
            JsonView::Str(s) => strings_in(items.drop_last()).push(s),
            _ => strings_in(items.drop_last()),
        }
    }
}

/// The keys of an object, in order; empty for other values.
pub open spec fn keys_of(v: Option<JsonView>) -> Seq<Seq<char>> {
    match v {
        Some(JsonView::Object(es)) => es.map_values(|e: (Seq<char>, JsonView)| e.0),
        _ => seq![],
    }
}

impl JsonValue {
    /// The member `k` of an object (`Value::get` with a key).
    pub fn get(&self, k: &str) -> (r: Option<&JsonValue>)
        ensures
            opt_view(r) == obj_get(jview(*self), k@),
    {
        match self {
            JsonValue::Object(es) => {
                let ghost ev = match jview(*self) { JsonView::Object(x) => x, _ => seq![] };
                assert(jview(*self) == JsonView::Object(ev));
                let mut i: usize = 0;
                while i < es.len()
                    invariant
                        jview(*self) == JsonView::Object(ev),
                        ev.len() == es@.len(),
                        forall|j: int| 0 <= j < es@.len() ==> ev[j] == (es@[j].0@, jview(es@[j].1)),
                        i <= es@.len(),
                        forall|j: int| 0 <= j < i ==> ev[j].0 != k@,
                    decreases es@.len() - i,
                {
                    if crate::text::str_eq(es[i].0.as_str(), k) {
                        proof {
                            lemma_first_key_at(ev, k@, i as int);
                            assert(ev[i as int].1 == jview(es@[i as int].1));
                        }
                        return Some(&es[i].1);
                    }
                    i = i + 1;
                }
                proof {
                    lemma_first_key_at(ev, k@, -1);
                }
                None
            },
            _ => None,
        }
    }

    /// The element `i` of an array.
    pub fn at(&self, i: usize) -> (r: Option<&JsonValue>)
        ensures
            opt_view(r) == match jview(*self) {
                JsonView::Array(items) => if i < items.len() { Some(items[i as int]) } else { None },
                _ => None,
            },
    {
        match self {
            JsonValue::Array(items) => {
                if i < items.len() {
                    Some(&items[i])
                } else {
                    None
                }
            },
            _ => None,
        }
    }

    /// The string of a string value.
    pub fn as_string(&self) -> (r: Option<&String>)
        ensures
            match r {
                Some(s) => as_str(Some(jview(*self))) == Some(s@),
                None => as_str(Some(jview(*self))) is None,
            },
    {
        match self {
            JsonValue::Str(s) => Some(s),
            _ => None,
        }
    }

    /// The keys of an object, in order; empty for other values.
    pub fn keys(&self) -> (r: Vec<String>)
        ensures
            r@.map_values(|s: String| s@) == keys_of(Some(jview(*self))),
    {
        let mut r: Vec<String> = Vec::new();
        match self {
            JsonValue::Object(es) => {
                let ghost ev = match jview(*self) { JsonView::Object(x) => x, _ => seq![] };
                let mut i: usize = 0;
                while i < es.len()
                    invariant
                        ev.len() == es@.len(),
                        forall|j: int| 0 <= j < es@.len() ==> ev[j] == (es@[j].0@, jview(es@[j].1)),
                        i <= es@.len(),
                        r@.map_values(|s: String| s@) == ev.take(i as int).map_values(|e: (Seq<char>, JsonView)| e.0),
                    decreases es@.len() - i,
                {
                    r.push(es[i].0.clone());
                    assert(ev.take(i + 1).map_values(|e: (Seq<char>, JsonView)| e.0) == ev.take(i as int).map_values(|e: (Seq<char>, JsonView)| e.0).push(ev[i as int].0));
                    i = i + 1;
                }
                assert(ev.take(es@.len() as int) == ev);
                r
            },
            _ => {
                assert(r@.map_values(|s: String| s@) == Seq::<Seq<char>>::empty());
                r
            },
        }
    }

    /// A copy of the value.
    pub fn deep_clone(&self) -> (r: JsonValue)
        ensures
            jview(r) == jview(*self),
        decreases self,
    {
        match self {
            JsonValue::Null => JsonValue::Null,
            JsonValue::Bool(b) => JsonValue::Bool(*b),
            JsonValue::Number(n) => JsonValue::Number(n.clone()),
            JsonValue::Str(s) => JsonValue::Str(s.clone()),
            JsonValue::Array(items) => {
                let mut out: Vec<JsonValue> = Vec::new();
                let mut i: usize = 0;
                assert(decreases_to!(*self => (*self)->Array_0));
                assert forall|j: int| 0 <= j < items@.len() implies decreases_to!(*self => #[trigger] items@[j]) by {
                    assert(decreases_to!(items => items[j]));
                }
                while i < items.len()
                    invariant
                        forall|j: int| 0 <= j < items@.len() ==> decreases_to!(*self => #[trigger] items@[j]),
                        i <= items@.len(),
                        out@.len() == i,
                        forall|j: int| 0 <= j < i ==> jview(#[trigger] out@[j]) == jview(items@[j]),
                    decreases items@.len() - i,
                {
                    let c = items[i].deep_clone();
                    out.push(c);
                    i = i + 1;
                }
                let r = JsonValue::Array(out);
                assert(jview(r) == jview(*self)) by {
                    if let JsonView::Array(a) = jview(r) {
                        if let JsonView::Array(b) = jview(*self) {
                            assert(a =~= b);
                        }
                    }
                }
                r
            },
            JsonValue::Object(es) => {
                let mut out: Vec<(String, JsonValue)> = Vec::new();
                let mut i: usize = 0;
                assert(decreases_to!(*self => (*self)->Object_0));
                assert forall|j: int| 0 <= j < es@.len() implies decreases_to!(*self => #[trigger] es@[j].1) by {
                    assert(decreases_to!(es => es[j]));
                    assert(decreases_to!(es[j] => es[j].1));
                }
                while i < es.len()
                    invariant
                        forall|j: int| 0 <= j < es@.len() ==> decreases_to!(*self => #[trigger] es@[j].1),
                        i <= es@.len(),
                        out@.len() == i,
                        forall|j: int| 0 <= j < i ==> (#[trigger] out@[j]).0@ == es@[j].0@ && jview(out@[j].1) == jview(es@[j].1),
                    decreases es@.len() - i,
                {
                    let c = es[i].1.deep_clone();
                    out.push((es[i].0.clone(), c));
                    i = i + 1;
                }
                let r = JsonValue::Object(out);
                assert(jview(r) == jview(*self)) by {
                    if let JsonView::Object(a) = jview(r) {
                        if let JsonView::Object(b) = jview(*self) {
                            assert(a =~= b);
                        }
                    }
                }
                r
            },
        }
    }
}


/// `v` with `%prompt%` and then `%model-name%` replaced in every string.
pub open spec fn with_placeholders(v: JsonView, prompt: Seq<char>, model: Seq<char>) -> JsonView
    decreases v,
{
    match v {
        JsonView::Str(s) => JsonView::Str(replace(replace(s, "%prompt%"@, prompt), "%model-name%"@, model)),
        JsonView::Array(items) => JsonView::Array(
            Seq::new(items.len(), |i: int| if 0 <= i < items.len() { with_placeholders(items[i], prompt, model) } else { JsonView::Null }),
        ),
        JsonView::Object(es) => JsonView::Object(
            Seq::new(
                es.len(),
                |i: int| if 0 <= i < es.len() { (es[i].0, with_placeholders(es[i].1, prompt, model)) } else { (Seq::empty(), JsonView::Null) },
            ),
        ),
        _ => v,
    }
}

/// Replaces `%prompt%` and then `%model-name%` in every string of `value`.
pub fn replace_placeholders(value: &mut JsonValue, prompt: &str, model: &str)
    ensures
        jview(*final(value)) == with_placeholders(jview(*old(value)), prompt@, model@),
{
    let r = placeholders_replaced(value, prompt, model);
    *value = r;
}

/// A copy of `v` with `%prompt%` and then `%model-name%` replaced in every string.
pub fn placeholders_replaced(v: &JsonValue, prompt: &str, model: &str) -> (r: JsonValue)
    ensures
        jview(r) == with_placeholders(jview(*v), prompt@, model@),
    decreases v,
{
    match v {
        JsonValue::Str(s) => {
            let cs = chars_of(s.as_str());
            let p1 = chars_of("%prompt%");
            let p2 = chars_of("%model-name%");
            let pv = chars_of(prompt);
            let mv = chars_of(model);
            proof {
                reveal_strlit("%prompt%");
                reveal_strlit("%model-name%");
            }
            let a = replace_chars(&cs, &p1, &pv);
            let b = replace_chars(&a, &p2, &mv);
            JsonValue::Str(string_of(&b))
        },
        JsonValue::Array(items) => {
            let mut out: Vec<JsonValue> = Vec::new();
            let mut i: usize = 0;
            assert(decreases_to!(*v => (*v)->Array_0));
            assert forall|j: int| 0 <= j < items@.len() implies decreases_to!(*v => #[trigger] items@[j]) by {
                assert(decreases_to!(items => items[j]));
            }
            while i < items.len()
                invariant
                    forall|j: int| 0 <= j < items@.len() ==> decreases_to!(*v => #[trigger] items@[j]),
                    i <= items@.len(),
                    out@.len() == i,
                    forall|j: int| 0 <= j < i ==> jview(#[trigger] out@[j]) == with_placeholders(jview(items@[j]), prompt@, model@),
                decreases items@.len() - i,
            {
                out.push(placeholders_replaced(&items[i], prompt, model));
                i = i + 1;
            }
            let r = JsonValue::Array(out);
            assert(jview(r) == with_placeholders(jview(*v), prompt@, model@)) by {
                if let JsonView::Array(a) = jview(r) {
                    if let JsonView::Array(b) = with_placeholders(jview(*v), prompt@, model@) {
                        assert(a =~= b);
                    }
                }
            }
            r
        },
        JsonValue::Object(es) => {
            let mut out: Vec<(String, JsonValue)> = Vec::new();
            let mut i: usize = 0;
            assert(decreases_to!(*v => (*v)->Object_0));
            assert forall|j: int| 0 <= j < es@.len() implies decreases_to!(*v => #[trigger] es@[j].1) by {
                assert(decreases_to!(es => es[j]));
                assert(decreases_to!(es[j] => es[j].1));
            }
            while i < es.len()
                invariant
                    forall|j: int| 0 <= j < es@.len() ==> decreases_to!(*v => #[trigger] es@[j].1),
                    i <= es@.len(),
                    out@.len() == i,
                    forall|j: int| 0 <= j < i ==> (#[trigger] out@[j]).0@ == es@[j].0@ && jview(out@[j].1) == with_placeholders(jview(es@[j].1), prompt@, model@),
                decreases es@.len() - i,
            {
                let c = placeholders_replaced(&es[i].1, prompt, model);
                out.push((es[i].0.clone(), c));
                i = i + 1;
            }
            let r = JsonValue::Object(out);
            assert(jview(r) == with_placeholders(jview(*v), prompt@, model@)) by {
                if let JsonView::Object(a) = jview(r) {
                    if let JsonView::Object(b) = with_placeholders(jview(*v), prompt@, model@) {
                        assert(a =~= b);
                    }
                }
            }
            r
        },
        JsonValue::Null => JsonValue::Null,
        JsonValue::Bool(b) => JsonValue::Bool(*b),
        JsonValue::Number(n) => JsonValue::Number(n.clone()),
    }
}

/// The value reached by the keys `keys` from `v`.
pub fn get_path<'a>(v: &'a JsonValue, keys: &[&str]) -> (r: Option<&'a JsonValue>)
    ensures
        opt_view(r) == path_get(jview(*v), keys@.map_values(|k: &str| k@)),
{
    let ghost ks = keys@.map_values(|k: &str| k@);
    let mut cur = v;
    let mut i: usize = 0;
    assert(ks.skip(0) == ks);
    while i < keys.len()
        invariant
            ks == keys@.map_values(|k: &str| k@),
            i <= keys@.len(),
            path_get(jview(*v), ks) == path_get(jview(*cur), ks.skip(i as int)),
        decreases keys@.len() - i,
    {
        assert(ks.skip(i as int)[0] == keys@[i as int]@);
        assert(ks.skip(i as int).drop_first() == ks.skip(i + 1));
        match cur.get(keys[i]) {
            Some(n) => {
                cur = n;
            },
            None => {
                return None;
            },
        }
        i = i + 1;
    }
    assert(ks.skip(keys@.len() as int).len() == 0);
    Some(cur)
}

/// The string of a string value, else `d` (`get_str`).
pub fn get_str(v: Option<&JsonValue>, d: &str) -> (r: String)
    ensures
        r@ == str_or(opt_view(v), d@),
{
    match v {
        Some(JsonValue::Str(s)) => s.clone(),
        _ => d.to_owned(),
    }
}

/// The boolean of a boolean value, else `d` (`get_bool`).
pub fn get_bool(v: Option<&JsonValue>, d: bool) -> (r: bool)
    ensures
        r == bool_or(opt_view(v), d),
{
    match v {
        Some(JsonValue::Bool(b)) => *b,
        _ => d,
    }
}

/// The value of `t` as a number of decimal digits at most `max`, if it is one.
pub fn parse_uint(t: &str, max: u64) -> (r: Option<u64>)
    ensures
        match r {
            Some(n) => uint_text(t@, max as nat) && n == digits_value(t@),
            None => !uint_text(t@, max as nat),
        },
{
    let cs = chars_of(t);
    if cs.len() == 0 {
        return None;
    }
    let mut acc: u64 = 0;
    let mut i: usize = 0;
    assert(cs@.take(0) == Seq::<char>::empty());
    while i < cs.len()
        invariant
            cs@ == t@,
            i <= cs@.len(),
            forall|j: int| 0 <= j < i ==> is_digit(#[trigger] cs@[j]),
            acc == digits_value(cs@.take(i as int)),
            acc <= max,
        decreases cs@.len() - i,
    {
        let c = cs[i];
        if !('0' <= c && c <= '9') {
            assert(!is_digit(t@[i as int]));
            return None;
        }
        let d = (c as u32 - '0' as u32) as u64;
        assert(cs@.take(i + 1).drop_last() == cs@.take(i as int));
        assert(cs@.take(i + 1).last() == c);
        if d > max || acc > (max - d) / 10 {
            proof {
                if forall|j: int| 0 <= j < t@.len() ==> is_digit(#[trigger] t@[j]) {
                    assert(digits_value(cs@.take(i + 1)) > max) by (nonlinear_arith)
                        requires
                            digits_value(cs@.take(i + 1)) == acc * 10 + d,
                            d > max || acc > (max - d) / 10,
                            d <= 9,
                    ;
                    lemma_digits_prefix_bound(cs@, i as int + 1, max as nat + 1);
                }
            }
            return None;
        }
        assert(acc * 10 + d <= max) by (nonlinear_arith)
            requires
                acc <= (max - d) / 10,
                d <= max,
        ;
        acc = acc * 10 + d;
        i = i + 1;
    }
    assert(cs@.take(cs@.len() as int) == cs@);
    Some(acc)
}

/// A number of digits whose prefix is already at or above `bound` is too.
proof fn lemma_digits_prefix_bound(s: Seq<char>, k: int, bound: nat)
    requires
        0 < k <= s.len(),
        forall|j: int| 0 <= j < s.len() ==> is_digit(#[trigger] s[j]),
        digits_value(s.take(k)) >= bound,
    ensures
        digits_value(s) >= bound,
    decreases s.len() - k,
{
    if k < s.len() {
        assert(s.take(k + 1).drop_last() == s.take(k));
        lemma_digits_prefix_bound(s, k + 1, bound);
    } else {
        assert(s.take(k) == s);
    }
}

/// The value of a plain unsigned number, else `d` (`get_int`).
pub fn get_int(v: Option<&JsonValue>, d: u64) -> (r: u64)
    ensures
        r == match uint_of(opt_view(v), u64::MAX as nat) {
            Some(n) => n,
            None => d as nat,
        },
{
    match v {
        Some(JsonValue::Number(t)) => match parse_uint(t.as_str(), u64::MAX) {
            Some(n) => n,
            None => d,
        },
        _ => d,
    }
}

/// The value of a plain unsigned number that fits a `usize`, else `d` (`get_size`).
pub fn get_size(v: Option<&JsonValue>, d: usize) -> (r: usize)
    ensures
        r == match uint_of(opt_view(v), usize::MAX as nat) {
            Some(n) => n,
            None => d as nat,
        },
{
    match v {
        Some(JsonValue::Number(t)) => match parse_uint(t.as_str(), usize::MAX as u64) {
            Some(n) => n as usize,
            None => d,
        },
        _ => d,
    }
}

/// The strings of an array, in order, or a single string; else `d` (`get_string_list`).
pub fn get_string_list(v: Option<&JsonValue>, d: Vec<String>) -> (r: Vec<String>)
    ensures
        r@.map_values(|s: String| s@) == string_list_or(opt_view(v), d@.map_values(|s: String| s@)),
{
    match v {
        Some(JsonValue::Str(t)) => {
            let mut r: Vec<String> = Vec::new();
            r.push(t.clone());
            assert(opt_view(v) == Some(JsonView::Str(t@)));
            assert(r@.map_values(|s: String| s@) =~= seq![t@]);
            r
        },
        Some(JsonValue::Array(items)) => {
            let ghost iv = Seq::new(items@.len(), |i: int| if 0 <= i < items@.len() { jview(items@[i]) } else { JsonView::Null });
            let mut r: Vec<String> = Vec::new();
            let mut i: usize = 0;
            assert(r@.map_values(|s: String| s@) == strings_in(iv.take(0)));
            while i < items.len()
                invariant
                    iv == Seq::new(items@.len(), |i: int| if 0 <= i < items@.len() { jview(items@[i]) } else { JsonView::Null }),
                    i <= items@.len(),
                    r@.map_values(|s: String| s@) == strings_in(iv.take(i as int)),
                decreases items@.len() - i,
            {
                assert(iv.take(i + 1).drop_last() == iv.take(i as int));
                assert(iv.take(i + 1).last() == jview(items@[i as int]));
                match &items[i] {
                    JsonValue::Str(s) => {
                        let ghost before = r@;
                        r.push(s.clone());
                        assert(r@.map_values(|s: String| s@) == before.map_values(|s: String| s@).push(s@));
                    },
                    _ => {},
                }
                i = i + 1;
            }
            assert(iv.take(items@.len() as int) == iv);
            assert(opt_view(v) == Some(JsonView::Array(iv))) by {
                if let JsonView::Array(a) = jview(*v.unwrap()) {
                    assert(a =~= iv);
                }
            }
            r
        },
        _ => d,
    }
}

/// `b` merged into `a`: two objects merge member by member (members of `b`
/// that are objects in both merge again, others replace), a null `b` keeps
/// `a`, and any other `b` replaces `a`.
pub open spec fn merged(a: JsonView, b: JsonView) -> JsonView
    decreases b,
{
    match b {
        JsonView::Null => a,
        JsonView::Object(bs) => match a {
            JsonView::Object(as_) => JsonView::Object(merge_members(as_, bs)),
            _ => b,
        },
        _ => b,
    }
}

/// The members of `as_` with the members of `bs` merged in one after another.
pub open spec fn merge_members(as_: Seq<(Seq<char>, JsonView)>, bs: Seq<(Seq<char>, JsonView)>) -> Seq<(Seq<char>, JsonView)>
    decreases bs,
{
    if bs.len() == 0 {
        as_
    } else {
        let (k, vb) = bs.last();
        let acc = merge_members(as_, bs.drop_last());
        let i = first_key(acc, k);
        if i >= 0 {
            acc.update(i, (k, merged(acc[i].1, vb)))
        } else {
            acc.push((k, vb))
        }
    }
}


/// Index of the first member with key `k` among `es`.
fn find_member(es: &Vec<(String, JsonValue)>, k: &str) -> (r: Option<usize>)
    ensures
        match r {
            Some(i) => i < es@.len() && first_key(es@.map_values(|e: (String, JsonValue)| (e.0@, jview(e.1))), k@) == i,
            None => first_key(es@.map_values(|e: (String, JsonValue)| (e.0@, jview(e.1))), k@) == -1,
        },
{
    let ghost ev = es@.map_values(|e: (String, JsonValue)| (e.0@, jview(e.1)));
    let mut i: usize = 0;
    while i < es.len()
        invariant
            ev == es@.map_values(|e: (String, JsonValue)| (e.0@, jview(e.1))),
            i <= es@.len(),
            forall|j: int| 0 <= j < i ==> ev[j].0 != k@,
        decreases es@.len() - i,
    {
        assert(ev[i as int].0 == es@[i as int].0@);
        if crate::text::str_eq(es[i].0.as_str(), k) {
            proof {
                lemma_first_key_at(ev, k@, i as int);
            }
            return Some(i);
        }
        i = i + 1;
    }
    proof {
        lemma_first_key_at(ev, k@, -1);
    }
    None
}

/// `b` merged into `a` (see `merged`).
pub fn merge(a: &JsonValue, b: &JsonValue) -> (r: JsonValue)
    ensures
        jview(r) == merged(jview(*a), jview(*b)),
    decreases b,
{
    match b {
        JsonValue::Null => a.deep_clone(),
        JsonValue::Object(bs) => match a {
            JsonValue::Object(as_) => {
                let ghost av = match jview(*a) { JsonView::Object(x) => x, _ => seq![] };
                let ghost bv = match jview(*b) { JsonView::Object(x) => x, _ => seq![] };
                let mut acc: Vec<(String, JsonValue)> = Vec::new();
                let mut i: usize = 0;
                while i < as_.len()
                    invariant
                        av == Seq::new(as_@.len(), |j: int| if 0 <= j < as_@.len() { (as_@[j].0@, jview(as_@[j].1)) } else { (Seq::<char>::empty(), JsonView::Null) }),
                        i <= as_@.len(),
                        acc@.map_values(|e: (String, JsonValue)| (e.0@, jview(e.1))) == av.take(i as int),
                    decreases as_@.len() - i,
                {
                    let c = as_[i].1.deep_clone();
                    let ghost before = acc@;
                    let key = as_[i].0.clone();
                    acc.push((key, c));
                    assert(acc@ == before.push((key, c)));
                    assert(av[i as int] == (as_@[i as int].0@, jview(as_@[i as int].1)));
                    assert(av.take(i + 1) =~= av.take(i as int).push(av[i as int]));
                    assert(acc@.map_values(|e: (String, JsonValue)| (e.0@, jview(e.1))) =~= before.map_values(|e: (String, JsonValue)| (e.0@, jview(e.1))).push((key@, jview(c))));
                    i = i + 1;
                }
                assert(av.take(as_@.len() as int) =~= av);
                assert(decreases_to!(*b => (*b)->Object_0));
                assert forall|j: int| 0 <= j < bs@.len() implies decreases_to!(*b => #[trigger] bs@[j].1) by {
                    assert(decreases_to!(bs => bs[j]));
                    assert(decreases_to!(bs[j] => bs[j].1));
                }
                let mut k: usize = 0;
                assert(bv.take(0) =~= Seq::<(Seq<char>, JsonView)>::empty());
                while k < bs.len()
                    invariant
                        forall|j: int| 0 <= j < bs@.len() ==> decreases_to!(*b => #[trigger] bs@[j].1),
                        bv == Seq::new(bs@.len(), |j: int| if 0 <= j < bs@.len() { (bs@[j].0@, jview(bs@[j].1)) } else { (Seq::<char>::empty(), JsonView::Null) }),
                        k <= bs@.len(),
                        acc@.map_values(|e: (String, JsonValue)| (e.0@, jview(e.1))) == merge_members(av, bv.take(k as int)),
                    decreases bs@.len() - k,
                {
                    let ghost accv = acc@.map_values(|e: (String, JsonValue)| (e.0@, jview(e.1)));
                    assert(bv.take(k + 1).drop_last() =~= bv.take(k as int));
                    assert(bv.take(k + 1).last() == (bs@[k as int].0@, jview(bs@[k as int].1)));
                    match find_member(&acc, bs[k].0.as_str()) {
                        Some(pos) => {
                            let m = merge(&acc[pos].1, &bs[k].1);
                            let key = bs[k].0.clone();
                            acc.set(pos, (key, m));
                            assert(acc@.map_values(|e: (String, JsonValue)| (e.0@, jview(e.1))) =~= accv.update(pos as int, (bs@[k as int].0@, merged(accv[pos as int].1, jview(bs@[k as int].1)))));
                        },
                        None => {
                            let c = bs[k].1.deep_clone();
                            acc.push((bs[k].0.clone(), c));
                            assert(acc@.map_values(|e: (String, JsonValue)| (e.0@, jview(e.1))) =~= accv.push((bs@[k as int].0@, jview(bs@[k as int].1))));
                        },
                    }
                    k = k + 1;
                }
                assert(bv.take(bs@.len() as int) =~= bv);
                let r = JsonValue::Object(acc);
                assert(jview(r) == merged(jview(*a), jview(*b))) by {
                    if let JsonView::Object(x) = jview(r) {
                        assert(x =~= merge_members(av, bv));
                    }
                }
                r
            },
            _ => b.deep_clone(),
        },
        _ => b.deep_clone(),
    }
}

/// The value at a path of keys (strings, for object members) and indices
/// (plain numbers, for array elements).
pub open spec fn path_by(v: JsonView, path: Seq<JsonView>) -> Option<JsonView>
    decreases path.len(),
{
    if path.len() == 0 {
        Some(v)
    } else {
        let next = match path[0] {
            JsonView::Str(k) => obj_get(v, k),
            JsonView::Number(t) => match v {
                JsonView::Array(items) => if uint_text(t, u64::MAX as nat) && digits_value(t) < items.len() {
                    Some(items[digits_value(t) as int])
                } else {
                    None
                },
                _ => None,
            },
            _ => None,
        };
        match next {
            Some(n) => path_by(n, path.drop_first()),
            None => None,
        }
    }
}

/// The items of a path value: the elements of an array, else none.
pub open spec fn path_items(p: JsonView) -> Seq<JsonView> {
    match p {
        JsonView::Array(items) => items,
        _ => seq![],
    }
}

/// The value at the path `path` (an array of keys and indices) under `v`.
pub fn get_by_path<'a>(v: &'a JsonValue, path: &JsonValue) -> (r: Option<&'a JsonValue>)
    ensures
        opt_view(r) == path_by(jview(*v), path_items(jview(*path))),
{
    let ghost ps = path_items(jview(*path));
    let empty: Vec<JsonValue> = Vec::new();
    let items: &Vec<JsonValue> = match path {
        JsonValue::Array(items) => items,
        _ => &empty,
    };
    assert(ps =~= Seq::new(items@.len(), |i: int| if 0 <= i < items@.len() { jview(items@[i]) } else { JsonView::Null }));
    let mut cur = v;
    let mut i: usize = 0;
    assert(ps.skip(0) =~= ps);
    while i < items.len()
        invariant
            ps == Seq::new(items@.len(), |i: int| if 0 <= i < items@.len() { jview(items@[i]) } else { JsonView::Null }),
            ps == path_items(jview(*path)),
            i <= items@.len(),
            path_by(jview(*v), ps) == path_by(jview(*cur), ps.skip(i as int)),
        decreases items@.len() - i,
    {
        assert(ps.skip(i as int)[0] == jview(items@[i as int]));
        assert(ps.skip(i as int).drop_first() =~= ps.skip(i + 1));
        let ghost cv = jview(*cur);
        let ghost nx = match jview(items@[i as int]) {
            JsonView::Str(k) => obj_get(cv, k),
            JsonView::Number(t) => match cv {
                JsonView::Array(its) => if uint_text(t, u64::MAX as nat) && digits_value(t) < its.len() {
                    Some(its[digits_value(t) as int])
                } else {
                    None
                },
                _ => None,
            },
            _ => None,
        };
        assert(path_by(cv, ps.skip(i as int)) == match nx {
            Some(n) => path_by(n, ps.skip(i + 1)),
            None => None,
        });
        let next = match &items[i] {
            JsonValue::Str(k) => cur.get(k.as_str()),
            JsonValue::Number(t) => match parse_uint(t.as_str(), u64::MAX) {
                Some(n) => match cur {
                    JsonValue::Array(xs) => {
                        if n < xs.len() as u64 {
                            Some(&xs[n as usize])
                        } else {
                            None
                        }
                    },
                    _ => None,
                },
                None => None,
            },
            _ => None,
        };
        assert(opt_view(next) == nx);
        match next {
            Some(n) => {
                cur = n;
            },
            None => {
                assert(nx is None);
                assert(path_by(jview(*v), ps) is None);
                return None;
            },
        }
        i = i + 1;
    }
    assert(ps.skip(items@.len() as int).len() == 0);
    Some(cur)
}

/// The string at the path `path` under `v`, else `d` (`get_by_path_string`).
pub fn get_by_path_string(v: &JsonValue, path: &JsonValue, d: &str) -> (r: String)
    ensures
        r@ == str_or(path_by(jview(*v), path_items(jview(*path))), d@),
{
    get_str(get_by_path(v, path), d)
}

/// The unsigned number at the path `path` under `v`, else `d` (`get_by_path_int`).
pub fn get_by_path_int(v: &JsonValue, path: &JsonValue, d: u64) -> (r: u64)
    ensures
        r == match uint_of(path_by(jview(*v), path_items(jview(*path))), u64::MAX as nat) {
            Some(n) => n,
            None => d as nat,
        },
{
    get_int(get_by_path(v, path), d)
}

} // verus!
