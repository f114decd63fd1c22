//! The ordered map of facts, kept in an `indexmap::IndexMap` as the storage
//! needs it: id -> (domain, actor, content), in insertion order.
use indexmap::IndexMap;
use std::hash::RandomState;
use vstd::prelude::*;

verus! {

/// A fact's fields other than its id: (domain, actor, content).
pub type FactBody = (String, String, String);

/// The spec value of an entry: (id, (domain, actor, content)).
pub type EntryView = (Seq<char>, (Seq<char>, Seq<char>, Seq<char>));

#[verifier::external_type_specification]
#[verifier::external_body]
#[verifier::reject_recursive_types(K)]
#[verifier::reject_recursive_types(V)]
#[verifier::reject_recursive_types(S)]
pub struct ExIndexMap<K, V, S>(IndexMap<K, V, S>);

/// The entries of a fact map, in the map's order, each key and value by its view.
pub uninterp spec fn fact_entries(m: IndexMap<String, FactBody, RandomState>) -> Seq<EntryView>;

/// Index of the first entry with key `k`, or -1.
pub open spec fn key_index(e: Seq<EntryView>, k: Seq<char>) -> int
    decreases e.len(),
{
    if e.len() == 0 {
        -1
    } else if e[0].0 == k {
        0
    } else {
        let r = key_index(e.drop_first(), k);
        if r < 0 {
            -1
        } else {
            r + 1
        }
    }
}

/// What `key_index` returns, stated without recursion.
pub proof fn lemma_key_index(e: Seq<EntryView>, k: Seq<char>)
    ensures
        -1 <= key_index(e, k) < e.len(),
        key_index(e, k) >= 0 ==> e[key_index(e, k)].0 == k,
        forall|j: int| 0 <= j < e.len() && (key_index(e, k) < 0 || j < key_index(e, k)) ==> (#[trigger] e[j]).0 != k,
        key_index(e, k) >= 0 <==> has_key(e, k),
    decreases e.len(),
{
    if e.len() > 0 && e[0].0 != k {
        lemma_key_index(e.drop_first(), k);
        assert forall|j: int| 0 <= j < e.len() && (key_index(e, k) < 0 || j < key_index(e, k)) implies (#[trigger] e[j]).0 != k by {
            if j > 0 {
                assert(e[j] == e.drop_first()[j - 1]);
            }
        }
        if has_key(e.drop_first(), k) {
            let i = choose|i: int| 0 <= i < e.drop_first().len() && (#[trigger] e.drop_first()[i]).0 == k;
            assert(e[i + 1] == e.drop_first()[i]);
        }
        if has_key(e, k) {
            let i = choose|i: int| 0 <= i < e.len() && (#[trigger] e[i]).0 == k;
            assert(e.drop_first()[i - 1] == e[i]);
        }
    } else if e.len() > 0 {
        assert(e[0].0 == k);
    }
}

/// With unique keys, the entry at `i` is the one `key_index` finds for its key.
pub proof fn lemma_key_index_unique(e: Seq<EntryView>, i: int)
    requires
        unique_keys(e),
        0 <= i < e.len(),
    ensures
        key_index(e, e[i].0) == i,
{
    lemma_key_index(e, e[i].0);
    let f = key_index(e, e[i].0);
    if f != i {
        assert(f >= 0);
        assert(e[f].0 == e[i].0);
    }
}

pub open spec fn has_key(e: Seq<EntryView>, k: Seq<char>) -> bool {
    exists|i: int| 0 <= i < e.len() && (#[trigger] e[i]).0 == k
}

/// No two entries share a key.
pub open spec fn unique_keys(e: Seq<EntryView>) -> bool {
    forall|i: int, j: int| 0 <= i < e.len() && 0 <= j < e.len() && i != j ==> (#[trigger] e[i]).0 != (#[trigger] e[j]).0
}

/// The entries after inserting `k -> v`: an existing key keeps its place and
/// takes the new value, a new key goes last.
pub open spec fn entries_insert(e: Seq<EntryView>, k: Seq<char>, v: (Seq<char>, Seq<char>, Seq<char>)) -> Seq<EntryView> {
    let i = key_index(e, k);
    if i >= 0 {
        e.update(i, (k, v))
    } else {
        e.push((k, v))
    }
}

/// The entries after removing key `k`; the others keep their order.
pub open spec fn entries_remove(e: Seq<EntryView>, k: Seq<char>) -> Seq<EntryView> {
    let i = key_index(e, k);
    if i >= 0 {
        e.remove(i)
    } else {
        e
    }
}

/// `IndexMap::new`: an empty map.
#[verifier::external_body]
pub(crate) fn map_new() -> (m: IndexMap<String, FactBody, RandomState>)
    ensures
        fact_entries(m) == Seq::<EntryView>::empty(),
{
    IndexMap::new()
}

/// `IndexMap::len`: the number of entries.
#[verifier::external_body]
pub(crate) fn map_len(m: &IndexMap<String, FactBody, RandomState>) -> (r: usize)
    ensures
        r == fact_entries(*m).len(),
{
    m.len()
}


/// `IndexMap::get_index`: the entry at position `i`, if there is one.
#[verifier::external_body]
pub(crate) fn map_get_index(m: &IndexMap<String, FactBody, RandomState>, i: usize) -> (r: Option<(&String, &FactBody)>)
    ensures
        match r {
            Some(kv) => i < fact_entries(*m).len() && (kv.0@, kv.1@) == fact_entries(*m)[i as int],
            None => i >= fact_entries(*m).len(),
        },
{
    m.get_index(i)
}

/// `IndexMap::get`: the value stored under key `k`, if any.
#[verifier::external_body]
pub(crate) fn map_get<'a>(m: &'a IndexMap<String, FactBody, RandomState>, k: &str) -> (r: Option<&'a FactBody>)
    ensures
        match r {
            Some(v) => key_index(fact_entries(*m), k@) >= 0 && v@ == fact_entries(*m)[key_index(fact_entries(*m), k@)].1,
            None => key_index(fact_entries(*m), k@) < 0,
        },
{
    m.get(k)
}

/// `IndexMap::contains_key`: whether key `k` is present.
#[verifier::external_body]
pub(crate) fn map_contains_key(m: &IndexMap<String, FactBody, RandomState>, k: &str) -> (r: bool)
    ensures
        r == (key_index(fact_entries(*m), k@) >= 0),
{
    m.contains_key(k)
}

/// `IndexMap::insert`: an existing key keeps its position and takes the new
/// value; a new key is appended last.
#[verifier::external_body]
pub(crate) fn map_insert(m: &mut IndexMap<String, FactBody, RandomState>, k: String, v: FactBody)
    ensures
        fact_entries(*final(m)) == entries_insert(fact_entries(*old(m)), k@, v@),
{
    m.insert(k, v);
}

/// `IndexMap::shift_remove`: removes key `k`; the entries after it move up
/// one place and keep their order.
#[verifier::external_body]
pub(crate) fn map_shift_remove(m: &mut IndexMap<String, FactBody, RandomState>, k: &str)
    ensures
        fact_entries(*final(m)) == entries_remove(fact_entries(*old(m)), k@),
{
    m.shift_remove(k);
}

/// `IndexMap::clear`: removes every entry.
#[verifier::external_body]
pub(crate) fn map_clear(m: &mut IndexMap<String, FactBody, RandomState>)
    ensures
        fact_entries(*final(m)) == Seq::<EntryView>::empty(),
{
    m.clear();
}

/// Whether a fact's content holds a character other than whitespace.
pub open spec fn content_kept(v: (Seq<char>, Seq<char>, Seq<char>)) -> bool {
    exists|i: int| 0 <= i < v.2.len() && !crate::text::is_ws(#[trigger] v.2[i])
}

/// Whether the content of `body` holds a character other than whitespace.
pub fn keeps_content(body: &FactBody) -> (r: bool)
    ensures
        r == content_kept(body@),
{
    let cs = crate::text::chars_of(body.2.as_str());
    let mut i: usize = 0;
    while i < cs.len()
        invariant
            cs@ == body.2@,
            i <= cs@.len(),
            forall|j: int| 0 <= j < i ==> crate::text::is_ws(#[trigger] cs@[j]),
        decreases cs@.len() - i,
    {
        if !crate::text::char_is_ws(cs[i]) {
            assert(!crate::text::is_ws(body@.2[i as int]));
            return true;
        }
        i = i + 1;
    }
    false
}

/// `IndexMap::retain`, keeping the entries whose content is not blank; the
/// kept entries keep their order.
#[verifier::external_body]
pub(crate) fn map_retain_with_content(m: &mut IndexMap<String, FactBody, RandomState>)
    ensures
        fact_entries(*final(m)) == fact_entries(*old(m)).filter(|e: EntryView| content_kept(e.1)),
{
    m.retain(|_, v| keeps_content(v));
}
} // verus!
