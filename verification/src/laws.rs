//! Properties of the fact operations that span calls.
use crate::fact_map::{entries_insert, entries_remove, has_key, key_index, lemma_key_index, lemma_key_index_unique, unique_keys, EntryView};
use crate::storage::{access_set, advanced, allows, lemma_unique_after_insert, lemma_unique_after_remove, next_id, rights_of};
use crate::text::has_char;
use vstd::prelude::*;

verus! {

/// After a fact is inserted under `id`, a lookup of `id` finds exactly it.
pub proof fn law_insert_then_select(es: Seq<EntryView>, id: Seq<char>, v: (Seq<char>, Seq<char>, Seq<char>))
    ensures
        has_key(entries_insert(es, id, v), id),
        entries_insert(es, id, v)[key_index(entries_insert(es, id, v), id)].1 == v,
{
    lemma_key_index(es, id);
    let r = entries_insert(es, id, v);
    lemma_key_index(r, id);
    if key_index(es, id) >= 0 {
        let i = key_index(es, id);
        assert(r[i].0 == id);
        let f = key_index(r, id);
        if f != i {
            assert(f < i);
            assert(r[f] == es[f]);
        }
    } else {
        assert(r[es.len() as int].0 == id);
        let f = key_index(r, id);
        if f != es.len() {
            assert(r[f] == es[f]);
        }
    }
}

/// Inserting never creates a second fact with the same id: the ids stay
/// distinct, an existing id keeps its place, and the number of facts grows
/// by one exactly when the id was new.
pub proof fn law_insert_keeps_ids_distinct(es: Seq<EntryView>, id: Seq<char>, v: (Seq<char>, Seq<char>, Seq<char>))
    requires
        unique_keys(es),
    ensures
        unique_keys(entries_insert(es, id, v)),
        has_key(es, id) ==> entries_insert(es, id, v).len() == es.len() && key_index(entries_insert(es, id, v), id) == key_index(es, id),
        !has_key(es, id) ==> entries_insert(es, id, v).len() == es.len() + 1,
{
    lemma_unique_after_insert(es, id, v);
    lemma_key_index(es, id);
    if has_key(es, id) {
        let i = key_index(es, id);
        lemma_key_index_unique(entries_insert(es, id, v), i);
    }
}

/// After a fact is deleted, no fact with its id is left, and the other facts
/// keep their order.
pub proof fn law_delete_removes(es: Seq<EntryView>, id: Seq<char>)
    requires
        unique_keys(es),
        has_key(es, id),
    ensures
        !has_key(entries_remove(es, id), id),
        entries_remove(es, id) == es.remove(key_index(es, id)),
        unique_keys(entries_remove(es, id)),
{
    lemma_key_index(es, id);
    lemma_unique_after_remove(es, id);
    let i = key_index(es, id);
    let r = entries_remove(es, id);
    if has_key(r, id) {
        let j = choose|j: int| 0 <= j < r.len() && (#[trigger] r[j]).0 == id;
        let jj = if j < i { j } else { j + 1 };
        assert(r[j] == es[jj]);
        assert(es[i].0 == id);
    }
}

/// Deleting an id that is not there changes nothing.
pub proof fn law_delete_absent(es: Seq<EntryView>, id: Seq<char>)
    requires
        !has_key(es, id),
    ensures
        entries_remove(es, id) == es,
{
    lemma_key_index(es, id);
}

/// After the rights of a domain are set, that domain grants exactly the
/// letters of the new rights, and every other domain keeps its rights.
pub proof fn law_set_access_then_check(acc: Seq<(Seq<char>, Seq<char>)>, domain: Seq<char>, rights: Seq<char>, other: Seq<char>, right: char)
    ensures
        allows(access_set(acc, domain, rights), domain, right) == has_char(rights, right),
        other != domain ==> rights_of(access_set(acc, domain, rights), other) == rights_of(acc, other),
    decreases acc.len(),
{
    if acc.len() > 0 && acc[0].0 != domain {
        law_set_access_then_check(acc.drop_first(), domain, rights, other, right);
        let r = access_set(acc, domain, rights);
        assert(r.drop_first() == access_set(acc.drop_first(), domain, rights));
        assert(r[0] == acc[0]);
        if other != domain {
            if acc[0].0 == other {
                assert(rights_of(r, other) == Some(acc[0].1));
            } else {
                assert(rights_of(r, other) == rights_of(r.drop_first(), other));
            }
        }
    } else if acc.len() > 0 {
        let r = access_set(acc, domain, rights);
        assert(r.drop_first() == acc.drop_first());
        assert(r[0] == (domain, rights));
        if other != domain {
            assert(rights_of(r, other) == rights_of(r.drop_first(), other));
        }
    } else {
        let r = access_set(acc, domain, rights);
        assert(r[0] == (domain, rights));
        assert(r.drop_first().len() == 0);
        if other != domain {
            assert(rights_of(r, other) == rights_of(r.drop_first(), other));
        }
    }
}

/// Each generated id is larger than the one before, unless the counter has
/// reached the top of its range.
pub proof fn law_generated_ids_increase(last: u128, next: u128)
    requires
        advanced(last, next),
        last < u128::MAX,
    ensures
        next > last,
{
    let now = choose|now: u128| next == next_id(last, now);
}

} // verus!
