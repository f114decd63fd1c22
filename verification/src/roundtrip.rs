//! Writing facts as text and reading them back.
use crate::fact_map::{has_key, lemma_key_index, unique_keys, EntryView};
use crate::storage::{blocks_from, emit, entries_text, fact_mark, fact_text, header_of, insert_all, is_new_id, parse_blocks, resolve_ids};
use crate::text::{find_char, has_char, is_ws, join, lemma_find_char, lemma_find_char_at, lemma_trim_end_at, lemma_trim_start_at, lines, split, strip_cr, trim};
use vstd::prelude::*;

verus! {

/// A header field can be written on a header line and read back.
pub open spec fn field_ok(f: Seq<char>) -> bool {
    !has_char(f, '|') && !has_char(f, '\n') && !has_char(f, '\r')
}

/// A content can be written between header lines and read back: it has no
/// leading or trailing whitespace, no `'\r'`, and none of its lines reads as
/// a header.
pub open spec fn content_ok(c: Seq<char>) -> bool {
    &&& (c.len() == 0 || (!is_ws(c[0]) && !is_ws(c.last())))
    &&& !has_char(c, '\r')
    &&& forall|k: int| 0 <= k < lines(c + seq!['\n']).len() ==> header_of(#[trigger] lines(c + seq!['\n'])[k]) is None
}

/// A fact survives being written with the `#FACT` delimiter and read back.
pub open spec fn writable(e: EntryView) -> bool {
    &&& field_ok(e.0)
    &&& field_ok(e.1.0)
    &&& field_ok(e.1.1)
    &&& content_ok(e.1.2)
    &&& !is_new_id(e.0)
}

pub proof fn lemma_lines_append(a: Seq<char>, b: Seq<char>)
    requires
        a.len() == 0 || a.last() == '\n',
    ensures
        lines(a + b) == lines(a) + lines(b),
    decreases a.len(),
{
    if a.len() == 0 {
        assert(a + b == b);
    } else {
        lemma_find_char(a, '\n');
        let i = find_char(a, '\n');
        if i < 0 {
            assert(a[a.len() - 1] == '\n');
            assert(false);
        }
        lemma_find_char_at(a + b, '\n', i);
        assert((a + b).take(i) == a.take(i));
        assert((a + b).skip(i + 1) == a.skip(i + 1) + b);
        let a2 = a.skip(i + 1);
        if a2.len() > 0 {
            assert(a2.last() == a.last());
        }
        lemma_lines_append(a2, b);
        assert(lines(a) == seq![strip_cr(a.take(i))] + lines(a2));
        assert(lines(a + b) == seq![strip_cr(a.take(i))] + lines(a2 + b));
    }
}

pub proof fn lemma_lines_single(x: Seq<char>)
    requires
        !has_char(x, '\n'),
    ensures
        lines(x + seq!['\n']) == seq![strip_cr(x)],
{
    let s = x + seq!['\n'];
    assert forall|j: int| 0 <= j < s.len() && j < x.len() implies s[j] != '\n' by {
        assert(s[j] == x[j]);
        if x[j] == '\n' {
            assert(has_char(x, '\n'));
        }
    }
    lemma_find_char_at(s, '\n', x.len() as int);
    assert(s.take(x.len() as int) == x);
    assert(s.skip(x.len() as int + 1).len() == 0);
    assert(lines(s.skip(x.len() as int + 1)) == Seq::<Seq<char>>::empty());
}

pub proof fn lemma_join_front(x: Seq<char>, ps: Seq<Seq<char>>, sep: Seq<char>)
    requires
        ps.len() >= 1,
    ensures
        join(seq![x] + ps, sep) == x + sep + join(ps, sep),
    decreases ps.len(),
{
    let q = seq![x] + ps;
    if ps.len() == 1 {
        assert(q.drop_last() == seq![x]);
        assert(q.last() == ps[0]);
        assert(join(seq![x], sep) == x);
        assert(join(q, sep) == join(q.drop_last(), sep) + sep + q.last());
        assert(join(ps, sep) == ps[0]);
    } else {
        assert(q.drop_last() == seq![x] + ps.drop_last());
        lemma_join_front(x, ps.drop_last(), sep);
        assert(q.last() == ps.last());
        assert(join(q, sep) == join(q.drop_last(), sep) + sep + q.last());
        assert(join(ps, sep) == join(ps.drop_last(), sep) + sep + ps.last());
        assert(join(q, sep) == x + sep + join(ps.drop_last(), sep) + sep + ps.last());
        assert(x + sep + join(ps.drop_last(), sep) + sep + ps.last() == x + sep + (join(ps.drop_last(), sep) + sep + ps.last()));
    }
}

pub proof fn lemma_join_lines(c: Seq<char>)
    requires
        !has_char(c, '\r'),
    ensures
        lines(c + seq!['\n']).len() >= 1,
        join(lines(c + seq!['\n']), seq!['\n']) == c,
    decreases c.len(),
{
    lemma_find_char(c, '\n');
    let i = find_char(c, '\n');
    if i < 0 {
        lemma_lines_single(c);
        if c.len() > 0 && c.last() == '\r' {
            assert(c[c.len() - 1] == '\r');
        }
    } else {
        let x = c.take(i);
        let y = c.skip(i + 1);
        assert(c + seq!['\n'] == (x + seq!['\n']) + (y + seq!['\n']));
        assert(!has_char(x, '\n')) by {
            if has_char(x, '\n') {
                let j = choose|j: int| 0 <= j < x.len() && x[j] == '\n';
                assert(c[j] == '\n');
            }
        }
        lemma_lines_single(x);
        lemma_lines_append(x + seq!['\n'], y + seq!['\n']);
        if x.len() > 0 && x.last() == '\r' {
            assert(c[i - 1] == '\r');
        }
        assert(strip_cr(x) == x);
        assert(!has_char(y, '\r')) by {
            if has_char(y, '\r') {
                let j = choose|j: int| 0 <= j < y.len() && y[j] == '\r';
                assert(c[i + 1 + j] == '\r');
            }
        }
        lemma_join_lines(y);
        lemma_join_front(x, lines(y + seq!['\n']), seq!['\n']);
        assert(x + seq!['\n'] + y == c);
    }
}

pub proof fn lemma_trim_framed(c: Seq<char>)
    requires
        c.len() == 0 || (!is_ws(c[0]) && !is_ws(c.last())),
    ensures
        trim(seq!['\n'] + c + seq!['\n']) == c,
{
    let s = seq!['\n'] + c + seq!['\n'];
    if c.len() == 0 {
        assert(is_ws(s[0]) && is_ws(s[1]));
        lemma_trim_start_at(s, 2);
        assert(s.skip(2).len() == 0);
        lemma_trim_end_at(s.skip(2), 0);
        assert(s.skip(2).take(0) == c);
    } else {
        assert(s[1] == c[0]);
        lemma_trim_start_at(s, 1);
        let t = s.skip(1);
        assert(t == c + seq!['\n']);
        assert(t[c.len() - 1] == c.last());
        lemma_trim_end_at(t, c.len() as int);
        assert(t.take(c.len() as int) == c);
    }
}

pub proof fn lemma_split_bar(x: Seq<char>, y: Seq<char>)
    requires
        !has_char(x, '|'),
    ensures
        split(x + seq!['|'] + y, '|') == seq![x] + split(y, '|'),
{
    let s = x + seq!['|'] + y;
    assert forall|j: int| 0 <= j < s.len() && j < x.len() implies s[j] != '|' by {
        assert(s[j] == x[j]);
        if x[j] == '|' {
            assert(has_char(x, '|'));
        }
    }
    lemma_find_char_at(s, '|', x.len() as int);
    assert(s.take(x.len() as int) == x);
    assert(s.skip(x.len() as int + 1) == y);
}

pub proof fn lemma_split_none(x: Seq<char>)
    requires
        !has_char(x, '|'),
    ensures
        split(x, '|') == seq![x],
{
    lemma_find_char(x, '|');
    if find_char(x, '|') >= 0 {
        assert(x[find_char(x, '|')] == '|');
    }
}

/// The header line of a fact reads back as its domain, actor and id.
pub proof fn lemma_header_roundtrip(d: Seq<char>, a: Seq<char>, id: Seq<char>)
    requires
        field_ok(d),
        field_ok(a),
        field_ok(id),
    ensures
        header_of(fact_mark() + seq!['|'] + d + seq!['|'] + a + seq!['|'] + id) == Some((d, a, id, Seq::<char>::empty())),
{
    let m = fact_mark();
    assert(!has_char(m, '|')) by {
        if has_char(m, '|') {
            let j = choose|j: int| 0 <= j < m.len() && m[j] == '|';
        }
    }
    let h = m + seq!['|'] + d + seq!['|'] + a + seq!['|'] + id;
    lemma_split_bar(m, d + seq!['|'] + a + seq!['|'] + id);
    assert(h == m + seq!['|'] + (d + seq!['|'] + a + seq!['|'] + id));
    lemma_split_bar(d, a + seq!['|'] + id);
    assert(d + seq!['|'] + a + seq!['|'] + id == d + seq!['|'] + (a + seq!['|'] + id));
    lemma_split_bar(a, id);
    lemma_split_none(id);
    assert(split(h, '|') == seq![m, d, a, id]);
}

proof fn lemma_empty_line_not_header()
    ensures
        header_of(Seq::<char>::empty()) is None,
{
    lemma_split_none(Seq::<char>::empty());
}

/// Lines that are not headers go to the body of the fact under way.
pub proof fn lemma_blocks_body(nh: Seq<Seq<char>>, rest: Seq<Seq<char>>, c: crate::storage::HeaderView, body: Seq<Seq<char>>)
    requires
        forall|k: int| 0 <= k < nh.len() ==> header_of(#[trigger] nh[k]) is None,
    ensures
        blocks_from(nh + rest, Some(c), body) == blocks_from(rest, Some(c), body + nh),
    decreases nh.len(),
{
    if nh.len() == 0 {
        assert(nh + rest == rest);
        assert(body + nh == body);
    } else {
        let s = nh + rest;
        assert(s[0] == nh[0]);
        assert(s.drop_first() == nh.drop_first() + rest);
        lemma_blocks_body(nh.drop_first(), rest, c, body.push(nh[0]));
        assert(body.push(nh[0]) + nh.drop_first() == body + nh);
    }
}

proof fn lemma_fact_text_lines(e: EntryView)
    requires
        writable(e),
    ensures
        lines(fact_text(fact_mark(), e)) == seq![fact_mark() + seq!['|'] + e.1.0 + seq!['|'] + e.1.1 + seq!['|'] + e.0, Seq::<char>::empty()]
            + lines(e.1.2 + seq!['\n']) + seq![Seq::<char>::empty()],
{
    let h = fact_mark() + seq!['|'] + e.1.0 + seq!['|'] + e.1.1 + seq!['|'] + e.0;
    let c = e.1.2;
    let nl = seq!['\n'];
    let t = fact_text(fact_mark(), e);
    assert(t == (h + nl) + (nl + ((c + nl) + nl)));
    assert(!has_char(h, '\n')) by {
        if has_char(h, '\n') {
            let j = choose|j: int| 0 <= j < h.len() && h[j] == '\n';
            let m = fact_mark();
            if j < 5 {
                assert(h[j] == m[j]);
            } else if j == 5 {
            } else if j < 6 + e.1.0.len() {
                assert(h[j] == e.1.0[j - 6]);
                assert(has_char(e.1.0, '\n'));
            } else if j == 6 + e.1.0.len() {
            } else if j < 7 + e.1.0.len() + e.1.1.len() {
                assert(h[j] == e.1.1[j - 7 - e.1.0.len()]);
                assert(has_char(e.1.1, '\n'));
            } else if j == 7 + e.1.0.len() + e.1.1.len() {
            } else {
                assert(h[j] == e.0[j - 8 - e.1.0.len() - e.1.1.len()]);
                assert(has_char(e.0, '\n'));
            }
        }
    }
    lemma_lines_single(h);
    assert(strip_cr(h) == h) by {
        if e.0.len() > 0 {
            assert(h.last() == e.0.last());
            assert(e.0[e.0.len() - 1] == e.0.last());
            if e.0.last() == '\r' {
                assert(has_char(e.0, '\r'));
            }
        } else {
            assert(h.last() == '|');
        }
    }
    lemma_lines_append(h + nl, nl + ((c + nl) + nl));
    lemma_lines_single(Seq::<char>::empty());
    assert(Seq::<char>::empty() + nl == nl);
    assert(strip_cr(Seq::<char>::empty()) == Seq::<char>::empty());
    lemma_lines_append(nl, (c + nl) + nl);
    lemma_lines_append(c + nl, nl);
}

/// The facts read from the text of `es` after a fact under way are that
/// fact and then `es`.
pub proof fn lemma_blocks_of_text(es: Seq<EntryView>, cur: Option<crate::storage::HeaderView>, body: Seq<Seq<char>>)
    requires
        forall|k: int| 0 <= k < es.len() ==> writable(#[trigger] es[k]),
    ensures
        blocks_from(lines(entries_text(fact_mark(), es)), cur, body) == emit(cur, body) + es,
    decreases es.len(),
{
    if es.len() == 0 {
        assert(lines(Seq::<char>::empty()) == Seq::<Seq<char>>::empty());
        assert(emit(cur, body) + es == emit(cur, body));
    } else {
        let e = es[0];
        assert(writable(e));
        let rest = es.drop_first();
        assert forall|k: int| 0 <= k < rest.len() implies writable(#[trigger] rest[k]) by {
            assert(rest[k] == es[k + 1]);
        }
        let h = fact_mark() + seq!['|'] + e.1.0 + seq!['|'] + e.1.1 + seq!['|'] + e.0;
        let lc = lines(e.1.2 + seq!['\n']);
        let nh = seq![Seq::<char>::empty()] + lc + seq![Seq::<char>::empty()];
        let t0 = fact_text(fact_mark(), e);
        let tr = entries_text(fact_mark(), rest);
        assert(t0.last() == '\n');
        lemma_lines_append(t0, tr);
        lemma_fact_text_lines(e);
        let lr = lines(tr);
        let all = lines(t0 + tr);
        assert(all == seq![h] + (nh + lr));
        lemma_header_roundtrip(e.1.0, e.1.1, e.0);
        let hv = (e.1.0, e.1.1, e.0, Seq::<char>::empty());
        assert(all[0] == h);
        assert(all.drop_first() == nh + lr);
        assert(blocks_from(all, cur, body) == emit(cur, body) + blocks_from(nh + lr, Some(hv), seq![]));
        lemma_empty_line_not_header();
        assert forall|k: int| 0 <= k < nh.len() implies header_of(#[trigger] nh[k]) is None by {
            if k == 0 || k == nh.len() - 1 {
                assert(nh[k] == Seq::<char>::empty());
            } else {
                assert(nh[k] == lc[k - 1]);
            }
        }
        lemma_blocks_body(nh, lr, hv, seq![]);
        assert(Seq::<Seq<char>>::empty() + nh == nh);
        lemma_blocks_of_text(rest, Some(hv), nh);
        lemma_join_lines(e.1.2);
        assert(nh == seq![Seq::<char>::empty()] + (lc + seq![Seq::<char>::empty()]));
        lemma_join_front(Seq::<char>::empty(), lc + seq![Seq::<char>::empty()], seq!['\n']);
        let q = lc + seq![Seq::<char>::empty()];
        assert(q.drop_last() == lc);
        assert(join(q, seq!['\n']) == join(lc, seq!['\n']) + seq!['\n'] + Seq::<char>::empty());
        assert(join(nh, seq!['\n']) == seq!['\n'] + e.1.2 + seq!['\n']);
        lemma_trim_framed(e.1.2);
        assert(emit(Some(hv), nh) == seq![e]);
        assert(emit(cur, body) + (seq![e] + rest) == emit(cur, body) + es);
    }
}

/// Inserting facts with distinct ids into an empty storage keeps them as they are.
pub proof fn lemma_insert_all_fresh(es: Seq<EntryView>)
    requires
        unique_keys(es),
    ensures
        insert_all(Seq::<EntryView>::empty(), es) == es,
    decreases es.len(),
{
    if es.len() > 0 {
        let p = es.drop_last();
        assert(unique_keys(p)) by {
            assert forall|i: int, j: int| 0 <= i < p.len() && 0 <= j < p.len() && i != j implies (#[trigger] p[i]).0 != (#[trigger] p[j]).0 by {
                assert(p[i] == es[i] && p[j] == es[j]);
            }
        }
        lemma_insert_all_fresh(p);
        lemma_key_index(p, es.last().0);
        if has_key(p, es.last().0) {
            let i = choose|i: int| 0 <= i < p.len() && (#[trigger] p[i]).0 == es.last().0;
            assert(p[i] == es[i]);
            assert(es[es.len() - 1] == es.last());
        }
        assert(p.push(es.last()) == es);
    }
}

/// What a storage writes with the `#FACT` delimiter, read back into an empty
/// storage, gives back the same facts in the same order: for facts whose ids
/// are distinct and not new-id markers, whose ids, domains and actors hold no
/// `|`, `'\n'` or `'\r'`, and whose contents have no leading or trailing
/// whitespace, no `'\r'` and no line that reads as a header. Whatever ids the
/// clock would have given (`gen`), none is used.
pub proof fn law_write_read_roundtrip(es: Seq<EntryView>, gen: Seq<u128>)
    requires
        unique_keys(es),
        forall|k: int| 0 <= k < es.len() ==> writable(#[trigger] es[k]),
    ensures
        parse_blocks(entries_text(fact_mark(), es)) == es,
        insert_all(Seq::<EntryView>::empty(), resolve_ids(parse_blocks(entries_text(fact_mark(), es)), gen)) == es,
{
    lemma_blocks_of_text(es, None, seq![]);
    assert(emit(None, seq![]) + es == es);
    let r = resolve_ids(es, gen);
    assert(r == es) by {
        assert forall|j: int| 0 <= j < es.len() implies r[j] == es[j] by {
            assert(writable(es[j]));
        }
    }
    lemma_insert_all_fresh(es);
}

} // verus!
