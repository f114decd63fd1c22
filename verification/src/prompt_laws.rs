//! What filling the placeholders of the prompt does to a text that holds
//! one of them.
use crate::ai::{access_text, access_words, fill, Ai};
use crate::text::{join, replace, str_replace};
use vstd::prelude::*;

verus! {

/// A placeholder's shape: at least two characters, `%` first and last.
pub open spec fn framed(q: Seq<char>) -> bool {
    q.len() >= 2 && q[0] == '%' && q[q.len() - 1] == '%'
}

/// `s` holds `%` at most once.
pub open spec fn one_pct_at_most(s: Seq<char>) -> bool {
    forall|i: int, j: int| 0 <= i < j < s.len() && #[trigger] s[i] == '%' ==> #[trigger] s[j] != '%'
}

/// A placeholder cannot occur in a text that holds `%` at most once.
proof fn lemma_replace_one_pct(s: Seq<char>, q: Seq<char>, rep: Seq<char>)
    requires
        framed(q),
        one_pct_at_most(s),
    ensures
        replace(s, q, rep) == s,
    decreases s.len(),
{
    if s.len() < q.len() {
    } else if s.take(q.len() as int) == q {
        assert(s[0] == s.take(q.len() as int)[0]);
        assert(s[q.len() - 1] == s.take(q.len() as int)[q.len() - 1]);
        assert(s[0] == '%');
        assert(s[q.len() - 1] != '%');
    } else {
        let t = s.drop_first();
        assert forall|i: int, j: int| 0 <= i < j < t.len() && #[trigger] t[i] == '%' implies #[trigger] t[j] != '%' by {
            assert(s[i + 1] == t[i]);
            assert(s[j + 1] == t[j]);
        }
        lemma_replace_one_pct(t, q, rep);
        assert(seq![s[0]] + t =~= s);
    }
}

/// A prefix without `%` is kept as it is by replacing a placeholder.
proof fn lemma_replace_after_prefix(pre: Seq<char>, s: Seq<char>, q: Seq<char>, rep: Seq<char>)
    requires
        framed(q),
        !pre.contains('%'),
    ensures
        replace(pre + s, q, rep) == pre + replace(s, q, rep),
    decreases pre.len(),
{
    let t = pre + s;
    if pre.len() == 0 {
        assert(t =~= s);
        assert(pre + replace(s, q, rep) =~= replace(s, q, rep));
    } else if t.len() < q.len() {
    } else if t.take(q.len() as int) == q {
        assert(t[0] == t.take(q.len() as int)[0]);
        assert(t[0] == pre[0]);
        assert(pre.contains(pre[0]));
    } else {
        let p1 = pre.drop_first();
        assert(!p1.contains('%')) by {
            if p1.contains('%') {
                let i = choose|i: int| 0 <= i < p1.len() && p1[i] == '%';
                assert(pre[i + 1] == p1[i]);
            }
        }
        assert(t.drop_first() =~= p1 + s);
        lemma_replace_after_prefix(p1, s, q, rep);
        assert(seq![t[0]] + (p1 + replace(s, q, rep)) =~= pre + replace(s, q, rep));
    }
}

/// `%` occurs in `p` only first and last.
pub open spec fn pct_only_at_ends(p: Seq<char>) -> bool {
    &&& framed(p)
    &&& forall|i: int| 0 < i < p.len() - 1 ==> #[trigger] p[i] != '%'
}

/// In `p + post`, with `%` only at the ends of `p` and not in `post`, a
/// placeholder other than `p` occurs nowhere, and `p` itself only first.
proof fn lemma_replace_placeholder(p: Seq<char>, post: Seq<char>, q: Seq<char>, rep: Seq<char>)
    requires
        pct_only_at_ends(p),
        framed(q),
        !post.contains('%'),
    ensures
        q == p ==> replace(p + post, q, rep) == rep + post,
        q != p ==> replace(p + post, q, rep) == p + post,
{
    let t = p + post;
    assert(one_pct_at_most(post)) by {
        assert forall|i: int, j: int| 0 <= i < j < post.len() && #[trigger] post[i] == '%' implies #[trigger] post[j] != '%' by {
            assert(post.contains(post[i]));
        }
    }
    if q == p {
        assert(t.take(q.len() as int) =~= p);
        assert(t.skip(q.len() as int) =~= post);
        lemma_replace_one_pct(post, q, rep);
    } else {
        if t.len() < q.len() {
        } else if t.take(q.len() as int) == q {
            let k = q.len() - 1;
            assert(t[k] == t.take(q.len() as int)[k]);
            if k < p.len() - 1 {
                assert(t[k] == p[k]);
            } else if k == p.len() - 1 {
                assert(t.take(q.len() as int) =~= p);
            } else {
                assert(t[k] == post[k - p.len()]);
                assert(post.contains(post[k - p.len()]));
            }
        } else {
            let u = t.drop_first();
            assert(one_pct_at_most(u)) by {
                assert forall|i: int, j: int| 0 <= i < j < u.len() && #[trigger] u[i] == '%' implies #[trigger] u[j] != '%' by {
                    assert(u[i] == t[i + 1]);
                    assert(u[j] == t[j + 1]);
                    if j + 1 >= p.len() {
                        assert(t[j + 1] == post[j + 1 - p.len()]);
                        assert(post.contains(post[j + 1 - p.len()]));
                    } else {
                        assert(t[i + 1] == p[i + 1]);
                        assert(t[j + 1] == p[j + 1]);
                    }
                }
            }
            lemma_replace_one_pct(u, q, rep);
            assert(seq![t[0]] + u =~= t);
        }
    }
}

/// Filling is filling the first pairs, then the rest.
proof fn lemma_fill_split(t: Seq<char>, a: Seq<(Seq<char>, Seq<char>)>, b: Seq<(Seq<char>, Seq<char>)>)
    ensures
        fill(t, a + b) == fill(fill(t, a), b),
    decreases b.len(),
{
    if b.len() == 0 {
        assert(a + b =~= a);
    } else {
        assert((a + b).drop_last() =~= a + b.drop_last());
        assert((a + b).last() == b.last());
        lemma_fill_split(t, a, b.drop_last());
    }
}

/// Placeholders that do not occur in `t` leave it as it is.
proof fn lemma_fill_absent(pre: Seq<char>, p: Seq<char>, post: Seq<char>, ps: Seq<(Seq<char>, Seq<char>)>)
    requires
        pct_only_at_ends(p),
        !pre.contains('%'),
        !post.contains('%'),
        forall|k: int| 0 <= k < ps.len() ==> framed((#[trigger] ps[k]).0) && ps[k].0 != p,
    ensures
        fill(pre + p + post, ps) == pre + p + post,
    decreases ps.len(),
{
    if ps.len() > 0 {
        lemma_fill_absent(pre, p, post, ps.drop_last());
        let q = ps.last().0;
        assert(framed(ps[ps.len() - 1].0));
        assert(pre + p + post =~= pre + (p + post));
        lemma_replace_after_prefix(pre, p + post, q, ps.last().1);
        lemma_replace_placeholder(p, post, q, ps.last().1);
        assert(str_replace(pre + p + post, q, ps.last().1) == replace(pre + p + post, q, ps.last().1));
    }
}

/// Placeholders leave a text without `%` as it is.
proof fn lemma_fill_no_pct(t: Seq<char>, ps: Seq<(Seq<char>, Seq<char>)>)
    requires
        !t.contains('%'),
        forall|k: int| 0 <= k < ps.len() ==> framed((#[trigger] ps[k]).0),
    ensures
        fill(t, ps) == t,
    decreases ps.len(),
{
    if ps.len() > 0 {
        lemma_fill_no_pct(t, ps.drop_last());
        assert(framed(ps[ps.len() - 1].0));
        assert(one_pct_at_most(t)) by {
            assert forall|i: int, j: int| 0 <= i < j < t.len() && #[trigger] t[i] == '%' implies #[trigger] t[j] != '%' by {
                assert(t.contains(t[i]));
            }
        }
        lemma_replace_one_pct(t, ps.last().0, ps.last().1);
    }
}

/// The words of access rights hold no `%`.
proof fn lemma_access_text_no_pct(a: Seq<char>)
    ensures
        !access_text(a).contains('%'),
{
    lemma_access_words_no_pct(a);
    reveal_strlit("none");
    reveal_strlit("|");
    if access_words(a).len() > 0 {
        lemma_join_no_pct(access_words(a), "|"@);
    } else {
        assert(!"none"@.contains('%')) by {
            if "none"@.contains('%') {
                let i = choose|i: int| 0 <= i < "none"@.len() && "none"@[i] == '%';
            }
        }
    }
}

proof fn lemma_access_words_no_pct(a: Seq<char>)
    ensures
        forall|k: int| 0 <= k < access_words(a).len() ==> !(#[trigger] access_words(a)[k]).contains('%'),
    decreases a.len(),
{
    if a.len() > 0 {
        lemma_access_words_no_pct(a.drop_last());
        reveal_strlit("select");
        reveal_strlit("insert");
        reveal_strlit("update");
        reveal_strlit("delete");
        let w = access_words(a);
        assert forall|k: int| 0 <= k < w.len() implies !(#[trigger] w[k]).contains('%') by {
            let r = access_words(a.drop_last());
            if k < r.len() {
                assert(w[k] == r[k]);
            } else if w[k].contains('%') {
                let i = choose|i: int| 0 <= i < w[k].len() && w[k][i] == '%';
                assert(w[k].len() == 6);
            }
        }
    }
}

proof fn lemma_join_no_pct(parts: Seq<Seq<char>>, sep: Seq<char>)
    requires
        !sep.contains('%'),
        forall|k: int| 0 <= k < parts.len() ==> !(#[trigger] parts[k]).contains('%'),
    ensures
        !join(parts, sep).contains('%'),
    decreases parts.len(),
{
    if parts.len() > 1 {
        lemma_join_no_pct(parts.drop_last(), sep);
        let a = join(parts.drop_last(), sep);
        let b = parts.last();
        assert(!b.contains('%')) by {
            assert(parts[parts.len() - 1] == b);
        }
        let j = a + sep + b;
        if j.contains('%') {
            let i = choose|i: int| 0 <= i < j.len() && j[i] == '%';
            if i < a.len() {
                assert(a[i] == '%');
            } else if i < a.len() + sep.len() {
                assert(sep[i - a.len()] == '%');
            } else {
                assert(b[i - a.len() - sep.len()] == '%');
            }
        }
    } else if parts.len() == 1 {
        assert(parts[0] == join(parts, sep));
    }
}

/// The placeholders of the prompt, in the order they are filled.
pub open spec fn prompt_keys() -> Seq<Seq<char>> {
    seq![
        "%shell%"@,
        "%chat%"@,
        "%provider%"@,
        "%model-name%"@,
        "%version%"@,
        "%now%"@,
        "%access-access%"@,
        "%access-history%"@,
        "%access-memory%"@,
        "%access-prompt%"@,
        "%access-read%"@,
        "%access-write%"@,
        "%access-clipboard%"@,
        "%access-shell%"@,
    ]
}

/// Each placeholder holds `%` only first and last, and no two are the same.
proof fn lemma_prompt_keys()
    ensures
        prompt_keys().len() == 14,
        forall|k: int| 0 <= k < 14 ==> pct_only_at_ends(#[trigger] prompt_keys()[k]),
        forall|j: int, k: int| 0 <= j < 14 && 0 <= k < 14 && j != k ==> #[trigger] prompt_keys()[j] != #[trigger] prompt_keys()[k],
{
    reveal_strlit("%shell%");
    reveal_strlit("%chat%");
    reveal_strlit("%provider%");
    reveal_strlit("%model-name%");
    reveal_strlit("%version%");
    reveal_strlit("%now%");
    reveal_strlit("%access-access%");
    reveal_strlit("%access-history%");
    reveal_strlit("%access-memory%");
    reveal_strlit("%access-prompt%");
    reveal_strlit("%access-read%");
    reveal_strlit("%access-write%");
    reveal_strlit("%access-clipboard%");
    reveal_strlit("%access-shell%");
    assert("%shell%"@ =~= seq!['%', 's', 'h', 'e', 'l', 'l', '%']);
    assert("%chat%"@ =~= seq!['%', 'c', 'h', 'a', 't', '%']);
    assert("%provider%"@ =~= seq!['%', 'p', 'r', 'o', 'v', 'i', 'd', 'e', 'r', '%']);
    assert("%model-name%"@ =~= seq!['%', 'm', 'o', 'd', 'e', 'l', '-', 'n', 'a', 'm', 'e', '%']);
    assert("%version%"@ =~= seq!['%', 'v', 'e', 'r', 's', 'i', 'o', 'n', '%']);
    assert("%now%"@ =~= seq!['%', 'n', 'o', 'w', '%']);
    assert("%access-access%"@ =~= seq!['%', 'a', 'c', 'c', 'e', 's', 's', '-', 'a', 'c', 'c', 'e', 's', 's', '%']);
    assert("%access-history%"@ =~= seq!['%', 'a', 'c', 'c', 'e', 's', 's', '-', 'h', 'i', 's', 't', 'o', 'r', 'y', '%']);
    assert("%access-memory%"@ =~= seq!['%', 'a', 'c', 'c', 'e', 's', 's', '-', 'm', 'e', 'm', 'o', 'r', 'y', '%']);
    assert("%access-prompt%"@ =~= seq!['%', 'a', 'c', 'c', 'e', 's', 's', '-', 'p', 'r', 'o', 'm', 'p', 't', '%']);
    assert("%access-read%"@ =~= seq!['%', 'a', 'c', 'c', 'e', 's', 's', '-', 'r', 'e', 'a', 'd', '%']);
    assert("%access-write%"@ =~= seq!['%', 'a', 'c', 'c', 'e', 's', 's', '-', 'w', 'r', 'i', 't', 'e', '%']);
    assert("%access-clipboard%"@ =~= seq!['%', 'a', 'c', 'c', 'e', 's', 's', '-', 'c', 'l', 'i', 'p', 'b', 'o', 'a', 'r', 'd', '%']);
    assert("%access-shell%"@ =~= seq!['%', 'a', 'c', 'c', 'e', 's', 's', '-', 's', 'h', 'e', 'l', 'l', '%']);
    let ks = prompt_keys();
    assert forall|k: int| 0 <= k < 14 implies pct_only_at_ends(#[trigger] ks[k]) by {
        if k == 0 {} else if k == 1 {} else if k == 2 {} else if k == 3 {} else if k == 4 {} else if k == 5 {} else if k == 6 {}
        else if k == 7 {} else if k == 8 {} else if k == 9 {} else if k == 10 {} else if k == 11 {} else if k == 12 {} else {}
    }
    assert forall|j: int, k: int| 0 <= j < 14 && 0 <= k < 14 && j != k implies #[trigger] ks[j] != #[trigger] ks[k] by {
        if ks[j].len() == ks[k].len() {
            assert(ks[j].len() >= 9);
            assert(ks[j][2] != ks[k][2] || ks[j][8] != ks[k][8]);
        }
    }
}

/// The pairs the prompt is filled with (see `Ai::prompt_of`).
spec fn pairs_of(a: Ai, version: Seq<char>, now: Seq<char>) -> Seq<(Seq<char>, Seq<char>)> {
    seq![
        ("%shell%"@, a.cfg_str("shell"@, "/bin/bash"@)),
        ("%chat%"@, a.chat@),
        ("%provider%"@, a.provider@),
        ("%model-name%"@, crate::json::str_or(Some(crate::ai::at_path(crate::json::jview(a.config), seq!["application"@, "ai"@, "providers"@, a.provider@, "models"@, a.model@])), "unknown"@)),
        ("%version%"@, version),
        ("%now%"@, now),
        ("%access-access%"@, access_text(a.access_access@)),
        ("%access-history%"@, access_text(a.access_history@)),
        ("%access-memory%"@, access_text(a.access_memory@)),
        ("%access-prompt%"@, access_text(a.access_prompt@)),
        ("%access-read%"@, access_text(a.access_read@)),
        ("%access-write%"@, access_text(a.access_write@)),
        ("%access-clipboard%"@, access_text(a.access_clipboard@)),
        ("%access-shell%"@, access_text(a.access_shell@)),
    ]
}

/// A text holding the `k`-th placeholder once and no other `%` is filled
/// with its value, when the value holds no `%`.
proof fn lemma_fill_at(pre: Seq<char>, post: Seq<char>, ps: Seq<(Seq<char>, Seq<char>)>, k: int)
    requires
        0 <= k < ps.len(),
        pct_only_at_ends(ps[k].0),
        !ps[k].1.contains('%'),
        !pre.contains('%'),
        !post.contains('%'),
        forall|j: int| 0 <= j < ps.len() ==> framed((#[trigger] ps[j]).0),
        forall|j: int| 0 <= j < ps.len() && j != k ==> (#[trigger] ps[j]).0 != ps[k].0,
    ensures
        fill(pre + ps[k].0 + post, ps) == pre + ps[k].1 + post,
{
    let p = ps[k].0;
    let r = ps[k].1;
    let t = pre + p + post;
    let before = ps.take(k);
    let after = ps.skip(k + 1);
    assert(ps =~= before + seq![ps[k]] + after);
    assert forall|j: int| 0 <= j < before.len() implies framed((#[trigger] before[j]).0) && before[j].0 != p by {
        assert(before[j] == ps[j]);
    }
    assert forall|j: int| 0 <= j < after.len() implies framed((#[trigger] after[j]).0) by {
        assert(after[j] == ps[j + k + 1]);
    }
    lemma_fill_absent(pre, p, post, before);
    lemma_fill_split(t, before, seq![ps[k]]);
    assert((before + seq![ps[k]]).drop_last() =~= before);
    assert(pre + p + post =~= pre + (p + post));
    lemma_replace_after_prefix(pre, p + post, p, r);
    lemma_replace_placeholder(p, post, p, r);
    let filled = pre + r + post;
    assert(pre + (r + post) =~= filled);
    assert(!filled.contains('%')) by {
        if filled.contains('%') {
            let i = choose|i: int| 0 <= i < filled.len() && filled[i] == '%';
            if i < pre.len() {
                assert(pre[i] == '%');
            } else if i < pre.len() + r.len() {
                assert(r[i - pre.len()] == '%');
            } else {
                assert(post[i - pre.len() - r.len()] == '%');
            }
        }
    }
    lemma_fill_no_pct(filled, after);
    lemma_fill_split(t, before + seq![ps[k]], after);
}

/// The `k`-th placeholder of the prompt, filled for a text that holds it.
proof fn lemma_prompt_fills(a: Ai, version: Seq<char>, now: Seq<char>, pre: Seq<char>, post: Seq<char>, k: int)
    requires
        0 <= k < 14,
        crate::storage::entries_text(a.storage.delimiter(), a.storage.entries()) == pre + prompt_keys()[k] + post,
        !pairs_of(a, version, now)[k].1.contains('%'),
        !pre.contains('%'),
        !post.contains('%'),
    ensures
        a.prompt_of(version, now) == pre + pairs_of(a, version, now)[k].1 + post,
{
    lemma_prompt_keys();
    let ps = pairs_of(a, version, now);
    assert forall|j: int| 0 <= j < 14 implies (#[trigger] ps[j]).0 == prompt_keys()[j] by {
    reveal_strlit("%shell%");
    reveal_strlit("%chat%");
    reveal_strlit("%provider%");
    reveal_strlit("%model-name%");
    reveal_strlit("%version%");
    reveal_strlit("%now%");
    reveal_strlit("%access-access%");
    reveal_strlit("%access-history%");
    reveal_strlit("%access-memory%");
    reveal_strlit("%access-prompt%");
    reveal_strlit("%access-read%");
    reveal_strlit("%access-write%");
    reveal_strlit("%access-clipboard%");
    reveal_strlit("%access-shell%");
        if j == 0 {} else if j == 1 {} else if j == 2 {} else if j == 3 {} else if j == 4 {} else if j == 5 {} else if j == 6 {}
        else if j == 7 {} else if j == 8 {} else if j == 9 {} else if j == 10 {} else if j == 11 {} else if j == 12 {} else {}
    }
    assert(a.prompt_of(version, now) == fill(crate::storage::entries_text(a.storage.delimiter(), a.storage.entries()), ps));
    assert forall|j: int| 0 <= j < ps.len() implies framed((#[trigger] ps[j]).0) by {
        assert(ps[j].0 == prompt_keys()[j]);
        assert(pct_only_at_ends(prompt_keys()[j]));
    }
    assert forall|j: int| 0 <= j < ps.len() && j != k implies (#[trigger] ps[j]).0 != ps[k].0 by {
        assert(ps[j].0 == prompt_keys()[j]);
        assert(ps[k].0 == prompt_keys()[k]);
    }
    lemma_fill_at(pre, post, ps, k);
}

/// Each `%access-..%` placeholder of the prompt that is sent is filled with
/// the words of that domain's rights in the session, whatever the other
/// rights, the shell, chat, provider, model, version and time are: a prompt
/// text that holds it once, and no other `%`, is sent as that text with the
/// placeholder replaced by `access_text` of those rights (e.g.
/// `%access-read%` by the words of `access_read`).
pub proof fn law_prompt_fills_access_rights(a: Ai, version: Seq<char>, now: Seq<char>, pre: Seq<char>, post: Seq<char>, key: Seq<char>, rights: Seq<char>)
    requires
        ({
        ||| key == "%access-access%"@ && rights == a.access_access@
        ||| key == "%access-history%"@ && rights == a.access_history@
        ||| key == "%access-memory%"@ && rights == a.access_memory@
        ||| key == "%access-prompt%"@ && rights == a.access_prompt@
        ||| key == "%access-read%"@ && rights == a.access_read@
        ||| key == "%access-write%"@ && rights == a.access_write@
        ||| key == "%access-clipboard%"@ && rights == a.access_clipboard@
        ||| key == "%access-shell%"@ && rights == a.access_shell@
        }),
        crate::storage::entries_text(a.storage.delimiter(), a.storage.entries()) == pre + key + post,
        !pre.contains('%'),
        !post.contains('%'),
    ensures
        a.prompt_of(version, now) == pre + access_text(rights) + post,
{
    lemma_access_text_no_pct(rights);
    let k: int = if key == "%access-access%"@ { 6 } else if key == "%access-history%"@ { 7 } else if key == "%access-memory%"@ { 8 }
        else if key == "%access-prompt%"@ { 9 } else if key == "%access-read%"@ { 10 } else if key == "%access-write%"@ { 11 }
        else if key == "%access-clipboard%"@ { 12 } else { 13 };
    lemma_prompt_keys();
    reveal_strlit("%shell%");
    reveal_strlit("%chat%");
    reveal_strlit("%provider%");
    reveal_strlit("%model-name%");
    reveal_strlit("%version%");
    reveal_strlit("%now%");
    reveal_strlit("%access-access%");
    reveal_strlit("%access-history%");
    reveal_strlit("%access-memory%");
    reveal_strlit("%access-prompt%");
    reveal_strlit("%access-read%");
    reveal_strlit("%access-write%");
    reveal_strlit("%access-clipboard%");
    reveal_strlit("%access-shell%");
    assert(prompt_keys()[k] == key);
    lemma_prompt_fills(a, version, now, pre, post, k);
}

/// The `%chat%`, `%provider%`, `%version%` and `%now%` placeholders of the
/// prompt that is sent are filled with the session's chat and provider and
/// the given version and time: a prompt text that holds one of them once,
/// and no other `%`, is sent with it replaced by that value (when the value
/// holds no `%`).
pub proof fn law_prompt_fills_session_names(a: Ai, version: Seq<char>, now: Seq<char>, pre: Seq<char>, post: Seq<char>, key: Seq<char>, value: Seq<char>)
    requires
        ({
        ||| key == "%chat%"@ && value == a.chat@
        ||| key == "%provider%"@ && value == a.provider@
        ||| key == "%version%"@ && value == version
        ||| key == "%now%"@ && value == now
        }),
        !value.contains('%'),
        crate::storage::entries_text(a.storage.delimiter(), a.storage.entries()) == pre + key + post,
        !pre.contains('%'),
        !post.contains('%'),
    ensures
        a.prompt_of(version, now) == pre + value + post,
{
    let k: int = if key == "%chat%"@ { 1 } else if key == "%provider%"@ { 2 } else if key == "%version%"@ { 4 } else { 5 };
    lemma_prompt_keys();
    reveal_strlit("%shell%");
    reveal_strlit("%chat%");
    reveal_strlit("%provider%");
    reveal_strlit("%model-name%");
    reveal_strlit("%version%");
    reveal_strlit("%now%");
    reveal_strlit("%access-access%");
    reveal_strlit("%access-history%");
    reveal_strlit("%access-memory%");
    reveal_strlit("%access-prompt%");
    reveal_strlit("%access-read%");
    reveal_strlit("%access-write%");
    reveal_strlit("%access-clipboard%");
    reveal_strlit("%access-shell%");
    assert(prompt_keys()[k] == key);
    lemma_prompt_fills(a, version, now, pre, post, k);
}

} // verus!
