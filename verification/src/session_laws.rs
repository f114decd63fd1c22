//! Properties of a session that span its operations.
use crate::ai::{contains_seq, Ai};
use crate::chat::{mark, one_line, write_target, EffectView};
use crate::completion::{source_of, starts_with, with_prefix, ValueSource};
use crate::fact_map::has_key;
use crate::flow::{phase_after, Phase};
use crate::run::{files_mapped, first_pair, pair_set};
use crate::storage::{allows, updated, Storage};
use crate::fact_map::{key_index, lemma_key_index};
use crate::json::jview;
use crate::text::replace;
use vstd::prelude::*;

verus! {

/// A fact of a stored domain (memory, history, prompt) that would add a new
/// fact where the domain lacks the insert right changes no fact, leaves the
/// failure `storage-insert-not-allowed`, and marks the refusal with `!`.
pub proof fn law_refused_insert_changes_nothing(before: Ai, after: Ai, id: Seq<char>, domain: Seq<char>, actor: Seq<char>, body: Seq<char>, effs: Seq<EffectView>)
    requires
        before.fact_step(&after, id, domain, actor, body, effs),
        domain == "memory"@ || domain == "history"@ || domain == "prompt"@,
        !(if domain == "memory"@ { before.no_memory } else if domain == "history"@ { before.no_history } else { before.no_prompt }),
        !has_key(before.storage.entries(), id),
        body.len() > 0,
        !allows(before.storage.access_table(), domain, 'i'),
    ensures
        after.storage.entries() == before.storage.entries(),
        after.storage.failure() == Some(("storage-insert-not-allowed"@, seq![("domain"@, domain), ("actor"@, actor), ("content"@, body)])),
        effs.last() == EffectView::Mark(mark('+', false, if domain == "memory"@ { 'm' } else if domain == "history"@ { 'h' } else { 'p' })),
{
    reveal_strlit("read");
    reveal_strlit("write");
    reveal_strlit("clipboard");
    reveal_strlit("shell");
    reveal_strlit("memory");
    reveal_strlit("history");
    reveal_strlit("prompt");
    assert(domain != "read"@ && domain != "write"@ && domain != "clipboard"@ && domain != "shell"@) by {
        if domain == "memory"@ || domain == "prompt"@ {
            assert(domain.len() == 6);
        } else {
            assert(domain.len() == 7);
            assert(domain[0] == 'h');
        }
    }
}

/// A shell fact runs no command unless the session's shell rights grant
/// insert (`i`): without them the storage is unchanged and no effect goes to
/// the `command` destination.
pub proof fn law_shell_needs_insert_right(before: Ai, after: Ai, id: Seq<char>, actor: Seq<char>, body: Seq<char>, effs: Seq<EffectView>)
    requires
        before.fact_step(&after, id, "shell"@, actor, body, effs),
        !contains_seq(before.access_shell@, "i"@),
    ensures
        after.storage == before.storage,
        forall|i: int| 0 <= i < effs.len() ==> !(#[trigger] effs[i] matches EffectView::Destination(_, _, d, _) && d == "command"@),
{
    reveal_strlit("read");
    reveal_strlit("write");
    reveal_strlit("clipboard");
    reveal_strlit("shell");
    reveal_strlit("message");
    reveal_strlit("command");
    assert("shell"@ != "read"@ && "shell"@ != "write"@ && "shell"@ != "clipboard"@) by {
        assert("shell"@.len() == 5);
        assert("shell"@[0] == 's');
    }
    assert("message"@ != "command"@) by {
        assert("message"@[0] != "command"@[0]);
    }
}

/// `replace` never leaves a character of `pat` where `rep` and `s` have none.
proof fn lemma_replace_free(s: Seq<char>, pat: Seq<char>, rep: Seq<char>, c: char)
    requires
        pat.len() > 0,
        !rep.contains(c),
        !s.contains(c) || pat == seq![c],
    ensures
        !replace(s, pat, rep).contains(c),
    decreases s.len(),
{
    if s.len() < pat.len() {
        if s.contains(c) {
            let i = choose|i: int| 0 <= i < s.len() && s[i] == c;
            assert(s.len() == 0);
        }
    } else if s.take(pat.len() as int) == pat {
        if s.skip(pat.len() as int).contains(c) && pat != seq![c] {
            let i = choose|i: int| 0 <= i < s.skip(pat.len() as int).len() && s.skip(pat.len() as int)[i] == c;
            assert(s[i + pat.len()] == c);
        }
        lemma_replace_free(s.skip(pat.len() as int), pat, rep, c);
        let r = rep + replace(s.skip(pat.len() as int), pat, rep);
        if r.contains(c) {
            let i = choose|i: int| 0 <= i < r.len() && r[i] == c;
            if i < rep.len() {
                assert(rep[i] == c);
            } else {
                assert(replace(s.skip(pat.len() as int), pat, rep)[i - rep.len()] == c);
            }
        }
    } else {
        if s.drop_first().contains(c) && pat != seq![c] {
            let i = choose|i: int| 0 <= i < s.drop_first().len() && s.drop_first()[i] == c;
            assert(s[i + 1] == c);
        }
        if pat == seq![c] {
            assert(s[0] != c) by {
                if s[0] == c {
                    assert(s.take(1) =~= seq![c]);
                }
            }
        } else {
            assert(s[0] != c) by {
                if s[0] == c {
                    assert(s.contains(c));
                }
            }
        }
        lemma_replace_free(s.drop_first(), pat, rep, c);
        let r = seq![s[0]] + replace(s.drop_first(), pat, rep);
        if r.contains(c) {
            let i = choose|i: int| 0 <= i < r.len() && r[i] == c;
            if i > 0 {
                assert(replace(s.drop_first(), pat, rep)[i - 1] == c);
            }
        }
    }
}

/// A shell command from the model is run on one line: it holds no newline
/// and no carriage return.
pub proof fn law_shell_command_is_one_line(body: Seq<char>)
    ensures
        !one_line(body).contains('\n'),
        !one_line(body).contains('\r'),
{
    let a = replace(body, seq!['\n'], seq![' ']);
    lemma_replace_free(body, seq!['\n'], seq![' '], '\n');
    assert(!a.contains('\r') || seq!['\r'] == seq!['\r']);
    lemma_replace_free(a, seq!['\r'], seq![], '\r');
    if a.contains('\n') {
        let i = choose|i: int| 0 <= i < a.len() && a[i] == '\n';
        assert(false);
    }
    assert(!seq![' '].contains('\r')) by {
        if seq![' '].contains('\r') {
            let i = choose|i: int| 0 <= i < 1 && seq![' '][i] == '\r';
        }
    }
    lemma_replace_free(a, seq!['\r'], seq![], '\n');
}

/// Every key or value offered for completion starts with the typed text and
/// is one of the candidates.
pub proof fn law_offered_start_with_typed(v: Seq<Seq<char>>, prefix: Seq<char>)
    ensures
        forall|i: int| 0 <= i < with_prefix(v, prefix).len() ==> starts_with(#[trigger] with_prefix(v, prefix)[i], prefix) && v.contains(with_prefix(v, prefix)[i]),
    decreases v.len(),
{
    if v.len() > 0 {
        law_offered_start_with_typed(v.drop_last(), prefix);
        let w = with_prefix(v.drop_last(), prefix);
        assert forall|i: int| 0 <= i < with_prefix(v, prefix).len() implies starts_with(#[trigger] with_prefix(v, prefix)[i], prefix) && v.contains(with_prefix(v, prefix)[i]) by {
            if i < w.len() {
                assert(with_prefix(v, prefix)[i] == w[i]);
                assert(w[i] == w[i]);
                assert(v.drop_last().contains(w[i]));
                let j = choose|j: int| 0 <= j < v.drop_last().len() && v.drop_last()[j] == w[i];
                assert(v[j] == w[i]);
            } else {
                assert(v[v.len() - 1] == v.last());
            }
        }
    }
}

proof fn lemma_first_pair_range(wt: Seq<(Seq<char>, Seq<char>)>, k: Seq<char>)
    ensures
        -1 <= first_pair(wt, k) < wt.len(),
        first_pair(wt, k) >= 0 ==> wt[first_pair(wt, k)].0 == k,
    decreases wt.len(),
{
    if wt.len() > 0 && wt[0].0 != k {
        lemma_first_pair_range(wt.drop_first(), k);
    }
}

/// `pair_set` on a table whose first key is another one keeps that first pair.
proof fn lemma_pair_set_tail(wt: Seq<(Seq<char>, Seq<char>)>, k: Seq<char>, v: Seq<char>)
    requires
        wt.len() > 0,
        wt[0].0 != k,
    ensures
        pair_set(wt, k, v)[0] == wt[0],
        pair_set(wt, k, v).len() > 0,
        pair_set(wt, k, v).drop_first() == pair_set(wt.drop_first(), k, v),
{
    lemma_first_pair_range(wt.drop_first(), k);
    let r = first_pair(wt.drop_first(), k);
    if r >= 0 {
        assert(first_pair(wt, k) == r + 1);
        assert(pair_set(wt, k, v).drop_first() =~= wt.drop_first().update(r, (k, v)));
    } else {
        assert(first_pair(wt, k) == -1);
        assert(pair_set(wt, k, v).drop_first() =~= wt.drop_first().push((k, v)));
    }
}

/// After a key is mapped in the write table, it is found with that value.
proof fn lemma_pair_set_found(wt: Seq<(Seq<char>, Seq<char>)>, k: Seq<char>, v: Seq<char>)
    ensures
        write_target(pair_set(wt, k, v), k) == Some(v),
    decreases wt.len(),
{
    if wt.len() > 0 {
        if wt[0].0 == k {
            assert(first_pair(wt, k) == 0);
            assert(pair_set(wt, k, v)[0] == (k, v));
        } else {
            lemma_pair_set_tail(wt, k, v);
            lemma_pair_set_found(wt.drop_first(), k, v);
        }
    } else {
        assert(pair_set(wt, k, v) =~= seq![(k, v)]);
    }
}

/// Mapping another key keeps what a key is found with.
proof fn lemma_pair_set_other(wt: Seq<(Seq<char>, Seq<char>)>, k: Seq<char>, v: Seq<char>, other: Seq<char>)
    requires
        other != k,
    ensures
        write_target(pair_set(wt, k, v), other) == write_target(wt, other),
    decreases wt.len(),
{
    if wt.len() > 0 {
        if wt[0].0 == k {
            assert(first_pair(wt, k) == 0);
            assert(pair_set(wt, k, v)[0] == (k, v));
            assert(pair_set(wt, k, v).drop_first() =~= wt.drop_first());
            let p = pair_set(wt, k, v);
            assert(write_target(p, other) == write_target(p.drop_first(), other));
            assert(write_target(wt, other) == write_target(wt.drop_first(), other));
        } else {
            lemma_pair_set_tail(wt, k, v);
            lemma_pair_set_other(wt.drop_first(), k, v, other);
            let p = pair_set(wt, k, v);
            assert(write_target(p, other) == if p[0].0 == other { Some(p[0].1) } else { write_target(p.drop_first(), other) });
        }
    } else {
        assert(pair_set(wt, k, v) =~= seq![(k, v)]);
        assert(pair_set(wt, k, v)[0] == (k, v));
        assert(pair_set(wt, k, v).drop_first() =~= Seq::<(Seq<char>, Seq<char>)>::empty());
        let p = pair_set(wt, k, v);
        assert(write_target(p.drop_first(), other) is None);
        assert(write_target(p, other) == write_target(p.drop_first(), other));
    }
}

/// Every written file put into the prompt is found in the write table under
/// its own path, so a write fact with that id goes back to that file.
pub proof fn law_written_file_goes_back(wt: Seq<(Seq<char>, Seq<char>)>, files: Seq<(Seq<char>, Seq<char>)>, i: int)
    requires
        0 <= i < files.len(),
    ensures
        write_target(files_mapped(wt, files), files[i].0) == Some(files[i].0),
    decreases files.len(),
{
    let last = files.last();
    let w = files_mapped(wt, files.drop_last());
    if i == files.len() - 1 {
        lemma_pair_set_found(w, last.0, last.0);
    } else {
        assert(files.drop_last()[i] == files[i]);
        law_written_file_goes_back(wt, files.drop_last(), i);
        if files[i].0 == last.0 {
            lemma_pair_set_found(w, last.0, last.0);
        } else {
            lemma_pair_set_other(w, last.0, last.0, files[i].0);
        }
    }
}


/// No character of `a` occurs in `b`.
pub open spec fn disjoint_chars(a: Seq<char>, b: Seq<char>) -> bool {
    forall|i: int, j: int| 0 <= i < a.len() && 0 <= j < b.len() ==> a[i] != b[j]
}

/// A start of `replace(t, ..)` that holds no character of the replacement
/// is a start of `t` itself.
proof fn lemma_replace_prefix(t: Seq<char>, pat: Seq<char>, rep: Seq<char>, q: Seq<char>)
    requires
        pat.len() > 0,
        rep.len() > 0,
        disjoint_chars(q, rep),
        q.len() <= replace(t, pat, rep).len(),
        replace(t, pat, rep).take(q.len() as int) == q,
    ensures
        q.len() <= t.len(),
        t.take(q.len() as int) == q,
    decreases t.len(),
{
    let r = replace(t, pat, rep);
    if t.len() < pat.len() {
    } else if t.take(pat.len() as int) == pat {
        if q.len() > 0 {
            assert(r[0] == rep[0]);
            assert(q[0] == r.take(q.len() as int)[0]);
            assert(false);
        }
    } else {
        if q.len() > 0 {
            let rest = replace(t.drop_first(), pat, rep);
            assert(r == seq![t[0]] + rest);
            let q1 = q.drop_first();
            assert(q[0] == t[0]) by {
                assert(r.take(q.len() as int)[0] == r[0]);
            }
            assert(disjoint_chars(q1, rep)) by {
                assert forall|i: int, j: int| 0 <= i < q1.len() && 0 <= j < rep.len() implies q1[i] != rep[j] by {
                    assert(q1[i] == q[i + 1]);
                }
            }
            assert(rest.take(q1.len() as int) =~= q1) by {
                assert forall|i: int| 0 <= i < q1.len() implies rest.take(q1.len() as int)[i] == q1[i] by {
                    assert(rest[i] == r[i + 1]);
                    assert(r.take(q.len() as int)[i + 1] == q[i + 1]);
                }
            }
            lemma_replace_prefix(t.drop_first(), pat, rep, q1);
            assert(t.take(q.len() as int) =~= q) by {
                assert forall|i: int| 0 <= i < q.len() implies t.take(q.len() as int)[i] == q[i] by {
                    if i > 0 {
                        assert(t[i] == t.drop_first()[i - 1]);
                        assert(t.drop_first().take(q1.len() as int)[i - 1] == q1[i - 1]);
                    }
                }
            }
        } else {
            assert(t.take(0) =~= q);
        }
    }
}

/// Text with every occurrence of `pat` replaced by a non-empty `rep` that
/// shares no character with `pat` holds no occurrence of `pat`.
proof fn lemma_replace_removes(s: Seq<char>, pat: Seq<char>, rep: Seq<char>)
    requires
        pat.len() > 0,
        rep.len() > 0,
        disjoint_chars(pat, rep),
    ensures
        !contains_seq(replace(s, pat, rep), pat),
    decreases s.len(),
{
    let r = replace(s, pat, rep);
    if contains_seq(r, pat) {
        let i = choose|i: int| 0 <= i && i + pat.len() <= r.len() && #[trigger] r.subrange(i, i + pat.len()) == pat;
        if s.len() < pat.len() {
        } else if s.take(pat.len() as int) == pat {
            let rest = replace(s.skip(pat.len() as int), pat, rep);
            assert(r == rep + rest);
            if i < rep.len() {
                assert(r[i] == rep[i]);
                assert(r.subrange(i, i + pat.len())[0] == r[i]);
                assert(pat[0] != rep[i]);
            } else {
                lemma_replace_removes(s.skip(pat.len() as int), pat, rep);
                let k = i - rep.len();
                assert(rest.subrange(k, k + pat.len()) =~= r.subrange(i, i + pat.len()));
            }
        } else {
            let rest = replace(s.drop_first(), pat, rep);
            assert(r == seq![s[0]] + rest);
            if i >= 1 {
                lemma_replace_removes(s.drop_first(), pat, rep);
                let k = i - 1;
                assert(rest.subrange(k, k + pat.len()) =~= r.subrange(i, i + pat.len()));
            } else {
                let q = pat.drop_first();
                assert(s[0] == pat[0]) by {
                    assert(r.subrange(0, pat.len() as int)[0] == r[0]);
                }
                assert(disjoint_chars(q, rep)) by {
                    assert forall|a: int, b: int| 0 <= a < q.len() && 0 <= b < rep.len() implies q[a] != rep[b] by {
                        assert(q[a] == pat[a + 1]);
                    }
                }
                assert(rest.take(q.len() as int) =~= q) by {
                    assert forall|a: int| 0 <= a < q.len() implies rest.take(q.len() as int)[a] == q[a] by {
                        assert(rest[a] == r[a + 1]);
                        assert(r.subrange(0, pat.len() as int)[a + 1] == pat[a + 1]);
                    }
                }
                lemma_replace_prefix(s.drop_first(), pat, rep, q);
                assert(s.take(pat.len() as int) =~= pat) by {
                    assert forall|a: int| 0 <= a < pat.len() implies s.take(pat.len() as int)[a] == pat[a] by {
                        if a > 0 {
                            assert(s[a] == s.drop_first()[a - 1]);
                            assert(s.drop_first().take(q.len() as int)[a - 1] == q[a - 1]);
                        }
                    }
                }
            }
        }
    }
}

/// A user's text that is added to the prompt as history holds no fact
/// delimiter, so it cannot start a fact of its own, whenever the delimiter
/// shares no character with its escape `` `fact-delimiter` `` (as the
/// default `#FACT` does not).
pub proof fn law_escaped_input_holds_no_delimiter(s: Seq<char>, delim: Seq<char>)
    requires
        delim.len() > 0,
        disjoint_chars(delim, "`fact-delimiter`"@),
    ensures
        !contains_seq(crate::run::escaped(s, delim), delim),
{
    reveal_strlit("`fact-delimiter`");
    lemma_replace_removes(s, delim, "`fact-delimiter`"@);
    assert(crate::run::escaped(s, delim) == replace(s, delim, "`fact-delimiter`"@));
}

/// The default delimiter `#FACT` shares no character with its escape.
pub proof fn lemma_default_delimiter_escapes()
    ensures
        disjoint_chars("#FACT"@, "`fact-delimiter`"@),
{
    reveal_strlit("#FACT");
    reveal_strlit("`fact-delimiter`");
}


/// A status mark for an operation that failed is shown in red; one for an
/// operation that went through is not.
pub proof fn law_failed_marks_are_red(op: char, kind: char)
    requires
        op == '+' || op == '^' || op == '-',
        kind == 'm' || kind == 'h' || kind == 'p',
    ensures
        crate::ai::mnemo_color(mark(op, false, kind)) == crate::ai::Color::Red,
        crate::ai::mnemo_color(mark(op, true, kind)) != crate::ai::Color::Red,
{
    let f = mark(op, false, kind);
    assert(f[1] == '!');
    let t = mark(op, true, kind);
    assert(!t.contains('!')) by {
        if t.contains('!') {
            let i = choose|i: int| 0 <= i < t.len() && t[i] == '!';
            assert(i == 0 || i == 1);
        }
    }
}


/// What a run saves of some domains (the facts of those domains, in order,
/// written with `#FACT`) is read back by the next run as the same facts,
/// whatever ids the clock would give, when every fact can be written and
/// read back (see `roundtrip::writable`).
pub proof fn law_saved_facts_read_back(es: Seq<crate::fact_map::EntryView>, domains: Seq<Seq<char>>, gen: Seq<u128>)
    requires
        crate::fact_map::unique_keys(es),
        forall|k: int| 0 <= k < es.len() ==> crate::roundtrip::writable(#[trigger] es[k]),
    ensures
        ({
            let saved = es.filter(|e: crate::fact_map::EntryView| crate::storage::domain_listed(domains, e.1.0));
            crate::storage::insert_all(
                Seq::<crate::fact_map::EntryView>::empty(),
                crate::storage::resolve_ids(crate::storage::parse_blocks(crate::storage::entries_text(crate::storage::fact_mark(), saved)), gen),
            ) == saved
        }),
{
    let p = |e: crate::fact_map::EntryView| crate::storage::domain_listed(domains, e.1.0);
    let saved = es.filter(p);
    crate::storage::lemma_filter_subset(es, p);
    crate::storage::lemma_filter_order(es, p);
    assert forall|k: int| 0 <= k < saved.len() implies crate::roundtrip::writable(#[trigger] saved[k]) by {
        assert(es.contains(saved[k]));
        let j = choose|j: int| 0 <= j < es.len() && es[j] == saved[k];
        assert(crate::roundtrip::writable(es[j]));
    }
    assert(crate::fact_map::unique_keys(saved)) by {
        assert forall|i: int, j: int| 0 <= i < saved.len() && 0 <= j < saved.len() && i != j implies (#[trigger] saved[i]).0 != (#[trigger] saved[j]).0 by {
            let (a, b) = choose|a: int, b: int| 0 <= a < es.len() && 0 <= b < es.len() && a != b && es[a] == #[trigger] saved[i] && es[b] == #[trigger] saved[j];
            assert(es[a].0 != es[b].0);
        }
    }
    crate::roundtrip::law_write_read_roundtrip(saved, gen);
}

/// A failed state stops a run that is not completing: from every phase the
/// next one is the end, so the output phase, which sends the request and
/// saves the facts, is entered only with an ok state.
pub proof fn law_failed_state_ends_run(phase: Phase, ok: bool, completing: bool)
    ensures
        !ok && !completing ==> phase_after(phase, ok, completing) == Phase::Finish,
        phase_after(phase, ok, completing) == Phase::Output ==> ok,
{
}

/// An update checked against the rights that keeps a fact's domain needs
/// the update right `u` on that domain, and one that moves the fact to
/// another domain needs the delete right `d` on the domain it leaves (and
/// the insert right `i` on the new one). Without them the facts stay as
/// they were and the failure `storage-update-not-allowed` is set.
pub proof fn law_update_needs_rights(s0: Storage, s1: Storage, id: Seq<char>, domain: Seq<char>, actor: Seq<char>, content: Seq<char>)
    requires
        s0.failure() is None,
        has_key(s0.entries(), id),
        updated(s0, s1, id, domain, actor, content, false),
        ({
            let old_domain = s0.entries()[key_index(s0.entries(), id)].1.0;
            ||| (old_domain == domain && !allows(s0.access_table(), domain, 'u'))
            ||| (old_domain != domain && !allows(s0.access_table(), old_domain, 'd'))
            ||| (old_domain != domain && !allows(s0.access_table(), domain, 'i'))
        }),
    ensures
        s1.entries() == s0.entries(),
        s1.failure() == Some(("storage-update-not-allowed"@, seq![("id"@, id), ("content"@, content)])),
{
}

/// An update checked against the rights goes through where they are
/// granted: `u` on the fact's domain when it keeps it, or `d` on the domain
/// it leaves and `i` on the new one. The fact then holds the new domain,
/// actor and content, in its place, and the state stays ok.
pub proof fn law_update_with_rights_applies(s0: Storage, s1: Storage, id: Seq<char>, domain: Seq<char>, actor: Seq<char>, content: Seq<char>)
    requires
        s0.failure() is None,
        has_key(s0.entries(), id),
        updated(s0, s1, id, domain, actor, content, false),
        ({
            let old_domain = s0.entries()[key_index(s0.entries(), id)].1.0;
            ||| (old_domain == domain && allows(s0.access_table(), domain, 'u'))
            ||| (old_domain != domain && allows(s0.access_table(), old_domain, 'd') && allows(s0.access_table(), domain, 'i'))
        }),
    ensures
        s1.failure() is None,
        s1.entries() == s0.entries().update(key_index(s0.entries(), id), (id, (domain, actor, content))),
{
}

/// A fact of an answer for a stored domain whose id is stored in that same
/// domain, with a body, replaces the stored fact where the domain grants
/// `u`, in its place, and is marked as an update without `!`.
pub proof fn law_answer_update_with_right_applies(before: Ai, after: Ai, id: Seq<char>, domain: Seq<char>, actor: Seq<char>, body: Seq<char>, effs: Seq<EffectView>)
    requires
        before.fact_step(&after, id, domain, actor, body, effs),
        domain == "memory"@ || domain == "history"@ || domain == "prompt"@,
        !(if domain == "memory"@ { before.no_memory } else if domain == "history"@ { before.no_history } else { before.no_prompt }),
        has_key(before.storage.entries(), id),
        before.storage.entries()[key_index(before.storage.entries(), id)].1.0 == domain,
        body.len() > 0,
        allows(before.storage.access_table(), domain, 'u'),
    ensures
        after.storage.entries() == before.storage.entries().update(key_index(before.storage.entries(), id), (id, (domain, actor, body))),
        effs.last() == EffectView::Mark(mark('^', true, if domain == "memory"@ { 'm' } else if domain == "history"@ { 'h' } else { 'p' })),
{
    reveal_strlit("read");
    reveal_strlit("write");
    reveal_strlit("clipboard");
    reveal_strlit("shell");
    reveal_strlit("memory");
    reveal_strlit("history");
    reveal_strlit("prompt");
    assert(domain != "read"@ && domain != "write"@ && domain != "clipboard"@ && domain != "shell"@) by {
        if domain == "memory"@ || domain == "prompt"@ {
            assert(domain.len() == 6);
        } else {
            assert(domain.len() == 7);
            assert(domain[0] == 'h');
        }
    }
}

/// A fact of an answer for a stored domain (memory, history, prompt) whose
/// id is stored in that same domain, with a body, changes the stored fact
/// only where the domain grants the update right `u`: without it the facts
/// stay as they were and the mark carries `!`.
pub proof fn law_answer_update_needs_update_right(before: Ai, after: Ai, id: Seq<char>, domain: Seq<char>, actor: Seq<char>, body: Seq<char>, effs: Seq<EffectView>)
    requires
        before.fact_step(&after, id, domain, actor, body, effs),
        domain == "memory"@ || domain == "history"@ || domain == "prompt"@,
        !(if domain == "memory"@ { before.no_memory } else if domain == "history"@ { before.no_history } else { before.no_prompt }),
        has_key(before.storage.entries(), id),
        before.storage.entries()[key_index(before.storage.entries(), id)].1.0 == domain,
        body.len() > 0,
        !allows(before.storage.access_table(), domain, 'u'),
    ensures
        after.storage.entries() == before.storage.entries(),
        effs.last() == EffectView::Mark(mark('^', false, if domain == "memory"@ { 'm' } else if domain == "history"@ { 'h' } else { 'p' })),
{
    reveal_strlit("read");
    reveal_strlit("write");
    reveal_strlit("clipboard");
    reveal_strlit("shell");
    reveal_strlit("memory");
    reveal_strlit("history");
    reveal_strlit("prompt");
    assert(domain != "read"@ && domain != "write"@ && domain != "clipboard"@ && domain != "shell"@) by {
        if domain == "memory"@ || domain == "prompt"@ {
            assert(domain.len() == 6);
        } else {
            assert(domain.len() == 7);
            assert(domain[0] == 'h');
        }
    }
}

/// The facts a user inserts or updates from the command line go to the
/// `history` domain when the configuration names no domain: every fact
/// after the user's operations that was not stored before is in `history`.
pub proof fn law_user_facts_default_to_history(a: Ai, after: Storage, ins_input: Seq<char>, ins_stdin: Seq<char>, upd_input: Seq<char>, upd_stdin: Seq<char>, s1: Storage, s2: Storage)
    requires
        a.user_facts_done(after, ins_input, ins_stdin, upd_input, upd_stdin, s1, s2),
        !(crate::ai::member(jview(a.config), "domain"@) is Str),
    ensures
        forall|i: int| 0 <= i < after.entries().len() && !a.storage.entries().contains(#[trigger] after.entries()[i])
            ==> after.entries()[i].1.0 == "history"@,
{
    let e0 = a.storage.entries();
    let del = a.top_str("delete-fact"@, seq![]);
    let ins = a.top_str("insert-fact"@, seq![]);
    let upd = a.top_str("update-fact"@, seq![]);
    assert(a.top_str("domain"@, "history"@) == "history"@);
    assert forall|i: int| 0 <= i < s1.entries().len() implies e0.contains(#[trigger] s1.entries()[i]) by {
        if del.len() > 0 && a.storage.failure() is None && has_key(e0, del) {
            let k = key_index(e0, del);
            lemma_key_index(e0, del);
            if s1.entries() == e0.remove(k) {
                if i < k {
                    assert(s1.entries()[i] == e0[i]);
                } else {
                    assert(s1.entries()[i] == e0[i + 1]);
                }
            } else {
                assert(s1.entries()[i] == e0[i]);
            }
        } else {
            assert(s1.entries()[i] == e0[i]);
        }
    }
    assert forall|i: int| 0 <= i < s2.entries().len() && !e0.contains(#[trigger] s2.entries()[i]) implies s2.entries()[i].1.0 == "history"@ by {
        if s2.entries() != s1.entries() {
            let e1 = s1.entries();
            let k = key_index(e1, ins);
            lemma_key_index(e1, ins);
            if k >= 0 {
                if i != k {
                    assert(s2.entries()[i] == e1[i]);
                }
            } else {
                if i < e1.len() {
                    assert(s2.entries()[i] == e1[i]);
                }
            }
        } else {
            assert(e0.contains(s1.entries()[i]));
        }
    }
    assert forall|i: int| 0 <= i < after.entries().len() && !e0.contains(#[trigger] after.entries()[i]) implies after.entries()[i].1.0 == "history"@ by {
        if after.entries() != s2.entries() {
            let e2 = s2.entries();
            let k = key_index(e2, upd);
            lemma_key_index(e2, upd);
            if i != k {
                assert(after.entries()[i] == e2[i]);
                assert(!e0.contains(e2[i]));
            }
        } else {
            assert(!e0.contains(s2.entries()[i]));
        }
    }
}

/// A binding key completes with the same values as the key it binds: the
/// chats for `--bind-chat` as for `--chat`, the providers for
/// `--bind-provider` as for `--provider`, the models of the provider on the
/// line for `--bind-model` as for `--model`, the memories for
/// `--bind-memory` as for `--memory`, and the chat's prompts for
/// `--bind-prompt` as for `--prompt`.
pub proof fn law_binding_keys_complete_as_their_keys()
    ensures
        source_of("--bind-"@ + "chat"@) == source_of("--"@ + "chat"@) && source_of("--"@ + "chat"@) == ValueSource::Chats,
        source_of("--bind-"@ + "provider"@) == source_of("--"@ + "provider"@) && source_of("--"@ + "provider"@) == ValueSource::Providers,
        source_of("--bind-"@ + "model"@) == source_of("--"@ + "model"@) && source_of("--"@ + "model"@) == ValueSource::Models,
        source_of("--bind-"@ + "memory"@) == source_of("--"@ + "memory"@) && source_of("--"@ + "memory"@) == ValueSource::Memories,
        source_of("--bind-"@ + "prompt"@) == source_of("--"@ + "prompt"@) && source_of("--"@ + "prompt"@) == ValueSource::Prompts,
{
    reveal_strlit("--bind-");
    reveal_strlit("--");
    reveal_strlit("chat");
    reveal_strlit("provider");
    reveal_strlit("model");
    reveal_strlit("memory");
    reveal_strlit("prompt");
    reveal_strlit("--read");
    reveal_strlit("--write");
    reveal_strlit("--restore");
    reveal_strlit("--set");
    reveal_strlit("--chat");
    reveal_strlit("--bind-chat");
    reveal_strlit("--provider");
    reveal_strlit("--bind-provider");
    reveal_strlit("--model");
    reveal_strlit("--bind-model");
    reveal_strlit("--memory");
    reveal_strlit("--bind-memory");
    reveal_strlit("--build-prompt");
    reveal_strlit("--prompt");
    reveal_strlit("--bind-prompt");
    assert("--chat"@ != "--read"@) by {
        assert("--chat"@[2] != "--read"@[2]);
    }
    assert("--model"@ != "--write"@) by {
        assert("--model"@[2] != "--write"@[2]);
    }
    assert("--prompt"@ != "--memory"@) by {
        assert("--prompt"@[2] != "--memory"@[2]);
    }
    assert("--bind-prompt"@ != "--bind-memory"@) by {
        assert("--bind-prompt"@[7] != "--bind-memory"@[7]);
    }
    assert("--bind-model"@ != "--bind-chat"@) by {
        assert("--bind-model"@.len() != "--bind-chat"@.len());
    }
    assert("--bind-"@ + "chat"@ =~= "--bind-chat"@);
    assert("--"@ + "chat"@ =~= "--chat"@);
    assert("--bind-"@ + "provider"@ =~= "--bind-provider"@);
    assert("--"@ + "provider"@ =~= "--provider"@);
    assert("--bind-"@ + "model"@ =~= "--bind-model"@);
    assert("--"@ + "model"@ =~= "--model"@);
    assert("--bind-"@ + "memory"@ =~= "--bind-memory"@);
    assert("--"@ + "memory"@ =~= "--memory"@);
    assert("--bind-"@ + "prompt"@ =~= "--bind-prompt"@);
    assert("--"@ + "prompt"@ =~= "--prompt"@);
}

} // verus!
