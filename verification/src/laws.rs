//! The laws of the matcher, proved once and for all inputs: soundness
//! and completeness of the search, the relation between the two search
//! variants, and the edge cases of empty query and empty contents.

use vstd::prelude::*;

use crate::matcher::insens_pred;
use crate::matcher::search_ci_spec;
use crate::matcher::search_spec;
use crate::matcher::sens_pred;
use crate::text::find_nl;
use crate::text::lemma_find_nl_bounds;
use crate::text::lemma_lower_of_add;
use crate::text::lines_of;
use crate::text::lower_char;
use crate::text::lower_of;
use crate::text::matches_at;
use crate::text::strip_cr;
use crate::text::text_contains;

verus! {

/// Everything a filter keeps was in the original sequence and satisfies
/// the predicate.
proof fn lemma_filter_in_orig<A>(s: Seq<A>, pred: spec_fn(A) -> bool)
    ensures
        forall|x: A| s.filter(pred).contains(x) ==> s.contains(x) && pred(x),
    decreases s.len(),
{
    reveal(Seq::filter);
    if s.len() > 0 {
        lemma_filter_in_orig(s.drop_last(), pred);
        assert forall|x: A| s.filter(pred).contains(x) implies s.contains(x) && pred(x) by {
            let k = choose|k: int| 0 <= k < s.filter(pred).len() && s.filter(pred)[k] == x;
            let subf = s.drop_last().filter(pred);
            if pred(s.last()) && k == subf.len() {
                assert(x == s.last());
                assert(s[s.len() - 1] == x);
            } else {
                if pred(s.last()) {
                    assert(s.filter(pred) == subf.push(s.last()));
                    assert(subf.push(s.last())[k] == subf[k]);
                }
                assert(subf[k] == x);
                assert(subf.contains(x));
                assert(s.drop_last().contains(x) && pred(x));
                let k2 = choose|k2: int|
                    0 <= k2 < s.drop_last().len() && s.drop_last()[k2] == x;
                assert(s[k2] == x);
            }
        }
    }
}

/// A filter keeps the whole sequence when the predicate holds of every
/// element.
proof fn lemma_filter_all<A>(s: Seq<A>, pred: spec_fn(A) -> bool)
    requires
        forall|i: int| 0 <= i < s.len() ==> pred(#[trigger] s[i]),
    ensures
        s.filter(pred) == s,
    decreases s.len(),
{
    reveal(Seq::filter);
    if s.len() > 0 {
        assert forall|i: int| 0 <= i < s.drop_last().len() implies pred(
            #[trigger] s.drop_last()[i],
        ) by {
            assert(s.drop_last()[i] == s[i]);
        }
        lemma_filter_all(s.drop_last(), pred);
        assert(pred(s[s.len() - 1]));
        assert(s.drop_last().push(s.last()) =~= s);
    }
}

/// Two predicates that agree on every element of a sequence filter it to
/// the same result.
proof fn lemma_filter_agree<A>(s: Seq<A>, p1: spec_fn(A) -> bool, p2: spec_fn(A) -> bool)
    requires
        forall|i: int| 0 <= i < s.len() ==> p1(#[trigger] s[i]) == p2(s[i]),
    ensures
        s.filter(p1) == s.filter(p2),
    decreases s.len(),
{
    reveal(Seq::filter);
    if s.len() > 0 {
        assert forall|i: int| 0 <= i < s.drop_last().len() implies p1(
            #[trigger] s.drop_last()[i],
        ) == p2(s.drop_last()[i]) by {
            assert(s.drop_last()[i] == s[i]);
        }
        lemma_filter_agree(s.drop_last(), p1, p2);
        assert(p1(s[s.len() - 1]) == p2(s[s.len() - 1]));
    }
}

/// Soundness and completeness of the case-sensitive search: every kept
/// line contains the query, and every line of the contents that contains
/// the query is kept. Order is that of the contents, since the result is
/// a filter of its line sequence.
pub proof fn lemma_search_sound_complete(q: Seq<char>, c: Seq<char>)
    ensures
        forall|i: int| 0 <= i < search_spec(q, c).len() ==> text_contains(
            #[trigger] search_spec(q, c)[i],
            q,
        ),
        forall|l: Seq<char>| lines_of(c).contains(l) && text_contains(l, q)
            ==> search_spec(q, c).contains(l),
{
    broadcast use vstd::seq_lib::group_filter_ensures;

    assert forall|i: int| 0 <= i < search_spec(q, c).len() implies text_contains(
        #[trigger] search_spec(q, c)[i],
        q,
    ) by {
        assert(sens_pred(q)(search_spec(q, c)[i]));
    }
    assert forall|l: Seq<char>| lines_of(c).contains(l) && text_contains(l, q)
        implies search_spec(q, c).contains(l) by {
        let k = choose|k: int| 0 <= k < lines_of(c).len() && lines_of(c)[k] == l;
        assert(sens_pred(q)(lines_of(c)[k]));
    }
}

/// Exact containment survives lowercasing: if `q` occurs in `l`, then
/// the lowercase form of `q` occurs in the lowercase form of `l`.
pub proof fn lemma_lower_preserves_contains(l: Seq<char>, q: Seq<char>)
    requires
        text_contains(l, q),
    ensures
        text_contains(lower_of(l), lower_of(q)),
{
    let i = choose|i: int| matches_at(l, q, i);
    let a = l.subrange(0, i);
    let b = l.subrange(i + q.len(), l.len() as int);
    assert(l =~= (a + q) + b);
    lemma_lower_of_add(a + q, b);
    lemma_lower_of_add(a, q);
    let la = lower_of(a);
    let lq = lower_of(q);
    let lb = lower_of(b);
    assert(lower_of(l) == ((la + lq) + lb));
    assert(((la + lq) + lb).subrange(la.len() as int, la.len() + lq.len() as int) =~= lq);
    assert(matches_at(lower_of(l), lower_of(q), la.len() as int));
}

/// Whatever the case-sensitive search keeps, the case-insensitive search
/// keeps as well.
pub proof fn lemma_insensitive_superset(q: Seq<char>, c: Seq<char>)
    ensures
        forall|l: Seq<char>| search_spec(q, c).contains(l) ==> search_ci_spec(q, c).contains(l),
{
    broadcast use vstd::seq_lib::group_filter_ensures;

    lemma_filter_in_orig(lines_of(c), sens_pred(q));
    assert forall|l: Seq<char>| search_spec(q, c).contains(l) implies search_ci_spec(
        q,
        c,
    ).contains(l) by {
        assert(lines_of(c).contains(l));
        assert(sens_pred(q)(l));
        lemma_lower_preserves_contains(l, q);
        let k = choose|k: int| 0 <= k < lines_of(c).len() && lines_of(c)[k] == l;
        assert(insens_pred(q)(lines_of(c)[k]));
    }
}

/// Every character of `s` is its own lowercase form.
pub open spec fn chars_lower(s: Seq<char>) -> bool {
    forall|i: int| 0 <= i < s.len() ==> lower_char(#[trigger] s[i]) == seq![s[i]]
}

/// A text whose characters are all fixed by the lowercase mapping is
/// itself fixed by it.
pub proof fn lemma_lower_of_fixed(s: Seq<char>)
    requires
        chars_lower(s),
    ensures
        lower_of(s) == s,
    decreases s.len(),
{
    if s.len() > 0 {
        let t = s.subrange(1, s.len() as int);
        assert forall|i: int| 0 <= i < t.len() implies lower_char(#[trigger] t[i]) == seq![
            t[i],
        ] by {
            assert(t[i] == s[i + 1]);
        }
        lemma_lower_of_fixed(t);
        assert(lower_char(s[0]) == seq![s[0]]);
        assert(seq![s[0]] + t =~= s);
    }
}

/// When the contents are made of characters fixed by the lowercase
/// mapping, so is every one of their lines.
proof fn lemma_lines_preserve_fixed(c: Seq<char>)
    requires
        chars_lower(c),
    ensures
        forall|i: int| 0 <= i < lines_of(c).len() ==> chars_lower(#[trigger] lines_of(c)[i]),
    decreases c.len(),
{
    if c.len() > 0 {
        lemma_find_nl_bounds(c);
        let nl = find_nl(c);
        if nl == c.len() {
            assert(lines_of(c)[0] == c);
        } else {
            let head = strip_cr(c.subrange(0, nl));
            let rest = c.subrange(nl + 1, c.len() as int);
            assert forall|j: int| 0 <= j < rest.len() implies lower_char(#[trigger] rest[j])
                == seq![rest[j]] by {
                assert(rest[j] == c[nl + 1 + j]);
            }
            lemma_lines_preserve_fixed(rest);
            assert forall|j: int| 0 <= j < head.len() implies lower_char(#[trigger] head[j])
                == seq![head[j]] by {
                assert(head[j] == c[j]);
            }
            assert(lines_of(c)[0] == head);
            assert forall|i: int| 0 <= i < lines_of(c).len() implies chars_lower(
                #[trigger] lines_of(c)[i],
            ) by {
                if i > 0 {
                    assert(lines_of(c)[i] == lines_of(rest)[i - 1]);
                }
            }
        }
    }
}

/// On a query and contents that are already lowercase (every character
/// fixed by the lowercase mapping), the two searches return exactly the
/// same lines.
pub proof fn lemma_searches_agree_on_lowercase(q: Seq<char>, c: Seq<char>)
    requires
        chars_lower(q),
        chars_lower(c),
    ensures
        search_ci_spec(q, c) == search_spec(q, c),
{
    lemma_lower_of_fixed(q);
    lemma_lines_preserve_fixed(c);
    assert forall|i: int| 0 <= i < lines_of(c).len() implies sens_pred(q)(
        #[trigger] lines_of(c)[i],
    ) == insens_pred(q)(lines_of(c)[i]) by {
        lemma_lower_of_fixed(lines_of(c)[i]);
    }
    lemma_filter_agree(lines_of(c), sens_pred(q), insens_pred(q));
}

/// The case-sensitive search result is a function of the query and the
/// contents alone: two runs on unchanged inputs yield identical output.
pub proof fn lemma_search_idempotent(
    q: Seq<char>,
    c: Seq<char>,
    r1: Seq<Seq<char>>,
    r2: Seq<Seq<char>>,
)
    requires
        r1 == search_spec(q, c),
        r2 == search_spec(q, c),
    ensures
        r1 == r2,
{
}

/// The case-insensitive search result is likewise a function of the
/// query and the contents alone.
pub proof fn lemma_search_ci_idempotent(
    q: Seq<char>,
    c: Seq<char>,
    r1: Seq<Seq<char>>,
    r2: Seq<Seq<char>>,
)
    requires
        r1 == search_ci_spec(q, c),
        r2 == search_ci_spec(q, c),
    ensures
        r1 == r2,
{
}

/// An empty query matches every line: the search returns all lines of
/// the contents, unchanged and in order.
pub proof fn lemma_empty_query(q: Seq<char>, c: Seq<char>)
    requires
        q.len() == 0,
    ensures
        search_spec(q, c) == lines_of(c),
{
    assert forall|i: int| 0 <= i < lines_of(c).len() implies sens_pred(q)(
        #[trigger] lines_of(c)[i],
    ) by {
        let l = lines_of(c)[i];
        assert(l.subrange(0, 0) =~= q);
        assert(matches_at(l, q, 0));
    }
    lemma_filter_all(lines_of(c), sens_pred(q));
}

/// Empty contents have no lines, so both searches return an empty
/// sequence.
pub proof fn lemma_empty_contents(q: Seq<char>, c: Seq<char>)
    requires
        c.len() == 0,
    ensures
        search_spec(q, c) == Seq::<Seq<char>>::empty(),
        search_ci_spec(q, c) == Seq::<Seq<char>>::empty(),
{
    reveal(Seq::filter);
    assert(lines_of(c) =~= Seq::<Seq<char>>::empty());
}

} // verus!
