//! The line matcher: case-sensitive and case-insensitive search over the
//! lines of a text, each pinned to a filter of the line sequence.

use vstd::prelude::*;

use crate::config::Config;
use crate::text::contains_str;
use crate::text::lines_of;
use crate::text::lower_of;
use crate::text::split_lines;
use crate::text::text_contains;
use crate::text::to_lowercase_text;

verus! {

/// The predicate a line must satisfy to be kept by `search`.
pub open spec fn sens_pred(q: Seq<char>) -> spec_fn(Seq<char>) -> bool {
    |l: Seq<char>| text_contains(l, q)
}

/// The predicate a line must satisfy to be kept by
/// `search_case_insentive`: containment after lowercasing both sides.
pub open spec fn insens_pred(q: Seq<char>) -> spec_fn(Seq<char>) -> bool {
    |l: Seq<char>| text_contains(lower_of(l), lower_of(q))
}

/// What `search` returns: the lines of `c` that contain `q`, in order.
pub open spec fn search_spec(q: Seq<char>, c: Seq<char>) -> Seq<Seq<char>> {
    lines_of(c).filter(sens_pred(q))
}

/// What `search_case_insentive` returns: the lines of `c` whose
/// lowercase form contains the lowercase form of `q`, in order.
pub open spec fn search_ci_spec(q: Seq<char>, c: Seq<char>) -> Seq<Seq<char>> {
    lines_of(c).filter(insens_pred(q))
}

/// Every line of `contents` that contains `query` exactly, in original
/// order, as views into `contents`.
pub fn search<'a>(query: &str, contents: &'a str) -> (r: Vec<&'a str>)
    ensures
        r.deep_view() == search_spec(query@, contents@),
{
    let lines = split_lines(contents);
    let mut r: Vec<&'a str> = Vec::new();
    proof {
        reveal(Seq::filter);
        assert(r.deep_view() =~= Seq::<Seq<char>>::empty());
        assert(lines.deep_view().subrange(0, 0) =~= Seq::<Seq<char>>::empty());
    }
    let mut i: usize = 0;
    while i < lines.len()
        invariant
            i <= lines.len(),
            lines.deep_view() == lines_of(contents@),
            lines.deep_view().len() == lines@.len(),
            r.deep_view() == lines.deep_view().subrange(0, i as int).filter(sens_pred(query@)),
        decreases lines.len() - i,
    {
        let line = lines[i];
        let keep = contains_str(line, query);
        proof {
            let lv = lines.deep_view();
            assert(lv[i as int] == line@);
            assert(lv.subrange(0, i + 1) =~= lv.subrange(0, i as int).push(lv[i as int]));
            lv.subrange(0, i as int).lemma_filter_push(lv[i as int], sens_pred(query@));
        }
        if keep {
            let ghost rdv = r.deep_view();
            r.push(line);
            proof {
                assert(r.deep_view() =~= rdv.push(line@));
            }
        }
        i += 1;
    }
    proof {
        assert(lines.deep_view().subrange(0, i as int) =~= lines.deep_view());
    }
    r
}

/// Every line of `contents` whose lowercase form contains the lowercase
/// form of `query`, in original order; the lines returned are views into
/// the original, non-normalized text.
pub fn search_case_insentive<'a>(query: &str, contents: &'a str) -> (r: Vec<&'a str>)
    ensures
        r.deep_view() == search_ci_spec(query@, contents@),
{
    let query_lower = to_lowercase_text(query);
    let lines = split_lines(contents);
    let mut r: Vec<&'a str> = Vec::new();
    proof {
        reveal(Seq::filter);
        assert(r.deep_view() =~= Seq::<Seq<char>>::empty());
        assert(lines.deep_view().subrange(0, 0) =~= Seq::<Seq<char>>::empty());
    }
    let mut i: usize = 0;
    while i < lines.len()
        invariant
            i <= lines.len(),
            lines.deep_view() == lines_of(contents@),
            lines.deep_view().len() == lines@.len(),
            query_lower@ == lower_of(query@),
            r.deep_view() == lines.deep_view().subrange(0, i as int).filter(insens_pred(query@)),
        decreases lines.len() - i,
    {
        let line = lines[i];
        let line_lower = to_lowercase_text(line);
        let keep = contains_str(line_lower.as_str(), query_lower.as_str());
        proof {
            let lv = lines.deep_view();
            assert(lv[i as int] == line@);
            assert(lv.subrange(0, i + 1) =~= lv.subrange(0, i as int).push(lv[i as int]));
            lv.subrange(0, i as int).lemma_filter_push(lv[i as int], insens_pred(query@));
        }
        if keep {
            let ghost rdv = r.deep_view();
            r.push(line);
            proof {
                assert(r.deep_view() =~= rdv.push(line@));
            }
        }
        i += 1;
    }
    proof {
        assert(lines.deep_view().subrange(0, i as int) =~= lines.deep_view());
    }
    r
}

/// The matching lines for a whole configuration: case-insensitive when
/// the configuration says to ignore case, exact containment otherwise.
pub fn search_configured<'a>(config: &Config, contents: &'a str) -> (r: Vec<&'a str>)
    ensures
        config.ignore_case ==> r.deep_view() == search_ci_spec(config.query@, contents@),
        !config.ignore_case ==> r.deep_view() == search_spec(config.query@, contents@),
{
    if config.ignore_case {
        search_case_insentive(config.query.as_str(), contents)
    } else {
        search(config.query.as_str(), contents)
    }
}

} // verus!
