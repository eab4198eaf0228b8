//! The textual model: line splitting, substring containment and
//! lowercase normalization, as spec functions over `Seq<char>`, together
//! with the executable routines that realize them.

use vstd::prelude::*;

verus! {

/// `q` occurs in `l` starting at character index `i`.
pub open spec fn matches_at(l: Seq<char>, q: Seq<char>, i: int) -> bool {
    0 <= i && i + q.len() <= l.len() && l.subrange(i, i + q.len() as int) == q
}

/// Exact substring containment: `q` occurs somewhere in `l`.
/// An empty `q` is contained in every `l`.
pub open spec fn text_contains(l: Seq<char>, q: Seq<char>) -> bool {
    exists|i: int| matches_at(l, q, i)
}

/// Character index of the first newline in `s`, or `s.len()` when `s`
/// holds none.
pub open spec fn find_nl(s: Seq<char>) -> int
    decreases s.len(),
{
    if s.len() == 0 {
        0
    } else if s[0] == '\n' {
        0
    } else {
        1 + find_nl(s.subrange(1, s.len() as int))
    }
}

/// A trailing carriage return is dropped, so that a line that ended in
/// "\r\n" loses the '\r' along with the '\n'.
pub open spec fn strip_cr(l: Seq<char>) -> Seq<char> {
    if l.len() > 0 && l[l.len() - 1] == '\r' {
        l.drop_last()
    } else {
        l
    }
}

/// The lines of `s`: maximal pieces separated by '\n', each with a
/// trailing '\r' stripped; a final piece without a newline still counts
/// as a line, and an empty text has no lines.
pub open spec fn lines_of(s: Seq<char>) -> Seq<Seq<char>>
    decreases s.len(),
    via lines_of_decreases
{
    if s.len() == 0 {
        Seq::empty()
    } else {
        let i = find_nl(s);
        if i == s.len() {
            seq![s]
        } else {
            seq![strip_cr(s.subrange(0, i))] + lines_of(s.subrange(i + 1, s.len() as int))
        }
    }
}

#[via_fn]
proof fn lines_of_decreases(s: Seq<char>) {
    lemma_find_nl_bounds(s);
}

pub proof fn lemma_find_nl_bounds(s: Seq<char>)
    ensures
        0 <= find_nl(s) <= s.len(),
        find_nl(s) < s.len() ==> s[find_nl(s)] == '\n',
        forall|k: int| 0 <= k < find_nl(s) ==> s[k] != '\n',
    decreases s.len(),
{
    if s.len() == 0 {
    } else if s[0] == '\n' {
    } else {
        let t = s.subrange(1, s.len() as int);
        lemma_find_nl_bounds(t);
        assert forall|k: int| 0 <= k < find_nl(s) implies s[k] != '\n' by {
            if k > 0 {
                assert(s[k] == t[k - 1]);
            }
        }
    }
}

/// `find_nl` is pinned by its characterization: if nothing before `j` is
/// a newline and `j` is one (or the end), then `j` is the first newline.
pub proof fn lemma_find_nl_at(s: Seq<char>, j: int)
    requires
        0 <= j <= s.len(),
        forall|k: int| 0 <= k < j ==> s[k] != '\n',
        j < s.len() ==> s[j] == '\n',
    ensures
        find_nl(s) == j,
    decreases s.len(),
{
    if j == 0 {
    } else {
        let t = s.subrange(1, s.len() as int);
        assert(s[0] != '\n');
        assert forall|k: int| 0 <= k < j - 1 implies t[k] != '\n' by {
            assert(t[k] == s[k + 1]);
        }
        assert(j - 1 < t.len() ==> t[j - 1] == s[j]);
        lemma_find_nl_at(t, j - 1);
    }
}

/// What `char::to_lowercase` yields for one character: a short sequence
/// of characters that depends on the character alone.
pub uninterp spec fn lower_char(c: char) -> Seq<char>;

/// Codepoint-wise lowercase normalization of a text: each character is
/// replaced, in place, by its lowercase mapping.
pub open spec fn lower_of(s: Seq<char>) -> Seq<char>
    decreases s.len(),
{
    if s.len() == 0 {
        Seq::empty()
    } else {
        lower_char(s[0]) + lower_of(s.subrange(1, s.len() as int))
    }
}

/// Lowercasing distributes over concatenation, because it works one
/// character at a time.
pub proof fn lemma_lower_of_add(a: Seq<char>, b: Seq<char>)
    ensures
        lower_of(a + b) == lower_of(a) + lower_of(b),
    decreases a.len(),
{
    if a.len() == 0 {
        assert(a + b =~= b);
        assert(lower_of(a) + lower_of(b) =~= lower_of(b));
    } else {
        let t = a.subrange(1, a.len() as int);
        lemma_lower_of_add(t, b);
        assert((a + b).subrange(1, (a + b).len() as int) =~= t + b);
        assert((a + b)[0] == a[0]);
        assert(lower_char(a[0]) + (lower_of(t) + lower_of(b)) =~= (lower_char(a[0]) + lower_of(t))
            + lower_of(b));
    }
}

/// Relies on char::to_lowercase from std: the lowercase mapping of a
/// character, one or more characters, determined by the character alone.
#[verifier::external_body]
fn char_lowercase(c: char) -> (r: String)
    ensures
        r@ == lower_char(c),
{
    c.to_lowercase().collect()
}

/// Lowercase a whole text, character by character.
pub fn to_lowercase_text(s: &str) -> (r: String)
    ensures
        r@ == lower_of(s@),
{
    let n = s.unicode_len();
    let mut r = String::new();
    let mut i: usize = 0;
    while i < n
        invariant
            i <= n,
            n == s@.len(),
            r@ == lower_of(s@.subrange(0, i as int)),
        decreases n - i,
    {
        let c = s.get_char(i);
        let cl = char_lowercase(c);
        r.append(cl.as_str());
        proof {
            let pre = s@.subrange(0, i as int);
            lemma_lower_of_add(pre, seq![c]);
            assert(s@.subrange(0, i + 1) =~= pre + seq![c]);
            assert(seq![c][0] == c);
            assert(seq![c].subrange(1, 1) =~= Seq::<char>::empty());
            assert(lower_char(c) + lower_of(Seq::<char>::empty()) =~= lower_char(c));
            assert(lower_of(seq![c]) == lower_char(c) + lower_of(seq![c].subrange(1, 1)));
        }
        i += 1;
    }
    proof {
        assert(s@.subrange(0, n as int) =~= s@);
    }
    r
}

/// Does `l` contain `q` as an exact substring?
pub fn contains_str(l: &str, q: &str) -> (b: bool)
    ensures
        b == text_contains(l@, q@),
{
    let ln = l.unicode_len();
    let qn = q.unicode_len();
    if qn > ln {
        proof {
            assert forall|i: int| !matches_at(l@, q@, i) by {
                assert(q@.len() > l@.len());
            }
        }
        return false;
    }
    if qn == 0 {
        proof {
            assert(l@.subrange(0, 0) =~= q@);
            assert(matches_at(l@, q@, 0));
        }
        return true;
    }
    let mut i: usize = 0;
    while i <= ln - qn
        invariant
            0 < qn <= ln,
            ln == l@.len(),
            qn == q@.len(),
            i <= ln - qn + 1,
            forall|k: int| 0 <= k < i ==> !matches_at(l@, q@, k),
        decreases ln - i,
    {
        let mut j: usize = 0;
        let mut all = true;
        while all && j < qn
            invariant
                j <= qn,
                i + qn <= ln,
                ln == l@.len(),
                qn == q@.len(),
                all ==> forall|t: int| 0 <= t < j ==> l@[i + t] == q@[t],
                !all ==> !matches_at(l@, q@, i as int),
            decreases qn - j + (if all { 1int } else { 0int }),
        {
            if l.get_char(i + j) == q.get_char(j) {
                j += 1;
            } else {
                proof {
                    assert(l@.subrange(i as int, i + qn as int)[j as int] == l@[i + j]);
                }
                all = false;
            }
        }
        if all {
            proof {
                assert(l@.subrange(i as int, i + qn as int) =~= q@);
                assert(matches_at(l@, q@, i as int));
            }
            return true;
        }
        i += 1;
    }
    proof {
        assert forall|k: int| !matches_at(l@, q@, k) by {
            if 0 <= k < i {
            } else if k >= i {
                assert(k + q@.len() > l@.len());
            }
        }
    }
    false
}

/// Split a text into its lines: '\n' separates, "\r\n" separates with
/// the '\r' dropped, and a final line without a newline still counts.
pub fn split_lines<'a>(contents: &'a str) -> (r: Vec<&'a str>)
    ensures
        r.deep_view() == lines_of(contents@),
{
    let n = contents.unicode_len();
    let mut r: Vec<&'a str> = Vec::new();
    proof {
        assert(r.deep_view() =~= Seq::<Seq<char>>::empty());
        assert(contents@.subrange(0, n as int) =~= contents@);
        assert(r.deep_view() + lines_of(contents@) =~= lines_of(contents@));
    }
    let mut start: usize = 0;
    while start < n
        invariant
            start <= n,
            n == contents@.len(),
            lines_of(contents@) == r.deep_view() + lines_of(
                contents@.subrange(start as int, n as int),
            ),
        decreases n - start,
    {
        let mut j: usize = start;
        while j < n && contents.get_char(j) != '\n'
            invariant
                start <= j <= n,
                n == contents@.len(),
                forall|k: int| start <= k < j ==> contents@[k] != '\n',
            decreases n - j,
        {
            j += 1;
        }
        let ghost rest = contents@.subrange(start as int, n as int);
        proof {
            assert forall|k: int| 0 <= k < j - start implies rest[k] != '\n' by {
                assert(rest[k] == contents@[start + k]);
            }
            assert(j - start < rest.len() ==> rest[j - start] == contents@[j as int]);
            lemma_find_nl_at(rest, j - start);
        }
        if j < n {
            let line_end = if j > start && contents.get_char(j - 1) == '\r' {
                j - 1
            } else {
                j
            };
            let line = contents.substring_char(start, line_end);
            proof {
                let piece = rest.subrange(0, j - start);
                assert(piece =~= contents@.subrange(start as int, j as int));
                if j > start && contents@[j - 1] == '\r' {
                    assert(piece[piece.len() - 1] == contents@[j - 1]);
                    assert(piece.drop_last() =~= contents@.subrange(
                        start as int,
                        line_end as int,
                    ));
                } else {
                    if piece.len() > 0 {
                        assert(piece[piece.len() - 1] == contents@[j - 1]);
                    }
                }
                assert(strip_cr(piece) =~= line@);
                assert(rest.subrange(j - start + 1, rest.len() as int) =~= contents@.subrange(
                    j + 1,
                    n as int,
                ));
                assert(lines_of(rest) =~= seq![line@] + lines_of(
                    contents@.subrange(j + 1, n as int),
                ));
            }
            let ghost rdv = r.deep_view();
            r.push(line);
            proof {
                assert(r.deep_view() =~= rdv.push(line@));
                assert(lines_of(contents@) =~= r.deep_view() + lines_of(
                    contents@.subrange(j + 1, n as int),
                ));
            }
            start = j + 1;
        } else {
            let line = contents.substring_char(start, n);
            proof {
                assert(line@ =~= rest);
                assert(rest.len() > 0);
                assert(lines_of(rest) =~= seq![line@]);
            }
            let ghost rdv = r.deep_view();
            r.push(line);
            proof {
                assert(r.deep_view() =~= rdv.push(line@));
                assert(contents@.subrange(n as int, n as int) =~= Seq::<char>::empty());
                assert(lines_of(contents@) =~= r.deep_view() + lines_of(
                    contents@.subrange(n as int, n as int),
                ));
            }
            start = n;
        }
    }
    proof {
        assert(contents@.subrange(start as int, n as int) =~= Seq::<char>::empty());
        assert(lines_of(contents@) =~= r.deep_view());
    }
    r
}

} // verus!
