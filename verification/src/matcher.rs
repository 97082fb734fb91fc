//! The two search variants: return, in original order, every line of a text
//! that contains a pattern, either exactly or after lowercase folding.

use vstd::prelude::*;
use vstd::string::StrSliceExecFns;
use crate::text::contains_sub;
use crate::text::has_substring;
use crate::text::line_split;
use crate::text::split_lines;
use crate::text::views_of;

verus! {

/// What `str::to_lowercase` returns: a function of the characters alone.
pub uninterp spec fn lower_of(s: Seq<char>) -> Seq<char>;

/// Lowercase folding as the insensitive matcher uses it; an empty string
/// folds to itself.
pub open spec fn lower(s: Seq<char>) -> Seq<char> {
    if s.len() == 0 {
        Seq::<char>::empty()
    } else {
        lower_of(s)
    }
}

/// Relies on `str::to_lowercase`: the result depends on the characters
/// alone, and an empty string stays empty.
#[verifier::external_body]
fn lowercase(s: &str) -> (r: String)
    ensures
        r@ == lower_of(s@),
        s@.len() == 0 ==> r@.len() == 0,
{
    s.to_lowercase()
}

/// The lines among `lines` that satisfy `pred`, in order.
pub open spec fn kept_lines(lines: Seq<Seq<char>>, pred: spec_fn(Seq<char>) -> bool) -> Seq<Seq<char>>
    decreases lines.len(),
{
    if lines.len() == 0 {
        Seq::<Seq<char>>::empty()
    } else if pred(lines.last()) {
        kept_lines(lines.drop_last(), pred).push(lines.last())
    } else {
        kept_lines(lines.drop_last(), pred)
    }
}

/// A line matches case-sensitively when it contains the pattern verbatim.
pub open spec fn sensitive_pred(p: Seq<char>) -> spec_fn(Seq<char>) -> bool {
    |l: Seq<char>| has_substring(l, p)
}

/// A line matches case-insensitively when its lowercase folding contains the
/// lowercase folding of the pattern.
pub open spec fn insensitive_pred(p: Seq<char>) -> spec_fn(Seq<char>) -> bool {
    |l: Seq<char>| has_substring(lower(l), lower(p))
}

/// The lines of `t` that contain `p` verbatim, in original order.
pub open spec fn search_sensitive_spec(p: Seq<char>, t: Seq<char>) -> Seq<Seq<char>> {
    kept_lines(line_split(t), sensitive_pred(p))
}

/// The lines of `t`, kept in their original casing and order, whose
/// lowercase folding contains the lowercase folding of `p`.
pub open spec fn search_insensitive_spec(p: Seq<char>, t: Seq<char>) -> Seq<Seq<char>> {
    kept_lines(line_split(t), insensitive_pred(p))
}

/// Case-sensitive search: every line of `text` that contains `pattern`, as
/// slices of `text`, in original order.
pub fn search_case_sensitive<'a>(pattern: &str, text: &'a str) -> (r: Vec<&'a str>)
    ensures
        views_of(r@) == search_sensitive_spec(pattern@, text@),
{
    let lines = split_lines(text);
    let ghost lv = views_of(lines@);
    let ghost pred = sensitive_pred(pattern@);
    let mut r: Vec<&'a str> = Vec::new();
    let mut i: usize = 0;
    proof {
        assert(lv.subrange(0, 0) =~= Seq::<Seq<char>>::empty());
    }
    while i < lines.len()
        invariant
            i <= lines@.len(),
            lv == views_of(lines@),
            lv == line_split(text@),
            pred == sensitive_pred(pattern@),
            views_of(r@) == kept_lines(lv.subrange(0, i as int), pred),
        decreases lines@.len() - i,
    {
        let line: &'a str = lines[i];
        let keep = contains_sub(line, pattern);
        proof {
            let s1 = lv.subrange(0, i as int + 1);
            assert(s1.drop_last() =~= lv.subrange(0, i as int));
            assert(s1.last() == lv[i as int]);
            assert(lv[i as int] == line@);
            if keep {
                assert(views_of(r@.push(line)) =~= views_of(r@).push(line@));
            }
        }
        if keep {
            r.push(line);
        }
        i += 1;
    }
    proof {
        assert(lv.subrange(0, lines@.len() as int) =~= lv);
    }
    r
}

/// Case-insensitive search: every line of `text` whose lowercase folding
/// contains the lowercase folding of `pattern`; the returned lines keep
/// their original casing and order.
pub fn search_case_insensitive<'a>(pattern: &str, text: &'a str) -> (r: Vec<&'a str>)
    ensures
        views_of(r@) == search_insensitive_spec(pattern@, text@),
{
    let lowered_pattern = lowercase(pattern);
    proof {
        if pattern@.len() == 0 {
            assert(lowered_pattern@ =~= Seq::<char>::empty());
        }
        assert(lowered_pattern@ == lower(pattern@));
    }
    let lines = split_lines(text);
    let ghost lv = views_of(lines@);
    let ghost pred = insensitive_pred(pattern@);
    let mut r: Vec<&'a str> = Vec::new();
    let mut i: usize = 0;
    proof {
        assert(lv.subrange(0, 0) =~= Seq::<Seq<char>>::empty());
    }
    while i < lines.len()
        invariant
            i <= lines@.len(),
            lv == views_of(lines@),
            lv == line_split(text@),
            pred == insensitive_pred(pattern@),
            lowered_pattern@ == lower(pattern@),
            views_of(r@) == kept_lines(lv.subrange(0, i as int), pred),
        decreases lines@.len() - i,
    {
        let line: &'a str = lines[i];
        let lowered_line = lowercase(line);
        proof {
            if line@.len() == 0 {
                assert(lowered_line@ =~= Seq::<char>::empty());
            }
            assert(lowered_line@ == lower(line@));
        }
        let keep = contains_sub(lowered_line.as_str(), lowered_pattern.as_str());
        proof {
            let s1 = lv.subrange(0, i as int + 1);
            assert(s1.drop_last() =~= lv.subrange(0, i as int));
            assert(s1.last() == lv[i as int]);
            assert(lv[i as int] == line@);
            assert(keep == pred(line@));
            if keep {
                assert(views_of(r@.push(line)) =~= views_of(r@).push(line@));
            }
        }
        if keep {
            r.push(line);
        }
        i += 1;
    }
    proof {
        assert(lv.subrange(0, lines@.len() as int) =~= lv);
    }
    r
}

/// The kept lines are exactly the lines satisfying `pred`, as a subsequence:
/// the returned index map is strictly increasing, points each kept line at a
/// line it copies verbatim, and covers every line that satisfies `pred`.
pub proof fn lemma_kept_lines_subsequence(lines: Seq<Seq<char>>, pred: spec_fn(Seq<char>) -> bool) -> (m: Seq<int>)
    ensures
        m.len() == kept_lines(lines, pred).len(),
        forall|j: int| 0 <= j < m.len() ==> 0 <= #[trigger] m[j] < lines.len(),
        forall|j: int| 0 <= j < m.len() ==> kept_lines(lines, pred)[j] == lines[#[trigger] m[j]],
        forall|j: int| 0 <= j < m.len() ==> pred(lines[#[trigger] m[j]]),
        forall|j1: int, j2: int| 0 <= j1 < j2 < m.len() ==> m[j1] < m[j2],
        forall|i: int| 0 <= i < lines.len() && pred(lines[i]) ==> m.contains(i),
    decreases lines.len(),
{
    if lines.len() == 0 {
        Seq::<int>::empty()
    } else {
        let m0 = lemma_kept_lines_subsequence(lines.drop_last(), pred);
        let last_i = lines.len() - 1;
        assert(forall|i: int| 0 <= i < last_i ==> lines.drop_last()[i] == lines[i]);
        if pred(lines.last()) {
            let m = m0.push(last_i);
            assert forall|i: int| 0 <= i < lines.len() && pred(lines[i]) implies m.contains(i) by {
                if i == last_i {
                    assert(m[m.len() - 1] == i);
                } else {
                    assert(m0.contains(i));
                    let k = choose|k: int| 0 <= k < m0.len() && m0[k] == i;
                    assert(m[k] == i);
                }
            }
            m
        } else {
            assert forall|i: int| 0 <= i < lines.len() && pred(lines[i]) implies m0.contains(i) by {
                assert(i < last_i);
                assert(m0.contains(i));
            }
            m0
        }
    }
}

/// Soundness, completeness and order of the case-sensitive search: each
/// returned line is verbatim a line of the text and contains the pattern,
/// the lines come in their original order, and every line of the text that
/// contains the pattern is returned.
pub proof fn lemma_search_sensitive_sound_complete(p: Seq<char>, t: Seq<char>) -> (m: Seq<int>)
    ensures
        m.len() == search_sensitive_spec(p, t).len(),
        forall|j: int| 0 <= j < m.len() ==> 0 <= #[trigger] m[j] < line_split(t).len(),
        forall|j: int| 0 <= j < m.len() ==> search_sensitive_spec(p, t)[j] == line_split(t)[#[trigger] m[j]],
        forall|j: int| 0 <= j < m.len() ==> has_substring(#[trigger] search_sensitive_spec(p, t)[j], p),
        forall|j1: int, j2: int| 0 <= j1 < j2 < m.len() ==> m[j1] < m[j2],
        forall|i: int| 0 <= i < line_split(t).len() && has_substring(line_split(t)[i], p)
            ==> m.contains(i),
{
    let ls = line_split(t);
    let m = lemma_kept_lines_subsequence(ls, sensitive_pred(p));
    assert forall|j: int| 0 <= j < m.len() implies has_substring(
        #[trigger] search_sensitive_spec(p, t)[j],
        p,
    ) by {
        assert(sensitive_pred(p)(ls[m[j]]));
        assert(search_sensitive_spec(p, t)[j] == ls[m[j]]);
    }
    m
}

/// Soundness, completeness and order of the case-insensitive search: each
/// returned line is verbatim a line of the text (original casing kept) whose
/// lowercase folding contains the folded pattern, the lines come in their
/// original order, and every such line of the text is returned.
pub proof fn lemma_search_insensitive_sound_complete(p: Seq<char>, t: Seq<char>) -> (m: Seq<int>)
    ensures
        m.len() == search_insensitive_spec(p, t).len(),
        forall|j: int| 0 <= j < m.len() ==> 0 <= #[trigger] m[j] < line_split(t).len(),
        forall|j: int| 0 <= j < m.len() ==> search_insensitive_spec(p, t)[j] == line_split(t)[#[trigger] m[j]],
        forall|j: int| 0 <= j < m.len() ==> has_substring(
            lower(#[trigger] search_insensitive_spec(p, t)[j]),
            lower(p),
        ),
        forall|j1: int, j2: int| 0 <= j1 < j2 < m.len() ==> m[j1] < m[j2],
        forall|i: int| 0 <= i < line_split(t).len() && has_substring(lower(line_split(t)[i]), lower(p))
            ==> m.contains(i),
{
    let ls = line_split(t);
    let m = lemma_kept_lines_subsequence(ls, insensitive_pred(p));
    assert forall|j: int| 0 <= j < m.len() implies has_substring(
        lower(#[trigger] search_insensitive_spec(p, t)[j]),
        lower(p),
    ) by {
        assert(insensitive_pred(p)(ls[m[j]]));
        assert(search_insensitive_spec(p, t)[j] == ls[m[j]]);
    }
    m
}

pub proof fn lemma_kept_lines_all(lines: Seq<Seq<char>>, pred: spec_fn(Seq<char>) -> bool)
    requires
        forall|i: int| 0 <= i < lines.len() ==> pred(lines[i]),
    ensures
        kept_lines(lines, pred) == lines,
    decreases lines.len(),
{
    if lines.len() == 0 {
        assert(kept_lines(lines, pred) =~= lines);
    } else {
        assert(forall|i: int| 0 <= i < lines.drop_last().len() ==> pred(lines.drop_last()[i]));
        lemma_kept_lines_all(lines.drop_last(), pred);
        assert(pred(lines[lines.len() - 1]));
        assert(kept_lines(lines, pred) =~= lines);
    }
}

proof fn lemma_kept_lines_monotone(
    lines: Seq<Seq<char>>,
    pred1: spec_fn(Seq<char>) -> bool,
    pred2: spec_fn(Seq<char>) -> bool,
)
    requires
        forall|l: Seq<char>| #[trigger] pred1(l) ==> pred2(l),
    ensures
        kept_lines(lines, pred1).len() <= kept_lines(lines, pred2).len(),
    decreases lines.len(),
{
    if lines.len() == 0 {
    } else {
        lemma_kept_lines_monotone(lines.drop_last(), pred1, pred2);
    }
}

/// Where lowercase folding preserves containment of the pattern — whenever
/// a line contains it verbatim, the folded line contains the folded
/// pattern — the case-insensitive search returns at least as many lines as
/// the case-sensitive one.
pub proof fn lemma_insensitive_matches_at_least_sensitive(p: Seq<char>, t: Seq<char>)
    requires
        forall|l: Seq<char>| #[trigger] has_substring(l, p) ==> has_substring(lower(l), lower(p)),
    ensures
        search_insensitive_spec(p, t).len() >= search_sensitive_spec(p, t).len(),
{
    assert forall|l: Seq<char>| #[trigger] sensitive_pred(p)(l) implies insensitive_pred(p)(l) by {
        assert(has_substring(l, p));
    }
    lemma_kept_lines_monotone(line_split(t), sensitive_pred(p), insensitive_pred(p));
}

proof fn lemma_empty_needle(h: Seq<char>, n: Seq<char>)
    requires
        n.len() == 0,
    ensures
        has_substring(h, n),
{
    assert(h.subrange(0, 0) =~= n);
    assert(crate::text::substring_at(h, n, 0));
}

/// An empty pattern matches every line, in both variants.
pub proof fn lemma_empty_pattern_matches_all(p: Seq<char>, t: Seq<char>)
    requires
        p.len() == 0,
    ensures
        search_sensitive_spec(p, t) == line_split(t),
        search_insensitive_spec(p, t) == line_split(t),
{
    let ls = line_split(t);
    assert forall|i: int| 0 <= i < ls.len() implies sensitive_pred(p)(ls[i]) by {
        lemma_empty_needle(ls[i], p);
    }
    lemma_kept_lines_all(ls, sensitive_pred(p));
    assert forall|i: int| 0 <= i < ls.len() implies insensitive_pred(p)(ls[i]) by {
        lemma_empty_needle(lower(ls[i]), lower(p));
    }
    lemma_kept_lines_all(ls, insensitive_pred(p));
}

} // verus!
