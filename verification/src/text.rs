//! Character-level text primitives: substring containment and line
//! splitting, each with an exact specification.

use vstd::prelude::*;
use vstd::string::StrSliceExecFns;

verus! {

/// The needle `n` occurs in `h` starting at position `i`.
pub open spec fn substring_at(h: Seq<char>, n: Seq<char>, i: int) -> bool {
    0 <= i && i + n.len() <= h.len() && h.subrange(i, i + n.len() as int) == n
}

/// `h` contains `n` as a contiguous run of characters.
pub open spec fn has_substring(h: Seq<char>, n: Seq<char>) -> bool {
    exists|i: int| substring_at(h, n, i)
}

/// Whether `needle` occurs at position `i` of `hay`, checked character by
/// character.
fn match_at(hay: &str, needle: &str, i: usize) -> (r: bool)
    requires
        i + needle@.len() <= hay@.len(),
        hay@.len() <= usize::MAX,
    ensures
        r == substring_at(hay@, needle@, i as int),
{
    let n: usize = needle.unicode_len();
    let mut k: usize = 0;
    while k < n
        invariant
            k <= n,
            n == needle@.len(),
            i + n <= hay@.len() <= usize::MAX,
            forall|j: int| 0 <= j < k ==> hay@[i + j] == needle@[j],
        decreases n - k,
    {
        if hay.get_char(i + k) != needle.get_char(k) {
            proof {
                assert(!substring_at(hay@, needle@, i as int)) by {
                    if substring_at(hay@, needle@, i as int) {
                        assert(hay@.subrange(i as int, i + n as int)[k as int]
                            == hay@[i + k]);
                    }
                }
            }
            return false;
        }
        k += 1;
    }
    proof {
        assert(hay@.subrange(i as int, i + n as int) =~= needle@);
    }
    true
}

/// Exact substring containment: whether `needle` occurs anywhere in `hay`.
/// An empty needle is contained in every string.
pub fn contains_sub(hay: &str, needle: &str) -> (r: bool)
    ensures
        r == has_substring(hay@, needle@),
{
    let h: usize = hay.unicode_len();
    let n: usize = needle.unicode_len();
    if n > h {
        proof {
            assert(!has_substring(hay@, needle@)) by {
                if has_substring(hay@, needle@) {
                    let j = choose|j: int| substring_at(hay@, needle@, j);
                    assert(j + needle@.len() <= hay@.len());
                }
            }
        }
        return false;
    }
    let last: usize = h - n;
    let mut i: usize = 0;
    let mut found: bool = false;
    loop
        invariant_except_break
            found == false,
        invariant
            i <= last,
            last == h - n,
            n <= h,
            h == hay@.len(),
            n == needle@.len(),
            forall|j: int| 0 <= j < i ==> !substring_at(hay@, needle@, j),
        ensures
            found == has_substring(hay@, needle@),
        decreases last - i,
    {
        if match_at(hay, needle, i) {
            found = true;
            proof {
                assert(has_substring(hay@, needle@)) by {
                    assert(substring_at(hay@, needle@, i as int));
                }
            }
            break;
        }
        if i == last {
            proof {
                assert(!has_substring(hay@, needle@)) by {
                    if has_substring(hay@, needle@) {
                        let j = choose|j: int| substring_at(hay@, needle@, j);
                        assert(j + n <= h);
                        assert(!substring_at(hay@, needle@, j));
                    }
                }
            }
            break;
        }
        i += 1;
    }
    found
}

/// A line as produced by the splitter: a trailing carriage return is dropped
/// when the line was ended by a newline.
pub open spec fn strip_cr(l: Seq<char>) -> Seq<char> {
    if l.len() > 0 && l[l.len() - 1] == '\r' {
        l.drop_last()
    } else {
        l
    }
}

/// Split on every newline character; always returns one part more than the
/// number of newlines, so the last part is the text after the last newline.
pub open spec fn nl_split(t: Seq<char>) -> Seq<Seq<char>>
    decreases t.len(),
{
    if t.len() == 0 {
        seq![Seq::<char>::empty()]
    } else if t[0] == '\n' {
        seq![Seq::<char>::empty()] + nl_split(t.drop_first())
    } else {
        let rest = nl_split(t.drop_first());
        seq![seq![t[0]] + rest[0]] + rest.drop_first()
    }
}

/// The lines of `t`: maximal runs between newline characters, where a
/// carriage return just before a newline belongs to the line ending, and a
/// final trailing newline produces no empty last line.
pub open spec fn line_split(t: Seq<char>) -> Seq<Seq<char>> {
    let parts = nl_split(t);
    let body = parts.drop_last().map_values(|l: Seq<char>| strip_cr(l));
    if t.len() == 0 || t[t.len() - 1] == '\n' {
        body
    } else {
        body.push(parts.last())
    }
}

/// The views of a sequence of string slices.
pub open spec fn views_of(s: Seq<&str>) -> Seq<Seq<char>> {
    s.map_values(|x: &str| x@)
}

pub proof fn lemma_nl_split_len(t: Seq<char>)
    ensures
        nl_split(t).len() >= 1,
    decreases t.len(),
{
    if t.len() == 0 {
    } else {
        lemma_nl_split_len(t.drop_first());
    }
}

pub proof fn lemma_nl_split_no_newline(u: Seq<char>)
    requires
        forall|j: int| 0 <= j < u.len() ==> u[j] != '\n',
    ensures
        nl_split(u) == seq![u],
    decreases u.len(),
{
    if u.len() == 0 {
        assert(u =~= Seq::<char>::empty());
        assert(nl_split(u) =~= seq![u]);
    } else {
        assert(forall|j: int| 0 <= j < u.drop_first().len() ==> u.drop_first()[j] != '\n');
        lemma_nl_split_no_newline(u.drop_first());
        let rest = nl_split(u.drop_first());
        assert(rest[0] == u.drop_first());
        assert(seq![u[0]] + rest[0] =~= u);
        assert(rest.drop_first() =~= Seq::<Seq<char>>::empty());
        assert(nl_split(u) =~= seq![u]);
    }
}

pub proof fn lemma_nl_split_peel(u: Seq<char>, v: Seq<char>)
    requires
        forall|j: int| 0 <= j < u.len() ==> u[j] != '\n',
    ensures
        nl_split(u + seq!['\n'] + v) == seq![u] + nl_split(v),
    decreases u.len(),
{
    let t = u + seq!['\n'] + v;
    if u.len() == 0 {
        assert(t =~= seq!['\n'] + v);
        assert(t[0] == '\n');
        assert(t.drop_first() =~= v);
        assert(u =~= Seq::<char>::empty());
        assert(nl_split(t) =~= seq![u] + nl_split(v));
    } else {
        assert(t[0] == u[0]);
        assert(t.drop_first() =~= u.drop_first() + seq!['\n'] + v);
        assert(forall|j: int| 0 <= j < u.drop_first().len() ==> u.drop_first()[j] != '\n');
        lemma_nl_split_peel(u.drop_first(), v);
        let rest = nl_split(t.drop_first());
        assert(rest == seq![u.drop_first()] + nl_split(v));
        assert(rest[0] == u.drop_first());
        assert(rest.drop_first() =~= nl_split(v));
        assert(seq![u[0]] + rest[0] =~= u);
        assert(nl_split(t) =~= seq![u] + nl_split(v));
    }
}

pub proof fn lemma_line_split_peel(u: Seq<char>, v: Seq<char>)
    requires
        forall|j: int| 0 <= j < u.len() ==> u[j] != '\n',
    ensures
        line_split(u + seq!['\n'] + v) == seq![strip_cr(u)] + line_split(v),
{
    let t = u + seq!['\n'] + v;
    lemma_nl_split_peel(u, v);
    lemma_nl_split_len(v);
    let pv = nl_split(v);
    let parts = nl_split(t);
    let f = (|l: Seq<char>| strip_cr(l));
    assert(parts.drop_last() =~= seq![u] + pv.drop_last());
    assert((seq![u] + pv.drop_last()).map_values(f) =~= seq![strip_cr(u)] + pv.drop_last().map_values(f));
    if v.len() == 0 {
        assert(t[t.len() - 1] == '\n');
        assert(pv.drop_last() =~= Seq::<Seq<char>>::empty());
        assert(line_split(v) =~= Seq::<Seq<char>>::empty());
        assert(line_split(t) =~= seq![strip_cr(u)] + line_split(v));
    } else if v[v.len() - 1] == '\n' {
        assert(t[t.len() - 1] == v[v.len() - 1]);
        assert(line_split(t) == parts.drop_last().map_values(f));
        assert(line_split(v) == pv.drop_last().map_values(f));
        assert(line_split(t) =~= seq![strip_cr(u)] + line_split(v));
    } else {
        assert(t[t.len() - 1] == v[v.len() - 1]);
        assert(parts.last() == pv.last());
        assert(line_split(t) == parts.drop_last().map_values(f).push(parts.last()));
        assert(line_split(v) == pv.drop_last().map_values(f).push(pv.last()));
        assert(line_split(t) =~= seq![strip_cr(u)] + line_split(v));
    }
}

pub proof fn lemma_line_split_no_newline(u: Seq<char>)
    requires
        forall|j: int| 0 <= j < u.len() ==> u[j] != '\n',
    ensures
        u.len() == 0 ==> line_split(u) == Seq::<Seq<char>>::empty(),
        u.len() > 0 ==> line_split(u) == seq![u],
{
    lemma_nl_split_no_newline(u);
    let parts = nl_split(u);
    assert(parts.drop_last() =~= Seq::<Seq<char>>::empty());
    if u.len() == 0 {
        assert(line_split(u) =~= Seq::<Seq<char>>::empty());
    } else {
        assert(u[u.len() - 1] != '\n');
        assert(line_split(u) =~= seq![u]);
    }
}

/// Split `text` into its lines, as slices of `text`: a newline ends a line,
/// a carriage return just before a newline is dropped, and a final trailing
/// newline yields no empty last line.
pub fn split_lines<'a>(text: &'a str) -> (r: Vec<&'a str>)
    ensures
        views_of(r@) == line_split(text@),
{
    let ghost t = text@;
    let n: usize = text.unicode_len();
    let mut r: Vec<&'a str> = Vec::new();
    let mut start: usize = 0;
    let mut i: usize = 0;
    proof {
        assert(t.subrange(0, n as int) =~= t);
        assert(views_of(r@) + line_split(t.subrange(0, n as int)) =~= line_split(t));
    }
    while i < n
        invariant
            start <= i <= n,
            n == t.len(),
            t == text@,
            forall|j: int| start <= j < i ==> t[j] != '\n',
            line_split(t) == views_of(r@) + line_split(t.subrange(start as int, n as int)),
        decreases n - i,
    {
        if text.get_char(i) == '\n' {
            let line: &'a str = if i > start && text.get_char(i - 1) == '\r' {
                text.substring_char(start, i - 1)
            } else {
                text.substring_char(start, i)
            };
            proof {
                let cur = t.subrange(start as int, i as int);
                let rest = t.subrange(i as int + 1, n as int);
                assert(t.subrange(start as int, n as int) =~= cur + seq!['\n'] + rest);
                lemma_line_split_peel(cur, rest);
                if i > start && t[i - 1] == '\r' {
                    assert(cur[cur.len() - 1] == '\r');
                    assert(strip_cr(cur) =~= t.subrange(start as int, i as int - 1));
                } else {
                    assert(strip_cr(cur) == cur);
                }
                assert(line@ == strip_cr(cur));
                assert(views_of(r@.push(line)) =~= views_of(r@).push(line@));
                assert((views_of(r@) + seq![strip_cr(cur)]) + line_split(rest)
                    =~= views_of(r@) + (seq![strip_cr(cur)] + line_split(rest)));
            }
            r.push(line);
            start = i + 1;
        }
        i += 1;
    }
    proof {
        let rem = t.subrange(start as int, n as int);
        lemma_line_split_no_newline(rem);
    }
    if start < n {
        let line: &'a str = text.substring_char(start, n);
        proof {
            let rem = t.subrange(start as int, n as int);
            assert(views_of(r@.push(line)) =~= views_of(r@).push(line@));
            assert(views_of(r@) + seq![rem] =~= views_of(r@).push(rem));
        }
        r.push(line);
    } else {
        proof {
            assert(views_of(r@) + Seq::<Seq<char>>::empty() =~= views_of(r@));
        }
    }
    r
}

} // verus!
