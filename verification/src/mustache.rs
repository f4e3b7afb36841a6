//! The mustache grammar `{{ expr }}` on text, as a verified scanner.
//!
//! A match opens at a `{{`, closes at the first following `}}` whose
//! inner text is usable (it has a character other than a line break, and
//! its trimmed body does not span lines), and captures the trimmed body.
//! An opening with no usable closer is skipped; scanning resumes one
//! character later, and after a match it resumes past the closing `}}`.

use vstd::prelude::*;

use crate::text::{is_ws, trim, ws_char, trim_chars, copy_range};

verus! {

/// Whether a `{{` opens at position `i`.
pub open spec fn open_at(s: Seq<char>, i: int) -> bool {
    0 <= i && i + 1 < s.len() && s[i] == '{' && s[i + 1] == '{'
}

/// Whether a `}}` closes at position `i`.
pub open spec fn close_at(s: Seq<char>, i: int) -> bool {
    0 <= i && i + 1 < s.len() && s[i] == '}' && s[i + 1] == '}'
}

/// The first opening position at or after `from`.
pub open spec fn find_open(s: Seq<char>, from: int) -> Option<int>
    decreases s.len() - from,
{
    if from < 0 || from + 1 >= s.len() {
        None
    } else if open_at(s, from) {
        Some(from)
    } else {
        find_open(s, from + 1)
    }
}

pub proof fn lemma_find_open(s: Seq<char>, from: int)
    requires
        0 <= from,
    ensures
        match find_open(s, from) {
            Some(o) => from <= o && o + 1 < s.len() && open_at(s, o) && forall|j: int|
                from <= j < o ==> !open_at(s, j),
            None => forall|j: int| from <= j ==> !open_at(s, j),
        },
    decreases s.len() - from,
{
    if !(from + 1 >= s.len()) && !open_at(s, from) {
        lemma_find_open(s, from + 1);
    }
}

/// Whether the text between a `{{` and a candidate `}}` can carry an
/// expression: some character is not a line break, and the trimmed body
/// stays on one line.
pub open spec fn valid_inner(inner: Seq<char>) -> bool {
    &&& exists|k: int| 0 <= k < inner.len() && inner[k] != '\n'
    &&& forall|j: int| 0 <= j < trim(inner).len() ==> trim(inner)[j] != '\n'
}

/// Runtime test for [`valid_inner`].
pub fn valid_inner_exec(inner: &Vec<char>) -> (b: bool)
    ensures
        b == valid_inner(inner@),
{
    let mut has_other: bool = false;
    let mut k: usize = 0;
    while k < inner.len()
        invariant
            0 <= k <= inner@.len(),
            has_other == exists|j: int| 0 <= j < k && inner@[j] != '\n',
        decreases inner@.len() - k,
    {
        if inner[k] != '\n' {
            proof {
                assert(0 <= k < inner@.len() && inner@[k as int] != '\n');
            }
            has_other = true;
        }
        k += 1;
    }
    if !has_other {
        return false;
    }
    let t = trim_chars(inner);
    let mut j: usize = 0;
    while j < t.len()
        invariant
            0 <= j <= t@.len(),
            t@ == trim(inner@),
            forall|i: int| 0 <= i < j ==> t@[i] != '\n',
        decreases t@.len() - j,
    {
        if t[j] == '\n' {
            proof {
                assert(trim(inner@)[j as int] == '\n');
            }
            return false;
        }
        j += 1;
    }
    true
}

/// The first position `c` at or after `from` where a `}}` closes and the
/// inner text from `o + 2` to `c` is usable.
pub open spec fn find_close(s: Seq<char>, o: int, from: int) -> Option<int>
    decreases s.len() - from,
{
    if from < 0 || from + 1 >= s.len() {
        None
    } else if close_at(s, from) && valid_inner(s.subrange(o + 2, from)) {
        Some(from)
    } else {
        find_close(s, o, from + 1)
    }
}

pub proof fn lemma_find_close(s: Seq<char>, o: int, from: int)
    requires
        0 <= from,
    ensures
        match find_close(s, o, from) {
            Some(c) => from <= c && c + 1 < s.len() && close_at(s, c) && valid_inner(
                s.subrange(o + 2, c),
            ) && forall|j: int|
                from <= j < c ==> !(close_at(s, j) && valid_inner(s.subrange(o + 2, j))),
            None => forall|j: int|
                from <= j ==> !(close_at(s, j) && valid_inner(s.subrange(o + 2, j))),
        },
    decreases s.len() - from,
{
    if !(from + 1 >= s.len()) && !(close_at(s, from) && valid_inner(s.subrange(o + 2, from))) {
        lemma_find_close(s, o, from + 1);
    }
}

/// One mustache match: the match's bounds in the text and the captured
/// expression.
pub struct Must {
    pub start: usize,
    pub end: usize,
    pub expr: Vec<char>,
}

/// The view of a [`Must`].
pub struct MustV {
    pub start: int,
    pub end: int,
    pub expr: Seq<char>,
}

impl View for Must {
    type V = MustV;

    open spec fn view(&self) -> MustV {
        MustV { start: self.start as int, end: self.end as int, expr: self.expr@ }
    }
}

/// All matches of text `s`, scanning from position `p`, in text order.
pub open spec fn matches_from(s: Seq<char>, p: int) -> Seq<MustV>
    decreases s.len() - p, s.len() + 2 - p,
    via matches_from_decreases
{
    if p < 0 {
        Seq::empty()
    } else {
        match find_open(s, p) {
            None => Seq::empty(),
            Some(o) => match find_close(s, o, o + 2) {
                Some(c) => seq![
                    MustV { start: o, end: c + 2, expr: trim(s.subrange(o + 2, c)) },
                ] + matches_from(s, c + 2),
                None => matches_from(s, o + 1),
            },
        }
    }
}

#[via_fn]
proof fn matches_from_decreases(s: Seq<char>, p: int) {
    if p >= 0 {
        lemma_find_open(s, p);
        match find_open(s, p) {
            Some(o) => {
                lemma_find_close(s, o, o + 2);
            },
            None => {},
        }
    }
}

/// The match list of a whole text.
pub open spec fn mustaches(s: Seq<char>) -> Seq<MustV> {
    matches_from(s, 0)
}

/// What holds of one match found at or after scan position `p`.
pub open spec fn match_wf(s: Seq<char>, p: int, m: MustV) -> bool {
    &&& p <= m.start
    &&& m.start + 4 <= m.end <= s.len()
    &&& m.expr == trim(s.subrange(m.start + 2, m.end - 2))
    &&& open_at(s, m.start)
    &&& close_at(s, m.end - 2)
}

/// Each match is well formed for its scan position.
pub proof fn lemma_match_wf_at(s: Seq<char>, p: int, i: int)
    requires
        0 <= p,
        0 <= i < matches_from(s, p).len(),
    ensures
        match_wf(s, p, matches_from(s, p)[i]),
    decreases s.len() + 2 - p,
{
    lemma_find_open(s, p);
    match find_open(s, p) {
        None => {},
        Some(o) => {
            lemma_find_close(s, o, o + 2);
            match find_close(s, o, o + 2) {
                Some(c) => {
                    let rest = matches_from(s, c + 2);
                    let m0 = MustV { start: o, end: c + 2, expr: trim(s.subrange(o + 2, c)) };
                    assert(matches_from(s, p) == seq![m0] + rest);
                    if i == 0 {
                        assert(matches_from(s, p)[0] == m0);
                    } else {
                        assert(matches_from(s, p)[i] == rest[i - 1]);
                        lemma_match_wf_at(s, c + 2, i - 1);
                    }
                },
                None => {
                    lemma_match_wf_at(s, o + 1, i);
                },
            }
        },
    }
}

/// Matches come in text order and do not overlap.
pub proof fn lemma_match_order_at(s: Seq<char>, p: int, i: int)
    requires
        0 <= p,
        0 <= i,
        i + 1 < matches_from(s, p).len(),
    ensures
        matches_from(s, p)[i].end <= matches_from(s, p)[i + 1].start,
    decreases s.len() + 2 - p,
{
    lemma_find_open(s, p);
    match find_open(s, p) {
        None => {},
        Some(o) => {
            lemma_find_close(s, o, o + 2);
            match find_close(s, o, o + 2) {
                Some(c) => {
                    let rest = matches_from(s, c + 2);
                    let m0 = MustV { start: o, end: c + 2, expr: trim(s.subrange(o + 2, c)) };
                    assert(matches_from(s, p) == seq![m0] + rest);
                    if i == 0 {
                        assert(matches_from(s, p)[1] == rest[0]);
                        lemma_match_wf_at(s, c + 2, 0);
                    } else {
                        assert(matches_from(s, p)[i] == rest[i - 1]);
                        assert(matches_from(s, p)[i + 1] == rest[i]);
                        lemma_match_order_at(s, c + 2, i - 1);
                    }
                },
                None => {
                    lemma_match_order_at(s, o + 1, i);
                },
            }
        },
    }
}

/// A text without matches keeps every character in place under
/// substitution; more generally, the substitution of `vals` for the
/// matches `ms` in `s`, scanning from `p`: the text between matches is
/// kept, each match is replaced by its value.
pub open spec fn subst_from(s: Seq<char>, ms: Seq<MustV>, vals: Seq<Seq<char>>, p: int) -> Seq<
    char,
>
    decreases ms.len(),
{
    if ms.len() == 0 {
        s.subrange(p, s.len() as int)
    } else {
        s.subrange(p, ms[0].start) + vals[0] + subst_from(
            s,
            ms.subrange(1, ms.len() as int),
            vals.subrange(1, vals.len() as int),
            ms[0].end,
        )
    }
}

/// The rendered form of a text: its matches substituted by the given
/// values.
pub open spec fn substituted(s: Seq<char>, vals: Seq<Seq<char>>) -> Seq<char> {
    subst_from(s, mustaches(s), vals, 0)
}

/// A text with no matches is unchanged by substitution.
pub proof fn lemma_no_match_identity(s: Seq<char>, vals: Seq<Seq<char>>)
    requires
        mustaches(s).len() == 0,
    ensures
        substituted(s, vals) == s,
{
    assert(s.subrange(0, s.len() as int) =~= s);
}

/// Runtime search for [`find_open`].
pub fn find_open_exec(s: &Vec<char>, from: usize) -> (r: Option<usize>)
    requires
        from <= s@.len(),
    ensures
        match r {
            Some(o) => from <= o && o + 2 <= s@.len() && find_open(s@, from as int) == Some(
                o as int,
            ),
            None => find_open(s@, from as int) is None,
        },
{
    let mut i: usize = from;
    while i < s.len() && s.len() - i > 1
        invariant
            from <= i <= s@.len(),
            forall|j: int| from <= j < i ==> !open_at(s@, j),
        decreases s@.len() - i,
    {
        if s[i] == '{' && s[i + 1] == '{' {
            proof {
                lemma_find_open(s@, from as int);
                assert(open_at(s@, i as int));
                match find_open(s@, from as int) {
                    Some(q) => {
                        if q > i {
                            assert(!open_at(s@, i as int));
                        }
                    },
                    None => {
                        assert(!open_at(s@, i as int));
                    },
                }
            }
            return Some(i);
        }
        i += 1;
    }
    proof {
        lemma_find_open(s@, from as int);
        if find_open(s@, from as int) is Some {
            let o = find_open(s@, from as int).unwrap();
            assert(!open_at(s@, o));
        }
    }
    None
}

/// Whether position `i` of the text lies inside one of its matches.
pub open spec fn covered(s: Seq<char>, i: int) -> bool {
    exists|k: int|
        0 <= k < mustaches(s).len() && (#[trigger] mustaches(s)[k]).start <= i < mustaches(
            s,
        )[k].end
}

/// Whether a text holds no brace character at all.
pub open spec fn brace_free(t: Seq<char>) -> bool {
    forall|i: int| 0 <= i < t.len() ==> t[i] != '{' && t[i] != '}'
}

/// Matches at or after index `j1` end no later than match `j2` starts.
proof fn lemma_order_trans(s: Seq<char>, j1: int, j2: int)
    requires
        0 <= j1 < j2 < mustaches(s).len(),
    ensures
        mustaches(s)[j1].end <= mustaches(s)[j2].start,
    decreases j2 - j1,
{
    lemma_match_order_at(s, 0, j1);
    if j1 + 1 < j2 {
        lemma_order_trans(s, j1 + 1, j2);
        lemma_match_wf_at(s, 0, j1 + 1);
    }
}

/// The inductive heart of the brace-freedom law: from the end of match
/// `k - 1` on, substituting brace-free values into a text whose braces
/// all lie inside matches yields brace-free text.
proof fn lemma_subst_brace_free_from(s: Seq<char>, vals: Seq<Seq<char>>, k: int)
    requires
        vals.len() == mustaches(s).len(),
        0 <= k <= mustaches(s).len(),
        forall|i: int|
            0 <= i < s.len() && (s[i] == '{' || s[i] == '}') ==> covered(s, i),
        forall|i: int| 0 <= i < vals.len() ==> brace_free(#[trigger] vals[i]),
    ensures
        brace_free(
            subst_from(
                s,
                mustaches(s).subrange(k, mustaches(s).len() as int),
                vals.subrange(k, vals.len() as int),
                if k == 0 {
                    0
                } else {
                    mustaches(s)[k - 1].end
                },
            ),
        ),
    decreases mustaches(s).len() - k,
{
    let ms = mustaches(s);
    let p: int = if k == 0 {
        0
    } else {
        ms[k - 1].end
    };
    if k > 0 {
        lemma_match_wf_at(s, 0, k - 1);
    }
    let rest = ms.subrange(k, ms.len() as int);
    let vrest = vals.subrange(k, vals.len() as int);
    if rest.len() == 0 {
        // Only the tail of the text is left; none of its positions can
        // lie inside a match.
        assert forall|i: int|
            0 <= i < subst_from(s, rest, vrest, p).len() implies subst_from(s, rest, vrest, p)[i]
            != '{' && subst_from(s, rest, vrest, p)[i] != '}' by {
            let pos = p + i;
            assert(subst_from(s, rest, vrest, p)[i] == s[pos]);
            if s[pos] == '{' || s[pos] == '}' {
                let j = choose|j: int|
                    0 <= j < ms.len() && (#[trigger] ms[j]).start <= pos < ms[j].end;
                lemma_match_wf_at(s, 0, j);
                if j < k - 1 {
                    lemma_order_trans(s, j, k - 1);
                    lemma_match_wf_at(s, 0, k - 1);
                }
            }
        }
    } else {
        lemma_match_wf_at(s, 0, k);
        if k > 0 {
            lemma_match_order_at(s, 0, k - 1);
        }
        assert(0 <= p <= ms[k].start);
        lemma_subst_brace_free_from(s, vals, k + 1);
        assert(rest[0] == ms[k]);
        assert(rest.subrange(1, rest.len() as int) =~= ms.subrange(k + 1, ms.len() as int));
        assert(vrest.subrange(1, vrest.len() as int) =~= vals.subrange(k + 1, vals.len() as int));
        assert(vrest[0] == vals[k]);
        let piece = s.subrange(p, ms[k].start);
        let tail = subst_from(
            s,
            ms.subrange(k + 1, ms.len() as int),
            vals.subrange(k + 1, vals.len() as int),
            ms[k].end,
        );
        assert(subst_from(s, rest, vrest, p) == piece + vals[k] + tail);
        assert forall|i: int| 0 <= i < piece.len() implies piece[i] != '{' && piece[i]
            != '}' by {
            let pos = p + i;
            assert(0 <= pos < ms[k].start <= s.len());
            assert(piece[i] == s[pos]);
            if s[pos] == '{' || s[pos] == '}' {
                let j = choose|j: int|
                    0 <= j < ms.len() && (#[trigger] ms[j]).start <= pos < ms[j].end;
                lemma_match_wf_at(s, 0, j);
                if j < k {
                    if j < k - 1 {
                        lemma_order_trans(s, j, k - 1);
                        lemma_match_wf_at(s, 0, k - 1);
                    }
                } else {
                    if j > k {
                        lemma_order_trans(s, k, j);
                    }
                }
            }
        }
        assert forall|i: int|
            0 <= i < subst_from(s, rest, vrest, p).len() implies subst_from(s, rest, vrest, p)[i]
            != '{' && subst_from(s, rest, vrest, p)[i] != '}' by {
            let r = piece + vals[k] + tail;
            if i < piece.len() {
                assert(r[i] == piece[i]);
            } else if i < piece.len() + vals[k].len() {
                assert(r[i] == vals[k][i - piece.len()]);
            } else {
                assert(r[i] == tail[i - piece.len() - vals[k].len()]);
            }
        }
    }
}

/// A brace-free text has no matches.
pub proof fn lemma_brace_free_no_match(t: Seq<char>)
    requires
        brace_free(t),
    ensures
        mustaches(t).len() == 0,
{
    lemma_find_open(t, 0);
    match find_open(t, 0) {
        Some(o) => {
            assert(t[o] == '{');
        },
        None => {},
    }
}

/// When every brace of a text belongs to one of its mustache matches
/// (none is stray), and every substituted value is brace-free, the
/// rendered text holds no brace at all — in particular, no mustache
/// token appears in it.
pub proof fn lemma_no_mustache_after_subst(s: Seq<char>, vals: Seq<Seq<char>>)
    requires
        vals.len() == mustaches(s).len(),
        forall|i: int|
            0 <= i < s.len() && (s[i] == '{' || s[i] == '}') ==> covered(s, i),
        forall|i: int| 0 <= i < vals.len() ==> brace_free(#[trigger] vals[i]),
    ensures
        brace_free(substituted(s, vals)),
        mustaches(substituted(s, vals)).len() == 0,
{
    lemma_subst_brace_free_from(s, vals, 0);
    assert(mustaches(s).subrange(0, mustaches(s).len() as int) =~= mustaches(s));
    assert(vals.subrange(0, vals.len() as int) =~= vals);
    lemma_brace_free_no_match(substituted(s, vals));
}

/// Finds the next match at or after `from`.
pub fn next_match(s: &Vec<char>, from: usize) -> (r: Option<Must>)
    requires
        from <= s@.len(),
    ensures
        match r {
            Some(m) => {
                &&& from <= m.start && m.start + 4 <= m.end && m.end <= s@.len()
                &&& matches_from(s@, from as int) == seq![m@] + matches_from(s@, m.end as int)
            },
            None => matches_from(s@, from as int).len() == 0,
        },
    decreases s@.len() - from,
{
    // Find the next opening.
    let o = match find_open_exec(s, from) {
        None => {
            return None;
        },
        Some(o) => o,
    };
    proof {
        lemma_find_open(s@, from as int);
    }
    // Find the first usable closing.
    let n = s.len();
    let mut c: usize = o + 2;
    loop
        invariant
            o + 2 <= c,
            c <= s@.len() + 2,
            open_at(s@, o as int),
            find_open(s@, from as int) == Some(o as int),
            from <= o,
            o + 2 <= s@.len(),
            forall|j: int|
                o + 2 <= j < c ==> !(close_at(s@, j) && valid_inner(s@.subrange(o + 2, j))),
        decreases s@.len() + 2 - c,
    {
        if c >= s.len() || s.len() - c <= 1 {
            proof {
                lemma_find_close(s@, o as int, o + 2);
                if find_close(s@, o as int, o + 2) is Some {
                    let cc = find_close(s@, o as int, o + 2).unwrap();
                    assert(!(close_at(s@, cc) && valid_inner(s@.subrange(o + 2, cc))));
                }
            }
            // No closer for this opening: scan on from the next position.
            return next_match(s, o + 1);
        }
        if s[c] == '}' && s[c + 1] == '}' {
            let inner = copy_range(s, o + 2, c);
            if valid_inner_exec(&inner) {
                proof {
                    lemma_find_close(s@, o as int, o + 2);
                    assert(close_at(s@, c as int) && valid_inner(s@.subrange(o + 2, c as int)));
                    assert(find_close(s@, o as int, o + 2) == Some(c as int)) by {
                        match find_close(s@, o as int, o + 2) {
                            Some(cc) => {
                                if cc < c {
                                    assert(!(close_at(s@, cc) && valid_inner(
                                        s@.subrange(o + 2, cc),
                                    )));
                                }
                                if cc > c {
                                    assert(!(close_at(s@, c as int) && valid_inner(
                                        s@.subrange(o + 2, c as int),
                                    )));
                                }
                            },
                            None => {
                                assert(!(close_at(s@, c as int) && valid_inner(
                                    s@.subrange(o + 2, c as int),
                                )));
                            },
                        }
                    }
                }
                let expr = trim_chars(&inner);
                return Some(Must { start: o, end: c + 2, expr });
            }
        }
        c += 1;
    }
}

/// Finds every match of the text, in order.
pub fn find_mustaches(s: &Vec<char>) -> (r: Vec<Must>)
    ensures
        r@.len() == mustaches(s@).len(),
        forall|i: int| 0 <= i < r@.len() ==> #[trigger] r@[i]@ == mustaches(s@)[i],
        forall|i: int|
            0 <= i < r@.len() ==> #[trigger] r@[i].start + 4 <= r@[i].end <= s@.len(),
{
    let mut out: Vec<Must> = Vec::new();
    let mut p: usize = 0;
    loop
        invariant
            0 <= p <= s@.len(),
            mustaches(s@) == out@.map(|i: int, m: Must| m@) + matches_from(s@, p as int),
            forall|i: int|
                0 <= i < out@.len() ==> #[trigger] out@[i].start + 4 <= out@[i].end <= s@.len(),
        decreases s@.len() - p,
    {
        match next_match(s, p) {
            None => {
                proof {
                    assert(out@.map(|i: int, m: Must| m@) + matches_from(s@, p as int)
                        =~= out@.map(|i: int, m: Must| m@));
                    assert(forall|i: int|
                        0 <= i < out@.len() ==> mustaches(s@)[i] == #[trigger] out@[i]@);
                }
                return out;
            },
            Some(m) => {
                let ghost prev = out@;
                let ghost pend = m.end as int;
                proof {
                    assert((prev.map(|i: int, mm: Must| mm@) + (seq![m@] + matches_from(
                        s@,
                        pend,
                    ))) =~= (prev.push(m).map(|i: int, mm: Must| mm@) + matches_from(s@, pend)));
                }
                let e = m.end;
                out.push(m);
                proof {
                    assert(out@ == prev.push(out@[out@.len() - 1]));
                }
                p = e;
            },
        }
    }
}

} // verus!
