//! Character-level text utilities: whitespace classification, trimming,
//! searching, and the indentation adjustment applied to cloned template
//! bodies. All text in this crate is handled as `Vec<char>`, viewed as
//! `Seq<char>`.

use vstd::prelude::*;
use vstd::string::StrSliceExecFns;

verus! {

/// Appends a string literal's characters to `dst`.
pub fn push_str_chars(dst: &mut Vec<char>, s: &str)
    ensures
        final(dst)@ == old(dst)@ + s@,
{
    let n = s.unicode_len();
    let mut i: usize = 0;
    while i < n
        invariant
            0 <= i <= s@.len(),
            n == s@.len(),
            dst@ == old(dst)@ + s@.subrange(0, i as int),
        decreases n - i,
    {
        dst.push(s.get_char(i));
        proof {
            assert(dst@ =~= old(dst)@ + s@.subrange(0, i + 1));
        }
        i += 1;
    }
    proof {
        assert(old(dst)@ + s@.subrange(0, s@.len() as int) =~= old(dst)@ + s@);
    }
}

/// Whether `c` has the Unicode `White_Space` property (the set that
/// `char::is_whitespace` recognizes).
pub open spec fn is_ws(c: char) -> bool {
    ||| c == ' '
    ||| c == '\t'
    ||| c == '\n'
    ||| c == '\u{0B}'
    ||| c == '\u{0C}'
    ||| c == '\r'
    ||| c == '\u{85}'
    ||| c == '\u{A0}'
    ||| c == '\u{1680}'
    ||| ('\u{2000}' <= c && c <= '\u{200A}')
    ||| c == '\u{2028}'
    ||| c == '\u{2029}'
    ||| c == '\u{202F}'
    ||| c == '\u{205F}'
    ||| c == '\u{3000}'
}

/// Runtime test for [`is_ws`].
pub fn ws_char(c: char) -> (b: bool)
    ensures
        b == is_ws(c),
{
    c == ' ' || c == '\t' || c == '\n' || c == '\u{0B}' || c == '\u{0C}' || c == '\r'
        || c == '\u{85}' || c == '\u{A0}' || c == '\u{1680}'
        || ('\u{2000}' <= c && c <= '\u{200A}') || c == '\u{2028}' || c == '\u{2029}'
        || c == '\u{202F}' || c == '\u{205F}' || c == '\u{3000}'
}

/// The characters of a text, as a vector.
pub fn str_to_chars(s: &str) -> (r: Vec<char>)
    ensures
        r@ == s@,
{
    let n = s.unicode_len();
    let mut r: Vec<char> = Vec::new();
    let mut i: usize = 0;
    while i < n
        invariant
            0 <= i <= n,
            n == s@.len(),
            r@ == s@.subrange(0, i as int),
        decreases n - i,
    {
        r.push(s.get_char(i));
        proof {
            assert(r@ =~= s@.subrange(0, i + 1));
        }
        i += 1;
    }
    proof {
        assert(s@.subrange(0, s@.len() as int) =~= s@);
    }
    r
}

/// Whether `v` holds exactly the characters of `s`.
pub fn eq_str(v: &Vec<char>, s: &str) -> (b: bool)
    ensures
        b == (v@ == s@),
{
    let n = s.unicode_len();
    if v.len() != n {
        return false;
    }
    let mut i: usize = 0;
    while i < n
        invariant
            0 <= i <= n,
            n == s@.len(),
            v@.len() == n,
            forall|j: int| 0 <= j < i ==> v@[j] == s@[j],
        decreases n - i,
    {
        if v[i] != s.get_char(i) {
            proof {
                assert(v@[i as int] != s@[i as int]);
            }
            return false;
        }
        i += 1;
    }
    proof {
        assert(v@ =~= s@);
    }
    true
}

/// Whether every character of `s` is whitespace.
pub open spec fn all_ws(s: Seq<char>) -> bool {
    forall|i: int| 0 <= i < s.len() ==> is_ws(s[i])
}

/// Runtime test for [`all_ws`].
pub fn all_ws_chars(s: &Vec<char>) -> (b: bool)
    ensures
        b == all_ws(s@),
{
    let mut i: usize = 0;
    while i < s.len()
        invariant
            0 <= i <= s@.len(),
            forall|j: int| 0 <= j < i ==> is_ws(s@[j]),
        decreases s@.len() - i,
    {
        if !ws_char(s[i]) {
            return false;
        }
        i += 1;
    }
    true
}

/// The first index at or after `from` where `c` occurs in `s`, if any.
pub open spec fn find_from(s: Seq<char>, from: int, c: char) -> Option<int>
    decreases s.len() - from,
{
    if from < 0 || from >= s.len() {
        None
    } else if s[from] == c {
        Some(from)
    } else {
        find_from(s, from + 1, c)
    }
}

pub proof fn lemma_find_from_props(s: Seq<char>, from: int, c: char)
    requires
        0 <= from <= s.len(),
    ensures
        match find_from(s, from, c) {
            Some(i) => from <= i < s.len() && s[i] == c && forall|j: int|
                from <= j < i ==> s[j] != c,
            None => forall|j: int| from <= j < s.len() ==> s[j] != c,
        },
    decreases s.len() - from,
{
    if from < s.len() && s[from] != c {
        lemma_find_from_props(s, from + 1, c);
    }
}

/// Runtime search for [`find_from`].
pub fn find_char_from(s: &Vec<char>, from: usize, c: char) -> (r: Option<usize>)
    ensures
        match r {
            Some(i) => from <= i && find_from(s@, from as int, c) == Some(i as int),
            None => find_from(s@, from as int, c) is None,
        },
{
    let mut i: usize = from;
    if from > s.len() {
        return None;
    }
    while i < s.len()
        invariant
            from <= i <= s@.len(),
            forall|j: int| from <= j < i ==> s@[j] != c,
        decreases s@.len() - i,
    {
        if s[i] == c {
            proof {
                lemma_find_from_props(s@, from as int, c);
            }
            return Some(i);
        }
        i += 1;
    }
    proof {
        lemma_find_from_props(s@, from as int, c);
    }
    None
}

/// The last index of `c` in `s`, if any.
pub open spec fn rfind(s: Seq<char>, c: char) -> Option<int>
    decreases s.len(),
{
    if s.len() == 0 {
        None
    } else if s[s.len() - 1] == c {
        Some(s.len() - 1)
    } else {
        rfind(s.drop_last(), c)
    }
}

pub proof fn lemma_rfind_props(s: Seq<char>, c: char)
    ensures
        match rfind(s, c) {
            Some(i) => 0 <= i < s.len() && s[i] == c && forall|j: int|
                i < j < s.len() ==> s[j] != c,
            None => forall|j: int| 0 <= j < s.len() ==> s[j] != c,
        },
    decreases s.len(),
{
    if s.len() > 0 && s[s.len() - 1] != c {
        lemma_rfind_props(s.drop_last(), c);
        assert(forall|j: int| 0 <= j < s.len() - 1 ==> s[j] == s.drop_last()[j]);
    }
}

/// Runtime search for [`rfind`].
pub fn rfind_char(s: &Vec<char>, c: char) -> (r: Option<usize>)
    ensures
        match r {
            Some(i) => rfind(s@, c) == Some(i as int),
            None => rfind(s@, c) is None,
        },
{
    let mut i: usize = s.len();
    while i > 0
        invariant
            0 <= i <= s@.len(),
            forall|j: int| i <= j < s@.len() ==> s@[j] != c,
        decreases i,
    {
        i -= 1;
        if s[i] == c {
            proof {
                lemma_rfind_props(s@, c);
                if rfind(s@, c) != Some(i as int) {
                    assert(s@[rfind(s@, c).unwrap()] == c);
                }
            }
            return Some(i);
        }
    }
    proof {
        lemma_rfind_props(s@, c);
        if rfind(s@, c) is Some {
            assert(s@[rfind(s@, c).unwrap()] == c);
        }
    }
    None
}

/// The number of whitespace characters at the start of `s`.
pub open spec fn ws_prefix_len(s: Seq<char>) -> int
    decreases s.len(),
{
    if s.len() == 0 || !is_ws(s[0]) {
        0
    } else {
        1 + ws_prefix_len(s.drop_first())
    }
}

pub proof fn lemma_ws_prefix_len(s: Seq<char>)
    ensures
        0 <= ws_prefix_len(s) <= s.len(),
        forall|j: int| 0 <= j < ws_prefix_len(s) ==> is_ws(s[j]),
        ws_prefix_len(s) < s.len() ==> !is_ws(s[ws_prefix_len(s)]),
    decreases s.len(),
{
    if s.len() > 0 && is_ws(s[0]) {
        lemma_ws_prefix_len(s.drop_first());
        assert forall|j: int| 0 <= j < ws_prefix_len(s) implies is_ws(s[j]) by {
            if j >= 1 {
                assert(is_ws(s.drop_first()[j - 1]));
            }
        }
        if ws_prefix_len(s) < s.len() {
            assert(s[ws_prefix_len(s)] == s.drop_first()[ws_prefix_len(s.drop_first())]);
        }
    }
}

/// The number of whitespace characters at the end of `s`.
pub open spec fn ws_suffix_len(s: Seq<char>) -> int
    decreases s.len(),
{
    if s.len() == 0 || !is_ws(s[s.len() - 1]) {
        0
    } else {
        1 + ws_suffix_len(s.drop_last())
    }
}

pub proof fn lemma_ws_suffix_len(s: Seq<char>)
    ensures
        0 <= ws_suffix_len(s) <= s.len(),
        forall|j: int| s.len() - ws_suffix_len(s) <= j < s.len() ==> is_ws(s[j]),
        ws_suffix_len(s) < s.len() ==> !is_ws(s[s.len() - ws_suffix_len(s) - 1]),
    decreases s.len(),
{
    if s.len() > 0 && is_ws(s[s.len() - 1]) {
        lemma_ws_suffix_len(s.drop_last());
        assert(forall|j: int| 0 <= j < s.len() - 1 ==> s[j] == s.drop_last()[j]);
    }
}

/// `s` with surrounding whitespace removed; the empty sequence when `s`
/// is entirely whitespace.
pub open spec fn trim(s: Seq<char>) -> Seq<char> {
    if all_ws(s) {
        Seq::empty()
    } else {
        s.subrange(ws_prefix_len(s), s.len() - ws_suffix_len(s))
    }
}

pub proof fn lemma_trim_props(s: Seq<char>)
    ensures
        trim(s).len() <= s.len(),
        all_ws(s) <==> trim(s).len() == 0,
{
    lemma_ws_prefix_len(s);
    lemma_ws_suffix_len(s);
    if !all_ws(s) {
        if ws_prefix_len(s) >= s.len() - ws_suffix_len(s) {
            assert forall|j: int| 0 <= j < s.len() implies is_ws(s[j]) by {
                if j < ws_prefix_len(s) {
                } else {
                    assert(s.len() - ws_suffix_len(s) <= j);
                }
            }
        }
    }
}

/// Runtime computation of [`trim`].
pub fn trim_chars(s: &Vec<char>) -> (r: Vec<char>)
    ensures
        r@ == trim(s@),
{
    proof {
        lemma_ws_prefix_len(s@);
        lemma_ws_suffix_len(s@);
        lemma_trim_props(s@);
    }
    let mut lo: usize = 0;
    while lo < s.len() && ws_char(s[lo])
        invariant
            0 <= lo <= s@.len(),
            forall|j: int| 0 <= j < lo ==> is_ws(s@[j]),
            lo <= ws_prefix_len(s@) || all_ws(s@.subrange(0, lo as int)),
        decreases s@.len() - lo,
    {
        lo += 1;
    }
    if lo == s.len() {
        proof {
            assert(all_ws(s@));
        }
        return Vec::new();
    }
    proof {
        assert(!is_ws(s@[lo as int]));
        assert(lo == ws_prefix_len(s@)) by {
            lemma_ws_prefix_len(s@);
            if lo < ws_prefix_len(s@) {
                assert(is_ws(s@[lo as int]));
            }
            if lo > ws_prefix_len(s@) {
                assert(!is_ws(s@[ws_prefix_len(s@)]));
            }
        }
        assert(!all_ws(s@));
    }
    let mut hi: usize = s.len();
    while hi > lo && ws_char(s[hi - 1])
        invariant
            lo <= hi <= s@.len(),
            forall|j: int| hi <= j < s@.len() ==> is_ws(s@[j]),
            !is_ws(s@[lo as int]),
        decreases hi,
    {
        hi -= 1;
    }
    proof {
        assert(hi > lo);
        assert(!is_ws(s@[hi - 1]));
        assert(s@.len() - hi == ws_suffix_len(s@)) by {
            lemma_ws_suffix_len(s@);
            if s@.len() - hi < ws_suffix_len(s@) {
                assert(is_ws(s@[hi - 1]));
            }
            if s@.len() - hi > ws_suffix_len(s@) {
                assert(!is_ws(s@[s@.len() - ws_suffix_len(s@) - 1]));
                assert(hi <= s@.len() - ws_suffix_len(s@) - 1 < s@.len());
            }
        }
    }
    let mut r: Vec<char> = Vec::new();
    let mut i: usize = lo;
    while i < hi
        invariant
            lo <= i <= hi <= s@.len(),
            r@ == s@.subrange(lo as int, i as int),
        decreases hi - i,
    {
        r.push(s[i]);
        proof {
            assert(r@ =~= s@.subrange(lo as int, i + 1));
        }
        i += 1;
    }
    proof {
        assert(r@ =~= trim(s@));
    }
    r
}

/// A copy of `s@.subrange(from, to)` as a new vector.
pub fn copy_range(s: &Vec<char>, from: usize, to: usize) -> (r: Vec<char>)
    requires
        from <= to <= s@.len(),
    ensures
        r@ == s@.subrange(from as int, to as int),
{
    let mut r: Vec<char> = Vec::new();
    let mut i: usize = from;
    while i < to
        invariant
            from <= i <= to <= s@.len(),
            r@ == s@.subrange(from as int, i as int),
        decreases to - i,
    {
        r.push(s[i]);
        proof {
            assert(r@ =~= s@.subrange(from as int, i + 1));
        }
        i += 1;
    }
    r
}

/// Appends a copy of `src@.subrange(from, to)` to `dst`.
pub fn push_range(dst: &mut Vec<char>, src: &Vec<char>, from: usize, to: usize)
    requires
        from <= to <= src@.len(),
    ensures
        final(dst)@ == old(dst)@ + src@.subrange(from as int, to as int),
{
    let mut i: usize = from;
    while i < to
        invariant
            from <= i <= to <= src@.len(),
            dst@ == old(dst)@ + src@.subrange(from as int, i as int),
        decreases to - i,
    {
        dst.push(src[i]);
        proof {
            assert(dst@ =~= old(dst)@ + src@.subrange(from as int, i + 1));
        }
        i += 1;
    }
}

/// A line's content after padding: `adj` spaces are added to (or removed
/// from, clamping at zero) its run of leading spaces.
pub open spec fn pad_line(l: Seq<char>, adj: int) -> Seq<char> {
    let k = space_prefix_len(l);
    let n = if k + adj >= 0 {
        k + adj
    } else {
        0
    };
    Seq::new(n as nat, |i: int| ' ') + l.skip(k)
}

/// The number of `' '` characters at the start of `l`.
pub open spec fn space_prefix_len(l: Seq<char>) -> int
    decreases l.len(),
{
    if l.len() == 0 || l[0] != ' ' {
        0
    } else {
        1 + space_prefix_len(l.drop_first())
    }
}

proof fn lemma_space_prefix_len(l: Seq<char>)
    ensures
        0 <= space_prefix_len(l) <= l.len(),
        forall|j: int| 0 <= j < space_prefix_len(l) ==> l[j] == ' ',
        space_prefix_len(l) < l.len() ==> l[space_prefix_len(l)] != ' ',
    decreases l.len(),
{
    if l.len() > 0 && l[0] == ' ' {
        lemma_space_prefix_len(l.drop_first());
        assert forall|j: int| 0 <= j < space_prefix_len(l) implies l[j] == ' ' by {
            if j >= 1 {
                assert(l.drop_first()[j - 1] == ' ');
            }
        }
        if space_prefix_len(l) < l.len() {
            assert(l[space_prefix_len(l)] == l.drop_first()[space_prefix_len(l.drop_first())]);
        }
    }
}

/// The text that follows a host line in a multi-line text node, with every
/// line's indentation padded by `adj`: `rest` is what comes after some
/// newline, and each of its lines (separated by `'\n'`) is padded.
pub open spec fn adjust_rest(rest: Seq<char>, adj: int) -> Seq<char>
    decreases rest.len(),
    via adjust_rest_decreases
{
    match find_from(rest, 0, '\n') {
        Some(i) => pad_line(rest.subrange(0, i), adj) + seq!['\n'] + adjust_rest(
            rest.subrange(i + 1, rest.len() as int),
            adj,
        ),
        None => pad_line(rest, adj),
    }
}

#[via_fn]
proof fn adjust_rest_decreases(rest: Seq<char>, adj: int) {
    lemma_find_from_props(rest, 0, '\n');
}

/// The whole adjustment: the first line is kept as it is; every later
/// line is padded by `adj`.
pub open spec fn adjust_indent_spec(s: Seq<char>, adj: int) -> Seq<char> {
    if adj == 0 {
        s
    } else {
        match find_from(s, 0, '\n') {
            Some(i) => s.subrange(0, i) + seq!['\n'] + adjust_rest(
                s.subrange(i + 1, s.len() as int),
                adj,
            ),
            None => s,
        }
    }
}

/// The signed adjustment that a direction and a magnitude stand for.
pub open spec fn signed(add: bool, mag: nat) -> int {
    if add {
        mag as int
    } else {
        -(mag as int)
    }
}

/// Pads one line and appends it to `out`.
fn push_padded_line(out: &mut Vec<char>, line: &Vec<char>, add: bool, mag: usize)
    ensures
        final(out)@ == old(out)@ + pad_line(line@, signed(add, mag as nat)),
{
    proof {
        lemma_space_prefix_len(line@);
    }
    let mut k: usize = 0;
    while k < line.len() && line[k] == ' '
        invariant
            0 <= k <= line@.len(),
            forall|j: int| 0 <= j < k ==> line@[j] == ' ',
        decreases line@.len() - k,
    {
        k += 1;
    }
    proof {
        assert(k as int == space_prefix_len(line@)) by {
            lemma_space_prefix_len(line@);
            if (k as int) < space_prefix_len(line@) {
                assert(line@[k as int] == ' ');
            }
            if (k as int) > space_prefix_len(line@) {
                assert(line@[space_prefix_len(line@)] != ' ');
            }
        }
    }
    // The new run of spaces: k + mag when adding (emitted as two runs,
    // so that no count need be computed), or what is left of k after
    // removing mag, floored at none.
    if add {
        let mut i: usize = 0;
        while i < k
            invariant
                0 <= i <= k,
                out@ == old(out)@ + Seq::new(i as nat, |j: int| ' '),
            decreases k - i,
        {
            out.push(' ');
            proof {
                assert(out@ =~= old(out)@ + Seq::new((i + 1) as nat, |j: int| ' '));
            }
            i += 1;
        }
        let mut i2: usize = 0;
        while i2 < mag
            invariant
                0 <= i2 <= mag,
                out@ == old(out)@ + Seq::new((k + i2) as nat, |j: int| ' '),
        decreases mag - i2,
        {
            out.push(' ');
            proof {
                assert(out@ =~= old(out)@ + Seq::new((k + i2 + 1) as nat, |j: int| ' '));
            }
            i2 += 1;
        }
    } else {
        let n: usize = if k >= mag {
            k - mag
        } else {
            0
        };
        let mut i: usize = 0;
        while i < n
            invariant
                0 <= i <= n,
                out@ == old(out)@ + Seq::new(i as nat, |j: int| ' '),
            decreases n - i,
        {
            out.push(' ');
            proof {
                assert(out@ =~= old(out)@ + Seq::new((i + 1) as nat, |j: int| ' '));
            }
            i += 1;
        }
    }
    push_range(out, line, k, line.len());
    proof {
        assert(out@ =~= old(out)@ + pad_line(line@, signed(add, mag as nat)));
    }
}

/// Rewrites the indentation inside a text: lines after the first get
/// `magnitude` leading spaces added (when `add` holds) or removed
/// (clamping at zero). The first line is unchanged, and a zero
/// adjustment leaves the text as it is.
#[verifier::loop_isolation(false)]
pub fn adjust_text_indent(text: &Vec<char>, add: bool, magnitude: usize) -> (r: Vec<char>)
    ensures
        r@ == adjust_indent_spec(text@, signed(add, magnitude as nat)),
{
    let tlen = text.len();
    if magnitude == 0 {
        return copy_range(text, 0, text.len());
    }
    let first_nl = find_char_from(text, 0, '\n');
    match first_nl {
        None => copy_range(text, 0, text.len()),
        Some(nl) => {
            proof {
                lemma_find_from_props(text@, 0, '\n');
            }
            let mut out = copy_range(text, 0, nl);
            out.push('\n');
            let ghost head = text@.subrange(0, nl as int) + seq!['\n'];
            proof {
                assert(out@ =~= head);
            }
            // Process the remainder line by line.
            let mut pos: usize = nl + 1;
            let ghost rest0 = text@.subrange(pos as int, text@.len() as int);
            let ghost adj = signed(add, magnitude as nat);
            loop
                invariant
                    nl < pos <= text@.len(),
                    adj == signed(add, magnitude as nat),
                    find_from(text@, 0, '\n') == Some(nl as int),
                    rest0 == text@.subrange(nl + 1, text@.len() as int),
                    head == text@.subrange(0, nl as int) + seq!['\n'],
                    out@ + adjust_rest(
                        text@.subrange(pos as int, text@.len() as int),
                        adj,
                    ) == head + adjust_rest(rest0, adj),
                decreases text@.len() - pos,
            {
                let ghost rest = text@.subrange(pos as int, text@.len() as int);
                let ghost prev = out@;
                match find_char_from(text, pos, '\n') {
                    Some(j) => {
                        proof {
                            lemma_find_from_props(text@, pos as int, '\n');
                            lemma_find_shift(text@, pos as int, j as int, '\n');
                        }
                        let line = copy_range(text, pos, j);
                        proof {
                            assert(line@ =~= rest.subrange(0, j - pos));
                        }
                        push_padded_line(&mut out, &line, add, magnitude);
                        out.push('\n');
                        proof {
                            assert(rest.subrange(j - pos + 1, rest.len() as int) =~= text@
                                .subrange(j + 1, text@.len() as int));
                            assert(adjust_rest(rest, adj) == pad_line(line@, adj) + seq!['\n']
                                + adjust_rest(text@.subrange(j + 1, text@.len() as int), adj));
                            assert(out@ =~= prev + pad_line(line@, adj) + seq!['\n']);
                            assert(out@ + adjust_rest(
                                text@.subrange(j + 1, text@.len() as int),
                                adj,
                            ) =~= prev + adjust_rest(rest, adj));
                        }
                        pos = j + 1;
                    },
                    None => {
                        proof {
                            lemma_find_from_props(text@, pos as int, '\n');
                            lemma_find_shift_none(text@, pos as int, '\n');
                        }
                        let line = copy_range(text, pos, text.len());
                        proof {
                            assert(line@ =~= rest);
                        }
                        push_padded_line(&mut out, &line, add, magnitude);
                        proof {
                            assert(adjust_rest(rest, adj) == pad_line(rest, adj));
                            assert(out@ =~= prev + adjust_rest(rest, adj));
                            assert(out@ =~= head + adjust_rest(rest0, adj));
                            assert(out@ =~= adjust_indent_spec(text@, adj));
                        }
                        return out;
                    },
                }
            }
        },
    }
}

/// Relates a search in a suffix of `s` to a search in `s` itself, when a
/// match was found.
proof fn lemma_find_shift(s: Seq<char>, pos: int, j: int, c: char)
    requires
        0 <= pos <= j < s.len(),
        find_from(s, pos, c) == Some(j),
    ensures
        find_from(s.subrange(pos, s.len() as int), 0, c) == Some(j - pos),
{
    lemma_find_from_props(s, pos, c);
    let sub = s.subrange(pos, s.len() as int);
    lemma_find_from_props(sub, 0, c);
    assert(sub[j - pos] == c);
    match find_from(sub, 0, c) {
        Some(k) => {
            if k < j - pos {
                assert(s[k + pos] == sub[k]);
            }
            if k > j - pos {
                assert(sub[j - pos] != c);
            }
        },
        None => {
            assert(sub[j - pos] != c);
        },
    }
}

/// Relates a search in a suffix of `s` to a search in `s` itself, when no
/// match exists.
proof fn lemma_find_shift_none(s: Seq<char>, pos: int, c: char)
    requires
        0 <= pos <= s.len(),
        find_from(s, pos, c) is None,
    ensures
        find_from(s.subrange(pos, s.len() as int), 0, c) is None,
{
    lemma_find_from_props(s, pos, c);
    let sub = s.subrange(pos, s.len() as int);
    lemma_find_from_props(sub, 0, c);
    match find_from(sub, 0, c) {
        Some(k) => {
            assert(s[k + pos] == sub[k]);
        },
        None => {},
    }
}

} // verus!
