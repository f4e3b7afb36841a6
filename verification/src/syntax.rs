//! The two directive grammars, as functions on characters with exact
//! contracts.
//!
//! A `v-for` value is `VAL [, KEY [, IDX]] (in|of) ITER`: identifier-like
//! binding tokens, flexible whitespace, and an iteration expression that
//! must not span lines. A `v-bind` argument form is an attribute name
//! `v-bind:ARG` or `:ARG`; the argument is dynamic when it is bracketed
//! (`[expr]`).

use vstd::prelude::*;

use crate::text::{is_ws, trim, ws_char, trim_chars, copy_range};

verus! {

/// Whether `c` may appear in a binding token: ASCII letters, digits,
/// underscore and dollar.
pub open spec fn is_ident_char(c: char) -> bool {
    ||| ('a' <= c && c <= 'z')
    ||| ('A' <= c && c <= 'Z')
    ||| ('0' <= c && c <= '9')
    ||| c == '_'
    ||| c == '$'
}

/// Runtime test for [`is_ident_char`].
pub fn ident_char(c: char) -> (b: bool)
    ensures
        b == is_ident_char(c),
{
    ('a' <= c && c <= 'z') || ('A' <= c && c <= 'Z') || ('0' <= c && c <= '9') || c == '_'
        || c == '$'
}

/// The first position at or after `i` that does not hold whitespace.
pub open spec fn skip_ws(s: Seq<char>, i: int) -> int
    decreases s.len() - i,
{
    if i < 0 || i >= s.len() || !is_ws(s[i]) {
        i
    } else {
        skip_ws(s, i + 1)
    }
}

pub proof fn lemma_skip_ws(s: Seq<char>, i: int)
    requires
        0 <= i <= s.len(),
    ensures
        i <= skip_ws(s, i) <= s.len(),
        forall|j: int| i <= j < skip_ws(s, i) ==> is_ws(s[j]),
        skip_ws(s, i) < s.len() ==> !is_ws(s[skip_ws(s, i)]),
    decreases s.len() - i,
{
    if i < s.len() && is_ws(s[i]) {
        lemma_skip_ws(s, i + 1);
    }
}

/// Runtime computation of [`skip_ws`].
pub fn skip_ws_exec(s: &Vec<char>, i: usize) -> (r: usize)
    requires
        i <= s@.len(),
    ensures
        r == skip_ws(s@, i as int),
        i <= r <= s@.len(),
{
    let mut j: usize = i;
    while j < s.len() && ws_char(s[j])
        invariant
            i <= j <= s@.len(),
            skip_ws(s@, i as int) == skip_ws(s@, j as int),
        decreases s@.len() - j,
    {
        j += 1;
    }
    j
}

/// The end of the run of identifier characters starting at `i`.
pub open spec fn ident_end(s: Seq<char>, i: int) -> int
    decreases s.len() - i,
{
    if i < 0 || i >= s.len() || !is_ident_char(s[i]) {
        i
    } else {
        ident_end(s, i + 1)
    }
}

pub proof fn lemma_ident_end(s: Seq<char>, i: int)
    requires
        0 <= i <= s.len(),
    ensures
        i <= ident_end(s, i) <= s.len(),
        forall|j: int| i <= j < ident_end(s, i) ==> is_ident_char(s[j]),
        ident_end(s, i) < s.len() ==> !is_ident_char(s[ident_end(s, i)]),
    decreases s.len() - i,
{
    if i < s.len() && is_ident_char(s[i]) {
        lemma_ident_end(s, i + 1);
    }
}

/// Runtime computation of [`ident_end`].
pub fn ident_end_exec(s: &Vec<char>, i: usize) -> (r: usize)
    requires
        i <= s@.len(),
    ensures
        r == ident_end(s@, i as int),
        i <= r <= s@.len(),
{
    let mut j: usize = i;
    while j < s.len() && ident_char(s[j])
        invariant
            i <= j <= s@.len(),
            ident_end(s@, i as int) == ident_end(s@, j as int),
        decreases s@.len() - j,
    {
        j += 1;
    }
    j
}

/// A parsed `v-for` expression: the binding tokens and the iteration
/// expression (trimmed, never spanning lines).
pub struct ForExpr {
    pub val: Vec<char>,
    pub key: Option<Vec<char>>,
    pub idx: Option<Vec<char>>,
    pub iter: Vec<char>,
}

/// The view of a [`ForExpr`].
pub struct ForExprV {
    pub val: Seq<char>,
    pub key: Option<Seq<char>>,
    pub idx: Option<Seq<char>>,
    pub iter: Seq<char>,
}

impl View for ForExpr {
    type V = ForExprV;

    open spec fn view(&self) -> ForExprV {
        ForExprV {
            val: self.val@,
            key: match self.key {
                Some(k) => Some(k@),
                None => None,
            },
            idx: match self.idx {
                Some(k) => Some(k@),
                None => None,
            },
            iter: self.iter@,
        }
    }
}

/// The binding list `VAL [, KEY [, IDX]]` starting at `i`: the tokens and
/// the position just after the last token.
pub open spec fn parse_bindings(s: Seq<char>, i: int) -> Option<(Seq<char>, Option<Seq<char>>, Option<Seq<char>>, int)> {
    let v0 = skip_ws(s, i);
    let v1 = ident_end(s, v0);
    if v1 == v0 {
        None
    } else {
        let val = s.subrange(v0, v1);
        let c1 = skip_ws(s, v1);
        if c1 < s.len() && s[c1] == ',' {
            let k0 = skip_ws(s, c1 + 1);
            let k1 = ident_end(s, k0);
            if k1 == k0 {
                None
            } else {
                let key = s.subrange(k0, k1);
                let c2 = skip_ws(s, k1);
                if c2 < s.len() && s[c2] == ',' {
                    let x0 = skip_ws(s, c2 + 1);
                    let x1 = ident_end(s, x0);
                    if x1 == x0 {
                        None
                    } else {
                        Some((val, Some(key), Some(s.subrange(x0, x1)), x1))
                    }
                } else {
                    Some((val, Some(key), None, k1))
                }
            }
        } else {
            Some((val, None, None, v1))
        }
    }
}

/// Whether positions `m..m+2` of `s` hold the separator word `in` or `of`,
/// surrounded by at least one whitespace character on each side (the left
/// one is checked by the caller).
pub open spec fn sep_at(s: Seq<char>, m: int) -> bool {
    &&& m + 2 < s.len()
    &&& ((s[m] == 'i' && s[m + 1] == 'n') || (s[m] == 'o' && s[m + 1] == 'f'))
    &&& is_ws(s[m + 2])
}

/// The parse of a whole `v-for` value.
pub open spec fn parse_for_spec(s: Seq<char>) -> Option<ForExprV> {
    match parse_bindings(s, 0) {
        None => None,
        Some((val, key, idx, end)) => {
            let m = skip_ws(s, end);
            if m == end || !sep_at(s, m) {
                None
            } else {
                let it = trim(s.subrange(m + 3, s.len() as int));
                if it.len() == 0 || (exists|j: int| 0 <= j < it.len() && it[j] == '\n') {
                    None
                } else {
                    Some(ForExprV { val, key, idx, iter: it })
                }
            }
        },
    }
}

/// Parses one binding token after optional whitespace; returns the token
/// and the position after it.
fn take_ident(s: &Vec<char>, i: usize) -> (r: Option<(Vec<char>, usize)>)
    requires
        i <= s@.len(),
    ensures
        ({
            let v0 = skip_ws(s@, i as int);
            let v1 = ident_end(s@, v0);
            match r {
                Some((tok, end)) => v1 != v0 && tok@ == s@.subrange(v0, v1) && end == v1 && i
                    <= end <= s@.len(),
                None => v1 == v0,
            }
        }),
{
    let v0 = skip_ws_exec(s, i);
    proof {
        lemma_skip_ws(s@, i as int);
    }
    let v1 = ident_end_exec(s, v0);
    if v1 == v0 {
        None
    } else {
        Some((copy_range(s, v0, v1), v1))
    }
}

/// Parses a `v-for` expression value. Returns `None` exactly when the
/// text does not fit the grammar (and the directive's host is then
/// removed with no output).
#[verifier::loop_isolation(false)]
pub fn parse_for(s: &Vec<char>) -> (r: Option<ForExpr>)
    ensures
        match (r, parse_for_spec(s@)) {
            (Some(f), Some(g)) => f@ == g,
            (None, None) => true,
            _ => false,
        },
{
    let b = match take_ident(s, 0) {
        None => {
            return None;
        },
        Some((val, e1)) => {
            let c1 = skip_ws_exec(s, e1);
            proof {
                lemma_skip_ws(s@, e1 as int);
            }
            if c1 < s.len() && s[c1] == ',' {
                match take_ident(s, c1 + 1) {
                    None => {
                        return None;
                    },
                    Some((key, e2)) => {
                        let c2 = skip_ws_exec(s, e2);
                        proof {
                            lemma_skip_ws(s@, e2 as int);
                        }
                        if c2 < s.len() && s[c2] == ',' {
                            match take_ident(s, c2 + 1) {
                                None => {
                                    return None;
                                },
                                Some((idx, e3)) => (val, Some(key), Some(idx), e3),
                            }
                        } else {
                            (val, Some(key), None, e2)
                        }
                    },
                }
            } else {
                (val, None, None, e1)
            }
        },
    };
    let (val, key, idx, end) = b;
    let ghost keyv: Option<Seq<char>> = match key {
        Some(ref k) => Some(k@),
        None => None,
    };
    let ghost idxv: Option<Seq<char>> = match idx {
        Some(ref k) => Some(k@),
        None => None,
    };
    proof {
        assert(parse_bindings(s@, 0) == Some((val@, keyv, idxv, end as int)));
    }
    let m = skip_ws_exec(s, end);
    proof {
        lemma_skip_ws(s@, end as int);
    }
    if m == end {
        return None;
    }
    if s.len() < 3 || m > s.len() - 3 {
        proof {
            assert(!sep_at(s@, m as int));
        }
        return None;
    }
    let word_ok = (s[m] == 'i' && s[m + 1] == 'n') || (s[m] == 'o' && s[m + 1] == 'f');
    if !word_ok || !ws_char(s[m + 2]) {
        proof {
            assert(!sep_at(s@, m as int));
        }
        return None;
    }
    proof {
        assert(sep_at(s@, m as int));
    }
    let rest = copy_range(s, m + 3, s.len());
    let it = trim_chars(&rest);
    if it.len() == 0 {
        return None;
    }
    let mut j: usize = 0;
    while j < it.len()
        invariant
            0 <= j <= it@.len(),
            forall|k: int| 0 <= k < j ==> it@[k] != '\n',
        decreases it@.len() - j,
    {
        if it[j] == '\n' {
            proof {
                assert(0 <= j < it@.len() && it@[j as int] == '\n');
            }
            return None;
        }
        j += 1;
    }
    Some(ForExpr { val, key, idx, iter: it })
}

/// The `v-bind` argument of an attribute name: the text after the prefix
/// `v-bind:` or `:`, when the name has one of those prefixes and the rest
/// is not empty.
pub open spec fn bind_arg_spec(name: Seq<char>) -> Option<Seq<char>> {
    if name.len() > 7 && name.subrange(0, 7) == "v-bind:"@ {
        Some(name.subrange(7, name.len() as int))
    } else if name.len() > 1 && name[0] == ':' {
        Some(name.subrange(1, name.len() as int))
    } else {
        None
    }
}

/// Runtime computation of [`bind_arg_spec`].
pub fn bind_arg(name: &Vec<char>) -> (r: Option<Vec<char>>)
    ensures
        match (r, bind_arg_spec(name@)) {
            (Some(a), Some(b)) => a@ == b,
            (None, None) => true,
            _ => false,
        },
{
    proof {
        reveal_strlit("v-bind:");
    }
    if name.len() > 7 && name[0] == 'v' && name[1] == '-' && name[2] == 'b' && name[3] == 'i'
        && name[4] == 'n' && name[5] == 'd' && name[6] == ':' {
        proof {
            assert(name@.subrange(0, 7) =~= "v-bind:"@);
        }
        Some(copy_range(name, 7, name.len()))
    } else if name.len() > 1 && name[0] == ':' {
        proof {
            if name@.len() > 7 && name@.subrange(0, 7) == "v-bind:"@ {
                assert(name@.subrange(0, 7)[0] == 'v');
            }
        }
        Some(copy_range(name, 1, name.len()))
    } else {
        proof {
            if name@.len() > 7 && name@.subrange(0, 7) == "v-bind:"@ {
                assert(name@.subrange(0, 7)[0] == 'v');
                assert(name@.subrange(0, 7)[1] == '-');
                assert(name@.subrange(0, 7)[2] == 'b');
                assert(name@.subrange(0, 7)[3] == 'i');
                assert(name@.subrange(0, 7)[4] == 'n');
                assert(name@.subrange(0, 7)[5] == 'd');
                assert(name@.subrange(0, 7)[6] == ':');
            }
        }
        None
    }
}

/// Whether a bind argument is the bracketed dynamic form.
pub open spec fn is_dynamic_arg(arg: Seq<char>) -> bool {
    arg.len() >= 2 && arg[0] == '[' && arg[arg.len() - 1] == ']'
}

/// Runtime test for [`is_dynamic_arg`].
pub fn dynamic_arg(arg: &Vec<char>) -> (b: bool)
    ensures
        b == is_dynamic_arg(arg@),
{
    arg.len() >= 2 && arg[0] == '[' && arg[arg.len() - 1] == ']'
}

} // verus!
