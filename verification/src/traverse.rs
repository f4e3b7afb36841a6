//! The traversal driver and directive processor: the depth-first walk
//! over the tree that hydrates each node, threads the if-chain flags
//! over each child list, expands `v-for`, unwraps `<template>` bodies,
//! and splices replacements in place of their hosts while keeping the
//! surrounding indentation stable.

use vstd::prelude::*;

use crate::chain::{ChainKind, chain_next};
use crate::dom::{
    Attr, AttrV, Html, HtmlV, adjust_node_spec, adjust_subtree, attrs_view, copy_chars,
    count_spaces, deep_copy, doc_free, doc_free_seq, indent_after, indent_of_node, is_ws_text,
    is_whitespace_text_node, lemma_doc_free_seq, lemma_seq_size_member, lemma_seq_view,
    lemma_seq_view_push, node_view, seq_size, seq_view, size, space_count,
};
use crate::engine::Engine;
use crate::hydrate::{hydrate_attrs, hydrate_text};
use crate::syntax::parse_for;
use crate::text::{eq_str, push_range};

verus! {

/// What the directive processor decides for one child: keep it (and
/// recurse into it), or replace it with a list of new siblings.
pub enum Disposition {
    Keep(Html),
    Replace(Vec<Html>),
}

/// The first attribute with the given local name, from position `i` on.
pub open spec fn find_local_from(s: Seq<AttrV>, name: Seq<char>, i: int) -> Option<int>
    decreases s.len() - i,
{
    if i < 0 || i >= s.len() {
        None
    } else if s[i].local == name {
        Some(i)
    } else {
        find_local_from(s, name, i + 1)
    }
}

pub proof fn lemma_find_local_from(s: Seq<AttrV>, name: Seq<char>, i: int)
    requires
        0 <= i <= s.len(),
    ensures
        match find_local_from(s, name, i) {
            Some(j) => i <= j < s.len() && s[j].local == name && forall|k: int|
                i <= k < j ==> s[k].local != name,
            None => forall|k: int| i <= k < s.len() ==> s[k].local != name,
        },
    decreases s.len() - i,
{
    if i < s.len() && s[i].local != name {
        lemma_find_local_from(s, name, i + 1);
    }
}

/// Whether some attribute bears the given local name.
pub open spec fn has_local(s: Seq<AttrV>, name: Seq<char>) -> bool {
    exists|i: int| 0 <= i < s.len() && #[trigger] s[i].local == name
}

/// How the element steps the if-chain: by the directive it bears.
pub open spec fn chain_kind(n: HtmlV) -> ChainKind {
    match n {
        HtmlV::Element { attrs, .. } => if has_local(attrs, "v-if"@) {
            ChainKind::If
        } else if has_local(attrs, "v-else-if"@) {
            ChainKind::ElseIf
        } else if has_local(attrs, "v-else"@) {
            ChainKind::Else
        } else {
            ChainKind::Plain
        },
        _ => ChainKind::NonElem,
    }
}

/// Whether the node is a `<template>` element (one that carries
/// template contents).
pub open spec fn is_template_node(n: HtmlV) -> bool {
    match n {
        HtmlV::Element { template, .. } => template is Some,
        _ => false,
    }
}

/// Whether a local name is one of the five directives the processor
/// recognizes.
pub open spec fn is_core_name(name: Seq<char>) -> bool {
    ||| name == "v-if"@
    ||| name == "v-else-if"@
    ||| name == "v-else"@
    ||| name == "v-for"@
    ||| name == "v-pre"@
}

/// Whether an attribute list carries neither a recognized directive nor
/// a `v-bind` spelling.
pub open spec fn elem_clean(attrs: Seq<AttrV>) -> bool {
    forall|i: int|
        0 <= i < attrs.len() ==> !is_core_name(#[trigger] attrs[i].local) && !crate::hydrate::is_bindish(
            attrs[i],
        )
}

/// Whether a subtree holds no directive, no `v-bind` spelling, and no
/// mustache: rendering leaves such a subtree exactly as it is.
pub open spec fn clean(n: HtmlV) -> bool
    decreases n,
{
    match n {
        HtmlV::Document { children } => clean_seq(children),
        HtmlV::Text { text } => crate::mustache::mustaches(text).len() == 0,
        HtmlV::Element { attrs, template, children, .. } => elem_clean(attrs) && (match template {
            Some(tc) => clean_seq(tc),
            None => true,
        }) && clean_seq(children),
        _ => true,
    }
}

/// [`clean`] over a list of subtrees.
pub open spec fn clean_seq(s: Seq<HtmlV>) -> bool
    decreases s,
{
    if s.len() == 0 {
        true
    } else {
        clean(s[0]) && clean_seq(s.subrange(1, s.len() as int))
    }
}

/// The element-wise reading of [`clean_seq`].
pub proof fn lemma_clean_seq(s: Seq<HtmlV>)
    ensures
        clean_seq(s) <==> (forall|i: int| 0 <= i < s.len() ==> clean(#[trigger] s[i])),
    decreases s,
{
    if s.len() > 0 {
        let rest = s.subrange(1, s.len() as int);
        lemma_clean_seq(rest);
        assert(forall|i: int| 0 <= i < rest.len() ==> rest[i] == s[i + 1]);
        if clean_seq(s) {
            assert forall|i: int| 0 <= i < s.len() implies clean(s[i]) by {
                if i > 0 {
                    assert(clean(rest[i - 1]));
                }
            }
        }
        if forall|i: int| 0 <= i < s.len() ==> clean(#[trigger] s[i]) {
            assert(clean(s[0]));
            assert(forall|i: int| 0 <= i < rest.len() ==> clean(#[trigger] rest[i]));
        }
    }
}

/// Whether attribute local names are pairwise distinct, as the HTML
/// parser produces them.
pub open spec fn distinct_locals(attrs: Seq<AttrV>) -> bool {
    forall|i: int, j: int|
        0 <= i < j < attrs.len() ==> (#[trigger] attrs[i].local) != (#[trigger] attrs[j].local)
}

/// Whether the node's own attributes (when it is an element) carry no
/// recognized directive.
pub open spec fn root_core_free(n: HtmlV) -> bool {
    match n {
        HtmlV::Element { attrs, .. } => forall|i: int|
            0 <= i < attrs.len() ==> !is_core_name(#[trigger] attrs[i].local),
        _ => true,
    }
}

/// The inputs over which directive elimination is shown: attribute
/// names are distinct (as parsed), no element carries a `v-bind`
/// spelling or `v-pre`, and the root elements of template contents
/// carry no directive (a conditionally selected template emits its
/// content roots without processing their own directives).
pub open spec fn tame(n: HtmlV) -> bool
    decreases n,
{
    match n {
        HtmlV::Document { children } => tame_seq(children),
        HtmlV::Element { attrs, template, children, .. } => {
            &&& distinct_locals(attrs)
            &&& (forall|i: int|
                0 <= i < attrs.len() ==> !crate::hydrate::is_bindish(#[trigger] attrs[i]))
            &&& !has_local(attrs, "v-pre"@)
            &&& (match template {
                Some(tc) => tame_seq(tc) && (forall|i: int|
                    0 <= i < tc.len() ==> root_core_free(#[trigger] tc[i])) && children.len()
                    == 0,
                None => true,
            })
            &&& tame_seq(children)
        },
        _ => true,
    }
}

/// [`tame`] over a list of subtrees.
pub open spec fn tame_seq(s: Seq<HtmlV>) -> bool
    decreases s,
{
    if s.len() == 0 {
        true
    } else {
        tame(s[0]) && tame_seq(s.subrange(1, s.len() as int))
    }
}

/// The element-wise reading of [`tame_seq`].
pub proof fn lemma_tame_seq(s: Seq<HtmlV>)
    ensures
        tame_seq(s) <==> (forall|i: int| 0 <= i < s.len() ==> tame(#[trigger] s[i])),
    decreases s,
{
    if s.len() > 0 {
        let rest = s.subrange(1, s.len() as int);
        lemma_tame_seq(rest);
        assert(forall|i: int| 0 <= i < rest.len() ==> rest[i] == s[i + 1]);
        if tame_seq(s) {
            assert forall|i: int| 0 <= i < s.len() implies tame(s[i]) by {
                if i > 0 {
                    assert(tame(rest[i - 1]));
                }
            }
        }
        if forall|i: int| 0 <= i < s.len() ==> tame(#[trigger] s[i]) {
            assert(tame(s[0]));
            assert(forall|i: int| 0 <= i < rest.len() ==> tame(#[trigger] rest[i]));
        }
    }
}

/// Whether no element of the subtree — template contents included —
/// carries a recognized directive or a `v-bind` spelling.
pub open spec fn no_directives(n: HtmlV) -> bool
    decreases n,
{
    match n {
        HtmlV::Document { children } => nd_seq(children),
        HtmlV::Element { attrs, template, children, .. } => elem_clean(attrs) && (match template {
            Some(tc) => nd_seq(tc),
            None => true,
        }) && nd_seq(children),
        _ => true,
    }
}

/// [`no_directives`] over a list of subtrees.
pub open spec fn nd_seq(s: Seq<HtmlV>) -> bool
    decreases s,
{
    if s.len() == 0 {
        true
    } else {
        no_directives(s[0]) && nd_seq(s.subrange(1, s.len() as int))
    }
}

/// The element-wise reading of [`nd_seq`].
pub proof fn lemma_nd_seq(s: Seq<HtmlV>)
    ensures
        nd_seq(s) <==> (forall|i: int| 0 <= i < s.len() ==> no_directives(#[trigger] s[i])),
    decreases s,
{
    if s.len() > 0 {
        let rest = s.subrange(1, s.len() as int);
        lemma_nd_seq(rest);
        assert(forall|i: int| 0 <= i < rest.len() ==> rest[i] == s[i + 1]);
        if nd_seq(s) {
            assert forall|i: int| 0 <= i < s.len() implies no_directives(s[i]) by {
                if i > 0 {
                    assert(no_directives(rest[i - 1]));
                }
            }
        }
        if forall|i: int| 0 <= i < s.len() ==> no_directives(#[trigger] s[i]) {
            assert(no_directives(s[0]));
            assert(forall|i: int| 0 <= i < rest.len() ==> no_directives(#[trigger] rest[i]));
        }
    }
}

/// What one directive read does to an attribute list: the first
/// attribute of that name is removed when there is one.
pub open spec fn step_ok(s: Seq<AttrV>, s2: Seq<AttrV>, name: Seq<char>) -> bool {
    match find_local_from(s, name, 0) {
        Some(j) => s2 == s.remove(j),
        None => s2 == s,
    }
}

/// One directive read leaves no attribute of that name behind, keeps
/// names distinct, and introduces nothing.
proof fn lemma_step(s: Seq<AttrV>, s2: Seq<AttrV>, name: Seq<char>)
    requires
        distinct_locals(s),
        step_ok(s, s2, name),
    ensures
        distinct_locals(s2),
        !has_local(s2, name),
        forall|k: int|
            0 <= k < s2.len() ==> exists|m: int| 0 <= m < s.len() && #[trigger] s2[k] == s[m],
{
    lemma_find_local_from(s, name, 0);
    match find_local_from(s, name, 0) {
        Some(j) => {
            let r = s.remove(j);
            assert(forall|k: int| 0 <= k < j ==> r[k] == s[k]);
            assert(forall|k: int| j <= k < r.len() ==> r[k] == s[k + 1]);
            assert forall|k: int| 0 <= k < r.len() implies exists|m: int|
                0 <= m < s.len() && #[trigger] r[k] == s[m] by {
                if k < j {
                    assert(r[k] == s[k]);
                } else {
                    assert(r[k] == s[k + 1]);
                }
            }
            assert forall|k: int| 0 <= k < r.len() implies r[k].local != name by {
                if k < j {
                    if r[k].local == name {
                        assert(s[k].local == name);
                    }
                } else {
                    if r[k].local == name {
                        assert(s[k + 1].local == s[j].local);
                    }
                }
            }
            if has_local(r, name) {
                let k = choose|k: int| 0 <= k < r.len() && #[trigger] r[k].local == name;
                assert(r[k].local != name);
            }
            assert forall|i: int, j2: int|
                0 <= i < j2 < r.len() implies (#[trigger] r[i].local) != (#[trigger] r[j2].local)
            by {
                if i < j && j2 < j {
                    assert(r[i] == s[i] && r[j2] == s[j2]);
                } else if i < j {
                    assert(r[i] == s[i] && r[j2] == s[j2 + 1]);
                } else {
                    assert(r[i] == s[i + 1] && r[j2] == s[j2 + 1]);
                }
            }
        },
        None => {
            if has_local(s2, name) {
                let k = choose|k: int| 0 <= k < s2.len() && #[trigger] s2[k].local == name;
                assert(s[k].local != name);
            }
            assert(forall|k: int|
                0 <= k < s2.len() ==> #[trigger] s2[k] == s[k]);
        },
    }
}

/// After the four directive reads, the remaining attributes of a tame
/// element carry no recognized directive and no `v-bind` spelling, with
/// names still distinct.
proof fn lemma_strip_four(
    a0: Seq<AttrV>,
    a1: Seq<AttrV>,
    a2: Seq<AttrV>,
    a3: Seq<AttrV>,
    a4: Seq<AttrV>,
)
    requires
        distinct_locals(a0),
        !has_local(a0, "v-pre"@),
        forall|i: int| 0 <= i < a0.len() ==> !crate::hydrate::is_bindish(#[trigger] a0[i]),
        step_ok(a0, a1, "v-if"@),
        step_ok(a1, a2, "v-else-if"@),
        step_ok(a2, a3, "v-else"@),
        step_ok(a3, a4, "v-for"@),
    ensures
        distinct_locals(a4),
        !has_local(a4, "v-pre"@),
        forall|i: int|
            0 <= i < a4.len() ==> !is_core_name(#[trigger] a4[i].local) && !crate::hydrate::is_bindish(
                a4[i],
            ),
{
    lemma_step(a0, a1, "v-if"@);
    lemma_step(a1, a2, "v-else-if"@);
    lemma_step(a2, a3, "v-else"@);
    lemma_step(a3, a4, "v-for"@);
    assert forall|k: int| 0 <= k < a4.len() implies exists|m: int|
        0 <= m < a0.len() && #[trigger] a4[k] == a0[m] by {
        let m3 = choose|m: int| 0 <= m < a3.len() && a4[k] == a3[m];
        let m2 = choose|m: int| 0 <= m < a2.len() && a3[m3] == a2[m];
        let m1 = choose|m: int| 0 <= m < a1.len() && a2[m2] == a1[m];
        let m0 = choose|m: int| 0 <= m < a0.len() && a1[m1] == a0[m];
        assert(a4[k] == a0[m0]);
    }
    assert forall|i: int| 0 <= i < a4.len() implies !is_core_name(#[trigger] a4[i].local)
        && !crate::hydrate::is_bindish(a4[i]) by {
        let m = choose|m: int| 0 <= m < a0.len() && a4[i] == a0[m];
        assert(!crate::hydrate::is_bindish(a0[m]));
        if a4[i].local == "v-pre"@ {
            assert(a0[m].local == "v-pre"@);
        }
        if a4[i].local == "v-if"@ {
            assert(has_local(a4, "v-if"@));
            let m3 = choose|mm: int| 0 <= mm < a3.len() && a4[i] == a3[mm];
            assert(a3[m3].local == "v-if"@);
            let m2 = choose|mm: int| 0 <= mm < a2.len() && a3[m3] == a2[mm];
            let m1 = choose|mm: int| 0 <= mm < a1.len() && a2[m2] == a1[mm];
            assert(a1[m1].local == "v-if"@);
            assert(has_local(a1, "v-if"@));
        }
        if a4[i].local == "v-else-if"@ {
            let m3 = choose|mm: int| 0 <= mm < a3.len() && a4[i] == a3[mm];
            let m2 = choose|mm: int| 0 <= mm < a2.len() && a3[m3] == a2[mm];
            assert(a2[m2].local == "v-else-if"@);
            assert(has_local(a2, "v-else-if"@));
        }
        if a4[i].local == "v-else"@ {
            let m3 = choose|mm: int| 0 <= mm < a3.len() && a4[i] == a3[mm];
            assert(a3[m3].local == "v-else"@);
            assert(has_local(a3, "v-else"@));
        }
        if a4[i].local == "v-for"@ {
            assert(has_local(a4, "v-for"@));
        }
    }
    if has_local(a4, "v-pre"@) {
        let k = choose|k: int| 0 <= k < a4.len() && #[trigger] a4[k].local == "v-pre"@;
        assert(!is_core_name(a4[k].local));
    }
}

/// A text node never carries a directive; truncating the last text of a
/// directive-free list keeps it directive-free.
proof fn lemma_splice_nd(prev: Seq<HtmlV>)
    requires
        forall|i: int| 0 <= i < prev.len() ==> no_directives(#[trigger] prev[i]),
    ensures
        forall|i: int|
            0 <= i < splice_empty_spec(prev).len() ==> no_directives(
                #[trigger] splice_empty_spec(prev)[i],
            ),
{
    let r = splice_empty_spec(prev);
    assert forall|i: int| 0 <= i < r.len() implies no_directives(r[i]) by {
        if i < prev.len() - 1 {
            assert(r[i] == prev[i]);
        } else {
            match r[i] {
                HtmlV::Text { .. } => {},
                _ => {
                    assert(r[i] == prev[i]);
                },
            }
        }
    }
}

/// The splice of an empty replacement keeps or truncates a text node
/// and drops nodes; it can introduce no document node.
proof fn lemma_splice_docfree(prev: Seq<HtmlV>)
    requires
        forall|i: int|
            0 <= i < prev.len() ==> !((#[trigger] prev[i]) is Document) && doc_free(prev[i]),
    ensures
        forall|i: int|
            0 <= i < splice_empty_spec(prev).len() ==> !((#[trigger] splice_empty_spec(prev)[i])
                is Document) && doc_free(splice_empty_spec(prev)[i]),
{
    let r = splice_empty_spec(prev);
    assert forall|i: int| 0 <= i < r.len() implies !((#[trigger] r[i]) is Document) && doc_free(
        r[i],
    ) by {
        if i < prev.len() - 1 {
            assert(r[i] == prev[i]);
        } else {
            match r[i] {
                HtmlV::Text { .. } => {},
                _ => {
                    assert(r[i] == prev[i]);
                },
            }
        }
    }
}

/// Removes the first attribute with the given local name, handing its
/// value out.
fn take_directive(attrs: &mut Vec<Attr>, name: &str) -> (r: Option<Vec<char>>)
    ensures
        match find_local_from(attrs_view(old(attrs)@), name@, 0) {
            Some(j) => r is Some && r.unwrap()@ == attrs_view(old(attrs)@)[j].value && attrs_view(
                final(attrs)@,
            ) == attrs_view(old(attrs)@).remove(j),
            None => r is None && final(attrs)@ == old(attrs)@,
        },
{
    proof {
        lemma_find_local_from(attrs_view(attrs@), name@, 0);
    }
    let mut i: usize = 0;
    while i < attrs.len()
        invariant
            0 <= i <= attrs@.len(),
            forall|k: int| 0 <= k < i ==> attrs_view(attrs@)[k].local != name@,
            attrs@ == old(attrs)@,
        decreases attrs@.len() - i,
    {
        if eq_str(&attrs[i].local, name) {
            proof {
                assert(attrs_view(attrs@)[i as int].local == name@);
                assert(find_local_from(attrs_view(attrs@), name@, 0) == Some(i as int)) by {
                    lemma_find_local_from(attrs_view(attrs@), name@, 0);
                    match find_local_from(attrs_view(attrs@), name@, 0) {
                        Some(j) => {
                            if j > i {
                                assert(attrs_view(attrs@)[i as int].local != name@);
                            }
                        },
                        None => {
                            assert(attrs_view(attrs@)[i as int].local != name@);
                        },
                    }
                }
            }
            let a = attrs.remove(i);
            proof {
                assert(attrs_view(final(attrs)@) =~= attrs_view(old(attrs)@).remove(i as int));
            }
            return Some(a.value);
        }
        i += 1;
    }
    None
}

/// The node with its first `v-pre` attribute removed and everything
/// else — name, other attributes, children, template contents — kept
/// verbatim; the node itself when it carries none.
pub open spec fn strip_pre_spec(n: HtmlV) -> HtmlV {
    match n {
        HtmlV::Element { name, attrs, template, math_ip, children } => match find_local_from(
            attrs,
            "v-pre"@,
            0,
        ) {
            Some(j) => HtmlV::Element { name, attrs: attrs.remove(j), template, math_ip, children },
            None => n,
        },
        _ => n,
    }
}

/// Whether every node of the list is an element bearing `v-pre`.
pub open spec fn all_pre(s: Seq<HtmlV>) -> bool {
    forall|i: int|
        0 <= i < s.len() ==> (match #[trigger] s[i] {
            HtmlV::Element { attrs, .. } => has_local(attrs, "v-pre"@),
            _ => false,
        })
}

/// Each node with its first `v-pre` attribute removed and nothing else
/// changed.
pub open spec fn strip_all_pre(s: Seq<HtmlV>) -> Seq<HtmlV> {
    s.map(|i: int, n: HtmlV| strip_pre_spec(n))
}

/// Splits the `v-pre` directive off an element, if it bears one: the
/// result is the node with exactly that attribute removed, and the flag
/// says whether one was found.
fn strip_pre(n: Html) -> (r: (bool, Html))
    ensures
        size(r.1@) == size(n@),
        r.1@ == strip_pre_spec(n@),
        r.0 == (match n@ {
            HtmlV::Element { attrs, .. } => has_local(attrs, "v-pre"@),
            _ => false,
        }),
{
    match n {
        Html::Element { name, mut attrs, template, math_ip, children } => {
            let ghost n0 = n;
            let ghost a0 = attrs_view(attrs@);
            let p = take_directive(&mut attrs, "v-pre");
            let r = Html::Element { name, attrs, template, math_ip, children };
            proof {
                assert(size(r@) == size(n0@));
                lemma_has_local_iff(a0, "v-pre"@);
                if !has_local(a0, "v-pre"@) {
                    assert(r@ == n0@);
                }
                assert(r@ == strip_pre_spec(n0@));
            }
            (p.is_some(), r)
        },
        other => (false, other),
    }
}

/// The view of an optional indent text.
pub open spec fn opt_chars_view(o: Option<Vec<char>>) -> Option<Seq<char>> {
    match o {
        Some(v) => Some(v@),
        None => None,
    }
}

/// The separator that stands between two expansions emitted after one
/// another: the host's leading indent as a text node, when there is
/// earlier output to separate from and an indent to use.
pub open spec fn iter_sep(prev: Seq<HtmlV>, indent: Option<Seq<char>>) -> Seq<HtmlV> {
    if prev.len() > 0 && indent is Some {
        seq![HtmlV::Text { text: indent.unwrap() }]
    } else {
        Seq::empty()
    }
}

/// The splice of an empty replacement list: the host vanishes, and a
/// whitespace-only text sibling before it goes too (or, when that text
/// has earlier lines, it is cut after its last line break).
pub open spec fn splice_empty_spec(s: Seq<HtmlV>) -> Seq<HtmlV> {
    if s.len() == 0 {
        s
    } else {
        match s.last() {
            HtmlV::Text { text } => if crate::text::all_ws(text) {
                s.drop_last()
            } else {
                match crate::text::rfind(text, '\n') {
                    Some(nl) => if crate::text::all_ws(
                        text.subrange(nl + 1, text.len() as int),
                    ) {
                        s.drop_last().push(HtmlV::Text { text: text.subrange(0, nl + 1) })
                    } else {
                        s
                    },
                    None => s,
                }
            },
            _ => s,
        }
    }
}

/// Splices a replacement list where a host stood: a non-empty list is
/// appended in its place; an empty one removes the host together with
/// the indentation that led to it.
fn splice(out: &mut Vec<Html>, nodes: Vec<Html>)
    ensures
        nodes@.len() > 0 ==> seq_view(final(out)@) == seq_view(old(out)@) + seq_view(nodes@),
        nodes@.len() == 0 ==> seq_view(final(out)@) == splice_empty_spec(seq_view(old(out)@)),
{
    proof {
        lemma_seq_view(out@);
        lemma_seq_view(nodes@);
    }
    if nodes.len() > 0 {
        let mut it = nodes;
        let ghost all = seq_view(it@);
        let ghost mut consumed: int = 0;
        while it.len() > 0
            invariant
                0 <= consumed,
                consumed + it@.len() == all.len(),
                seq_view(out@) == seq_view(old(out)@) + all.subrange(0, consumed),
                forall|i: int|
                    0 <= i < it@.len() ==> node_view(it@[i]) == all[consumed + i],
            decreases it@.len(),
        {
            let ghost it_old = it@;
            let n = it.remove(0);
            proof {
                assert(it@ =~= it_old.subrange(1, it_old.len() as int));
                assert(node_view(n) == all[consumed]);
                lemma_seq_view_push(out@, n);
            }
            out.push(n);
            proof {
                assert(seq_view(out@) =~= seq_view(old(out)@) + all.subrange(0, consumed + 1));
                consumed = consumed + 1;
            }
        }
        proof {
            assert(all.subrange(0, all.len() as int) =~= all);
        }
    } else {
        if out.len() > 0 {
            let ghost prev = seq_view(out@);
            let last = out.pop().unwrap();
            proof {
                assert(prev.last() == node_view(last)) by {
                    lemma_seq_view(out@.push(last));
                    assert(out@.push(last) =~= old(out)@);
                }
                assert(seq_view(out@) =~= prev.drop_last()) by {
                    lemma_seq_view(old(out)@);
                    lemma_seq_view(out@);
                    assert(forall|i: int| 0 <= i < out@.len() ==> out@[i] == old(out)@[i]);
                }
            }
            match last {
                Html::Text { text } => {
                    if crate::text::all_ws_chars(&text) {
                        // drop the host and its indent text
                    } else {
                        match crate::text::rfind_char(&text, '\n') {
                            Some(nl) => {
                                let tl = text.len();
                                proof {
                                    crate::text::lemma_rfind_props(text@, '\n');
                                }
                                let mut tail_ws: bool = true;
                                let mut q: usize = nl + 1;
                                while q < text.len()
                                    invariant
                                        nl < q <= text@.len(),
                                        tail_ws == crate::text::all_ws(
                                            text@.subrange(nl + 1, q as int),
                                        ),
                                    decreases text@.len() - q,
                                {
                                    let w = crate::text::ws_char(text[q]);
                                    proof {
                                        assert(text@.subrange(nl + 1, q + 1)
                                            =~= text@.subrange(nl + 1, q as int).push(
                                            text@[q as int],
                                        ));
                                        if tail_ws && w {
                                            assert(crate::text::all_ws(
                                                text@.subrange(nl + 1, q + 1),
                                            )) by {
                                                let sub = text@.subrange(nl + 1, q + 1);
                                                assert(forall|x: int|
                                                    0 <= x < sub.len() - 1 ==> sub[x] == text@
                                                        .subrange(nl + 1, q as int)[x]);
                                            }
                                        }
                                        if !w {
                                            assert(text@.subrange(nl + 1, q + 1)[q - nl - 1]
                                                == text@[q as int]);
                                        }
                                        if !tail_ws {
                                            let sub0 = text@.subrange(nl + 1, q as int);
                                            let k = choose|k: int|
                                                0 <= k < sub0.len() && !crate::text::is_ws(
                                                    sub0[k],
                                                );
                                            assert(text@.subrange(nl + 1, q + 1)[k] == sub0[k]);
                                        }
                                    }
                                    tail_ws = tail_ws && w;
                                    q += 1;
                                }
                                proof {
                                    assert(text@.subrange(nl + 1, text@.len() as int)
                                        =~= text@.subrange(nl + 1, text@.len() as int));
                                }
                                if tail_ws {
                                    let t2 = crate::text::copy_range(&text, 0, nl + 1);
                                    let tn = Html::Text { text: t2 };
                                    proof {
                                        lemma_seq_view_push(out@, tn);
                                    }
                                    out.push(tn);
                                    proof {
                                        assert(seq_view(out@) =~= splice_empty_spec(prev));
                                    }
                                } else {
                                    let tn = Html::Text { text };
                                    proof {
                                        lemma_seq_view_push(out@, tn);
                                    }
                                    out.push(tn);
                                    proof {
                                        assert(seq_view(out@) =~= splice_empty_spec(prev));
                                    }
                                }
                            },
                            None => {
                                let tn = Html::Text { text };
                                proof {
                                    lemma_seq_view_push(out@, tn);
                                }
                                out.push(tn);
                                proof {
                                    assert(seq_view(out@) =~= splice_empty_spec(prev));
                                }
                            },
                        }
                    }
                },
                other => {
                    proof {
                        lemma_seq_view_push(out@, other);
                    }
                    let ghost ov = node_view(other);
                    out.push(other);
                    proof {
                        assert(seq_view(out@) =~= splice_empty_spec(prev));
                    }
                },
            }
        }
    }
}

/// The first template-contents child that is not whitespace-only text.
pub open spec fn first_content_at(tc: Seq<HtmlV>, i: int) -> Option<int>
    decreases tc.len() - i,
{
    if i < 0 || i >= tc.len() {
        None
    } else if !is_ws_text(tc[i]) {
        Some(i)
    } else {
        first_content_at(tc, i + 1)
    }
}

/// The search for the first content child, spelled out.
pub proof fn lemma_first_content_at(tc: Seq<HtmlV>, i: int)
    requires
        0 <= i <= tc.len(),
    ensures
        match first_content_at(tc, i) {
            Some(p) => i <= p < tc.len() && !is_ws_text(tc[p]) && forall|j: int|
                i <= j < p ==> is_ws_text(tc[j]),
            None => forall|j: int| i <= j < tc.len() ==> is_ws_text(tc[j]),
        },
    decreases tc.len() - i,
{
    if i < tc.len() && is_ws_text(tc[i]) {
        lemma_first_content_at(tc, i + 1);
    }
}

/// The column of a template's first non-whitespace content child: the
/// space count of the indent its left sibling provides, and zero when
/// there is no such child, no left sibling, or no indent.
pub open spec fn first_content_indent(tc: Seq<HtmlV>) -> int {
    match first_content_at(tc, 0) {
        Some(p) => if p == 0 {
            0
        } else {
            match indent_of_node(tc[p - 1]) {
                Some(ind) => space_count(ind),
                None => 0,
            }
        },
        None => 0,
    }
}

/// How far a template's body is shifted when it is unwrapped: the
/// host's own column minus its first content child's column.
pub open spec fn reflow_delta(tc: Seq<HtmlV>, indent: Option<Seq<char>>) -> int {
    (match indent {
        Some(s) => space_count(s),
        None => 0,
    }) - first_content_indent(tc)
}

/// The targets a `<template>` body expands to: its non-whitespace
/// children, in order, each re-indented by `delta` (or taken as it is
/// when the delta is zero).
pub open spec fn expand_template_spec(tc: Seq<HtmlV>, delta: int) -> Seq<HtmlV>
    decreases tc.len(),
{
    if tc.len() == 0 {
        Seq::empty()
    } else if is_ws_text(tc[0]) {
        expand_template_spec(tc.subrange(1, tc.len() as int), delta)
    } else {
        seq![
            if delta == 0 {
                tc[0]
            } else {
                adjust_node_spec(tc[0], delta)
            },
        ] + expand_template_spec(tc.subrange(1, tc.len() as int), delta)
    }
}

/// Splitting the expansion of a template body at any position.
proof fn lemma_expand_template_split(tc: Seq<HtmlV>, delta: int, q: int)
    requires
        0 <= q < tc.len(),
    ensures
        expand_template_spec(tc.subrange(q, tc.len() as int), delta) == (if is_ws_text(tc[q]) {
            expand_template_spec(tc.subrange(q + 1, tc.len() as int), delta)
        } else {
            seq![
                if delta == 0 {
                    tc[q]
                } else {
                    adjust_node_spec(tc[q], delta)
                },
            ] + expand_template_spec(tc.subrange(q + 1, tc.len() as int), delta)
        }),
{
    let suf = tc.subrange(q, tc.len() as int);
    assert(suf[0] == tc[q]);
    assert(suf.subrange(1, suf.len() as int) =~= tc.subrange(q + 1, tc.len() as int));
}

/// Re-indenting a subtree touches only text contents: it changes
/// neither which directives elements carry nor the shape of the tree.
proof fn lemma_adjust_tame(n: HtmlV, adj: int)
    ensures
        tame(crate::dom::adjust_node_spec(n, adj)) == tame(n),
        root_core_free(crate::dom::adjust_node_spec(n, adj)) == root_core_free(n),
        doc_free(crate::dom::adjust_node_spec(n, adj)) == doc_free(n),
        (crate::dom::adjust_node_spec(n, adj) is Document) == (n is Document),
    decreases n, 0int,
{
    let r = crate::dom::adjust_node_spec(n, adj);
    match n {
        HtmlV::Element { name, attrs, template: Some(tc), math_ip, children } => {
            lemma_adjust_tame_seq(tc, adj);
            crate::dom::lemma_adjust_seq(tc, adj);
            let tc2 = crate::dom::adjust_seq_spec(tc, adj);
            assert((forall|i: int| 0 <= i < tc2.len() ==> root_core_free(#[trigger] tc2[i]))
                == (forall|i: int| 0 <= i < tc.len() ==> root_core_free(#[trigger] tc[i]))) by {
                if forall|i: int| 0 <= i < tc.len() ==> root_core_free(#[trigger] tc[i]) {
                    assert forall|i: int| 0 <= i < tc2.len() implies root_core_free(
                        #[trigger] tc2[i],
                    ) by {
                        assert(root_core_free(tc[i]));
                    }
                }
                if forall|i: int| 0 <= i < tc2.len() ==> root_core_free(#[trigger] tc2[i]) {
                    assert forall|i: int| 0 <= i < tc.len() implies root_core_free(
                        #[trigger] tc[i],
                    ) by {
                        assert(root_core_free(tc2[i]));
                    }
                }
            }
        },
        HtmlV::Element { template: None, children, .. } => {
            lemma_adjust_tame_seq(children, adj);
        },
        _ => {},
    }
}

/// [`lemma_adjust_tame`] over a list of subtrees.
proof fn lemma_adjust_tame_seq(s: Seq<HtmlV>, adj: int)
    ensures
        tame_seq(crate::dom::adjust_seq_spec(s, adj)) == tame_seq(s),
        doc_free_seq(crate::dom::adjust_seq_spec(s, adj)) == doc_free_seq(s),
        forall|i: int|
            0 <= i < s.len() ==> root_core_free(#[trigger] crate::dom::adjust_seq_spec(s, adj)[i])
                == root_core_free(s[i]),
        forall|i: int|
            0 <= i < s.len() ==> tame(#[trigger] crate::dom::adjust_seq_spec(s, adj)[i]) == tame(
                s[i],
            ),
        forall|i: int|
            0 <= i < s.len() ==> doc_free(#[trigger] crate::dom::adjust_seq_spec(s, adj)[i])
                == doc_free(s[i]) && ((crate::dom::adjust_seq_spec(s, adj)[i] is Document) == (
            s[i] is Document)),
    decreases s, 1int,
{
    crate::dom::lemma_adjust_seq(s, adj);
    let r = crate::dom::adjust_seq_spec(s, adj);
    assert forall|i: int| 0 <= i < s.len() implies (root_core_free(#[trigger] r[i])
        == root_core_free(s[i])) && (tame(r[i]) == tame(s[i])) && (doc_free(r[i]) == doc_free(
        s[i],
    )) && ((r[i] is Document) == (s[i] is Document)) by {
        assert(decreases_to!(s => s[i]));
        lemma_adjust_tame(s[i], adj);
        assert(r[i] == crate::dom::adjust_node_spec(s[i], adj));
    }
    lemma_tame_seq(s);
    lemma_tame_seq(r);
    if tame_seq(s) {
        assert forall|i: int| 0 <= i < r.len() implies tame(#[trigger] r[i]) by {
            assert(tame(s[i]));
        }
    }
    if tame_seq(r) {
        assert forall|i: int| 0 <= i < s.len() implies tame(#[trigger] s[i]) by {
            assert(tame(r[i]));
        }
    }
    lemma_doc_free_seq(s);
    lemma_doc_free_seq(r);
    if doc_free_seq(s) {
        assert forall|i: int| 0 <= i < r.len() implies !((#[trigger] r[i]) is Document)
            && doc_free(r[i]) by {
            assert(!(s[i] is Document) && doc_free(s[i]));
        }
    }
    if doc_free_seq(r) {
        assert forall|i: int| 0 <= i < s.len() implies !((#[trigger] s[i]) is Document)
            && doc_free(s[i]) by {
            assert(!(r[i] is Document) && doc_free(r[i]));
        }
    }
}

/// Expands a directive host into the nodes that stand for it: for a
/// `<template>`, its contents' non-whitespace children, re-indented to
/// the template's own column; for anything else, a copy of the host
/// itself.
#[verifier::loop_isolation(false)]
#[verifier::rlimit(100)]
fn expand_targets(node: &Html, indent: &Option<Vec<char>>) -> (r: Vec<Html>)
    ensures
        is_template_node(node@) ==> forall|i: int|
            0 <= i < seq_view(r@).len() ==> size(#[trigger] seq_view(r@)[i]) < size(node@),
        !is_template_node(node@) ==> seq_view(r@).len() == 1 && seq_view(r@)[0] == node@ && size(
            seq_view(r@)[0],
        ) == size(node@),
        (is_template_node(node@) && tame(node@)) ==> forall|i: int|
            0 <= i < seq_view(r@).len() ==> tame(#[trigger] seq_view(r@)[i]) && root_core_free(
                seq_view(r@)[i],
            ),
        (is_template_node(node@) && doc_free(node@)) ==> forall|i: int|
            0 <= i < seq_view(r@).len() ==> !((#[trigger] seq_view(r@)[i]) is Document)
                && doc_free(seq_view(r@)[i]),
        (match node@ {
            HtmlV::Element { template: Some(tcv), .. } => seq_view(r@) == expand_template_spec(
                tcv,
                reflow_delta(tcv, opt_chars_view(*indent)),
            ),
            _ => true,
        }),
{
    match node {
        Html::Element { name, attrs, template: Some(tc), math_ip, children } => {
            let ghost tcv = seq_view(tc@);
            proof {
                lemma_seq_view(tc@);
            }
            // The column the template itself sits at, and the column of
            // its first non-whitespace content child.
            let template_indent: usize = match indent {
                Some(ind) => count_spaces(ind),
                None => 0,
            };
            let mut first_ci: usize = 0;
            let mut p: usize = 0;
            let mut found: bool = false;
            while p < tc.len() && !found
                invariant
                    0 <= p <= tc@.len(),
                    forall|j: int| 0 <= j < p ==> is_ws_text(#[trigger] tcv[j]),
                    !found ==> first_ci == 0,
                    found ==> p < tc@.len() && !is_ws_text(tcv[p as int]) && first_ci as int == (
                    if p == 0 {
                        0int
                    } else {
                        match indent_of_node(tcv[p - 1]) {
                            Some(ind) => space_count(ind),
                            None => 0int,
                        }
                    }),
                decreases tc@.len() - p + (if found {
                    0int
                } else {
                    1int
                }),
            {
                if !is_whitespace_text_node(&tc[p]) {
                    if p > 0 {
                        match indent_after(&tc[p - 1]) {
                            Some(ci) => {
                                first_ci = count_spaces(&ci);
                            },
                            None => {},
                        }
                    }
                    found = true;
                } else {
                    p += 1;
                }
            }
            proof {
                lemma_first_content_at(tcv, 0);
                if found {
                    assert(first_content_at(tcv, 0) == Some(p as int)) by {
                        match first_content_at(tcv, 0) {
                            Some(fp) => {
                                if fp < p {
                                    assert(is_ws_text(tcv[fp]));
                                }
                                if fp > p {
                                    assert(is_ws_text(tcv[p as int]));
                                }
                            },
                            None => {
                                assert(is_ws_text(tcv[p as int]));
                            },
                        }
                    }
                } else {
                    assert(first_content_at(tcv, 0) is None) by {
                        match first_content_at(tcv, 0) {
                            Some(fp) => {
                                assert(is_ws_text(tcv[fp]));
                            },
                            None => {},
                        }
                    }
                }
                assert(first_ci as int == first_content_indent(tcv));
            }
            let (add, mag) = if template_indent >= first_ci {
                (true, template_indent - first_ci)
            } else {
                (false, first_ci - template_indent)
            };
            let ghost delta = crate::text::signed(add, mag as nat);
            proof {
                assert(delta == reflow_delta(tcv, opt_chars_view(*indent)));
            }
            let mut out: Vec<Html> = Vec::new();
            let mut q: usize = 0;
            proof {
                assert(tcv.subrange(0, tcv.len() as int) =~= tcv);
                assert(Seq::<HtmlV>::empty() + expand_template_spec(tcv, delta)
                    =~= expand_template_spec(tcv, delta));
            }
            while q < tc.len()
                invariant
                    0 <= q <= tc@.len(),
                    expand_template_spec(tcv, delta) == seq_view(out@) + expand_template_spec(
                        tcv.subrange(q as int, tcv.len() as int),
                        delta,
                    ),
                    forall|i: int|
                        0 <= i < seq_view(out@).len() ==> size(#[trigger] seq_view(out@)[i])
                            < size(node@),
                    tame(node@) ==> forall|i: int|
                        0 <= i < seq_view(out@).len() ==> tame(#[trigger] seq_view(out@)[i])
                            && root_core_free(seq_view(out@)[i]),
                    doc_free(node@) ==> forall|i: int|
                        0 <= i < seq_view(out@).len() ==> !((#[trigger] seq_view(out@)[i])
                            is Document) && doc_free(seq_view(out@)[i]),
                decreases tc@.len() - q,
            {
                proof {
                    lemma_expand_template_split(tcv, delta, q as int);
                }
                if !is_whitespace_text_node(&tc[q]) {
                    let cloned = if mag != 0 {
                        adjust_subtree(&tc[q], add, mag)
                    } else {
                        deep_copy(&tc[q])
                    };
                    proof {
                        assert(cloned@ == (if delta == 0 {
                            tcv[q as int]
                        } else {
                            adjust_node_spec(tcv[q as int], delta)
                        }));
                        crate::dom::lemma_adjust_size(
                            tc@[q as int]@,
                            crate::text::signed(add, mag as nat),
                        );
                        assert(size(cloned@) == size(tcv[q as int]));
                        lemma_seq_size_member(tcv, q as int);
                        assert(size(node@) >= 1 + seq_size(tcv));
                        lemma_seq_view_push(out@, cloned);
                        if tame(node@) {
                            lemma_tame_seq(tcv);
                            assert(tame(tcv[q as int]) && root_core_free(tcv[q as int]));
                            lemma_adjust_tame(tcv[q as int], crate::text::signed(add, mag as nat));
                            assert(cloned@ == tcv[q as int] || cloned@
                                == crate::dom::adjust_node_spec(
                                tcv[q as int],
                                crate::text::signed(add, mag as nat),
                            ));
                            assert(tame(cloned@) && root_core_free(cloned@));
                        }
                        if doc_free(node@) {
                            lemma_doc_free_seq(tcv);
                            assert(!(tcv[q as int] is Document) && doc_free(tcv[q as int]));
                            lemma_adjust_tame(tcv[q as int], crate::text::signed(add, mag as nat));
                            assert(cloned@ == tcv[q as int] || cloned@
                                == crate::dom::adjust_node_spec(
                                tcv[q as int],
                                crate::text::signed(add, mag as nat),
                            ));
                            assert(!(cloned@ is Document) && doc_free(cloned@));
                        }
                    }
                    let ghost prev_out = seq_view(out@);
                    out.push(cloned);
                    proof {
                        assert(seq_view(out@) + expand_template_spec(
                            tcv.subrange(q + 1, tcv.len() as int),
                            delta,
                        ) =~= prev_out + expand_template_spec(
                            tcv.subrange(q as int, tcv.len() as int),
                            delta,
                        ));
                    }
                }
                q += 1;
            }
            proof {
                assert(expand_template_spec(
                    tcv.subrange(tcv.len() as int, tcv.len() as int),
                    delta,
                ) =~= Seq::<HtmlV>::empty());
                assert(seq_view(out@) =~= expand_template_spec(tcv, delta));
            }
            out
        },
        _ => {
            let c = deep_copy(node);
            let mut out: Vec<Html> = Vec::new();
            proof {
                lemma_seq_view_push(out@, c);
            }
            out.push(c);
            proof {
                assert(seq_view(out@) =~= Seq::<HtmlV>::empty().push(node_view(c)));
            }
            out
        },
    }
}

/// Expands a chain-selected host and renders each of its nodes.
fn render_targets(node: &Html, engine: &mut Engine, indent: &Option<Vec<char>>) -> (r: Vec<Html>)
    ensures
        final(engine).scopes() == old(engine).scopes(),
        (tame(node@) && root_core_free(node@)) ==> forall|i: int|
            0 <= i < seq_view(r@).len() ==> no_directives(#[trigger] seq_view(r@)[i]),
        !is_template_node(node@) ==> seq_view(r@).len() == 1,
        (doc_free(node@) && !(node@ is Document)) ==> forall|i: int|
            0 <= i < seq_view(r@).len() ==> !((#[trigger] seq_view(r@)[i]) is Document)
                && doc_free(seq_view(r@)[i]),
    decreases size(node@), 4int,
{
    let mut targets = expand_targets(node, indent);
    let ghost tv = seq_view(targets@);
    proof {
        lemma_seq_view(targets@);
    }
    let mut out: Vec<Html> = Vec::new();
    let ghost mut consumed: int = 0;
    while targets.len() > 0
        invariant
            engine.scopes() == old(engine).scopes(),
            0 <= consumed,
            consumed + targets@.len() == tv.len(),
            forall|i: int|
                0 <= i < targets@.len() ==> node_view(targets@[i]) == tv[consumed + i],
            is_template_node(node@) ==> forall|i: int|
                0 <= i < tv.len() ==> size(#[trigger] tv[i]) < size(node@),
            !is_template_node(node@) ==> tv.len() == 1 && size(tv[0]) == size(node@),
            (tame(node@) && root_core_free(node@)) ==> forall|i: int|
                0 <= i < tv.len() ==> tame(#[trigger] tv[i]) && root_core_free(tv[i]),
            (tame(node@) && root_core_free(node@)) ==> forall|i: int|
                0 <= i < seq_view(out@).len() ==> no_directives(#[trigger] seq_view(out@)[i]),
            (doc_free(node@) && !(node@ is Document)) ==> forall|i: int|
                0 <= i < tv.len() ==> !((#[trigger] tv[i]) is Document) && doc_free(tv[i]),
            (doc_free(node@) && !(node@ is Document)) ==> forall|i: int|
                0 <= i < seq_view(out@).len() ==> !((#[trigger] seq_view(out@)[i]) is Document)
                    && doc_free(seq_view(out@)[i]),
            seq_view(out@).len() == consumed,
        decreases targets@.len(),
    {
        let ghost t_old = targets@;
        let t = targets.remove(0);
        proof {
            assert(targets@ =~= t_old.subrange(1, t_old.len() as int));
            assert(node_view(t) == tv[consumed]);
        }
        let tr = traverse_node(t, engine);
        proof {
            lemma_seq_view_push(out@, tr);
            if tame(node@) && root_core_free(node@) {
                assert(tame(tv[consumed]) && root_core_free(tv[consumed]));
                assert(no_directives(tr@));
            }
            if doc_free(node@) && !(node@ is Document) {
                assert(!(tv[consumed] is Document) && doc_free(tv[consumed]));
                assert(!(tr@ is Document) && doc_free(tr@));
            }
        }
        out.push(tr);
        proof {
            consumed = consumed + 1;
        }
    }
    out
}

/// Runs the directive processor over one `v-for` iteration's targets
/// and appends what they produce to `result`, separated from earlier
/// output by the host's leading indent.
#[verifier::loop_isolation(false)]
#[verifier::rlimit(60)]
pub fn process_for_iteration(
    node: &Html,
    engine: &mut Engine,
    indent: &Option<Vec<char>>,
    result: &mut Vec<Html>,
)
    ensures
        final(engine).scopes() == old(engine).scopes(),
        ({
            let prev = seq_view(old(result)@);
            let now = seq_view(final(result)@);
            let sep = iter_sep(prev, opt_chars_view(*indent));
            &&& (now == prev || (now.len() > prev.len() + sep.len() && now == prev + sep
                + now.subrange((prev.len() + sep.len()) as int, now.len() as int)))
            &&& (!is_template_node(node@) ==> now.len() == prev.len() + sep.len() + 1 && now
                == prev + sep + seq![now.last()])
        }),
        (tame(node@) && root_core_free(node@) && (forall|i: int|
            0 <= i < seq_view(old(result)@).len() ==> no_directives(
                #[trigger] seq_view(old(result)@)[i],
            ))) ==> forall|i: int|
            0 <= i < seq_view(final(result)@).len() ==> no_directives(
                #[trigger] seq_view(final(result)@)[i],
            ),
        (doc_free(node@) && !(node@ is Document) && (forall|i: int|
            0 <= i < seq_view(old(result)@).len() ==> !((#[trigger] seq_view(old(result)@)[i])
                is Document) && doc_free(seq_view(old(result)@)[i]))) ==> forall|i: int|
            0 <= i < seq_view(final(result)@).len() ==> !((#[trigger] seq_view(
                final(result)@,
            )[i]) is Document) && doc_free(seq_view(final(result)@)[i]),
    decreases size(node@), 1int,
{
    let ghost hyp = tame(node@) && root_core_free(node@) && (forall|i: int|
        0 <= i < seq_view(old(result)@).len() ==> no_directives(
            #[trigger] seq_view(old(result)@)[i],
        ));
    let ghost dhyp = doc_free(node@) && !(node@ is Document) && (forall|i: int|
        0 <= i < seq_view(old(result)@).len() ==> !((#[trigger] seq_view(old(result)@)[i])
            is Document) && doc_free(seq_view(old(result)@)[i]));
    let mut targets = expand_targets(node, indent);
    if targets.len() == 0 {
        proof {
            assert(seq_view(targets@).len() == 0);
            assert(is_template_node(node@));
        }
        return ;
    }
    let mut iteration_nodes: Vec<Html> = Vec::new();
    let is_tmpl = match node {
        Html::Element { template: Some(_), .. } => true,
        _ => false,
    };
    if is_tmpl {
        let ghost tv = seq_view(targets@);
        let tcount = targets.len();
        proof {
            lemma_seq_view(targets@);
        }
        let mut t_idx: usize = 0;
        while targets.len() > 0
            invariant
                engine.scopes() == old(engine).scopes(),
                t_idx + targets@.len() == tcount,
                tv.len() == tcount,
                forall|i: int|
                    0 <= i < targets@.len() ==> node_view(targets@[i]) == tv[t_idx + i],
                forall|i: int| 0 <= i < tv.len() ==> size(#[trigger] tv[i]) < size(node@),
                hyp ==> forall|i: int|
                    0 <= i < tv.len() ==> tame(#[trigger] tv[i]) && root_core_free(tv[i]),
                hyp ==> forall|i: int|
                    0 <= i < seq_view(iteration_nodes@).len() ==> no_directives(
                        #[trigger] seq_view(iteration_nodes@)[i],
                    ),
                dhyp ==> forall|i: int|
                    0 <= i < tv.len() ==> !((#[trigger] tv[i]) is Document) && doc_free(tv[i]),
                dhyp ==> forall|i: int|
                    0 <= i < seq_view(iteration_nodes@).len() ==> !((#[trigger] seq_view(
                        iteration_nodes@,
                    )[i]) is Document) && doc_free(seq_view(iteration_nodes@)[i]),
            decreases targets@.len(),
        {
            let ghost t_old = targets@;
            let target = targets.remove(0);
            proof {
                assert(targets@ =~= t_old.subrange(1, t_old.len() as int));
                assert(node_view(target) == tv[t_idx as int]);
            }
            // Each target stands alone: it starts a chain of its own,
            // and, being detached, has no leading indent.
            let mut target_in_chain: bool = false;
            let mut target_chain_hit: bool = false;
            let no_indent: Option<Vec<char>> = None;
            let disp = process_directives(
                target,
                engine,
                &mut target_in_chain,
                &mut target_chain_hit,
                &no_indent,
            );
            match disp {
                Disposition::Replace(new_nodes) => {
                    let ghost nsv = seq_view(new_nodes@);
                    proof {
                        lemma_seq_view(new_nodes@);
                    }
                    let mut it2 = new_nodes;
                    proof {
                        if hyp {
                            assert(tame(tv[t_idx as int]));
                            assert forall|i: int|
                                0 <= i < it2@.len() implies no_directives(
                                node_view(#[trigger] it2@[i]),
                            ) by {
                                assert(nsv[i] == node_view(it2@[i]));
                                assert(no_directives(nsv[i]));
                            }
                        }
                        if dhyp {
                            assert(doc_free(tv[t_idx as int]) && !(tv[t_idx as int] is Document));
                            assert forall|i: int|
                                0 <= i < it2@.len() implies !(node_view(#[trigger] it2@[i])
                                is Document) && doc_free(node_view(it2@[i])) by {
                                assert(nsv[i] == node_view(it2@[i]));
                                assert(!(nsv[i] is Document) && doc_free(nsv[i]));
                            }
                        }
                    }
                    let icount = it2.len();
                    let mut idx: usize = 0;
                    while it2.len() > 0
                        invariant
                            engine.scopes() == old(engine).scopes(),
                            idx + it2@.len() == icount,
                            hyp ==> forall|i: int|
                                0 <= i < it2@.len() ==> no_directives(
                                    node_view(#[trigger] it2@[i]),
                                ),
                            hyp ==> forall|i: int|
                                0 <= i < seq_view(iteration_nodes@).len() ==> no_directives(
                                    #[trigger] seq_view(iteration_nodes@)[i],
                                ),
                            dhyp ==> forall|i: int|
                                0 <= i < it2@.len() ==> !(node_view(#[trigger] it2@[i])
                                    is Document) && doc_free(node_view(it2@[i])),
                            dhyp ==> forall|i: int|
                                0 <= i < seq_view(iteration_nodes@).len() ==> !((
                                #[trigger] seq_view(iteration_nodes@)[i]) is Document)
                                    && doc_free(seq_view(iteration_nodes@)[i]),
                        decreases it2@.len(),
                    {
                        let ghost i_old2 = it2@;
                        let nn = it2.remove(0);
                        proof {
                            assert(it2@ =~= i_old2.subrange(1, i_old2.len() as int));
                            if hyp {
                                assert(no_directives(node_view(i_old2[0])));
                            }
                        }
                        let sep_here = ((t_idx > 0 && idx == 0 && iteration_nodes.len() > 0)
                            || idx > 0) && !is_whitespace_text_node(&nn);
                        if sep_here {
                            match indent {
                                Some(ind) => {
                                    let tn = Html::Text { text: copy_chars(ind) };
                                    proof {
                                        lemma_seq_view_push(iteration_nodes@, tn);
                                    }
                                    iteration_nodes.push(tn);
                                },
                                None => {},
                            }
                        }
                        proof {
                            lemma_seq_view_push(iteration_nodes@, nn);
                        }
                        iteration_nodes.push(nn);
                        idx += 1;
                    }
                },
                Disposition::Keep(t2) => {
                    if t_idx > 0 && iteration_nodes.len() > 0 {
                        match indent {
                            Some(ind) => {
                                let tn = Html::Text { text: copy_chars(ind) };
                                proof {
                                    lemma_seq_view_push(iteration_nodes@, tn);
                                }
                                iteration_nodes.push(tn);
                            },
                            None => {},
                        }
                    }
                    let tr = traverse_node(t2, engine);
                    proof {
                        lemma_seq_view_push(iteration_nodes@, tr);
                        if hyp {
                            assert(no_directives(tr@));
                        }
                        if dhyp {
                            assert(!(tr@ is Document) && doc_free(tr@));
                        }
                    }
                    iteration_nodes.push(tr);
                },
            }
            t_idx += 1;
        }
    } else {
        let ghost tv = seq_view(targets@);
        let ghost t_old = targets@;
        proof {
            lemma_seq_view(targets@);
        }
        let target = targets.remove(0);
        proof {
            assert(node_view(target) == tv[0]);
            assert(size(node_view(target)) == size(node@));
            assert(node_view(target) == node@);
        }
        let tr = traverse_node(target, engine);
        proof {
            lemma_seq_view_push(iteration_nodes@, tr);
            if hyp {
                assert(no_directives(tr@));
            }
            if dhyp {
                assert(!(tr@ is Document) && doc_free(tr@));
            }
        }
        iteration_nodes.push(tr);
    }
    if iteration_nodes.len() > 0 {
        let ghost sep: Seq<HtmlV> = iter_sep(seq_view(result@), opt_chars_view(*indent));
        proof {
            lemma_seq_view(result@);
        }
        if result.len() > 0 {
            match indent {
                Some(ind) => {
                    let tn = Html::Text { text: copy_chars(ind) };
                    proof {
                        lemma_seq_view_push(result@, tn);
                    }
                    result.push(tn);
                },
                None => {},
            }
        }
        proof {
            assert(seq_view(result@) =~= seq_view(old(result)@) + sep);
        }
        let ghost block = seq_view(iteration_nodes@);
        let mut it3 = iteration_nodes;
        let ghost mid = seq_view(result@);
        let ghost mut consumed: int = 0;
        proof {
            lemma_seq_view(it3@);
        }
        while it3.len() > 0
            invariant
                0 <= consumed,
                consumed + it3@.len() == block.len(),
                seq_view(result@) == mid + block.subrange(0, consumed),
                forall|i: int|
                    0 <= i < it3@.len() ==> node_view(it3@[i]) == block[consumed + i],
                hyp ==> forall|i: int|
                    0 <= i < seq_view(result@).len() ==> no_directives(
                        #[trigger] seq_view(result@)[i],
                    ),
                hyp ==> forall|i: int| 0 <= i < block.len() ==> no_directives(#[trigger] block[i]),
                dhyp ==> forall|i: int|
                    0 <= i < seq_view(result@).len() ==> !((#[trigger] seq_view(result@)[i])
                        is Document) && doc_free(seq_view(result@)[i]),
                dhyp ==> forall|i: int|
                    0 <= i < block.len() ==> !((#[trigger] block[i]) is Document) && doc_free(
                        block[i],
                    ),
            decreases it3@.len(),
        {
            let ghost i_old = it3@;
            let n = it3.remove(0);
            proof {
                assert(it3@ =~= i_old.subrange(1, i_old.len() as int));
                assert(node_view(n) == block[consumed]);
                lemma_seq_view_push(result@, n);
            }
            result.push(n);
            proof {
                assert(seq_view(result@) =~= mid + block.subrange(0, consumed + 1));
                consumed = consumed + 1;
            }
        }
        proof {
            assert(block.subrange(0, block.len() as int) =~= block);
            assert(seq_view(result@) =~= seq_view(old(result)@) + sep + block);
            let prev = seq_view(old(result)@);
            let now = seq_view(result@);
            assert(block.len() > 0);
            assert(now.subrange((prev.len() + sep.len()) as int, now.len() as int) =~= block);
        }
    } else {
        proof {
            assert(seq_view(iteration_nodes@).len() == 0);
        }
    }
}

/// One iteration's effect on the output shape of a plain (non-template)
/// `v-for` host with a leading indent: the list stays alternating — an
/// expansion at every even position, the host's indent as a text node at
/// every odd position.
proof fn lemma_sep_structure_step(prev: Seq<HtmlV>, now: Seq<HtmlV>, ind: Seq<char>)
    requires
        prev.len() == 0 || prev.len() % 2 == 1,
        forall|i: int|
            0 <= i < prev.len() && i % 2 == 1 ==> prev[i] == (HtmlV::Text { text: ind }),
        now.len() == prev.len() + iter_sep(prev, Some(ind)).len() + 1,
        now == prev + iter_sep(prev, Some(ind)) + seq![now.last()],
    ensures
        now.len() % 2 == 1,
        forall|i: int|
            0 <= i < now.len() && i % 2 == 1 ==> now[i] == (HtmlV::Text { text: ind }),
{
    let sep = iter_sep(prev, Some(ind));
    assert forall|i: int| 0 <= i < now.len() && i % 2 == 1 implies now[i] == (HtmlV::Text {
        text: ind,
    }) by {
        if i < prev.len() {
            assert(now[i] == prev[i]);
        } else if i < prev.len() + sep.len() {
            assert(now[i] == sep[i - prev.len()]);
        }
    }
}

/// Runs the iterations of a `v-for` once its subject is classified:
/// an array iterates its integer-indexed keys in ascending order; any
/// other object iterates its own keys in insertion order; an integer N
/// iterates the values 1 through N; a string iterates its characters.
/// Every other kind — and an integer below one, or the empty string —
/// yields no iterations at all. Each iteration runs in a scope of its
/// own, entered and left exactly once.
#[verifier::loop_isolation(false)]
fn run_for_subject(
    node: &Html,
    engine: &mut Engine,
    f: &crate::syntax::ForExpr,
    subject: &boa_engine::JsValue,
    class: crate::js::JsClass,
    indent: &Option<Vec<char>>,
) -> (r: Vec<Html>)
    ensures
        final(engine).scopes() == old(engine).scopes(),
        (tame(node@) && root_core_free(node@)) ==> forall|i: int|
            0 <= i < seq_view(r@).len() ==> no_directives(#[trigger] seq_view(r@)[i]),
        (!is_template_node(node@) && indent is Some) ==> ({
            let rv = seq_view(r@);
            &&& (rv.len() == 0 || rv.len() % 2 == 1)
            &&& forall|i: int|
                0 <= i < rv.len() && i % 2 == 1 ==> rv[i] == (HtmlV::Text {
                    text: indent.unwrap()@,
                })
        }),
        (doc_free(node@) && !(node@ is Document)) ==> forall|i: int|
            0 <= i < seq_view(r@).len() ==> !((#[trigger] seq_view(r@)[i]) is Document)
                && doc_free(seq_view(r@)[i]),
        (class is Null || class is Undefined || class is Other) ==> seq_view(r@).len() == 0,
        (class is Int && class->Int_0 < 1) ==> seq_view(r@).len() == 0,
        (class is Str && class->Str_0@.len() == 0) ==> seq_view(r@).len() == 0,
    decreases size(node@), 2int,
{
    let mut result: Vec<Html> = Vec::new();
    match class {
        crate::js::JsClass::IsObject => {
            let keys = match crate::js::js_own_keys(&mut engine.context, &subject) {
                Err(()) => {
                    return result;
                },
                Ok(ks) => ks,
            };
            if crate::js::js_is_array(&subject) {
                // Array: its integer-indexed keys, ascending.
                let mut ki: usize = 0;
                while ki < keys.len()
                    invariant
                        engine.scopes() == old(engine).scopes(),
                        (tame(node@) && root_core_free(node@)) ==> forall|i: int|
                            0 <= i < seq_view(result@).len() ==> no_directives(
                                #[trigger] seq_view(result@)[i],
                            ),
                        (doc_free(node@) && !(node@ is Document)) ==> forall|i: int|
                            0 <= i < seq_view(result@).len() ==> !((#[trigger] seq_view(
                                result@,
                            )[i]) is Document) && doc_free(seq_view(result@)[i]),
                        (!is_template_node(node@) && indent is Some) ==> (
                            seq_view(result@).len() == 0 || seq_view(result@).len() % 2 == 1)
                            && (forall|i: int|
                            0 <= i < seq_view(result@).len() && i % 2 == 1 ==> seq_view(
                                result@,
                            )[i] == (HtmlV::Text { text: indent.unwrap()@ })),
                    decreases keys@.len() - ki,
                {
                    match crate::js::prop_key_index(&keys[ki]) {
                        None => {},
                        Some(index) => {
                            if engine.enter_scope().is_ok() {
                                let item = crate::js::js_get_key(
                                    &mut engine.context,
                                    &subject,
                                    &keys[ki],
                                );
                                engine.set_val(&f.val, item);
                                match &f.key {
                                    Some(kn) => {
                                        engine.set_val(kn, crate::js::js_from_u32(index));
                                    },
                                    None => {},
                                }
                                let ghost prev_rv = seq_view(result@);
                                process_for_iteration(node, engine, indent, &mut result);
                                proof {
                                    if !is_template_node(node@) && indent is Some {
                                        lemma_sep_structure_step(
                                            prev_rv,
                                            seq_view(result@),
                                            indent.unwrap()@,
                                        );
                                    }
                                }
                                engine.exit_scope();
                                proof {
                                    assert(engine.scopes() =~= old(engine).scopes());
                                }
                            }
                        },
                    }
                    ki += 1;
                }
            } else {
                // Object: every own key, in insertion order.
                let mut ki: usize = 0;
                while ki < keys.len()
                    invariant
                        engine.scopes() == old(engine).scopes(),
                        (tame(node@) && root_core_free(node@)) ==> forall|i: int|
                            0 <= i < seq_view(result@).len() ==> no_directives(
                                #[trigger] seq_view(result@)[i],
                            ),
                        (doc_free(node@) && !(node@ is Document)) ==> forall|i: int|
                            0 <= i < seq_view(result@).len() ==> !((#[trigger] seq_view(
                                result@,
                            )[i]) is Document) && doc_free(seq_view(result@)[i]),
                        (!is_template_node(node@) && indent is Some) ==> (
                            seq_view(result@).len() == 0 || seq_view(result@).len() % 2 == 1)
                            && (forall|i: int|
                            0 <= i < seq_view(result@).len() && i % 2 == 1 ==> seq_view(
                                result@,
                            )[i] == (HtmlV::Text { text: indent.unwrap()@ })),
                    decreases keys@.len() - ki,
                {
                    if engine.enter_scope().is_ok() {
                        let value = crate::js::js_get_key(
                            &mut engine.context,
                            &subject,
                            &keys[ki],
                        );
                        engine.set_val(&f.val, value);
                        match &f.key {
                            Some(kn) => {
                                engine.set_val(kn, crate::js::prop_key_value(&keys[ki]));
                            },
                            None => {},
                        }
                        match &f.idx {
                            Some(xn) => {
                                engine.set_val(
                                    xn,
                                    crate::js::js_from_i32(#[verifier::truncate] (ki as i32)),
                                );
                            },
                            None => {},
                        }
                        let ghost prev_rv = seq_view(result@);
                        process_for_iteration(node, engine, indent, &mut result);
                        proof {
                            if !is_template_node(node@) && indent is Some {
                                lemma_sep_structure_step(
                                    prev_rv,
                                    seq_view(result@),
                                    indent.unwrap()@,
                                );
                            }
                        }
                        engine.exit_scope();
                        proof {
                            assert(engine.scopes() =~= old(engine).scopes());
                        }
                    }
                    ki += 1;
                }
            }
        },
        crate::js::JsClass::Int(n) => {
            proof {
                assert(seq_view(result@).len() == 0);
            }
            // A number: the values 1 through N.
            if n >= 1 {
                let count: usize = n as usize;
                let mut idx: usize = 0;
                while idx < count
                    invariant
                        engine.scopes() == old(engine).scopes(),
                        count <= 0x8000_0000usize,
                        (tame(node@) && root_core_free(node@)) ==> forall|i: int|
                            0 <= i < seq_view(result@).len() ==> no_directives(
                                #[trigger] seq_view(result@)[i],
                            ),
                        (doc_free(node@) && !(node@ is Document)) ==> forall|i: int|
                            0 <= i < seq_view(result@).len() ==> !((#[trigger] seq_view(
                                result@,
                            )[i]) is Document) && doc_free(seq_view(result@)[i]),
                        (!is_template_node(node@) && indent is Some) ==> (
                            seq_view(result@).len() == 0 || seq_view(result@).len() % 2 == 1)
                            && (forall|i: int|
                            0 <= i < seq_view(result@).len() && i % 2 == 1 ==> seq_view(
                                result@,
                            )[i] == (HtmlV::Text { text: indent.unwrap()@ })),
                    decreases count - idx,
                {
                    if engine.enter_scope().is_ok() {
                        let num: i32 = #[verifier::truncate] ((idx + 1) as i32);
                        engine.set_val(&f.val, crate::js::js_from_i32(num));
                        match &f.key {
                            Some(kn) => {
                                engine.set_val(kn, crate::js::js_from_usize(idx));
                            },
                            None => {},
                        }
                        let ghost prev_rv = seq_view(result@);
                        process_for_iteration(node, engine, indent, &mut result);
                        proof {
                            if !is_template_node(node@) && indent is Some {
                                lemma_sep_structure_step(
                                    prev_rv,
                                    seq_view(result@),
                                    indent.unwrap()@,
                                );
                            }
                        }
                        engine.exit_scope();
                        proof {
                            assert(engine.scopes() =~= old(engine).scopes());
                        }
                    }
                    idx += 1;
                }
            }
        },
        crate::js::JsClass::Str(s) => {
            proof {
                assert(class->Str_0 == s);
                assert(seq_view(result@).len() == 0);
            }
            // A string: its characters, in order.
            let mut idx: usize = 0;
            while idx < s.len()
                invariant
                    engine.scopes() == old(engine).scopes(),
                    s@.len() == 0 ==> seq_view(result@).len() == 0,
                    (tame(node@) && root_core_free(node@)) ==> forall|i: int|
                        0 <= i < seq_view(result@).len() ==> no_directives(
                            #[trigger] seq_view(result@)[i],
                        ),
                    (doc_free(node@) && !(node@ is Document)) ==> forall|i: int|
                        0 <= i < seq_view(result@).len() ==> !((#[trigger] seq_view(
                            result@,
                        )[i]) is Document) && doc_free(seq_view(result@)[i]),
                        (!is_template_node(node@) && indent is Some) ==> (
                            seq_view(result@).len() == 0 || seq_view(result@).len() % 2 == 1)
                            && (forall|i: int|
                            0 <= i < seq_view(result@).len() && i % 2 == 1 ==> seq_view(
                                result@,
                            )[i] == (HtmlV::Text { text: indent.unwrap()@ })),
                decreases s@.len() - idx,
            {
                if engine.enter_scope().is_ok() {
                    engine.set_val(&f.val, crate::js::js_from_char(s[idx]));
                    match &f.key {
                        Some(kn) => {
                            engine.set_val(kn, crate::js::js_from_usize(idx));
                        },
                        None => {},
                    }
                    let ghost prev_rv = seq_view(result@);
                    process_for_iteration(node, engine, indent, &mut result);
                    proof {
                        if !is_template_node(node@) && indent is Some {
                            lemma_sep_structure_step(
                                prev_rv,
                                seq_view(result@),
                                indent.unwrap()@,
                            );
                        }
                    }
                    engine.exit_scope();
                    proof {
                        assert(engine.scopes() =~= old(engine).scopes());
                    }
                }
                idx += 1;
            }
        },
        _ => {},
    }
    result
}

/// Expands a `v-for` host: parses the expression, evaluates the
/// iteration subject, and runs one scoped iteration per element — an
/// array's indexed entries in ascending order, an object's fields in
/// insertion order, the numbers `1..=N`, or a string's characters. A
/// malformed expression, an evaluation failure, or any other subject
/// yields no nodes (the host is removed). Every entered scope is left
/// again, whatever the iteration does.
#[verifier::loop_isolation(false)]
fn process_for(node: &Html, engine: &mut Engine, expr: &Vec<char>, indent: &Option<Vec<char>>)
    -> (r: Vec<Html>)
    ensures
        final(engine).scopes() == old(engine).scopes(),
        (tame(node@) && root_core_free(node@)) ==> forall|i: int|
            0 <= i < seq_view(r@).len() ==> no_directives(#[trigger] seq_view(r@)[i]),
        (!is_template_node(node@) && indent is Some) ==> ({
            let rv = seq_view(r@);
            &&& (rv.len() == 0 || rv.len() % 2 == 1)
            &&& forall|i: int|
                0 <= i < rv.len() && i % 2 == 1 ==> rv[i] == (HtmlV::Text {
                    text: indent.unwrap()@,
                })
        }),
        crate::syntax::parse_for_spec(expr@) is None ==> seq_view(r@).len() == 0,
        (doc_free(node@) && !(node@ is Document)) ==> forall|i: int|
            0 <= i < seq_view(r@).len() ==> !((#[trigger] seq_view(r@)[i]) is Document)
                && doc_free(seq_view(r@)[i]),
    decreases size(node@), 3int,
{
    let f = match parse_for(expr) {
        None => {
            return Vec::new();
        },
        Some(f) => f,
    };
    // An iteration subject that opens with `{` is an object literal:
    // parenthesize it so that it parses as an expression.
    let iter_code = if f.iter.len() > 0 && f.iter[0] == '{' {
        let mut w: Vec<char> = Vec::new();
        w.push('(');
        push_range(&mut w, &f.iter, 0, f.iter.len());
        w.push(')');
        w
    } else {
        copy_chars(&f.iter)
    };
    let subject = match engine.eval(&iter_code) {
        Err(()) => {
            return Vec::new();
        },
        Ok(v) => v,
    };
    let class = crate::js::js_classify(&subject);
    run_for_subject(node, engine, &f, &subject, class, indent)
}


/// Decides one child's fate. The four chain and loop directives are
/// read (and removed) in the fixed order `v-if`, `v-else-if`, `v-else`,
/// `v-for`; the chain flags step exactly as [`chain_next`] says, a
/// branch that does not fire is replaced by nothing, and `v-if` on an
/// element beats `v-for` on the same element. A `v-else` or `v-else-if`
/// outside a chain keeps its element, as if the directive were absent.
#[verifier::loop_isolation(false)]
pub fn process_directives(
    node: Html,
    engine: &mut Engine,
    in_chain: &mut bool,
    chain_hit: &mut bool,
    indent: &Option<Vec<char>>,
) -> (r: Disposition)
    ensures
        final(engine).scopes() == old(engine).scopes(),
        exists|b: bool|
            {
                let st = #[trigger] chain_next(
                    chain_kind(node@),
                    *old(in_chain),
                    *old(chain_hit),
                    b,
                );
                &&& *final(in_chain) == st.0
                &&& *final(chain_hit) == st.1
                &&& (st.2 ==> r is Replace)
                &&& ((chain_kind(node@) is If && !st.2) ==> is_empty_replace(&r))
                &&& ((chain_kind(node@) is ElseIf && *old(in_chain) && !st.2) ==> is_empty_replace(
                    &r,
                ))
                &&& ((chain_kind(node@) is Else && *old(in_chain) && *old(chain_hit))
                    ==> is_empty_replace(&r))
                &&& ((st.2 && !is_template_node(node@)) ==> (match r {
                    Disposition::Replace(ns) => seq_view(ns@).len() == 1,
                    _ => false,
                }))
            },
        (chain_kind(node@) is NonElem || (chain_kind(node@) is ElseIf && !*old(in_chain)) || (
        chain_kind(node@) is Else && !*old(in_chain))) ==> r is Keep,
        chain_kind(node@) is NonElem ==> (match r {
            Disposition::Keep(m) => m@ == node@,
            _ => false,
        }),
        (chain_kind(node@) is Plain && !(match node@ {
            HtmlV::Element { attrs, .. } => has_local(attrs, "v-for"@),
            _ => false,
        })) ==> (match r {
            Disposition::Keep(m) => m@ == node@,
            _ => false,
        }),
        match r {
            Disposition::Keep(m) => size(m@) == size(node@),
            Disposition::Replace(_) => true,
        },
        clean(node@) ==> (match r {
            Disposition::Keep(m) => m@ == node@,
            _ => false,
        }),
        tame(node@) ==> (match r {
            Disposition::Keep(m) => tame(m@) && root_core_free(m@),
            Disposition::Replace(ns) => forall|i: int|
                0 <= i < seq_view(ns@).len() ==> no_directives(#[trigger] seq_view(ns@)[i]),
        }),
        (doc_free(node@) && !(node@ is Document)) ==> (match r {
            Disposition::Keep(m) => doc_free(m@) && !(m@ is Document),
            Disposition::Replace(ns) => forall|i: int|
                0 <= i < seq_view(ns@).len() ==> !((#[trigger] seq_view(ns@)[i]) is Document)
                    && doc_free(seq_view(ns@)[i]),
        }),
    decreases size(node@), 5int,
{
    match node {
        Html::Element { name, mut attrs, template, math_ip, children } => {
            let ghost nv = node_view(Html::Element {
                name: name,
                attrs: attrs,
                template: template,
                math_ip: math_ip,
                children: children,
            });
            let ghost a0 = attrs_view(attrs@);
            proof {
                assert(nv == node@);
            }
            let d_if = take_directive(&mut attrs, "v-if");
            let ghost a1 = attrs_view(attrs@);
            let d_elif = take_directive(&mut attrs, "v-else-if");
            let ghost a2 = attrs_view(attrs@);
            let d_else = take_directive(&mut attrs, "v-else");
            let ghost a3 = attrs_view(attrs@);
            let d_for = take_directive(&mut attrs, "v-for");
            let ghost a4 = attrs_view(attrs@);
            let node2 = Html::Element { name, attrs, template, math_ip, children };
            proof {
                assert(size(node2@) == size(node@));
                lemma_has_local_iff(a0, "v-if"@);
                if tame(node@) {
                    assert(step_ok(a0, a1, "v-if"@));
                    assert(step_ok(a1, a2, "v-else-if"@));
                    assert(step_ok(a2, a3, "v-else"@));
                    assert(step_ok(a3, a4, "v-for"@));
                    lemma_strip_four(a0, a1, a2, a3, a4);
                    assert(tame(node2@));
                    assert(root_core_free(node2@));
                }
                if doc_free(node@) {
                    assert(doc_free(node2@));
                    assert(!(node2@ is Document));
                }
            }
            match d_if {
                Some(expr) => {
                    proof {
                        assert(chain_kind(node@) is If);
                        if clean(node@) {
                            let j = choose|j: int|
                                0 <= j < a0.len() && #[trigger] a0[j].local == "v-if"@;
                            assert(!is_core_name(a0[j].local));
                        }
                    }
                    *in_chain = true;
                    let b = match engine.eval_bool(&expr) {
                        Some(x) => x,
                        None => false,
                    };
                    *chain_hit = b;
                    proof {
                        assert(chain_next(
                            chain_kind(node@),
                            *old(in_chain),
                            *old(chain_hit),
                            b,
                        ) == (true, b, b));
                    }
                    if b {
                        Disposition::Replace(render_targets(&node2, engine, indent))
                    } else {
                        Disposition::Replace(Vec::new())
                    }
                },
                None => {
                    proof {
                        assert(a1 == a0);
                        lemma_has_local_iff(a0, "v-else-if"@);
                    }
                    match d_elif {
                        Some(expr) => {
                            proof {
                                assert(chain_kind(node@) is ElseIf);
                                if clean(node@) {
                                    let j = choose|j: int|
                                        0 <= j < a0.len() && #[trigger] a0[j].local
                                            == "v-else-if"@;
                                    assert(!is_core_name(a0[j].local));
                                }
                            }
                            if !*in_chain {
                                proof {
                                    assert(chain_next(
                                        chain_kind(node@),
                                        *old(in_chain),
                                        *old(chain_hit),
                                        false,
                                    ) == (*old(in_chain), *old(chain_hit), false));
                                }
                                return Disposition::Keep(node2);
                            }
                            if *chain_hit {
                                proof {
                                    assert(chain_next(
                                        chain_kind(node@),
                                        *old(in_chain),
                                        *old(chain_hit),
                                        false,
                                    ) == (*old(in_chain), *old(chain_hit), false));
                                }
                                return Disposition::Replace(Vec::new());
                            }
                            let b = match engine.eval_bool(&expr) {
                                Some(x) => x,
                                None => false,
                            };
                            *chain_hit = b;
                            proof {
                                assert(chain_next(
                                    chain_kind(node@),
                                    *old(in_chain),
                                    *old(chain_hit),
                                    b,
                                ) == (*old(in_chain), b, b));
                            }
                            if b {
                                Disposition::Replace(render_targets(&node2, engine, indent))
                            } else {
                                Disposition::Replace(Vec::new())
                            }
                        },
                        None => {
                            proof {
                                assert(a2 == a0);
                                lemma_has_local_iff(a0, "v-else"@);
                            }
                            match d_else {
                                Some(_) => {
                                    proof {
                                        assert(chain_kind(node@) is Else);
                                        if clean(node@) {
                                            let j = choose|j: int|
                                                0 <= j < a0.len() && #[trigger] a0[j].local
                                                    == "v-else"@;
                                            assert(!is_core_name(a0[j].local));
                                        }
                                    }
                                    if !*in_chain {
                                        proof {
                                            assert(chain_next(
                                                chain_kind(node@),
                                                *old(in_chain),
                                                *old(chain_hit),
                                                false,
                                            ) == (*old(in_chain), *old(chain_hit), false));
                                        }
                                        return Disposition::Keep(node2);
                                    }
                                    *in_chain = false;
                                    proof {
                                        assert(chain_next(
                                            chain_kind(node@),
                                            *old(in_chain),
                                            *old(chain_hit),
                                            false,
                                        ) == (false, *old(chain_hit), false) || chain_next(
                                            chain_kind(node@),
                                            *old(in_chain),
                                            *old(chain_hit),
                                            false,
                                        ) == (false, true, true));
                                    }
                                    if *chain_hit {
                                        Disposition::Replace(Vec::new())
                                    } else {
                                        *chain_hit = true;
                                        Disposition::Replace(
                                            render_targets(&node2, engine, indent),
                                        )
                                    }
                                },
                                None => {
                                    proof {
                                        assert(chain_kind(node@) is Plain);
                                        assert(a3 == a0);
                                        lemma_has_local_iff(a0, "v-for"@);
                                        if clean(node@) && has_local(a0, "v-for"@) {
                                            let j = choose|j: int|
                                                0 <= j < a0.len() && #[trigger] a0[j].local
                                                    == "v-for"@;
                                            assert(!is_core_name(a0[j].local));
                                        }
                                    }
                                    *in_chain = false;
                                    proof {
                                        assert(chain_next(
                                            chain_kind(node@),
                                            *old(in_chain),
                                            *old(chain_hit),
                                            false,
                                        ) == (false, *old(chain_hit), false));
                                    }
                                    match d_for {
                                        Some(expr) => Disposition::Replace(
                                            process_for(&node2, engine, &expr, indent),
                                        ),
                                        None => {
                                            proof {
                                                assert(attrs_view(attrs@) == a0);
                                                assert(node2@ == node@);
                                            }
                                            Disposition::Keep(node2)
                                        },
                                    }
                                },
                            }
                        },
                    }
                },
            }
        },
        other => {
            proof {
                assert(chain_kind(node@) is NonElem);
                assert(chain_next(
                    chain_kind(node@),
                    *old(in_chain),
                    *old(chain_hit),
                    false,
                ) == (*old(in_chain), *old(chain_hit), false));
            }
            Disposition::Keep(other)
        },
    }
}

/// A name occurs among the attributes exactly when the search finds it.
proof fn lemma_has_local_iff(s: Seq<AttrV>, name: Seq<char>)
    ensures
        has_local(s, name) <==> find_local_from(s, name, 0) is Some,
{
    lemma_find_local_from(s, name, 0);
    match find_local_from(s, name, 0) {
        Some(j) => {
            assert(s[j].local == name);
        },
        None => {
            if has_local(s, name) {
                let i = choose|i: int| 0 <= i < s.len() && #[trigger] s[i].local == name;
                assert(s[i].local != name);
            }
        },
    }
}

/// Whether a disposition replaces its node by nothing.
pub open spec fn is_empty_replace(r: &Disposition) -> bool {
    match r {
        Disposition::Replace(ns) => ns@.len() == 0,
        _ => false,
    }
}

/// Walks one child list: strips `v-pre` hosts and leaves them alone,
/// threads the chain flags through the other children, renders kept
/// children in place and splices replacements where their hosts stood.
///
/// A child's directives are read before the child is hydrated: a branch
/// that does not fire, and a host that is removed, evaluate none of
/// their bindings, which keeps expression errors contained per
/// directive, and every rendered node is hydrated exactly once, at the
/// moment it is rendered. Hydrating first would instead evaluate the
/// bindings of discarded branches.
#[verifier::loop_isolation(false)]
pub fn process_children(children: Vec<Html>, engine: &mut Engine) -> (r: Vec<Html>)
    ensures
        final(engine).scopes() == old(engine).scopes(),
        clean_seq(seq_view(children@)) ==> seq_view(r@) == seq_view(children@),
        tame_seq(seq_view(children@)) ==> forall|i: int|
            0 <= i < seq_view(r@).len() ==> no_directives(#[trigger] seq_view(r@)[i]),
        doc_free_seq(seq_view(children@)) ==> doc_free_seq(seq_view(r@)),
        all_pre(seq_view(children@)) ==> seq_view(r@) == strip_all_pre(seq_view(children@)),
    decreases seq_size(seq_view(children@)), 6int,
{
    let mut out: Vec<Html> = Vec::new();
    let mut in_chain: bool = false;
    let mut chain_hit: bool = false;
    let ghost cv = seq_view(children@);
    let ghost total = seq_size(cv);
    let mut rest = children;
    while rest.len() > 0
        invariant
            engine.scopes() == old(engine).scopes(),
            seq_size(seq_view(rest@)) <= total,
            clean_seq(cv) ==> seq_view(out@) + seq_view(rest@) == cv,
            tame_seq(cv) ==> tame_seq(seq_view(rest@)),
            tame_seq(cv) ==> forall|i: int|
                0 <= i < seq_view(out@).len() ==> no_directives(#[trigger] seq_view(out@)[i]),
            doc_free_seq(cv) ==> doc_free_seq(seq_view(rest@)),
            doc_free_seq(cv) ==> forall|i: int|
                0 <= i < seq_view(out@).len() ==> !((#[trigger] seq_view(out@)[i]) is Document)
                    && doc_free(seq_view(out@)[i]),
            all_pre(cv) ==> seq_view(out@).len() + seq_view(rest@).len() == cv.len()
                && seq_view(rest@) == cv.subrange(
                cv.len() - seq_view(rest@).len(),
                cv.len() as int,
            ) && seq_view(out@) == strip_all_pre(cv).subrange(0, seq_view(out@).len() as int),
        decreases rest@.len(),
    {
        let ghost r_old = seq_view(rest@);
        let ghost out_old = seq_view(out@);
        proof {
            lemma_seq_view(rest@);
        }
        let child0 = rest.remove(0);
        proof {
            lemma_seq_view(rest@);
            assert(seq_view(rest@) =~= r_old.subrange(1, r_old.len() as int));
            assert(node_view(child0) == r_old[0]);
            assert(seq_size(r_old) == size(r_old[0]) + seq_size(
                r_old.subrange(1, r_old.len() as int),
            ));
            crate::dom::lemma_size_pos(node_view(child0));
            if doc_free_seq(cv) {
                assert(!(r_old[0] is Document) && doc_free(r_old[0]));
                assert(doc_free_seq(seq_view(rest@))) by {
                    assert(doc_free_seq(r_old));
                }
            }
            if all_pre(cv) {
                let k = cv.len() - r_old.len();
                assert(r_old[0] == cv[k]);
                assert(match node_view(child0) {
                    HtmlV::Element { attrs, .. } => has_local(attrs, "v-pre"@),
                    _ => false,
                });
                assert(seq_view(rest@) =~= cv.subrange(
                    cv.len() - seq_view(rest@).len(),
                    cv.len() as int,
                ));
            }
            if tame_seq(cv) {
                assert(tame(r_old[0]));
                assert(tame_seq(seq_view(rest@))) by {
                    assert(tame_seq(r_old));
                }
                assert(match node_view(child0) {
                    HtmlV::Element { attrs, .. } => !has_local(attrs, "v-pre"@),
                    _ => true,
                }) by {
                    match node_view(child0) {
                        HtmlV::Element { .. } => {},
                        _ => {},
                    }
                }
            }
            if clean_seq(cv) {
                lemma_clean_seq(cv);
                assert(cv[out_old.len() as int] == (out_old + r_old)[out_old.len() as int]);
                assert(clean(node_view(child0)));
                assert(match node_view(child0) {
                    HtmlV::Element { attrs, .. } => !has_local(attrs, "v-pre"@),
                    _ => true,
                }) by {
                    match node_view(child0) {
                        HtmlV::Element { attrs, .. } => {
                            if has_local(attrs, "v-pre"@) {
                                let j = choose|j: int|
                                    0 <= j < attrs.len() && #[trigger] attrs[j].local
                                        == "v-pre"@;
                                assert(!is_core_name(attrs[j].local));
                            }
                        },
                        _ => {},
                    }
                }
            }
        }
        let (is_pre, child) = strip_pre(child0);
        proof {
            match node_view(child0) {
                HtmlV::Element { attrs, .. } => {
                    lemma_has_local_iff(attrs, "v-pre"@);
                    if !has_local(attrs, "v-pre"@) {
                        assert(node_view(child) == node_view(child0));
                    }
                },
                _ => {
                    assert(node_view(child) == node_view(child0));
                },
            }
        }
        if is_pre {
            let ghost out_prev = seq_view(out@);
            proof {
                lemma_seq_view_push(out@, child);
                if tame_seq(cv) {
                    assert(false);
                }
                if doc_free_seq(cv) {
                    assert(!(node_view(child) is Document) && doc_free(node_view(child)));
                }
            }
            out.push(child);
            proof {
                if all_pre(cv) {
                    let k = cv.len() - r_old.len();
                    assert(node_view(child) == strip_pre_spec(cv[k]));
                    assert(strip_all_pre(cv)[k] == strip_pre_spec(cv[k]));
                    assert(seq_view(out@) =~= strip_all_pre(cv).subrange(
                        0,
                        seq_view(out@).len() as int,
                    ));
                }
            }
        } else {
            proof {
                if all_pre(cv) {
                    assert(false);
                }
            }
            let indent: Option<Vec<char>> = if out.len() > 0 {
                indent_after(&out[out.len() - 1])
            } else {
                None
            };
            let disp = process_directives(child, engine, &mut in_chain, &mut chain_hit, &indent);
            match disp {
                Disposition::Keep(m) => {
                    let tr = traverse_node(m, engine);
                    proof {
                        lemma_seq_view_push(out@, tr);
                        if tame_seq(cv) {
                            assert(no_directives(tr@));
                        }
                        if doc_free_seq(cv) {
                            assert(!(tr@ is Document) && doc_free(tr@));
                        }
                    }
                    out.push(tr);
                    proof {
                        if clean_seq(cv) {
                            assert(node_view(tr) == node_view(child0));
                            assert(seq_view(out@) + seq_view(rest@) =~= cv);
                        }
                    }
                },
                Disposition::Replace(ns) => {
                    proof {
                        if clean_seq(cv) {
                            assert(false);
                        }
                    }
                    let ghost outv = seq_view(out@);
                    let ghost nsv = seq_view(ns@);
                    splice(&mut out, ns);
                    proof {
                        if tame_seq(cv) {
                            if nsv.len() > 0 {
                                assert forall|i: int|
                                    0 <= i < seq_view(out@).len() implies no_directives(
                                    #[trigger] seq_view(out@)[i],
                                ) by {
                                    if i < outv.len() {
                                        assert(seq_view(out@)[i] == outv[i]);
                                    } else {
                                        assert(seq_view(out@)[i] == nsv[i - outv.len()]);
                                    }
                                }
                            } else {
                                lemma_splice_nd(outv);
                            }
                        }
                        if doc_free_seq(cv) {
                            if nsv.len() > 0 {
                                assert forall|i: int|
                                    0 <= i < seq_view(out@).len() implies !((#[trigger] seq_view(
                                    out@,
                                )[i]) is Document) && doc_free(seq_view(out@)[i]) by {
                                    if i < outv.len() {
                                        assert(seq_view(out@)[i] == outv[i]);
                                    } else {
                                        assert(seq_view(out@)[i] == nsv[i - outv.len()]);
                                    }
                                }
                            } else {
                                lemma_splice_docfree(outv);
                            }
                        }
                    }
                },
            }
        }
    }
    proof {
        if clean_seq(cv) {
            assert(seq_view(out@) =~= cv);
        }
        if doc_free_seq(cv) {
            lemma_doc_free_seq(seq_view(out@));
        }
        if all_pre(cv) {
            assert(seq_view(out@) =~= strip_all_pre(cv));
        }
    }
    out
}

/// Renders one node in place: hydrates it, then walks its child list —
/// for a `<template>` element, the template contents (which the
/// serializer leaves out; a plain template therefore serializes empty).
#[verifier::loop_isolation(false)]
pub fn traverse_node(node: Html, engine: &mut Engine) -> (r: Html)
    ensures
        final(engine).scopes() == old(engine).scopes(),
        clean(node@) ==> r@ == node@,
        (tame(node@) && root_core_free(node@)) ==> no_directives(r@),
        doc_free(node@) ==> doc_free(r@),
        !(node@ is Document) ==> !(r@ is Document),
    decreases size(node@), 0int,
{
    match node {
        Html::Element { name, attrs, template, math_ip, children } => {
            let ghost nv = node_view(Html::Element {
                name: name,
                attrs: attrs,
                template: template,
                math_ip: math_ip,
                children: children,
            });
            let ghost av = attrs_view(attrs@);
            proof {
                assert(nv == node@);
                if clean(nv) {
                    assert forall|i: int|
                        0 <= i < av.len() implies !crate::hydrate::is_bindish(
                        #[trigger] av[i],
                    ) by {
                        assert(!is_core_name(av[i].local));
                    }
                    assert(crate::hydrate::no_bind_attrs(av));
                }
                if tame(nv) {
                    assert(crate::hydrate::no_bind_attrs(av));
                }
            }
            let attrs2 = hydrate_attrs(attrs, engine);
            match template {
                Some(tc) => {
                    proof {
                        assert(seq_size(seq_view(tc@)) < size(nv));
                    }
                    let tc2 = process_children(tc, engine);
                    let r = Html::Element {
                        name,
                        attrs: attrs2,
                        template: Some(tc2),
                        math_ip,
                        children,
                    };
                    proof {
                        if clean(nv) {
                            assert(r@ == node@);
                        }
                        if tame(nv) && root_core_free(nv) {
                            lemma_nd_seq(seq_view(tc2@));
                            assert(seq_view(children@).len() == 0);
                            assert(no_directives(r@));
                        }
                        if doc_free(nv) {
                            assert(doc_free(r@));
                        }
                    }
                    r
                },
                None => {
                    proof {
                        assert(seq_size(seq_view(children@)) < size(nv));
                    }
                    let ch2 = process_children(children, engine);
                    let r = Html::Element {
                        name,
                        attrs: attrs2,
                        template: None,
                        math_ip,
                        children: ch2,
                    };
                    proof {
                        if clean(nv) {
                            assert(r@ == node@);
                        }
                        if tame(nv) && root_core_free(nv) {
                            lemma_nd_seq(seq_view(ch2@));
                            assert(no_directives(r@));
                        }
                        if doc_free(nv) {
                            assert(doc_free(r@));
                        }
                    }
                    r
                },
            }
        },
        Html::Text { text } => {
            let (t2, _vals) = hydrate_text(&text, engine);
            let r = Html::Text { text: t2 };
            proof {
                if clean(node@) {
                    assert(r@ == node@);
                }
            }
            r
        },
        Html::Document { children } => {
            proof {
                assert(seq_size(seq_view(children@)) < size(node_view(Html::Document {
                    children: children,
                })));
            }
            let ch2 = process_children(children, engine);
            let r = Html::Document { children: ch2 };
            proof {
                if tame(node@) {
                    lemma_nd_seq(seq_view(ch2@));
                    assert(no_directives(r@));
                }
                if doc_free(node@) {
                    assert(doc_free(r@));
                }
            }
            r
        },
        other => other,
    }
}

} // verus!
