//! The document tree that the directive engine works on. It is an owned
//! tree (children are held by value), so every node has exactly one parent
//! by construction; `<template>` elements carry their template contents in
//! a separate list, as the HTML parser produces them.
//!
//! Each type has a mathematical view (`QNameV`, `AttrV`, `HtmlV`) over
//! `Seq<char>` and `Seq<HtmlV>`, and the engine's contracts are stated over
//! those views.

use vstd::prelude::*;

verus! {

/// A qualified name: an optional prefix, a namespace url, and a local name.
pub struct QName {
    pub prefix: Option<Vec<char>>,
    pub ns: Vec<char>,
    pub local: Vec<char>,
}

/// An attribute: its qualified name and its value.
pub struct Attr {
    pub prefix: Option<Vec<char>>,
    pub ns: Vec<char>,
    pub local: Vec<char>,
    pub value: Vec<char>,
}

/// A node of the document tree.
#[allow(inconsistent_fields)]
pub enum Html {
    Document { children: Vec<Html> },
    Doctype { name: Vec<char>, public_id: Vec<char>, system_id: Vec<char> },
    Text { text: Vec<char> },
    Comment { text: Vec<char> },
    Element {
        name: QName,
        attrs: Vec<Attr>,
        /// The template contents, present exactly on `<template>` elements.
        template: Option<Vec<Html>>,
        /// Whether the element is a MathML annotation-xml integration point.
        math_ip: bool,
        children: Vec<Html>,
    },
    Instruction { target: Vec<char>, text: Vec<char> },
}

/// The view of a [`QName`].
pub struct QNameV {
    pub prefix: Option<Seq<char>>,
    pub ns: Seq<char>,
    pub local: Seq<char>,
}

/// The view of an [`Attr`].
pub struct AttrV {
    pub prefix: Option<Seq<char>>,
    pub ns: Seq<char>,
    pub local: Seq<char>,
    pub value: Seq<char>,
}

/// The view of an [`Html`] node.
#[allow(inconsistent_fields)]
pub enum HtmlV {
    Document { children: Seq<HtmlV> },
    Doctype { name: Seq<char>, public_id: Seq<char>, system_id: Seq<char> },
    Text { text: Seq<char> },
    Comment { text: Seq<char> },
    Element {
        name: QNameV,
        attrs: Seq<AttrV>,
        template: Option<Seq<HtmlV>>,
        math_ip: bool,
        children: Seq<HtmlV>,
    },
    Instruction { target: Seq<char>, text: Seq<char> },
}

impl View for QName {
    type V = QNameV;

    open spec fn view(&self) -> QNameV {
        QNameV {
            prefix: match self.prefix {
                Some(p) => Some(p@),
                None => None,
            },
            ns: self.ns@,
            local: self.local@,
        }
    }
}

impl View for Attr {
    type V = AttrV;

    open spec fn view(&self) -> AttrV {
        AttrV {
            prefix: match self.prefix {
                Some(p) => Some(p@),
                None => None,
            },
            ns: self.ns@,
            local: self.local@,
            value: self.value@,
        }
    }
}

/// The view of a list of nodes.
pub open spec fn seq_view(s: Seq<Html>) -> Seq<HtmlV>
    decreases s,
{
    if s.len() == 0 {
        Seq::empty()
    } else {
        seq_view(s.subrange(0, s.len() - 1)).push(node_view(s[s.len() - 1]))
    }
}

/// The view of a list of attributes.
pub open spec fn attrs_view(s: Seq<Attr>) -> Seq<AttrV> {
    s.map(|i: int, a: Attr| a@)
}

/// The view of one node.
pub open spec fn node_view(n: Html) -> HtmlV
    decreases n,
{
    match n {
        Html::Document { children } => HtmlV::Document { children: seq_view(children@) },
        Html::Doctype { name, public_id, system_id } => HtmlV::Doctype {
            name: name@,
            public_id: public_id@,
            system_id: system_id@,
        },
        Html::Text { text } => HtmlV::Text { text: text@ },
        Html::Comment { text } => HtmlV::Comment { text: text@ },
        Html::Element { name, attrs, template, math_ip, children } => HtmlV::Element {
            name: name@,
            attrs: attrs_view(attrs@),
            template: match template {
                Some(tc) => Some(seq_view(tc@)),
                None => None,
            },
            math_ip,
            children: seq_view(children@),
        },
        Html::Instruction { target, text } => HtmlV::Instruction { target: target@, text: text@ },
    }
}

impl View for Html {
    type V = HtmlV;

    open spec fn view(&self) -> HtmlV {
        node_view(*self)
    }
}

/// `seq_view` is the element-wise view.
pub proof fn lemma_seq_view(s: Seq<Html>)
    ensures
        seq_view(s).len() == s.len(),
        forall|i: int| 0 <= i < s.len() ==> seq_view(s)[i] == node_view(s[i]),
    decreases s,
{
    if s.len() > 0 {
        lemma_seq_view(s.subrange(0, s.len() - 1));
        assert(forall|i: int| 0 <= i < s.len() - 1 ==> s.subrange(0, s.len() - 1)[i] == s[i]);
    }
}

/// Viewing a list with one more node at the end.
pub proof fn lemma_seq_view_push(s: Seq<Html>, n: Html)
    ensures
        seq_view(s.push(n)) == seq_view(s).push(node_view(n)),
{
    let sp = s.push(n);
    assert(sp.subrange(0, sp.len() - 1) =~= s);
    assert(seq_view(sp) == seq_view(s).push(node_view(sp[sp.len() - 1])));
}

/// Viewing an attribute list with one more attribute at the end.
pub proof fn lemma_attrs_view_push(s: Seq<Attr>, a: Attr)
    ensures
        attrs_view(s.push(a)) == attrs_view(s).push(a@),
{
    assert forall|i: int| 0 <= i < s.len() + 1 implies attrs_view(s.push(a))[i] == attrs_view(
        s,
    ).push(a@)[i] by {
        if i < s.len() {
            assert(s.push(a)[i] == s[i]);
        } else {
            assert(s.push(a)[i] == a);
        }
    }
    assert(attrs_view(s.push(a)) =~= attrs_view(s).push(a@));
}

/// The number of nodes in a subtree, template contents included.
pub open spec fn size(n: HtmlV) -> nat
    decreases n,
{
    match n {
        HtmlV::Document { children } => 1 + seq_size(children),
        HtmlV::Element { template, children, .. } => 1 + seq_size(children) + match template {
            Some(tc) => seq_size(tc),
            None => 0,
        },
        _ => 1,
    }
}

/// The number of nodes in a list of subtrees.
pub open spec fn seq_size(s: Seq<HtmlV>) -> nat
    decreases s,
{
    if s.len() == 0 {
        0nat
    } else {
        size(s[0]) + seq_size(s.subrange(1, s.len() as int))
    }
}

/// Every subtree has at least one node.
pub proof fn lemma_size_pos(n: HtmlV)
    ensures
        size(n) >= 1,
{
}

/// Each element of a list contributes its full size.
pub proof fn lemma_seq_size_member(s: Seq<HtmlV>, i: int)
    requires
        0 <= i < s.len(),
    ensures
        size(s[i]) <= seq_size(s),
    decreases s,
{
    if i == 0 {
    } else {
        lemma_seq_size_member(s.subrange(1, s.len() as int), i - 1);
        assert(s.subrange(1, s.len() as int)[i - 1] == s[i]);
    }
}

/// A deep copy of a node: the copy has the same view as the original.
pub fn deep_copy(n: &Html) -> (r: Html)
    ensures
        r@ == n@,
    decreases n,
{
    match n {
        Html::Document { children } => Html::Document { children: deep_copy_vec(children) },
        Html::Doctype { name, public_id, system_id } => Html::Doctype {
            name: copy_chars(name),
            public_id: copy_chars(public_id),
            system_id: copy_chars(system_id),
        },
        Html::Text { text } => Html::Text { text: copy_chars(text) },
        Html::Comment { text } => Html::Comment { text: copy_chars(text) },
        Html::Element { name, attrs, template, math_ip, children } => {
            let r = Html::Element {
                name: copy_qname(name),
                attrs: copy_attrs(attrs),
                template: match template {
                    Some(tc) => Some(deep_copy_vec(tc)),
                    None => None,
                },
                math_ip: *math_ip,
                children: deep_copy_vec(children),
            };
            proof {
                assert(attrs_view(attrs@) =~= node_view(r)->Element_attrs);
            }
            r
        },
        Html::Instruction { target, text } => Html::Instruction {
            target: copy_chars(target),
            text: copy_chars(text),
        },
    }
}

/// A deep copy of a list of nodes.
pub fn deep_copy_vec(v: &Vec<Html>) -> (r: Vec<Html>)
    ensures
        seq_view(r@) == seq_view(v@),
        r@.len() == v@.len(),
    decreases v@,
{
    let mut r: Vec<Html> = Vec::new();
    let mut i: usize = 0;
    proof {
        lemma_seq_view(v@);
    }
    while i < v.len()
        invariant
            0 <= i <= v@.len(),
            r@.len() == i,
            seq_view(r@) == seq_view(v@.subrange(0, i as int)),
            seq_view(v@).len() == v@.len(),
            forall|j: int| 0 <= j < v@.len() ==> seq_view(v@)[j] == node_view(v@[j]),
        decreases v@.len() - i,
    {
        assert(decreases_to!(v@ => v@[i as int]));
        let c = deep_copy(&v[i]);
        proof {
            lemma_seq_view_push(r@, c);
            lemma_seq_view(v@.subrange(0, i + 1));
            lemma_seq_view(v@.subrange(0, i as int));
            assert(seq_view(r@).push(node_view(c)) =~= seq_view(v@.subrange(0, i + 1)));
        }
        r.push(c);
        i += 1;
    }
    proof {
        assert(v@.subrange(0, v@.len() as int) =~= v@);
    }
    r
}

/// A copy of a character list.
pub fn copy_chars(v: &Vec<char>) -> (r: Vec<char>)
    ensures
        r@ == v@,
{
    crate::text::copy_range(v, 0, v.len())
}

/// A copy of an optional character list.
pub fn copy_opt_chars(v: &Option<Vec<char>>) -> (r: Option<Vec<char>>)
    ensures
        match (r, v) {
            (Some(a), Some(b)) => a@ == b@,
            (None, None) => true,
            _ => false,
        },
{
    match v {
        Some(s) => Some(copy_chars(s)),
        None => None,
    }
}

/// A copy of a qualified name.
pub fn copy_qname(n: &QName) -> (r: QName)
    ensures
        r@ == n@,
{
    QName { prefix: copy_opt_chars(&n.prefix), ns: copy_chars(&n.ns), local: copy_chars(&n.local) }
}

/// A copy of an attribute.
pub fn copy_attr(a: &Attr) -> (r: Attr)
    ensures
        r@ == a@,
{
    Attr {
        prefix: copy_opt_chars(&a.prefix),
        ns: copy_chars(&a.ns),
        local: copy_chars(&a.local),
        value: copy_chars(&a.value),
    }
}

/// A copy of an attribute list.
pub fn copy_attrs(v: &Vec<Attr>) -> (r: Vec<Attr>)
    ensures
        attrs_view(r@) == attrs_view(v@),
        r@.len() == v@.len(),
{
    let mut r: Vec<Attr> = Vec::new();
    let mut i: usize = 0;
    while i < v.len()
        invariant
            0 <= i <= v@.len(),
            r@.len() == i,
            forall|j: int| 0 <= j < i ==> #[trigger] r@[j]@ == v@[j]@,
        decreases v@.len() - i,
    {
        r.push(copy_attr(&v[i]));
        i += 1;
    }
    proof {
        assert(attrs_view(r@) =~= attrs_view(v@));
    }
    r
}

/// The subtree with every text's indentation adjusted: inside a
/// `<template>` the contents are rewritten; elsewhere the children are.
pub open spec fn adjust_node_spec(n: HtmlV, adj: int) -> HtmlV
    decreases n,
{
    match n {
        HtmlV::Text { text } => HtmlV::Text { text: crate::text::adjust_indent_spec(text, adj) },
        HtmlV::Element { name, attrs, template: Some(tc), math_ip, children } => HtmlV::Element {
            name,
            attrs,
            template: Some(adjust_seq_spec(tc, adj)),
            math_ip,
            children,
        },
        HtmlV::Element { name, attrs, template: None, math_ip, children } => HtmlV::Element {
            name,
            attrs,
            template: None,
            math_ip,
            children: adjust_seq_spec(children, adj),
        },
        _ => n,
    }
}

/// The adjustment applied to each of a list of subtrees.
pub open spec fn adjust_seq_spec(s: Seq<HtmlV>, adj: int) -> Seq<HtmlV>
    decreases s,
{
    if s.len() == 0 {
        Seq::empty()
    } else {
        adjust_seq_spec(s.subrange(0, s.len() - 1), adj).push(adjust_node_spec(s[s.len() - 1], adj))
    }
}

/// The element-wise reading of [`adjust_seq_spec`].
pub proof fn lemma_adjust_seq(s: Seq<HtmlV>, adj: int)
    ensures
        adjust_seq_spec(s, adj).len() == s.len(),
        forall|i: int|
            0 <= i < s.len() ==> adjust_seq_spec(s, adj)[i] == adjust_node_spec(s[i], adj),
    decreases s,
{
    if s.len() > 0 {
        lemma_adjust_seq(s.subrange(0, s.len() - 1), adj);
        assert(forall|i: int| 0 <= i < s.len() - 1 ==> s.subrange(0, s.len() - 1)[i] == s[i]);
    }
}

/// Adjusting indentation does not change a subtree's node count.
pub proof fn lemma_adjust_size(n: HtmlV, adj: int)
    ensures
        size(adjust_node_spec(n, adj)) == size(n),
    decreases n,
{
    match n {
        HtmlV::Element { template: Some(tc), children, .. } => {
            lemma_adjust_seq_size(tc, adj);
        },
        HtmlV::Element { template: None, children, .. } => {
            lemma_adjust_seq_size(children, adj);
        },
        _ => {},
    }
}

/// Adjusting indentation does not change a list's node count.
pub proof fn lemma_adjust_seq_size(s: Seq<HtmlV>, adj: int)
    ensures
        seq_size(adjust_seq_spec(s, adj)) == seq_size(s),
    decreases s, 1int,
{
    if s.len() > 0 {
        lemma_adjust_seq(s, adj);
        let r = adjust_seq_spec(s, adj);
        assert(r[0] == adjust_node_spec(s[0], adj));
        lemma_adjust_size(s[0], adj);
        lemma_adjust_seq_size(s.subrange(1, s.len() as int), adj);
        assert(r.subrange(1, r.len() as int) =~= adjust_seq_spec(
            s.subrange(1, s.len() as int),
            adj,
        )) by {
            lemma_adjust_seq(s.subrange(1, s.len() as int), adj);
            assert(forall|i: int|
                0 <= i < s.len() - 1 ==> s.subrange(1, s.len() as int)[i] == s[i + 1]);
        }
    }
}

/// Runtime computation of [`adjust_node_spec`]: a copy of the subtree
/// with each text's lines re-indented.
pub fn adjust_subtree(n: &Html, add: bool, mag: usize) -> (r: Html)
    ensures
        r@ == adjust_node_spec(n@, crate::text::signed(add, mag as nat)),
    decreases n,
{
    match n {
        Html::Text { text } => Html::Text { text: crate::text::adjust_text_indent(text, add, mag) },
        Html::Element { name, attrs, template, math_ip, children } => {
            match template {
                Some(tc) => Html::Element {
                    name: copy_qname(name),
                    attrs: copy_attrs(attrs),
                    template: Some(adjust_subtree_vec(tc, add, mag)),
                    math_ip: *math_ip,
                    children: deep_copy_vec(children),
                },
                None => Html::Element {
                    name: copy_qname(name),
                    attrs: copy_attrs(attrs),
                    template: None,
                    math_ip: *math_ip,
                    children: adjust_subtree_vec(children, add, mag),
                },
            }
        },
        _ => deep_copy(n),
    }
}

/// [`adjust_subtree`] over a list of subtrees.
pub fn adjust_subtree_vec(v: &Vec<Html>, add: bool, mag: usize) -> (r: Vec<Html>)
    ensures
        seq_view(r@) == adjust_seq_spec(seq_view(v@), crate::text::signed(add, mag as nat)),
        r@.len() == v@.len(),
    decreases v@,
{
    let ghost adj = crate::text::signed(add, mag as nat);
    let mut r: Vec<Html> = Vec::new();
    let mut i: usize = 0;
    proof {
        lemma_seq_view(v@);
        lemma_adjust_seq(seq_view(v@), adj);
    }
    while i < v.len()
        invariant
            0 <= i <= v@.len(),
            r@.len() == i,
            adj == crate::text::signed(add, mag as nat),
            seq_view(r@) == adjust_seq_spec(seq_view(v@), adj).subrange(0, i as int),
            seq_view(v@).len() == v@.len(),
            adjust_seq_spec(seq_view(v@), adj).len() == v@.len(),
            forall|j: int| 0 <= j < v@.len() ==> seq_view(v@)[j] == node_view(v@[j]),
            forall|j: int|
                0 <= j < v@.len() ==> adjust_seq_spec(seq_view(v@), adj)[j] == adjust_node_spec(
                    seq_view(v@)[j],
                    adj,
                ),
        decreases v@.len() - i,
    {
        assert(decreases_to!(v@ => v@[i as int]));
        let c = adjust_subtree(&v[i], add, mag);
        proof {
            lemma_seq_view_push(r@, c);
            assert(seq_view(r@).push(node_view(c)) =~= adjust_seq_spec(seq_view(v@), adj)
                .subrange(0, i + 1));
        }
        r.push(c);
        i += 1;
    }
    proof {
        assert(adjust_seq_spec(seq_view(v@), adj).subrange(0, v@.len() as int)
            =~= adjust_seq_spec(seq_view(v@), adj));
    }
    r
}

/// The leading-indent text that a node provides to the sibling after
/// it: from the last line break of a text node to its end, every
/// character mapped to a space (the break itself kept).
pub open spec fn indent_of_node(n: HtmlV) -> Option<Seq<char>> {
    match n {
        HtmlV::Text { text } => match crate::text::rfind(text, '\n') {
            Some(i) => Some(
                Seq::new((text.len() - i) as nat, |j: int| if text[i + j] == '\n' {
                    '\n'
                } else {
                    ' '
                }),
            ),
            None => None,
        },
        _ => None,
    }
}

/// Runtime computation of [`indent_of_node`].
pub fn indent_after(n: &Html) -> (r: Option<Vec<char>>)
    ensures
        match (r, indent_of_node(n@)) {
            (Some(a), Some(b)) => a@ == b,
            (None, None) => true,
            _ => false,
        },
{
    match n {
        Html::Text { text } => match crate::text::rfind_char(text, '\n') {
            Some(i) => {
                proof {
                    crate::text::lemma_rfind_props(text@, '\n');
                }
                let mut out: Vec<char> = Vec::new();
                let mut j: usize = i;
                while j < text.len()
                    invariant
                        i <= j <= text@.len(),
                        i < text@.len(),
                        out@.len() == j - i,
                        forall|k: int|
                            0 <= k < j - i ==> out@[k] == (if text@[i + k] == '\n' {
                                '\n'
                            } else {
                                ' '
                            }),
                    decreases text@.len() - j,
                {
                    if text[j] == '\n' {
                        out.push('\n');
                    } else {
                        out.push(' ');
                    }
                    j += 1;
                }
                proof {
                    assert(out@ =~= indent_of_node(n@).unwrap());
                }
                Some(out)
            },
            None => None,
        },
        _ => None,
    }
}

/// The number of space characters in `s`.
pub open spec fn space_count(s: Seq<char>) -> int
    decreases s.len(),
{
    if s.len() == 0 {
        0
    } else {
        (if s[0] == ' ' {
            1int
        } else {
            0int
        }) + space_count(s.drop_first())
    }
}

/// Runtime computation of [`space_count`].
pub fn count_spaces(s: &Vec<char>) -> (r: usize)
    ensures
        r == space_count(s@),
{
    proof {
        lemma_space_count_bounds(s@);
        assert(s@.subrange(0, s@.len() as int) =~= s@);
        lemma_space_count_bounds(s@.subrange(0, s@.len() as int));
    }
    let mut r: usize = 0;
    let mut i: usize = 0;
    while i < s.len()
        invariant
            0 <= i <= s@.len(),
            0 <= r <= i,
            r == space_count(s@) - space_count(s@.subrange(i as int, s@.len() as int)),
            space_count(s@.subrange(i as int, s@.len() as int)) <= s@.len() - i,
            0 <= space_count(s@.subrange(i as int, s@.len() as int)),
        decreases s@.len() - i,
    {
        let ghost tail = s@.subrange(i as int, s@.len() as int);
        proof {
            assert(tail[0] == s@[i as int]);
            assert(tail.drop_first() =~= s@.subrange(i + 1, s@.len() as int));
            lemma_space_count_bounds(s@.subrange(i + 1, s@.len() as int));
        }
        if s[i] == ' ' {
            r += 1;
        }
        i += 1;
    }
    proof {
        assert(s@.subrange(s@.len() as int, s@.len() as int) =~= Seq::<char>::empty());
        assert(s@.subrange(0, s@.len() as int) =~= s@);
    }
    r
}

/// A space count is at most the text's length, and never negative.
proof fn lemma_space_count_bounds(s: Seq<char>)
    ensures
        0 <= space_count(s) <= s.len(),
    decreases s.len(),
{
    if s.len() > 0 {
        lemma_space_count_bounds(s.drop_first());
    }
}

/// Whether no document node stands strictly inside the subtree — in a
/// child list or in template contents, at any depth. The HTML parser
/// produces document nodes only at the root, and the serializer refuses
/// one anywhere below it.
pub open spec fn doc_free(n: HtmlV) -> bool
    decreases n,
{
    match n {
        HtmlV::Document { children } => doc_free_seq(children),
        HtmlV::Element { template, children, .. } => (match template {
            Some(tc) => doc_free_seq(tc),
            None => true,
        }) && doc_free_seq(children),
        _ => true,
    }
}

/// [`doc_free`] over a list of subtrees, none of which may itself be a
/// document node.
pub open spec fn doc_free_seq(s: Seq<HtmlV>) -> bool
    decreases s,
{
    if s.len() == 0 {
        true
    } else {
        !(s[0] is Document) && doc_free(s[0]) && doc_free_seq(s.subrange(1, s.len() as int))
    }
}

/// The element-wise reading of [`doc_free_seq`].
pub proof fn lemma_doc_free_seq(s: Seq<HtmlV>)
    ensures
        doc_free_seq(s) <==> (forall|i: int|
            0 <= i < s.len() ==> !((#[trigger] s[i]) is Document) && doc_free(s[i])),
    decreases s,
{
    if s.len() > 0 {
        let rest = s.subrange(1, s.len() as int);
        lemma_doc_free_seq(rest);
        assert(forall|i: int| 0 <= i < rest.len() ==> rest[i] == s[i + 1]);
        if doc_free_seq(s) {
            assert forall|i: int| 0 <= i < s.len() implies !((#[trigger] s[i]) is Document)
                && doc_free(s[i]) by {
                if i > 0 {
                    assert(!(rest[i - 1] is Document) && doc_free(rest[i - 1]));
                }
            }
        }
        if forall|i: int|
            0 <= i < s.len() ==> !((#[trigger] s[i]) is Document) && doc_free(s[i]) {
            assert(!(s[0] is Document) && doc_free(s[0]));
            assert(forall|i: int|
                0 <= i < rest.len() ==> !((#[trigger] rest[i]) is Document) && doc_free(
                    rest[i],
                ));
        }
    }
}

/// Whether a node is a text node consisting entirely of whitespace.
pub open spec fn is_ws_text(n: HtmlV) -> bool {
    match n {
        HtmlV::Text { text } => crate::text::all_ws(text),
        _ => false,
    }
}

/// Runtime test for [`is_ws_text`].
pub fn is_whitespace_text_node(n: &Html) -> (b: bool)
    ensures
        b == is_ws_text(n@),
{
    match n {
        Html::Text { text } => crate::text::all_ws_chars(text),
        _ => false,
    }
}

} // verus!
