//! The boundary to the HTML parser and serializer (the `html5ever` and
//! `markup5ever_rcdom` crates). Parsing and serializing are collaborators
//! here: the parse of a text and the serialization of a tree are named,
//! deterministic functions of their inputs, and nothing more is assumed
//! of them.

use std::cell::RefCell;
use std::rc::Rc;

use html5ever::tendril::TendrilSink;
use html5ever::{Attribute, QualName};
use markup5ever_rcdom::{Node, NodeData, RcDom, SerializableHandle};

use vstd::prelude::*;

use crate::dom::{Attr, Html, HtmlV, QName, doc_free};

verus! {

#[verifier::external_type_specification]
#[verifier::external_body]
pub struct ExNode(Node);

#[verifier::external_type_specification]
#[verifier::external_body]
pub struct ExNodeData(NodeData);

#[verifier::external_type_specification]
#[verifier::external_body]
pub struct ExQualName(QualName);

#[verifier::external_type_specification]
#[verifier::external_body]
pub struct ExAttribute(Attribute);

/// The tree that the HTML parser produces for a text, when it produces
/// one.
pub uninterp spec fn parsed_doc(s: Seq<char>) -> Option<HtmlV>;

/// The text that the HTML serializer produces for a tree, when it
/// produces one.
pub uninterp spec fn serialized_doc(d: HtmlV) -> Option<Seq<char>>;

/// Relies on `markup5ever_rcdom::Node`: reads a node's children.
#[verifier::external_body]
fn dom_kids(h: &Rc<Node>) -> Vec<Html> {
    h.children.borrow().iter().map(dom_to_html).collect()
}

/// Relies on `html5ever::QualName`: moves its parts into the library's
/// name type.
#[verifier::external_body]
fn qual_to_name(q: &QualName) -> QName {
    QName {
        prefix: q.prefix.as_ref().map(|p| p.chars().collect()),
        ns: q.ns.chars().collect(),
        local: q.local.chars().collect(),
    }
}

/// Relies on `html5ever::Attribute`: moves its name and value into the
/// library's attribute type.
#[verifier::external_body]
fn attr_from(a: &Attribute) -> Attr {
    Attr {
        prefix: a.name.prefix.as_ref().map(|p| p.chars().collect()),
        ns: a.name.ns.chars().collect(),
        local: a.name.local.chars().collect(),
        value: a.value.chars().collect(),
    }
}

/// Relies on `markup5ever_rcdom::NodeData::Element`: moves an element's
/// fields into the library's tree.
#[verifier::external_body]
fn dom_elem(h: &Rc<Node>) -> Html {
    match &h.data {
        NodeData::Element { name, attrs, template_contents, mathml_annotation_xml_integration_point } => Html::Element {
            name: qual_to_name(name),
            attrs: attrs.borrow().iter().map(attr_from).collect(),
            template: template_contents.borrow().as_ref().map(dom_kids),
            math_ip: *mathml_annotation_xml_integration_point,
            children: dom_kids(h),
        },
        _ => Html::Document { children: Vec::new() },
    }
}

/// Relies on `markup5ever_rcdom::NodeData`: tells the node kinds apart,
/// moving each one's fields into the library's tree.
#[verifier::external_body]
fn dom_to_html(h: &Rc<Node>) -> Html {
    match &h.data {
        NodeData::Document => Html::Document { children: dom_kids(h) },
        NodeData::Doctype { name, public_id, system_id } => Html::Doctype {
            name: name.chars().collect(),
            public_id: public_id.chars().collect(),
            system_id: system_id.chars().collect(),
        },
        NodeData::Text { contents } => Html::Text { text: contents.borrow().chars().collect() },
        NodeData::Comment { contents } => Html::Comment { text: contents.chars().collect() },
        NodeData::Element { .. } => dom_elem(h),
        NodeData::ProcessingInstruction { target, contents } => Html::Instruction {
            target: target.chars().collect(),
            text: contents.chars().collect(),
        },
    }
}

/// Relies on `html5ever::parse_document` (full-document mode, default
/// options): parses the text into a tree. The parse is a function of
/// the text alone, and the tree builder places document nodes only at
/// the root (template contents arrive here as a plain list), so the
/// result holds no document node below its root.
#[verifier::external_body]
pub fn parse_document_chars(html: &Vec<char>) -> (r: Result<Html, ()>)
    ensures
        match r {
            Ok(d) => parsed_doc(html@) == Some(d@) && doc_free(d@),
            Err(()) => parsed_doc(html@) is None,
        },
{
    let s: String = html.iter().collect();
    let dom: RcDom = html5ever::parse_document(RcDom::default(), Default::default())
        .from_utf8()
        .read_from(&mut s.as_bytes())
        .map_err(|_| ())?;
    Ok(dom_to_html(&dom.document))
}

/// Relies on `html5ever::QualName::new`: builds a qualified name from
/// the library's name type.
#[verifier::external_body]
fn name_to_qual(q: &QName) -> QualName {
    let prefix = q.prefix.as_ref().map(|p| html5ever::Prefix::from(string_of_chars(p).as_str()));
    let ns = html5ever::Namespace::from(string_of_chars(&q.ns).as_str());
    let local = html5ever::LocalName::from(string_of_chars(&q.local).as_str());
    QualName::new(prefix, ns, local)
}

/// Relies on `html5ever::Attribute`: builds an attribute from the
/// library's attribute type.
#[verifier::external_body]
fn attr_to(a: &Attr) -> Attribute {
    let prefix = a.prefix.as_ref().map(|p| html5ever::Prefix::from(string_of_chars(p).as_str()));
    let ns = html5ever::Namespace::from(string_of_chars(&a.ns).as_str());
    let local = html5ever::LocalName::from(string_of_chars(&a.local).as_str());
    Attribute { name: QualName::new(prefix, ns, local), value: string_of_chars(&a.value).as_str().into() }
}

/// Relies on `markup5ever_rcdom::Node::new`: builds a node and hangs
/// the given children under it.
#[verifier::external_body]
fn build_node(data: NodeData, kids: Vec<Rc<Node>>) -> Rc<Node> {
    let n = Node::new(data);
    *n.children.borrow_mut() = kids;
    n
}

/// Relies on `markup5ever_rcdom::NodeData::Doctype`: rebuilds a doctype
/// node, moving fields one for one.
#[verifier::external_body]
fn doctype_to_dom(n: &Html) -> Rc<Node> {
    match n {
        Html::Doctype { name, public_id, system_id } => build_node(NodeData::Doctype { name: string_of_chars(name).as_str().into(), public_id: string_of_chars(public_id).as_str().into(), system_id: string_of_chars(system_id).as_str().into() }, Vec::new()),
        _ => Node::new(NodeData::Document),
    }
}

/// Relies on `markup5ever_rcdom::NodeData`: rebuilds each node kind
/// from the library's tree, moving fields one for one.
#[verifier::external_body]
fn html_to_dom(n: &Html) -> Rc<Node> {
    match n {
        Html::Document { children } => build_node(NodeData::Document, children.iter().map(html_to_dom).collect()),
        Html::Doctype { .. } => doctype_to_dom(n),
        Html::Text { text } => build_node(NodeData::Text { contents: RefCell::new(string_of_chars(text).as_str().into()) }, Vec::new()),
        Html::Comment { text } => build_node(NodeData::Comment { contents: string_of_chars(text).as_str().into() }, Vec::new()),
        Html::Element { .. } => elem_to_dom(n),
        Html::Instruction { target, text } => build_node(NodeData::ProcessingInstruction { target: string_of_chars(target).as_str().into(), contents: string_of_chars(text).as_str().into() }, Vec::new()),
    }
}

/// Relies on `markup5ever_rcdom::Node::new`: rebuilds the document
/// fragment that holds a template's contents.
#[verifier::external_body]
fn template_to_dom(template: &Option<Vec<Html>>) -> Option<Rc<Node>> {
    template.as_ref().map(|tc| build_node(NodeData::Document, tc.iter().map(html_to_dom).collect()))
}

/// Relies on `markup5ever_rcdom::NodeData::Element`: rebuilds an
/// element, its attributes, and its template contents.
#[verifier::external_body]
fn elem_to_dom(n: &Html) -> Rc<Node> {
    match n {
        Html::Element { name, attrs, template, math_ip, children } => build_node(
            NodeData::Element {
                name: name_to_qual(name),
                attrs: RefCell::new(attrs.iter().map(attr_to).collect()),
                template_contents: RefCell::new(template_to_dom(template)),
                mathml_annotation_xml_integration_point: *math_ip,
            },
            children.iter().map(html_to_dom).collect(),
        ),
        _ => Node::new(NodeData::Document),
    }
}

/// Relies on `html5ever::serialize` (default options: the document's
/// children, template contents left out): serializes the tree back to
/// text. The serialization is a function of the tree alone. A document
/// node below the root is refused outright by the serializer, so such
/// trees are excluded; with them excluded it takes no failing path —
/// it writes into a byte vector, which cannot fail, and emits UTF-8.
#[verifier::external_body]
pub fn serialize_document(doc: &Html) -> (r: Result<Vec<char>, ()>)
    requires
        doc_free(doc@),
    ensures
        r is Ok,
        serialized_doc(doc@) == Some(r.unwrap()@),
{
    let root = html_to_dom(doc);
    let mut buf: Vec<u8> = Vec::new();
    html5ever::serialize(&mut buf, &SerializableHandle::from(root), Default::default())
        .map_err(|_| ())?;
    String::from_utf8(buf).map(|s| s.chars().collect()).map_err(|_| ())
}

/// Relies on the `FromIterator` collection of `String` from characters.
#[verifier::external_body]
pub fn string_of_chars(v: &Vec<char>) -> (r: String)
    ensures
        r@ == v@,
{
    v.iter().collect()
}

} // verus!
