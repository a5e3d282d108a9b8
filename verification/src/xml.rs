//! XML documents as plain trees: elements with their namespace, local name,
//! attributes and children, and text.  Documents are read with
//! `sxd_document`; the tree is built node by node in verified code.
use crate::text::push_str;
use sxd_document::dom::{ChildOfElement, ChildOfRoot, Element};
use sxd_document::Package;
use vstd::prelude::*;

verus! {

#[verifier::external_type_specification]
#[verifier::external_body]
pub struct ExPackage(sxd_document::Package);

#[verifier::external_type_specification]
#[verifier::external_body]
pub struct ExElement<'d>(sxd_document::dom::Element<'d>);

/// A node of an XML tree.  An element keeps its namespace URI (if any), its
/// local name, its attributes that have no namespace (name and value, in
/// document order) and its element and text children in document order;
/// comments and processing instructions are left out.
#[derive(Debug)]
pub enum XmlNode {
    Element {
        ns: Option<String>,
        name: String,
        attrs: Vec<(String, String)>,
        children: Vec<XmlNode>,
    },
    Text(String),
}

/// A child of an element as handed out by the document: an element still to
/// be read, a text, or something that carries no content.
pub enum XmlChild<'d> {
    Element(Element<'d>),
    Text(String),
    Other,
}

/// The message `sxd_document::parser::parse` gives for `text`, where it
/// refuses it; `None` where it reads it.
pub uninterp spec fn xml_parse_error(text: Seq<char>) -> Option<Seq<char>>;

/// Reads `text` with `sxd_document::parser::parse`.  Claimed: the call fails
/// exactly where `xml_parse_error` names a message, and then gives that
/// message (the error's `Display`).  What the document holds is not stated.
#[verifier::external_body]
fn parse_package(text: &str) -> (r: Result<Package, String>)
    ensures
        match r {
            Ok(_) => xml_parse_error(text@) is None,
            Err(m) => xml_parse_error(text@) == Some(m@),
        },
{
    match sxd_document::parser::parse(text) {
        Ok(p) => Ok(p),
        Err(e) => Err(e.to_string()),
    }
}

/// The number of children of the document's root (`Root::children`).
/// Nothing is claimed of it.
#[verifier::external_body]
fn root_child_count(p: &Package) -> usize {
    p.as_document().root().children().len()
}

/// The `i`-th child of the document's root where it is an element
/// (`Root::children`); `None` for another child or past the end.  Nothing is
/// claimed of which element it is.
#[verifier::external_body]
fn root_child<'a>(p: &'a Package, i: usize) -> Option<Element<'a>> {
    match p.as_document().root().children().get(i) {
        Some(ChildOfRoot::Element(e)) => Some(*e),
        Some(ChildOfRoot::Comment(_)) => None,
        Some(ChildOfRoot::ProcessingInstruction(_)) => None,
        None => None,
    }
}

/// The namespace URI and local part of an element's name
/// (`Element::name`).  Nothing is claimed of them.
#[verifier::external_body]
fn element_name<'d>(e: &Element<'d>) -> (Option<String>, String) {
    let q = e.name();
    (q.namespace_uri().map(|u| u.to_string()), q.local_part().to_string())
}

/// The number of attributes of an element (`Element::attributes`).
/// Nothing is claimed of it.
#[verifier::external_body]
fn attribute_count<'d>(e: &Element<'d>) -> usize {
    e.attributes().len()
}

/// The `i`-th attribute of an element (`Element::attributes`): its
/// namespace URI, local name and value; `None` past the end.  Nothing is
/// claimed of them.
#[verifier::external_body]
fn attribute_at<'d>(e: &Element<'d>, i: usize) -> Option<(Option<String>, String, String)> {
    e.attributes().get(i).map(
        |a| (a.name().namespace_uri().map(|u| u.to_string()), a.name().local_part().to_string(), a.value().to_string()),
    )
}

/// The number of children of an element (`Element::children`).  Nothing is
/// claimed of it.
#[verifier::external_body]
fn child_count<'d>(e: &Element<'d>) -> usize {
    e.children().len()
}

/// The `i`-th child of an element (`Element::children`), with a text child
/// given as its text; `None` past the end.  Nothing is claimed of it.
#[verifier::external_body]
fn child_at<'d>(e: &Element<'d>, i: usize) -> Option<XmlChild<'d>> {
    match e.children().get(i) {
        Some(ChildOfElement::Element(x)) => Some(XmlChild::Element(*x)),
        Some(ChildOfElement::Text(t)) => Some(XmlChild::Text(t.text().to_string())),
        Some(ChildOfElement::Comment(_)) => Some(XmlChild::Other),
        Some(ChildOfElement::ProcessingInstruction(_)) => Some(XmlChild::Other),
        None => None,
    }
}

/// What `str::trim` leaves of a text: the text without its leading and
/// trailing white space (as `char::is_whitespace` defines it).
pub uninterp spec fn trimmed(s: Seq<char>) -> Seq<char>;

/// Trims a text with `str::trim`; the result is named `trimmed` of the
/// characters of `s`, and nothing more is claimed.
#[verifier::external_body]
pub(crate) fn trim_text(s: &str) -> (r: String)
    ensures
        r@ == trimmed(s@),
{
    s.trim().to_string()
}

/// How deep an element may nest below the document element.
pub const MAX_DEPTH: usize = usize::MAX;

/// Reads one element and everything below it into a tree; `None` where the
/// nesting goes deeper than `depth`.
fn element_tree<'d>(e: &Element<'d>, depth: usize) -> (r: Option<XmlNode>)
    ensures
        r matches Some(t) ==> t is Element,
    decreases depth,
{
    if depth == 0 {
        return None;
    }
    let (ns, name) = element_name(e);
    let mut attrs: Vec<(String, String)> = Vec::new();
    let na = attribute_count(e);
    let mut i: usize = 0;
    while i < na
        decreases na - i,
    {
        match attribute_at(e, i) {
            Some((None, key, value)) => attrs.push((key, value)),
            _ => {},
        }
        i = i + 1;
    }
    let mut children: Vec<XmlNode> = Vec::new();
    let nc = child_count(e);
    let mut j: usize = 0;
    while j < nc
        invariant
            depth > 0,
        decreases nc - j,
    {
        match child_at(e, j) {
            Some(XmlChild::Element(x)) => {
                match element_tree(&x, depth - 1) {
                    Some(t) => children.push(t),
                    None => {
                        return None;
                    },
                }
            },
            Some(XmlChild::Text(s)) => children.push(XmlNode::Text(s)),
            _ => {},
        }
        j = j + 1;
    }
    Some(XmlNode::Element { ns, name, attrs, children })
}

/// Reads an XML document: the elements at its top level, each as a tree.
/// Where `sxd_document` refuses the text the error is its message, as
/// `xml_parse_error` names it.  Which trees a readable document gives is
/// not stated: the library hands its nodes out one at a time, and nothing
/// here claims what each call returns.
pub fn read_document(text: &str) -> (r: Result<Vec<XmlNode>, String>)
    ensures
        match xml_parse_error(text@) {
            Some(m) => r matches Err(e) && e@ == m,
            None => r matches Ok(v) ==> forall|i: int| 0 <= i < v@.len() ==> v@[i] is Element,
        },
{
    let p = match parse_package(text) {
        Ok(p) => p,
        Err(m) => {
            return Err(m);
        },
    };
    let mut roots: Vec<XmlNode> = Vec::new();
    let n = root_child_count(&p);
    let mut i: usize = 0;
    while i < n
        invariant
            xml_parse_error(text@) is None,
            forall|k: int| 0 <= k < roots@.len() ==> roots@[k] is Element,
        decreases n - i,
    {
        match root_child(&p, i) {
            Some(e) => {
                match element_tree(&e, MAX_DEPTH) {
                    Some(t) => roots.push(t),
                    None => {
                        let mut m = String::new();
                        push_str(&mut m, "document nested too deeply");
                        return Err(m);
                    },
                }
            },
            None => {},
        }
        i = i + 1;
    }
    Ok(roots)
}

} // verus!
