//! XML documents as seen by the resolver.
//!
//! Parsing is done by the `xmlem` crate behind trusted declarations; the
//! abstract content of a parsed document is a ghost tree of element names,
//! attributes, text and children, and every traversal over it is verified
//! against that tree. Element values are handles into one document;
//! `elem_of` records which document a handle belongs to, and every
//! element-taking declaration requires it, because xmlem panics when a
//! handle is used with a foreign document.

use vstd::prelude::*;

verus! {

/// The abstract content of one XML element: its name, its attributes
/// keyed by their written name, the text of its first child node when
/// that node is a text node, and its child elements in document order.
pub ghost struct XmlTree {
    pub name: Seq<char>,
    pub attrs: Map<Seq<char>, Seq<char>>,
    pub text: Option<Seq<char>>,
    pub children: Seq<XmlTree>,
}

#[verifier::external_type_specification]
#[verifier::external_body]
pub struct ExDocument(xmlem::Document);

#[verifier::external_type_specification]
#[verifier::external_body]
pub struct ExElement(xmlem::Element);

/// What parsing a given piece of text yields: the same text always parses
/// to the same tree, or to nothing.
pub uninterp spec fn xml_parsed(s: Seq<char>) -> Option<XmlTree>;

/// The abstract tree held by a parsed document.
pub uninterp spec fn doc_tree(d: xmlem::Document) -> XmlTree;

/// The abstract subtree rooted at an element of a document.
pub uninterp spec fn elem_tree(d: xmlem::Document, e: xmlem::Element) -> XmlTree;

/// Whether an element handle belongs to this document. Handles taken from
/// one document must not be used with another: xmlem's element accessors
/// unwrap the handle's slot in the document's node map and panic when it
/// is absent. Only `xml_root` and `xml_children` hand out handles, and
/// both guarantee this predicate for the document they were called with.
pub uninterp spec fn elem_of(d: xmlem::Document, e: xmlem::Element) -> bool;

/// Relies on xmlem's `Document::from_str` (via `std::str::FromStr`):
/// parsing is a function of the text alone.
#[verifier::external_body]
pub(crate) fn xml_parse(text: &str) -> (r: Option<xmlem::Document>)
    ensures
        match r {
            Some(d) => xml_parsed(text@) == Some(doc_tree(d)),
            None => xml_parsed(text@) is None,
        },
{
    <xmlem::Document as std::str::FromStr>::from_str(text).ok()
}

/// Relies on xmlem's `Document::root`: the document's root element, a
/// handle of this document.
#[verifier::external_body]
pub(crate) fn xml_root(d: &xmlem::Document) -> (e: xmlem::Element)
    ensures
        elem_of(*d, e),
        elem_tree(*d, e) == doc_tree(*d),
{
    d.root()
}

/// Relies on xmlem's `Element::children`: the child elements in document
/// order, each a handle of the same document.
#[verifier::external_body]
pub(crate) fn xml_children(d: &xmlem::Document, e: &xmlem::Element) -> (r: Vec<xmlem::Element>)
    requires
        elem_of(*d, *e),
    ensures
        r@.len() == elem_tree(*d, *e).children.len(),
        forall|i: int|
            0 <= i < r@.len() ==> elem_tree(*d, #[trigger] r@[i]) == elem_tree(*d, *e).children[i],
        forall|i: int| 0 <= i < r@.len() ==> elem_of(*d, #[trigger] r@[i]),
{
    e.children(d)
}

/// Relies on xmlem's `Element::name`: the element's qualified name as
/// written.
#[verifier::external_body]
pub(crate) fn xml_name(d: &xmlem::Document, e: &xmlem::Element) -> (r: String)
    requires
        elem_of(*d, *e),
    ensures
        r@ == elem_tree(*d, *e).name,
{
    e.name(d).to_owned()
}

/// Relies on xmlem's `Element::attributes` and qname's
/// `QName::prefixed_name`: attribute lookup by written name. The lookup
/// walks the attribute map instead of calling `Element::attribute`, which
/// panics on a name that is not a well-formed qualified name; written
/// attribute names are unique in the map, so at most one entry matches.
#[verifier::external_body]
pub(crate) fn xml_attribute(d: &xmlem::Document, e: &xmlem::Element, name: &str) -> (r: Option<
    String,
>)
    requires
        elem_of(*d, *e),
    ensures
        match r {
            Some(v) => elem_tree(*d, *e).attrs.contains_key(name@) && elem_tree(*d, *e).attrs[name@]
                == v@,
            None => !elem_tree(*d, *e).attrs.contains_key(name@),
        },
{
    for (key, value) in e.attributes(d) {
        if key.prefixed_name() == name {
            return Some(value.to_owned());
        }
    }
    None
}

/// Relies on xmlem's `Element::child_nodes`, `Node::as_text` and
/// `Text::as_str`: the text of the element's first child node, when that
/// node is a text node.
#[verifier::external_body]
pub(crate) fn xml_first_text(d: &xmlem::Document, e: &xmlem::Element) -> (r: Option<String>)
    requires
        elem_of(*d, *e),
    ensures
        match r {
            Some(v) => elem_tree(*d, *e).text == Some(v@),
            None => elem_tree(*d, *e).text is None,
        },
{
    e.child_nodes(d).first().copied().and_then(|n| n.as_text()).map(|t| t.as_str(d).to_owned())
}

} // verus!
