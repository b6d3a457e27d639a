//! XML documents, by `roxmltree`: the whole document as a list of nodes in
//! document order, each with its local name, attributes, leading text and
//! the positions of its children.

use vstd::prelude::*;

verus! {

pub struct XmlAttr {
    /// The attribute's namespace URI, when it has one.
    pub namespace: Option<String>,
    /// Local name.
    pub name: String,
    pub value: String,
}

/// One node of a document. Node `i` of the list is the node `roxmltree`
/// numbers `i`; node 0 is the document root.
pub struct XmlNode {
    pub element: bool,
    /// The element's local name (no namespace prefix); empty for other nodes.
    pub name: String,
    pub attrs: Vec<XmlAttr>,
    /// `Node::text`: for an element, its first child's text when that child
    /// is a text node.
    pub text: Option<String>,
    /// Positions of the child nodes, in order.
    pub children: Vec<usize>,
}

/// The nodes `roxmltree` reads from a text, DTDs allowed; `None` when the
/// text is not well-formed XML.
pub uninterp spec fn spec_parse_xml(text: Seq<char>) -> Option<Seq<XmlNode>>;

/// `roxmltree::Document::parse_with_options` with `allow_dtd`, every node
/// from `descendants()` copied out. Claims only that the result is the one
/// `spec_parse_xml` names.
#[verifier::external_body]
pub(crate) fn parse_xml(text: &str) -> (r: Option<Vec<XmlNode>>)
    ensures
        match r {
            Some(v) => spec_parse_xml(text@) == Some(v@),
            None => spec_parse_xml(text@) is None,
        },
{
    let opts = roxmltree::ParsingOptions { allow_dtd: true, ..Default::default() };
    let doc = roxmltree::Document::parse_with_options(text, opts).ok()?;
    Some(doc.descendants().map(|n| XmlNode {
        element: n.is_element(),
        name: n.tag_name().name().to_string(),
        attrs: n.attributes().map(|a| XmlAttr {
            namespace: a.namespace().map(String::from),
            name: a.name().to_string(),
            value: a.value().to_string(),
        }).collect(),
        text: n.text().map(String::from),
        children: n.children().map(|c| c.id().get_usize()).collect(),
    }).collect())
}

} // verus!
