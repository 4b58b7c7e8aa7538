//! The document tree: elements, lists of siblings, and text leaves, with the
//! constructors that build well-formed nodes.

use vstd::prelude::*;

verus! {

/// One node of an HTML document tree.
///
/// An element carries a tag name, an ordered attribute mapping and optional
/// content; the content of an element with several children is a `List`. A
/// list is an ordered group of siblings. A text leaf holds literal content
/// that is rendered verbatim, with no escaping.
pub enum Node {
    Element { tag: String, attrs: Vec<(String, String)>, content: Option<Box<Node>> },
    List(Vec<Node>),
    Text(String),
}

impl Node {
    /// A text leaf holding `content` verbatim.
    pub fn text(content: &str) -> (n: Node)
        ensures
            n matches Node::Text(t) && t@ == content@,
    {
        Node::Text(content.to_owned())
    }

    /// An element with no attributes and no content: renders as `<tag>` alone.
    pub fn element(tag: &str) -> (n: Node)
        ensures
            n matches Node::Element { tag: t, attrs: a, content: c } && t@ == tag@ && a@
                =~= Seq::<(String, String)>::empty() && c is None,
    {
        Node::Element { tag: tag.to_owned(), attrs: Vec::new(), content: None }
    }

    /// An element with attributes and no content.
    pub fn element_with_attrs(tag: &str, attrs: Vec<(String, String)>) -> (n: Node)
        ensures
            n matches Node::Element { tag: t, attrs: a, content: c } && t@ == tag@ && a == attrs
                && c is None,
    {
        Node::Element { tag: tag.to_owned(), attrs, content: None }
    }

    /// An element wrapping a single child node.
    pub fn element_with_content(tag: &str, attrs: Vec<(String, String)>, content: Node) -> (n: Node)
        ensures
            n matches Node::Element { tag: t, attrs: a, content: c } && t@ == tag@ && a == attrs
                && (c matches Some(b) && *b == content),
    {
        Node::Element { tag: tag.to_owned(), attrs, content: Some(Box::new(content)) }
    }

    /// An element wrapping raw text: shorthand for content that is one text leaf.
    pub fn element_with_text(tag: &str, attrs: Vec<(String, String)>, text: &str) -> (n: Node)
        ensures
            n matches Node::Element { tag: t, attrs: a, content: c } && t@ == tag@ && a == attrs
                && (c matches Some(b) && (*b matches Node::Text(s) && s@ == text@)),
    {
        Node::Element { tag: tag.to_owned(), attrs, content: Some(Box::new(Node::Text(text.to_owned()))) }
    }

    /// An ordered list of sibling nodes.
    pub fn list(children: Vec<Node>) -> (n: Node)
        ensures
            n == Node::List(children),
    {
        Node::List(children)
    }
}

} // verus!
