//! The document tree: a closed set of typed node variants.
//!
//! A node is either a container (it owns an ordered sequence of children) or a
//! leaf (it carries a literal payload); never both. The tree is built once by
//! a parser, walked exactly once by the renderer, and discarded.

use vstd::prelude::*;

verus! {

/// A reusable link target declared somewhere in the document, captured by the
/// renderer and emitted once at document end.
pub struct Definition {
    pub identifier: String,
    pub url: String,
    pub title: Option<String>,
}

/// A footnote body declared somewhere in the document, captured by the
/// renderer and emitted once at document end.
pub struct FootnoteDefinition {
    pub identifier: String,
    pub children: Vec<Node>,
}

/// One construct of the source document.
///
/// The unsupported embedded-script and component kinds (the `Mdx` variants)
/// form a closed set: the renderer maps each to the empty string and records
/// a diagnostic.
pub enum Node {
    Root { children: Vec<Node> },
    Paragraph { children: Vec<Node> },
    BlockQuote { children: Vec<Node> },
    List { ordered: bool, children: Vec<Node> },
    ListItem { children: Vec<Node> },
    Heading { level: u8, children: Vec<Node> },
    Table { children: Vec<Node> },
    TableRow { children: Vec<Node> },
    TableCell { children: Vec<Node> },
    ThematicBreak,
    Code { value: String },
    Math { value: String },
    Toml { value: String },
    Yaml { value: String },
    Html { value: String },
    Emphasis { children: Vec<Node> },
    Strong { children: Vec<Node> },
    Delete { children: Vec<Node> },
    Link { url: String, children: Vec<Node> },
    Text { value: String },
    InlineCode { value: String },
    InlineMath { value: String },
    Image { url: String },
    Break,
    FootnoteReference { identifier: String },
    FootnoteDefinition { note: FootnoteDefinition },
    Definition { def: Definition },
    ImageReference { identifier: String, alt: String },
    LinkReference { identifier: String, children: Vec<Node> },
    MdxTextExpression,
    MdxFlowExpression,
    MdxJsxFlowElement,
    MdxjsEsm,
    MdxJsxTextElement,
}

/// The child sequence of a container node; `None` for leaf nodes.
pub open spec fn spec_children(n: Node) -> Option<Seq<Node>> {
    match n {
        Node::Root { children } => Some(children@),
        Node::Paragraph { children } => Some(children@),
        Node::BlockQuote { children } => Some(children@),
        Node::List { children, .. } => Some(children@),
        Node::ListItem { children } => Some(children@),
        Node::Heading { children, .. } => Some(children@),
        Node::Table { children } => Some(children@),
        Node::TableRow { children } => Some(children@),
        Node::TableCell { children } => Some(children@),
        Node::Emphasis { children } => Some(children@),
        Node::Strong { children } => Some(children@),
        Node::Delete { children } => Some(children@),
        Node::Link { children, .. } => Some(children@),
        Node::FootnoteDefinition { note } => Some(note.children@),
        Node::LinkReference { children, .. } => Some(children@),
        _ => None,
    }
}

/// The children of a container node, or `None` for a leaf; consumes the node.
pub fn into_children(n: Node) -> (r: Option<Vec<Node>>)
    ensures
        match r {
            Some(c) => spec_children(n) == Some(c@),
            None => spec_children(n) is None,
        },
{
    match n {
        Node::Root { children } => Some(children),
        Node::Paragraph { children } => Some(children),
        Node::BlockQuote { children } => Some(children),
        Node::List { children, .. } => Some(children),
        Node::ListItem { children } => Some(children),
        Node::Heading { children, .. } => Some(children),
        Node::Table { children } => Some(children),
        Node::TableRow { children } => Some(children),
        Node::TableCell { children } => Some(children),
        Node::Emphasis { children } => Some(children),
        Node::Strong { children } => Some(children),
        Node::Delete { children } => Some(children),
        Node::Link { children, .. } => Some(children),
        Node::FootnoteDefinition { note } => Some(note.children),
        Node::LinkReference { children, .. } => Some(children),
        _ => None,
    }
}

} // verus!
