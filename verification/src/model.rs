//! Types shared by the diagram plugins: character sets, render options and
//! the generic node and edge records.
use crate::text::to_chars;
use vstd::prelude::*;

verus! {

/// The characters the renderers draw with.
#[derive(Clone, Copy, Debug, PartialEq, Eq, Structural)]
pub enum CharacterSet {
    Ascii,
    Unicode,
    UnicodeMath,
    Compact,
}

impl CharacterSet {
    /// Whether only ASCII characters are to be used.
    pub fn is_ascii(&self) -> (r: bool)
        ensures
            r == (*self == CharacterSet::Ascii),
    {
        match self {
            CharacterSet::Ascii => true,
            _ => false,
        }
    }

    /// The default character set, Unicode box drawing.
    pub fn default_set() -> (r: Self)
        ensures
            r == CharacterSet::Unicode,
    {
        CharacterSet::Unicode
    }
}

/// How decision nodes are drawn.
#[derive(Clone, Copy, Debug, PartialEq, Eq, Structural)]
pub enum DiamondStyle {
    Box,
    Inline,
    Tall,
}

/// Options for rendering.
#[derive(Clone, Copy, Debug)]
pub struct RenderConfig {
    pub style: CharacterSet,
    pub diamond_style: DiamondStyle,
    pub color: bool,
}

impl RenderConfig {
    /// A configuration with the given character set and diamond style, without colour.
    pub fn new(style: CharacterSet, diamond_style: DiamondStyle) -> (r: Self)
        ensures
            r.style == style,
            r.diamond_style == diamond_style,
            !r.color,
    {
        RenderConfig { style, diamond_style, color: false }
    }

    /// The same configuration with colour switched on or off.
    pub fn with_color(self, color: bool) -> (r: Self)
        ensures
            r.style == self.style,
            r.diamond_style == self.diamond_style,
            r.color == color,
    {
        RenderConfig { style: self.style, diamond_style: self.diamond_style, color }
    }

    /// Unicode characters, boxed diamonds, no colour.
    pub fn default_config() -> (r: Self)
        ensures
            r.style == CharacterSet::Unicode,
            r.diamond_style == DiamondStyle::Box,
            !r.color,
    {
        RenderConfig::new(CharacterSet::Unicode, DiamondStyle::Box)
    }
}

/// The shape of a node.
#[derive(Clone, Copy, Debug, PartialEq, Eq, Structural)]
pub enum NodeShape {
    Rectangle,
    Diamond,
    Terminal,
}

/// The kind of an edge.
#[derive(Clone, Copy, Debug, PartialEq, Eq, Structural)]
pub enum EdgeType {
    Arrow,
    Line,
}

/// A node: identifier, label and shape.
#[derive(Clone, Debug)]
pub struct NodeData {
    pub id: String,
    pub label: String,
    pub shape: NodeShape,
}

/// An edge between two nodes, with an optional label.
#[derive(Clone, Debug)]
pub struct EdgeData {
    pub from: String,
    pub to: String,
    pub edge_type: EdgeType,
    pub label: Option<String>,
}

/// An owned copy of a string slice.
pub fn own(s: &str) -> (r: String)
    ensures
        r@ == s@,
{
    let v = to_chars(s);
    crate::text::from_chars(&v)
}

/// A copy of a `String`.
pub fn copy_string(s: &String) -> (r: String)
    ensures
        r@ == s@,
{
    s.clone()
}

/// A copy of an optional `String`.
pub fn copy_opt(s: &Option<String>) -> (r: Option<String>)
    ensures
        r is Some <==> s is Some,
        r is Some ==> r->0@ == s->0@,
{
    match s {
        Some(t) => Some(t.clone()),
        None => None,
    }
}

impl NodeData {
    /// A rectangular node.
    pub fn new(id: &str, label: &str) -> (r: Self)
        ensures
            r.id@ == id@,
            r.label@ == label@,
            r.shape == NodeShape::Rectangle,
    {
        NodeData { id: own(id), label: own(label), shape: NodeShape::Rectangle }
    }

    /// A node of the given shape.
    pub fn with_shape(id: &str, label: &str, shape: NodeShape) -> (r: Self)
        ensures
            r.id@ == id@,
            r.label@ == label@,
            r.shape == shape,
    {
        NodeData { id: own(id), label: own(label), shape }
    }
}

impl EdgeData {
    /// An unlabelled arrow.
    pub fn new(from: &str, to: &str) -> (r: Self)
        ensures
            r.from@ == from@,
            r.to@ == to@,
            r.edge_type == EdgeType::Arrow,
            r.label is None,
    {
        EdgeData { from: own(from), to: own(to), edge_type: EdgeType::Arrow, label: None }
    }

    /// A labelled edge.
    pub fn with_label(from: &str, to: &str, edge_type: EdgeType, label: &str) -> (r: Self)
        ensures
            r.from@ == from@,
            r.to@ == to@,
            r.edge_type == edge_type,
            r.label matches Some(l) && l@ == label@,
    {
        EdgeData { from: own(from), to: own(to), edge_type, label: Some(own(label)) }
    }
}

/// An error from parsing or rendering a diagram, with its message.
#[derive(Clone, Debug)]
pub struct DiagramError {
    pub message: String,
}

impl DiagramError {
    /// An error with the given message.
    pub fn new(message: String) -> (r: Self)
        ensures
            r.message@ == message@,
    {
        DiagramError { message }
    }

    /// The error message.
    pub fn message(&self) -> (r: String)
        ensures
            r@ == self.message@,
    {
        self.message.clone()
    }
}

} // verus!
