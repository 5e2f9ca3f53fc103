use vstd::prelude::*;

verus! {

/// What a param refers to.
#[derive(Debug, Clone, PartialEq, Eq)]
pub enum Identifier {
    /// `$name`: a named variable
    Named(String),
    /// `$1`: a positional variable; `$0` stands for all of them
    Indexed(usize),
}

/// A change of case applied to the value of a param.
#[derive(Debug, Clone, Copy, PartialEq, Eq, Structural)]
pub enum Modifier {
    /// `${identifier^}` | `${identifier^^}`
    Upper { all: bool },
    /// `${identifier,}` | `${identifier,,}`
    Lower { all: bool },
    /// `${identifier~}` | `${identifier~~}`
    Reverse { all: bool },
}

/// One form of parameter expansion.
#[derive(Debug, PartialEq, Eq)]
pub enum Param {
    /// `$identifier` | `${identifier}`, optionally with a case modifier
    Simple { identifier: Identifier, modifier: Option<Modifier> },
    /// `${identifier-default}` | `${identifier:-default}`
    WithDefault { identifier: Identifier, default: Box<Node>, treat_empty_as_unset: bool },
    /// `${identifier+alt}` | `${identifier:+alt}`
    WithAlt { identifier: Identifier, alt: Box<Node>, treat_empty_as_unset: bool },
    /// `${identifier?}` | `${identifier:?}` | `${identifier?error}` | `${identifier:?error}`
    WithError { identifier: Identifier, error: Option<String>, treat_empty_as_unset: bool },
    /// `${#identifier}`
    Length { identifier: Identifier },
    /// `${#}`
    Arity,
    /// `${!identifier}`
    Ref { identifier: Identifier },
}

/// A piece of the input: literal text or a param.
#[derive(Debug, PartialEq, Eq)]
pub enum Node {
    Text(String),
    Param(Param),
}

/// The pieces of one input, in order.
#[derive(Debug, PartialEq, Eq)]
pub struct Ast {
    pub nodes: Vec<Node>,
}

/// An [`Identifier`] with its name as a character sequence.
pub enum IdentifierView {
    Named(Seq<char>),
    Indexed(usize),
}

/// A [`Param`] with its texts as character sequences.
pub enum ParamView {
    Simple { identifier: IdentifierView, modifier: Option<Modifier> },
    WithDefault { identifier: IdentifierView, default: Box<NodeView>, treat_empty_as_unset: bool },
    WithAlt { identifier: IdentifierView, alt: Box<NodeView>, treat_empty_as_unset: bool },
    WithError { identifier: IdentifierView, error: Option<Seq<char>>, treat_empty_as_unset: bool },
    Length { identifier: IdentifierView },
    Arity,
    Ref { identifier: IdentifierView },
}

/// A [`Node`] with its texts as character sequences.
pub enum NodeView {
    Text(Seq<char>),
    Param(ParamView),
}

impl View for Identifier {
    type V = IdentifierView;

    open spec fn view(&self) -> IdentifierView {
        match self {
            Identifier::Named(n) => IdentifierView::Named(n@),
            Identifier::Indexed(i) => IdentifierView::Indexed(*i),
        }
    }
}

pub open spec fn text_view(t: Option<String>) -> Option<Seq<char>> {
    match t {
        Some(t) => Some(t@),
        None => None,
    }
}

pub open spec fn param_view(p: Param) -> ParamView
    decreases p,
{
    match p {
        Param::Simple { identifier, modifier } => ParamView::Simple {
            identifier: identifier@,
            modifier,
        },
        Param::WithDefault { identifier, default, treat_empty_as_unset } => ParamView::WithDefault {
            identifier: identifier@,
            default: Box::new(node_view(*default)),
            treat_empty_as_unset,
        },
        Param::WithAlt { identifier, alt, treat_empty_as_unset } => ParamView::WithAlt {
            identifier: identifier@,
            alt: Box::new(node_view(*alt)),
            treat_empty_as_unset,
        },
        Param::WithError { identifier, error, treat_empty_as_unset } => ParamView::WithError {
            identifier: identifier@,
            error: text_view(error),
            treat_empty_as_unset,
        },
        Param::Length { identifier } => ParamView::Length { identifier: identifier@ },
        Param::Arity => ParamView::Arity,
        Param::Ref { identifier } => ParamView::Ref { identifier: identifier@ },
    }
}

pub open spec fn node_view(n: Node) -> NodeView
    decreases n,
{
    match n {
        Node::Text(t) => NodeView::Text(t@),
        Node::Param(p) => NodeView::Param(param_view(p)),
    }
}

impl View for Param {
    type V = ParamView;

    open spec fn view(&self) -> ParamView {
        param_view(*self)
    }
}

impl View for Node {
    type V = NodeView;

    open spec fn view(&self) -> NodeView {
        node_view(*self)
    }
}

impl View for Ast {
    type V = Seq<NodeView>;

    open spec fn view(&self) -> Seq<NodeView> {
        self.nodes@.map_values(|n: Node| n@)
    }
}

impl Ast {
    pub fn new(nodes: Vec<Node>) -> (r: Ast)
        ensures
            r.nodes == nodes,
            r@ == nodes@.map_values(|n: Node| n@),
    {
        Ast { nodes }
    }
}

} // verus!
