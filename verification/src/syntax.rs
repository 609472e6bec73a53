//! The syntax tree of a submission, held in an arena.
//!
//! A node names its parts by their indices in the arena. Where a node has
//! any number of parts, their indices stand one after the other in the
//! table of links, and the node holds the stretch of the table that is its
//! own. The parser adds a node after its parts; a walk over a tree does not
//! rely on that, it counts its steps and gives up where they run out.

use vstd::prelude::*;
use crate::diagnostic::Region;
use crate::lexer::Token;

verus! {

/// A stretch of a sequence: the indices from `start` up to `end`.
#[derive(Clone, Copy, Debug, PartialEq, Eq, Structural)]
pub struct Span {
    pub start: usize,
    pub end: usize,
}

/// The operators that stand between two operands.
#[derive(Clone, Copy, Debug, PartialEq, Eq, Structural)]
pub enum Operator {
    Add,
    Sub,
    Mul,
    Rem,
    Equal,
    NotEqual,
}

/// What a node is. A `Span` of the source is a name or the contents of a
/// string; a `Span` of links is the node's parts.
#[derive(Clone, Copy, Debug, PartialEq, Eq, Structural)]
pub enum Kind {
    /// A decimal numeral without a point.
    Num(i128),
    /// A hexadecimal numeral.
    Int(i128),
    /// A decimal numeral with a point, in units of the last decimal place.
    Frac(i128),
    /// A string literal, by the source between its quotes.
    Str(Span),
    /// A name in use.
    Var(Span),
    /// A tag applied to arguments.
    Tag(Span, Span),
    /// A list of items.
    List(Span),
    /// A record of fields.
    Record(Span),
    /// A field of a record: its name and its value.
    Field(Span, usize),
    /// A function applied to arguments.
    Call(usize, Span),
    /// Two operands with an operator between them.
    Binary(Operator, usize, usize),
    /// A function of parameters, which are patterns, and a body.
    Lambda(Span, usize),
    /// A condition and the two expressions that it chooses between.
    If(usize, usize, usize),
    /// A value matched against branches.
    When(usize, Span),
    /// A branch of a `when`: its pattern and its body.
    Branch(usize, usize),
    /// A pattern that binds a name.
    PatVar(Span),
    /// A pattern that matches a tag and its arguments.
    PatTag(Span, Span),
    /// A pattern that matches anything.
    PatAny,
    /// A named type applied to arguments.
    TyApply(Span, Span),
    /// A type variable.
    TyVar(Span),
    /// A type that may be anything.
    TyAny,
    /// A tag union; open where the flag is set.
    TyUnion(Span, bool),
    /// A tag of a tag union with the types of its payload.
    TyTag(Span, Span),
    /// A function type: parameters and result.
    TyFunction(Span, usize),
    /// The declaration of a named type: its name, its parameters and its body.
    Alias(Span, Span, usize),
    /// The declared type of a name.
    Annotation(Span, usize),
    /// The definition of a name.
    Def(Span, usize),
    /// Declarations and definitions, and the expression that they lead to.
    Block(Span, usize),
}

/// A node of the syntax tree.
#[derive(Clone, Copy, Debug, PartialEq, Eq, Structural)]
pub struct Node {
    pub kind: Kind,
    pub region: Region,
}

/// The arena of a syntax tree.
#[derive(Debug, PartialEq, Eq)]
pub struct Ast {
    pub nodes: Vec<Node>,
    pub links: Vec<usize>,
}

/// The mathematical model of an [`Ast`].
pub struct AstModel {
    pub nodes: Seq<Node>,
    pub links: Seq<usize>,
}

impl View for Ast {
    type V = AstModel;

    open spec fn view(&self) -> AstModel {
        AstModel { nodes: self.nodes@, links: self.links@ }
    }
}

impl AstModel {
    /// The arena with one more node, and the index of that node.
    pub open spec fn with_node(self, node: Node) -> (AstModel, usize) {
        (AstModel { nodes: self.nodes.push(node), links: self.links }, self.nodes.len() as usize)
    }

    /// The arena with the parts appended to the links, and their stretch.
    pub open spec fn with_links(self, parts: Seq<usize>) -> (AstModel, Span) {
        (
            AstModel { nodes: self.nodes, links: self.links + parts },
            Span { start: self.links.len() as usize, end: (self.links.len() + parts.len()) as usize },
        )
    }
}

impl AstModel {
    /// The node at `index`.
    pub open spec fn node_at(self, index: usize) -> Option<Node> {
        if index < self.nodes.len() {
            Some(self.nodes[index as int])
        } else {
            None
        }
    }

    /// The parts of the stretch, in order.
    pub open spec fn parts(self, span: Span) -> Seq<usize> {
        if span.start <= span.end <= self.links.len() {
            self.links.subrange(span.start as int, span.end as int)
        } else {
            Seq::empty()
        }
    }
}

impl Ast {
    /// The node at `index`.
    pub fn node(&self, index: usize) -> (r: Option<Node>)
        ensures
            r == self@.node_at(index),
    {
        if index < self.nodes.len() {
            Some(self.nodes[index])
        } else {
            None
        }
    }

    /// The parts of the stretch, in order.
    pub fn parts(&self, span: Span) -> (r: Vec<usize>)
        ensures
            r@ == self@.parts(span),
    {
        let mut out: Vec<usize> = Vec::new();
        if span.start <= span.end && span.end <= self.links.len() {
            let mut i: usize = span.start;
            while i < span.end
                invariant
                    span.start <= i <= span.end <= self.links@.len(),
                    out@ =~= self.links@.subrange(span.start as int, i as int),
                decreases span.end - i,
            {
                out.push(self.links[i]);
                i = i + 1;
            }
        }
        out
    }

    /// An empty arena.
    pub fn new() -> (r: Ast)
        ensures
            r@.nodes.len() == 0,
            r@.links.len() == 0,
    {
        Ast { nodes: Vec::new(), links: Vec::new() }
    }

    /// Adds a node and returns its index.
    pub fn add(&mut self, node: Node) -> (index: usize)
        ensures
            (final(self)@, index) == old(self)@.with_node(node),
    {
        let index = self.nodes.len();
        self.nodes.push(node);
        index
    }

    /// Appends the parts to the links and returns their stretch.
    pub fn link(&mut self, parts: &Vec<usize>) -> (span: Span)
        ensures
            (final(self)@, span) == old(self)@.with_links(parts@),
    {
        let start = self.links.len();
        let mut i: usize = 0;
        while i < parts.len()
            invariant
                i <= parts.len(),
                start == old(self).links@.len(),
                self.nodes@ == old(self).nodes@,
                self.links@ == old(self).links@ + parts@.take(i as int),
            decreases parts.len() - i,
        {
            self.links.push(parts[i]);
            assert(self.links@ =~= old(self).links@ + parts@.take(i + 1));
            i = i + 1;
        }
        assert(parts@.take(i as int) =~= parts@);
        Span { start, end: self.links.len() }
    }
}

/// The column at which a token ends.
pub open spec fn end_column(t: Token) -> usize {
    let width = if t.end >= t.start {
        t.end - t.start
    } else {
        0
    };
    if t.column + width <= usize::MAX {
        (t.column + width) as usize
    } else {
        usize::MAX
    }
}

/// The region that the tokens from index `first` to index `last` cover: the
/// lines from the first token's to the last token's, and the columns from
/// the first token's beginning to the last token's end.
pub open spec fn region_between(tokens: Seq<Token>, first: int, last: int) -> Region {
    if 0 <= first < tokens.len() && 0 <= last < tokens.len() {
        Region {
            first: tokens[first].line,
            last: tokens[last].line,
            start: tokens[first].column,
            end: end_column(tokens[last]),
        }
    } else {
        Region { first: 0, last: 0, start: 0, end: 0 }
    }
}

/// The region that the tokens from index `first` to index `last` cover.
pub fn region_of(tokens: &Vec<Token>, first: usize, last: usize) -> (r: Region)
    ensures
        r == region_between(tokens@, first as int, last as int),
{
    if first < tokens.len() && last < tokens.len() {
        let t = tokens[last];
        let width: usize = if t.end >= t.start {
            t.end - t.start
        } else {
            0
        };
        let end: usize = if t.column <= usize::MAX - width {
            t.column + width
        } else {
            usize::MAX
        };
        Region { first: tokens[first].line, last: t.line, start: tokens[first].column, end }
    } else {
        Region { first: 0, last: 0, start: 0, end: 0 }
    }
}

} // verus!
