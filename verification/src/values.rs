//! The values of evaluation, held in an arena.
//!
//! A value names its parts by their indices in the arena, and its text by a
//! stretch of the arena's own characters. A scope is a chain of bindings,
//! so a function value keeps the scope that it was made in by one index.

use vstd::prelude::*;
use crate::syntax::Span;
use crate::text::{chars_of, same, UNIT};

verus! {

/// A node of the arena of values.
#[derive(Clone, Copy, Debug, PartialEq, Eq, Structural)]
pub enum ValNode {
    /// A whole number.
    Int(i128),
    /// A fraction, in units of its last decimal place.
    Frac(i128),
    /// A string, by its characters in the arena.
    Str(Span),
    /// A list of the items in this stretch of links.
    List(Span),
    /// A record of the fields in this stretch of links.
    Record(Span),
    /// A field of a record: its name in the arena, and its value.
    Field(Span, usize),
    /// A tag, by its name in the arena, with its payload.
    Tag(Span, Span),
    /// A function: the node of the syntax tree that wrote it, and the scope
    /// that it was written in.
    Closure(usize, usize),
    /// A function that the language provides, by its name in the arena.
    Builtin(Span),
    /// The end of a scope.
    Empty,
    /// A binding of a scope: the name in the source, the value, and the
    /// rest of the scope.
    Bind(Span, usize, usize),
}

/// The arena of values.
#[derive(Debug, PartialEq, Eq)]
pub struct Values {
    pub nodes: Vec<ValNode>,
    pub links: Vec<usize>,
    pub chars: Vec<char>,
}

/// The mathematical model of [`Values`].
pub struct ValuesModel {
    pub nodes: Seq<ValNode>,
    pub links: Seq<usize>,
    pub chars: Seq<char>,
}

impl View for Values {
    type V = ValuesModel;

    open spec fn view(&self) -> ValuesModel {
        ValuesModel { nodes: self.nodes@, links: self.links@, chars: self.chars@ }
    }
}

/// Why an evaluation came to no value.
#[derive(Clone, Copy, Debug, PartialEq, Eq, Structural)]
pub enum Crash {
    /// The name at this node of the syntax tree is bound to nothing.
    Unbound(usize),
    /// The value that is called at this node is no function, or is called
    /// with the wrong number of arguments.
    NotCallable(usize),
    /// The operands at this node are not what the operation works on.
    BadOperands(usize),
    /// No branch of the `when` at this node matches its subject.
    NoBranch(usize),
    /// An operation at this node left the range of its numbers.
    Overflow(usize),
    /// The syntax tree is not well formed at this node, or the evaluation
    /// went deeper than it may.
    TooDeep(usize),
}

impl ValuesModel {
    /// The arena with one more node, and the index of that node.
    pub open spec fn with_node(self, node: ValNode) -> (ValuesModel, usize) {
        (
            ValuesModel { nodes: self.nodes.push(node), links: self.links, chars: self.chars },
            self.nodes.len() as usize,
        )
    }

    /// The arena with the parts appended to the links, and their stretch.
    pub open spec fn with_links(self, parts: Seq<usize>) -> (ValuesModel, Span) {
        (
            ValuesModel { nodes: self.nodes, links: self.links + parts, chars: self.chars },
            Span { start: self.links.len() as usize, end: (self.links.len() + parts.len()) as usize },
        )
    }

    /// The arena with the text appended to its characters, and its stretch.
    pub open spec fn with_text(self, text: Seq<char>) -> (ValuesModel, Span) {
        (
            ValuesModel { nodes: self.nodes, links: self.links, chars: self.chars + text },
            Span { start: self.chars.len() as usize, end: (self.chars.len() + text.len()) as usize },
        )
    }

    /// The arena with a node that has the given parts.
    pub open spec fn with_parts(self, parts: Seq<usize>, node: spec_fn(Span) -> ValNode) -> (
        ValuesModel,
        usize,
    ) {
        let (linked, span) = self.with_links(parts);
        linked.with_node(node(span))
    }

    /// The arena with a node that has the given text.
    pub open spec fn with_named(self, text: Seq<char>, node: spec_fn(Span) -> ValNode) -> (
        ValuesModel,
        usize,
    ) {
        let (written, span) = self.with_text(text);
        written.with_node(node(span))
    }

    /// The arena with a tag of the given name and payload.
    pub open spec fn with_tag(self, name: Seq<char>, payload: Seq<usize>) -> (ValuesModel, usize) {
        let (written, text) = self.with_text(name);
        let (linked, span) = written.with_links(payload);
        linked.with_node(ValNode::Tag(text, span))
    }

    /// The node at `index`.
    pub open spec fn node_at(self, index: usize) -> Option<ValNode> {
        if index < self.nodes.len() {
            Some(self.nodes[index as int])
        } else {
            None
        }
    }

    /// The parts of the stretch, in order.
    pub open spec fn parts(self, span: Span) -> Seq<usize> {
        if span.start <= span.end <= self.links.len() {
            self.links.subrange(span.start as int, span.end as int)
        } else {
            Seq::empty()
        }
    }

    /// The characters of the stretch.
    pub open spec fn text(self, span: Span) -> Seq<char> {
        if span.start <= span.end <= self.chars.len() {
            self.chars.subrange(span.start as int, span.end as int)
        } else {
            Seq::empty()
        }
    }
}

impl Values {
    /// An empty arena.
    pub fn new() -> (r: Values)
        ensures
            r@.nodes =~= Seq::<ValNode>::empty(),
            r@.links =~= Seq::<usize>::empty(),
            r@.chars =~= Seq::<char>::empty(),
    {
        Values { nodes: Vec::new(), links: Vec::new(), chars: Vec::new() }
    }

    /// Adds a node and returns its index.
    pub fn add(&mut self, node: ValNode) -> (index: usize)
        ensures
            (final(self)@, index) == old(self)@.with_node(node),
    {
        let index = self.nodes.len();
        self.nodes.push(node);
        index
    }

    /// Appends the parts to the links and returns their stretch.
    pub fn link(&mut self, parts: &Vec<usize>) -> (span: Span)
        ensures
            (final(self)@, span) == old(self)@.with_links(parts@),
    {
        let start = self.links.len();
        let mut i: usize = 0;
        while i < parts.len()
            invariant
                i <= parts.len(),
                start == old(self).links@.len(),
                self.nodes@ == old(self).nodes@,
                self.chars@ == old(self).chars@,
                self.links@ == old(self).links@ + parts@.take(i as int),
            decreases parts.len() - i,
        {
            self.links.push(parts[i]);
            assert(self.links@ =~= old(self).links@ + parts@.take(i + 1));
            i = i + 1;
        }
        assert(parts@.take(i as int) =~= parts@);
        Span { start, end: self.links.len() }
    }

    /// Appends the text to the characters and returns its stretch.
    pub fn write(&mut self, text: &Vec<char>) -> (span: Span)
        ensures
            (final(self)@, span) == old(self)@.with_text(text@),
    {
        let start = self.chars.len();
        crate::text::append(&mut self.chars, text);
        Span { start, end: self.chars.len() }
    }

    /// Adds a tag of the given name and payload.
    pub fn tag(&mut self, name: &str, payload: &Vec<usize>) -> (index: usize)
        ensures
            (final(self)@, index) == old(self)@.with_tag(name@, payload@),
    {
        let chars = chars_of(name);
        let text = self.write(&chars);
        let span = self.link(payload);
        self.add(ValNode::Tag(text, span))
    }

    /// Adds a tag of the given name and payload.
    pub fn tag_named(&mut self, name: &Vec<char>, payload: &Vec<usize>) -> (index: usize)
        ensures
            (final(self)@, index) == old(self)@.with_tag(name@, payload@),
    {
        let text = self.write(name);
        let span = self.link(payload);
        self.add(ValNode::Tag(text, span))
    }

    /// The node at `index`.
    pub fn node(&self, index: usize) -> (r: Option<ValNode>)
        ensures
            r == self@.node_at(index),
    {
        if index < self.nodes.len() {
            Some(self.nodes[index])
        } else {
            None
        }
    }

    /// The parts of the stretch, in order.
    pub fn parts(&self, span: Span) -> (r: Vec<usize>)
        ensures
            r@ == self@.parts(span),
    {
        let mut out: Vec<usize> = Vec::new();
        if span.start <= span.end && span.end <= self.links.len() {
            let mut i: usize = span.start;
            while i < span.end
                invariant
                    span.start <= i <= span.end <= self.links@.len(),
                    out@ =~= self.links@.subrange(span.start as int, i as int),
                decreases span.end - i,
            {
                out.push(self.links[i]);
                i = i + 1;
            }
        }
        out
    }

    /// The characters of the stretch.
    pub fn text(&self, span: Span) -> (r: Vec<char>)
        ensures
            r@ == self@.text(span),
    {
        let mut out: Vec<char> = Vec::new();
        if span.start <= span.end && span.end <= self.chars.len() {
            let mut i: usize = span.start;
            while i < span.end
                invariant
                    span.start <= i <= span.end <= self.chars@.len(),
                    out@ =~= self.chars@.subrange(span.start as int, i as int),
                decreases span.end - i,
            {
                out.push(self.chars[i]);
                i = i + 1;
            }
        }
        out
    }

    /// Whether the stretch holds exactly the characters of `word`.
    pub fn is(&self, span: Span, word: &str) -> (r: bool)
        ensures
            r == (self@.text(span) == word@),
    {
        let text = self.text(span);
        crate::text::is_text(&text, word)
    }
}

/// The name of the tag at `value`, where it is a tag without payload.
pub open spec fn bare_tag(vals: ValuesModel, value: usize) -> Option<Seq<char>> {
    match vals.node_at(value) {
        Some(ValNode::Tag(name, args)) => if vals.parts(args).len() == 0 {
            Some(vals.text(name))
        } else {
            None
        },
        _ => None,
    }
}

/// Whether two values are the same: numbers of one value, strings of the
/// same characters, and lists, records and tags of the same parts. A whole
/// number is the fraction of the same value. Functions are the same as
/// nothing. `None` where the walk runs out of fuel.
pub open spec fn alike(vals: ValuesModel, a: usize, b: usize, fuel: nat) -> Option<bool>
    decreases fuel, 0int,
{
    if fuel == 0 {
        None
    } else {
        match (vals.node_at(a), vals.node_at(b)) {
            (Some(ValNode::Int(x)), Some(ValNode::Int(y))) => Some(x == y),
            (Some(ValNode::Frac(x)), Some(ValNode::Frac(y))) => Some(x == y),
            (Some(ValNode::Int(x)), Some(ValNode::Frac(y))) => Some(x * UNIT == y),
            (Some(ValNode::Frac(x)), Some(ValNode::Int(y))) => Some(x == y * UNIT),
            (Some(ValNode::Str(x)), Some(ValNode::Str(y))) => Some(vals.text(x) == vals.text(y)),
            (Some(ValNode::List(x)), Some(ValNode::List(y))) => if vals.parts(x).len()
                == vals.parts(y).len() {
                alike_all(vals, vals.parts(x), vals.parts(y), 0, (fuel - 1) as nat)
            } else {
                Some(false)
            },
            (Some(ValNode::Tag(n, x)), Some(ValNode::Tag(m, y))) => if vals.text(n) == vals.text(m)
                && vals.parts(x).len() == vals.parts(y).len() {
                alike_all(vals, vals.parts(x), vals.parts(y), 0, (fuel - 1) as nat)
            } else {
                Some(false)
            },
            (Some(ValNode::Record(x)), Some(ValNode::Record(y))) => if vals.parts(x).len()
                == vals.parts(y).len() {
                alike_fields(vals, vals.parts(x), vals.parts(y), 0, (fuel - 1) as nat)
            } else {
                Some(false)
            },
            _ => Some(false),
        }
    }
}

/// Whether the values of `xs` and `ys` at the same indices from `i` on are
/// the same.
pub open spec fn alike_all(vals: ValuesModel, xs: Seq<usize>, ys: Seq<usize>, i: int, fuel: nat) -> Option<
    bool,
>
    decreases fuel, 1 + xs.len() - i,
{
    if 0 <= i < xs.len() && i < ys.len() {
        match alike(vals, xs[i], ys[i], fuel) {
            Some(true) => alike_all(vals, xs, ys, i + 1, fuel),
            other => other,
        }
    } else {
        Some(true)
    }
}

/// The value of the first field among `fields` from index `i` on that has
/// the given name.
pub open spec fn field_value(vals: ValuesModel, fields: Seq<usize>, name: Seq<char>, i: int) -> Option<
    usize,
>
    decreases fields.len() - i,
{
    if 0 <= i < fields.len() {
        match vals.node_at(fields[i]) {
            Some(ValNode::Field(n, v)) => if vals.text(n) == name {
                Some(v)
            } else {
                field_value(vals, fields, name, i + 1)
            },
            _ => field_value(vals, fields, name, i + 1),
        }
    } else {
        None
    }
}

/// Whether each field of `xs` from index `i` on has the same value as the
/// field of `ys` that has its name.
pub open spec fn alike_fields(
    vals: ValuesModel,
    xs: Seq<usize>,
    ys: Seq<usize>,
    i: int,
    fuel: nat,
) -> Option<bool>
    decreases fuel, 1 + xs.len() - i,
{
    if 0 <= i < xs.len() {
        match vals.node_at(xs[i]) {
            Some(ValNode::Field(n, v)) => match field_value(vals, ys, vals.text(n), 0) {
                Some(w) => match alike(vals, v, w, fuel) {
                    Some(true) => alike_fields(vals, xs, ys, i + 1, fuel),
                    other => other,
                },
                None => Some(false),
            },
            _ => Some(false),
        }
    } else {
        Some(true)
    }
}

/// The value of the first field among `fields` that has the given name.
pub fn find_field(vals: &Values, fields: &Vec<usize>, name: &Vec<char>) -> (r: Option<usize>)
    ensures
        r == field_value(vals@, fields@, name@, 0),
{
    let mut i: usize = 0;
    while i < fields.len()
        invariant
            i <= fields@.len(),
            field_value(vals@, fields@, name@, 0) == field_value(vals@, fields@, name@, i as int),
        decreases fields.len() - i,
    {
        match vals.node(fields[i]) {
            Some(ValNode::Field(n, v)) => {
                let text = vals.text(n);
                if same(&text, name) {
                    return Some(v);
                }
            },
            _ => {},
        }
        i = i + 1;
    }
    None
}

/// Whether two values are the same.
pub fn equal(vals: &Values, a: usize, b: usize, fuel: usize) -> (r: Option<bool>)
    ensures
        r == alike(vals@, a, b, fuel as nat),
    decreases fuel, 0int,
{
    if fuel == 0 {
        return None;
    }
    match (vals.node(a), vals.node(b)) {
        (Some(ValNode::Int(x)), Some(ValNode::Int(y))) => Some(x == y),
        (Some(ValNode::Frac(x)), Some(ValNode::Frac(y))) => Some(x == y),
        (Some(ValNode::Int(x)), Some(ValNode::Frac(y))) => Some(scaled_is(x, y)),
        (Some(ValNode::Frac(x)), Some(ValNode::Int(y))) => Some(scaled_is(y, x)),
        (Some(ValNode::Str(x)), Some(ValNode::Str(y))) => {
            let s = vals.text(x);
            let t = vals.text(y);
            Some(same(&s, &t))
        },
        (Some(ValNode::List(x)), Some(ValNode::List(y))) => {
            let xs = vals.parts(x);
            let ys = vals.parts(y);
            if xs.len() == ys.len() {
                equal_all(vals, &xs, &ys, 0, fuel - 1)
            } else {
                Some(false)
            }
        },
        (Some(ValNode::Tag(n, x)), Some(ValNode::Tag(m, y))) => {
            let s = vals.text(n);
            let t = vals.text(m);
            let xs = vals.parts(x);
            let ys = vals.parts(y);
            if same(&s, &t) && xs.len() == ys.len() {
                equal_all(vals, &xs, &ys, 0, fuel - 1)
            } else {
                Some(false)
            }
        },
        (Some(ValNode::Record(x)), Some(ValNode::Record(y))) => {
            let xs = vals.parts(x);
            let ys = vals.parts(y);
            if xs.len() == ys.len() {
                equal_fields(vals, &xs, &ys, 0, fuel - 1)
            } else {
                Some(false)
            }
        },
        _ => Some(false),
    }
}

/// Whether the whole number `x` is the fraction `y`.
fn scaled_is(x: i128, y: i128) -> (r: bool)
    ensures
        r == (x * UNIT == y),
{
    match x.checked_mul(UNIT) {
        Some(scaled) => scaled == y,
        None => false,
    }
}

/// Whether the values of `xs` and `ys` at the same indices from `i` on are
/// the same.
pub fn equal_all(vals: &Values, xs: &Vec<usize>, ys: &Vec<usize>, i: usize, fuel: usize) -> (r:
    Option<bool>)
    ensures
        r == alike_all(vals@, xs@, ys@, i as int, fuel as nat),
    decreases fuel, 1 + xs@.len() - i,
{
    if i < xs.len() && i < ys.len() {
        match equal(vals, xs[i], ys[i], fuel) {
            Some(true) => equal_all(vals, xs, ys, i + 1, fuel),
            other => other,
        }
    } else {
        Some(true)
    }
}

/// Whether each field of `xs` from index `i` on has the same value as the
/// field of `ys` that has its name.
pub fn equal_fields(vals: &Values, xs: &Vec<usize>, ys: &Vec<usize>, i: usize, fuel: usize) -> (r:
    Option<bool>)
    ensures
        r == alike_fields(vals@, xs@, ys@, i as int, fuel as nat),
    decreases fuel, 1 + xs@.len() - i,
{
    if i < xs.len() {
        match vals.node(xs[i]) {
            Some(ValNode::Field(n, v)) => {
                let name = vals.text(n);
                match find_field(vals, ys, &name) {
                    Some(w) => match equal(vals, v, w, fuel) {
                        Some(true) => equal_fields(vals, xs, ys, i + 1, fuel),
                        other => other,
                    },
                    None => Some(false),
                }
            },
            _ => Some(false),
        }
    } else {
        Some(true)
    }
}

} // verus!
