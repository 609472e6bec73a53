//! The types that inference works on, and their unification.
//!
//! While inference runs, types live in an arena. A variable is a node of
//! its own; binding it turns the node into a link to the type that it
//! stands for, so everything that mentions the variable sees the binding.
//! An alias keeps its name until it meets a type of another name; then it
//! gives way to what it stands for.

use vstd::prelude::*;
use crate::syntax::Span;
use crate::text::{chars_of, inserted, le, lemma_inserted_at, precedes};
use crate::types::{
    type_model, types_model, Ext, FieldType, FieldTypeModel, TagType, TagTypeModel, Type, TypeModel,
};

verus! {

/// How many steps a walk over types may take before it gives up.
pub const FUEL: usize = 100_000;

/// The name of a type, a tag or a field: a stretch of the source, or one of
/// the names that inference itself brings.
#[derive(Clone, Copy, Debug, PartialEq, Eq, Structural)]
pub enum Name {
    Text(Span),
    Num,
    Int,
    Float,
    Str,
    List,
    Bool,
}

/// A node of the arena of types.
#[derive(Clone, Copy, Debug, PartialEq, Eq, Structural)]
pub enum TyNode {
    /// A variable that stands for nothing yet.
    Var,
    /// A variable that stands for the type at this index.
    Link(usize),
    /// The end of a tag union that is closed.
    Closed,
    /// A named type applied to the arguments in this stretch of links.
    Apply(Name, Span),
    /// A record of the fields in this stretch of links.
    Record(Span),
    /// A field of a record and its type.
    Field(Name, usize),
    /// A tag union: the tags in this stretch of links, and the rest of the
    /// union, which is a variable, a closed end or a further union.
    Union(Span, usize),
    /// A tag of a union with the types of its payload.
    Tag(Name, Span),
    /// A function type: parameters and result.
    Function(Span, usize),
}

/// The arena of types.
#[derive(Debug, PartialEq, Eq)]
pub struct Types {
    pub nodes: Vec<TyNode>,
    pub links: Vec<usize>,
}

/// The mathematical model of [`Types`].
pub struct TypesModel {
    pub nodes: Seq<TyNode>,
    pub links: Seq<usize>,
}

impl View for Types {
    type V = TypesModel;

    open spec fn view(&self) -> TypesModel {
        TypesModel { nodes: self.nodes@, links: self.links@ }
    }
}

/// The characters of a name.
pub open spec fn name_text(chars: Seq<char>, name: Name) -> Seq<char> {
    match name {
        Name::Text(span) => if span.start <= span.end <= chars.len() {
            chars.subrange(span.start as int, span.end as int)
        } else {
            Seq::empty()
        },
        Name::Num => "Num"@,
        Name::Int => "Int"@,
        Name::Float => "Float"@,
        Name::Str => "Str"@,
        Name::List => "List"@,
        Name::Bool => "Bool"@,
    }
}

/// The characters of a name.
pub fn text_of_name(chars: &Vec<char>, name: Name) -> (r: Vec<char>)
    ensures
        r@ == name_text(chars@, name),
{
    match name {
        Name::Text(span) => {
            let mut out: Vec<char> = Vec::new();
            if span.start <= span.end && span.end <= chars.len() {
                let mut i: usize = span.start;
                while i < span.end
                    invariant
                        span.start <= i <= span.end <= chars@.len(),
                        out@ == chars@.subrange(span.start as int, i as int),
                    decreases span.end - i,
                {
                    out.push(chars[i]);
                    i = i + 1;
                }
            }
            out
        },
        Name::Num => chars_of("Num"),
        Name::Int => chars_of("Int"),
        Name::Float => chars_of("Float"),
        Name::Str => chars_of("Str"),
        Name::List => chars_of("List"),
        Name::Bool => chars_of("Bool"),
    }
}

/// Whether two names have the same characters.
pub fn same_name(chars: &Vec<char>, a: Name, b: Name) -> (r: bool)
    ensures
        r == (name_text(chars@, a) == name_text(chars@, b)),
{
    let x = text_of_name(chars, a);
    let y = text_of_name(chars, b);
    crate::text::same(&x, &y)
}

impl TypesModel {
    /// The arena with one more node, and the index of that node.
    pub open spec fn with_node(self, node: TyNode) -> (TypesModel, usize) {
        (TypesModel { nodes: self.nodes.push(node), links: self.links }, self.nodes.len() as usize)
    }

    /// The arena with the parts appended to the links, and their stretch.
    pub open spec fn with_links(self, parts: Seq<usize>) -> (TypesModel, Span) {
        (
            TypesModel { nodes: self.nodes, links: self.links + parts },
            Span { start: self.links.len() as usize, end: (self.links.len() + parts.len()) as usize },
        )
    }

    /// The arena with the node at `index` replaced; unchanged where there
    /// is no such node.
    pub open spec fn with_bound(self, index: usize, node: TyNode) -> TypesModel {
        if index < self.nodes.len() {
            TypesModel { nodes: self.nodes.update(index as int, node), links: self.links }
        } else {
            self
        }
    }

    /// The node at `index`.
    pub open spec fn node_at(self, index: usize) -> Option<TyNode> {
        if index < self.nodes.len() {
            Some(self.nodes[index as int])
        } else {
            None
        }
    }

    /// How many parts the stretch has, where it lies in the links.
    pub open spec fn count(self, span: Span) -> usize {
        if span.start <= span.end <= self.links.len() {
            (span.end - span.start) as usize
        } else {
            0
        }
    }

    /// The parts of the stretch, in order.
    pub open spec fn parts(self, span: Span) -> Seq<usize> {
        if span.start <= span.end <= self.links.len() {
            self.links.subrange(span.start as int, span.end as int)
        } else {
            Seq::empty()
        }
    }

    /// The part at index `i` of the stretch.
    pub open spec fn part(self, span: Span, i: int) -> usize {
        if 0 <= i < self.count(span) {
            self.links[span.start + i]
        } else {
            0
        }
    }

    /// The type that `node` stands for: the end of its chain of links.
    pub open spec fn resolved(self, node: usize, fuel: nat) -> usize
        decreases fuel,
    {
        if fuel == 0 {
            node
        } else {
            match self.node_at(node) {
                Some(TyNode::Link(target)) => self.resolved(target, (fuel - 1) as nat),
                _ => node,
            }
        }
    }
}

impl Types {
    /// An empty arena.
    pub fn new() -> (r: Types)
        ensures
            r@.nodes =~= Seq::<TyNode>::empty(),
            r@.links =~= Seq::<usize>::empty(),
    {
        Types { nodes: Vec::new(), links: Vec::new() }
    }

    /// Adds a node and returns its index.
    pub fn add(&mut self, node: TyNode) -> (index: usize)
        ensures
            (final(self)@, index) == old(self)@.with_node(node),
    {
        let index = self.nodes.len();
        self.nodes.push(node);
        index
    }

    /// Appends the parts to the links and returns their stretch.
    pub fn link(&mut self, parts: &Vec<usize>) -> (span: Span)
        ensures
            (final(self)@, span) == old(self)@.with_links(parts@),
    {
        let start = self.links.len();
        let mut i: usize = 0;
        while i < parts.len()
            invariant
                i <= parts.len(),
                start == old(self).links@.len(),
                self.nodes@ == old(self).nodes@,
                self.links@ == old(self).links@ + parts@.take(i as int),
            decreases parts.len() - i,
        {
            self.links.push(parts[i]);
            assert(self.links@ =~= old(self).links@ + parts@.take(i + 1));
            i = i + 1;
        }
        assert(parts@.take(i as int) =~= parts@);
        Span { start, end: self.links.len() }
    }

    /// Replaces the node at `index`.
    pub fn bind(&mut self, index: usize, node: TyNode)
        ensures
            final(self)@ == old(self)@.with_bound(index, node),
    {
        if index < self.nodes.len() {
            self.nodes.set(index, node);
        }
    }

    /// The node at `index`.
    pub fn node(&self, index: usize) -> (r: Option<TyNode>)
        ensures
            r == self@.node_at(index),
    {
        if index < self.nodes.len() {
            Some(self.nodes[index])
        } else {
            None
        }
    }

    /// How many parts the stretch has.
    pub fn count(&self, span: Span) -> (r: usize)
        ensures
            r == self@.count(span),
    {
        if span.start <= span.end && span.end <= self.links.len() {
            span.end - span.start
        } else {
            0
        }
    }

    /// The part at index `i` of the stretch.
    pub fn part(&self, span: Span, i: usize) -> (r: usize)
        ensures
            r == self@.part(span, i as int),
    {
        if i < self.count(span) {
            self.links[span.start + i]
        } else {
            0
        }
    }

    /// The type that `node` stands for.
    pub fn resolve(&self, node: usize, fuel: usize) -> (r: usize)
        ensures
            r == self@.resolved(node, fuel as nat),
        decreases fuel,
    {
        if fuel == 0 {
            node
        } else {
            match self.node(node) {
                Some(TyNode::Link(target)) => self.resolve(target, fuel - 1),
                _ => node,
            }
        }
    }
}

/// The declaration of a named type: its parameters, which are variables of
/// the arena, and the type that it stands for.
#[derive(Clone, Copy, Debug, PartialEq, Eq, Structural)]
pub struct AliasDef {
    pub name: Name,
    pub params: Span,
    pub body: usize,
}

/// The latest of the first `n` declarations that has the given name.
pub open spec fn found_alias(chars: Seq<char>, aliases: Seq<AliasDef>, name: Name, n: int) -> Option<
    AliasDef,
>
    decreases n,
{
    if n <= 0 || n > aliases.len() {
        None
    } else if name_text(chars, aliases[n - 1].name) == name_text(chars, name) {
        Some(aliases[n - 1])
    } else {
        found_alias(chars, aliases, name, n - 1)
    }
}

/// The latest declaration that has the given name.
pub fn find_alias(chars: &Vec<char>, aliases: &Vec<AliasDef>, name: Name) -> (r: Option<AliasDef>)
    ensures
        r == found_alias(chars@, aliases@, name, aliases@.len() as int),
{
    let mut n: usize = aliases.len();
    while n > 0
        invariant
            n <= aliases@.len(),
            found_alias(chars@, aliases@, name, aliases@.len() as int) == found_alias(
                chars@,
                aliases@,
                name,
                n as int,
            ),
        decreases n,
    {
        if same_name(chars, aliases[n - 1].name, name) {
            return Some(aliases[n - 1]);
        }
        n = n - 1;
    }
    None
}

/// What the latest of the first `n` entries of the map gives for `v`.
pub open spec fn mapped(map: Seq<(usize, usize)>, v: usize, n: int) -> Option<usize>
    decreases n,
{
    if n <= 0 || n > map.len() {
        None
    } else if map[n - 1].0 == v {
        Some(map[n - 1].1)
    } else {
        mapped(map, v, n - 1)
    }
}

/// What the map gives for `v`.
pub fn lookup(map: &Vec<(usize, usize)>, v: usize) -> (r: Option<usize>)
    ensures
        r == mapped(map@, v, map@.len() as int),
{
    let mut n: usize = map.len();
    while n > 0
        invariant
            n <= map@.len(),
            mapped(map@, v, map@.len() as int) == mapped(map@, v, n as int),
        decreases n,
    {
        if map[n - 1].0 == v {
            return Some(map[n - 1].1);
        }
        n = n - 1;
    }
    None
}

/// Whether the arena `next` holds all that the arena `t` holds, each node
/// and each link at its place: what was added to `t` came after them.
pub open spec fn extends(t: TypesModel, next: TypesModel) -> bool {
    &&& t.nodes.len() <= next.nodes.len()
    &&& t.links.len() <= next.links.len()
    &&& forall|i: int| 0 <= i < t.nodes.len() ==> #[trigger] next.nodes[i] == t.nodes[i]
    &&& forall|i: int| 0 <= i < t.links.len() ==> #[trigger] next.links[i] == t.links[i]
}

/// What copying gives: the arena with the copy, the map of the variables
/// that were met, and the index of the copy.
pub struct Copied {
    pub types: TypesModel,
    pub map: Seq<(usize, usize)>,
    pub node: usize,
}

/// What copying a stretch of parts gives.
pub struct CopiedAll {
    pub types: TypesModel,
    pub map: Seq<(usize, usize)>,
    pub nodes: Seq<usize>,
}

/// A copy of the type at `node` in which every variable is replaced by
/// what the map gives for it; a variable that the map does not hold gets a
/// fresh variable, which the map then holds. `None` where the walk runs
/// out of fuel.
pub open spec fn copied(t: TypesModel, map: Seq<(usize, usize)>, node: usize, fuel: nat) -> Option<
    Copied,
>
    decreases fuel, 0int,
{
    if fuel == 0 {
        None
    } else {
        let r = t.resolved(node, fuel);
        match t.node_at(r) {
            Some(TyNode::Var) => match mapped(map, r, map.len() as int) {
                Some(target) => Some(Copied { types: t, map, node: target }),
                None => {
                    let (grown, fresh) = t.with_node(TyNode::Var);
                    Some(Copied { types: grown, map: map.push((r, fresh)), node: fresh })
                },
            },
            Some(TyNode::Closed) => Some(Copied { types: t, map, node: r }),
            Some(TyNode::Apply(name, args)) => match copied_all(
                t,
                map,
                args,
                0,
                (fuel - 1) as nat,
            ) {
                Some(c) => {
                    let (linked, span) = c.types.with_links(c.nodes);
                    let (grown, index) = linked.with_node(TyNode::Apply(name, span));
                    Some(Copied { types: grown, map: c.map, node: index })
                },
                None => None,
            },
            Some(TyNode::Record(fields)) => match copied_all(t, map, fields, 0, (fuel - 1) as nat) {
                Some(c) => {
                    let (linked, span) = c.types.with_links(c.nodes);
                    let (grown, index) = linked.with_node(TyNode::Record(span));
                    Some(Copied { types: grown, map: c.map, node: index })
                },
                None => None,
            },
            Some(TyNode::Field(name, ty)) => match copied(t, map, ty, (fuel - 1) as nat) {
                Some(c) => {
                    let (grown, index) = c.types.with_node(TyNode::Field(name, c.node));
                    Some(Copied { types: grown, map: c.map, node: index })
                },
                None => None,
            },
            Some(TyNode::Union(tags, ext)) => match copied_all(t, map, tags, 0, (fuel - 1) as nat) {
                Some(c) => match copied(c.types, c.map, ext, (fuel - 1) as nat) {
                    Some(e) => {
                        let (linked, span) = e.types.with_links(c.nodes);
                        let (grown, index) = linked.with_node(TyNode::Union(span, e.node));
                        Some(Copied { types: grown, map: e.map, node: index })
                    },
                    None => None,
                },
                None => None,
            },
            Some(TyNode::Tag(name, args)) => match copied_all(t, map, args, 0, (fuel - 1) as nat) {
                Some(c) => {
                    let (linked, span) = c.types.with_links(c.nodes);
                    let (grown, index) = linked.with_node(TyNode::Tag(name, span));
                    Some(Copied { types: grown, map: c.map, node: index })
                },
                None => None,
            },
            Some(TyNode::Function(params, ret)) => match copied_all(
                t,
                map,
                params,
                0,
                (fuel - 1) as nat,
            ) {
                Some(c) => match copied(c.types, c.map, ret, (fuel - 1) as nat) {
                    Some(e) => {
                        let (linked, span) = e.types.with_links(c.nodes);
                        let (grown, index) = linked.with_node(TyNode::Function(span, e.node));
                        Some(Copied { types: grown, map: e.map, node: index })
                    },
                    None => None,
                },
                None => None,
            },
            _ => None,
        }
    }
}

/// Copies of the parts of the stretch from index `i` on.
pub open spec fn copied_all(
    t: TypesModel,
    map: Seq<(usize, usize)>,
    span: Span,
    i: int,
    fuel: nat,
) -> Option<CopiedAll>
    decreases fuel, 1 + t.count(span) - i,
{
    if 0 <= i < t.count(span) {
        match copied(t, map, t.part(span, i), fuel) {
            Some(c) => if c.types.count(span) == t.count(span) {
                match copied_all(c.types, c.map, span, i + 1, fuel) {
                    Some(rest) => Some(
                        CopiedAll { types: rest.types, map: rest.map, nodes: seq![c.node] + rest.nodes },
                    ),
                    None => None,
                }
            } else {
                None
            },
            None => None,
        }
    } else {
        Some(CopiedAll { types: t, map, nodes: Seq::empty() })
    }
}

/// Copies the type at `node`, replacing every variable by what the map
/// gives for it, and by a fresh variable where the map does not hold it.
/// Whether the walk has fuel enough or not, the arena only grows.
pub fn copy(types: &mut Types, map: &mut Vec<(usize, usize)>, node: usize, fuel: usize) -> (r:
    Option<usize>)
    ensures
        extends(old(types)@, final(types)@),
        match copied(old(types)@, old(map)@, node, fuel as nat) {
            Some(c) => r == Some(c.node) && final(types)@ == c.types && final(map)@ == c.map,
            None => r is None,
        },
    decreases fuel, 0int,
{
    if fuel == 0 {
        return None;
    }
    let r = types.resolve(node, fuel);
    match types.node(r) {
        Some(TyNode::Var) => match lookup(map, r) {
            Some(target) => Some(target),
            None => {
                let fresh = types.add(TyNode::Var);
                map.push((r, fresh));
                Some(fresh)
            },
        },
        Some(TyNode::Closed) => Some(r),
        Some(TyNode::Apply(name, args)) => {
            let mut nodes: Vec<usize> = Vec::new();
            if !copy_all(types, map, &mut nodes, args, 0, fuel - 1) {
                return None;
            }
            assert(nodes@ =~= Seq::<usize>::empty() + nodes@);
            let span = types.link(&nodes);
            Some(types.add(TyNode::Apply(name, span)))
        },
        Some(TyNode::Record(fields)) => {
            let mut nodes: Vec<usize> = Vec::new();
            if !copy_all(types, map, &mut nodes, fields, 0, fuel - 1) {
                return None;
            }
            assert(nodes@ =~= Seq::<usize>::empty() + nodes@);
            let span = types.link(&nodes);
            Some(types.add(TyNode::Record(span)))
        },
        Some(TyNode::Field(name, ty)) => match copy(types, map, ty, fuel - 1) {
            Some(c) => Some(types.add(TyNode::Field(name, c))),
            None => None,
        },
        Some(TyNode::Union(tags, ext)) => {
            let mut nodes: Vec<usize> = Vec::new();
            if !copy_all(types, map, &mut nodes, tags, 0, fuel - 1) {
                return None;
            }
            assert(nodes@ =~= Seq::<usize>::empty() + nodes@);
            match copy(types, map, ext, fuel - 1) {
                Some(e) => {
                    let span = types.link(&nodes);
                    Some(types.add(TyNode::Union(span, e)))
                },
                None => None,
            }
        },
        Some(TyNode::Tag(name, args)) => {
            let mut nodes: Vec<usize> = Vec::new();
            if !copy_all(types, map, &mut nodes, args, 0, fuel - 1) {
                return None;
            }
            assert(nodes@ =~= Seq::<usize>::empty() + nodes@);
            let span = types.link(&nodes);
            Some(types.add(TyNode::Tag(name, span)))
        },
        Some(TyNode::Function(params, ret)) => {
            let mut nodes: Vec<usize> = Vec::new();
            if !copy_all(types, map, &mut nodes, params, 0, fuel - 1) {
                return None;
            }
            assert(nodes@ =~= Seq::<usize>::empty() + nodes@);
            match copy(types, map, ret, fuel - 1) {
                Some(e) => {
                    let span = types.link(&nodes);
                    Some(types.add(TyNode::Function(span, e)))
                },
                None => None,
            }
        },
        _ => None,
    }
}

/// Copies the parts of the stretch from index `i` on, and appends the
/// copies to `out`. Returns whether the walk had fuel enough.
pub fn copy_all(
    types: &mut Types,
    map: &mut Vec<(usize, usize)>,
    out: &mut Vec<usize>,
    span: Span,
    i: usize,
    fuel: usize,
) -> (r: bool)
    ensures
        extends(old(types)@, final(types)@),
        match copied_all(old(types)@, old(map)@, span, i as int, fuel as nat) {
            Some(c) => r && final(types)@ == c.types && final(map)@ == c.map && final(out)@
                == old(out)@ + c.nodes,
            None => !r,
        },
    decreases fuel, 1 + old(types)@.count(span) - i,
{
    let n = types.count(span);
    if i < n {
        match copy(types, map, types.part(span, i), fuel) {
            Some(c) => {
                if types.count(span) != n {
                    return false;
                }
                out.push(c);
                let ghost mid = types@;
                let ghost mid_map = map@;
                let r = copy_all(types, map, out, span, i + 1, fuel);
                proof {
                    match copied_all(mid, mid_map, span, i + 1, fuel as nat) {
                        Some(rest) => {
                            assert(old(out)@.push(c) + rest.nodes =~= old(out)@ + (seq![c]
                                + rest.nodes));
                        },
                        None => {},
                    }
                }
                r
            },
            None => false,
        }
    } else {
        assert(out@ + Seq::<usize>::empty() =~= out@);
        true
    }
}

/// Whether the variable `v` stands somewhere in the type at `node`. A walk
/// that runs out of fuel counts as a find.
pub open spec fn occurs(t: TypesModel, v: usize, node: usize, fuel: nat) -> bool
    decreases fuel, 0int,
{
    if fuel == 0 {
        true
    } else {
        let r = t.resolved(node, fuel);
        if r == v {
            true
        } else {
            match t.node_at(r) {
                Some(TyNode::Apply(_, args)) => occurs_in(t, v, args, 0, (fuel - 1) as nat),
                Some(TyNode::Record(fields)) => occurs_in(t, v, fields, 0, (fuel - 1) as nat),
                Some(TyNode::Field(_, ty)) => occurs(t, v, ty, (fuel - 1) as nat),
                Some(TyNode::Union(tags, ext)) => occurs_in(t, v, tags, 0, (fuel - 1) as nat)
                    || occurs(t, v, ext, (fuel - 1) as nat),
                Some(TyNode::Tag(_, args)) => occurs_in(t, v, args, 0, (fuel - 1) as nat),
                Some(TyNode::Function(params, ret)) => occurs_in(
                    t,
                    v,
                    params,
                    0,
                    (fuel - 1) as nat,
                ) || occurs(t, v, ret, (fuel - 1) as nat),
                _ => false,
            }
        }
    }
}

/// Whether the variable `v` stands in a part of the stretch from index `i` on.
pub open spec fn occurs_in(t: TypesModel, v: usize, span: Span, i: int, fuel: nat) -> bool
    decreases fuel, 1 + t.count(span) - i,
{
    if 0 <= i < t.count(span) {
        occurs(t, v, t.part(span, i), fuel) || occurs_in(t, v, span, i + 1, fuel)
    } else {
        false
    }
}

/// Whether the variable `v` stands somewhere in the type at `node`.
pub fn check_occurs(types: &Types, v: usize, node: usize, fuel: usize) -> (r: bool)
    ensures
        r == occurs(types@, v, node, fuel as nat),
    decreases fuel, 0int,
{
    if fuel == 0 {
        return true;
    }
    let r = types.resolve(node, fuel);
    if r == v {
        return true;
    }
    match types.node(r) {
        Some(TyNode::Apply(_, args)) => check_occurs_in(types, v, args, 0, fuel - 1),
        Some(TyNode::Record(fields)) => check_occurs_in(types, v, fields, 0, fuel - 1),
        Some(TyNode::Field(_, ty)) => check_occurs(types, v, ty, fuel - 1),
        Some(TyNode::Union(tags, ext)) => check_occurs_in(types, v, tags, 0, fuel - 1)
            || check_occurs(types, v, ext, fuel - 1),
        Some(TyNode::Tag(_, args)) => check_occurs_in(types, v, args, 0, fuel - 1),
        Some(TyNode::Function(params, ret)) => check_occurs_in(types, v, params, 0, fuel - 1)
            || check_occurs(types, v, ret, fuel - 1),
        _ => false,
    }
}

/// Whether the variable `v` stands in a part of the stretch from index `i` on.
pub fn check_occurs_in(types: &Types, v: usize, span: Span, i: usize, fuel: usize) -> (r: bool)
    ensures
        r == occurs_in(types@, v, span, i as int, fuel as nat),
    decreases fuel, 1 + types@.count(span) - i,
{
    if i < types.count(span) {
        check_occurs(types, v, types.part(span, i), fuel) || check_occurs_in(
            types,
            v,
            span,
            i + 1,
            fuel,
        )
    } else {
        false
    }
}

/// The pairs of the parts of two stretches from index `i` up to `n`.
pub open spec fn zipped(t: TypesModel, params: Span, args: Span, i: int, n: int) -> Seq<
    (usize, usize),
>
    decreases n - i,
{
    if 0 <= i < n {
        seq![(t.part(params, i), t.part(args, i))] + zipped(t, params, args, i + 1, n)
    } else {
        Seq::empty()
    }
}

/// The declaration of the named type at `node`, where its name is declared
/// with as many parameters as the type has arguments.
pub open spec fn alias_of(t: TypesModel, chars: Seq<char>, aliases: Seq<AliasDef>, node: usize) -> Option<
    AliasDef,
> {
    match t.node_at(node) {
        Some(TyNode::Apply(name, args)) => match found_alias(
            chars,
            aliases,
            name,
            aliases.len() as int,
        ) {
            Some(alias) => if t.count(alias.params) == t.count(args) {
                Some(alias)
            } else {
                None
            },
            None => None,
        },
        _ => None,
    }
}

/// The arguments of the named type at `node`.
pub open spec fn arguments_of(t: TypesModel, node: usize) -> Span {
    match t.node_at(node) {
        Some(TyNode::Apply(_, args)) => args,
        _ => Span { start: 0, end: 0 },
    }
}

/// The type that the named type at `node` stands for by the declaration
/// `alias`: a copy of the declared type with the arguments in place of the
/// parameters.
pub open spec fn expanded(t: TypesModel, alias: AliasDef, node: usize, fuel: nat) -> Option<
    (TypesModel, usize),
> {
    let args = arguments_of(t, node);
    match copied(t, zipped(t, alias.params, args, 0, t.count(args) as int), alias.body, fuel) {
        Some(c) => Some((c.types, c.node)),
        None => None,
    }
}

/// The declaration of the named type at `node`.
pub fn find_alias_of(types: &Types, chars: &Vec<char>, aliases: &Vec<AliasDef>, node: usize) -> (r:
    Option<AliasDef>)
    ensures
        r == alias_of(types@, chars@, aliases@, node),
{
    match types.node(node) {
        Some(TyNode::Apply(name, args)) => match find_alias(chars, aliases, name) {
            Some(alias) => {
                if types.count(alias.params) == types.count(args) {
                    Some(alias)
                } else {
                    None
                }
            },
            None => None,
        },
        _ => None,
    }
}

/// The type that the named type at `node` stands for by the declaration
/// `alias`. Whether there is one or not, the arena only grows.
pub fn expand(types: &mut Types, alias: AliasDef, node: usize, fuel: usize) -> (r: Option<usize>)
    ensures
        extends(old(types)@, final(types)@),
        match expanded(old(types)@, alias, node, fuel as nat) {
            Some((t, e)) => r == Some(e) && final(types)@ == t,
            None => r is None,
        },
{
    let args = match types.node(node) {
        Some(TyNode::Apply(_, args)) => args,
        _ => Span { start: 0, end: 0 },
    };
    let n = types.count(args);
    let mut map: Vec<(usize, usize)> = Vec::new();
    let mut i: usize = 0;
    while i < n
        invariant
            i <= n,
            types@ == old(types)@,
            map@ + zipped(types@, alias.params, args, i as int, n as int) == zipped(
                types@,
                alias.params,
                args,
                0,
                n as int,
            ),
        decreases n - i,
    {
        let ghost before = map@;
        map.push((types.part(alias.params, i), types.part(args, i)));
        assert(map@ + zipped(types@, alias.params, args, i + 1, n as int) =~= before + zipped(
            types@,
            alias.params,
            args,
            i as int,
            n as int,
        ));
        i = i + 1;
    }
    assert(map@ + Seq::<(usize, usize)>::empty() =~= map@);
    copy(types, &mut map, alias.body, fuel)
}

/// The tags of the row at `node`, through every union that continues it,
/// and the end of the row: a variable or a closed end.
pub open spec fn row(t: TypesModel, node: usize, fuel: nat) -> Option<(Seq<usize>, usize)>
    decreases fuel,
{
    if fuel == 0 {
        None
    } else {
        let r = t.resolved(node, fuel);
        match t.node_at(r) {
            Some(TyNode::Var) => Some((Seq::empty(), r)),
            Some(TyNode::Closed) => Some((Seq::empty(), r)),
            Some(TyNode::Union(tags, ext)) => match row(t, ext, (fuel - 1) as nat) {
                Some((more, tail)) => Some((t.parts(tags) + more, tail)),
                None => None,
            },
            _ => None,
        }
    }
}

/// The name of the tag or the field at `node`.
pub open spec fn label(t: TypesModel, node: usize) -> Option<Name> {
    match t.node_at(node) {
        Some(TyNode::Tag(name, _)) => Some(name),
        Some(TyNode::Field(name, _)) => Some(name),
        _ => None,
    }
}

/// The first of `nodes` from index `i` on whose label has the characters of
/// `name`.
pub open spec fn found(t: TypesModel, chars: Seq<char>, nodes: Seq<usize>, name: Name, i: int) -> Option<
    usize,
>
    decreases nodes.len() - i,
{
    if 0 <= i < nodes.len() {
        match label(t, nodes[i]) {
            Some(other) => if name_text(chars, other) == name_text(chars, name) {
                Some(nodes[i])
            } else {
                found(t, chars, nodes, name, i + 1)
            },
            None => found(t, chars, nodes, name, i + 1),
        }
    } else {
        None
    }
}

/// Those of `xs` from index `i` on whose labels none of `ys` has.
pub open spec fn lacking(
    t: TypesModel,
    chars: Seq<char>,
    xs: Seq<usize>,
    ys: Seq<usize>,
    i: int,
) -> Seq<usize>
    decreases xs.len() - i,
{
    if 0 <= i < xs.len() {
        (match label(t, xs[i]) {
            Some(name) => if found(t, chars, ys, name, 0) is None {
                seq![xs[i]]
            } else {
                Seq::empty()
            },
            None => Seq::empty(),
        }) + lacking(t, chars, xs, ys, i + 1)
    } else {
        Seq::empty()
    }
}

/// The parts of the tag or the field at `node`: the payload of a tag, or
/// the one type of a field.
pub open spec fn payload(t: TypesModel, node: usize) -> Seq<usize> {
    match t.node_at(node) {
        Some(TyNode::Tag(_, args)) => t.parts(args),
        Some(TyNode::Field(_, ty)) => seq![ty],
        _ => Seq::empty(),
    }
}

/// The arena after the two types are made one, or `None` where they cannot
/// be: two types of different form, named types of different names that
/// stand for nothing, a variable that would stand inside its own type, a
/// closed union that lacks a tag, or a walk that runs out of fuel.
pub open spec fn unified(
    t: TypesModel,
    chars: Seq<char>,
    aliases: Seq<AliasDef>,
    a: usize,
    b: usize,
    fuel: nat,
) -> Option<TypesModel>
    decreases fuel, 0int,
{
    if fuel == 0 {
        None
    } else {
        let ra = t.resolved(a, fuel);
        let rb = t.resolved(b, fuel);
        if ra == rb {
            Some(t)
        } else {
            match (t.node_at(ra), t.node_at(rb)) {
                (Some(TyNode::Var), Some(_)) => if occurs(t, ra, rb, fuel) {
                    None
                } else {
                    Some(t.with_bound(ra, TyNode::Link(rb)))
                },
                (Some(_), Some(TyNode::Var)) => if occurs(t, rb, ra, fuel) {
                    None
                } else {
                    Some(t.with_bound(rb, TyNode::Link(ra)))
                },
                (Some(x), Some(y)) => if same_head(t, chars, x, y) {
                    unified_pairs(
                        t,
                        chars,
                        aliases,
                        parts_of(t, x),
                        parts_of(t, y),
                        0,
                        (fuel - 1) as nat,
                    )
                } else if x is Apply && alias_of(t, chars, aliases, ra) is Some {
                    match expanded(t, alias_of(t, chars, aliases, ra).unwrap(), ra, fuel) {
                        Some((grown, e)) => unified(grown, chars, aliases, e, rb, (fuel - 1) as nat),
                        None => None,
                    }
                } else if y is Apply && alias_of(t, chars, aliases, rb) is Some {
                    match expanded(t, alias_of(t, chars, aliases, rb).unwrap(), rb, fuel) {
                        Some((grown, e)) => unified(grown, chars, aliases, ra, e, (fuel - 1) as nat),
                        None => None,
                    }
                } else if x is Record && y is Record {
                    unified_fields(t, chars, aliases, parts_of(t, x), parts_of(t, y), (fuel - 1) as nat)
                } else if is_row(x) && is_row(y) {
                    unified_rows(t, chars, aliases, ra, rb, (fuel - 1) as nat)
                } else {
                    None
                },
                _ => None,
            }
        }
    }
}

/// Whether a node is a tag union or its closed end.
pub open spec fn is_row(x: TyNode) -> bool {
    x is Union || x is Closed
}

/// The parts of a type that are made one with the parts of another type of
/// the same head: the arguments of a named type, the parameters of a
/// function and then its result, the fields of a record.
pub open spec fn parts_of(t: TypesModel, x: TyNode) -> Seq<usize> {
    match x {
        TyNode::Apply(_, args) => t.parts(args),
        TyNode::Function(params, ret) => t.parts(params).push(ret),
        TyNode::Record(fields) => t.parts(fields),
        _ => Seq::empty(),
    }
}

/// Whether two types are made one part by part: named types of one name
/// and as many arguments, or functions of as many parameters.
pub open spec fn same_head(t: TypesModel, chars: Seq<char>, x: TyNode, y: TyNode) -> bool {
    match (x, y) {
        (TyNode::Apply(n1, a1), TyNode::Apply(n2, a2)) => name_text(chars, n1) == name_text(
            chars,
            n2,
        ) && t.count(a1) == t.count(a2),
        (TyNode::Function(p1, _), TyNode::Function(p2, _)) => t.count(p1) == t.count(p2),
        _ => false,
    }
}

/// The arena after the types of `xs` and `ys` at the same indices from `i`
/// on are made one.
pub open spec fn unified_pairs(
    t: TypesModel,
    chars: Seq<char>,
    aliases: Seq<AliasDef>,
    xs: Seq<usize>,
    ys: Seq<usize>,
    i: int,
    fuel: nat,
) -> Option<TypesModel>
    decreases fuel, 1 + xs.len() - i,
{
    if 0 <= i < xs.len() {
        if i < ys.len() {
            match unified(t, chars, aliases, xs[i], ys[i], fuel) {
                Some(next) => unified_pairs(next, chars, aliases, xs, ys, i + 1, fuel),
                None => None,
            }
        } else {
            None
        }
    } else {
        Some(t)
    }
}

/// The arena after each tag or field of `xs` from index `i` on is made one
/// with the one of `ys` that has its label, part by part; `None` where
/// `strict` is set and `ys` lacks the label.
pub open spec fn unified_labelled(
    t: TypesModel,
    chars: Seq<char>,
    aliases: Seq<AliasDef>,
    xs: Seq<usize>,
    ys: Seq<usize>,
    i: int,
    strict: bool,
    fuel: nat,
) -> Option<TypesModel>
    decreases fuel, 1 + xs.len() - i,
{
    if 0 <= i < xs.len() {
        match label(t, xs[i]) {
            Some(name) => match found(t, chars, ys, name, 0) {
                Some(other) => if payload(t, xs[i]).len() == payload(t, other).len() && fuel > 0 {
                    match unified_pairs(
                        t,
                        chars,
                        aliases,
                        payload(t, xs[i]),
                        payload(t, other),
                        0,
                        (fuel - 1) as nat,
                    ) {
                        Some(next) => unified_labelled(
                            next,
                            chars,
                            aliases,
                            xs,
                            ys,
                            i + 1,
                            strict,
                            fuel,
                        ),
                        None => None,
                    }
                } else {
                    None
                },
                None => if strict {
                    None
                } else {
                    unified_labelled(t, chars, aliases, xs, ys, i + 1, strict, fuel)
                },
            },
            None => None,
        }
    } else {
        Some(t)
    }
}

/// The arena after two records are made one: they have the same fields,
/// and the types of the fields of one name are made one.
pub open spec fn unified_fields(
    t: TypesModel,
    chars: Seq<char>,
    aliases: Seq<AliasDef>,
    xs: Seq<usize>,
    ys: Seq<usize>,
    fuel: nat,
) -> Option<TypesModel>
    decreases fuel, 2 + xs.len(),
{
    if xs.len() == ys.len() {
        unified_labelled(t, chars, aliases, xs, ys, 0, true, fuel)
    } else {
        None
    }
}

/// The arena after two tag unions are made one. The payloads of the tags
/// that both have are made one. A tag that only one has must fit into the
/// rest of the other: an open rest comes to hold it, a closed end refuses it.
pub open spec fn unified_rows(
    t: TypesModel,
    chars: Seq<char>,
    aliases: Seq<AliasDef>,
    a: usize,
    b: usize,
    fuel: nat,
) -> Option<TypesModel>
    decreases fuel, 0int,
{
    match (row(t, a, fuel), row(t, b, fuel)) {
        (Some((xs, x_end)), Some((ys, y_end))) => match unified_labelled(
            t,
            chars,
            aliases,
            xs,
            ys,
            0,
            false,
            (fuel - 1) as nat,
        ) {
            Some(shared) => {
                let only_x = lacking(shared, chars, xs, ys, 0);
                let only_y = lacking(shared, chars, ys, xs, 0);
                let ta = shared.resolved(x_end, fuel);
                let tb = shared.resolved(y_end, fuel);
                match (shared.node_at(ta), shared.node_at(tb)) {
                    (Some(TyNode::Var), Some(TyNode::Var)) => if ta == tb {
                        if only_x.len() == 0 && only_y.len() == 0 {
                            Some(shared)
                        } else {
                            None
                        }
                    } else {
                        let (t1, rest) = shared.with_node(TyNode::Var);
                        let (t2, span_y) = t1.with_links(only_y);
                        let (t3, union_y) = t2.with_node(TyNode::Union(span_y, rest));
                        let (t4, span_x) = t3.with_links(only_x);
                        let (t5, union_x) = t4.with_node(TyNode::Union(span_x, rest));
                        Some(
                            t5.with_bound(ta, TyNode::Link(union_y)).with_bound(
                                tb,
                                TyNode::Link(union_x),
                            ),
                        )
                    },
                    (Some(TyNode::Var), Some(TyNode::Closed)) => if only_x.len() == 0 {
                        let (t2, span_y) = shared.with_links(only_y);
                        let (t3, union_y) = t2.with_node(TyNode::Union(span_y, tb));
                        Some(t3.with_bound(ta, TyNode::Link(union_y)))
                    } else {
                        None
                    },
                    (Some(TyNode::Closed), Some(TyNode::Var)) => if only_y.len() == 0 {
                        let (t2, span_x) = shared.with_links(only_x);
                        let (t3, union_x) = t2.with_node(TyNode::Union(span_x, ta));
                        Some(t3.with_bound(tb, TyNode::Link(union_x)))
                    } else {
                        None
                    },
                    (Some(TyNode::Closed), Some(TyNode::Closed)) => if only_x.len() == 0
                        && only_y.len() == 0 {
                        Some(shared)
                    } else {
                        None
                    },
                    _ => None,
                }
            },
            None => None,
        },
        _ => None,
    }
}

/// Whether the outcome of a unification is the specified one.
pub open spec fn settled(r: bool, types: TypesModel, expected: Option<TypesModel>) -> bool {
    match expected {
        Some(t) => r && types == t,
        None => !r,
    }
}

/// The parts of a stretch of links.
pub fn span_parts(types: &Types, span: Span) -> (r: Vec<usize>)
    ensures
        r@ == types@.parts(span),
{
    let n = types.count(span);
    let mut out: Vec<usize> = Vec::new();
    let mut i: usize = 0;
    while i < n
        invariant
            i <= n,
            n == types@.count(span),
            out@ =~= types@.parts(span).take(i as int),
        decreases n - i,
    {
        out.push(types.links[span.start + i]);
        i = i + 1;
    }
    assert(types@.parts(span).take(n as int) =~= types@.parts(span));
    out
}

/// The parts of a type that are made one with the parts of another type.
fn parts(types: &Types, x: TyNode) -> (r: Vec<usize>)
    ensures
        r@ == parts_of(types@, x),
{
    match x {
        TyNode::Apply(_, args) => span_parts(types, args),
        TyNode::Function(params, ret) => {
            let mut out = span_parts(types, params);
            out.push(ret);
            out
        },
        TyNode::Record(fields) => span_parts(types, fields),
        _ => Vec::new(),
    }
}

/// The parts of the tag or the field at `node`.
fn payload_of(types: &Types, node: usize) -> (r: Vec<usize>)
    ensures
        r@ == payload(types@, node),
{
    match types.node(node) {
        Some(TyNode::Tag(_, args)) => span_parts(types, args),
        Some(TyNode::Field(_, ty)) => {
            let mut out: Vec<usize> = Vec::new();
            out.push(ty);
            out
        },
        _ => Vec::new(),
    }
}

/// The name of the tag or the field at `node`.
pub fn label_of(types: &Types, node: usize) -> (r: Option<Name>)
    ensures
        r == label(types@, node),
{
    match types.node(node) {
        Some(TyNode::Tag(name, _)) => Some(name),
        Some(TyNode::Field(name, _)) => Some(name),
        _ => None,
    }
}

/// The first of `nodes` whose label has the characters of `name`.
pub fn find(types: &Types, chars: &Vec<char>, nodes: &Vec<usize>, name: Name) -> (r: Option<usize>)
    ensures
        r == found(types@, chars@, nodes@, name, 0),
{
    let mut i: usize = 0;
    while i < nodes.len()
        invariant
            i <= nodes@.len(),
            found(types@, chars@, nodes@, name, 0) == found(types@, chars@, nodes@, name, i as int),
        decreases nodes.len() - i,
    {
        match label_of(types, nodes[i]) {
            Some(other) => {
                if same_name(chars, other, name) {
                    return Some(nodes[i]);
                }
            },
            None => {},
        }
        i = i + 1;
    }
    None
}

/// Those of `xs` whose labels none of `ys` has.
pub fn lack(types: &Types, chars: &Vec<char>, xs: &Vec<usize>, ys: &Vec<usize>) -> (r: Vec<usize>)
    ensures
        r@ == lacking(types@, chars@, xs@, ys@, 0),
{
    let mut out: Vec<usize> = Vec::new();
    let mut i: usize = 0;
    assert(out@ + lacking(types@, chars@, xs@, ys@, 0) =~= lacking(types@, chars@, xs@, ys@, 0));
    while i < xs.len()
        invariant
            i <= xs@.len(),
            out@ + lacking(types@, chars@, xs@, ys@, i as int) == lacking(
                types@,
                chars@,
                xs@,
                ys@,
                0,
            ),
        decreases xs.len() - i,
    {
        let ghost before = out@;
        match label_of(types, xs[i]) {
            Some(name) => {
                if find(types, chars, ys, name).is_none() {
                    out.push(xs[i]);
                }
            },
            None => {},
        }
        assert(out@ + lacking(types@, chars@, xs@, ys@, i + 1) =~= before + lacking(
            types@,
            chars@,
            xs@,
            ys@,
            i as int,
        ));
        i = i + 1;
    }
    assert(out@ + Seq::<usize>::empty() =~= out@);
    out
}

/// The tags of the row at `node` and the end of the row.
pub fn row_of(types: &Types, node: usize, fuel: usize) -> (r: Option<(Vec<usize>, usize)>)
    ensures
        match r {
            Some((tags, end)) => row(types@, node, fuel as nat) == Some((tags@, end)),
            None => row(types@, node, fuel as nat) is None,
        },
    decreases fuel,
{
    if fuel == 0 {
        return None;
    }
    let r = types.resolve(node, fuel);
    match types.node(r) {
        Some(TyNode::Var) => Some((Vec::new(), r)),
        Some(TyNode::Closed) => Some((Vec::new(), r)),
        Some(TyNode::Union(tags, ext)) => match row_of(types, ext, fuel - 1) {
            Some((more, end)) => {
                let mut out = span_parts(types, tags);
                append_all(&mut out, &more);
                Some((out, end))
            },
            None => None,
        },
        _ => None,
    }
}

/// Appends the indices of `tail` to `out`.
pub fn append_all(out: &mut Vec<usize>, tail: &Vec<usize>)
    ensures
        final(out)@ == old(out)@ + tail@,
{
    let mut i: usize = 0;
    while i < tail.len()
        invariant
            i <= tail.len(),
            out@ == old(out)@ + tail@.take(i as int),
        decreases tail.len() - i,
    {
        out.push(tail[i]);
        assert(out@ =~= old(out)@ + tail@.take(i + 1));
        i = i + 1;
    }
    assert(tail@.take(i as int) =~= tail@);
}

/// Whether two types are made one part by part.
fn heads_match(types: &Types, chars: &Vec<char>, x: TyNode, y: TyNode) -> (r: bool)
    ensures
        r == same_head(types@, chars@, x, y),
{
    match (x, y) {
        (TyNode::Apply(n1, a1), TyNode::Apply(n2, a2)) => same_name(chars, n1, n2) && types.count(
            a1,
        ) == types.count(a2),
        (TyNode::Function(p1, _), TyNode::Function(p2, _)) => types.count(p1) == types.count(p2),
        _ => false,
    }
}

/// Makes the two types one. Returns whether they could be made one; where
/// not, the arena holds what was bound until the types were found to differ.
pub fn unify(
    types: &mut Types,
    chars: &Vec<char>,
    aliases: &Vec<AliasDef>,
    a: usize,
    b: usize,
    fuel: usize,
) -> (r: bool)
    ensures
        settled(r, final(types)@, unified(old(types)@, chars@, aliases@, a, b, fuel as nat)),
    decreases fuel, 0int,
{
    if fuel == 0 {
        return false;
    }
    let ra = types.resolve(a, fuel);
    let rb = types.resolve(b, fuel);
    if ra == rb {
        return true;
    }
    match (types.node(ra), types.node(rb)) {
        (Some(TyNode::Var), Some(_)) => {
            if check_occurs(types, ra, rb, fuel) {
                return false;
            } else {
                types.bind(ra, TyNode::Link(rb));
                return true;
            }
        },
        (Some(_), Some(TyNode::Var)) => {
            if check_occurs(types, rb, ra, fuel) {
                return false;
            } else {
                types.bind(rb, TyNode::Link(ra));
                return true;
            }
        },
        (Some(x), Some(y)) => {
            if heads_match(types, chars, x, y) {
                let xs = parts(types, x);
                let ys = parts(types, y);
                return unify_pairs(types, chars, aliases, &xs, &ys, 0, fuel - 1);
            }
            let is_apply_x = match x {
                TyNode::Apply(_, _) => true,
                _ => false,
            };
            let is_apply_y = match y {
                TyNode::Apply(_, _) => true,
                _ => false,
            };
            if is_apply_x {
                match find_alias_of(types, chars, aliases, ra) {
                    Some(alias) => {
                        return match expand(types, alias, ra, fuel) {
                            Some(e) => unify(types, chars, aliases, e, rb, fuel - 1),
                            None => false,
                        };
                    },
                    None => {},
                }
            }
            if is_apply_y {
                match find_alias_of(types, chars, aliases, rb) {
                    Some(alias) => {
                        return match expand(types, alias, rb, fuel) {
                            Some(e) => unify(types, chars, aliases, ra, e, fuel - 1),
                            None => false,
                        };
                    },
                    None => {},
                }
            }
            let is_record_x = match x {
                TyNode::Record(_) => true,
                _ => false,
            };
            let is_record_y = match y {
                TyNode::Record(_) => true,
                _ => false,
            };
            let is_row_x = match x {
                TyNode::Union(_, _) => true,
                TyNode::Closed => true,
                _ => false,
            };
            let is_row_y = match y {
                TyNode::Union(_, _) => true,
                TyNode::Closed => true,
                _ => false,
            };
            if is_record_x && is_record_y {
                let xs = parts(types, x);
                let ys = parts(types, y);
                assert(unified(types@, chars@, aliases@, a, b, fuel as nat) == unified_fields(
                    types@,
                    chars@,
                    aliases@,
                    xs@,
                    ys@,
                    (fuel - 1) as nat,
                ));
                if xs.len() == ys.len() {
                    return unify_labelled(types, chars, aliases, &xs, &ys, 0, true, fuel - 1);
                } else {
                    return false;
                }
            } else if is_row_x && is_row_y {
                return unify_rows(types, chars, aliases, ra, rb, fuel - 1);
            } else {
                return false;
            }
        },
        _ => {
            return false;
        },
    }
}

/// Makes the types of `xs` and `ys` at the same indices from `i` on one.
pub fn unify_pairs(
    types: &mut Types,
    chars: &Vec<char>,
    aliases: &Vec<AliasDef>,
    xs: &Vec<usize>,
    ys: &Vec<usize>,
    i: usize,
    fuel: usize,
) -> (r: bool)
    ensures
        settled(
            r,
            final(types)@,
            unified_pairs(old(types)@, chars@, aliases@, xs@, ys@, i as int, fuel as nat),
        ),
    decreases fuel, 1 + xs@.len() - i,
{
    if i < xs.len() {
        if i < ys.len() {
            if unify(types, chars, aliases, xs[i], ys[i], fuel) {
                unify_pairs(types, chars, aliases, xs, ys, i + 1, fuel)
            } else {
                false
            }
        } else {
            false
        }
    } else {
        true
    }
}

/// Makes each tag or field of `xs` from index `i` on one with the one of
/// `ys` that has its label.
pub fn unify_labelled(
    types: &mut Types,
    chars: &Vec<char>,
    aliases: &Vec<AliasDef>,
    xs: &Vec<usize>,
    ys: &Vec<usize>,
    i: usize,
    strict: bool,
    fuel: usize,
) -> (r: bool)
    ensures
        settled(
            r,
            final(types)@,
            unified_labelled(
                old(types)@,
                chars@,
                aliases@,
                xs@,
                ys@,
                i as int,
                strict,
                fuel as nat,
            ),
        ),
    decreases fuel, 1 + xs@.len() - i,
{
    if i < xs.len() {
        match label_of(types, xs[i]) {
            Some(name) => match find(types, chars, ys, name) {
                Some(other) => {
                    let mine = payload_of(types, xs[i]);
                    let theirs = payload_of(types, other);
                    if mine.len() == theirs.len() && fuel > 0 {
                        if unify_pairs(types, chars, aliases, &mine, &theirs, 0, fuel - 1) {
                            unify_labelled(types, chars, aliases, xs, ys, i + 1, strict, fuel)
                        } else {
                            false
                        }
                    } else {
                        false
                    }
                },
                None => {
                    if strict {
                        false
                    } else {
                        unify_labelled(types, chars, aliases, xs, ys, i + 1, strict, fuel)
                    }
                },
            },
            None => false,
        }
    } else {
        true
    }
}

/// Makes two tag unions one.
pub fn unify_rows(
    types: &mut Types,
    chars: &Vec<char>,
    aliases: &Vec<AliasDef>,
    a: usize,
    b: usize,
    fuel: usize,
) -> (r: bool)
    ensures
        settled(r, final(types)@, unified_rows(old(types)@, chars@, aliases@, a, b, fuel as nat)),
    decreases fuel, 0int,
{
    let (xs, x_end) = match row_of(types, a, fuel) {
        Some(found) => found,
        None => {
            return false;
        },
    };
    let (ys, y_end) = match row_of(types, b, fuel) {
        Some(found) => found,
        None => {
            return false;
        },
    };
    if !unify_labelled(types, chars, aliases, &xs, &ys, 0, false, fuel - 1) {
        return false;
    }
    let only_x = lack(types, chars, &xs, &ys);
    let only_y = lack(types, chars, &ys, &xs);
    let ta = types.resolve(x_end, fuel);
    let tb = types.resolve(y_end, fuel);
    match (types.node(ta), types.node(tb)) {
        (Some(TyNode::Var), Some(TyNode::Var)) => {
            if ta == tb {
                only_x.len() == 0 && only_y.len() == 0
            } else {
                let rest = types.add(TyNode::Var);
                let span_y = types.link(&only_y);
                let union_y = types.add(TyNode::Union(span_y, rest));
                let span_x = types.link(&only_x);
                let union_x = types.add(TyNode::Union(span_x, rest));
                types.bind(ta, TyNode::Link(union_y));
                types.bind(tb, TyNode::Link(union_x));
                true
            }
        },
        (Some(TyNode::Var), Some(TyNode::Closed)) => {
            if only_x.len() == 0 {
                let span_y = types.link(&only_y);
                let union_y = types.add(TyNode::Union(span_y, tb));
                types.bind(ta, TyNode::Link(union_y));
                true
            } else {
                false
            }
        },
        (Some(TyNode::Closed), Some(TyNode::Var)) => {
            if only_y.len() == 0 {
                let span_x = types.link(&only_x);
                let union_x = types.add(TyNode::Union(span_x, ta));
                types.bind(tb, TyNode::Link(union_x));
                true
            } else {
                false
            }
        },
        (Some(TyNode::Closed), Some(TyNode::Closed)) => only_x.len() == 0 && only_y.len() == 0,
        _ => false,
    }
}

/// The models of the fields, in order.
pub open spec fn fields_model(fields: Seq<FieldType>) -> Seq<FieldTypeModel> {
    Seq::new(fields.len(), |i: int| FieldTypeModel { name: fields[i].name@, ty: type_model(fields[i].ty) })
}

/// The models of the tags, in order.
pub open spec fn tags_model(tags: Seq<TagType>) -> Seq<TagTypeModel> {
    Seq::new(tags.len(), |i: int| TagTypeModel { name: tags[i].name@, args: types_model(tags[i].args@) })
}

/// The type at `node` as a tree, for print: variables by the indices of
/// their nodes, the fields of a record and the tags of a union in the order
/// of their names, a union with all the tags that its rest has come to
/// hold. `None` where the node is no type or the walk runs out of fuel.
pub open spec fn exported(t: TypesModel, chars: Seq<char>, node: usize, fuel: nat) -> Option<
    TypeModel,
>
    decreases fuel, 0int,
{
    if fuel == 0 {
        None
    } else {
        let r = t.resolved(node, fuel);
        match t.node_at(r) {
            Some(TyNode::Var) => Some(TypeModel::Var(r)),
            Some(TyNode::Apply(name, args)) => match exported_all(
                t,
                chars,
                t.parts(args),
                0,
                (fuel - 1) as nat,
            ) {
                Some(types) => Some(TypeModel::Apply(name_text(chars, name), types)),
                None => None,
            },
            Some(TyNode::Function(params, ret)) => match exported_all(
                t,
                chars,
                t.parts(params),
                0,
                (fuel - 1) as nat,
            ) {
                Some(types) => match exported(t, chars, ret, (fuel - 1) as nat) {
                    Some(result) => Some(TypeModel::Function(types, Box::new(result))),
                    None => None,
                },
                None => None,
            },
            Some(TyNode::Record(fields)) => match exported_fields(
                t,
                chars,
                t.parts(fields),
                t.parts(fields).len() as int,
                (fuel - 1) as nat,
            ) {
                Some(sorted) => Some(TypeModel::Record(sorted)),
                None => None,
            },
            Some(TyNode::Union(_, _)) | Some(TyNode::Closed) => match row(t, r, fuel) {
                Some((tags, end)) => match exported_tags(
                    t,
                    chars,
                    tags,
                    tags.len() as int,
                    (fuel - 1) as nat,
                ) {
                    Some(sorted) => Some(
                        TypeModel::TagUnion(
                            sorted,
                            if t.node_at(end) == Some(TyNode::Var) {
                                Ext::Open(end)
                            } else {
                                Ext::Closed
                            },
                        ),
                    ),
                    None => None,
                },
                None => None,
            },
            _ => None,
        }
    }
}

/// The types at `nodes` from index `i` on as trees.
pub open spec fn exported_all(
    t: TypesModel,
    chars: Seq<char>,
    nodes: Seq<usize>,
    i: int,
    fuel: nat,
) -> Option<Seq<TypeModel>>
    decreases fuel, 1 + nodes.len() - i,
{
    if 0 <= i < nodes.len() {
        match exported(t, chars, nodes[i], fuel) {
            Some(first) => match exported_all(t, chars, nodes, i + 1, fuel) {
                Some(rest) => Some(seq![first] + rest),
                None => None,
            },
            None => None,
        }
    } else {
        Some(Seq::empty())
    }
}

/// The first `n` fields at `nodes` as trees, in the order of their names.
pub open spec fn exported_fields(
    t: TypesModel,
    chars: Seq<char>,
    nodes: Seq<usize>,
    n: int,
    fuel: nat,
) -> Option<Seq<FieldTypeModel>>
    decreases fuel, 1 + n,
{
    if 0 < n <= nodes.len() {
        match exported_fields(t, chars, nodes, n - 1, fuel) {
            Some(sorted) => match t.node_at(nodes[n - 1]) {
                Some(TyNode::Field(name, ty)) => match exported(t, chars, ty, fuel) {
                    Some(tree) => Some(
                        inserted(
                            sorted,
                            FieldTypeModel { name: name_text(chars, name), ty: tree },
                            |f: FieldTypeModel| f.name,
                        ),
                    ),
                    None => None,
                },
                _ => None,
            },
            None => None,
        }
    } else {
        Some(Seq::empty())
    }
}

/// The first `n` tags at `nodes` as trees, in the order of their names.
pub open spec fn exported_tags(
    t: TypesModel,
    chars: Seq<char>,
    nodes: Seq<usize>,
    n: int,
    fuel: nat,
) -> Option<Seq<TagTypeModel>>
    decreases fuel, 1 + n,
{
    if 0 < n <= nodes.len() {
        match exported_tags(t, chars, nodes, n - 1, fuel) {
            Some(sorted) => match t.node_at(nodes[n - 1]) {
                Some(TyNode::Tag(name, args)) => if fuel == 0 {
                    None
                } else {
                    match exported_all(t, chars, t.parts(args), 0, (fuel - 1) as nat) {
                        Some(trees) => Some(
                            inserted(
                                sorted,
                                TagTypeModel { name: name_text(chars, name), args: trees },
                                |g: TagTypeModel| g.name,
                            ),
                        ),
                        None => None,
                    }
                },
                _ => None,
            },
            None => None,
        }
    } else {
        Some(Seq::empty())
    }
}

/// The type at `node` as a tree.
pub fn export(types: &Types, chars: &Vec<char>, node: usize, fuel: usize) -> (r: Option<Type>)
    ensures
        match r {
            Some(tree) => exported(types@, chars@, node, fuel as nat) == Some(tree@),
            None => exported(types@, chars@, node, fuel as nat) is None,
        },
    decreases fuel, 0int,
{
    if fuel == 0 {
        return None;
    }
    let r = types.resolve(node, fuel);
    match types.node(r) {
        Some(TyNode::Var) => Some(Type::Var(r)),
        Some(TyNode::Apply(name, args)) => {
            let nodes = span_parts(types, args);
            match export_all(types, chars, &nodes, fuel - 1) {
                Some(trees) => Some(Type::Apply(text_of_name(chars, name), trees)),
                None => None,
            }
        },
        Some(TyNode::Function(params, ret)) => {
            let nodes = span_parts(types, params);
            match export_all(types, chars, &nodes, fuel - 1) {
                Some(trees) => match export(types, chars, ret, fuel - 1) {
                    Some(result) => Some(Type::Function(trees, Box::new(result))),
                    None => None,
                },
                None => None,
            }
        },
        Some(TyNode::Record(fields)) => {
            let nodes = span_parts(types, fields);
            match export_fields(types, chars, &nodes, fuel - 1) {
                Some(sorted) => {
                    assert(type_model(Type::Record(sorted))->Record_0 =~= fields_model(sorted@));
                    Some(Type::Record(sorted))
                },
                None => None,
            }
        },
        Some(TyNode::Union(_, _)) | Some(TyNode::Closed) => match row_of(types, r, fuel) {
            Some((tags, end)) => match export_tags(types, chars, &tags, fuel - 1) {
                Some(sorted) => {
                    let ext = match types.node(end) {
                        Some(TyNode::Var) => Ext::Open(end),
                        _ => Ext::Closed,
                    };
                    assert(type_model(Type::TagUnion(sorted, ext))->TagUnion_0 =~= tags_model(
                        sorted@,
                    ));
                    Some(Type::TagUnion(sorted, ext))
                },
                None => None,
            },
            None => None,
        },
        _ => None,
    }
}

/// The types at `nodes` as trees.
pub fn export_all(types: &Types, chars: &Vec<char>, nodes: &Vec<usize>, fuel: usize) -> (r: Option<
    Vec<Type>,
>)
    ensures
        match r {
            Some(trees) => exported_all(types@, chars@, nodes@, 0, fuel as nat) == Some(
                types_model(trees@),
            ),
            None => exported_all(types@, chars@, nodes@, 0, fuel as nat) is None,
        },
    decreases fuel, 1 + nodes@.len(),
{
    let ghost total = exported_all(types@, chars@, nodes@, 0, fuel as nat);
    let mut out: Vec<Type> = Vec::new();
    let mut i: usize = 0;
    assert(types_model(out@) =~= Seq::empty());
    while i < nodes.len()
        invariant
            i <= nodes@.len(),
            total == exported_all(types@, chars@, nodes@, 0, fuel as nat),
            total == match exported_all(types@, chars@, nodes@, i as int, fuel as nat) {
                Some(rest) => Some(types_model(out@) + rest),
                None => None,
            },
        decreases nodes.len() - i,
    {
        let ghost before = types_model(out@);
        match export(types, chars, nodes[i], fuel) {
            Some(tree) => {
                let ghost model = tree@;
                out.push(tree);
                assert(types_model(out@) =~= before.push(model));
                proof {
                    match exported_all(types@, chars@, nodes@, i + 1, fuel as nat) {
                        Some(rest) => {
                            assert(before.push(model) + rest =~= before + (seq![model] + rest));
                        },
                        None => {},
                    }
                }
            },
            None => {
                return None;
            },
        }
        i = i + 1;
    }
    assert(types_model(out@) + Seq::<TypeModel>::empty() =~= types_model(out@));
    Some(out)
}

/// The fields at `nodes` as trees, in the order of their names.
pub fn export_fields(types: &Types, chars: &Vec<char>, nodes: &Vec<usize>, fuel: usize) -> (r:
    Option<Vec<FieldType>>)
    ensures
        match r {
            Some(sorted) => exported_fields(
                types@,
                chars@,
                nodes@,
                nodes@.len() as int,
                fuel as nat,
            ) == Some(fields_model(sorted@)),
            None => exported_fields(types@, chars@, nodes@, nodes@.len() as int, fuel as nat)
                is None,
        },
    decreases fuel, 1 + nodes@.len(),
{
    let ghost key = |f: FieldTypeModel| f.name;
    let mut out: Vec<FieldType> = Vec::new();
    let mut n: usize = 0;
    assert(fields_model(out@) =~= Seq::empty());
    while n < nodes.len()
        invariant
            n <= nodes@.len(),
            key == |f: FieldTypeModel| f.name,
            exported_fields(types@, chars@, nodes@, n as int, fuel as nat) == Some(
                fields_model(out@),
            ),
        decreases nodes.len() - n,
    {
        match types.node(nodes[n]) {
            Some(TyNode::Field(name, ty)) => match export(types, chars, ty, fuel) {
                Some(tree) => {
                    let field = FieldType { name: text_of_name(chars, name), ty: tree };
                    let ghost model = FieldTypeModel { name: field.name@, ty: field.ty@ };
                    let mut p: usize = 0;
                    while p < out.len() && !le(&field.name, &out[p].name)
                        invariant
                            p <= out@.len(),
                            forall|j: int|
                                0 <= j < p ==> !precedes(field.name@, (#[trigger] out@[j]).name@),
                        decreases out.len() - p,
                    {
                        p = p + 1;
                    }
                    proof {
                        assert forall|j: int| 0 <= j < p implies !precedes(
                            key(model),
                            key(#[trigger] fields_model(out@)[j]),
                        ) by {
                            assert(fields_model(out@)[j].name == out@[j].name@);
                        }
                        lemma_inserted_at(fields_model(out@), model, key, p as int);
                        assert(fields_model(out@.insert(p as int, field)) =~= fields_model(
                            out@,
                        ).insert(p as int, model));
                    }
                    out.insert(p, field);
                },
                None => {
                    proof {
                        lemma_exported_fields_fail(types@, chars@, nodes@, n + 1, fuel as nat);
                    }
                    return None;
                },
            },
            _ => {
                proof {
                    lemma_exported_fields_fail(types@, chars@, nodes@, n + 1, fuel as nat);
                }
                return None;
            },
        }
        n = n + 1;
    }
    Some(out)
}

/// Where the first `n` fields cannot be exported, neither can all of them.
proof fn lemma_exported_fields_fail(
    t: TypesModel,
    chars: Seq<char>,
    nodes: Seq<usize>,
    n: int,
    fuel: nat,
)
    requires
        0 <= n <= nodes.len(),
        exported_fields(t, chars, nodes, n, fuel) is None,
    ensures
        exported_fields(t, chars, nodes, nodes.len() as int, fuel) is None,
    decreases nodes.len() - n,
{
    if n < nodes.len() {
        lemma_exported_fields_fail(t, chars, nodes, n + 1, fuel);
    }
}

/// The tags at `nodes` as trees, in the order of their names.
pub fn export_tags(types: &Types, chars: &Vec<char>, nodes: &Vec<usize>, fuel: usize) -> (r: Option<
    Vec<TagType>,
>)
    ensures
        match r {
            Some(sorted) => exported_tags(types@, chars@, nodes@, nodes@.len() as int, fuel as nat)
                == Some(tags_model(sorted@)),
            None => exported_tags(types@, chars@, nodes@, nodes@.len() as int, fuel as nat)
                is None,
        },
    decreases fuel, 1 + nodes@.len(),
{
    let ghost key = |g: TagTypeModel| g.name;
    let mut out: Vec<TagType> = Vec::new();
    let mut n: usize = 0;
    assert(tags_model(out@) =~= Seq::empty());
    while n < nodes.len()
        invariant
            n <= nodes@.len(),
            key == |g: TagTypeModel| g.name,
            exported_tags(types@, chars@, nodes@, n as int, fuel as nat) == Some(
                tags_model(out@),
            ),
        decreases nodes.len() - n,
    {
        match types.node(nodes[n]) {
            Some(TyNode::Tag(name, args)) => {
                if fuel == 0 {
                    proof {
                        lemma_exported_tags_fail(types@, chars@, nodes@, n + 1, fuel as nat);
                    }
                    return None;
                }
                let parts = span_parts(types, args);
                match export_all(types, chars, &parts, fuel - 1) {
                    Some(trees) => {
                        let tag = TagType { name: text_of_name(chars, name), args: trees };
                        let ghost model = TagTypeModel {
                            name: tag.name@,
                            args: types_model(tag.args@),
                        };
                        let mut p: usize = 0;
                        while p < out.len() && !le(&tag.name, &out[p].name)
                            invariant
                                p <= out@.len(),
                                forall|j: int|
                                    0 <= j < p ==> !precedes(tag.name@, (#[trigger] out@[j]).name@),
                            decreases out.len() - p,
                        {
                            p = p + 1;
                        }
                        proof {
                            assert forall|j: int| 0 <= j < p implies !precedes(
                                key(model),
                                key(#[trigger] tags_model(out@)[j]),
                            ) by {
                                assert(tags_model(out@)[j].name == out@[j].name@);
                            }
                            lemma_inserted_at(tags_model(out@), model, key, p as int);
                            assert(tags_model(out@.insert(p as int, tag)) =~= tags_model(
                                out@,
                            ).insert(p as int, model));
                        }
                        out.insert(p, tag);
                    },
                    None => {
                        proof {
                            lemma_exported_tags_fail(types@, chars@, nodes@, n + 1, fuel as nat);
                        }
                        return None;
                    },
                }
            },
            _ => {
                proof {
                    lemma_exported_tags_fail(types@, chars@, nodes@, n + 1, fuel as nat);
                }
                return None;
            },
        }
        n = n + 1;
    }
    Some(out)
}

/// Where the first `n` tags cannot be exported, neither can all of them.
proof fn lemma_exported_tags_fail(
    t: TypesModel,
    chars: Seq<char>,
    nodes: Seq<usize>,
    n: int,
    fuel: nat,
)
    requires
        0 <= n <= nodes.len(),
        exported_tags(t, chars, nodes, n, fuel) is None,
    ensures
        exported_tags(t, chars, nodes, nodes.len() as int, fuel) is None,
    decreases nodes.len() - n,
{
    if n < nodes.len() {
        lemma_exported_tags_fail(t, chars, nodes, n + 1, fuel);
    }
}

/// A copy of the arena.
pub fn snapshot(types: &Types) -> (r: Types)
    ensures
        r@ == types@,
{
    let mut nodes: Vec<TyNode> = Vec::new();
    let mut i: usize = 0;
    while i < types.nodes.len()
        invariant
            i <= types.nodes@.len(),
            nodes@ =~= types.nodes@.take(i as int),
        decreases types.nodes.len() - i,
    {
        nodes.push(types.nodes[i]);
        i = i + 1;
    }
    let mut links: Vec<usize> = Vec::new();
    append_all(&mut links, &types.links);
    assert(nodes@ =~= types.nodes@);
    assert(links@ =~= types.links@);
    Types { nodes, links }
}

/// The arena after the two types are made one, and the arena as it was
/// where they cannot be.
pub open spec fn merged(
    t: TypesModel,
    chars: Seq<char>,
    aliases: Seq<AliasDef>,
    a: usize,
    b: usize,
) -> (TypesModel, bool) {
    match unified(t, chars, aliases, a, b, FUEL as nat) {
        Some(next) => (next, true),
        None => (t, false),
    }
}

/// Makes the two types one, or leaves the arena as it was where they
/// cannot be made one. Returns whether they could.
pub fn merge(types: &mut Types, chars: &Vec<char>, aliases: &Vec<AliasDef>, a: usize, b: usize) -> (r:
    bool)
    ensures
        (final(types)@, r) == merged(old(types)@, chars@, aliases@, a, b),
{
    let saved = snapshot(types);
    if unify(types, chars, aliases, a, b, FUEL) {
        true
    } else {
        *types = saved;
        false
    }
}

} // verus!
