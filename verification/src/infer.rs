//! The type inferencer: from a syntax tree and the bindings of the session
//! to the type of the submission's expression, or to what is wrong with it.

use vstd::prelude::*;
use crate::diagnostic::Region;
use crate::parser::{Source, SourceModel};
use crate::solve::{
    copied, copy, merge, merged, name_text, row, row_of, snapshot, AliasDef, Name, TyNode, Types,
    TypesModel, FUEL,
};
use crate::syntax::{Ast, AstModel, Kind, Node, Operator, Span};
use crate::text::{chars_of, same};

verus! {

/// A name in scope: where it was bound and what type it has. A generic
/// binding has a type of its own at every use.
#[derive(Clone, Copy, Debug, PartialEq, Eq, Structural)]
pub struct Binding {
    pub name: Span,
    pub ty: usize,
    pub generic: bool,
    pub region: Region,
}

/// What is wrong with the types of a submission. Nodes of the syntax tree
/// and types of the arena are given by their indices.
#[derive(Clone, Copy, Debug, PartialEq, Eq, Structural)]
pub enum TypeError {
    /// The function at `call` has `expected` parameters and got fewer arguments.
    TooFewArgs { call: usize, expected: usize, got: usize },
    /// The function at `call` has `expected` parameters and got more arguments.
    TooManyArgs { call: usize, expected: usize, got: usize },
    /// The argument at `at`, which is the one of number `index` of the call
    /// at `call`, has the type `actual`; the function, of type `whole`,
    /// needs `expected`.
    Argument { call: usize, index: usize, at: usize, actual: usize, expected: usize, whole: usize },
    /// The expression at `at` has the type `actual` where `expected` is needed.
    Mismatch { at: usize, actual: usize, expected: usize },
    /// The name at `second` was bound before, at `first`.
    DuplicateName { name: Span, first: Region, second: Region },
    /// The `when` at this node leaves variants of its subject's type uncovered.
    UnsafePattern { when: usize, subject: usize },
    /// The name at this node is not bound.
    Unbound { at: usize },
    /// The tree is not well formed at this node, or too deep to walk.
    Malformed { at: usize },
}

/// What inference knows: the arena of types, the names in scope, the named
/// types, and the declared types of names that are not yet defined.
pub struct Infer {
    pub types: Types,
    pub env: Vec<Binding>,
    pub aliases: Vec<AliasDef>,
    pub declared: Vec<Binding>,
}

/// The mathematical model of [`Infer`].
pub struct InferModel {
    pub types: TypesModel,
    pub env: Seq<Binding>,
    pub aliases: Seq<AliasDef>,
    pub declared: Seq<Binding>,
}

impl View for Infer {
    type V = InferModel;

    open spec fn view(&self) -> InferModel {
        InferModel {
            types: self.types@,
            env: self.env@,
            aliases: self.aliases@,
            declared: self.declared@,
        }
    }
}

/// What inferring one construct gives: what is known afterwards, and the
/// type of the construct or what is wrong with it.
pub type Inferred = (InferModel, Result<usize, TypeError>);

impl InferModel {
    /// The state with another arena of types.
    pub open spec fn with_types(self, types: TypesModel) -> InferModel {
        InferModel { types, env: self.env, aliases: self.aliases, declared: self.declared }
    }

    /// The state with one more type node, and the index of that node.
    pub open spec fn with_node(self, node: TyNode) -> (InferModel, usize) {
        (self.with_types(self.types.with_node(node).0), self.types.with_node(node).1)
    }

    /// The state with a node that has the given parts.
    pub open spec fn with_parts(self, parts: Seq<usize>, node: spec_fn(Span) -> TyNode) -> (
        InferModel,
        usize,
    ) {
        let (linked, span) = self.types.with_links(parts);
        self.with_types(linked).with_node(node(span))
    }

    /// The state with one more name in scope.
    pub open spec fn with_binding(self, binding: Binding) -> InferModel {
        InferModel {
            types: self.types,
            env: self.env.push(binding),
            aliases: self.aliases,
            declared: self.declared,
        }
    }

    /// The state with the scope cut back to its first `n` names.
    pub open spec fn with_scope(self, n: int) -> InferModel {
        InferModel {
            types: self.types,
            env: if 0 <= n <= self.env.len() {
                self.env.take(n)
            } else {
                self.env
            },
            aliases: self.aliases,
            declared: self.declared,
        }
    }
}

impl Infer {
    /// Adds a type node and returns its index.
    pub fn add(&mut self, node: TyNode) -> (index: usize)
        ensures
            (final(self)@, index) == old(self)@.with_node(node),
    {
        self.types.add(node)
    }

    /// Cuts the scope back to its first `n` names.
    pub fn cut(&mut self, n: usize)
        ensures
            final(self)@ == old(self)@.with_scope(n as int),
    {
        if n <= self.env.len() {
            self.env.truncate(n);
        }
    }
}

/// The characters of a stretch of the source.
pub open spec fn slice(chars: Seq<char>, span: Span) -> Seq<char> {
    name_text(chars, Name::Text(span))
}

/// The latest of the first `n` bindings whose name has the given characters.
pub open spec fn found_binding(chars: Seq<char>, env: Seq<Binding>, name: Seq<char>, n: int) -> Option<
    Binding,
>
    decreases n,
{
    if n <= 0 || n > env.len() {
        None
    } else if slice(chars, env[n - 1].name) == name {
        Some(env[n - 1])
    } else {
        found_binding(chars, env, name, n - 1)
    }
}

/// The latest binding whose name has the given characters.
pub fn find_binding(chars: &Vec<char>, env: &Vec<Binding>, name: &Vec<char>) -> (r: Option<Binding>)
    ensures
        r == found_binding(chars@, env@, name@, env@.len() as int),
{
    let mut n: usize = env.len();
    while n > 0
        invariant
            n <= env@.len(),
            found_binding(chars@, env@, name@, env@.len() as int) == found_binding(
                chars@,
                env@,
                name@,
                n as int,
            ),
        decreases n,
    {
        let text = crate::solve::text_of_name(chars, Name::Text(env[n - 1].name));
        if same(&text, name) {
            return Some(env[n - 1]);
        }
        n = n - 1;
    }
    None
}

/// The latest of the first `n` type variables in scope whose name has the
/// given characters.
pub open spec fn found_var(chars: Seq<char>, vars: Seq<(Span, usize)>, name: Seq<char>, n: int) -> Option<
    usize,
>
    decreases n,
{
    if n <= 0 || n > vars.len() {
        None
    } else if slice(chars, vars[n - 1].0) == name {
        Some(vars[n - 1].1)
    } else {
        found_var(chars, vars, name, n - 1)
    }
}

/// The latest type variable in scope whose name has the given characters.
pub fn find_var(chars: &Vec<char>, vars: &Vec<(Span, usize)>, name: &Vec<char>) -> (r: Option<usize>)
    ensures
        r == found_var(chars@, vars@, name@, vars@.len() as int),
{
    let mut n: usize = vars.len();
    while n > 0
        invariant
            n <= vars@.len(),
            found_var(chars@, vars@, name@, vars@.len() as int) == found_var(
                chars@,
                vars@,
                name@,
                n as int,
            ),
        decreases n,
    {
        let text = crate::solve::text_of_name(chars, Name::Text(vars[n - 1].0));
        if same(&text, name) {
            return Some(vars[n - 1].1);
        }
        n = n - 1;
    }
    None
}

/// What lowering a written type gives: the arena with the type, the type
/// variables in scope, and the index of the type.
pub struct Lowered {
    pub types: TypesModel,
    pub vars: Seq<(Span, usize)>,
    pub node: usize,
}

/// What lowering a sequence of written types gives.
pub struct LoweredAll {
    pub types: TypesModel,
    pub vars: Seq<(Span, usize)>,
    pub nodes: Seq<usize>,
}

/// The type that is written at `node` of the syntax tree, in the arena. A
/// type variable stands for one variable of the arena wherever its name
/// stands; a star stands for a variable of its own.
pub open spec fn lowered(
    chars: Seq<char>,
    ast: AstModel,
    t: TypesModel,
    vars: Seq<(Span, usize)>,
    node: usize,
    fuel: nat,
) -> Option<Lowered>
    decreases fuel, 0int,
{
    if fuel == 0 {
        None
    } else {
        match ast.node_at(node) {
            Some(n) => match n.kind {
                Kind::TyApply(name, args) => match lowered_all(
                    chars,
                    ast,
                    t,
                    vars,
                    ast.parts(args),
                    0,
                    (fuel - 1) as nat,
                ) {
                    Some(l) => {
                        let (linked, span) = l.types.with_links(l.nodes);
                        let (grown, index) = linked.with_node(TyNode::Apply(Name::Text(name), span));
                        Some(Lowered { types: grown, vars: l.vars, node: index })
                    },
                    None => None,
                },
                Kind::TyTag(name, args) => match lowered_all(
                    chars,
                    ast,
                    t,
                    vars,
                    ast.parts(args),
                    0,
                    (fuel - 1) as nat,
                ) {
                    Some(l) => {
                        let (linked, span) = l.types.with_links(l.nodes);
                        let (grown, index) = linked.with_node(TyNode::Tag(Name::Text(name), span));
                        Some(Lowered { types: grown, vars: l.vars, node: index })
                    },
                    None => None,
                },
                Kind::TyVar(name) => match found_var(
                    chars,
                    vars,
                    slice(chars, name),
                    vars.len() as int,
                ) {
                    Some(index) => Some(Lowered { types: t, vars, node: index }),
                    None => {
                        let (grown, index) = t.with_node(TyNode::Var);
                        Some(Lowered { types: grown, vars: vars.push((name, index)), node: index })
                    },
                },
                Kind::TyAny => {
                    let (grown, index) = t.with_node(TyNode::Var);
                    Some(Lowered { types: grown, vars, node: index })
                },
                Kind::TyUnion(tags, open) => match lowered_all(
                    chars,
                    ast,
                    t,
                    vars,
                    ast.parts(tags),
                    0,
                    (fuel - 1) as nat,
                ) {
                    Some(l) => {
                        let (t1, end) = l.types.with_node(
                            if open {
                                TyNode::Var
                            } else {
                                TyNode::Closed
                            },
                        );
                        let (t2, span) = t1.with_links(l.nodes);
                        let (t3, index) = t2.with_node(TyNode::Union(span, end));
                        Some(Lowered { types: t3, vars: l.vars, node: index })
                    },
                    None => None,
                },
                Kind::TyFunction(params, ret) => match lowered_all(
                    chars,
                    ast,
                    t,
                    vars,
                    ast.parts(params),
                    0,
                    (fuel - 1) as nat,
                ) {
                    Some(l) => match lowered(chars, ast, l.types, l.vars, ret, (fuel - 1) as nat) {
                        Some(r) => {
                            let (linked, span) = r.types.with_links(l.nodes);
                            let (grown, index) = linked.with_node(TyNode::Function(span, r.node));
                            Some(Lowered { types: grown, vars: r.vars, node: index })
                        },
                        None => None,
                    },
                    None => None,
                },
                _ => None,
            },
            None => None,
        }
    }
}

/// The types that are written at `nodes` from index `i` on, in the arena.
pub open spec fn lowered_all(
    chars: Seq<char>,
    ast: AstModel,
    t: TypesModel,
    vars: Seq<(Span, usize)>,
    nodes: Seq<usize>,
    i: int,
    fuel: nat,
) -> Option<LoweredAll>
    decreases fuel, 1 + nodes.len() - i,
{
    if 0 <= i < nodes.len() {
        match lowered(chars, ast, t, vars, nodes[i], fuel) {
            Some(l) => match lowered_all(chars, ast, l.types, l.vars, nodes, i + 1, fuel) {
                Some(rest) => Some(
                    LoweredAll { types: rest.types, vars: rest.vars, nodes: seq![l.node] + rest.nodes },
                ),
                None => None,
            },
            None => None,
        }
    } else {
        Some(LoweredAll { types: t, vars, nodes: Seq::empty() })
    }
}

/// Puts the type that is written at `node` of the syntax tree into the arena.
pub fn lower(
    chars: &Vec<char>,
    ast: &Ast,
    types: &mut Types,
    vars: &mut Vec<(Span, usize)>,
    node: usize,
    fuel: usize,
) -> (r: Option<usize>)
    ensures
        match lowered(chars@, ast@, old(types)@, old(vars)@, node, fuel as nat) {
            Some(l) => r == Some(l.node) && final(types)@ == l.types && final(vars)@ == l.vars,
            None => r is None,
        },
    decreases fuel, 0int,
{
    if fuel == 0 {
        return None;
    }
    let n = match ast.node(node) {
        Some(n) => n,
        None => {
            return None;
        },
    };
    match n.kind {
        Kind::TyApply(name, args) => {
            let parts = ast.parts(args);
            let mut nodes: Vec<usize> = Vec::new();
            if !lower_all(chars, ast, types, vars, &mut nodes, &parts, 0, fuel - 1) {
                return None;
            }
            assert(nodes@ =~= Seq::<usize>::empty() + nodes@);
            let span = types.link(&nodes);
            Some(types.add(TyNode::Apply(Name::Text(name), span)))
        },
        Kind::TyTag(name, args) => {
            let parts = ast.parts(args);
            let mut nodes: Vec<usize> = Vec::new();
            if !lower_all(chars, ast, types, vars, &mut nodes, &parts, 0, fuel - 1) {
                return None;
            }
            assert(nodes@ =~= Seq::<usize>::empty() + nodes@);
            let span = types.link(&nodes);
            Some(types.add(TyNode::Tag(Name::Text(name), span)))
        },
        Kind::TyVar(name) => {
            let text = crate::solve::text_of_name(chars, Name::Text(name));
            match find_var(chars, vars, &text) {
                Some(index) => Some(index),
                None => {
                    let index = types.add(TyNode::Var);
                    vars.push((name, index));
                    Some(index)
                },
            }
        },
        Kind::TyAny => Some(types.add(TyNode::Var)),
        Kind::TyUnion(tags, open) => {
            let parts = ast.parts(tags);
            let mut nodes: Vec<usize> = Vec::new();
            if !lower_all(chars, ast, types, vars, &mut nodes, &parts, 0, fuel - 1) {
                return None;
            }
            assert(nodes@ =~= Seq::<usize>::empty() + nodes@);
            let end = types.add(
                if open {
                    TyNode::Var
                } else {
                    TyNode::Closed
                },
            );
            let span = types.link(&nodes);
            Some(types.add(TyNode::Union(span, end)))
        },
        Kind::TyFunction(params, ret) => {
            let parts = ast.parts(params);
            let mut nodes: Vec<usize> = Vec::new();
            if !lower_all(chars, ast, types, vars, &mut nodes, &parts, 0, fuel - 1) {
                return None;
            }
            assert(nodes@ =~= Seq::<usize>::empty() + nodes@);
            match lower(chars, ast, types, vars, ret, fuel - 1) {
                Some(result) => {
                    let span = types.link(&nodes);
                    Some(types.add(TyNode::Function(span, result)))
                },
                None => None,
            }
        },
        _ => None,
    }
}

/// Puts the types that are written at `nodes` from index `i` on into the
/// arena, and appends their indices to `out`.
pub fn lower_all(
    chars: &Vec<char>,
    ast: &Ast,
    types: &mut Types,
    vars: &mut Vec<(Span, usize)>,
    out: &mut Vec<usize>,
    nodes: &Vec<usize>,
    i: usize,
    fuel: usize,
) -> (r: bool)
    ensures
        match lowered_all(chars@, ast@, old(types)@, old(vars)@, nodes@, i as int, fuel as nat) {
            Some(l) => r && final(types)@ == l.types && final(vars)@ == l.vars && final(out)@
                == old(out)@ + l.nodes,
            None => !r,
        },
    decreases fuel, 1 + nodes@.len() - i,
{
    if i < nodes.len() {
        match lower(chars, ast, types, vars, nodes[i], fuel) {
            Some(node) => {
                out.push(node);
                let ghost mid = types@;
                let ghost mid_vars = vars@;
                let r = lower_all(chars, ast, types, vars, out, nodes, i + 1, fuel);
                proof {
                    match lowered_all(chars@, ast@, mid, mid_vars, nodes@, i + 1, fuel as nat) {
                        Some(rest) => {
                            assert(old(out)@.push(node) + rest.nodes =~= old(out)@ + (seq![node]
                                + rest.nodes));
                        },
                        None => {},
                    }
                }
                r
            },
            None => false,
        }
    } else {
        assert(out@ + Seq::<usize>::empty() =~= out@);
        true
    }
}

/// The name of the function that an operator stands for.
pub open spec fn operator_name(op: Operator) -> Seq<char> {
    match op {
        Operator::Add => "Num.add"@,
        Operator::Sub => "Num.sub"@,
        Operator::Mul => "Num.mul"@,
        Operator::Rem => "Num.rem"@,
        Operator::Equal => "Bool.isEq"@,
        Operator::NotEqual => "Bool.isNotEq"@,
    }
}

/// The region of the name that a definition in `region` defines.
pub open spec fn name_region(region: Region, name: Span) -> Region {
    Region {
        first: region.first,
        last: region.first,
        start: region.start,
        end: if name.start <= name.end && region.start + (name.end - name.start) <= usize::MAX {
            (region.start + (name.end - name.start)) as usize
        } else {
            region.start
        },
    }
}

/// The state after a row that ends in a variable is closed: the variable
/// comes to stand for the closed end.
pub open spec fn closing(st: InferModel, ty: usize) -> InferModel {
    match row(st.types, ty, FUEL as nat) {
        Some((_, end)) => if st.types.node_at(end) == Some(TyNode::Var) && st.types.node_at(
            st.types.resolved(ty, FUEL as nat),
        ) is Some && st.types.node_at(st.types.resolved(ty, FUEL as nat)).unwrap() is Union {
            let (grown, closed) = st.types.with_node(TyNode::Closed);
            st.with_types(grown.with_bound(end, TyNode::Link(closed)))
        } else {
            st
        },
        None => st,
    }
}

/// The name of the tag that the pattern of the branch at `branch` matches.
pub open spec fn branch_tag(chars: Seq<char>, ast: AstModel, branch: usize) -> Option<Seq<char>> {
    match ast.node_at(branch) {
        Some(b) => match b.kind {
            Kind::Branch(pattern, _) => match ast.node_at(pattern) {
                Some(p) => match p.kind {
                    Kind::PatTag(name, _) => Some(slice(chars, name)),
                    _ => None,
                },
                None => None,
            },
            _ => None,
        },
        None => None,
    }
}

/// Whether a branch from index `i` on matches the tag `name`.
pub open spec fn covers(
    chars: Seq<char>,
    ast: AstModel,
    branches: Seq<usize>,
    name: Seq<char>,
    i: int,
) -> bool
    decreases branches.len() - i,
{
    if 0 <= i < branches.len() {
        branch_tag(chars, ast, branches[i]) == Some(name) || covers(chars, ast, branches, name, i + 1)
    } else {
        false
    }
}

/// Whether a branch from index `i` on matches whatever it is given: its
/// pattern is a name or a blank.
pub open spec fn catches_all(ast: AstModel, branches: Seq<usize>, i: int) -> bool
    decreases branches.len() - i,
{
    if 0 <= i < branches.len() {
        (match ast.node_at(branches[i]) {
            Some(b) => match b.kind {
                Kind::Branch(pattern, _) => match ast.node_at(pattern) {
                    Some(p) => p.kind is PatVar || p.kind is PatAny,
                    None => false,
                },
                _ => false,
            },
            None => false,
        }) || catches_all(ast, branches, i + 1)
    } else {
        false
    }
}

/// The names of the tags from index `i` on that no branch matches, in the
/// order of the tags.
pub open spec fn uncovered(
    chars: Seq<char>,
    ast: AstModel,
    t: TypesModel,
    tags: Seq<usize>,
    branches: Seq<usize>,
    i: int,
) -> Seq<Seq<char>>
    decreases tags.len() - i,
{
    if 0 <= i < tags.len() {
        (match t.node_at(tags[i]) {
            Some(TyNode::Tag(name, _)) => if covers(chars, ast, branches, name_text(chars, name), 0) {
                Seq::empty()
            } else {
                seq![name_text(chars, name)]
            },
            _ => Seq::empty(),
        }) + uncovered(chars, ast, t, tags, branches, i + 1)
    } else {
        Seq::empty()
    }
}

/// The variants of the type `subject` that the branches leave uncovered, by
/// name: none where a branch catches all, else every tag of the subject's
/// union that no branch matches.
pub open spec fn missing(
    chars: Seq<char>,
    ast: AstModel,
    t: TypesModel,
    subject: usize,
    branches: Seq<usize>,
) -> Seq<Seq<char>> {
    if catches_all(ast, branches, 0) {
        Seq::empty()
    } else {
        match row(t, subject, FUEL as nat) {
            Some((tags, _)) => uncovered(chars, ast, t, tags, branches, 0),
            None => Seq::empty(),
        }
    }
}

/// The type of the name that `binding` binds, at one use: the bound type
/// itself, or a copy of its own where the binding is generic.
pub open spec fn instance(st: InferModel, binding: Binding, at: usize) -> Inferred {
    if binding.generic {
        match copied(st.types, Seq::empty(), binding.ty, FUEL as nat) {
            Some(c) => (st.with_types(c.types), Ok(c.node)),
            None => (st, Err(TypeError::Malformed { at })),
        }
    } else {
        (st, Ok(binding.ty))
    }
}

/// The state after the two types are made one, or the mismatch at `at`
/// where they cannot be.
pub open spec fn agreed(chars: Seq<char>, st: InferModel, at: usize, actual: usize, expected: usize) -> (
    InferModel,
    Result<usize, TypeError>,
) {
    let (types, ok) = merged(st.types, chars, st.aliases, expected, actual);
    if ok {
        (st.with_types(types), Ok(expected))
    } else {
        (st, Err(TypeError::Mismatch { at, actual, expected }))
    }
}

/// The type of a pattern; the names that it binds come into scope. A name
/// that is in scope already is a duplicate.
pub open spec fn patterned(
    chars: Seq<char>,
    ast: AstModel,
    st: InferModel,
    node: usize,
    fuel: nat,
) -> Inferred
    decreases fuel, 0int,
{
    if fuel == 0 {
        (st, Err(TypeError::Malformed { at: node }))
    } else {
        match ast.node_at(node) {
            Some(n) => match n.kind {
                Kind::PatVar(name) => match found_binding(
                    chars,
                    st.env,
                    slice(chars, name),
                    st.env.len() as int,
                ) {
                    Some(b) => if b.generic {
                        let (grown, v) = st.with_node(TyNode::Var);
                        (
                            grown.with_binding(
                                Binding { name, ty: v, generic: false, region: n.region },
                            ),
                            Ok(v),
                        )
                    } else {
                        (
                            st,
                            Err(
                                TypeError::DuplicateName {
                                    name,
                                    first: b.region,
                                    second: n.region,
                                },
                            ),
                        )
                    },
                    None => {
                        let (grown, v) = st.with_node(TyNode::Var);
                        (
                            grown.with_binding(
                                Binding { name, ty: v, generic: false, region: n.region },
                            ),
                            Ok(v),
                        )
                    },
                },
                Kind::PatAny => {
                    let (grown, v) = st.with_node(TyNode::Var);
                    (grown, Ok(v))
                },
                Kind::PatTag(name, args) => {
                    let (s1, r) = patterned_all(chars, ast, st, ast.parts(args), 0, (fuel - 1) as nat);
                    match r {
                        Ok(types) => {
                            let (s2, tag) = s1.with_parts(
                                types,
                                |span: Span| TyNode::Tag(Name::Text(name), span),
                            );
                            let (s3, rest) = s2.with_node(TyNode::Var);
                            let (s4, union) = s3.with_parts(
                                seq![tag],
                                |span: Span| TyNode::Union(span, rest),
                            );
                            (s4, Ok(union))
                        },
                        Err(e) => (s1, Err(e)),
                    }
                },
                _ => (st, Err(TypeError::Malformed { at: node })),
            },
            None => (st, Err(TypeError::Malformed { at: node })),
        }
    }
}

/// The types of the patterns at `nodes` from index `i` on.
pub open spec fn patterned_all(
    chars: Seq<char>,
    ast: AstModel,
    st: InferModel,
    nodes: Seq<usize>,
    i: int,
    fuel: nat,
) -> (InferModel, Result<Seq<usize>, TypeError>)
    decreases fuel, 1 + nodes.len() - i,
{
    if 0 <= i < nodes.len() {
        let (s1, r) = patterned(chars, ast, st, nodes[i], fuel);
        match r {
            Ok(first) => {
                let (s2, rest) = patterned_all(chars, ast, s1, nodes, i + 1, fuel);
                match rest {
                    Ok(types) => (s2, Ok(seq![first] + types)),
                    Err(e) => (s2, Err(e)),
                }
            },
            Err(e) => (s1, Err(e)),
        }
    } else {
        (st, Ok(Seq::empty()))
    }
}

/// The result of applying the type `function` of the call at `call` to
/// arguments of the types `actual`, which stand at `places` of the tree.
pub open spec fn applied(
    chars: Seq<char>,
    st: InferModel,
    call: usize,
    function: usize,
    actual: Seq<usize>,
    places: Seq<usize>,
) -> Inferred {
    let f = st.types.resolved(function, FUEL as nat);
    match st.types.node_at(f) {
        Some(TyNode::Function(params, ret)) => {
            let expected = st.types.parts(params);
            if actual.len() < expected.len() {
                (
                    st,
                    Err(
                        TypeError::TooFewArgs {
                            call,
                            expected: expected.len() as usize,
                            got: actual.len() as usize,
                        },
                    ),
                )
            } else if actual.len() > expected.len() {
                (
                    st,
                    Err(
                        TypeError::TooManyArgs {
                            call,
                            expected: expected.len() as usize,
                            got: actual.len() as usize,
                        },
                    ),
                )
            } else {
                let (s1, r) = applied_from(chars, st, call, function, expected, actual, places, 0);
                match r {
                    Ok(_) => (s1, Ok(ret)),
                    Err(e) => (s1, Err(e)),
                }
            }
        },
        Some(TyNode::Var) => {
            let (s1, ret) = st.with_node(TyNode::Var);
            let (s2, made) = s1.with_parts(actual, |span: Span| TyNode::Function(span, ret));
            let (s3, r) = agreed(chars, s2, call, made, function);
            match r {
                Ok(_) => (s3, Ok(ret)),
                Err(e) => (s3, Err(e)),
            }
        },
        _ => (st, Err(TypeError::Mismatch { at: call, actual: function, expected: function })),
    }
}

/// The state after the arguments from index `i` on are made one with the
/// parameters at their indices.
pub open spec fn applied_from(
    chars: Seq<char>,
    st: InferModel,
    call: usize,
    function: usize,
    expected: Seq<usize>,
    actual: Seq<usize>,
    places: Seq<usize>,
    i: int,
) -> Inferred
    decreases expected.len() - i,
{
    if 0 <= i < expected.len() && i < actual.len() && i < places.len() {
        let (types, ok) = merged(st.types, chars, st.aliases, expected[i], actual[i]);
        if ok {
            applied_from(chars, st.with_types(types), call, function, expected, actual, places, i + 1)
        } else {
            (
                st,
                Err(
                    TypeError::Argument {
                        call,
                        index: (i + 1) as usize,
                        at: places[i],
                        actual: actual[i],
                        expected: expected[i],
                        whole: function,
                    },
                ),
            )
        }
    } else {
        (st, Ok(function))
    }
}

/// The type of the expression at `node`.
pub open spec fn inferred(
    chars: Seq<char>,
    ast: AstModel,
    st: InferModel,
    node: usize,
    fuel: nat,
) -> Inferred
    decreases fuel, 0int,
{
    if fuel == 0 {
        (st, Err(TypeError::Malformed { at: node }))
    } else {
        match ast.node_at(node) {
            None => (st, Err(TypeError::Malformed { at: node })),
            Some(n) => match n.kind {
                Kind::Num(_) => {
                    let (s1, v) = st.with_node(TyNode::Var);
                    let (s2, ty) = s1.with_parts(seq![v], |span: Span| TyNode::Apply(Name::Num, span));
                    (s2, Ok(ty))
                },
                Kind::Int(_) => {
                    let (s1, v) = st.with_node(TyNode::Var);
                    let (s2, ty) = s1.with_parts(seq![v], |span: Span| TyNode::Apply(Name::Int, span));
                    (s2, Ok(ty))
                },
                Kind::Frac(_) => {
                    let (s1, v) = st.with_node(TyNode::Var);
                    let (s2, ty) = s1.with_parts(
                        seq![v],
                        |span: Span| TyNode::Apply(Name::Float, span),
                    );
                    (s2, Ok(ty))
                },
                Kind::Str(_) => {
                    let (s1, ty) = st.with_parts(
                        Seq::empty(),
                        |span: Span| TyNode::Apply(Name::Str, span),
                    );
                    (s1, Ok(ty))
                },
                Kind::Var(name) => match found_binding(
                    chars,
                    st.env,
                    slice(chars, name),
                    st.env.len() as int,
                ) {
                    Some(b) => instance(st, b, node),
                    None => (st, Err(TypeError::Unbound { at: node })),
                },
                Kind::List(items) => {
                    let (s1, item) = st.with_node(TyNode::Var);
                    let (s2, r) = inferred_items(
                        chars,
                        ast,
                        s1,
                        ast.parts(items),
                        0,
                        item,
                        (fuel - 1) as nat,
                    );
                    match r {
                        Ok(_) => {
                            let (s3, ty) = s2.with_parts(
                                seq![item],
                                |span: Span| TyNode::Apply(Name::List, span),
                            );
                            (s3, Ok(ty))
                        },
                        Err(e) => (s2, Err(e)),
                    }
                },
                Kind::Record(fields) => {
                    let (s1, r) = inferred_all(chars, ast, st, ast.parts(fields), 0, (fuel - 1) as nat);
                    match r {
                        Ok(types) => {
                            let (s2, ty) = s1.with_parts(types, |span: Span| TyNode::Record(span));
                            (s2, Ok(ty))
                        },
                        Err(e) => (s1, Err(e)),
                    }
                },
                Kind::Field(name, value) => {
                    let (s1, r) = inferred(chars, ast, st, value, (fuel - 1) as nat);
                    match r {
                        Ok(ty) => {
                            let (s2, field) = s1.with_node(TyNode::Field(Name::Text(name), ty));
                            (s2, Ok(field))
                        },
                        Err(e) => (s1, Err(e)),
                    }
                },
                Kind::Tag(name, args) => {
                    let (s1, r) = inferred_all(chars, ast, st, ast.parts(args), 0, (fuel - 1) as nat);
                    match r {
                        Ok(types) => {
                            let (s2, tag) = s1.with_parts(
                                types,
                                |span: Span| TyNode::Tag(Name::Text(name), span),
                            );
                            let (s3, rest) = s2.with_node(TyNode::Var);
                            let (s4, union) = s3.with_parts(
                                seq![tag],
                                |span: Span| TyNode::Union(span, rest),
                            );
                            (s4, Ok(union))
                        },
                        Err(e) => (s1, Err(e)),
                    }
                },
                Kind::Call(function, args) => {
                    let (s1, rf) = inferred(chars, ast, st, function, (fuel - 1) as nat);
                    match rf {
                        Ok(tf) => {
                            let (s2, r) = inferred_all(
                                chars,
                                ast,
                                s1,
                                ast.parts(args),
                                0,
                                (fuel - 1) as nat,
                            );
                            match r {
                                Ok(types) => applied(chars, s2, node, tf, types, ast.parts(args)),
                                Err(e) => (s2, Err(e)),
                            }
                        },
                        Err(e) => (s1, Err(e)),
                    }
                },
                Kind::Binary(op, left, right) => match found_binding(
                    chars,
                    st.env,
                    operator_name(op),
                    st.env.len() as int,
                ) {
                    Some(b) => {
                        let (s1, rf) = instance(st, b, node);
                        match rf {
                            Ok(tf) => {
                                let (s2, r) = inferred_all(
                                    chars,
                                    ast,
                                    s1,
                                    seq![left, right],
                                    0,
                                    (fuel - 1) as nat,
                                );
                                match r {
                                    Ok(types) => applied(
                                        chars,
                                        s2,
                                        node,
                                        tf,
                                        types,
                                        seq![left, right],
                                    ),
                                    Err(e) => (s2, Err(e)),
                                }
                            },
                            Err(e) => (s1, Err(e)),
                        }
                    },
                    None => (st, Err(TypeError::Unbound { at: node })),
                },
                Kind::Lambda(params, body) => {
                    let (s1, r) = patterned_all(
                        chars,
                        ast,
                        st,
                        ast.parts(params),
                        0,
                        (fuel - 1) as nat,
                    );
                    match r {
                        Ok(types) => {
                            let s2 = closing_all(s1, types, 0);
                            let (s3, rb) = inferred(chars, ast, s2, body, (fuel - 1) as nat);
                            match rb {
                                Ok(tb) => {
                                    let (s4, ty) = s3.with_scope(st.env.len() as int).with_parts(
                                        types,
                                        |span: Span| TyNode::Function(span, tb),
                                    );
                                    (s4, Ok(ty))
                                },
                                Err(e) => (s3, Err(e)),
                            }
                        },
                        Err(e) => (s1, Err(e)),
                    }
                },
                Kind::If(cond, yes, no) => {
                    let (s1, rc) = inferred(chars, ast, st, cond, (fuel - 1) as nat);
                    match rc {
                        Ok(tc) => {
                            let (s2, truth) = s1.with_parts(
                                Seq::empty(),
                                |span: Span| TyNode::Apply(Name::Bool, span),
                            );
                            let (s3, ra) = agreed(chars, s2, cond, tc, truth);
                            match ra {
                                Ok(_) => {
                                    let (s4, ry) = inferred(chars, ast, s3, yes, (fuel - 1) as nat);
                                    match ry {
                                        Ok(ty) => {
                                            let (s5, rn) = inferred(
                                                chars,
                                                ast,
                                                s4,
                                                no,
                                                (fuel - 1) as nat,
                                            );
                                            match rn {
                                                Ok(tn) => agreed(chars, s5, no, tn, ty),
                                                Err(e) => (s5, Err(e)),
                                            }
                                        },
                                        Err(e) => (s4, Err(e)),
                                    }
                                },
                                Err(e) => (s3, Err(e)),
                            }
                        },
                        Err(e) => (s1, Err(e)),
                    }
                },
                Kind::When(subject, branches) => {
                    let (s1, rs) = inferred(chars, ast, st, subject, (fuel - 1) as nat);
                    match rs {
                        Ok(ts) => {
                            let (s2, result) = s1.with_node(TyNode::Var);
                            let (s3, rb) = inferred_branches(
                                chars,
                                ast,
                                s2,
                                ast.parts(branches),
                                0,
                                ts,
                                result,
                                (fuel - 1) as nat,
                            );
                            match rb {
                                Ok(_) => {
                                    let s4 = if catches_all(ast, ast.parts(branches), 0) {
                                        s3
                                    } else {
                                        closing(s3, ts)
                                    };
                                    if missing(chars, ast, s4.types, ts, ast.parts(branches)).len()
                                        > 0 {
                                        (s4, Err(TypeError::UnsafePattern { when: node, subject: ts }))
                                    } else {
                                        (s4, Ok(result))
                                    }
                                },
                                Err(e) => (s3, Err(e)),
                            }
                        },
                        Err(e) => (s1, Err(e)),
                    }
                },
                Kind::Block(items, body) => {
                    let (s1, r) = inferred_decls(
                        chars,
                        ast,
                        st,
                        ast.parts(items),
                        0,
                        false,
                        (fuel - 1) as nat,
                    );
                    match r {
                        Ok(_) => inferred(chars, ast, s1, body, (fuel - 1) as nat),
                        Err(e) => (s1, Err(e)),
                    }
                },
                _ => (st, Err(TypeError::Malformed { at: node })),
            },
        }
    }
}

/// The state after every row among `types` from index `i` on is closed.
pub open spec fn closing_all(st: InferModel, types: Seq<usize>, i: int) -> InferModel
    decreases types.len() - i,
{
    if 0 <= i < types.len() {
        closing_all(closing(st, types[i]), types, i + 1)
    } else {
        st
    }
}

/// The types of the expressions at `nodes` from index `i` on.
pub open spec fn inferred_all(
    chars: Seq<char>,
    ast: AstModel,
    st: InferModel,
    nodes: Seq<usize>,
    i: int,
    fuel: nat,
) -> (InferModel, Result<Seq<usize>, TypeError>)
    decreases fuel, 1 + nodes.len() - i,
{
    if 0 <= i < nodes.len() {
        let (s1, r) = inferred(chars, ast, st, nodes[i], fuel);
        match r {
            Ok(first) => {
                let (s2, rest) = inferred_all(chars, ast, s1, nodes, i + 1, fuel);
                match rest {
                    Ok(types) => (s2, Ok(seq![first] + types)),
                    Err(e) => (s2, Err(e)),
                }
            },
            Err(e) => (s1, Err(e)),
        }
    } else {
        (st, Ok(Seq::empty()))
    }
}

/// The state after the items of a list from index `i` on are inferred and
/// their types made one with the type `item`.
pub open spec fn inferred_items(
    chars: Seq<char>,
    ast: AstModel,
    st: InferModel,
    nodes: Seq<usize>,
    i: int,
    item: usize,
    fuel: nat,
) -> Inferred
    decreases fuel, 1 + nodes.len() - i,
{
    if 0 <= i < nodes.len() {
        let (s1, r) = inferred(chars, ast, st, nodes[i], fuel);
        match r {
            Ok(ty) => {
                let (s2, ra) = agreed(chars, s1, nodes[i], ty, item);
                match ra {
                    Ok(_) => inferred_items(chars, ast, s2, nodes, i + 1, item, fuel),
                    Err(e) => (s2, Err(e)),
                }
            },
            Err(e) => (s1, Err(e)),
        }
    } else {
        (st, Ok(item))
    }
}

/// The state after the branches of a `when` from index `i` on are
/// inferred: each pattern is made one with the type `subject`, each body
/// with the type `result`, and the names of a pattern are in scope in its
/// body only.
pub open spec fn inferred_branches(
    chars: Seq<char>,
    ast: AstModel,
    st: InferModel,
    nodes: Seq<usize>,
    i: int,
    subject: usize,
    result: usize,
    fuel: nat,
) -> Inferred
    decreases fuel, 1 + nodes.len() - i,
{
    if 0 <= i < nodes.len() {
        match ast.node_at(nodes[i]) {
            Some(n) => match n.kind {
                Kind::Branch(pattern, body) => {
                    let (s1, rp) = patterned(chars, ast, st, pattern, fuel);
                    match rp {
                        Ok(tp) => {
                            let (s2, ra) = agreed(chars, s1, pattern, tp, subject);
                            match ra {
                                Ok(_) => {
                                    let (s3, rb) = inferred(chars, ast, s2, body, fuel);
                                    match rb {
                                        Ok(tb) => {
                                            let (s4, rr) = agreed(chars, s3, body, tb, result);
                                            match rr {
                                                Ok(_) => inferred_branches(
                                                    chars,
                                                    ast,
                                                    s4.with_scope(st.env.len() as int),
                                                    nodes,
                                                    i + 1,
                                                    subject,
                                                    result,
                                                    fuel,
                                                ),
                                                Err(e) => (s4, Err(e)),
                                            }
                                        },
                                        Err(e) => (s3, Err(e)),
                                    }
                                },
                                Err(e) => (s2, Err(e)),
                            }
                        },
                        Err(e) => (s1, Err(e)),
                    }
                },
                _ => (st, Err(TypeError::Malformed { at: nodes[i] })),
            },
            None => (st, Err(TypeError::Malformed { at: nodes[i] })),
        }
    } else {
        (st, Ok(result))
    }
}

/// The state after the declarations and definitions at `nodes` from index
/// `i` on are taken in. Where `prelude` is set, a declared type binds its
/// name at once, with a type of its own at every use.
pub open spec fn inferred_decls(
    chars: Seq<char>,
    ast: AstModel,
    st: InferModel,
    nodes: Seq<usize>,
    i: int,
    prelude: bool,
    fuel: nat,
) -> Inferred
    decreases fuel, 1 + nodes.len() - i,
{
    if 0 <= i < nodes.len() {
        let (s1, r) = inferred_decl(chars, ast, st, nodes[i], prelude, fuel);
        match r {
            Ok(_) => inferred_decls(chars, ast, s1, nodes, i + 1, prelude, fuel),
            Err(e) => (s1, Err(e)),
        }
    } else {
        (st, Ok(0))
    }
}

/// The state after the declaration or definition at `node` is taken in.
pub open spec fn inferred_decl(
    chars: Seq<char>,
    ast: AstModel,
    st: InferModel,
    node: usize,
    prelude: bool,
    fuel: nat,
) -> Inferred
    decreases fuel, 0int,
{
    match ast.node_at(node) {
        Some(n) => match n.kind {
            Kind::Alias(name, params, body) => match crate::infer::lowered_all(
                chars,
                ast,
                st.types,
                Seq::empty(),
                ast.parts(params),
                0,
                FUEL as nat,
            ) {
                Some(p) => match lowered(chars, ast, p.types, p.vars, body, FUEL as nat) {
                    Some(b) => {
                        let (linked, span) = b.types.with_links(p.nodes);
                        (
                            InferModel {
                                types: linked,
                                env: st.env,
                                aliases: st.aliases.push(
                                    AliasDef { name: Name::Text(name), params: span, body: b.node },
                                ),
                                declared: st.declared,
                            },
                            Ok(b.node),
                        )
                    },
                    None => (st, Err(TypeError::Malformed { at: node })),
                },
                None => (st, Err(TypeError::Malformed { at: node })),
            },
            Kind::Annotation(name, ty) => match lowered(
                chars,
                ast,
                st.types,
                Seq::empty(),
                ty,
                FUEL as nat,
            ) {
                Some(l) => {
                    let binding = Binding {
                        name,
                        ty: l.node,
                        generic: prelude,
                        region: name_region(n.region, name),
                    };
                    (
                        InferModel {
                            types: l.types,
                            env: if prelude {
                                st.env.push(binding)
                            } else {
                                st.env
                            },
                            aliases: st.aliases,
                            declared: if prelude {
                                st.declared
                            } else {
                                st.declared.push(binding)
                            },
                        },
                        Ok(l.node),
                    )
                },
                None => (st, Err(TypeError::Malformed { at: node })),
            },
            Kind::Def(name, body) => match found_binding(
                chars,
                st.env,
                slice(chars, name),
                st.env.len() as int,
            ) {
                Some(b) => (
                    st,
                    Err(
                        TypeError::DuplicateName {
                            name,
                            first: b.region,
                            second: name_region(n.region, name),
                        },
                    ),
                ),
                None => if fuel == 0 {
                    (st, Err(TypeError::Malformed { at: node }))
                } else {
                    let (s1, r) = inferred(chars, ast, st, body, (fuel - 1) as nat);
                    match r {
                        Ok(tb) => match found_binding(
                            chars,
                            s1.declared,
                            slice(chars, name),
                            s1.declared.len() as int,
                        ) {
                            Some(d) => {
                                let (s2, ra) = agreed(chars, s1, body, tb, d.ty);
                                match ra {
                                    Ok(_) => (
                                        s2.with_binding(
                                            Binding {
                                                name,
                                                ty: d.ty,
                                                generic: false,
                                                region: name_region(n.region, name),
                                            },
                                        ),
                                        Ok(d.ty),
                                    ),
                                    Err(e) => (s2, Err(e)),
                                }
                            },
                            None => (
                                s1.with_binding(
                                    Binding {
                                        name,
                                        ty: tb,
                                        generic: false,
                                        region: name_region(n.region, name),
                                    },
                                ),
                                Ok(tb),
                            ),
                        },
                        Err(e) => (s1, Err(e)),
                    }
                },
            },
            _ => (st, Err(TypeError::Malformed { at: node })),
        },
        None => (st, Err(TypeError::Malformed { at: node })),
    }
}

/// The characters of each text, in order.
pub open spec fn texts(names: Seq<Vec<char>>) -> Seq<Seq<char>> {
    Seq::new(names.len(), |i: int| names[i]@)
}

/// The name of the function that an operator stands for.
pub fn name_of_operator(op: Operator) -> (r: Vec<char>)
    ensures
        r@ == operator_name(op),
{
    match op {
        Operator::Add => chars_of("Num.add"),
        Operator::Sub => chars_of("Num.sub"),
        Operator::Mul => chars_of("Num.mul"),
        Operator::Rem => chars_of("Num.rem"),
        Operator::Equal => chars_of("Bool.isEq"),
        Operator::NotEqual => chars_of("Bool.isNotEq"),
    }
}

/// The region of the name that a definition in `region` defines.
pub fn region_of_name(region: Region, name: Span) -> (r: Region)
    ensures
        r == name_region(region, name),
{
    let end = if name.start <= name.end && name.end - name.start <= usize::MAX - region.start {
        region.start + (name.end - name.start)
    } else {
        region.start
    };
    Region { first: region.first, last: region.first, start: region.start, end }
}

/// The characters of a stretch of the source.
pub fn slice_of(chars: &Vec<char>, span: Span) -> (r: Vec<char>)
    ensures
        r@ == slice(chars@, span),
{
    crate::solve::text_of_name(chars, Name::Text(span))
}

/// Closes the row of the type `ty` where it ends in a variable.
pub fn close(st: &mut Infer, ty: usize)
    ensures
        final(st)@ == closing(old(st)@, ty),
{
    match row_of(&st.types, ty, FUEL) {
        Some((_, end)) => {
            let is_union = match st.types.node(st.types.resolve(ty, FUEL)) {
                Some(TyNode::Union(_, _)) => true,
                _ => false,
            };
            match st.types.node(end) {
                Some(TyNode::Var) => {
                    if is_union {
                        let closed = st.types.add(TyNode::Closed);
                        st.types.bind(end, TyNode::Link(closed));
                    }
                },
                _ => {},
            }
        },
        None => {},
    }
}

/// Closes every row among `types`.
pub fn close_all(st: &mut Infer, types: &Vec<usize>)
    ensures
        final(st)@ == closing_all(old(st)@, types@, 0),
{
    let mut i: usize = 0;
    while i < types.len()
        invariant
            i <= types@.len(),
            closing_all(st@, types@, i as int) == closing_all(old(st)@, types@, 0),
        decreases types.len() - i,
    {
        close(st, types[i]);
        i = i + 1;
    }
}

/// The name of the tag that the pattern of the branch at `branch` matches.
pub fn tag_of_branch(chars: &Vec<char>, ast: &Ast, branch: usize) -> (r: Option<Vec<char>>)
    ensures
        match r {
            Some(name) => branch_tag(chars@, ast@, branch) == Some(name@),
            None => branch_tag(chars@, ast@, branch) is None,
        },
{
    match ast.node(branch) {
        Some(b) => match b.kind {
            Kind::Branch(pattern, _) => match ast.node(pattern) {
                Some(p) => match p.kind {
                    Kind::PatTag(name, _) => Some(slice_of(chars, name)),
                    _ => None,
                },
                None => None,
            },
            _ => None,
        },
        None => None,
    }
}

/// Whether a branch matches the tag `name`.
pub fn is_covered(chars: &Vec<char>, ast: &Ast, branches: &Vec<usize>, name: &Vec<char>) -> (r: bool)
    ensures
        r == covers(chars@, ast@, branches@, name@, 0),
{
    let mut i: usize = 0;
    while i < branches.len()
        invariant
            i <= branches@.len(),
            covers(chars@, ast@, branches@, name@, 0) == covers(
                chars@,
                ast@,
                branches@,
                name@,
                i as int,
            ),
        decreases branches.len() - i,
    {
        match tag_of_branch(chars, ast, branches[i]) {
            Some(tag) => {
                if same(&tag, name) {
                    return true;
                }
            },
            None => {},
        }
        i = i + 1;
    }
    false
}

/// Whether a branch matches whatever it is given.
pub fn has_catch_all(ast: &Ast, branches: &Vec<usize>) -> (r: bool)
    ensures
        r == catches_all(ast@, branches@, 0),
{
    let mut i: usize = 0;
    while i < branches.len()
        invariant
            i <= branches@.len(),
            catches_all(ast@, branches@, 0) == catches_all(ast@, branches@, i as int),
        decreases branches.len() - i,
    {
        let open = match ast.node(branches[i]) {
            Some(b) => match b.kind {
                Kind::Branch(pattern, _) => match ast.node(pattern) {
                    Some(p) => match p.kind {
                        Kind::PatVar(_) => true,
                        Kind::PatAny => true,
                        _ => false,
                    },
                    None => false,
                },
                _ => false,
            },
            None => false,
        };
        if open {
            return true;
        }
        i = i + 1;
    }
    false
}

/// The variants of the type `subject` that the branches leave uncovered,
/// by name.
pub fn missing_variants(
    chars: &Vec<char>,
    ast: &Ast,
    types: &Types,
    subject: usize,
    branches: &Vec<usize>,
) -> (r: Vec<Vec<char>>)
    ensures
        texts(r@) == missing(chars@, ast@, types@, subject, branches@),
{
    let mut out: Vec<Vec<char>> = Vec::new();
    if has_catch_all(ast, branches) {
        assert(texts(out@) =~= Seq::empty());
        return out;
    }
    match row_of(types, subject, FUEL) {
        Some((tags, _)) => {
            let mut i: usize = 0;
            assert(texts(out@) + uncovered(chars@, ast@, types@, tags@, branches@, 0) =~= uncovered(
                chars@,
                ast@,
                types@,
                tags@,
                branches@,
                0,
            ));
            while i < tags.len()
                invariant
                    i <= tags@.len(),
                    texts(out@) + uncovered(chars@, ast@, types@, tags@, branches@, i as int)
                        == uncovered(chars@, ast@, types@, tags@, branches@, 0),
                decreases tags.len() - i,
            {
                let ghost before = texts(out@);
                match types.node(tags[i]) {
                    Some(TyNode::Tag(name, _)) => {
                        let text = crate::solve::text_of_name(chars, name);
                        if !is_covered(chars, ast, branches, &text) {
                            out.push(text);
                            assert(texts(out@) =~= before.push(name_text(chars@, name)));
                        }
                    },
                    _ => {},
                }
                assert(texts(out@) + uncovered(chars@, ast@, types@, tags@, branches@, i + 1)
                    =~= before + uncovered(chars@, ast@, types@, tags@, branches@, i as int));
                i = i + 1;
            }
            assert(texts(out@) + Seq::<Seq<char>>::empty() =~= texts(out@));
            out
        },
        None => {
            assert(texts(out@) =~= Seq::empty());
            out
        },
    }
}

/// The type of the name that `binding` binds, at one use.
pub fn instantiate(st: &mut Infer, binding: Binding, at: usize) -> (r: Result<usize, TypeError>)
    ensures
        (final(st)@, r) == instance(old(st)@, binding, at),
{
    if binding.generic {
        let saved = snapshot(&st.types);
        let mut map: Vec<(usize, usize)> = Vec::new();
        assert(map@ =~= Seq::empty());
        match copy(&mut st.types, &mut map, binding.ty, FUEL) {
            Some(node) => Ok(node),
            None => {
                st.types = saved;
                Err(TypeError::Malformed { at })
            },
        }
    } else {
        Ok(binding.ty)
    }
}

/// Makes the two types one, or reports the mismatch at `at`.
pub fn agree(chars: &Vec<char>, st: &mut Infer, at: usize, actual: usize, expected: usize) -> (r:
    Result<usize, TypeError>)
    ensures
        (final(st)@, r) == agreed(chars@, old(st)@, at, actual, expected),
{
    if merge(&mut st.types, chars, &st.aliases, expected, actual) {
        Ok(expected)
    } else {
        Err(TypeError::Mismatch { at, actual, expected })
    }
}

/// Adds a node that has the given parts.
fn apply_node(st: &mut Infer, name: Name, parts: &Vec<usize>) -> (index: usize)
    ensures
        (final(st)@, index) == old(st)@.with_parts(parts@, |span: Span| TyNode::Apply(name, span)),
{
    let span = st.types.link(parts);
    st.types.add(TyNode::Apply(name, span))
}

/// Adds the union of one tag with the given payload, open to further tags.
fn tag_node(st: &mut Infer, name: Span, payload: &Vec<usize>) -> (index: usize)
    ensures
        ({
            let (s2, tag) = old(st)@.with_parts(
                payload@,
                |span: Span| TyNode::Tag(Name::Text(name), span),
            );
            let (s3, rest) = s2.with_node(TyNode::Var);
            (final(st)@, index) == s3.with_parts(seq![tag], |span: Span| TyNode::Union(span, rest))
        }),
{
    let span = st.types.link(payload);
    let tag = st.types.add(TyNode::Tag(Name::Text(name), span));
    let rest = st.types.add(TyNode::Var);
    let mut one: Vec<usize> = Vec::new();
    one.push(tag);
    assert(one@ =~= seq![tag]);
    let span = st.types.link(&one);
    st.types.add(TyNode::Union(span, rest))
}

/// Infers the type of a pattern and brings the names that it binds into scope.
pub fn pattern(chars: &Vec<char>, ast: &Ast, st: &mut Infer, node: usize, fuel: usize) -> (r: Result<
    usize,
    TypeError,
>)
    ensures
        (final(st)@, r) == patterned(chars@, ast@, old(st)@, node, fuel as nat),
    decreases fuel, 0int,
{
    if fuel == 0 {
        return Err(TypeError::Malformed { at: node });
    }
    let n = match ast.node(node) {
        Some(n) => n,
        None => {
            return Err(TypeError::Malformed { at: node });
        },
    };
    match n.kind {
        Kind::PatVar(name) => {
            let text = slice_of(chars, name);
            match find_binding(chars, &st.env, &text) {
                Some(b) => {
                    if !b.generic {
                        return Err(
                            TypeError::DuplicateName { name, first: b.region, second: n.region },
                        );
                    }
                },
                None => {},
            }
            let v = st.add(TyNode::Var);
            st.env.push(Binding { name, ty: v, generic: false, region: n.region });
            Ok(v)
        },
        Kind::PatAny => Ok(st.add(TyNode::Var)),
        Kind::PatTag(name, args) => {
            let parts = ast.parts(args);
            let mut types: Vec<usize> = Vec::new();
            match pattern_all(chars, ast, st, &mut types, &parts, 0, fuel - 1) {
                Ok(()) => {
                    assert(types@ =~= Seq::<usize>::empty() + types@);
                    Ok(tag_node(st, name, &types))
                },
                Err(e) => Err(e),
            }
        },
        _ => Err(TypeError::Malformed { at: node }),
    }
}

/// Whether the outcome of a function that infers a sequence into `after`,
/// which held `before`, is the specified one.
pub open spec fn gathered(
    r: Result<(), TypeError>,
    st: InferModel,
    before: Seq<usize>,
    after: Seq<usize>,
    expected: (InferModel, Result<Seq<usize>, TypeError>),
) -> bool {
    st == expected.0 && match r {
        Ok(()) => expected.1 matches Ok(types) && after == before + types,
        Err(e) => expected.1 == Err::<Seq<usize>, TypeError>(e),
    }
}

/// Infers the types of the patterns at `nodes` from index `i` on.
pub fn pattern_all(
    chars: &Vec<char>,
    ast: &Ast,
    st: &mut Infer,
    out: &mut Vec<usize>,
    nodes: &Vec<usize>,
    i: usize,
    fuel: usize,
) -> (r: Result<(), TypeError>)
    ensures
        gathered(
            r,
            final(st)@,
            old(out)@,
            final(out)@,
            patterned_all(chars@, ast@, old(st)@, nodes@, i as int, fuel as nat),
        ),
    decreases fuel, 1 + nodes@.len() - i,
{
    if i < nodes.len() {
        match pattern(chars, ast, st, nodes[i], fuel) {
            Ok(first) => {
                out.push(first);
                let ghost mid = st@;
                let r = pattern_all(chars, ast, st, out, nodes, i + 1, fuel);
                proof {
                    match patterned_all(chars@, ast@, mid, nodes@, i + 1, fuel as nat).1 {
                        Ok(types) => {
                            assert(old(out)@.push(first) + types =~= old(out)@ + (seq![first]
                                + types));
                        },
                        Err(_) => {},
                    }
                }
                r
            },
            Err(e) => Err(e),
        }
    } else {
        assert(out@ + Seq::<usize>::empty() =~= out@);
        Ok(())
    }
}

/// Applies the type `function` of the call at `call` to arguments.
pub fn apply(
    chars: &Vec<char>,
    st: &mut Infer,
    call: usize,
    function: usize,
    actual: &Vec<usize>,
    places: &Vec<usize>,
) -> (r: Result<usize, TypeError>)
    ensures
        (final(st)@, r) == applied(chars@, old(st)@, call, function, actual@, places@),
{
    let f = st.types.resolve(function, FUEL);
    match st.types.node(f) {
        Some(TyNode::Function(params, ret)) => {
            let expected = crate::solve::span_parts(&st.types, params);
            if actual.len() < expected.len() {
                Err(TypeError::TooFewArgs { call, expected: expected.len(), got: actual.len() })
            } else if actual.len() > expected.len() {
                Err(TypeError::TooManyArgs { call, expected: expected.len(), got: actual.len() })
            } else {
                let mut i: usize = 0;
                while i < expected.len() && i < actual.len() && i < places.len()
                    invariant
                        i <= expected@.len(),
                        f == old(st)@.types.resolved(function, FUEL as nat),
                        old(st)@.types.node_at(f) == Some(TyNode::Function(params, ret)),
                        expected@ == old(st)@.types.parts(params),
                        actual@.len() == expected@.len(),
                        st@.env == old(st)@.env,
                        st@.aliases == old(st)@.aliases,
                        st@.declared == old(st)@.declared,
                        applied_from(
                            chars@,
                            st@,
                            call,
                            function,
                            expected@,
                            actual@,
                            places@,
                            i as int,
                        ) == applied_from(
                            chars@,
                            old(st)@,
                            call,
                            function,
                            expected@,
                            actual@,
                            places@,
                            0,
                        ),
                    decreases expected.len() - i,
                {
                    if !merge(&mut st.types, chars, &st.aliases, expected[i], actual[i]) {
                        return Err(
                            TypeError::Argument {
                                call,
                                index: i + 1,
                                at: places[i],
                                actual: actual[i],
                                expected: expected[i],
                                whole: function,
                            },
                        );
                    }
                    i = i + 1;
                }
                Ok(ret)
            }
        },
        Some(TyNode::Var) => {
            let ret = st.add(TyNode::Var);
            let span = st.types.link(actual);
            let made = st.types.add(TyNode::Function(span, ret));
            match agree(chars, st, call, made, function) {
                Ok(_) => Ok(ret),
                Err(e) => Err(e),
            }
        },
        _ => Err(TypeError::Mismatch { at: call, actual: function, expected: function }),
    }
}

/// Infers the type of the expression at `node`.
pub fn infer(chars: &Vec<char>, ast: &Ast, st: &mut Infer, node: usize, fuel: usize) -> (r: Result<
    usize,
    TypeError,
>)
    ensures
        (final(st)@, r) == inferred(chars@, ast@, old(st)@, node, fuel as nat),
    decreases fuel, 0int,
{
    if fuel == 0 {
        return Err(TypeError::Malformed { at: node });
    }
    let n = match ast.node(node) {
        Some(n) => n,
        None => {
            return Err(TypeError::Malformed { at: node });
        },
    };
    match n.kind {
        Kind::Num(_) => {
            let v = st.add(TyNode::Var);
            let mut parts: Vec<usize> = Vec::new();
            parts.push(v);
            assert(parts@ =~= seq![v]);
            Ok(apply_node(st, Name::Num, &parts))
        },
        Kind::Int(_) => {
            let v = st.add(TyNode::Var);
            let mut parts: Vec<usize> = Vec::new();
            parts.push(v);
            assert(parts@ =~= seq![v]);
            Ok(apply_node(st, Name::Int, &parts))
        },
        Kind::Frac(_) => {
            let v = st.add(TyNode::Var);
            let mut parts: Vec<usize> = Vec::new();
            parts.push(v);
            assert(parts@ =~= seq![v]);
            Ok(apply_node(st, Name::Float, &parts))
        },
        Kind::Str(_) => {
            let parts: Vec<usize> = Vec::new();
            assert(parts@ =~= Seq::empty());
            Ok(apply_node(st, Name::Str, &parts))
        },
        Kind::Var(name) => {
            let text = slice_of(chars, name);
            match find_binding(chars, &st.env, &text) {
                Some(b) => instantiate(st, b, node),
                None => Err(TypeError::Unbound { at: node }),
            }
        },
        Kind::List(items) => {
            let item = st.add(TyNode::Var);
            let nodes = ast.parts(items);
            match infer_items(chars, ast, st, &nodes, 0, item, fuel - 1) {
                Ok(_) => {
                    let mut parts: Vec<usize> = Vec::new();
                    parts.push(item);
                    assert(parts@ =~= seq![item]);
                    Ok(apply_node(st, Name::List, &parts))
                },
                Err(e) => Err(e),
            }
        },
        Kind::Record(fields) => {
            let nodes = ast.parts(fields);
            let mut types: Vec<usize> = Vec::new();
            match infer_all(chars, ast, st, &mut types, &nodes, 0, fuel - 1) {
                Ok(()) => {
                    assert(types@ =~= Seq::<usize>::empty() + types@);
                    let span = st.types.link(&types);
                    Ok(st.types.add(TyNode::Record(span)))
                },
                Err(e) => Err(e),
            }
        },
        Kind::Field(name, value) => match infer(chars, ast, st, value, fuel - 1) {
            Ok(ty) => Ok(st.add(TyNode::Field(Name::Text(name), ty))),
            Err(e) => Err(e),
        },
        Kind::Tag(name, args) => {
            let nodes = ast.parts(args);
            let mut types: Vec<usize> = Vec::new();
            match infer_all(chars, ast, st, &mut types, &nodes, 0, fuel - 1) {
                Ok(()) => {
                    assert(types@ =~= Seq::<usize>::empty() + types@);
                    Ok(tag_node(st, name, &types))
                },
                Err(e) => Err(e),
            }
        },
        Kind::Call(function, args) => match infer(chars, ast, st, function, fuel - 1) {
            Ok(tf) => {
                let nodes = ast.parts(args);
                let mut types: Vec<usize> = Vec::new();
                match infer_all(chars, ast, st, &mut types, &nodes, 0, fuel - 1) {
                    Ok(()) => {
                        assert(types@ =~= Seq::<usize>::empty() + types@);
                        apply(chars, st, node, tf, &types, &nodes)
                    },
                    Err(e) => Err(e),
                }
            },
            Err(e) => Err(e),
        },
        Kind::Binary(op, left, right) => {
            let text = name_of_operator(op);
            match find_binding(chars, &st.env, &text) {
                Some(b) => match instantiate(st, b, node) {
                    Ok(tf) => {
                        let mut nodes: Vec<usize> = Vec::new();
                        nodes.push(left);
                        nodes.push(right);
                        assert(nodes@ =~= seq![left, right]);
                        let mut types: Vec<usize> = Vec::new();
                        match infer_all(chars, ast, st, &mut types, &nodes, 0, fuel - 1) {
                            Ok(()) => {
                                assert(types@ =~= Seq::<usize>::empty() + types@);
                                apply(chars, st, node, tf, &types, &nodes)
                            },
                            Err(e) => Err(e),
                        }
                    },
                    Err(e) => Err(e),
                },
                None => Err(TypeError::Unbound { at: node }),
            }
        },
        Kind::Lambda(params, body) => {
            let scope = st.env.len();
            let nodes = ast.parts(params);
            let mut types: Vec<usize> = Vec::new();
            match pattern_all(chars, ast, st, &mut types, &nodes, 0, fuel - 1) {
                Ok(()) => {
                    assert(types@ =~= Seq::<usize>::empty() + types@);
                    close_all(st, &types);
                    match infer(chars, ast, st, body, fuel - 1) {
                        Ok(tb) => {
                            st.cut(scope);
                            let span = st.types.link(&types);
                            Ok(st.types.add(TyNode::Function(span, tb)))
                        },
                        Err(e) => Err(e),
                    }
                },
                Err(e) => Err(e),
            }
        },
        Kind::If(cond, yes, no) => match infer(chars, ast, st, cond, fuel - 1) {
            Ok(tc) => {
                let none: Vec<usize> = Vec::new();
                assert(none@ =~= Seq::empty());
                let truth = apply_node(st, Name::Bool, &none);
                match agree(chars, st, cond, tc, truth) {
                    Ok(_) => match infer(chars, ast, st, yes, fuel - 1) {
                        Ok(ty) => match infer(chars, ast, st, no, fuel - 1) {
                            Ok(tn) => agree(chars, st, no, tn, ty),
                            Err(e) => Err(e),
                        },
                        Err(e) => Err(e),
                    },
                    Err(e) => Err(e),
                }
            },
            Err(e) => Err(e),
        },
        Kind::When(subject, branches) => match infer(chars, ast, st, subject, fuel - 1) {
            Ok(ts) => {
                let result = st.add(TyNode::Var);
                let nodes = ast.parts(branches);
                match infer_branches(chars, ast, st, &nodes, 0, ts, result, fuel - 1) {
                    Ok(_) => {
                        if !has_catch_all(ast, &nodes) {
                            close(st, ts);
                        }
                        let lacking = missing_variants(chars, ast, &st.types, ts, &nodes);
                        assert(texts(lacking@).len() == lacking@.len());
                        if lacking.len() > 0 {
                            Err(TypeError::UnsafePattern { when: node, subject: ts })
                        } else {
                            Ok(result)
                        }
                    },
                    Err(e) => Err(e),
                }
            },
            Err(e) => Err(e),
        },
        Kind::Block(items, body) => {
            let nodes = ast.parts(items);
            match infer_decls(chars, ast, st, &nodes, 0, false, fuel - 1) {
                Ok(_) => infer(chars, ast, st, body, fuel - 1),
                Err(e) => Err(e),
            }
        },
        _ => Err(TypeError::Malformed { at: node }),
    }
}

/// Infers the types of the expressions at `nodes` from index `i` on.
pub fn infer_all(
    chars: &Vec<char>,
    ast: &Ast,
    st: &mut Infer,
    out: &mut Vec<usize>,
    nodes: &Vec<usize>,
    i: usize,
    fuel: usize,
) -> (r: Result<(), TypeError>)
    ensures
        gathered(
            r,
            final(st)@,
            old(out)@,
            final(out)@,
            inferred_all(chars@, ast@, old(st)@, nodes@, i as int, fuel as nat),
        ),
    decreases fuel, 1 + nodes@.len() - i,
{
    if i < nodes.len() {
        match infer(chars, ast, st, nodes[i], fuel) {
            Ok(first) => {
                out.push(first);
                let ghost mid = st@;
                let r = infer_all(chars, ast, st, out, nodes, i + 1, fuel);
                proof {
                    match inferred_all(chars@, ast@, mid, nodes@, i + 1, fuel as nat).1 {
                        Ok(types) => {
                            assert(old(out)@.push(first) + types =~= old(out)@ + (seq![first]
                                + types));
                        },
                        Err(_) => {},
                    }
                }
                r
            },
            Err(e) => Err(e),
        }
    } else {
        assert(out@ + Seq::<usize>::empty() =~= out@);
        Ok(())
    }
}

/// Infers the items of a list from index `i` on and makes their types one
/// with the type `item`.
pub fn infer_items(
    chars: &Vec<char>,
    ast: &Ast,
    st: &mut Infer,
    nodes: &Vec<usize>,
    i: usize,
    item: usize,
    fuel: usize,
) -> (r: Result<usize, TypeError>)
    ensures
        (final(st)@, r) == inferred_items(chars@, ast@, old(st)@, nodes@, i as int, item, fuel as nat),
    decreases fuel, 1 + nodes@.len() - i,
{
    if i < nodes.len() {
        match infer(chars, ast, st, nodes[i], fuel) {
            Ok(ty) => match agree(chars, st, nodes[i], ty, item) {
                Ok(_) => infer_items(chars, ast, st, nodes, i + 1, item, fuel),
                Err(e) => Err(e),
            },
            Err(e) => Err(e),
        }
    } else {
        Ok(item)
    }
}

/// Infers the branches of a `when` from index `i` on.
pub fn infer_branches(
    chars: &Vec<char>,
    ast: &Ast,
    st: &mut Infer,
    nodes: &Vec<usize>,
    i: usize,
    subject: usize,
    result: usize,
    fuel: usize,
) -> (r: Result<usize, TypeError>)
    ensures
        (final(st)@, r) == inferred_branches(
            chars@,
            ast@,
            old(st)@,
            nodes@,
            i as int,
            subject,
            result,
            fuel as nat,
        ),
    decreases fuel, 1 + nodes@.len() - i,
{
    if i < nodes.len() {
        let n = match ast.node(nodes[i]) {
            Some(n) => n,
            None => {
                return Err(TypeError::Malformed { at: nodes[i] });
            },
        };
        match n.kind {
            Kind::Branch(pat, body) => {
                let scope = st.env.len();
                match pattern(chars, ast, st, pat, fuel) {
                    Ok(tp) => match agree(chars, st, pat, tp, subject) {
                        Ok(_) => match infer(chars, ast, st, body, fuel) {
                            Ok(tb) => match agree(chars, st, body, tb, result) {
                                Ok(_) => {
                                    st.cut(scope);
                                    infer_branches(
                                        chars,
                                        ast,
                                        st,
                                        nodes,
                                        i + 1,
                                        subject,
                                        result,
                                        fuel,
                                    )
                                },
                                Err(e) => Err(e),
                            },
                            Err(e) => Err(e),
                        },
                        Err(e) => Err(e),
                    },
                    Err(e) => Err(e),
                }
            },
            _ => Err(TypeError::Malformed { at: nodes[i] }),
        }
    } else {
        Ok(result)
    }
}

/// Takes in the declarations and definitions at `nodes` from index `i` on.
pub fn infer_decls(
    chars: &Vec<char>,
    ast: &Ast,
    st: &mut Infer,
    nodes: &Vec<usize>,
    i: usize,
    prelude: bool,
    fuel: usize,
) -> (r: Result<usize, TypeError>)
    ensures
        (final(st)@, r) == inferred_decls(
            chars@,
            ast@,
            old(st)@,
            nodes@,
            i as int,
            prelude,
            fuel as nat,
        ),
    decreases fuel, 1 + nodes@.len() - i,
{
    if i < nodes.len() {
        match infer_decl(chars, ast, st, nodes[i], prelude, fuel) {
            Ok(_) => infer_decls(chars, ast, st, nodes, i + 1, prelude, fuel),
            Err(e) => Err(e),
        }
    } else {
        Ok(0)
    }
}

/// Takes in the declaration or definition at `node`.
pub fn infer_decl(
    chars: &Vec<char>,
    ast: &Ast,
    st: &mut Infer,
    node: usize,
    prelude: bool,
    fuel: usize,
) -> (r: Result<usize, TypeError>)
    ensures
        (final(st)@, r) == inferred_decl(chars@, ast@, old(st)@, node, prelude, fuel as nat),
    decreases fuel, 0int,
{
    let n = match ast.node(node) {
        Some(n) => n,
        None => {
            return Err(TypeError::Malformed { at: node });
        },
    };
    match n.kind {
        Kind::Alias(name, params, body) => {
            let saved = snapshot(&st.types);
            let parts = ast.parts(params);
            let mut vars: Vec<(Span, usize)> = Vec::new();
            assert(vars@ =~= Seq::empty());
            let mut nodes: Vec<usize> = Vec::new();
            if !lower_all(chars, ast, &mut st.types, &mut vars, &mut nodes, &parts, 0, FUEL) {
                st.types = saved;
                return Err(TypeError::Malformed { at: node });
            }
            assert(nodes@ =~= Seq::<usize>::empty() + nodes@);
            match lower(chars, ast, &mut st.types, &mut vars, body, FUEL) {
                Some(b) => {
                    let span = st.types.link(&nodes);
                    st.aliases.push(AliasDef { name: Name::Text(name), params: span, body: b });
                    Ok(b)
                },
                None => {
                    st.types = saved;
                    Err(TypeError::Malformed { at: node })
                },
            }
        },
        Kind::Annotation(name, ty) => {
            let saved = snapshot(&st.types);
            let mut vars: Vec<(Span, usize)> = Vec::new();
            assert(vars@ =~= Seq::empty());
            match lower(chars, ast, &mut st.types, &mut vars, ty, FUEL) {
                Some(l) => {
                    let binding = Binding {
                        name,
                        ty: l,
                        generic: prelude,
                        region: region_of_name(n.region, name),
                    };
                    if prelude {
                        st.env.push(binding);
                    } else {
                        st.declared.push(binding);
                    }
                    Ok(l)
                },
                None => {
                    st.types = saved;
                    Err(TypeError::Malformed { at: node })
                },
            }
        },
        Kind::Def(name, body) => {
            let text = slice_of(chars, name);
            match find_binding(chars, &st.env, &text) {
                Some(b) => {
                    return Err(
                        TypeError::DuplicateName {
                            name,
                            first: b.region,
                            second: region_of_name(n.region, name),
                        },
                    );
                },
                None => {},
            }
            if fuel == 0 {
                return Err(TypeError::Malformed { at: node });
            }
            match infer(chars, ast, st, body, fuel - 1) {
                Ok(tb) => match find_binding(chars, &st.declared, &text) {
                    Some(d) => match agree(chars, st, body, tb, d.ty) {
                        Ok(_) => {
                            st.env.push(
                                Binding {
                                    name,
                                    ty: d.ty,
                                    generic: false,
                                    region: region_of_name(n.region, name),
                                },
                            );
                            Ok(d.ty)
                        },
                        Err(e) => Err(e),
                    },
                    None => {
                        st.env.push(
                            Binding {
                                name,
                                ty: tb,
                                generic: false,
                                region: region_of_name(n.region, name),
                            },
                        );
                        Ok(tb)
                    },
                },
                Err(e) => Err(e),
            }
        },
        _ => Err(TypeError::Malformed { at: node }),
    }
}

/// A function is never applied in part: a call with fewer arguments than
/// the function has parameters is an error that names the call, the number
/// of parameters and the number of arguments, and leaves everything as it
/// was.
pub proof fn lemma_too_few_arguments(
    chars: Seq<char>,
    st: InferModel,
    call: usize,
    function: usize,
    actual: Seq<usize>,
    places: Seq<usize>,
)
    requires
        st.types.node_at(st.types.resolved(function, FUEL as nat)) matches Some(
            TyNode::Function(params, _),
        ) && actual.len() < st.types.parts(params).len(),
    ensures
        applied(chars, st, call, function, actual, places).0 == st,
        applied(chars, st, call, function, actual, places).1 matches Err(
            TypeError::TooFewArgs { call: c, expected, got },
        ) && c == call && got == actual.len() && expected == st.types.parts(
            st.types.node_at(st.types.resolved(function, FUEL as nat)).unwrap()->Function_0,
        ).len(),
{
}

/// A name is never bound twice: the definition of a name that is in scope
/// already is an error that cites the place of the earlier binding and the
/// place of the name in the definition, and leaves everything as it was.
pub proof fn lemma_definition_rebinds(
    chars: Seq<char>,
    ast: AstModel,
    st: InferModel,
    node: usize,
    prelude: bool,
    fuel: nat,
)
    requires
        ast.node_at(node) matches Some(n) && n.kind matches Kind::Def(name, _) && found_binding(
            chars,
            st.env,
            slice(chars, name),
            st.env.len() as int,
        ) is Some,
    ensures
        inferred_decl(chars, ast, st, node, prelude, fuel).0 == st,
        inferred_decl(chars, ast, st, node, prelude, fuel).1 matches Err(
            TypeError::DuplicateName { name, first, second },
        ) && ast.node_at(node).unwrap().kind matches Kind::Def(n, _) && n == name && first
            == found_binding(chars, st.env, slice(chars, name), st.env.len() as int).unwrap().region
            && second == name_region(ast.node_at(node).unwrap().region, name),
{
}

/// A parameter never shadows: a pattern that binds a name which a
/// definition or another pattern has bound already is an error that cites
/// both places, and leaves everything as it was.
pub proof fn lemma_parameter_rebinds(
    chars: Seq<char>,
    ast: AstModel,
    st: InferModel,
    node: usize,
    fuel: nat,
)
    requires
        fuel > 0,
        ast.node_at(node) matches Some(n) && n.kind matches Kind::PatVar(name) && (found_binding(
            chars,
            st.env,
            slice(chars, name),
            st.env.len() as int,
        ) matches Some(b) && !b.generic),
    ensures
        patterned(chars, ast, st, node, fuel).0 == st,
        patterned(chars, ast, st, node, fuel).1 matches Err(
            TypeError::DuplicateName { name, first, second },
        ) && ast.node_at(node).unwrap().kind matches Kind::PatVar(n) && n == name && first
            == found_binding(chars, st.env, slice(chars, name), st.env.len() as int).unwrap().region
            && second == ast.node_at(node).unwrap().region,
{
}

/// A `when` that leaves variants of its subject uncovered does not
/// evaluate: where the branches are well typed and no branch catches all,
/// the outcome is the error that names the `when` and the type of its
/// subject exactly where some tag of the subject's union has no branch.
pub proof fn lemma_unsafe_pattern(
    chars: Seq<char>,
    ast: AstModel,
    st: InferModel,
    node: usize,
    fuel: nat,
)
    requires
        fuel > 0,
        ast.node_at(node) matches Some(n) && n.kind matches Kind::When(subject, branches)
            && inferred(chars, ast, st, subject, (fuel - 1) as nat).1 matches Ok(ts)
            && inferred_branches(
            chars,
            ast,
            inferred(chars, ast, st, subject, (fuel - 1) as nat).0.with_node(TyNode::Var).0,
            ast.parts(branches),
            0,
            ts,
            inferred(chars, ast, st, subject, (fuel - 1) as nat).0.with_node(TyNode::Var).1,
            (fuel - 1) as nat,
        ).1 is Ok,
    ensures
        ({
            let n = ast.node_at(node).unwrap();
            let subject = n.kind->When_0;
            let branches = ast.parts(n.kind->When_1);
            let (s1, rs) = inferred(chars, ast, st, subject, (fuel - 1) as nat);
            let ts = rs->Ok_0;
            let (s2, result) = s1.with_node(TyNode::Var);
            let s3 = inferred_branches(
                chars,
                ast,
                s2,
                branches,
                0,
                ts,
                result,
                (fuel - 1) as nat,
            ).0;
            let s4 = if catches_all(ast, branches, 0) {
                s3
            } else {
                closing(s3, ts)
            };
            let outcome = inferred(chars, ast, st, node, fuel).1;
            &&& outcome is Err <==> missing(chars, ast, s4.types, ts, branches).len() > 0
            &&& outcome is Err ==> outcome == Err::<usize, TypeError>(
                TypeError::UnsafePattern { when: node, subject: ts },
            )
        }),
{
}

} // verus!
