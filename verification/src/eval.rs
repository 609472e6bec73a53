//! The evaluator: from a syntax tree to a value.

use vstd::prelude::*;
use crate::builtins::{
    built, call_builtin, constant, constant_of, is_builtin, names_builtin,
};
use crate::infer::{name_of_operator, operator_name, slice, slice_of};
use crate::syntax::{Ast, AstModel, Kind, Span};
use crate::text::{is_text, same};
use crate::values::{bare_tag, Crash, ValNode, Values, ValuesModel};

verus! {

/// How deep an evaluation may go.
pub const EVAL_FUEL: usize = 100_000;

/// The character that stands after a backslash for `c`.
pub open spec fn escape(c: char) -> char {
    if c == 'n' {
        '\n'
    } else if c == 't' {
        '\t'
    } else if c == 'r' {
        '\r'
    } else {
        c
    }
}

/// The characters that the source of a string literal from index `i` on
/// stands for: a backslash and the character after it stand for one
/// character.
pub open spec fn unescaped(text: Seq<char>, i: int) -> Seq<char>
    decreases text.len() - i,
{
    if i < 0 || i >= text.len() {
        Seq::empty()
    } else if text[i] == '\\' && i + 1 < text.len() {
        seq![escape(text[i + 1])] + unescaped(text, i + 2)
    } else {
        seq![text[i]] + unescaped(text, i + 1)
    }
}

/// The characters that the source of a string literal stands for.
pub fn unescape(text: &Vec<char>) -> (r: Vec<char>)
    ensures
        r@ == unescaped(text@, 0),
{
    let mut out: Vec<char> = Vec::new();
    let mut i: usize = 0;
    assert(out@ + unescaped(text@, 0) =~= unescaped(text@, 0));
    while i < text.len()
        invariant
            i <= text@.len(),
            out@ + unescaped(text@, i as int) == unescaped(text@, 0),
        decreases text.len() - i,
    {
        let ghost before = out@;
        if text[i] == '\\' && i + 1 < text.len() {
            let c = text[i + 1];
            let d = if c == 'n' {
                '\n'
            } else if c == 't' {
                '\t'
            } else if c == 'r' {
                '\r'
            } else {
                c
            };
            out.push(d);
            assert(out@ + unescaped(text@, i + 2) =~= before + unescaped(text@, i as int));
            i = i + 2;
        } else {
            out.push(text[i]);
            assert(out@ + unescaped(text@, i + 1) =~= before + unescaped(text@, i as int));
            i = i + 1;
        }
    }
    assert(out@ + Seq::<char>::empty() =~= out@);
    out
}

/// The value that the scope `env` binds the name to.
pub open spec fn looked_up(chars: Seq<char>, vals: ValuesModel, env: usize, name: Seq<char>, fuel: nat) -> Option<
    usize,
>
    decreases fuel,
{
    if fuel == 0 {
        None
    } else {
        match vals.node_at(env) {
            Some(ValNode::Bind(n, value, rest)) => if slice(chars, n) == name {
                Some(value)
            } else {
                looked_up(chars, vals, rest, name, (fuel - 1) as nat)
            },
            _ => None,
        }
    }
}

/// The value that the scope `env` binds the name to.
pub fn look_up(chars: &Vec<char>, vals: &Values, env: usize, name: &Vec<char>, fuel: usize) -> (r:
    Option<usize>)
    ensures
        r == looked_up(chars@, vals@, env, name@, fuel as nat),
    decreases fuel,
{
    if fuel == 0 {
        return None;
    }
    match vals.node(env) {
        Some(ValNode::Bind(n, value, rest)) => {
            let text = slice_of(chars, n);
            if same(&text, name) {
                Some(value)
            } else {
                look_up(chars, vals, rest, name, fuel - 1)
            }
        },
        _ => None,
    }
}

/// What evaluating one construct gives: the arena afterwards, and the
/// value of the construct or why there is none.
pub type Evaluated = (ValuesModel, Result<usize, Crash>);

/// The scope after the pattern is matched against the value: the names of
/// the pattern are bound to the parts of the value that they stand for.
/// `None` where the value does not have the form of the pattern.
pub open spec fn matched(
    chars: Seq<char>,
    ast: AstModel,
    vals: ValuesModel,
    env: usize,
    pattern: usize,
    value: usize,
    fuel: nat,
) -> Option<(ValuesModel, usize)>
    decreases fuel, 0int,
{
    if fuel == 0 {
        None
    } else {
        match ast.node_at(pattern) {
            Some(p) => match p.kind {
                Kind::PatVar(name) => Some(vals.with_node(ValNode::Bind(name, value, env))),
                Kind::PatAny => Some((vals, env)),
                Kind::PatTag(name, args) => match vals.node_at(value) {
                    Some(ValNode::Tag(tag, payload)) => if vals.text(tag) == slice(chars, name)
                        && vals.parts(payload).len() == ast.parts(args).len() {
                        matched_all(
                            chars,
                            ast,
                            vals,
                            env,
                            ast.parts(args),
                            vals.parts(payload),
                            0,
                            (fuel - 1) as nat,
                        )
                    } else {
                        None
                    },
                    _ => None,
                },
                _ => None,
            },
            None => None,
        }
    }
}

/// The scope after the patterns from index `i` on are matched against the
/// values at their indices.
pub open spec fn matched_all(
    chars: Seq<char>,
    ast: AstModel,
    vals: ValuesModel,
    env: usize,
    patterns: Seq<usize>,
    values: Seq<usize>,
    i: int,
    fuel: nat,
) -> Option<(ValuesModel, usize)>
    decreases fuel, 1 + patterns.len() - i,
{
    if 0 <= i < patterns.len() && i < values.len() {
        match matched(chars, ast, vals, env, patterns[i], values[i], fuel) {
            Some((grown, scope)) => matched_all(
                chars,
                ast,
                grown,
                scope,
                patterns,
                values,
                i + 1,
                fuel,
            ),
            None => None,
        }
    } else {
        Some((vals, env))
    }
}

/// Matches the pattern against the value. Returns the scope with the names
/// of the pattern, or `None` where the value does not have the form of the
/// pattern; the arena is then as it was.
pub fn match_pattern(
    chars: &Vec<char>,
    ast: &Ast,
    vals: &mut Values,
    env: usize,
    pattern: usize,
    value: usize,
    fuel: usize,
) -> (r: Option<usize>)
    ensures
        match matched(chars@, ast@, old(vals)@, env, pattern, value, fuel as nat) {
            Some((grown, scope)) => r == Some(scope) && final(vals)@ == grown,
            None => r is None,
        },
    decreases fuel, 0int,
{
    if fuel == 0 {
        return None;
    }
    match ast.node(pattern) {
        Some(p) => match p.kind {
            Kind::PatVar(name) => Some(vals.add(ValNode::Bind(name, value, env))),
            Kind::PatAny => Some(env),
            Kind::PatTag(name, args) => match vals.node(value) {
                Some(ValNode::Tag(tag, payload)) => {
                    let text = vals.text(tag);
                    let wanted = slice_of(chars, name);
                    let values = vals.parts(payload);
                    let patterns = ast.parts(args);
                    if same(&text, &wanted) && values.len() == patterns.len() {
                        match_all(chars, ast, vals, env, &patterns, &values, 0, fuel - 1)
                    } else {
                        None
                    }
                },
                _ => None,
            },
            _ => None,
        },
        None => None,
    }
}

/// Matches the patterns from index `i` on against the values at their indices.
pub fn match_all(
    chars: &Vec<char>,
    ast: &Ast,
    vals: &mut Values,
    env: usize,
    patterns: &Vec<usize>,
    values: &Vec<usize>,
    i: usize,
    fuel: usize,
) -> (r: Option<usize>)
    ensures
        match matched_all(
            chars@,
            ast@,
            old(vals)@,
            env,
            patterns@,
            values@,
            i as int,
            fuel as nat,
        ) {
            Some((grown, scope)) => r == Some(scope) && final(vals)@ == grown,
            None => r is None,
        },
    decreases fuel, 1 + patterns@.len() - i,
{
    if i < patterns.len() && i < values.len() {
        match match_pattern(chars, ast, vals, env, patterns[i], values[i], fuel) {
            Some(scope) => match_all(chars, ast, vals, scope, patterns, values, i + 1, fuel),
            None => None,
        }
    } else {
        Some(env)
    }
}

/// The value of the expression at `node` in the scope `env`.
pub open spec fn evaluated(
    chars: Seq<char>,
    ast: AstModel,
    vals: ValuesModel,
    env: usize,
    node: usize,
    fuel: nat,
) -> Evaluated
    decreases fuel, 0int,
{
    if fuel == 0 {
        (vals, Err(Crash::TooDeep(node)))
    } else {
        match ast.node_at(node) {
            None => (vals, Err(Crash::TooDeep(node))),
            Some(n) => match n.kind {
                Kind::Num(x) => {
                    let (grown, v) = vals.with_node(ValNode::Int(x));
                    (grown, Ok(v))
                },
                Kind::Int(x) => {
                    let (grown, v) = vals.with_node(ValNode::Int(x));
                    (grown, Ok(v))
                },
                Kind::Frac(x) => {
                    let (grown, v) = vals.with_node(ValNode::Frac(x));
                    (grown, Ok(v))
                },
                Kind::Str(span) => {
                    let (grown, v) = vals.with_named(
                        unescaped(slice(chars, span), 0),
                        |s: Span| ValNode::Str(s),
                    );
                    (grown, Ok(v))
                },
                Kind::Var(name) => match looked_up(
                    chars,
                    vals,
                    env,
                    slice(chars, name),
                    EVAL_FUEL as nat,
                ) {
                    Some(v) => (vals, Ok(v)),
                    None => match constant(slice(chars, name)) {
                        Some(c) => {
                            let (grown, v) = vals.with_node(c);
                            (grown, Ok(v))
                        },
                        None => if is_builtin(slice(chars, name)) {
                            let (grown, v) = vals.with_named(
                                slice(chars, name),
                                |s: Span| ValNode::Builtin(s),
                            );
                            (grown, Ok(v))
                        } else {
                            (vals, Err(Crash::Unbound(node)))
                        },
                    },
                },
                Kind::List(items) => {
                    let (v1, r) = evaluated_all(
                        chars,
                        ast,
                        vals,
                        env,
                        ast.parts(items),
                        0,
                        (fuel - 1) as nat,
                    );
                    match r {
                        Ok(values) => {
                            let (v2, list) = v1.with_parts(values, |s: Span| ValNode::List(s));
                            (v2, Ok(list))
                        },
                        Err(e) => (v1, Err(e)),
                    }
                },
                Kind::Record(fields) => {
                    let (v1, r) = evaluated_all(
                        chars,
                        ast,
                        vals,
                        env,
                        ast.parts(fields),
                        0,
                        (fuel - 1) as nat,
                    );
                    match r {
                        Ok(values) => {
                            let (v2, record) = v1.with_parts(values, |s: Span| ValNode::Record(s));
                            (v2, Ok(record))
                        },
                        Err(e) => (v1, Err(e)),
                    }
                },
                Kind::Field(name, value) => {
                    let (v1, r) = evaluated(chars, ast, vals, env, value, (fuel - 1) as nat);
                    match r {
                        Ok(v) => {
                            let (v2, field) = v1.with_named(
                                slice(chars, name),
                                |s: Span| ValNode::Field(s, v),
                            );
                            (v2, Ok(field))
                        },
                        Err(e) => (v1, Err(e)),
                    }
                },
                Kind::Tag(name, args) => {
                    let (v1, r) = evaluated_all(
                        chars,
                        ast,
                        vals,
                        env,
                        ast.parts(args),
                        0,
                        (fuel - 1) as nat,
                    );
                    match r {
                        Ok(values) => {
                            let (v2, tag) = v1.with_tag(slice(chars, name), values);
                            (v2, Ok(tag))
                        },
                        Err(e) => (v1, Err(e)),
                    }
                },
                Kind::Lambda(_, _) => {
                    let (grown, v) = vals.with_node(ValNode::Closure(node, env));
                    (grown, Ok(v))
                },
                Kind::Call(function, args) => {
                    let (v1, rf) = evaluated(chars, ast, vals, env, function, (fuel - 1) as nat);
                    match rf {
                        Ok(f) => {
                            let (v2, r) = evaluated_all(
                                chars,
                                ast,
                                v1,
                                env,
                                ast.parts(args),
                                0,
                                (fuel - 1) as nat,
                            );
                            match r {
                                Ok(values) => called(
                                    chars,
                                    ast,
                                    v2,
                                    f,
                                    values,
                                    node,
                                    (fuel - 1) as nat,
                                ),
                                Err(e) => (v2, Err(e)),
                            }
                        },
                        Err(e) => (v1, Err(e)),
                    }
                },
                Kind::Binary(op, left, right) => {
                    let (v1, r) = evaluated_all(
                        chars,
                        ast,
                        vals,
                        env,
                        seq![left, right],
                        0,
                        (fuel - 1) as nat,
                    );
                    match r {
                        Ok(values) => built(v1, operator_name(op), values, node),
                        Err(e) => (v1, Err(e)),
                    }
                },
                Kind::If(cond, yes, no) => {
                    let (v1, rc) = evaluated(chars, ast, vals, env, cond, (fuel - 1) as nat);
                    match rc {
                        Ok(c) => if bare_tag(v1, c) == Some("True"@) {
                            evaluated(chars, ast, v1, env, yes, (fuel - 1) as nat)
                        } else if bare_tag(v1, c) == Some("False"@) {
                            evaluated(chars, ast, v1, env, no, (fuel - 1) as nat)
                        } else {
                            (v1, Err(Crash::BadOperands(node)))
                        },
                        Err(e) => (v1, Err(e)),
                    }
                },
                Kind::When(subject, branches) => {
                    let (v1, rs) = evaluated(chars, ast, vals, env, subject, (fuel - 1) as nat);
                    match rs {
                        Ok(s) => selected(
                            chars,
                            ast,
                            v1,
                            env,
                            ast.parts(branches),
                            0,
                            s,
                            node,
                            (fuel - 1) as nat,
                        ),
                        Err(e) => (v1, Err(e)),
                    }
                },
                Kind::Block(items, body) => {
                    let (v1, r) = defined(
                        chars,
                        ast,
                        vals,
                        env,
                        ast.parts(items),
                        0,
                        (fuel - 1) as nat,
                    );
                    match r {
                        Ok(scope) => evaluated(chars, ast, v1, scope, body, (fuel - 1) as nat),
                        Err(e) => (v1, Err(e)),
                    }
                },
                _ => (vals, Err(Crash::TooDeep(node))),
            },
        }
    }
}

/// The values of the expressions at `nodes` from index `i` on.
pub open spec fn evaluated_all(
    chars: Seq<char>,
    ast: AstModel,
    vals: ValuesModel,
    env: usize,
    nodes: Seq<usize>,
    i: int,
    fuel: nat,
) -> (ValuesModel, Result<Seq<usize>, Crash>)
    decreases fuel, 1 + nodes.len() - i,
{
    if 0 <= i < nodes.len() {
        let (v1, r) = evaluated(chars, ast, vals, env, nodes[i], fuel);
        match r {
            Ok(first) => {
                let (v2, rest) = evaluated_all(chars, ast, v1, env, nodes, i + 1, fuel);
                match rest {
                    Ok(values) => (v2, Ok(seq![first] + values)),
                    Err(e) => (v2, Err(e)),
                }
            },
            Err(e) => (v1, Err(e)),
        }
    } else {
        (vals, Ok(Seq::empty()))
    }
}

/// The result of calling the function value `f` with the arguments `args`
/// at the node `at`: a function of the language works by its name, a
/// function that was written evaluates its body in the scope that it was
/// written in, with its parameters matched against the arguments.
pub open spec fn called(
    chars: Seq<char>,
    ast: AstModel,
    vals: ValuesModel,
    f: usize,
    args: Seq<usize>,
    at: usize,
    fuel: nat,
) -> Evaluated
    decreases fuel, 2int,
{
    match vals.node_at(f) {
        Some(ValNode::Builtin(name)) => built(vals, vals.text(name), args, at),
        Some(ValNode::Closure(lambda, scope)) => match ast.node_at(lambda) {
            Some(n) => match n.kind {
                Kind::Lambda(params, body) => if ast.parts(params).len() == args.len() && fuel > 0 {
                    match matched_all(
                        chars,
                        ast,
                        vals,
                        scope,
                        ast.parts(params),
                        args,
                        0,
                        EVAL_FUEL as nat,
                    ) {
                        Some((grown, inner)) => evaluated(
                            chars,
                            ast,
                            grown,
                            inner,
                            body,
                            (fuel - 1) as nat,
                        ),
                        None => (vals, Err(Crash::NoBranch(at))),
                    }
                } else {
                    (vals, Err(Crash::NotCallable(at)))
                },
                _ => (vals, Err(Crash::NotCallable(at))),
            },
            None => (vals, Err(Crash::NotCallable(at))),
        },
        _ => (vals, Err(Crash::NotCallable(at))),
    }
}

/// The value of the body of the first branch from index `i` on whose
/// pattern matches the value `subject`.
pub open spec fn selected(
    chars: Seq<char>,
    ast: AstModel,
    vals: ValuesModel,
    env: usize,
    branches: Seq<usize>,
    i: int,
    subject: usize,
    at: usize,
    fuel: nat,
) -> Evaluated
    decreases fuel, 1 + branches.len() - i,
{
    if 0 <= i < branches.len() {
        match ast.node_at(branches[i]) {
            Some(n) => match n.kind {
                Kind::Branch(pattern, body) => match matched(
                    chars,
                    ast,
                    vals,
                    env,
                    pattern,
                    subject,
                    EVAL_FUEL as nat,
                ) {
                    Some((grown, scope)) => evaluated(chars, ast, grown, scope, body, fuel),
                    None => selected(chars, ast, vals, env, branches, i + 1, subject, at, fuel),
                },
                _ => (vals, Err(Crash::TooDeep(at))),
            },
            None => (vals, Err(Crash::TooDeep(at))),
        }
    } else {
        (vals, Err(Crash::NoBranch(at)))
    }
}

/// The scope after the definitions at `nodes` from index `i` on are
/// evaluated, each in the scope of those before it.
pub open spec fn defined(
    chars: Seq<char>,
    ast: AstModel,
    vals: ValuesModel,
    env: usize,
    nodes: Seq<usize>,
    i: int,
    fuel: nat,
) -> Evaluated
    decreases fuel, 1 + nodes.len() - i,
{
    if 0 <= i < nodes.len() {
        match ast.node_at(nodes[i]) {
            Some(n) => match n.kind {
                Kind::Def(name, body) => {
                    let (v1, r) = evaluated(chars, ast, vals, env, body, fuel);
                    match r {
                        Ok(v) => {
                            let (v2, scope) = v1.with_node(ValNode::Bind(name, v, env));
                            defined(chars, ast, v2, scope, nodes, i + 1, fuel)
                        },
                        Err(e) => (v1, Err(e)),
                    }
                },
                _ => defined(chars, ast, vals, env, nodes, i + 1, fuel),
            },
            None => (vals, Err(Crash::TooDeep(nodes[i]))),
        }
    } else {
        (vals, Ok(env))
    }
}

/// Whether the outcome of a function that evaluates a sequence into
/// `after`, which held `before`, is the specified one.
pub open spec fn collected(
    r: Result<(), Crash>,
    vals: ValuesModel,
    before: Seq<usize>,
    after: Seq<usize>,
    expected: (ValuesModel, Result<Seq<usize>, Crash>),
) -> bool {
    vals == expected.0 && match r {
        Ok(()) => expected.1 matches Ok(values) && after == before + values,
        Err(e) => expected.1 == Err::<Seq<usize>, Crash>(e),
    }
}

/// Evaluates the expression at `node` in the scope `env`.
pub fn eval(chars: &Vec<char>, ast: &Ast, vals: &mut Values, env: usize, node: usize, fuel: usize) -> (r:
    Result<usize, Crash>)
    ensures
        (final(vals)@, r) == evaluated(chars@, ast@, old(vals)@, env, node, fuel as nat),
    decreases fuel, 0int,
{
    if fuel == 0 {
        return Err(Crash::TooDeep(node));
    }
    let n = match ast.node(node) {
        Some(n) => n,
        None => {
            return Err(Crash::TooDeep(node));
        },
    };
    match n.kind {
        Kind::Num(x) => Ok(vals.add(ValNode::Int(x))),
        Kind::Int(x) => Ok(vals.add(ValNode::Int(x))),
        Kind::Frac(x) => Ok(vals.add(ValNode::Frac(x))),
        Kind::Str(span) => {
            let source = slice_of(chars, span);
            let text = unescape(&source);
            let written = vals.write(&text);
            Ok(vals.add(ValNode::Str(written)))
        },
        Kind::Var(name) => {
            let text = slice_of(chars, name);
            match look_up(chars, vals, env, &text, EVAL_FUEL) {
                Some(v) => Ok(v),
                None => match constant_of(&text) {
                    Some(c) => Ok(vals.add(c)),
                    None => {
                        if names_builtin(&text) {
                            let written = vals.write(&text);
                            Ok(vals.add(ValNode::Builtin(written)))
                        } else {
                            Err(Crash::Unbound(node))
                        }
                    },
                },
            }
        },
        Kind::List(items) => {
            let nodes = ast.parts(items);
            let mut values: Vec<usize> = Vec::new();
            match eval_all(chars, ast, vals, env, &mut values, &nodes, 0, fuel - 1) {
                Ok(()) => {
                    assert(values@ =~= Seq::<usize>::empty() + values@);
                    let span = vals.link(&values);
                    Ok(vals.add(ValNode::List(span)))
                },
                Err(e) => Err(e),
            }
        },
        Kind::Record(fields) => {
            let nodes = ast.parts(fields);
            let mut values: Vec<usize> = Vec::new();
            match eval_all(chars, ast, vals, env, &mut values, &nodes, 0, fuel - 1) {
                Ok(()) => {
                    assert(values@ =~= Seq::<usize>::empty() + values@);
                    let span = vals.link(&values);
                    Ok(vals.add(ValNode::Record(span)))
                },
                Err(e) => Err(e),
            }
        },
        Kind::Field(name, value) => match eval(chars, ast, vals, env, value, fuel - 1) {
            Ok(v) => {
                let text = slice_of(chars, name);
                let written = vals.write(&text);
                Ok(vals.add(ValNode::Field(written, v)))
            },
            Err(e) => Err(e),
        },
        Kind::Tag(name, args) => {
            let nodes = ast.parts(args);
            let mut values: Vec<usize> = Vec::new();
            match eval_all(chars, ast, vals, env, &mut values, &nodes, 0, fuel - 1) {
                Ok(()) => {
                    assert(values@ =~= Seq::<usize>::empty() + values@);
                    let text = slice_of(chars, name);
                    Ok(vals.tag_named(&text, &values))
                },
                Err(e) => Err(e),
            }
        },
        Kind::Lambda(_, _) => Ok(vals.add(ValNode::Closure(node, env))),
        Kind::Call(function, args) => match eval(chars, ast, vals, env, function, fuel - 1) {
            Ok(f) => {
                let nodes = ast.parts(args);
                let mut values: Vec<usize> = Vec::new();
                match eval_all(chars, ast, vals, env, &mut values, &nodes, 0, fuel - 1) {
                    Ok(()) => {
                        assert(values@ =~= Seq::<usize>::empty() + values@);
                        call(chars, ast, vals, f, &values, node, fuel - 1)
                    },
                    Err(e) => Err(e),
                }
            },
            Err(e) => Err(e),
        },
        Kind::Binary(op, left, right) => {
            let mut nodes: Vec<usize> = Vec::new();
            nodes.push(left);
            nodes.push(right);
            assert(nodes@ =~= seq![left, right]);
            let mut values: Vec<usize> = Vec::new();
            match eval_all(chars, ast, vals, env, &mut values, &nodes, 0, fuel - 1) {
                Ok(()) => {
                    assert(values@ =~= Seq::<usize>::empty() + values@);
                    let name = name_of_operator(op);
                    call_builtin(vals, &name, &values, node)
                },
                Err(e) => Err(e),
            }
        },
        Kind::If(cond, yes, no) => match eval(chars, ast, vals, env, cond, fuel - 1) {
            Ok(c) => {
                match tag_of(vals, c) {
                    Some(name) => {
                        if is_text(&name, "True") {
                            eval(chars, ast, vals, env, yes, fuel - 1)
                        } else if is_text(&name, "False") {
                            eval(chars, ast, vals, env, no, fuel - 1)
                        } else {
                            Err(Crash::BadOperands(node))
                        }
                    },
                    None => Err(Crash::BadOperands(node)),
                }
            },
            Err(e) => Err(e),
        },
        Kind::When(subject, branches) => match eval(chars, ast, vals, env, subject, fuel - 1) {
            Ok(s) => {
                let nodes = ast.parts(branches);
                select(chars, ast, vals, env, &nodes, 0, s, node, fuel - 1)
            },
            Err(e) => Err(e),
        },
        Kind::Block(items, body) => {
            let nodes = ast.parts(items);
            match define(chars, ast, vals, env, &nodes, 0, fuel - 1) {
                Ok(scope) => eval(chars, ast, vals, scope, body, fuel - 1),
                Err(e) => Err(e),
            }
        },
        _ => Err(Crash::TooDeep(node)),
    }
}

/// The name of the tag at `value`, where it is a tag without payload.
pub fn tag_of(vals: &Values, value: usize) -> (r: Option<Vec<char>>)
    ensures
        match r {
            Some(name) => bare_tag(vals@, value) == Some(name@),
            None => bare_tag(vals@, value) is None,
        },
{
    match vals.node(value) {
        Some(ValNode::Tag(name, args)) => {
            let parts = vals.parts(args);
            if parts.len() == 0 {
                Some(vals.text(name))
            } else {
                None
            }
        },
        _ => None,
    }
}

/// Evaluates the expressions at `nodes` from index `i` on.
pub fn eval_all(
    chars: &Vec<char>,
    ast: &Ast,
    vals: &mut Values,
    env: usize,
    out: &mut Vec<usize>,
    nodes: &Vec<usize>,
    i: usize,
    fuel: usize,
) -> (r: Result<(), Crash>)
    ensures
        collected(
            r,
            final(vals)@,
            old(out)@,
            final(out)@,
            evaluated_all(chars@, ast@, old(vals)@, env, nodes@, i as int, fuel as nat),
        ),
    decreases fuel, 1 + nodes@.len() - i,
{
    if i < nodes.len() {
        match eval(chars, ast, vals, env, nodes[i], fuel) {
            Ok(first) => {
                out.push(first);
                let ghost mid = vals@;
                let r = eval_all(chars, ast, vals, env, out, nodes, i + 1, fuel);
                proof {
                    match evaluated_all(chars@, ast@, mid, env, nodes@, i + 1, fuel as nat).1 {
                        Ok(values) => {
                            assert(old(out)@.push(first) + values =~= old(out)@ + (seq![first]
                                + values));
                        },
                        Err(_) => {},
                    }
                }
                r
            },
            Err(e) => Err(e),
        }
    } else {
        assert(out@ + Seq::<usize>::empty() =~= out@);
        Ok(())
    }
}

/// Calls the function value `f` with the arguments `args`.
pub fn call(
    chars: &Vec<char>,
    ast: &Ast,
    vals: &mut Values,
    f: usize,
    args: &Vec<usize>,
    at: usize,
    fuel: usize,
) -> (r: Result<usize, Crash>)
    ensures
        (final(vals)@, r) == called(chars@, ast@, old(vals)@, f, args@, at, fuel as nat),
    decreases fuel, 2int,
{
    match vals.node(f) {
        Some(ValNode::Builtin(name)) => {
            let text = vals.text(name);
            call_builtin(vals, &text, args, at)
        },
        Some(ValNode::Closure(lambda, scope)) => match ast.node(lambda) {
            Some(n) => match n.kind {
                Kind::Lambda(params, body) => {
                    let patterns = ast.parts(params);
                    if patterns.len() == args.len() && fuel > 0 {
                        let saved = snapshot(vals);
                        match match_all(chars, ast, vals, scope, &patterns, args, 0, EVAL_FUEL) {
                            Some(inner) => eval(chars, ast, vals, inner, body, fuel - 1),
                            None => {
                                *vals = saved;
                                Err(Crash::NoBranch(at))
                            },
                        }
                    } else {
                        Err(Crash::NotCallable(at))
                    }
                },
                _ => Err(Crash::NotCallable(at)),
            },
            None => Err(Crash::NotCallable(at)),
        },
        _ => Err(Crash::NotCallable(at)),
    }
}

/// A copy of the arena.
pub fn snapshot(vals: &Values) -> (r: Values)
    ensures
        r@ == vals@,
{
    let mut nodes: Vec<ValNode> = Vec::new();
    let mut i: usize = 0;
    while i < vals.nodes.len()
        invariant
            i <= vals.nodes@.len(),
            nodes@ =~= vals.nodes@.take(i as int),
        decreases vals.nodes.len() - i,
    {
        nodes.push(vals.nodes[i]);
        i = i + 1;
    }
    let mut links: Vec<usize> = Vec::new();
    crate::solve::append_all(&mut links, &vals.links);
    let chars = crate::text::copy(&vals.chars);
    assert(nodes@ =~= vals.nodes@);
    assert(links@ =~= vals.links@);
    Values { nodes, links, chars }
}

/// Evaluates the body of the first branch from index `i` on whose pattern
/// matches the value `subject`.
pub fn select(
    chars: &Vec<char>,
    ast: &Ast,
    vals: &mut Values,
    env: usize,
    branches: &Vec<usize>,
    i: usize,
    subject: usize,
    at: usize,
    fuel: usize,
) -> (r: Result<usize, Crash>)
    ensures
        (final(vals)@, r) == selected(
            chars@,
            ast@,
            old(vals)@,
            env,
            branches@,
            i as int,
            subject,
            at,
            fuel as nat,
        ),
    decreases fuel, 1 + branches@.len() - i,
{
    if i < branches.len() {
        match ast.node(branches[i]) {
            Some(n) => match n.kind {
                Kind::Branch(pat, body) => {
                    let saved = snapshot(vals);
                    match match_pattern(chars, ast, vals, env, pat, subject, EVAL_FUEL) {
                        Some(scope) => eval(chars, ast, vals, scope, body, fuel),
                        None => {
                            *vals = saved;
                            select(chars, ast, vals, env, branches, i + 1, subject, at, fuel)
                        },
                    }
                },
                _ => Err(Crash::TooDeep(at)),
            },
            None => Err(Crash::TooDeep(at)),
        }
    } else {
        Err(Crash::NoBranch(at))
    }
}

/// Evaluates the definitions at `nodes` from index `i` on and returns the
/// scope that holds them.
pub fn define(
    chars: &Vec<char>,
    ast: &Ast,
    vals: &mut Values,
    env: usize,
    nodes: &Vec<usize>,
    i: usize,
    fuel: usize,
) -> (r: Result<usize, Crash>)
    ensures
        (final(vals)@, r) == defined(chars@, ast@, old(vals)@, env, nodes@, i as int, fuel as nat),
    decreases fuel, 1 + nodes@.len() - i,
{
    if i < nodes.len() {
        match ast.node(nodes[i]) {
            Some(n) => match n.kind {
                Kind::Def(name, body) => match eval(chars, ast, vals, env, body, fuel) {
                    Ok(v) => {
                        let scope = vals.add(ValNode::Bind(name, v, env));
                        define(chars, ast, vals, scope, nodes, i + 1, fuel)
                    },
                    Err(e) => Err(e),
                },
                _ => define(chars, ast, vals, env, nodes, i + 1, fuel),
            },
            None => Err(Crash::TooDeep(nodes[i])),
        }
    } else {
        Ok(env)
    }
}

} // verus!
