//! What follows from stage to stage: the text that is printed for the
//! outcome of an operation on whole numbers, and the answer to a program
//! that is a numeric literal, one such operation, or a record of literals.
//! These laws start from the program that a submission was parsed to.

use vstd::prelude::*;
use crate::builtins::{
    built, constant, failure, int_op, int_outcome, is_builtin, lemma_division,
    lemma_wrapping_and_checking, number_at, number_outcome, outcome_value, success, IntOp, Number,
    Outcome,
};
use crate::eval::{called, defined, evaluated, evaluated_all, looked_up, EVAL_FUEL};
use crate::infer::{inferred, inferred_decls, operator_name, slice, InferModel, Inferred};
use crate::num::{ceil_quotient, floor_quotient, remainder, IntWidth};
use crate::parser::{parsed_program, ProgramModel};
use crate::report::{lemma_literal_types, literal_type_text, type_text_at};
use crate::session::{answered, blank_state, items_of, value_text, Ending, PRELUDE};
use crate::show::{shown, shown_all, shown_fields, SHOW_FUEL};
use crate::solve::FUEL;
use crate::syntax::{AstModel, Kind, Span};
use crate::text::{arranged, distinct, fraction_text, inserted, lemma_arranged, numeral};
use crate::value::{
    distinct_fields, lemma_record_ignores_order, needs_parens, rendered, rendered_args, FieldModel,
    ValueModel,
};
use crate::values::{Crash, ValNode, ValuesModel};

verus! {

/// The text of the value that an outcome is: a number by its numeral, a
/// success as `Ok` before the numeral, a failure as `Err` before the name
/// of what went wrong. A crash is no value and has no text.
pub open spec fn outcome_text(outcome: Outcome) -> Seq<char> {
    match outcome {
        Outcome::Plain(x) => numeral(x as int),
        Outcome::Okay(x) => "Ok "@ + numeral(x as int),
        Outcome::DivByZero => "Err DivByZero"@,
        Outcome::Overflow => "Err Overflow"@,
        Outcome::Crashed => Seq::empty(),
    }
}

/// The text of the value that an evaluation ended with, where it ended
/// with a value that can be shown.
pub open spec fn printed(end: (ValuesModel, Result<usize, Crash>), fuel: nat) -> Option<Seq<char>> {
    match end.1 {
        Ok(r) => match shown(end.0, r, fuel) {
            Some(m) => Some(rendered(m)),
            None => None,
        },
        Err(_) => None,
    }
}

/// Whether the arena has room for the value of one more outcome.
pub open spec fn has_room(vals: ValuesModel) -> bool {
    &&& vals.nodes.len() + 2 <= usize::MAX
    &&& vals.links.len() + 1 <= usize::MAX
    &&& vals.chars.len() + 12 <= usize::MAX
}

/// A success that holds a whole number is shown as `Ok` with the number.
proof fn lemma_success_shows(vals: ValuesModel, x: i128, fuel: nat)
    requires
        has_room(vals),
        fuel >= 2,
    ensures
        ({
            let (v0, n) = vals.with_node(ValNode::Int(x));
            let (v1, r) = success(v0, n);
            r matches Ok(ok) && shown(v1, ok, fuel) == Some(
                ValueModel::Tag("Ok"@, seq![ValueModel::Num(numeral(x as int))]),
            )
        }),
{
    reveal_strlit("Ok");
    let (v0, n) = vals.with_node(ValNode::Int(x));
    let (written, text) = v0.with_text("Ok"@);
    let (linked, span) = written.with_links(seq![n]);
    let (v1, tag) = linked.with_node(ValNode::Tag(text, span));
    assert(v0.with_tag("Ok"@, seq![n]) == (v1, tag));
    assert(v1.node_at(tag) == Some(ValNode::Tag(text, span)));
    assert(v1.node_at(n) == Some(ValNode::Int(x)));
    assert(v1.text(text) =~= "Ok"@);
    assert(v1.parts(span) =~= seq![n]);
    let m = ValueModel::Num(numeral(x as int));
    assert(shown(v1, n, (fuel - 1) as nat) == Some(m));
    assert(shown_all(v1, seq![n], 1, (fuel - 1) as nat) == Some(Seq::<ValueModel>::empty()));
    assert(shown_all(v1, seq![n], 0, (fuel - 1) as nat) == Some(
        seq![m] + Seq::<ValueModel>::empty(),
    ));
    assert(seq![m] + Seq::<ValueModel>::empty() =~= seq![m]);
}

/// A failure is shown as `Err` with the tag of what went wrong.
proof fn lemma_failure_shows(vals: ValuesModel, what: Seq<char>, fuel: nat)
    requires
        has_room(vals),
        what.len() <= 9,
        fuel >= 2,
    ensures
        ({
            let (v1, r) = failure(vals, what);
            r matches Ok(err) && shown(v1, err, fuel) == Some(
                ValueModel::Tag("Err"@, seq![ValueModel::Tag(what, Seq::empty())]),
            )
        }),
{
    reveal_strlit("Err");
    let (w0, t0) = vals.with_text(what);
    let (l0, s0) = w0.with_links(Seq::empty());
    let (v0, inner) = l0.with_node(ValNode::Tag(t0, s0));
    assert(vals.with_tag(what, Seq::empty()) == (v0, inner));
    let (written, text) = v0.with_text("Err"@);
    let (linked, span) = written.with_links(seq![inner]);
    let (v1, tag) = linked.with_node(ValNode::Tag(text, span));
    assert(v0.with_tag("Err"@, seq![inner]) == (v1, tag));
    assert(v1.node_at(tag) == Some(ValNode::Tag(text, span)));
    assert(v1.node_at(inner) == Some(ValNode::Tag(t0, s0)));
    assert(v1.text(text) =~= "Err"@);
    assert(v1.text(t0) =~= what);
    assert(v1.parts(span) =~= seq![inner]);
    assert(v1.parts(s0) =~= Seq::<usize>::empty());
    let m = ValueModel::Tag(what, Seq::empty());
    assert(shown_all(v1, v1.parts(s0), 0, (fuel - 2) as nat) == Some(Seq::<ValueModel>::empty()));
    assert(shown(v1, inner, (fuel - 1) as nat) == Some(m));
    assert(shown_all(v1, seq![inner], 1, (fuel - 1) as nat) == Some(
        Seq::<ValueModel>::empty(),
    ));
    assert(shown_all(v1, seq![inner], 0, (fuel - 1) as nat) == Some(
        seq![m] + Seq::<ValueModel>::empty(),
    ));
    assert(seq![m] + Seq::<ValueModel>::empty() =~= seq![m]);
}

/// What a function on whole numbers gives is printed as its outcome reads:
/// for every two operands, the value that the function makes of them is
/// shown with the text of the outcome of the operation. An operation that
/// crashes gives no value.
pub proof fn lemma_operation_prints(
    vals: ValuesModel,
    name: Seq<char>,
    args: Seq<usize>,
    at: usize,
    op: IntOp,
    a: i128,
    b: i128,
    fuel: nat,
)
    requires
        int_op(name) == Some(op),
        args.len() == 2,
        vals.node_at(args[0]) == Some(ValNode::Int(a)),
        vals.node_at(args[1]) == Some(ValNode::Int(b)),
        IntWidth::I64.holds(a as int),
        IntWidth::I64.holds(b as int),
        has_room(vals),
        fuel >= 2,
    ensures
        int_outcome(op, a as int, b as int) is Crashed ==> built(vals, name, args, at).1 is Err,
        !(int_outcome(op, a as int, b as int) is Crashed) ==> printed(
            built(vals, name, args, at),
            fuel,
        ) == Some(outcome_text(int_outcome(op, a as int, b as int))),
{
    reveal_strlit("Ok");
    reveal_strlit("Ok ");
    reveal_strlit(" ");
    reveal_strlit("Err");
    reveal_strlit("DivByZero");
    reveal_strlit("Overflow");
    reveal_strlit("Err DivByZero");
    reveal_strlit("Err Overflow");
    let outcome = int_outcome(op, a as int, b as int);
    assert(number_at(vals, args[0]) == Some(Number::Whole(a)));
    assert(number_at(vals, args[1]) == Some(Number::Whole(b)));
    assert(number_outcome(op, Number::Whole(a), Number::Whole(b)) == (outcome, false));
    assert(built(vals, name, args, at) == outcome_value(vals, outcome, false, at));
    match outcome {
        Outcome::Plain(x) => {
            let (v1, r) = vals.with_node(ValNode::Int(x));
            assert(shown(v1, r, fuel) == Some(ValueModel::Num(numeral(x as int))));
        },
        Outcome::Okay(x) => {
            lemma_success_shows(vals, x, fuel);
            let inner = ValueModel::Num(numeral(x as int));
            let m = ValueModel::Tag("Ok"@, seq![inner]);
            assert(!needs_parens(inner));
            assert(rendered_args(seq![inner], 1) =~= Seq::<char>::empty());
            assert(rendered(inner) == numeral(x as int));
            assert(seq![inner][0] == inner);
            assert(rendered_args(seq![inner], 0) == (" "@ + rendered(inner)) + rendered_args(
                seq![inner],
                1,
            ));
            assert(rendered_args(seq![inner], 0) =~= " "@ + numeral(x as int));
            assert(rendered(m) =~= "Ok"@ + (" "@ + numeral(x as int)));
            assert("Ok"@ + (" "@ + numeral(x as int)) =~= "Ok "@ + numeral(x as int));
        },
        Outcome::DivByZero => {
            lemma_failure_shows(vals, "DivByZero"@, fuel);
            lemma_failure_prints("DivByZero"@);
            assert("Err"@ + (" "@ + "DivByZero"@) =~= "Err DivByZero"@);
        },
        Outcome::Overflow => {
            lemma_failure_shows(vals, "Overflow"@, fuel);
            lemma_failure_prints("Overflow"@);
            assert("Err"@ + (" "@ + "Overflow"@) =~= "Err Overflow"@);
        },
        Outcome::Crashed => {},
    }
}

/// The text of a failure: `Err`, a space, and the name of what went wrong.
proof fn lemma_failure_prints(what: Seq<char>)
    ensures
        rendered(ValueModel::Tag("Err"@, seq![ValueModel::Tag(what, Seq::empty())])) == "Err"@ + (
        " "@ + what),
{
    let inner = ValueModel::Tag(what, Seq::empty());
    assert(!needs_parens(inner));
    assert(rendered_args(Seq::<ValueModel>::empty(), 0) =~= Seq::<char>::empty());
    assert(rendered(inner) =~= what);
    assert(rendered_args(seq![inner], 1) =~= Seq::<char>::empty());
    assert(seq![inner][0] == inner);
    assert(rendered_args(seq![inner], 0) == (" "@ + rendered(inner)) + rendered_args(
        seq![inner],
        1,
    ));
    assert(rendered_args(seq![inner], 0) =~= " "@ + what);
}

/// The exact result of a division: the floor quotient, the ceiling
/// quotient, or the remainder.
pub open spec fn divided(op: IntOp, a: int, b: int) -> int {
    match op {
        IntOp::DivFloor => floor_quotient(a, b),
        IntOp::DivCeil => ceil_quotient(a, b),
        _ => remainder(a, b),
    }
}

/// The exact result of an addition, a subtraction or a multiplication,
/// plain, wrapping or checked.
pub open spec fn exact(op: IntOp, a: int, b: int) -> int {
    match op {
        IntOp::Add | IntOp::AddWrap | IntOp::AddChecked => a + b,
        IntOp::Sub | IntOp::SubWrap | IntOp::SubChecked => a - b,
        _ => a * b,
    }
}

/// The state of inference after the declarations of the language, in the
/// program that a submission was parsed to.
pub open spec fn declared_state(program: ProgramModel) -> InferModel {
    inferred_decls(
        program.source.chars,
        program.ast,
        blank_state(),
        items_of(program.ast, program.prelude),
        0,
        true,
        FUEL as nat,
    ).0
}

/// Whether the declarations of the language are accepted in the program,
/// and leave room in the arena for the type of a literal.
pub open spec fn language_accepted(program: ProgramModel) -> bool {
    &&& inferred_decls(
        program.source.chars,
        program.ast,
        blank_state(),
        items_of(program.ast, program.prelude),
        0,
        true,
        FUEL as nat,
    ).1 is Ok
    &&& declared_state(program).types.nodes.len() + 2 <= usize::MAX
    &&& declared_state(program).types.links.len() + 1 <= usize::MAX
}

/// The numeric literal that the submission of a program is, where it is
/// one and nothing stands before it.
pub open spec fn literal_of_program(program: ProgramModel) -> Option<Kind> {
    match program.ast.node_at(program.root) {
        Some(n) => match n.kind {
            Kind::Block(items, body) => if program.ast.parts(items).len() == 0 {
                match program.ast.node_at(body) {
                    Some(b) => match b.kind {
                        Kind::Num(_) | Kind::Int(_) | Kind::Frac(_) => Some(b.kind),
                        _ => None,
                    },
                    None => None,
                }
            } else {
                None
            },
            _ => None,
        },
        None => None,
    }
}

/// The text of the value of a numeric literal: the numeral of a whole
/// number, in decimal whatever the base that it was written in, and the
/// decimal places of a fraction.
pub open spec fn literal_text(kind: Kind) -> Seq<char> {
    match kind {
        Kind::Num(x) => numeral(x as int),
        Kind::Int(x) => numeral(x as int),
        Kind::Frac(x) => fraction_text(x as int),
        _ => Seq::empty(),
    }
}

/// A submission that was parsed to one numeric literal is answered with
/// the value of the literal and the open type that goes with its form:
/// `Num *` for a numeral without a point, `Int *` for a hexadecimal
/// numeral, `Float *` for a numeral with a point. The type follows the
/// form alone, and is never a type of a fixed width. The law starts from
/// the parsed program, and holds where the declarations of the language
/// are accepted in it.
pub proof fn lemma_literal_answer(definitions: Seq<char>, source: Seq<char>, kind: Kind)
    requires
        parsed_program(PRELUDE@, definitions + source) matches Ok(program) && language_accepted(
            program,
        ) && literal_of_program(program) == Some(kind),
    ensures
        answered(definitions, source).ending == Ending::Value,
        answered(definitions, source).text == literal_text(kind) + " : "@ + literal_type_text(kind),
{
    let program = parsed_program(PRELUDE@, definitions + source)->Ok_0;
    let chars = program.source.chars;
    let ast = program.ast;
    let s1 = declared_state(program);
    let root = ast.node_at(program.root).unwrap();
    let body = root.kind->Block_1;
    let items = root.kind->Block_0;
    assert(ast.parts(items).len() == 0);
    // The type.
    assert(FUEL > 1);
    assert(inferred_decls(chars, ast, s1, ast.parts(items), 0, false, (FUEL - 1) as nat) == (
        s1,
        Ok::<usize, crate::infer::TypeError>(0),
    ));
    assert(inferred(chars, ast, s1, program.root, FUEL as nat) == inferred(
        chars,
        ast,
        s1,
        body,
        (FUEL - 1) as nat,
    ));
    lemma_literal_types(chars, ast, s1, body, (FUEL - 1) as nat);
    // The value.
    let empty = ValuesModel { nodes: Seq::empty(), links: Seq::empty(), chars: Seq::empty() };
    let (v0, scope) = empty.with_node(ValNode::Empty);
    assert(EVAL_FUEL > 1);
    assert(defined(chars, ast, v0, scope, ast.parts(items), 0, (EVAL_FUEL - 1) as nat) == (
        v0,
        Ok::<usize, crate::values::Crash>(scope),
    ));
    let (v1, r3) = evaluated(chars, ast, v0, scope, program.root, EVAL_FUEL as nat);
    assert((v1, r3) == evaluated(chars, ast, v0, scope, body, (EVAL_FUEL - 1) as nat));
    let value = r3->Ok_0;
    assert(value == v0.nodes.len());
    assert(SHOW_FUEL > 0);
    assert(value_text(v1, value) == literal_text(kind));
}

/// The whole number that an operand is: the value of a numeral, or the
/// number that a name of the language stands for by itself.
pub open spec fn operand(chars: Seq<char>, ast: AstModel, node: usize) -> Option<i128> {
    match ast.node_at(node) {
        Some(n) => match n.kind {
            Kind::Num(x) => Some(x),
            Kind::Var(name) => match constant(slice(chars, name)) {
                Some(ValNode::Int(x)) => Some(x),
                _ => None,
            },
            _ => None,
        },
        None => None,
    }
}

/// The operation on two whole numbers that the submission of a program
/// is, where it is one and nothing stands before it: the name of a
/// function of the language that is called with two operands, or of the
/// operator that stands between them.
pub open spec fn operation_of_program(program: ProgramModel) -> Option<(Seq<char>, i128, i128)> {
    let chars = program.source.chars;
    let ast = program.ast;
    match ast.node_at(program.root) {
        Some(n) => match n.kind {
            Kind::Block(items, body) => if ast.parts(items).len() == 0 {
                match ast.node_at(body) {
                    Some(b) => match b.kind {
                        Kind::Call(function, args) => match ast.node_at(function) {
                            Some(f) => match f.kind {
                                Kind::Var(name) => if ast.parts(args).len() == 2 {
                                    match (
                                        operand(chars, ast, ast.parts(args)[0]),
                                        operand(chars, ast, ast.parts(args)[1]),
                                    ) {
                                        (Some(x), Some(y)) => Some((slice(chars, name), x, y)),
                                        _ => None,
                                    }
                                } else {
                                    None
                                },
                                _ => None,
                            },
                            None => None,
                        },
                        Kind::Binary(op, left, right) => match (
                            operand(chars, ast, left),
                            operand(chars, ast, right),
                        ) {
                            (Some(x), Some(y)) => Some((operator_name(op), x, y)),
                            _ => None,
                        },
                        _ => None,
                    },
                    None => None,
                }
            } else {
                None
            },
            _ => None,
        },
        None => None,
    }
}

/// The inferred type of the submission of a program, with the state of
/// inference after it.
pub open spec fn typed(program: ProgramModel) -> Inferred {
    inferred(
        program.source.chars,
        program.ast,
        declared_state(program),
        program.root,
        FUEL as nat,
    )
}

/// The scope that a submission is evaluated in, and the arena that holds it.
pub open spec fn first_scope() -> (ValuesModel, usize) {
    ValuesModel { nodes: Seq::empty(), links: Seq::empty(), chars: Seq::empty() }.with_node(
        ValNode::Empty,
    )
}

/// A name that stands for an operation stands for no number.
proof fn lemma_operation_is_no_constant(name: Seq<char>)
    requires
        int_op(name) is Some,
    ensures
        constant(name) is None,
        is_builtin(name),
        name.len() <= 14,
{
    reveal_strlit("Num.maxI64");
    reveal_strlit("Num.minI64");
    reveal_strlit("Num.add");
    reveal_strlit("Num.sub");
    reveal_strlit("Num.mul");
    reveal_strlit("Num.rem");
    reveal_strlit("Num.divFloor");
    reveal_strlit("Num.divCeil");
    reveal_strlit("Num.addWrap");
    reveal_strlit("Num.subWrap");
    reveal_strlit("Num.mulWrap");
    reveal_strlit("Num.addChecked");
    reveal_strlit("Num.subChecked");
    reveal_strlit("Num.mulChecked");
    reveal_strlit("Num.bitwiseAnd");
    reveal_strlit("Num.bitwiseXor");
    assert("Num.maxI64"@.len() == 10 && "Num.minI64"@.len() == 10);
    assert(name.len() == 7 || name.len() == 11 || name.len() == 12 || name.len() == 14) by {
        if name == "Num.add"@ || name == "Num.sub"@ || name == "Num.mul"@ || name == "Num.rem"@ {
            assert(name.len() == 7);
        } else if name == "Num.divFloor"@ {
            assert(name.len() == 12);
        } else if name == "Num.divCeil"@ || name == "Num.addWrap"@ || name == "Num.subWrap"@
            || name == "Num.mulWrap"@ {
            assert(name.len() == 11);
        } else {
            assert(name == "Num.addChecked"@ || name == "Num.subChecked"@ || name
                == "Num.mulChecked"@ || name == "Num.bitwiseAnd"@ || name == "Num.bitwiseXor"@);
            assert(name.len() == 14);
        }
    }
}

/// An operand is evaluated to its number, in one more node of the arena.
proof fn lemma_operand_value(
    chars: Seq<char>,
    ast: AstModel,
    vals: ValuesModel,
    env: usize,
    node: usize,
    x: i128,
    fuel: nat,
)
    requires
        operand(chars, ast, node) == Some(x),
        vals.node_at(env) == Some(ValNode::Empty),
        fuel > 0,
    ensures
        evaluated(chars, ast, vals, env, node, fuel) == (
            vals.with_node(ValNode::Int(x)).0,
            Ok::<usize, Crash>(vals.with_node(ValNode::Int(x)).1),
        ),
{
    assert(EVAL_FUEL > 0);
    match ast.node_at(node).unwrap().kind {
        Kind::Var(name) => {
            assert(looked_up(chars, vals, env, slice(chars, name), EVAL_FUEL as nat) is None);
        },
        _ => {},
    }
}

/// The end of the evaluation of the submission of a program.
pub open spec fn run(program: ProgramModel) -> (ValuesModel, Result<usize, Crash>) {
    evaluated(
        program.source.chars,
        program.ast,
        first_scope().0,
        first_scope().1,
        program.root,
        EVAL_FUEL as nat,
    )
}

/// A submission that parses and has a type is answered by its evaluation:
/// with the text of its value before the text of its type, or with a
/// crash where the evaluation ends in one.
pub proof fn lemma_answer_follows(definitions: Seq<char>, source: Seq<char>)
    requires
        parsed_program(PRELUDE@, definitions + source) matches Ok(program) && language_accepted(
            program,
        ) && typed(program).1 is Ok,
    ensures
        ({
            let program = parsed_program(PRELUDE@, definitions + source)->Ok_0;
            let answer = answered(definitions, source);
            match run(program).1 {
                Ok(value) => answer.ending == Ending::Value && answer.text == value_text(
                    run(program).0,
                    value,
                ) + " : "@ + type_text_at(
                    typed(program).0.types,
                    program.source.chars,
                    typed(program).1->Ok_0,
                ),
                Err(_) => answer.ending == Ending::Crash,
            }
        }),
{
}

/// The evaluation of a submission that is one call of an operation with
/// two operands: what the operation gives for the two numbers.
proof fn lemma_call_runs(program: ProgramModel, name: Seq<char>, op: IntOp, a: i128, b: i128)
    requires
        operation_of_program(program) == Some((name, a, b)),
        int_op(name) == Some(op),
        program.ast.node_at(program.root) matches Some(n) && n.kind matches Kind::Block(_, body)
            && program.ast.node_at(body) matches Some(c) && c.kind is Call,
    ensures
        exists|vals: ValuesModel, args: Seq<usize>, at: usize|
            #![trigger built(vals, name, args, at)]
            run(program) == built(vals, name, args, at) && args.len() == 2 && vals.node_at(args[0])
                == Some(ValNode::Int(a)) && vals.node_at(args[1]) == Some(ValNode::Int(b))
                && has_room(vals),
{
    let chars = program.source.chars;
    let ast = program.ast;
    let root = ast.node_at(program.root).unwrap();
    let body = root.kind->Block_1;
    let items = root.kind->Block_0;
    let (v0, scope) = first_scope();
    assert(EVAL_FUEL > 3);
    let fuel = (EVAL_FUEL - 1) as nat;
    assert(defined(chars, ast, v0, scope, ast.parts(items), 0, fuel) == (
        v0,
        Ok::<usize, Crash>(scope),
    ));
    assert(run(program) == evaluated(chars, ast, v0, scope, body, fuel));
    lemma_operation_is_no_constant(name);
    assert(v0.node_at(scope) == Some(ValNode::Empty));
    let function = ast.node_at(body).unwrap().kind->Call_0;
    let args = ast.node_at(body).unwrap().kind->Call_1;
    let called_name = ast.node_at(function).unwrap().kind->Var_0;
    assert(slice(chars, called_name) == name);
    assert(looked_up(chars, v0, scope, name, EVAL_FUEL as nat) is None);
    let (v1, f) = v0.with_named(name, |s: Span| ValNode::Builtin(s));
    assert(evaluated(chars, ast, v0, scope, function, (fuel - 1) as nat) == (
        v1,
        Ok::<usize, Crash>(f),
    ));
    let parts = ast.parts(args);
    assert(v1.node_at(scope) == Some(ValNode::Empty));
    lemma_operand_value(chars, ast, v1, scope, parts[0], a, (fuel - 1) as nat);
    let (v2, first) = v1.with_node(ValNode::Int(a));
    assert(v2.node_at(scope) == Some(ValNode::Empty));
    lemma_operand_value(chars, ast, v2, scope, parts[1], b, (fuel - 1) as nat);
    let (v3, second) = v2.with_node(ValNode::Int(b));
    lemma_pair_evaluates(chars, ast, v1, scope, parts, a, b, (fuel - 1) as nat);
    let values = seq![first, second];
    let span = v3.node_at(f).unwrap()->Builtin_0;
    assert(v3.text(span) =~= name);
    assert(called(chars, ast, v3, f, values, body, (fuel - 1) as nat) == built(
        v3,
        name,
        values,
        body,
    ));
    assert(run(program) == built(v3, name, values, body));
}

/// The evaluation of a submission that is one operator between two
/// operands: what the operation gives for the two numbers.
proof fn lemma_operator_runs(program: ProgramModel, name: Seq<char>, op: IntOp, a: i128, b: i128)
    requires
        operation_of_program(program) == Some((name, a, b)),
        int_op(name) == Some(op),
        program.ast.node_at(program.root) matches Some(n) && n.kind matches Kind::Block(_, body)
            && program.ast.node_at(body) matches Some(c) && c.kind is Binary,
    ensures
        exists|vals: ValuesModel, args: Seq<usize>, at: usize|
            #![trigger built(vals, name, args, at)]
            run(program) == built(vals, name, args, at) && args.len() == 2 && vals.node_at(args[0])
                == Some(ValNode::Int(a)) && vals.node_at(args[1]) == Some(ValNode::Int(b))
                && has_room(vals),
{
    let chars = program.source.chars;
    let ast = program.ast;
    let root = ast.node_at(program.root).unwrap();
    let body = root.kind->Block_1;
    let items = root.kind->Block_0;
    let (v0, scope) = first_scope();
    assert(EVAL_FUEL > 3);
    let fuel = (EVAL_FUEL - 1) as nat;
    assert(defined(chars, ast, v0, scope, ast.parts(items), 0, fuel) == (
        v0,
        Ok::<usize, Crash>(scope),
    ));
    assert(run(program) == evaluated(chars, ast, v0, scope, body, fuel));
    assert(v0.node_at(scope) == Some(ValNode::Empty));
    let left = ast.node_at(body).unwrap().kind->Binary_1;
    let right = ast.node_at(body).unwrap().kind->Binary_2;
    let parts = seq![left, right];
    lemma_pair_evaluates(chars, ast, v0, scope, parts, a, b, (fuel - 1) as nat);
    let (v1, first) = v0.with_node(ValNode::Int(a));
    let (v2, second) = v1.with_node(ValNode::Int(b));
    assert(run(program) == built(v2, name, seq![first, second], body));
}

/// Two operands are evaluated one after the other, each to its number.
proof fn lemma_pair_evaluates(
    chars: Seq<char>,
    ast: AstModel,
    vals: ValuesModel,
    env: usize,
    parts: Seq<usize>,
    a: i128,
    b: i128,
    fuel: nat,
)
    requires
        parts.len() == 2,
        operand(chars, ast, parts[0]) == Some(a),
        operand(chars, ast, parts[1]) == Some(b),
        vals.node_at(env) == Some(ValNode::Empty),
        vals.nodes.len() + 2 <= usize::MAX,
        fuel > 0,
    ensures
        ({
            let (v1, first) = vals.with_node(ValNode::Int(a));
            let (v2, second) = v1.with_node(ValNode::Int(b));
            evaluated_all(chars, ast, vals, env, parts, 0, fuel) == (
                v2,
                Ok::<Seq<usize>, Crash>(seq![first, second]),
            )
        }),
{
    lemma_operand_value(chars, ast, vals, env, parts[0], a, fuel);
    let (v1, first) = vals.with_node(ValNode::Int(a));
    assert(v1.node_at(env) == Some(ValNode::Empty));
    lemma_operand_value(chars, ast, v1, env, parts[1], b, fuel);
    let (v2, second) = v1.with_node(ValNode::Int(b));
    assert(evaluated_all(chars, ast, v2, env, parts, 2, fuel) == (
        v2,
        Ok::<Seq<usize>, Crash>(Seq::empty()),
    ));
    assert(evaluated_all(chars, ast, v1, env, parts, 1, fuel) == (
        v2,
        Ok::<Seq<usize>, Crash>(seq![second] + Seq::empty()),
    ));
    assert(evaluated_all(chars, ast, vals, env, parts, 0, fuel) == (
        v2,
        Ok::<Seq<usize>, Crash>(seq![first] + (seq![second] + Seq::empty())),
    ));
    assert(seq![first] + (seq![second] + Seq::<usize>::empty()) =~= seq![first, second]);
}

/// A submission that was parsed to one operation on two whole numbers,
/// and that has a type, is answered with the text of the outcome of the
/// operation before its type; where the operation crashes, the answer is
/// a crash. The operands are numerals or the numbers that the language
/// names; the operation is called by its name or written as an operator.
/// The law starts from the parsed program, and holds where the
/// declarations of the language are accepted in it.
pub proof fn lemma_operation_answer(
    definitions: Seq<char>,
    source: Seq<char>,
    name: Seq<char>,
    op: IntOp,
    a: i128,
    b: i128,
)
    requires
        parsed_program(PRELUDE@, definitions + source) matches Ok(program) && language_accepted(
            program,
        ) && operation_of_program(program) == Some((name, a, b)) && typed(program).1 is Ok,
        int_op(name) == Some(op),
        IntWidth::I64.holds(a as int),
        IntWidth::I64.holds(b as int),
    ensures
        int_outcome(op, a as int, b as int) is Crashed ==> answered(definitions, source).ending
            == Ending::Crash,
        !(int_outcome(op, a as int, b as int) is Crashed) ==> answered(definitions, source).ending
            == Ending::Value && answered(definitions, source).text == outcome_text(
            int_outcome(op, a as int, b as int),
        ) + " : "@ + type_text_at(
            typed(parsed_program(PRELUDE@, definitions + source)->Ok_0).0.types,
            parsed_program(PRELUDE@, definitions + source)->Ok_0.source.chars,
            typed(parsed_program(PRELUDE@, definitions + source)->Ok_0).1->Ok_0,
        ),
{
    let program = parsed_program(PRELUDE@, definitions + source)->Ok_0;
    let body = program.ast.node_at(program.root).unwrap().kind->Block_1;
    lemma_answer_follows(definitions, source);
    if program.ast.node_at(body).unwrap().kind is Call {
        lemma_call_runs(program, name, op, a, b);
    } else {
        lemma_operator_runs(program, name, op, a, b);
    }
    let (vals, args, at) = choose|vals: ValuesModel, args: Seq<usize>, at: usize|
        #![trigger built(vals, name, args, at)]
        run(program) == built(vals, name, args, at) && args.len() == 2 && vals.node_at(args[0])
            == Some(ValNode::Int(a)) && vals.node_at(args[1]) == Some(ValNode::Int(b))
            && has_room(vals);
    assert(SHOW_FUEL > 2);
    lemma_operation_prints(vals, name, args, at, op, a, b, SHOW_FUEL as nat);
}

/// The type of the submission of a program as it is printed.
pub open spec fn type_part(program: ProgramModel) -> Seq<char> {
    type_text_at(typed(program).0.types, program.source.chars, typed(program).1->Ok_0)
}

/// A submission that was parsed to a division of two whole numbers is
/// answered with `Err DivByZero` before its type where the divisor is
/// zero, and with `Ok` and the numeral of the quotient or the remainder
/// before its type for every other divisor: the floor of the exact
/// quotient for the floor division, its ceiling for the ceiling division.
/// A zero divisor gives a value, never a report or a crash.
pub proof fn lemma_division_answer(
    definitions: Seq<char>,
    source: Seq<char>,
    name: Seq<char>,
    op: IntOp,
    a: i128,
    b: i128,
)
    requires
        parsed_program(PRELUDE@, definitions + source) matches Ok(program) && language_accepted(
            program,
        ) && operation_of_program(program) == Some((name, a, b)) && typed(program).1 is Ok,
        int_op(name) == Some(op),
        op is DivFloor || op is DivCeil || op is Rem,
        IntWidth::I64.holds(a as int),
        IntWidth::I64.holds(b as int),
        !(a == IntWidth::I64.lowest() && b == -1),
    ensures
        answered(definitions, source).ending == Ending::Value,
        answered(definitions, source).text == (if b == 0 {
            "Err DivByZero"@
        } else {
            "Ok "@ + numeral(divided(op, a as int, b as int))
        }) + " : "@ + type_part(parsed_program(PRELUDE@, definitions + source)->Ok_0),
{
    lemma_division(a as int, b as int);
    if b != 0 {
        crate::num::lemma_quotient_fits(IntWidth::I64, a as int, b as int);
    }
    lemma_operation_answer(definitions, source, name, op, a, b);
}

/// A submission that was parsed to a wrapping operation on two whole
/// numbers is answered with the numeral of the number of the width that
/// is congruent to the exact result, before its type: never with a
/// failure, and never with a bound of the width in place of the result.
pub proof fn lemma_wrapping_answer(
    definitions: Seq<char>,
    source: Seq<char>,
    name: Seq<char>,
    op: IntOp,
    a: i128,
    b: i128,
)
    requires
        parsed_program(PRELUDE@, definitions + source) matches Ok(program) && language_accepted(
            program,
        ) && operation_of_program(program) == Some((name, a, b)) && typed(program).1 is Ok,
        int_op(name) == Some(op),
        op is AddWrap || op is SubWrap || op is MulWrap,
        IntWidth::I64.holds(a as int),
        IntWidth::I64.holds(b as int),
    ensures
        answered(definitions, source).ending == Ending::Value,
        answered(definitions, source).text == numeral(
            IntWidth::I64.wrapped(exact(op, a as int, b as int)),
        ) + " : "@ + type_part(parsed_program(PRELUDE@, definitions + source)->Ok_0),
        IntWidth::I64.holds(IntWidth::I64.wrapped(exact(op, a as int, b as int))),
        IntWidth::I64.wrapped(exact(op, a as int, b as int)) % IntWidth::I64.modulus() == exact(
            op,
            a as int,
            b as int,
        ) % IntWidth::I64.modulus(),
{
    lemma_wrapping_and_checking(a as int, b as int);
    crate::num::lemma_wrapped(IntWidth::I64, exact(op, a as int, b as int));
    lemma_operation_answer(definitions, source, name, op, a, b);
}

/// A submission that was parsed to a checked operation on two whole
/// numbers is answered with `Err Overflow` before its type where the exact
/// result is no number of the width, and with `Ok` and the numeral of the
/// exact result before its type wherever it is one.
pub proof fn lemma_checking_answer(
    definitions: Seq<char>,
    source: Seq<char>,
    name: Seq<char>,
    op: IntOp,
    a: i128,
    b: i128,
)
    requires
        parsed_program(PRELUDE@, definitions + source) matches Ok(program) && language_accepted(
            program,
        ) && operation_of_program(program) == Some((name, a, b)) && typed(program).1 is Ok,
        int_op(name) == Some(op),
        op is AddChecked || op is SubChecked || op is MulChecked,
        IntWidth::I64.holds(a as int),
        IntWidth::I64.holds(b as int),
    ensures
        answered(definitions, source).ending == Ending::Value,
        answered(definitions, source).text == (if IntWidth::I64.holds(
            exact(op, a as int, b as int),
        ) {
            "Ok "@ + numeral(exact(op, a as int, b as int))
        } else {
            "Err Overflow"@
        }) + " : "@ + type_part(parsed_program(PRELUDE@, definitions + source)->Ok_0),
{
    lemma_wrapping_and_checking(a as int, b as int);
    lemma_operation_answer(definitions, source, name, op, a, b);
}

/// The value that a numeric literal is evaluated to.
pub open spec fn literal_node(kind: Kind) -> ValNode {
    match kind {
        Kind::Frac(x) => ValNode::Frac(x),
        Kind::Int(x) => ValNode::Int(x),
        Kind::Num(x) => ValNode::Int(x),
        _ => ValNode::Empty,
    }
}

/// The field that is written at `node` with a numeric literal for its
/// value: its name as it is written, and the text of the literal's value.
pub open spec fn written_field(chars: Seq<char>, ast: AstModel, node: usize) -> Option<FieldModel> {
    match ast.node_at(node) {
        Some(n) => match n.kind {
            Kind::Field(name, value) => match ast.node_at(value) {
                Some(v) => match v.kind {
                    Kind::Num(_) | Kind::Int(_) | Kind::Frac(_) => Some(
                        FieldModel {
                            name: slice(chars, name),
                            value: ValueModel::Num(literal_text(v.kind)),
                        },
                    ),
                    _ => None,
                },
                None => None,
            },
            _ => None,
        },
        None => None,
    }
}

/// Whether `fields` are the fields that are written at `nodes`, in the
/// order in which they are written.
pub open spec fn written(chars: Seq<char>, ast: AstModel, nodes: Seq<usize>, fields: Seq<FieldModel>) -> bool {
    nodes.len() == fields.len() && forall|i: int|
        0 <= i < nodes.len() ==> written_field(chars, ast, #[trigger] nodes[i]) == Some(fields[i])
}

/// The number of characters in the names of the fields from index `i` on.
pub open spec fn names_length(fields: Seq<FieldModel>, i: int) -> nat
    decreases fields.len() - i,
{
    if 0 <= i < fields.len() {
        fields[i].name.len() + names_length(fields, i + 1)
    } else {
        0
    }
}

/// Whether the submission of a program is a record of the given fields,
/// each written with a numeric literal for its value, and nothing stands
/// before it.
pub open spec fn record_of_program(program: ProgramModel, fields: Seq<FieldModel>) -> bool {
    match program.ast.node_at(program.root) {
        Some(n) => match n.kind {
            Kind::Block(items, body) => program.ast.parts(items).len() == 0
                && match program.ast.node_at(body) {
                Some(b) => match b.kind {
                    Kind::Record(span) => written(
                        program.source.chars,
                        program.ast,
                        program.ast.parts(span),
                        fields,
                    ),
                    _ => false,
                },
                None => false,
            },
            _ => false,
        },
        None => false,
    }
}

/// Whether the node at `index` is a field of the name and the value of `f`.
pub open spec fn is_field(vals: ValuesModel, index: usize, f: FieldModel) -> bool {
    match vals.node_at(index) {
        Some(ValNode::Field(name, value)) => name.start <= name.end <= vals.chars.len()
            && vals.text(name) == f.name && match vals.node_at(value) {
            Some(ValNode::Int(x)) => f.value == ValueModel::Num(numeral(x as int)),
            Some(ValNode::Frac(x)) => f.value == ValueModel::Num(fraction_text(x as int)),
            _ => false,
        },
        _ => false,
    }
}

/// Whether the arena `next` holds all that the arena `vals` holds, at the
/// same places.
pub open spec fn keeps(vals: ValuesModel, next: ValuesModel) -> bool {
    &&& vals.nodes.len() <= next.nodes.len()
    &&& vals.links.len() <= next.links.len()
    &&& vals.chars.len() <= next.chars.len()
    &&& forall|i: int| 0 <= i < vals.nodes.len() ==> #[trigger] next.nodes[i] == vals.nodes[i]
    &&& forall|i: int| 0 <= i < vals.links.len() ==> #[trigger] next.links[i] == vals.links[i]
    &&& forall|i: int| 0 <= i < vals.chars.len() ==> #[trigger] next.chars[i] == vals.chars[i]
}

/// A field stays the field that it is where the arena grows.
proof fn lemma_field_stays(vals: ValuesModel, next: ValuesModel, index: usize, f: FieldModel)
    requires
        is_field(vals, index, f),
        keeps(vals, next),
    ensures
        is_field(next, index, f),
{
    let name = vals.node_at(index).unwrap()->Field_0;
    assert(next.node_at(index) == vals.node_at(index));
    assert(next.chars.subrange(name.start as int, name.end as int) =~= vals.chars.subrange(
        name.start as int,
        name.end as int,
    ));
}

/// The fields of a record are evaluated one after the other, each to a
/// field of its name and value, and the arena grows by them alone.
proof fn lemma_fields_run(
    chars: Seq<char>,
    ast: AstModel,
    vals: ValuesModel,
    env: usize,
    nodes: Seq<usize>,
    fields: Seq<FieldModel>,
    i: int,
    fuel: nat,
)
    requires
        written(chars, ast, nodes, fields),
        0 <= i <= nodes.len(),
        fuel >= 2,
        vals.nodes.len() + 2 * (nodes.len() - i) <= usize::MAX,
        vals.chars.len() + names_length(fields, i) <= usize::MAX,
    ensures
        ({
            let (next, r) = evaluated_all(chars, ast, vals, env, nodes, i, fuel);
            &&& r matches Ok(values) && values.len() == nodes.len() - i && forall|k: int|
                i <= k < nodes.len() ==> is_field(next, #[trigger] values[k - i], fields[k])
            &&& keeps(vals, next)
            &&& next.links == vals.links
            &&& next.nodes.len() == vals.nodes.len() + 2 * (nodes.len() - i)
        }),
    decreases nodes.len() - i,
{
    if i < nodes.len() {
        let f = fields[i];
        assert(written_field(chars, ast, nodes[i]) == Some(f));
        let name = ast.node_at(nodes[i]).unwrap().kind->Field_0;
        let value = ast.node_at(nodes[i]).unwrap().kind->Field_1;
        let kind = ast.node_at(value).unwrap().kind;
        let (v1, n) = vals.with_node(literal_node(kind));
        assert(evaluated(chars, ast, vals, env, value, (fuel - 1) as nat) == (
            v1,
            Ok::<usize, Crash>(n),
        ));
        let (v2, field) = v1.with_named(slice(chars, name), |s: Span| ValNode::Field(s, n));
        assert(evaluated(chars, ast, vals, env, nodes[i], fuel) == (v2, Ok::<usize, Crash>(field)));
        let text = v1.with_text(slice(chars, name)).1;
        assert(v2.node_at(field) == Some(ValNode::Field(text, n)));
        assert(v2.text(text) =~= slice(chars, name));
        assert(v2.node_at(n) == Some(literal_node(kind)));
        assert(is_field(v2, field, f));
        assert(keeps(vals, v2));
        lemma_fields_run(chars, ast, v2, env, nodes, fields, i + 1, fuel);
        let (next, r) = evaluated_all(chars, ast, v2, env, nodes, i + 1, fuel);
        let rest = r->Ok_0;
        let values = seq![field] + rest;
        assert(evaluated_all(chars, ast, vals, env, nodes, i, fuel) == (
            next,
            Ok::<Seq<usize>, Crash>(values),
        ));
        lemma_field_stays(v2, next, field, f);
        assert forall|k: int| i <= k < nodes.len() implies is_field(
            next,
            #[trigger] values[k - i],
            fields[k],
        ) by {
            if k > i {
                assert(values[k - i] == rest[k - (i + 1)]);
            }
        }
    }
}

/// The fields of a record value are shown in the order of their names:
/// each put into its place among those before it.
proof fn lemma_fields_show(
    vals: ValuesModel,
    values: Seq<usize>,
    fields: Seq<FieldModel>,
    k: int,
    fuel: nat,
)
    requires
        values.len() == fields.len(),
        0 <= k <= values.len(),
        forall|j: int| 0 <= j < values.len() ==> is_field(vals, #[trigger] values[j], fields[j]),
        fuel >= 1,
    ensures
        shown_fields(vals, values, k, fuel) == Some(
            arranged(fields.take(k), |f: FieldModel| f.name),
        ),
    decreases k,
{
    let key = |f: FieldModel| f.name;
    if k > 0 {
        lemma_fields_show(vals, values, fields, k - 1, fuel);
        assert(is_field(vals, values[k - 1], fields[k - 1]));
        let name = vals.node_at(values[k - 1]).unwrap()->Field_0;
        let value = vals.node_at(values[k - 1]).unwrap()->Field_1;
        assert(shown(vals, value, fuel) == Some(fields[k - 1].value));
        assert(FieldModel { name: vals.text(name), value: fields[k - 1].value } == fields[k - 1]);
        assert(fields.take(k).drop_last() =~= fields.take(k - 1));
        assert(fields.take(k).last() == fields[k - 1]);
        assert(arranged(fields.take(k), key) == inserted(
            arranged(fields.take(k - 1), key),
            fields[k - 1],
            key,
        ));
    } else {
        assert(fields.take(0).len() == 0);
    }
}

/// A submission that was parsed to a record of fields with numeric
/// literals for their values, and that has a type, is answered with the
/// text of the record before its type. The record prints its fields in
/// the lexicographic order of their names, each name with its own value,
/// whatever order they were written in: two such submissions that hold
/// the same fields under distinct names have the same text before their
/// types. The law starts from the parsed program, and holds where the
/// declarations of the language are accepted in it.
pub proof fn lemma_record_answer(
    definitions: Seq<char>,
    source: Seq<char>,
    fields: Seq<FieldModel>,
)
    requires
        parsed_program(PRELUDE@, definitions + source) matches Ok(program) && language_accepted(
            program,
        ) && record_of_program(program, fields) && typed(program).1 is Ok,
        2 * fields.len() + 3 <= usize::MAX,
        names_length(fields, 0) <= usize::MAX,
    ensures
        answered(definitions, source).ending == Ending::Value,
        answered(definitions, source).text == rendered(
            ValueModel::Record(arranged(fields, |f: FieldModel| f.name)),
        ) + " : "@ + type_part(parsed_program(PRELUDE@, definitions + source)->Ok_0),
        distinct_fields(fields) ==> rendered(
            ValueModel::Record(arranged(fields, |f: FieldModel| f.name)),
        ) == rendered(ValueModel::Record(fields)),
{
    let key = |f: FieldModel| f.name;
    let program = parsed_program(PRELUDE@, definitions + source)->Ok_0;
    let chars = program.source.chars;
    let ast = program.ast;
    let root = ast.node_at(program.root).unwrap();
    let body = root.kind->Block_1;
    let items = root.kind->Block_0;
    let span = ast.node_at(body).unwrap().kind->Record_0;
    let nodes = ast.parts(span);
    let (v0, scope) = first_scope();
    assert(EVAL_FUEL > 4);
    assert(SHOW_FUEL > 2);
    let fuel = (EVAL_FUEL - 1) as nat;
    lemma_answer_follows(definitions, source);
    assert(defined(chars, ast, v0, scope, ast.parts(items), 0, fuel) == (
        v0,
        Ok::<usize, Crash>(scope),
    ));
    assert(run(program) == evaluated(chars, ast, v0, scope, body, fuel));
    lemma_fields_run(chars, ast, v0, scope, nodes, fields, 0, (fuel - 1) as nat);
    let (v1, r) = evaluated_all(chars, ast, v0, scope, nodes, 0, (fuel - 1) as nat);
    let values = r->Ok_0;
    let (v2, record) = v1.with_parts(values, |s: Span| ValNode::Record(s));
    assert(run(program) == (v2, Ok::<usize, Crash>(record)));
    let stretch = v1.with_links(values).1;
    assert(v2.node_at(record) == Some(ValNode::Record(stretch)));
    assert(v2.parts(stretch) =~= values);
    assert(keeps(v1, v2));
    assert forall|j: int| 0 <= j < values.len() implies is_field(
        v2,
        #[trigger] values[j],
        fields[j],
    ) by {
        assert(is_field(v1, values[j - 0], fields[j]));
        lemma_field_stays(v1, v2, values[j], fields[j]);
    }
    lemma_fields_show(v2, values, fields, values.len() as int, (SHOW_FUEL - 1) as nat);
    assert(fields.take(fields.len() as int) =~= fields);
    assert(shown(v2, record, SHOW_FUEL as nat) == Some(
        ValueModel::Record(arranged(fields, key)),
    ));
    if distinct_fields(fields) {
        lemma_arranged(fields, key);
        assert(distinct(fields, key));
        assert(distinct_fields(arranged(fields, key))) by {
            let sorted = arranged(fields, key);
            assert forall|i: int, j: int|
                0 <= i < sorted.len() && 0 <= j < sorted.len() && i != j implies (
            #[trigger] sorted[i]).name != (#[trigger] sorted[j]).name by {
                assert(key(sorted[i]) != key(sorted[j]));
            }
        }
        lemma_record_ignores_order(arranged(fields, key), fields);
    }
}

} // verus!
