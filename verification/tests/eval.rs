use repl_core::diagnostic::Region;
use repl_core::eval::{eval, unescape, EVAL_FUEL};
use repl_core::infer::{infer, Infer, TypeError};
use repl_core::parser::{parse, Tree};
use repl_core::show::{show, SHOW_FUEL};
use repl_core::solve::{Types, FUEL};
use repl_core::syntax::{Ast, Kind, Node, Span};
use repl_core::value::render;
use repl_core::values::{equal, Crash, ValNode, Values};

fn chars(s: &str) -> Vec<char> {
    s.chars().collect()
}

fn run(source: &str) -> Result<String, Crash> {
    let tree: Tree = parse(source).unwrap();
    let mut vals = Values::new();
    let scope = vals.add(ValNode::Empty);
    let value = eval(&tree.source.chars, &tree.ast, &mut vals, scope, tree.root, EVAL_FUEL)?;
    Ok(render(&show(&vals, value, SHOW_FUEL).unwrap()).into_iter().collect())
}

fn crash(source: &str) -> Crash {
    run(source).unwrap_err()
}

#[test]
fn expressions_evaluate_without_their_types() {
    assert_eq!(run("1 + 2 * 3").unwrap(), "7");
    assert_eq!(run("{ b: [ 1 ], a: Foo \"x\" }").unwrap(), "{ a: Foo \"x\", b: [ 1 ] }");
    assert_eq!(run("x = 2\ny = x * x\ny + x").unwrap(), "6");
    assert_eq!(run("if 1 == 2 then A else B").unwrap(), "B");
    assert_eq!(run("Num.maxI64").unwrap(), "9223372036854775807");
    assert_eq!(run("Num.add").unwrap(), "<function>");
    assert_eq!(run("twice = \\f, x -> f (f x)\ntwice (\\n -> n * 3) 2").unwrap(), "18");
}

#[test]
fn a_function_keeps_the_scope_that_it_was_written_in() {
    assert_eq!(run("n = 10\nadd = \\x -> x + n\nadd 5").unwrap(), "15");
    assert_eq!(run("make = \\a -> \\b -> a - b\nf = make 10\nf 3").unwrap(), "7");
}

#[test]
fn every_crash_has_its_cause() {
    assert!(matches!(crash("foo"), Crash::Unbound(_)));
    assert!(matches!(crash("1 2"), Crash::NotCallable(_)));
    assert!(matches!(crash("(\\x -> x) 1 2"), Crash::NotCallable(_)));
    assert!(matches!(crash("Num.add 1"), Crash::NotCallable(_)));
    assert!(matches!(crash("1 + \"a\""), Crash::BadOperands(_)));
    assert!(matches!(crash("if 1 then 2 else 3"), Crash::BadOperands(_)));
    assert!(matches!(crash("List.sum [ \"a\" ]"), Crash::BadOperands(_)));
    assert!(matches!(crash("when A is\n    B -> 1"), Crash::NoBranch(_)));
    assert!(matches!(crash("(\\Email s -> s) (Other \"x\")"), Crash::NoBranch(_)));
    assert!(matches!(crash("Num.maxI64 * 2"), Crash::Overflow(_)));
    assert!(matches!(crash("Num.minI64 - 1"), Crash::Overflow(_)));
    let tree = parse("1 + 1").unwrap();
    let mut vals = Values::new();
    let scope = vals.add(ValNode::Empty);
    assert_eq!(
        eval(&tree.source.chars, &tree.ast, &mut vals, scope, tree.root, 0),
        Err(Crash::TooDeep(tree.root))
    );
    assert_eq!(
        eval(&tree.source.chars, &tree.ast, &mut vals, scope, 99, EVAL_FUEL),
        Err(Crash::TooDeep(99))
    );
}

#[test]
fn a_tree_that_is_not_well_formed_has_no_type() {
    let none = Region { first: 0, last: 0, start: 0, end: 0 };
    let ast = Ast {
        nodes: vec![Node { kind: Kind::List(Span { start: 0, end: 1 }), region: none }],
        links: vec![7],
    };
    let mut st = Infer { types: Types::new(), env: vec![], aliases: vec![], declared: vec![] };
    assert_eq!(infer(&chars(""), &ast, &mut st, 0, FUEL), Err(TypeError::Malformed { at: 7 }));
    let mut st = Infer { types: Types::new(), env: vec![], aliases: vec![], declared: vec![] };
    assert_eq!(infer(&chars(""), &ast, &mut st, 0, 0), Err(TypeError::Malformed { at: 0 }));
}

#[test]
fn escapes_stand_for_one_character() {
    assert_eq!(unescape(&chars("a\\nb")), chars("a\nb"));
    assert_eq!(unescape(&chars("\\\"\\\\")), chars("\"\\"));
    assert_eq!(unescape(&chars("\\t\\r\\q")), chars("\t\rq"));
    assert_eq!(unescape(&chars("end\\")), chars("end\\"));
    assert_eq!(unescape(&chars("")), chars(""));
}

#[test]
fn values_are_the_same_by_their_parts() {
    let mut vals = Values::new();
    let one = vals.add(ValNode::Int(1));
    let unit = vals.add(ValNode::Frac(1_000_000_000_000_000_000));
    let half = vals.add(ValNode::Frac(500_000_000_000_000_000));
    let f = vals.add(ValNode::Closure(0, 0));
    assert_eq!(equal(&vals, one, one, 10), Some(true));
    assert_eq!(equal(&vals, one, unit, 10), Some(true));
    assert_eq!(equal(&vals, unit, one, 10), Some(true));
    assert_eq!(equal(&vals, one, half, 10), Some(false));
    assert_eq!(equal(&vals, f, f, 10), Some(false));
    assert_eq!(equal(&vals, one, one, 0), None);
    let a = vals.tag("A", &vec![one]);
    let b = vals.tag("A", &vec![unit]);
    let c = vals.tag("B", &vec![one]);
    assert_eq!(equal(&vals, a, b, 10), Some(true));
    assert_eq!(equal(&vals, a, c, 10), Some(false));
    assert_eq!(equal(&vals, a, b, 1), None);
}
