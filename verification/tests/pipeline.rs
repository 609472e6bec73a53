use repl_core::eval::{eval, EVAL_FUEL};
use repl_core::infer::{infer, infer_decls, Infer};
use repl_core::parser::parse_program;
use repl_core::reconstruct::through_memory;
use repl_core::session::{submit, Answer, Ending, Session, PRELUDE};
use repl_core::show::{show, SHOW_FUEL};
use repl_core::solve::{Types, FUEL};
use repl_core::syntax::Kind;
use repl_core::value::render;
use repl_core::values::{ValNode, Values};

fn chars(s: &str) -> Vec<char> {
    s.chars().collect()
}

/// The text of the value of `source` as it is rebuilt from memory, and as it is shown.
fn both_ways(source: &str) -> (Option<String>, String) {
    let program = parse_program(&chars(PRELUDE), &chars(source)).unwrap();
    let text = &program.source.chars;
    let ast = &program.ast;
    let mut st = Infer { types: Types::new(), env: vec![], aliases: vec![], declared: vec![] };
    let builtin = match ast.nodes[program.prelude].kind {
        Kind::Block(items, _) => ast.links[items.start..items.end].to_vec(),
        _ => vec![],
    };
    infer_decls(text, ast, &mut st, &builtin, 0, true, FUEL).unwrap();
    let ty = infer(text, ast, &mut st, program.root, FUEL).unwrap();
    let mut vals = Values::new();
    let scope = vals.add(ValNode::Empty);
    let value = eval(text, ast, &mut vals, scope, program.root, EVAL_FUEL).unwrap();
    let direct: String = render(&show(&vals, value, SHOW_FUEL).unwrap()).into_iter().collect();
    let rebuilt = through_memory(&st.types, text, &st.aliases, ty, &vals, value, SHOW_FUEL)
        .map(|v| render(&v).into_iter().collect());
    (rebuilt, direct)
}

fn round_trips(source: &str, expected: &str) {
    let (rebuilt, direct) = both_ways(source);
    assert_eq!(direct, expected);
    assert_eq!(rebuilt.as_deref(), Some(expected));
}

#[test]
fn plain_values_come_back_from_memory() {
    round_trips("42", "42");
    round_trips("0x42", "66");
    round_trips("4.2", "4.2");
    round_trips("1.1 + 2", "3.1");
    round_trips("\"Hello, World!\"", "\"Hello, World!\"");
    round_trips("\"\u{1F469}\u{200D}\u{1F469}\"", "\"\u{1F469}\u{200D}\u{1F469}\"");
    round_trips("[]", "[]");
    round_trips("[ [ 1, 2 ], [] ]", "[ [ 1, 2 ], [] ]");
    round_trips("[ 1, 0.5 ]", "[ 1, 0.5 ]");
    round_trips("\\x -> x", "<function>");
}

#[test]
fn records_come_back_in_name_order() {
    round_trips("{}", "{}");
    round_trips("{ foo: 42 }", "{ foo: 42 }");
    round_trips("{ foo: 4.1, bar: 2, baz: 0x5 }", "{ bar: 2, baz: 5, foo: 4.1 }");
    round_trips("[ { b: 1, a: 2 }, { a: 3, b: 4 } ]", "[ { a: 2, b: 1 }, { a: 3, b: 4 } ]");
    round_trips("{ n: 1, adder: \\x -> x + 1 }", "{ adder: <function>, n: 1 }");
    round_trips("{ f: \\x -> x, inner: { g: \\y -> y, s: \"a\" } }", "{ f: <function>, inner: { g: <function>, s: \"a\" } }");
}

#[test]
fn a_value_that_cannot_be_laid_out_is_printed_as_it_is_shown() {
    let (rebuilt, direct) = both_ways("{ a: 1, a: 2 }");
    assert_eq!(rebuilt, None);
    assert_eq!(direct, "{ a: 1, a: 2 }");
    let Answer { text: out, .. } = submit(&Session::new(), "{ a: 1, a: 2 }");
    assert_eq!(out, "{ a: 1, a: 2 } : { a : Num *, a : Num * }");
}

#[test]
fn direct_unions_come_back() {
    round_trips("if 1 == 1 then Red else Green", "Red");
    round_trips("1 == 1", "True");
    round_trips("{ x: 1 != 1 }", "{ x: False }");
}

#[test]
fn boxed_unions_come_back() {
    round_trips("Foo 1 2 3", "Foo 1 2 3");
    round_trips("Num.divFloor 4 3", "Ok 1");
    round_trips("Num.divFloor 4 0", "Err DivByZero");
    round_trips(
        "Expr : [ Sym Str, Add Expr Expr ]\ns : Expr\ns = Add (Add (Sym \"one\") (Sym \"two\")) (Sym \"four\")\ns",
        "Add (Add (Sym \"one\") (Sym \"two\")) (Sym \"four\")",
    );
}

#[test]
fn non_nullable_unwrapped_unions_come_back() {
    round_trips(
        "RoseTree a : [ Tree a (List (RoseTree a)) ]\ne1 : RoseTree Str\ne1 = Tree \"e1\" []\ncombo : RoseTree Str\ncombo = Tree \"combo\" [e1, e1]\ncombo",
        "Tree \"combo\" [ Tree \"e1\" [], Tree \"e1\" [] ]",
    );
}

#[test]
fn nullable_unwrapped_unions_come_back() {
    round_trips(
        "LinkedList a : [ Nil, Cons a (LinkedList a) ]\nc1 : LinkedList Str\nc1 = Cons \"Red\" Nil\nc2 : LinkedList Str\nc2 = Cons \"Yellow\" c1\nc2",
        "Cons \"Yellow\" (Cons \"Red\" Nil)",
    );
    round_trips("LinkedList a : [ Nil, Cons a (LinkedList a) ]\nn : LinkedList Str\nn = Nil\nn", "Nil");
}

#[test]
fn nullable_wrapped_unions_come_back() {
    round_trips(
        "Container a : [ Empty, Whole a, Halved (Container a) (Container a) ]\nsides : Container Str\nsides = Halved (Whole \"Coleslaw\") Empty\nsides",
        "Halved (Whole \"Coleslaw\") Empty",
    );
}

#[test]
fn unions_of_more_than_seven_variants_come_back() {
    round_trips(
        "Cont a : [ Empty, S1 a, S2 a, S3 a, S4 a, S5 a, S6 a, S7 a, Tup (Cont a) (Cont a) ]\nsnd : Cont Str\nsnd = Tup (S5 \"S5\") Empty\nsnd",
        "Tup (S5 \"S5\") Empty",
    );
    round_trips(
        "Item : [ A Str, B Str, C Str, D Str, E Str, F Str, G Str, H Str, I Str, J Str, K Item, L Item ]\ns : Item\ns = K (L (E \"woo\"))\ns",
        "K (L (E \"woo\"))",
    );
}

#[test]
fn definitions_stay_in_the_session() {
    let Answer { session, text: out, .. } = submit(&Session::new(), "x = 5\nx + 1");
    assert_eq!(out, "6 : Num *");
    assert_eq!(session.definitions.iter().collect::<String>(), "x = 5\n");
    let Answer { session, text: out, .. } = submit(&session, "y = x * 2\ny");
    assert_eq!(out, "10 : Num *");
    let Answer { session, text: out, .. } = submit(&session, "x + y");
    assert_eq!(out, "15 : Num *");
    assert_eq!(session.definitions.iter().collect::<String>(), "x = 5\ny = x * 2\n");
}

#[test]
fn a_failing_submission_leaves_the_session_as_it_was() {
    let Answer { session, .. } = submit(&Session::new(), "x = 5\nx");
    let Answer { session: after, text: out, .. } = submit(&session, "y = 1 + \"\"\ny");
    assert!(out.contains("TYPE MISMATCH"));
    assert_eq!(after, session);
    let Answer { text: out, .. } = submit(&after, "x");
    assert_eq!(out, "5 : Num *");
}

#[test]
fn a_name_is_not_bound_again_in_a_later_submission() {
    let Answer { session, .. } = submit(&Session::new(), "x = 5\nx");
    let Answer { session: after, text: out, .. } = submit(&session, "x = 6\nx");
    assert!(out.contains("DUPLICATE NAME"), "{}", out);
    assert_eq!(after, session);
}

#[test]
fn functions_that_were_written_are_called() {
    let Answer { text: out, .. } = submit(&Session::new(), "(\\x -> x + 1) 2");
    assert_eq!(out, "3 : Num *");
    let Answer { text: out, .. } = submit(&Session::new(), "inc = \\n -> n + 1\ninc (inc 40)");
    assert_eq!(out, "42 : Num *");
    let Answer { text: out, .. } = submit(&Session::new(), "(\\Email str -> Str.concat str \"!\") (Email \"a\")");
    assert_eq!(out, "\"a!\" : Str");
}

#[test]
fn a_when_takes_the_first_branch_that_matches() {
    let Answer { text: out, .. } = submit(
        &Session::new(),
        "t : [A, B, C]\nt = B\nwhen t is\n    A -> \"a\"\n    B -> \"b\"\n    C -> \"c\"",
    );
    assert_eq!(out, "\"b\" : Str");
    let Answer { text: out, .. } = submit(&Session::new(), "when Pair 1 2 is\n    Pair x y -> x + y");
    assert_eq!(out, "3 : Num *");
    let Answer { text: out, .. } = submit(&Session::new(), "when 5 is\n    n -> n * 2");
    assert_eq!(out, "10 : Num *");
    let Answer { text: out, .. } = submit(&Session::new(), "when Red is\n    Green -> 1\n    _ -> 2");
    assert_eq!(out, "2 : Num *");
}

#[test]
fn every_kind_of_failure_has_its_report() {
    let Answer { text: out, .. } = submit(&Session::new(), "foo");
    assert!(out.starts_with("\u{2500}\u{2500} UNRECOGNIZED NAME "), "{}", out);
    let Answer { text: out, .. } = submit(&Session::new(), "Num.abs 1 2");
    assert!(out.starts_with("\u{2500}\u{2500} TOO MANY ARGS "), "{}", out);
    assert!(out.contains("The abs function expects 1 arguments, but it got 2 instead:"));
    let Answer { text: out, .. } = submit(&Session::new(), "if 1 then 2 else 3");
    assert!(out.starts_with("\u{2500}\u{2500} TYPE MISMATCH "), "{}", out);
    let Answer { text: out, .. } = submit(&Session::new(), "[ 1, \"a\" ]");
    assert!(out.starts_with("\u{2500}\u{2500} TYPE MISMATCH "), "{}", out);
    let Answer { text: out, .. } = submit(&Session::new(), "1 +");
    assert!(out.starts_with("\u{2500}\u{2500} SYNTAX PROBLEM "), "{}", out);
    let Answer { text: out, .. } = submit(&Session::new(), "1 ? 2");
    assert!(out.starts_with("\u{2500}\u{2500} SYNTAX PROBLEM "), "{}", out);
    let Answer { text: out, .. } = submit(&Session::new(), "99999999999999999999999");
    assert!(out.contains("This number is too large"), "{}", out);
    let Answer { text: out, .. } = submit(&Session::new(), "Num.maxI64 + 1");
    assert!(out.starts_with("\u{2500}\u{2500} CRASH "), "{}", out);
    assert!(out.contains("This operation left the range of its numbers:"));
    let deep = format!("{}1{}", "(".repeat(300), ")".repeat(300));
    let Answer { text: out, .. } = submit(&Session::new(), &deep);
    assert!(out.contains("nested too deep"), "{}", out);
}

#[test]
fn an_answer_tells_how_the_submission_ended() {
    let fine = submit(&Session::new(), "x = 5\nx + 1");
    assert_eq!(fine.ending, Ending::Value);
    assert_eq!(fine.text, "6 : Num *");
    let refused = submit(&fine.session, "x + \"a\"\n   ");
    assert_eq!(refused.ending, Ending::Report);
    assert_eq!(refused.session, fine.session);
    assert!(refused.text.ends_with("Enter an expression, or :help, or :exit/:q."));
    let syntax = submit(&fine.session, "1 +");
    assert_eq!(syntax.ending, Ending::Report);
    let crashed = submit(&fine.session, "Num.maxI64 + x\n   ");
    assert_eq!(crashed.ending, Ending::Crash);
    assert_eq!(crashed.session, fine.session);
    assert!(crashed.text.starts_with("\u{2500}\u{2500} CRASH "), "{}", crashed.text);
    assert!(!crashed.text.contains("Enter an expression"), "{}", crashed.text);
}

#[test]
fn a_function_hides_itself_alone() {
    let cases = [
        ("{ n: 1, adder: \\x -> x + 1 }", "{ adder: <function>, n: 1 } : { adder : Num a -> Num a, n : Num * }"),
        (
            "{ inner: { f: \\x -> x, s: \"a\" }, xs: [ 1, 2 ] }",
            "{ inner: { f: <function>, s: \"a\" }, xs: [ 1, 2 ] } : { inner : { f : a -> a, s : Str }, xs : List (Num *) }",
        ),
        ("Pair 1 (\\x -> x)", "Pair 1 <function> : [ Pair (Num *) (a -> a) ]*"),
    ];
    for (input, expected) in cases {
        let Answer { text: out, .. } = submit(&Session::new(), input);
        assert_eq!(out, expected, "for {}", input);
    }
}

#[test]
fn an_empty_submission_is_no_expression() {
    let Answer { session, text: out, .. } = submit(&Session::new(), "");
    assert!(out.starts_with("\u{2500}\u{2500} SYNTAX PROBLEM "), "{}", out);
    assert!(out.contains("\n4\u{2502}\n"), "{}", out);
    assert_eq!(session, Session::new());
    let Answer { text: out, .. } = submit(&Session::new(), "x = 1");
    assert!(out.contains("4\u{2502}      x = 1\n             ^\n"), "{}", out);
}

#[test]
fn a_submission_has_a_greatest_length() {
    let list = |n: usize| {
        let items: Vec<String> = (0..n).map(|i| (i % 10).to_string()).collect();
        format!("List.sum [ {} ]", items.join(", "))
    };
    let Answer { text: out, .. } = submit(&Session::new(), &list(5000));
    assert_eq!(out, "22500 : Num *");
    let Answer { text: out, .. } = submit(&Session::new(), &list(6500));
    assert!(out.contains("This submission is longer than I can take in."), "{}", &out[..200]);
}

#[test]
fn a_report_numbers_the_lines_of_the_session() {
    let Answer { session, .. } = submit(&Session::new(), "x = 5
x");
    let Answer { text: out, .. } = submit(&session, "x = 6
x");
    assert!(out.contains("4\u{2502}      x = 5\n        ^\n"), "{}", out);
    assert!(out.contains("5\u{2502}      x = 6\n        ^\n"), "{}", out);
}

#[test]
fn a_diagnostic_at_a_prompt_is_followed_by_the_reprompt() {
    let Answer { text: out, .. } = submit(&Session::new(), "Num.add 2\n   ");
    assert!(out.ends_with("explicit.\n\n\nEnter an expression, or :help, or :exit/:q."), "{}", out);
    let Answer { text: out, .. } = submit(&Session::new(), "Num.add 2\n");
    assert!(out.ends_with("explicit.\n"), "{}", out);
    let Answer { text: out, .. } = submit(&Session::new(), "1 + 1\n   ");
    assert_eq!(out, "2 : Num *");
}

#[test]
fn more_builtins() {
    let cases = [
        ("Num.abs (0 - 5)", "5 : Num *"),
        ("7 - 10", "-3 : Num *"),
        ("6 * 7", "42 : Num *"),
        ("1.5 * 2", "3 : F64"),
        ("0.1 + 0.2", "0.3 : F64"),
        ("Num.divCeil 7 0", "Err DivByZero : Result (Int *) [ DivByZero ]*"),
        ("(0 - 7) % 2", "Ok -1 : Result (Int *) [ DivByZero ]*"),
        ("Num.divFloor (0 - 7) 2", "Ok -4 : Result (Int *) [ DivByZero ]*"),
        ("Num.divCeil (0 - 7) 2", "Ok -3 : Result (Int *) [ DivByZero ]*"),
        ("Num.subChecked Num.minI64 1", "Err Overflow : Result I64 [ Overflow ]*"),
        ("Num.mulWrap Num.minI64 2", "0 : Int Signed64"),
        ("Str.toI8 \"-128\"", "Ok -128 : Result I8 [ InvalidNumStr ]*"),
        ("Str.toI8 \"-129\"", "Err InvalidNumStr : Result I8 [ InvalidNumStr ]*"),
        ("Str.toI8 \"x\"", "Err InvalidNumStr : Result I8 [ InvalidNumStr ]*"),
        ("Str.toI8 \"\"", "Err InvalidNumStr : Result I8 [ InvalidNumStr ]*"),
        ("Str.countGraphemes \"\"", "0 : Nat"),
        ("Str.countGraphemes \"e\u{301}a\"", "2 : Nat"),
        ("Str.countGraphemes \"\u{1F1F7}\u{1F1FA}\u{1F1F8}\u{1F1F9}\"", "2 : Nat"),
        ("Str.countGraphemes \"\u{1100}\u{1161}\u{11A8}\"", "1 : Nat"),
        ("Str.countGraphemes \"a\u{20DD}b\"", "2 : Nat"),
        ("Str.countGraphemes \"abc\"", "3 : Nat"),
        ("Str.countGraphemes \"\u{1F469}\u{200D}\u{1F469}\u{200D}\u{1F466}\"", "1 : Nat"),
        ("List.concat [] [ 1 ]", "[ 1 ] : List (Num *)"),
        ("List.contains [ \"a\" ] \"a\"", "True : Bool"),
        ("List.contains [ [ 1 ], [ 2 ] ] [ 2 ]", "True : Bool"),
        ("{ a: 1 } == { a: 1 }", "True : Bool"),
        ("Foo 1 == Foo 2", "False : Bool"),
        ("\"a\\\"b\"", "\"a\\\"b\" : Str"),
        ("\"tab\\there\"", "\"tab\there\" : Str"),
    ];
    for (input, expected) in cases {
        let Answer { text: out, .. } = submit(&Session::new(), input);
        assert_eq!(out, expected, "for {}", input);
    }
}

/// The expression of a submission that stands alone: the body of a block without definitions.
fn lone_body(source: &str) -> (repl_core::parser::Program, usize) {
    let program = parse_program(&chars(PRELUDE), &chars(source)).unwrap();
    let body = match program.ast.nodes[program.root].kind {
        Kind::Block(items, body) => {
            assert_eq!(items.start, items.end);
            body
        }
        _ => panic!("the root of a program is a block"),
    };
    (program, body)
}

fn text_at(program: &repl_core::parser::Program, span: repl_core::syntax::Span) -> String {
    program.source.chars[span.start..span.end].iter().collect()
}

#[test]
fn a_literal_alone_is_the_body_of_the_program() {
    let (program, body) = lone_body("42");
    assert_eq!(program.ast.nodes[body].kind, Kind::Num(42));
    let (program, body) = lone_body("0x42");
    assert_eq!(program.ast.nodes[body].kind, Kind::Int(66));
    let (program, body) = lone_body("4.2");
    assert_eq!(program.ast.nodes[body].kind, Kind::Frac(4_200_000_000_000_000_000));
    for (input, expected) in [("42", "42 : Num *"), ("0x42", "66 : Int *"), ("4.2", "4.2 : Float *")] {
        let answer = submit(&Session::new(), input);
        assert_eq!(answer.ending, Ending::Value);
        assert_eq!(answer.text, expected);
    }
}

#[test]
fn an_operation_alone_is_a_call_with_two_operands() {
    let (program, body) = lone_body("Num.divFloor 4 3");
    match program.ast.nodes[body].kind {
        Kind::Call(function, args) => {
            match program.ast.nodes[function].kind {
                Kind::Var(name) => assert_eq!(text_at(&program, name), "Num.divFloor"),
                other => panic!("{:?}", other),
            }
            let parts = &program.ast.links[args.start..args.end];
            assert_eq!(parts.len(), 2);
            assert_eq!(program.ast.nodes[parts[0]].kind, Kind::Num(4));
            assert_eq!(program.ast.nodes[parts[1]].kind, Kind::Num(3));
        }
        other => panic!("{:?}", other),
    }
    let (program, body) = lone_body("Num.addWrap Num.maxI64 1");
    match program.ast.nodes[body].kind {
        Kind::Call(_, args) => {
            let parts = &program.ast.links[args.start..args.end];
            match program.ast.nodes[parts[0]].kind {
                Kind::Var(name) => assert_eq!(text_at(&program, name), "Num.maxI64"),
                other => panic!("{:?}", other),
            }
            assert_eq!(program.ast.nodes[parts[1]].kind, Kind::Num(1));
        }
        other => panic!("{:?}", other),
    }
    let (program, body) = lone_body("4 % 3");
    match program.ast.nodes[body].kind {
        Kind::Binary(op, left, right) => {
            assert_eq!(op, repl_core::syntax::Operator::Rem);
            assert_eq!(program.ast.nodes[left].kind, Kind::Num(4));
            assert_eq!(program.ast.nodes[right].kind, Kind::Num(3));
        }
        other => panic!("{:?}", other),
    }
}

#[test]
fn operations_are_answered_as_their_outcomes_read() {
    let cases = [
        ("Num.divFloor 4 3", "Ok 1 : Result (Int *) [ DivByZero ]*"),
        ("Num.divCeil 4 3", "Ok 2 : Result (Int *) [ DivByZero ]*"),
        ("Num.divFloor 4 0", "Err DivByZero : Result (Int *) [ DivByZero ]*"),
        ("4 % 3", "Ok 1 : Result (Int *) [ DivByZero ]*"),
        ("4 % 0", "Err DivByZero : Result (Int *) [ DivByZero ]*"),
        ("Num.addWrap Num.maxI64 1", "-9223372036854775808 : Int Signed64"),
        ("Num.subWrap Num.minI64 1", "9223372036854775807 : Int Signed64"),
        ("Num.mulWrap Num.maxI64 2", "-2 : Int Signed64"),
        ("Num.addChecked Num.maxI64 1", "Err Overflow : Result I64 [ Overflow ]*"),
        ("Num.addChecked Num.maxI64 0", "Ok 9223372036854775807 : Result I64 [ Overflow ]*"),
        ("Num.mulChecked Num.minI64 2", "Err Overflow : Result I64 [ Overflow ]*"),
    ];
    for (input, expected) in cases {
        let answer = submit(&Session::new(), input);
        assert_eq!(answer.ending, Ending::Value, "for {}", input);
        assert_eq!(answer.text, expected, "for {}", input);
    }
    let crashed = submit(&Session::new(), "Num.mul Num.maxI64 2");
    assert_eq!(crashed.ending, Ending::Crash);
}

#[test]
fn a_record_of_literals_is_fields_with_literal_values() {
    let (program, body) = lone_body("{ foo: 4.1, bar: 2, baz: 0x5 }");
    let fields = match program.ast.nodes[body].kind {
        Kind::Record(span) => program.ast.links[span.start..span.end].to_vec(),
        other => panic!("{:?}", other),
    };
    let mut written = Vec::new();
    for field in fields {
        match program.ast.nodes[field].kind {
            Kind::Field(name, value) => {
                written.push((text_at(&program, name), program.ast.nodes[value].kind));
            }
            other => panic!("{:?}", other),
        }
    }
    assert_eq!(
        written,
        vec![
            ("foo".to_string(), Kind::Frac(4_100_000_000_000_000_000)),
            ("bar".to_string(), Kind::Num(2)),
            ("baz".to_string(), Kind::Int(5)),
        ]
    );
    let orders = [
        "{ foo: 4.1, bar: 2, baz: 0x5 }",
        "{ bar: 2, baz: 0x5, foo: 4.1 }",
        "{ baz: 0x5, foo: 4.1, bar: 2 }",
    ];
    for input in orders {
        let answer = submit(&Session::new(), input);
        assert_eq!(answer.ending, Ending::Value);
        assert_eq!(
            answer.text,
            "{ bar: 2, baz: 5, foo: 4.1 } : { bar : Num *, baz : Int *, foo : Float * }",
            "for {}",
            input
        );
    }
}
