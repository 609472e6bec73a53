use repl_core::diagnostic::Region;
use repl_core::lexer::{tokenize, TokenKind};
use repl_core::parser::{parse, SyntaxError, Tree};
use repl_core::syntax::{Kind, Operator, Span};

fn chars(s: &str) -> Vec<char> {
    s.chars().collect()
}

fn kinds(s: &str) -> Vec<TokenKind> {
    tokenize(&chars(s)).unwrap().iter().map(|t| t.kind).collect()
}

fn text(tree: &Tree, span: Span) -> String {
    tree.source.chars[span.start..span.end].iter().collect()
}

fn root_body(tree: &Tree) -> Kind {
    match tree.ast.nodes[tree.root].kind {
        Kind::Block(_, body) => tree.ast.nodes[body].kind,
        other => panic!("the root is no block: {:?}", other),
    }
}

fn parts(tree: &Tree, span: Span) -> Vec<Kind> {
    tree.ast.links[span.start..span.end].iter().map(|&i| tree.ast.nodes[i].kind).collect()
}

#[test]
fn tokens_have_kinds_and_places() {
    assert_eq!(
        kinds("Num.add 0x1F 2.5 \"a\\\"b\" Foo x -> \\ == != = : , ( ) [ ] { } + - * % _"),
        vec![
            TokenKind::Lower,
            TokenKind::Hex,
            TokenKind::Fraction,
            TokenKind::Text,
            TokenKind::Upper,
            TokenKind::Lower,
            TokenKind::Arrow,
            TokenKind::Backslash,
            TokenKind::EqualsEquals,
            TokenKind::NotEquals,
            TokenKind::Equals,
            TokenKind::Colon,
            TokenKind::Comma,
            TokenKind::Open,
            TokenKind::Close,
            TokenKind::OpenSquare,
            TokenKind::CloseSquare,
            TokenKind::OpenCurly,
            TokenKind::CloseCurly,
            TokenKind::Plus,
            TokenKind::Minus,
            TokenKind::Star,
            TokenKind::Percent,
            TokenKind::Underscore,
        ]
    );
    let tokens = tokenize(&chars("a\n  bc d")).unwrap();
    assert_eq!((tokens[1].line, tokens[1].column, tokens[1].leads), (1, 2, true));
    assert_eq!((tokens[2].line, tokens[2].column, tokens[2].leads), (1, 5, false));
    assert_eq!((tokens[1].start, tokens[1].end), (4, 6));
}

#[test]
fn stray_characters_are_refused() {
    assert_eq!(tokenize(&chars("1 ? 2")), None);
    assert_eq!(tokenize(&chars("\"open")), None);
    assert_eq!(tokenize(&chars("0x")), None);
    assert_eq!(tokenize(&chars("!")), None);
    assert_eq!(parse("1 ? 2").err(), Some(SyntaxError::BadCharacter));
}

#[test]
fn literals_keep_their_form() {
    assert_eq!(root_body(&parse("42").unwrap()), Kind::Num(42));
    assert_eq!(root_body(&parse("0x42").unwrap()), Kind::Int(66));
    assert_eq!(root_body(&parse("4.2").unwrap()), Kind::Frac(4_200_000_000_000_000_000));
    assert_eq!(root_body(&parse("0.0").unwrap()), Kind::Frac(0));
    assert_eq!(root_body(&parse("3.14").unwrap()), Kind::Frac(3_140_000_000_000_000_000));
    assert_eq!(root_body(&parse("18446744073709551615").unwrap()), Kind::Num(u64::MAX as i128));
    assert_eq!(parse("18446744073709551616").err(), Some(SyntaxError::NumberTooLarge(0)));
}

#[test]
fn operators_group_by_precedence() {
    let tree = parse("1 + 2 * 3 == 7").unwrap();
    match root_body(&tree) {
        Kind::Binary(Operator::Equal, left, right) => {
            assert_eq!(tree.ast.nodes[right].kind, Kind::Num(7));
            match tree.ast.nodes[left].kind {
                Kind::Binary(Operator::Add, one, product) => {
                    assert_eq!(tree.ast.nodes[one].kind, Kind::Num(1));
                    assert!(matches!(
                        tree.ast.nodes[product].kind,
                        Kind::Binary(Operator::Mul, _, _)
                    ));
                },
                other => panic!("{:?}", other),
            }
        },
        other => panic!("{:?}", other),
    }
    let tree = parse("1 - 2 - 3").unwrap();
    match root_body(&tree) {
        Kind::Binary(Operator::Sub, left, right) => {
            assert_eq!(tree.ast.nodes[right].kind, Kind::Num(3));
            assert!(matches!(tree.ast.nodes[left].kind, Kind::Binary(Operator::Sub, _, _)));
        },
        other => panic!("{:?}", other),
    }
}

#[test]
fn applications_take_their_arguments() {
    let tree = parse("Num.add 2").unwrap();
    match root_body(&tree) {
        Kind::Call(head, args) => {
            match tree.ast.nodes[head].kind {
                Kind::Var(name) => assert_eq!(text(&tree, name), "Num.add"),
                other => panic!("{:?}", other),
            }
            assert_eq!(
                tree.ast.nodes[head].region,
                Region { first: 0, last: 0, start: 0, end: 7 }
            );
            assert_eq!(parts(&tree, args), vec![Kind::Num(2)]);
        },
        other => panic!("{:?}", other),
    }
    let tree = parse("A (B (C lefty))").unwrap();
    match root_body(&tree) {
        Kind::Tag(name, args) => {
            assert_eq!(text(&tree, name), "A");
            assert_eq!(args.end - args.start, 1);
        },
        other => panic!("{:?}", other),
    }
}

#[test]
fn records_lists_and_strings() {
    let tree = parse("{ x: Foo 1 2 3, y : 4 }").unwrap();
    match root_body(&tree) {
        Kind::Record(fields) => {
            let fields = parts(&tree, fields);
            assert_eq!(fields.len(), 2);
            match fields[1] {
                Kind::Field(name, value) => {
                    assert_eq!(text(&tree, name), "y");
                    assert_eq!(tree.ast.nodes[value].kind, Kind::Num(4));
                },
                other => panic!("{:?}", other),
            }
        },
        other => panic!("{:?}", other),
    }
    let tree = parse("[ [], [ 1 ] ]").unwrap();
    assert!(matches!(root_body(&tree), Kind::List(s) if s.end - s.start == 2));
    let tree = parse("\"Hello, World!\"").unwrap();
    match root_body(&tree) {
        Kind::Str(span) => assert_eq!(text(&tree, span), "Hello, World!"),
        other => panic!("{:?}", other),
    }
    assert!(matches!(root_body(&parse("{}").unwrap()), Kind::Record(s) if s.start == s.end));
}

#[test]
fn lambdas_conditions_and_matches() {
    let tree = parse("\\x, y -> x + y").unwrap();
    match root_body(&tree) {
        Kind::Lambda(params, body) => {
            assert_eq!(parts(&tree, params).len(), 2);
            assert!(matches!(tree.ast.nodes[body].kind, Kind::Binary(Operator::Add, _, _)));
        },
        other => panic!("{:?}", other),
    }
    assert!(matches!(
        root_body(&parse("if 1 == 1 then Red else Green").unwrap()),
        Kind::If(_, _, _)
    ));
    let tree = parse("when t is\n    A -> \"a\"\n    B x -> \"b\"").unwrap();
    match root_body(&tree) {
        Kind::When(_, branches) => assert_eq!(parts(&tree, branches).len(), 2),
        other => panic!("{:?}", other),
    }
}

#[test]
fn declarations_and_definitions() {
    let tree = parse("Either a b : [ Left a, Right b ]\nlefty : Either Str Str\nlefty = Left \"loosey\"\nA lefty").unwrap();
    match tree.ast.nodes[tree.root].kind {
        Kind::Block(items, body) => {
            let items = parts(&tree, items);
            assert_eq!(items.len(), 3);
            assert!(matches!(items[0], Kind::Alias(_, p, _) if p.end - p.start == 2));
            assert!(matches!(items[1], Kind::Annotation(_, _)));
            assert!(matches!(items[2], Kind::Def(_, _)));
            assert!(matches!(tree.ast.nodes[body].kind, Kind::Tag(_, _)));
        },
        other => panic!("{:?}", other),
    }
    let tree = parse("f = \\b ->\n    when b is\n        True -> 5\n        False -> 15\nf b").unwrap();
    assert!(matches!(tree.ast.nodes[tree.root].kind, Kind::Block(i, _) if i.end - i.start == 1));
}

#[test]
fn arguments_before_equals_are_an_error_of_their_own() {
    assert_eq!(
        parse("add m n = m + n").err(),
        Some(SyntaxError::ArgumentsBeforeEquals(Region { first: 0, last: 0, start: 4, end: 7 }))
    );
}

#[test]
fn unfinished_input_is_unexpected() {
    assert_eq!(parse("").err(), Some(SyntaxError::Unexpected(0)));
    assert_eq!(parse("1 +").err(), Some(SyntaxError::Unexpected(2)));
    assert_eq!(parse("(1").err(), Some(SyntaxError::Unexpected(2)));
    assert_eq!(parse("x = 1").err(), Some(SyntaxError::Unexpected(3)));
    assert_eq!(parse("1 )").err(), Some(SyntaxError::Unexpected(1)));
    assert_eq!(parse("if 1 then 2").err(), Some(SyntaxError::Unexpected(4)));
}

#[test]
fn nesting_is_bounded() {
    let deep = format!("{}1{}", "(".repeat(300), ")".repeat(300));
    assert!(matches!(parse(&deep).err(), Some(SyntaxError::TooDeep(_))));
    let fine = format!("{}1{}", "(".repeat(100), ")".repeat(100));
    assert_eq!(root_body(&parse(&fine).unwrap()), Kind::Num(1));
}
