use repl_core::types::{render_type, render_type_in, Ext, FieldType, TagType, Type};

fn chars(s: &str) -> Vec<char> {
    s.chars().collect()
}

fn apply(name: &str, args: Vec<Type>) -> Type {
    Type::Apply(chars(name), args)
}

fn text(t: &Type) -> String {
    render_type(t).into_iter().collect()
}

#[test]
fn a_variable_that_stands_once_is_a_star() {
    assert_eq!(text(&Type::Var(3)), "*");
    assert_eq!(text(&apply("Num", vec![Type::Var(0)])), "Num *");
    assert_eq!(text(&apply("List", vec![Type::Var(0)])), "List *");
    assert_eq!(text(&apply("List", vec![apply("Num", vec![Type::Var(0)])])), "List (Num *)");
}

#[test]
fn variables_that_stand_twice_get_letters_by_their_first_places() {
    let id = Type::Function(vec![Type::Var(7)], Box::new(Type::Var(7)));
    assert_eq!(text(&id), "a -> a");
    let num = |v| apply("Num", vec![Type::Var(v)]);
    let add = Type::Function(vec![num(1), num(1)], Box::new(num(1)));
    assert_eq!(text(&add), "Num a, Num a -> Num a");
    let two = Type::Function(
        vec![Type::Var(5), Type::Var(2), Type::Var(9)],
        Box::new(Type::Record(vec![
            FieldType { name: chars("x"), ty: Type::Var(2) },
            FieldType { name: chars("y"), ty: Type::Var(5) },
        ])),
    );
    assert_eq!(text(&two), "a, b, * -> { x : b, y : a }");
    assert_eq!(
        render_type_in(&num(1), &add).into_iter().collect::<String>(),
        "Num a"
    );
}

#[test]
fn numbers_that_lost_their_alias_print_as_sized_types() {
    let integer = |w: Type| apply("Num", vec![apply("Integer", vec![w])]);
    assert_eq!(text(&integer(Type::Var(0))), "I64");
    assert_eq!(text(&integer(apply("Signed64", vec![]))), "I64");
    assert_eq!(text(&integer(apply("Signed8", vec![]))), "I8");
    assert_eq!(text(&integer(apply("Unsigned16", vec![]))), "U16");
    assert_eq!(text(&integer(apply("Natural", vec![]))), "Nat");
    let float = |w: Type| apply("Num", vec![apply("FloatingPoint", vec![w])]);
    assert_eq!(text(&float(Type::Var(0))), "F64");
    assert_eq!(text(&float(apply("Binary32", vec![]))), "F32");
    assert_eq!(text(&apply("Int", vec![apply("Signed64", vec![])])), "Int Signed64");
    assert_eq!(text(&apply("List", vec![integer(Type::Var(0))])), "List I64");
}

#[test]
fn unions_and_records() {
    let union = Type::TagUnion(
        vec![
            TagType { name: chars("False"), args: vec![apply("Float", vec![Type::Var(0)])] },
            TagType { name: chars("True"), args: vec![apply("Num", vec![Type::Var(1)])] },
        ],
        Ext::Open(2),
    );
    assert_eq!(text(&union), "[ False (Float *), True (Num *) ]*");
    assert_eq!(text(&Type::TagUnion(vec![], Ext::Closed)), "[]");
    assert_eq!(text(&Type::TagUnion(vec![], Ext::Open(0))), "[]*");
    assert_eq!(text(&Type::Record(vec![])), "{}");
    let closed = Type::TagUnion(
        vec![TagType { name: chars("Email"), args: vec![apply("Str", vec![])] }],
        Ext::Closed,
    );
    let f = Type::Function(vec![closed], Box::new(apply("Bool", vec![])));
    assert_eq!(text(&f), "[ Email Str ] -> Bool");
    let nested = Type::TagUnion(
        vec![TagType {
            name: chars("A"),
            args: vec![Type::Record(vec![FieldType { name: chars("b"), ty: Type::Var(0) }])],
        }],
        Ext::Open(1),
    );
    assert_eq!(text(&nested), "[ A { b : * } ]*");
    let shared = Type::Function(
        vec![Type::TagUnion(vec![TagType { name: chars("A"), args: vec![] }], Ext::Open(4))],
        Box::new(Type::TagUnion(vec![TagType { name: chars("A"), args: vec![] }], Ext::Open(4))),
    );
    assert_eq!(text(&shared), "[ A ]a -> [ A ]a");
}

#[test]
fn functions_stand_in_parentheses_as_arguments() {
    let f = Type::Function(vec![Type::Var(0)], Box::new(Type::Var(0)));
    assert_eq!(text(&apply("List", vec![f])), "List (a -> a)");
    let g = Type::Function(
        vec![Type::Function(vec![Type::Var(0)], Box::new(Type::Var(1)))],
        Box::new(Type::Var(1)),
    );
    assert_eq!(text(&g), "(* -> a) -> a");
    let result = apply("Result", vec![apply("Int", vec![Type::Var(0)]),
        Type::TagUnion(vec![TagType { name: chars("DivByZero"), args: vec![] }], Ext::Open(1))]);
    assert_eq!(text(&result), "Result (Int *) [ DivByZero ]*");
}

#[test]
fn many_variables_run_past_the_alphabet() {
    let mut params = Vec::new();
    for v in 0..27 {
        params.push(Type::Var(v));
        params.push(Type::Var(v));
    }
    let f = Type::Function(params, Box::new(Type::Var(26)));
    let shown = text(&f);
    assert!(shown.starts_with("a, a, b, b, "));
    assert!(shown.ends_with("z, z, a26, a26 -> a26"), "{}", shown);
}
