use repl_core::value::{render, Field, Value};

fn chars(s: &str) -> Vec<char> {
    s.chars().collect()
}

fn text(v: &Value) -> String {
    render(v).into_iter().collect()
}

fn num(s: &str) -> Value {
    Value::Num(chars(s))
}

fn field(name: &str, value: Value) -> Field {
    Field { name: chars(name), value }
}

#[test]
fn record_fields_print_in_name_order() {
    let v = Value::Record(vec![field("foo", num("4.1")), field("bar", num("2"))]);
    assert_eq!(text(&v), "{ bar: 2, foo: 4.1 }");
    let w = Value::Record(vec![field("bar", num("2")), field("foo", num("4.1"))]);
    assert_eq!(text(&w), "{ bar: 2, foo: 4.1 }");
    let three = Value::Record(vec![
        field("foo", num("4.1")),
        field("bar", num("2")),
        field("baz", num("5")),
    ]);
    assert_eq!(text(&three), "{ bar: 2, baz: 5, foo: 4.1 }");
}

#[test]
fn empty_collections_print_closed() {
    assert_eq!(text(&Value::Record(vec![])), "{}");
    assert_eq!(text(&Value::List(vec![])), "[]");
    assert_eq!(text(&Value::List(vec![Value::Record(vec![])])), "[ {} ]");
}

#[test]
fn lists_print_with_commas() {
    let v = Value::List(vec![num("1"), num("2"), num("3")]);
    assert_eq!(text(&v), "[ 1, 2, 3 ]");
    let nested = Value::List(vec![Value::List(vec![num("4")]), Value::List(vec![])]);
    assert_eq!(text(&nested), "[ [ 4 ], [] ]");
}

#[test]
fn tags_parenthesize_applied_tags() {
    let left = Value::Tag(chars("Left"), vec![Value::Str(chars("loosey"))]);
    let v = Value::Tag(chars("A"), vec![left]);
    assert_eq!(text(&v), "A (Left \"loosey\")");
    let bare = Value::Tag(chars("Foo"), vec![Value::Tag(chars("Bar"), vec![])]);
    assert_eq!(text(&bare), "Foo Bar");
    let many = Value::Tag(chars("Foo"), vec![num("1"), num("2"), num("3")]);
    assert_eq!(text(&many), "Foo 1 2 3");
    let rec = Value::Tag(chars("A"), vec![Value::Record(vec![field("b", num("1"))])]);
    assert_eq!(text(&rec), "A { b: 1 }");
}

#[test]
fn strings_escape_quotes_and_backslashes_only() {
    assert_eq!(text(&Value::Str(chars(""))), "\"\"");
    assert_eq!(text(&Value::Str(chars("Hello, World!"))), "\"Hello, World!\"");
    assert_eq!(text(&Value::Str(chars("a\"b\\c"))), "\"a\\\"b\\\\c\"");
    assert_eq!(text(&Value::Str(chars("tab\there"))), "\"tab\there\"");
    let family = "\u{1F469}\u{200D}\u{1F469}\u{200D}\u{1F466}\u{200D}\u{1F466}";
    assert_eq!(text(&Value::Str(chars(family))), format!("\"{}\"", family));
}

#[test]
fn functions_print_opaque() {
    assert_eq!(text(&Value::Function), "<function>");
    let v = Value::List(vec![Value::Function, Value::Function]);
    assert_eq!(text(&v), "[ <function>, <function> ]");
    let t = Value::Tag(chars("Adder"), vec![Value::Function]);
    assert_eq!(text(&t), "Adder <function>");
}
