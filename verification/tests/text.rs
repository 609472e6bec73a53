use repl_core::text::{
    append, append_digits, append_fraction, append_numeral, append_str, chars_of, copy, is_text,
    le, same, same_text, text_of,
};

fn chars(s: &str) -> Vec<char> {
    s.chars().collect()
}

fn numeral(x: i128) -> String {
    let mut out = Vec::new();
    append_numeral(&mut out, x);
    out.into_iter().collect()
}

fn fraction(x: i128) -> String {
    let mut out = Vec::new();
    append_fraction(&mut out, x);
    out.into_iter().collect()
}

#[test]
fn text_goes_to_characters_and_back() {
    let family = "a\u{1F469}\u{200D}\u{1F466}\u{e9}";
    assert_eq!(chars_of(family), chars(family));
    assert_eq!(text_of(&chars(family)), family);
    assert_eq!(chars_of(""), Vec::<char>::new());
    assert_eq!(text_of(&vec![]), "");
    assert_eq!(copy(&chars("abc")), chars("abc"));
    let mut out = chars("ab");
    append(&mut out, &chars("cd"));
    append_str(&mut out, "ef");
    assert_eq!(out, chars("abcdef"));
}

#[test]
fn numerals() {
    assert_eq!(numeral(0), "0");
    assert_eq!(numeral(7), "7");
    assert_eq!(numeral(10), "10");
    assert_eq!(numeral(-10), "-10");
    assert_eq!(numeral(i64::MIN as i128), "-9223372036854775808");
    assert_eq!(numeral(i128::MAX), "170141183460469231731687303715884105727");
    let mut out = Vec::new();
    append_digits(&mut out, u128::MAX);
    assert_eq!(out.into_iter().collect::<String>(), "340282366920938463463374607431768211455");
}

#[test]
fn fractions_print_as_short_as_they_can() {
    let unit: i128 = 1_000_000_000_000_000_000;
    assert_eq!(fraction(0), "0");
    assert_eq!(fraction(4 * unit + unit / 5), "4.2");
    assert_eq!(fraction(unit / 10), "0.1");
    assert_eq!(fraction(-unit / 2), "-0.5");
    assert_eq!(fraction(3 * unit), "3");
    assert_eq!(fraction(314 * unit / 100), "3.14");
    assert_eq!(fraction(unit + 1), "1.000000000000000001");
    assert_eq!(fraction(66 * unit / 10), "6.6");
    assert_eq!(fraction(-3 * unit), "-3");
}

#[test]
fn the_order_of_names_is_lexicographic() {
    assert!(le(&chars(""), &chars("")));
    assert!(le(&chars(""), &chars("a")));
    assert!(!le(&chars("a"), &chars("")));
    assert!(le(&chars("bar"), &chars("baz")));
    assert!(!le(&chars("baz"), &chars("bar")));
    assert!(le(&chars("ba"), &chars("bar")));
    assert!(!le(&chars("bar"), &chars("ba")));
    assert!(le(&chars("Z"), &chars("a")));
    assert!(le(&chars("a"), &chars("a")));
}

#[test]
fn sameness() {
    assert!(same(&chars("abc"), &chars("abc")));
    assert!(!same(&chars("abc"), &chars("abd")));
    assert!(!same(&chars("abc"), &chars("ab")));
    assert!(same(&vec![], &vec![]));
    assert!(is_text(&chars("deps"), "deps"));
    assert!(!is_text(&chars("deps"), "dep"));
    assert!(same_text("a\u{e9}", "a\u{e9}"));
    assert!(!same_text("a", "b"));
}
