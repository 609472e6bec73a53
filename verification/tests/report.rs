use repl_core::diagnostic::{Category, Mark, Part, Region};
use repl_core::lexer::tokenize;
use repl_core::parser::SyntaxError;
use repl_core::report::{ordinal, region_of_token, shifted, short_name, syntax_diagnostic};
use repl_core::session::{ends_blank, origin_of, shown_lines};

fn chars(s: &str) -> Vec<char> {
    s.chars().collect()
}

fn text(v: Vec<char>) -> String {
    v.into_iter().collect()
}

#[test]
fn ordinals() {
    let expected = [
        (1, "1st"), (2, "2nd"), (3, "3rd"), (4, "4th"), (10, "10th"), (11, "11th"), (12, "12th"),
        (13, "13th"), (21, "21st"), (22, "22nd"), (23, "23rd"), (101, "101st"), (111, "111th"),
        (112, "112th"), (0, "0th"),
    ];
    for (n, word) in expected {
        assert_eq!(text(ordinal(n)), word);
    }
}

#[test]
fn a_function_is_named_without_its_module() {
    assert_eq!(text(short_name(&chars("Num.add"))), "add");
    assert_eq!(text(short_name(&chars("add"))), "add");
    assert_eq!(text(short_name(&chars("A.B.c"))), "c");
    assert_eq!(text(short_name(&chars("Num."))), "");
    assert_eq!(text(short_name(&chars(""))), "");
}

#[test]
fn a_region_moves_under_the_header() {
    let region = Region { first: 50, last: 51, start: 2, end: 5 };
    assert_eq!(shifted(region, 50), Region { first: 3, last: 4, start: 6, end: 9 });
    assert_eq!(shifted(region, 51), Region { first: 3, last: 3, start: 6, end: 9 });
    assert_eq!(shifted(region, 0), Region { first: 53, last: 54, start: 6, end: 9 });
    let far = Region { first: usize::MAX, last: usize::MAX, start: usize::MAX, end: usize::MAX };
    assert_eq!(shifted(far, 0), far);
}

#[test]
fn the_place_after_the_last_token() {
    let tokens = tokenize(&chars("ab\n  cd")).unwrap();
    assert_eq!(region_of_token(&tokens, 1), Region { first: 1, last: 1, start: 2, end: 4 });
    assert_eq!(region_of_token(&tokens, 2), Region { first: 1, last: 1, start: 4, end: 5 });
    assert_eq!(region_of_token(&vec![], 0), Region { first: 0, last: 0, start: 0, end: 1 });
}

#[test]
fn the_lines_of_the_program() {
    let lines: Vec<String> = shown_lines(&chars("intro\n\na = 1\n   \n  b\n"), 2)
        .into_iter()
        .map(text)
        .collect();
    assert_eq!(
        lines,
        vec![
            "app \"app\" provides [ replOutput ] to \"./platform\"",
            "",
            "replOutput =",
            "    a = 1",
            "",
            "      b",
        ]
    );
    let lines = shown_lines(&chars("x"), 0);
    assert_eq!(text(lines[3].clone()), "    x");
    assert_eq!(shown_lines(&chars("x"), 1).len(), 3);
}

#[test]
fn where_a_submission_begins() {
    let text = chars("a\nb\n\n  c");
    let tokens = tokenize(&text).unwrap();
    assert_eq!(origin_of(&text, &tokens, 0), 0);
    assert_eq!(origin_of(&text, &tokens, 2), 1);
    assert_eq!(origin_of(&text, &tokens, 4), 3);
    let blank = chars("a\n\n\n");
    let tokens = tokenize(&blank).unwrap();
    assert_eq!(origin_of(&blank, &tokens, 2), 1);
    assert_eq!(origin_of(&blank, &tokens, 4), 3);
}

#[test]
fn a_line_of_blanks_at_the_end() {
    assert!(ends_blank(&chars("1 + 1\n   ")));
    assert!(ends_blank(&chars("\n \t")));
    assert!(!ends_blank(&chars("1 + 1\n")));
    assert!(!ends_blank(&chars("1 + 1")));
    assert!(!ends_blank(&chars("   ")));
    assert!(!ends_blank(&chars("")));
    assert!(!ends_blank(&chars("a\n b")));
}

#[test]
fn a_syntax_error_has_its_words() {
    let tokens = tokenize(&chars("add m n = m + n")).unwrap();
    let region = Region { first: 0, last: 0, start: 4, end: 7 };
    let d = syntax_diagnostic(&tokens, SyntaxError::ArgumentsBeforeEquals(region), 0);
    assert_eq!(d.category, Category::ArgumentsBeforeEquals);
    assert_eq!(
        d.parts[1],
        Part::Excerpt(Region { first: 0, last: 3, start: 8, end: 11 }, Mark::Underline)
    );
    let d = syntax_diagnostic(&tokens, SyntaxError::Unexpected(3), 0);
    assert_eq!(d.category, Category::SyntaxProblem);
    assert_eq!(
        d.parts[1],
        Part::Excerpt(Region { first: 3, last: 3, start: 12, end: 13 }, Mark::Underline)
    );
    let d = syntax_diagnostic(&tokens, SyntaxError::TooLong, 0);
    assert_eq!(d.parts.len(), 1);
    let d = syntax_diagnostic(&tokens, SyntaxError::BadCharacter, 0);
    assert_eq!(d.parts.len(), 1);
}
