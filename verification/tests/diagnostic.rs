use repl_core::diagnostic::{
    draw, is_drawable, render_report, title_of, Category, Diagnostic, Mark, Part, Region,
};

fn chars(s: &str) -> Vec<char> {
    s.chars().collect()
}

fn lines() -> Vec<Vec<char>> {
    vec![chars("first"), chars(""), chars("    third line")]
}

fn text(d: &Diagnostic) -> String {
    render_report(&lines(), d).into_iter().collect()
}

#[test]
fn the_rule_is_eighty_characters_wide() {
    for category in [
        Category::TooFewArgs,
        Category::TypeMismatch,
        Category::ArgumentsBeforeEquals,
        Category::UnsafePattern,
        Category::DuplicateName,
        Category::SyntaxProblem,
        Category::UnrecognizedName,
        Category::TooManyArgs,
        Category::Crash,
    ] {
        let shown = text(&Diagnostic { category, parts: vec![] });
        let rule: Vec<char> = shown.trim_end_matches('\n').chars().collect();
        assert_eq!(rule.len(), 80, "{}", shown);
        let title = title_of(category);
        assert!(shown.starts_with(&format!("\u{2500}\u{2500} {} \u{2500}", title)));
        assert_eq!(shown.matches('\n').count(), 1);
    }
}

#[test]
fn every_category_has_a_title_of_its_own() {
    let titles = [
        title_of(Category::TooFewArgs),
        title_of(Category::TypeMismatch),
        title_of(Category::ArgumentsBeforeEquals),
        title_of(Category::UnsafePattern),
        title_of(Category::DuplicateName),
        title_of(Category::SyntaxProblem),
        title_of(Category::UnrecognizedName),
        title_of(Category::TooManyArgs),
        title_of(Category::Crash),
    ];
    assert_eq!(titles[0], "TOO FEW ARGS");
    assert_eq!(titles[1], "TYPE MISMATCH");
    assert_eq!(titles[2], "ARGUMENTS BEFORE EQUALS");
    assert_eq!(titles[3], "UNSAFE PATTERN");
    assert_eq!(titles[4], "DUPLICATE NAME");
    for i in 0..titles.len() {
        for j in 0..i {
            assert_ne!(titles[i], titles[j]);
        }
    }
}

#[test]
fn parts_stand_after_blank_lines() {
    let d = Diagnostic {
        category: Category::TypeMismatch,
        parts: vec![
            Part::Text(chars("What is wrong:")),
            Part::Excerpt(Region { first: 2, last: 2, start: 4, end: 9 }, Mark::Underline),
            Part::Items(vec![chars("B"), chars("C")]),
        ],
    };
    let shown = text(&d);
    let body = shown.split_once('\n').unwrap().1;
    assert_eq!(body, "\nWhat is wrong:\n\n3\u{2502}      third line\n        ^^^^^\n\n    B\n    C\n");
}

#[test]
fn a_margin_marks_every_line_and_an_empty_line_stays_empty() {
    let d = Diagnostic {
        category: Category::UnsafePattern,
        parts: vec![Part::Excerpt(Region { first: 0, last: 2, start: 0, end: 0 }, Mark::Margin)],
    };
    let body = text(&d).split_once('\n').unwrap().1.to_string();
    assert_eq!(body, "\n1\u{2502}>  first\n2\u{2502}>\n3\u{2502}>      third line\n");
    let under = Diagnostic {
        category: Category::ArgumentsBeforeEquals,
        parts: vec![Part::Excerpt(Region { first: 0, last: 1, start: 0, end: 2 }, Mark::Underline)],
    };
    let body = text(&under).split_once('\n').unwrap().1.to_string();
    assert_eq!(body, "\n1\u{2502}  first\n2\u{2502}\n    ^^\n");
}

#[test]
fn lines_that_the_program_does_not_have_are_numbered_and_empty() {
    let d = Diagnostic {
        category: Category::Crash,
        parts: vec![Part::Excerpt(Region { first: 9, last: 9, start: 1, end: 2 }, Mark::Underline)],
    };
    let body = text(&d).split_once('\n').unwrap().1.to_string();
    assert_eq!(body, "\n10\u{2502}\n      ^\n");
}

#[test]
fn a_region_that_cannot_be_drawn_leaves_the_rule() {
    let d = Diagnostic {
        category: Category::Crash,
        parts: vec![
            Part::Text(chars("x")),
            Part::Excerpt(Region { first: 0, last: usize::MAX, start: 0, end: 0 }, Mark::Underline),
        ],
    };
    assert!(!is_drawable(&d));
    let shown: String = draw(&lines(), &d).into_iter().collect();
    assert_eq!(shown.chars().count(), 81);
    let fine = Diagnostic { category: Category::Crash, parts: vec![Part::Text(chars("x"))] };
    assert!(is_drawable(&fine));
    assert_eq!(draw(&lines(), &fine), render_report(&lines(), &fine));
}
