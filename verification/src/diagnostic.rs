//! Diagnostics and their boxed, source-annotated text.

use vstd::prelude::*;
use crate::text::{append, append_digits, append_str, copy, digits};

verus! {

/// The width of a diagnostic's header rule, in characters.
pub const RULE_WIDTH: usize = 80;

/// The kinds of diagnostics. Each kind has one title.
#[derive(Clone, Copy, Debug, PartialEq, Eq, Structural)]
pub enum Category {
    /// A function was called with fewer arguments than it has parameters.
    TooFewArgs,
    /// Two types that must be the same are not.
    TypeMismatch,
    /// A definition has arguments before its equals sign.
    ArgumentsBeforeEquals,
    /// A `when` does not cover every variant of a closed union.
    UnsafePattern,
    /// A name is bound twice in one submission.
    DuplicateName,
    /// The text is no submission.
    SyntaxProblem,
    /// A name is bound to nothing.
    UnrecognizedName,
    /// A function was called with more arguments than it has parameters.
    TooManyArgs,
    /// The evaluation came to no value.
    Crash,
}

/// The title of a category.
pub open spec fn title(category: Category) -> Seq<char> {
    match category {
        Category::TooFewArgs => "TOO FEW ARGS"@,
        Category::TypeMismatch => "TYPE MISMATCH"@,
        Category::ArgumentsBeforeEquals => "ARGUMENTS BEFORE EQUALS"@,
        Category::UnsafePattern => "UNSAFE PATTERN"@,
        Category::DuplicateName => "DUPLICATE NAME"@,
        Category::SyntaxProblem => "SYNTAX PROBLEM"@,
        Category::UnrecognizedName => "UNRECOGNIZED NAME"@,
        Category::TooManyArgs => "TOO MANY ARGS"@,
        Category::Crash => "CRASH"@,
    }
}

/// The title of a category.
pub fn title_of(category: Category) -> (r: &'static str)
    ensures
        r@ == title(category),
{
    match category {
        Category::TooFewArgs => "TOO FEW ARGS",
        Category::TypeMismatch => "TYPE MISMATCH",
        Category::ArgumentsBeforeEquals => "ARGUMENTS BEFORE EQUALS",
        Category::UnsafePattern => "UNSAFE PATTERN",
        Category::DuplicateName => "DUPLICATE NAME",
        Category::SyntaxProblem => "SYNTAX PROBLEM",
        Category::UnrecognizedName => "UNRECOGNIZED NAME",
        Category::TooManyArgs => "TOO MANY ARGS",
        Category::Crash => "CRASH",
    }
}

/// No two categories share a title.
pub proof fn lemma_titles_differ(a: Category, b: Category)
    requires
        a != b,
    ensures
        title(a) != title(b),
{
    reveal_strlit("TOO FEW ARGS");
    reveal_strlit("TYPE MISMATCH");
    reveal_strlit("ARGUMENTS BEFORE EQUALS");
    reveal_strlit("UNSAFE PATTERN");
    reveal_strlit("DUPLICATE NAME");
    reveal_strlit("SYNTAX PROBLEM");
    reveal_strlit("UNRECOGNIZED NAME");
    reveal_strlit("TOO MANY ARGS");
    reveal_strlit("CRASH");
    assert("SYNTAX PROBLEM"@.len() == 14);
    assert("UNRECOGNIZED NAME"@.len() == 17);
    assert("TOO MANY ARGS"@.len() == 13);
    assert("CRASH"@.len() == 5);
    assert("SYNTAX PROBLEM"@[0] == 'S');
    assert("TOO MANY ARGS"@[1] == 'O');
    assert("TYPE MISMATCH"@[1] == 'Y');
    assert("TOO FEW ARGS"@.len() == 12);
    assert("TYPE MISMATCH"@.len() == 13);
    assert("ARGUMENTS BEFORE EQUALS"@.len() == 23);
    assert("UNSAFE PATTERN"@.len() == 14);
    assert("DUPLICATE NAME"@.len() == 14);
    assert("UNSAFE PATTERN"@[0] == 'U');
    assert("DUPLICATE NAME"@[0] == 'D');
}

/// A stretch of the program's source: the lines from `first` to `last`,
/// counted from zero, and on the last of them the columns from `start` up
/// to `end`.
#[derive(Clone, Copy, Debug, PartialEq, Eq, Structural)]
pub struct Region {
    pub first: usize,
    pub last: usize,
    pub start: usize,
    pub end: usize,
}

/// How an excerpt marks its region.
#[derive(Clone, Copy, Debug, PartialEq, Eq, Structural)]
pub enum Mark {
    /// Carets under the columns of the last line.
    Underline,
    /// A marker in the margin of every line.
    Margin,
}

/// One part of a diagnostic's text.
#[derive(Debug, PartialEq, Eq)]
pub enum Part {
    /// A paragraph.
    Text(Vec<char>),
    /// The source lines of a region, numbered and marked.
    Excerpt(Region, Mark),
    /// Lines that stand indented, one item each.
    Items(Vec<Vec<char>>),
}

/// A diagnostic: what went wrong, where, and what to do about it.
#[derive(Debug, PartialEq, Eq)]
pub struct Diagnostic {
    pub category: Category,
    pub parts: Vec<Part>,
}

/// The mathematical model of a [`Part`].
pub enum PartModel {
    Text(Seq<char>),
    Excerpt(Region, Mark),
    Items(Seq<Seq<char>>),
}

/// The mathematical model of a [`Diagnostic`].
pub struct DiagnosticModel {
    pub category: Category,
    pub parts: Seq<PartModel>,
}

impl View for Part {
    type V = PartModel;

    open spec fn view(&self) -> PartModel {
        match self {
            Part::Text(text) => PartModel::Text(text@),
            Part::Excerpt(region, mark) => PartModel::Excerpt(*region, *mark),
            Part::Items(items) => PartModel::Items(lines_model(items@)),
        }
    }
}

impl View for Diagnostic {
    type V = DiagnosticModel;

    open spec fn view(&self) -> DiagnosticModel {
        DiagnosticModel { category: self.category, parts: parts_model(self.parts@) }
    }
}

/// The models of the parts, in order.
pub open spec fn parts_model(parts: Seq<Part>) -> Seq<PartModel> {
    Seq::new(parts.len(), |i: int| parts[i]@)
}

/// `n` times the character `c`.
pub open spec fn run(c: char, n: int) -> Seq<char> {
    Seq::new(
        if n < 0 {
            0nat
        } else {
            n as nat
        },
        |i: int| c,
    )
}

/// The header rule: the title between box-drawing dashes, filled up to the
/// rule's width.
pub open spec fn rule(category: Category) -> Seq<char> {
    run('\u{2500}', 2) + seq![' '] + title(category) + seq![' '] + run(
        '\u{2500}',
        RULE_WIDTH - 4 - title(category).len(),
    )
}

/// The header rule of every category has the rule's width.
pub proof fn lemma_rule_width(category: Category)
    ensures
        rule(category).len() == RULE_WIDTH,
{
    reveal_strlit("TOO FEW ARGS");
    reveal_strlit("TYPE MISMATCH");
    reveal_strlit("ARGUMENTS BEFORE EQUALS");
    reveal_strlit("UNSAFE PATTERN");
    reveal_strlit("DUPLICATE NAME");
    reveal_strlit("SYNTAX PROBLEM");
    reveal_strlit("UNRECOGNIZED NAME");
    reveal_strlit("TOO MANY ARGS");
    reveal_strlit("CRASH");
}

/// One numbered source line. An empty line has nothing after its margin.
pub open spec fn numbered(lines: Seq<Seq<char>>, n: int, mark: Mark) -> Seq<char> {
    digits((n + 1) as nat) + seq!['\u{2502}'] + (if mark == Mark::Margin {
        seq!['>']
    } else {
        Seq::empty()
    }) + (if 0 <= n < lines.len() && lines[n].len() > 0 {
        "  "@ + lines[n]
    } else {
        Seq::empty()
    })
}

/// The numbered source lines from `n` to `last`, each ended by a newline
/// but the last one.
pub open spec fn numbered_from(lines: Seq<Seq<char>>, n: int, last: int, mark: Mark) -> Seq<char>
    decreases last - n,
{
    if n > last {
        Seq::empty()
    } else if n == last {
        numbered(lines, n, mark)
    } else {
        numbered(lines, n, mark) + seq!['\n'] + numbered_from(lines, n + 1, last, mark)
    }
}

/// The text of a source excerpt.
pub open spec fn excerpt(lines: Seq<Seq<char>>, region: Region, mark: Mark) -> Seq<char> {
    numbered_from(lines, region.first as int, region.last as int, mark) + (if mark
        == Mark::Underline {
        seq!['\n'] + run(' ', digits((region.last + 1) as nat).len() + 3 + region.start) + run(
            '^',
            region.end - region.start,
        )
    } else {
        Seq::empty()
    })
}

/// The items from index `i` on, each indented on a line of its own.
pub open spec fn listed(items: Seq<Seq<char>>, i: int) -> Seq<char>
    decreases items.len() - i,
{
    if 0 <= i < items.len() {
        (if i == 0 {
            Seq::empty()
        } else {
            seq!['\n']
        }) + "    "@ + items[i] + listed(items, i + 1)
    } else {
        Seq::empty()
    }
}

/// The text of one part.
pub open spec fn part_text(lines: Seq<Seq<char>>, part: PartModel) -> Seq<char> {
    match part {
        PartModel::Text(text) => text,
        PartModel::Excerpt(region, mark) => excerpt(lines, region, mark),
        PartModel::Items(items) => listed(items, 0),
    }
}

/// The parts from index `i` on, each after a blank line.
pub open spec fn parts_text(lines: Seq<Seq<char>>, parts: Seq<PartModel>, i: int) -> Seq<char>
    decreases parts.len() - i,
{
    if 0 <= i < parts.len() {
        seq!['\n'] + part_text(lines, parts[i]) + seq!['\n'] + parts_text(lines, parts, i + 1)
    } else {
        Seq::empty()
    }
}

/// The text of a diagnostic over the lines of the program: the header
/// rule, then each part after a blank line.
pub open spec fn report(lines: Seq<Seq<char>>, d: DiagnosticModel) -> Seq<char> {
    rule(d.category) + seq!['\n'] + parts_text(lines, d.parts, 0)
}

/// Whether the regions of a diagnostic can be drawn: their lines and
/// columns leave room for the margin.
pub open spec fn drawable(d: DiagnosticModel) -> bool {
    forall|i: int|
        0 <= i < d.parts.len() ==> (#[trigger] d.parts[i] matches PartModel::Excerpt(region, _)
            ==> region.last < usize::MAX && region.start <= usize::MAX - 32)
}

/// The lines of the program, each as its characters.
pub open spec fn lines_model(lines: Seq<Vec<char>>) -> Seq<Seq<char>> {
    Seq::new(lines.len(), |i: int| lines[i]@)
}

/// Appends `n` times the character `c`.
fn append_run(out: &mut Vec<char>, c: char, n: usize)
    ensures
        final(out)@ == old(out)@ + run(c, n as int),
{
    let mut i: usize = 0;
    while i < n
        invariant
            i <= n,
            out@ == old(out)@ + run(c, i as int),
        decreases n - i,
    {
        out.push(c);
        assert(out@ =~= old(out)@ + run(c, i + 1));
        i = i + 1;
    }
}

/// Appends one numbered source line.
fn append_numbered(out: &mut Vec<char>, lines: &Vec<Vec<char>>, n: usize, mark: Mark)
    requires
        n < usize::MAX,
    ensures
        final(out)@ == old(out)@ + numbered(lines_model(lines@), n as int, mark),
{
    append_digits(out, (n + 1) as u128);
    out.push('\u{2502}');
    match mark {
        Mark::Margin => {
            out.push('>');
        },
        Mark::Underline => {},
    }
    if n < lines.len() && lines[n].len() > 0 {
        append_str(out, "  ");
        append(out, &lines[n]);
    }
    assert(out@ =~= old(out)@ + numbered(lines_model(lines@), n as int, mark));
}

/// The number of decimal digits of `n`.
fn digit_count(n: usize) -> (r: usize)
    ensures
        r == digits(n as nat).len(),
        1 <= r <= 20,
{
    let mut text: Vec<char> = Vec::new();
    append_digits(&mut text, n as u128);
    proof {
        lemma_digits_len(n as nat);
    }
    assert(text@ =~= digits(n as nat));
    text.len()
}

/// A numeral has one digit for each power of ten up to the number.
proof fn lemma_digits_len(n: nat)
    ensures
        1 <= digits(n).len(),
        n < 100_000_000_000_000_000_000 ==> digits(n).len() <= 20,
{
    reveal_with_fuel(digits, 21);
}

/// Appends the text of a source excerpt.
fn append_excerpt(out: &mut Vec<char>, lines: &Vec<Vec<char>>, region: Region, mark: Mark)
    requires
        region.last < usize::MAX,
        region.start <= usize::MAX - 32,
    ensures
        final(out)@ == old(out)@ + excerpt(lines_model(lines@), region, mark),
{
    let ghost model = lines_model(lines@);
    let mut n: usize = region.first;
    while n < region.last
        invariant
            region.first <= n,
            n <= region.last || region.first > region.last,
            region.last < usize::MAX,
            model == lines_model(lines@),
            out@ + numbered_from(model, n as int, region.last as int, mark) == old(out)@
                + numbered_from(model, region.first as int, region.last as int, mark),
        decreases region.last - n,
    {
        let ghost before = out@;
        append_numbered(out, lines, n, mark);
        out.push('\n');
        assert(out@ + numbered_from(model, n + 1, region.last as int, mark) =~= before
            + numbered_from(model, n as int, region.last as int, mark));
        n = n + 1;
    }
    let ghost before = out@;
    if n == region.last {
        append_numbered(out, lines, n, mark);
    }
    assert(out@ =~= before + numbered_from(model, n as int, region.last as int, mark));
    match mark {
        Mark::Underline => {
            out.push('\n');
            append_run(out, ' ', digit_count(region.last + 1) + 3 + region.start);
            if region.end > region.start {
                append_run(out, '^', region.end - region.start);
            } else {
                assert(run('^', region.end - region.start) =~= Seq::empty());
            }
            assert(out@ =~= old(out)@ + excerpt(model, region, mark));
        },
        Mark::Margin => {
            assert(out@ =~= old(out)@ + excerpt(model, region, mark));
        },
    }
}

/// Renders a diagnostic over the lines of the program.
pub fn render_report(lines: &Vec<Vec<char>>, d: &Diagnostic) -> (r: Vec<char>)
    requires
        drawable(d@),
    ensures
        r@ == report(lines_model(lines@), d@),
{
    let ghost model = lines_model(lines@);
    let ghost parts = d@.parts;
    let mut out: Vec<char> = Vec::new();
    let name = title_of(d.category);
    append_run(&mut out, '\u{2500}', 2);
    out.push(' ');
    append_str(&mut out, name);
    out.push(' ');
    let used = name.unicode_len();
    if used <= RULE_WIDTH - 4 {
        append_run(&mut out, '\u{2500}', RULE_WIDTH - 4 - used);
    } else {
        assert(run('\u{2500}', RULE_WIDTH - 4 - title(d.category).len()) =~= Seq::empty());
    }
    out.push('\n');
    assert(out@ =~= rule(d.category) + seq!['\n']);
    let ghost start = out@;
    let mut i: usize = 0;
    while i < d.parts.len()
        invariant
            i <= d.parts.len(),
            model == lines_model(lines@),
            parts == d@.parts,
            parts.len() == d.parts@.len(),
            drawable(d@),
            out@ + parts_text(model, parts, i as int) == start + parts_text(model, parts, 0),
        decreases d.parts.len() - i,
    {
        let ghost before = out@;
        assert(parts[i as int] == d.parts@[i as int]@);
        out.push('\n');
        match &d.parts[i] {
            Part::Text(text) => {
                append(&mut out, text);
            },
            Part::Excerpt(region, mark) => {
                append_excerpt(&mut out, lines, *region, *mark);
            },
            Part::Items(items) => {
                let ghost base = out@;
                let ghost texts = lines_model(items@);
                let mut k: usize = 0;
                while k < items.len()
                    invariant
                        k <= items.len(),
                        texts == lines_model(items@),
                        out@ + listed(texts, k as int) == base + listed(texts, 0),
                    decreases items.len() - k,
                {
                    let ghost prior = out@;
                    if k > 0 {
                        out.push('\n');
                    }
                    append_str(&mut out, "    ");
                    append(&mut out, &items[k]);
                    assert(out@ + listed(texts, k + 1) =~= prior + listed(texts, k as int));
                    k = k + 1;
                }
                assert(out@ + listed(texts, k as int) =~= out@);
            },
        }
        out.push('\n');
        assert(out@ + parts_text(model, parts, i + 1) =~= before + parts_text(
            model,
            parts,
            i as int,
        ));
        i = i + 1;
    }
    assert(out@ + parts_text(model, parts, i as int) =~= out@);
    out
}

/// Whether the regions of a diagnostic can be drawn.
pub fn is_drawable(d: &Diagnostic) -> (r: bool)
    ensures
        r == drawable(d@),
{
    let mut i: usize = 0;
    while i < d.parts.len()
        invariant
            i <= d.parts@.len(),
            forall|k: int|
                0 <= k < i ==> (#[trigger] d@.parts[k] matches PartModel::Excerpt(region, _)
                    ==> region.last < usize::MAX && region.start <= usize::MAX - 32),
        decreases d.parts.len() - i,
    {
        assert(d@.parts[i as int] == d.parts@[i as int]@);
        match &d.parts[i] {
            Part::Excerpt(region, _) => {
                if !(region.last < usize::MAX && region.start <= usize::MAX - 32) {
                    return false;
                }
            },
            _ => {},
        }
        i = i + 1;
    }
    true
}

/// The text of a diagnostic over the lines of the program, and of a
/// diagnostic whose regions cannot be drawn the header rule alone.
pub open spec fn drawn(lines: Seq<Seq<char>>, d: DiagnosticModel) -> Seq<char> {
    if drawable(d) {
        report(lines, d)
    } else {
        rule(d.category) + seq!['\n']
    }
}

/// Renders a diagnostic over the lines of the program.
pub fn draw(lines: &Vec<Vec<char>>, d: &Diagnostic) -> (r: Vec<char>)
    ensures
        r@ == drawn(lines_model(lines@), d@),
{
    if is_drawable(d) {
        render_report(lines, d)
    } else {
        let bare = Diagnostic { category: d.category, parts: Vec::new() };
        assert(bare@.parts =~= Seq::empty());
        assert(drawable(bare@));
        let r = render_report(lines, &bare);
        assert(r@ =~= rule(d.category) + seq!['\n']);
        r
    }
}

} // verus!
