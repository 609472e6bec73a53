//! What is wrong with a submission, in words: from the errors of the
//! parser, the inferencer and the evaluator to diagnostics.

use vstd::prelude::*;
use crate::diagnostic::{
    lines_model, Category, Diagnostic, DiagnosticModel, Mark, Part, PartModel, Region,
};
use crate::infer::{
    inferred, missing, missing_variants, name_of_operator, operator_name, slice, slice_of, texts,
    Infer, InferModel, TypeError,
};
use crate::lexer::Token;
use crate::parser::SyntaxError;
use crate::solve::{export, exported, exported_all, name_text, Name, TyNode, Types, TypesModel, FUEL};
use crate::syntax::{end_column, region_between, region_of, Ast, AstModel, Kind, Span};
use crate::text::{append, append_digits, append_str, chars_of, digits};
use crate::types::{
    lettered, occurrences, occurrences_all, position, render_type, render_type_in,
    rendered_arguments, rendered_type, type_text, TypeModel,
};
use crate::values::Crash;

verus! {

/// No region.
pub open spec fn nowhere() -> Region {
    Region { first: 0, last: 0, start: 0, end: 0 }
}

/// The region as the report shows it: `origin` lines up, under the three
/// lines of the program's header, and four columns to the right.
pub open spec fn shift(region: Region, origin: usize) -> Region {
    let first = if region.first >= origin {
        region.first - origin
    } else {
        0
    };
    let last = if region.last >= origin {
        region.last - origin
    } else {
        0
    };
    Region {
        first: if first <= usize::MAX - 3 {
            (first + 3) as usize
        } else {
            first as usize
        },
        last: if last <= usize::MAX - 3 {
            (last + 3) as usize
        } else {
            last as usize
        },
        start: if region.start <= usize::MAX - 4 {
            (region.start + 4) as usize
        } else {
            region.start
        },
        end: if region.end <= usize::MAX - 4 {
            (region.end + 4) as usize
        } else {
            region.end
        },
    }
}

/// The region as the report shows it.
pub fn shifted(region: Region, origin: usize) -> (r: Region)
    ensures
        r == shift(region, origin),
{
    let first = if region.first >= origin {
        region.first - origin
    } else {
        0
    };
    let last = if region.last >= origin {
        region.last - origin
    } else {
        0
    };
    Region {
        first: if first <= usize::MAX - 3 {
            first + 3
        } else {
            first
        },
        last: if last <= usize::MAX - 3 {
            last + 3
        } else {
            last
        },
        start: if region.start <= usize::MAX - 4 {
            region.start + 4
        } else {
            region.start
        },
        end: if region.end <= usize::MAX - 4 {
            region.end + 4
        } else {
            region.end
        },
    }
}

/// The ending of the ordinal of `n`.
pub open spec fn ordinal_suffix(n: nat) -> Seq<char> {
    if 11 <= n % 100 <= 13 {
        "th"@
    } else if n % 10 == 1 {
        "st"@
    } else if n % 10 == 2 {
        "nd"@
    } else if n % 10 == 3 {
        "rd"@
    } else {
        "th"@
    }
}

/// The ordinal of `n`: `1st`, `2nd`, `3rd`, `4th` and so on.
pub open spec fn ordinal_text(n: nat) -> Seq<char> {
    digits(n) + ordinal_suffix(n)
}

/// The ordinal of `n`.
pub fn ordinal(n: usize) -> (r: Vec<char>)
    ensures
        r@ == ordinal_text(n as nat),
{
    let mut out: Vec<char> = Vec::new();
    append_digits(&mut out, n as u128);
    let suffix = if n % 100 >= 11 && n % 100 <= 13 {
        "th"
    } else if n % 10 == 1 {
        "st"
    } else if n % 10 == 2 {
        "nd"
    } else if n % 10 == 3 {
        "rd"
    } else {
        "th"
    };
    append_str(&mut out, suffix);
    assert(out@ =~= ordinal_text(n as nat));
    out
}

/// The index after the last point among the first `n` characters of
/// `name`; zero where there is none.
pub open spec fn after_point(name: Seq<char>, n: int) -> int
    decreases n,
{
    if n <= 0 || n > name.len() {
        0
    } else if name[n - 1] == '.' {
        n
    } else {
        after_point(name, n - 1)
    }
}

/// The name of a function without the module that it comes from.
pub open spec fn short(name: Seq<char>) -> Seq<char> {
    name.skip(after_point(name, name.len() as int))
}

/// The name of a function without the module that it comes from.
pub fn short_name(name: &Vec<char>) -> (r: Vec<char>)
    ensures
        r@ == short(name@),
{
    let mut start: usize = 0;
    let mut i: usize = 0;
    while i < name.len()
        invariant
            i <= name@.len(),
            start <= i,
            start == after_point(name@, i as int),
        decreases name.len() - i,
    {
        if name[i] == '.' {
            start = i + 1;
        }
        i = i + 1;
    }
    let mut out: Vec<char> = Vec::new();
    let mut k: usize = start;
    while k < name.len()
        invariant
            start <= k <= name@.len(),
            out@ =~= name@.subrange(start as int, k as int),
        decreases name.len() - k,
    {
        out.push(name[k]);
        k = k + 1;
    }
    assert(out@ =~= name@.skip(start as int));
    out
}

/// The region of the node at `node`.
pub open spec fn region_at(ast: AstModel, node: usize) -> Region {
    match ast.node_at(node) {
        Some(n) => n.region,
        None => nowhere(),
    }
}

/// The region of the node at `node`.
pub fn region_of_node(ast: &Ast, node: usize) -> (r: Region)
    ensures
        r == region_at(ast@, node),
{
    match ast.node(node) {
        Some(n) => n.region,
        None => Region { first: 0, last: 0, start: 0, end: 0 },
    }
}

/// The name of the function that the call at `call` calls, and the region
/// of that function in the source. An operator is called by the name of
/// the function that it stands for, at the region of the whole operation.
pub open spec fn callee_of(chars: Seq<char>, ast: AstModel, call: usize) -> (Seq<char>, Region) {
    match ast.node_at(call) {
        Some(n) => match n.kind {
            Kind::Call(f, _) => match ast.node_at(f) {
                Some(g) => match g.kind {
                    Kind::Var(name) => (short(slice(chars, name)), g.region),
                    _ => ("this"@, g.region),
                },
                None => ("this"@, n.region),
            },
            Kind::Binary(op, _, _) => (short(operator_name(op)), n.region),
            _ => ("this"@, n.region),
        },
        None => ("this"@, nowhere()),
    }
}

/// The name and the region of the function that the call at `call` calls.
pub fn callee(chars: &Vec<char>, ast: &Ast, call: usize) -> (r: (Vec<char>, Region))
    ensures
        (r.0@, r.1) == callee_of(chars@, ast@, call),
{
    let none = Region { first: 0, last: 0, start: 0, end: 0 };
    match ast.node(call) {
        Some(n) => match n.kind {
            Kind::Call(f, _) => match ast.node(f) {
                Some(g) => match g.kind {
                    Kind::Var(name) => (short_name(&slice_of(chars, name)), g.region),
                    _ => (chars_of("this"), g.region),
                },
                None => (chars_of("this"), n.region),
            },
            Kind::Binary(op, _, _) => (short_name(&name_of_operator(op)), n.region),
            _ => (chars_of("this"), n.region),
        },
        None => (chars_of("this"), none),
    }
}

/// What kind of thing the expression at `node` is, in words.
pub open spec fn description(ast: AstModel, node: usize) -> Seq<char> {
    match ast.node_at(node) {
        Some(n) => match n.kind {
            Kind::Str(_) => "a string"@,
            Kind::Num(_) => "a number"@,
            Kind::Int(_) => "an integer"@,
            Kind::Frac(_) => "a float"@,
            Kind::List(_) => "a list"@,
            Kind::Record(_) => "a record"@,
            Kind::Tag(_, _) => "a tag"@,
            Kind::Lambda(_, _) => "an anonymous function"@,
            _ => "a value"@,
        },
        None => "a value"@,
    }
}

/// What kind of thing the expression at `node` is, in words.
pub fn described(ast: &Ast, node: usize) -> (r: &'static str)
    ensures
        r@ == description(ast@, node),
{
    match ast.node(node) {
        Some(n) => match n.kind {
            Kind::Str(_) => "a string",
            Kind::Num(_) => "a number",
            Kind::Int(_) => "an integer",
            Kind::Frac(_) => "a float",
            Kind::List(_) => "a list",
            Kind::Record(_) => "a record",
            Kind::Tag(_, _) => "a tag",
            Kind::Lambda(_, _) => "an anonymous function",
            _ => "a value",
        },
        None => "a value",
    }
}

/// The text of the type at `node`; a question mark for what is no type.
pub open spec fn type_text_at(types: TypesModel, chars: Seq<char>, node: usize) -> Seq<char> {
    match exported(types, chars, node, FUEL as nat) {
        Some(tree) => type_text(tree),
        None => "?"@,
    }
}

/// The text of the type at `node`.
pub fn type_text_of(types: &Types, chars: &Vec<char>, node: usize) -> (r: Vec<char>)
    ensures
        r@ == type_text_at(types@, chars@, node),
{
    match export(types, chars, node, FUEL) {
        Some(tree) => render_type(&tree),
        None => chars_of("?"),
    }
}

/// The text of the type at `node` as a part of the type at `whole`: its
/// variables print as they do in the text of `whole`.
pub open spec fn type_text_within(types: TypesModel, chars: Seq<char>, node: usize, whole: usize) -> Seq<
    char,
> {
    match (exported(types, chars, node, FUEL as nat), exported(types, chars, whole, FUEL as nat)) {
        (Some(tree), Some(context)) => rendered_type(
            tree,
            lettered(occurrences(context), occurrences(context).len() as int),
        ),
        _ => "?"@,
    }
}

/// The text of the type at `node` as a part of the type at `whole`.
pub fn type_text_in(types: &Types, chars: &Vec<char>, node: usize, whole: usize) -> (r: Vec<char>)
    ensures
        r@ == type_text_within(types@, chars@, node, whole),
{
    match (export(types, chars, node, FUEL), export(types, chars, whole, FUEL)) {
        (Some(tree), Some(context)) => render_type_in(&tree, &context),
        _ => chars_of("?"),
    }
}

/// The region of the token at `index`, or one column after the last token
/// where there is no such token.
pub open spec fn token_region(tokens: Seq<Token>, index: usize) -> Region {
    if index < tokens.len() {
        region_between(tokens, index as int, index as int)
    } else if tokens.len() > 0 {
        let last = region_between(tokens, tokens.len() - 1, tokens.len() - 1);
        Region {
            first: last.last,
            last: last.last,
            start: last.end,
            end: if last.end < usize::MAX {
                (last.end + 1) as usize
            } else {
                last.end
            },
        }
    } else {
        Region { first: 0, last: 0, start: 0, end: 1 }
    }
}

/// The region of the token at `index`.
pub fn region_of_token(tokens: &Vec<Token>, index: usize) -> (r: Region)
    ensures
        r == token_region(tokens@, index),
{
    if index < tokens.len() {
        region_of(tokens, index, index)
    } else if tokens.len() > 0 {
        let last = region_of(tokens, tokens.len() - 1, tokens.len() - 1);
        Region {
            first: last.last,
            last: last.last,
            start: last.end,
            end: if last.end < usize::MAX {
                last.end + 1
            } else {
                last.end
            },
        }
    } else {
        Region { first: 0, last: 0, start: 0, end: 1 }
    }
}

/// The diagnostic of a syntax error: where the parser got stuck, and for
/// arguments before an equals sign how a function is written.
pub open spec fn syntax_diagnosis(tokens: Seq<Token>, e: SyntaxError, origin: usize) -> DiagnosticModel {
    match e {
        SyntaxError::ArgumentsBeforeEquals(region) => DiagnosticModel {
            category: Category::ArgumentsBeforeEquals,
            parts: seq![
                PartModel::Text(
                    "I am partway through parsing a definition, but I got stuck here:"@,
                ),
                PartModel::Excerpt(
                    Region {
                        first: 0,
                        last: shift(region, origin).last,
                        start: shift(region, origin).start,
                        end: shift(region, origin).end,
                    },
                    Mark::Underline,
                ),
                PartModel::Text(
                    "Looks like you are trying to define a function. In roc, functions are\nalways written as a lambda, like increment = \\n -> n + 1."@,
                ),
            ],
        },
        SyntaxError::Unexpected(index) => DiagnosticModel {
            category: Category::SyntaxProblem,
            parts: seq![
                PartModel::Text(
                    "I am partway through parsing an expression, but I got stuck here:"@,
                ),
                PartModel::Excerpt(shift(token_region(tokens, index), origin), Mark::Underline),
            ],
        },
        SyntaxError::NumberTooLarge(index) => DiagnosticModel {
            category: Category::SyntaxProblem,
            parts: seq![
                PartModel::Text("This number is too large for me to work with:"@),
                PartModel::Excerpt(shift(token_region(tokens, index), origin), Mark::Underline),
            ],
        },
        SyntaxError::TooDeep(index) => DiagnosticModel {
            category: Category::SyntaxProblem,
            parts: seq![
                PartModel::Text("This expression is nested too deep for me to follow:"@),
                PartModel::Excerpt(shift(token_region(tokens, index), origin), Mark::Underline),
            ],
        },
        SyntaxError::BadCharacter => DiagnosticModel {
            category: Category::SyntaxProblem,
            parts: seq![
                PartModel::Text("I found a character that I do not know what to do with."@),
            ],
        },
        SyntaxError::TooLong => DiagnosticModel {
            category: Category::SyntaxProblem,
            parts: seq![PartModel::Text("This submission is longer than I can take in."@)],
        },
    }
}

/// A paragraph of the given text.
fn paragraph(text: &str) -> (r: Part)
    ensures
        r@ == PartModel::Text(text@),
{
    Part::Text(chars_of(text))
}

/// A diagnostic of the given parts.
fn diagnostic_of(category: Category, parts: Vec<Part>) -> (r: Diagnostic)
    ensures
        r@.category == category,
        r@.parts.len() == parts@.len(),
        forall|i: int| 0 <= i < parts@.len() ==> #[trigger] r@.parts[i] == parts@[i]@,
{
    Diagnostic { category, parts }
}

/// The diagnostic of a syntax error.
pub fn syntax_diagnostic(tokens: &Vec<Token>, e: SyntaxError, origin: usize) -> (r: Diagnostic)
    ensures
        r@ == syntax_diagnosis(tokens@, e, origin),
{
    let mut parts: Vec<Part> = Vec::new();
    let d = match e {
        SyntaxError::ArgumentsBeforeEquals(region) => {
            let at = shifted(region, origin);
            parts.push(
                paragraph("I am partway through parsing a definition, but I got stuck here:"),
            );
            parts.push(
                Part::Excerpt(
                    Region { first: 0, last: at.last, start: at.start, end: at.end },
                    Mark::Underline,
                ),
            );
            parts.push(
                paragraph(
                    "Looks like you are trying to define a function. In roc, functions are\nalways written as a lambda, like increment = \\n -> n + 1.",
                ),
            );
            diagnostic_of(Category::ArgumentsBeforeEquals, parts)
        },
        SyntaxError::Unexpected(index) => {
            parts.push(
                paragraph("I am partway through parsing an expression, but I got stuck here:"),
            );
            parts.push(
                Part::Excerpt(shifted(region_of_token(tokens, index), origin), Mark::Underline),
            );
            diagnostic_of(Category::SyntaxProblem, parts)
        },
        SyntaxError::NumberTooLarge(index) => {
            parts.push(paragraph("This number is too large for me to work with:"));
            parts.push(
                Part::Excerpt(shifted(region_of_token(tokens, index), origin), Mark::Underline),
            );
            diagnostic_of(Category::SyntaxProblem, parts)
        },
        SyntaxError::TooDeep(index) => {
            parts.push(paragraph("This expression is nested too deep for me to follow:"));
            parts.push(
                Part::Excerpt(shifted(region_of_token(tokens, index), origin), Mark::Underline),
            );
            diagnostic_of(Category::SyntaxProblem, parts)
        },
        SyntaxError::BadCharacter => {
            parts.push(paragraph("I found a character that I do not know what to do with."));
            diagnostic_of(Category::SyntaxProblem, parts)
        },
        SyntaxError::TooLong => {
            parts.push(paragraph("This submission is longer than I can take in."));
            diagnostic_of(Category::SyntaxProblem, parts)
        },
    };
    assert(d@.parts =~= syntax_diagnosis(tokens@, e, origin).parts);
    d
}

/// The branches of the `when` at `node`.
pub open spec fn branches_of(ast: AstModel, node: usize) -> Seq<usize> {
    match ast.node_at(node) {
        Some(n) => match n.kind {
            Kind::When(_, branches) => ast.parts(branches),
            _ => Seq::empty(),
        },
        None => Seq::empty(),
    }
}

/// The diagnostic of a type error.
pub open spec fn type_diagnosis(
    chars: Seq<char>,
    ast: AstModel,
    types: TypesModel,
    e: TypeError,
    origin: usize,
) -> DiagnosticModel {
    match e {
        TypeError::TooFewArgs { call, expected, got } => DiagnosticModel {
            category: Category::TooFewArgs,
            parts: seq![
                PartModel::Text(
                    "The "@ + callee_of(chars, ast, call).0 + " function expects "@ + digits(
                        expected as nat,
                    ) + " arguments, but it got only "@ + digits(got as nat) + ":"@,
                ),
                PartModel::Excerpt(shift(callee_of(chars, ast, call).1, origin), Mark::Underline),
                PartModel::Text(
                    "Roc does not allow functions to be partially applied. Use a closure to\nmake partial application explicit."@,
                ),
            ],
        },
        TypeError::TooManyArgs { call, expected, got } => DiagnosticModel {
            category: Category::TooManyArgs,
            parts: seq![
                PartModel::Text(
                    "The "@ + callee_of(chars, ast, call).0 + " function expects "@ + digits(
                        expected as nat,
                    ) + " arguments, but it got "@ + digits(got as nat) + " instead:"@,
                ),
                PartModel::Excerpt(shift(callee_of(chars, ast, call).1, origin), Mark::Underline),
                PartModel::Text("Are there any missing commas? Or missing parentheses?"@),
            ],
        },
        TypeError::Argument { call, index, at, actual, expected, whole } => DiagnosticModel {
            category: Category::TypeMismatch,
            parts: seq![
                PartModel::Text(
                    "The "@ + ordinal_text(index as nat) + " argument to "@ + callee_of(
                        chars,
                        ast,
                        call,
                    ).0 + " is not what I expect:"@,
                ),
                PartModel::Excerpt(shift(region_at(ast, at), origin), Mark::Underline),
                PartModel::Text("This argument is "@ + description(ast, at) + " of type:"@),
                PartModel::Items(seq![type_text_at(types, chars, actual)]),
                PartModel::Text(
                    "But "@ + callee_of(chars, ast, call).0 + " needs the "@ + ordinal_text(
                        index as nat,
                    ) + " argument to be:"@,
                ),
                PartModel::Items(seq![type_text_within(types, chars, expected, whole)]),
            ],
        },
        TypeError::Mismatch { at, actual, expected } => DiagnosticModel {
            category: Category::TypeMismatch,
            parts: seq![
                PartModel::Text("This expression is not what I expect:"@),
                PartModel::Excerpt(shift(region_at(ast, at), origin), Mark::Underline),
                PartModel::Text("It is "@ + description(ast, at) + " of type:"@),
                PartModel::Items(seq![type_text_at(types, chars, actual)]),
                PartModel::Text("But I need it to be:"@),
                PartModel::Items(seq![type_text_at(types, chars, expected)]),
            ],
        },
        TypeError::DuplicateName { name, first, second } => DiagnosticModel {
            category: Category::DuplicateName,
            parts: seq![
                PartModel::Text("The "@ + slice(chars, name) + " name is first defined here:"@),
                PartModel::Excerpt(shift(first, origin), Mark::Underline),
                PartModel::Text("But then it's defined a second time here:"@),
                PartModel::Excerpt(shift(second, origin), Mark::Underline),
                PartModel::Text(
                    "Since these variables have the same name, it's easy to use the wrong\none on accident. Give one of them a new name."@,
                ),
            ],
        },
        TypeError::UnsafePattern { when, subject } => DiagnosticModel {
            category: Category::UnsafePattern,
            parts: seq![
                PartModel::Text("This when does not cover all the possibilities:"@),
                PartModel::Excerpt(shift(region_at(ast, when), origin), Mark::Margin),
                PartModel::Text("Other possibilities include:"@),
                PartModel::Items(missing(chars, ast, types, subject, branches_of(ast, when))),
                PartModel::Text(
                    "I would have to crash if I saw one of those! Add branches for them!"@,
                ),
            ],
        },
        TypeError::Unbound { at } => DiagnosticModel {
            category: Category::UnrecognizedName,
            parts: seq![
                PartModel::Text("I cannot find a name that is used here:"@),
                PartModel::Excerpt(shift(region_at(ast, at), origin), Mark::Underline),
                PartModel::Text("Is there an import or a definition missing?"@),
            ],
        },
        TypeError::Malformed { at } => DiagnosticModel {
            category: Category::TypeMismatch,
            parts: seq![
                PartModel::Text("I cannot work out the type of this expression:"@),
                PartModel::Excerpt(shift(region_at(ast, at), origin), Mark::Underline),
            ],
        },
    }
}

/// One text in a list of items.
fn one_item(text: Vec<char>) -> (r: Part)
    ensures
        r@ == PartModel::Items(seq![text@]),
{
    let mut items: Vec<Vec<char>> = Vec::new();
    items.push(text);
    assert(lines_model(items@) =~= seq![text@]);
    Part::Items(items)
}

/// The diagnostic of a type error.
pub fn type_diagnostic(chars: &Vec<char>, ast: &Ast, types: &Types, e: TypeError, origin: usize) -> (r:
    Diagnostic)
    ensures
        r@ == type_diagnosis(chars@, ast@, types@, e, origin),
{
    let mut parts: Vec<Part> = Vec::new();
    let d = match e {
        TypeError::TooFewArgs { call, expected, got } => {
            let (name, region) = callee(chars, ast, call);
            let mut text = chars_of("The ");
            append(&mut text, &name);
            append_str(&mut text, " function expects ");
            append_digits(&mut text, expected as u128);
            append_str(&mut text, " arguments, but it got only ");
            append_digits(&mut text, got as u128);
            append_str(&mut text, ":");
            parts.push(Part::Text(text));
            parts.push(Part::Excerpt(shifted(region, origin), Mark::Underline));
            parts.push(
                paragraph(
                    "Roc does not allow functions to be partially applied. Use a closure to\nmake partial application explicit.",
                ),
            );
            diagnostic_of(Category::TooFewArgs, parts)
        },
        TypeError::TooManyArgs { call, expected, got } => {
            let (name, region) = callee(chars, ast, call);
            let mut text = chars_of("The ");
            append(&mut text, &name);
            append_str(&mut text, " function expects ");
            append_digits(&mut text, expected as u128);
            append_str(&mut text, " arguments, but it got ");
            append_digits(&mut text, got as u128);
            append_str(&mut text, " instead:");
            parts.push(Part::Text(text));
            parts.push(Part::Excerpt(shifted(region, origin), Mark::Underline));
            parts.push(paragraph("Are there any missing commas? Or missing parentheses?"));
            diagnostic_of(Category::TooManyArgs, parts)
        },
        TypeError::Argument { call, index, at, actual, expected, whole } => {
            let (name, _) = callee(chars, ast, call);
            let nth = ordinal(index);
            let mut text = chars_of("The ");
            append(&mut text, &nth);
            append_str(&mut text, " argument to ");
            append(&mut text, &name);
            append_str(&mut text, " is not what I expect:");
            parts.push(Part::Text(text));
            parts.push(Part::Excerpt(shifted(region_of_node(ast, at), origin), Mark::Underline));
            let mut this = chars_of("This argument is ");
            append_str(&mut this, described(ast, at));
            append_str(&mut this, " of type:");
            parts.push(Part::Text(this));
            parts.push(one_item(type_text_of(types, chars, actual)));
            let mut but = chars_of("But ");
            append(&mut but, &name);
            append_str(&mut but, " needs the ");
            append(&mut but, &nth);
            append_str(&mut but, " argument to be:");
            parts.push(Part::Text(but));
            parts.push(one_item(type_text_in(types, chars, expected, whole)));
            diagnostic_of(Category::TypeMismatch, parts)
        },
        TypeError::Mismatch { at, actual, expected } => {
            parts.push(paragraph("This expression is not what I expect:"));
            parts.push(Part::Excerpt(shifted(region_of_node(ast, at), origin), Mark::Underline));
            let mut this = chars_of("It is ");
            append_str(&mut this, described(ast, at));
            append_str(&mut this, " of type:");
            parts.push(Part::Text(this));
            parts.push(one_item(type_text_of(types, chars, actual)));
            parts.push(paragraph("But I need it to be:"));
            parts.push(one_item(type_text_of(types, chars, expected)));
            diagnostic_of(Category::TypeMismatch, parts)
        },
        TypeError::DuplicateName { name, first, second } => {
            let mut text = chars_of("The ");
            append(&mut text, &slice_of(chars, name));
            append_str(&mut text, " name is first defined here:");
            parts.push(Part::Text(text));
            parts.push(Part::Excerpt(shifted(first, origin), Mark::Underline));
            parts.push(paragraph("But then it's defined a second time here:"));
            parts.push(Part::Excerpt(shifted(second, origin), Mark::Underline));
            parts.push(
                paragraph(
                    "Since these variables have the same name, it's easy to use the wrong\none on accident. Give one of them a new name.",
                ),
            );
            diagnostic_of(Category::DuplicateName, parts)
        },
        TypeError::UnsafePattern { when, subject } => {
            let branches = match ast.node(when) {
                Some(n) => match n.kind {
                    Kind::When(_, branches) => ast.parts(branches),
                    _ => Vec::new(),
                },
                None => Vec::new(),
            };
            parts.push(paragraph("This when does not cover all the possibilities:"));
            parts.push(Part::Excerpt(shifted(region_of_node(ast, when), origin), Mark::Margin));
            parts.push(paragraph("Other possibilities include:"));
            let lacking = missing_variants(chars, ast, types, subject, &branches);
            assert(lines_model(lacking@) =~= texts(lacking@));
            parts.push(Part::Items(lacking));
            parts.push(
                paragraph("I would have to crash if I saw one of those! Add branches for them!"),
            );
            diagnostic_of(Category::UnsafePattern, parts)
        },
        TypeError::Unbound { at } => {
            parts.push(paragraph("I cannot find a name that is used here:"));
            parts.push(Part::Excerpt(shifted(region_of_node(ast, at), origin), Mark::Underline));
            parts.push(paragraph("Is there an import or a definition missing?"));
            diagnostic_of(Category::UnrecognizedName, parts)
        },
        TypeError::Malformed { at } => {
            parts.push(paragraph("I cannot work out the type of this expression:"));
            parts.push(Part::Excerpt(shifted(region_of_node(ast, at), origin), Mark::Underline));
            diagnostic_of(Category::TypeMismatch, parts)
        },
    };
    assert(d@.parts =~= type_diagnosis(chars@, ast@, types@, e, origin).parts);
    d
}

/// What an evaluation that came to no value is told as, and the node that
/// it is told of.
pub open spec fn crash_words(crash: Crash) -> (Seq<char>, usize) {
    match crash {
        Crash::Unbound(at) => ("A name that is used here is bound to nothing:"@, at),
        Crash::NotCallable(at) => ("What is called here cannot be called this way:"@, at),
        Crash::BadOperands(at) => ("This operation got values that it cannot work on:"@, at),
        Crash::NoBranch(at) => ("No branch matches the value that is matched here:"@, at),
        Crash::Overflow(at) => ("This operation left the range of its numbers:"@, at),
        Crash::TooDeep(at) => ("This evaluation went deeper than I can follow:"@, at),
    }
}

/// The diagnostic of an evaluation that came to no value.
pub open spec fn crash_diagnosis(ast: AstModel, crash: Crash, origin: usize) -> DiagnosticModel {
    DiagnosticModel {
        category: Category::Crash,
        parts: seq![
            PartModel::Text(crash_words(crash).0),
            PartModel::Excerpt(
                shift(region_at(ast, crash_words(crash).1), origin),
                Mark::Underline,
            ),
        ],
    }
}

/// The diagnostic of an evaluation that came to no value.
pub fn crash_diagnostic(ast: &Ast, crash: Crash, origin: usize) -> (r: Diagnostic)
    ensures
        r@ == crash_diagnosis(ast@, crash, origin),
{
    let (text, at) = match crash {
        Crash::Unbound(at) => ("A name that is used here is bound to nothing:", at),
        Crash::NotCallable(at) => ("What is called here cannot be called this way:", at),
        Crash::BadOperands(at) => ("This operation got values that it cannot work on:", at),
        Crash::NoBranch(at) => ("No branch matches the value that is matched here:", at),
        Crash::Overflow(at) => ("This operation left the range of its numbers:", at),
        Crash::TooDeep(at) => ("This evaluation went deeper than I can follow:", at),
    };
    let mut parts: Vec<Part> = Vec::new();
    parts.push(paragraph(text));
    parts.push(Part::Excerpt(shifted(region_of_node(ast, at), origin), Mark::Underline));
    let d = diagnostic_of(Category::Crash, parts);
    assert(d@.parts =~= crash_diagnosis(ast@, crash, origin).parts);
    d
}

/// The text of the type of a literal that nothing constrains, by the form
/// of the literal.
pub open spec fn literal_type_text(kind: Kind) -> Seq<char> {
    match kind {
        Kind::Int(_) => "Int *"@,
        Kind::Frac(_) => "Float *"@,
        _ => "Num *"@,
    }
}

/// The text of a named type that is applied to one variable which stands
/// nowhere else.
proof fn lemma_open_type_text(t: TypesModel, chars: Seq<char>, name: Name, text: Seq<char>, ty: usize, v: usize, span: Span)
    requires
        t.node_at(ty) == Some(TyNode::Apply(name, span)),
        t.node_at(v) == Some(TyNode::Var),
        t.parts(span) == seq![v],
        name_text(chars, name) == text,
        text == "Int"@ || text == "Float"@ || text == "Num"@,
    ensures
        type_text_at(t, chars, ty) == text + " *"@,
{
    reveal_strlit("Int");
    reveal_strlit("Float");
    reveal_strlit("Num");
    reveal_strlit("Integer");
    reveal_strlit("FloatingPoint");
    reveal_strlit(" *");
    reveal_strlit(" ");
    reveal_with_fuel(TypesModel::resolved, 2);
    reveal_with_fuel(exported, 3);
    reveal_with_fuel(exported_all, 3);
    reveal_with_fuel(occurrences, 3);
    reveal_with_fuel(occurrences_all, 3);
    reveal_with_fuel(lettered, 3);
    reveal_with_fuel(rendered_type, 3);
    reveal_with_fuel(rendered_arguments, 3);
    reveal_with_fuel(position, 2);
    assert(t.resolved(ty, FUEL as nat) == ty);
    assert(t.resolved(v, (FUEL - 1) as nat) == v);
    assert(exported(t, chars, v, (FUEL - 1) as nat) == Some(TypeModel::Var(v)));
    let parts = seq![v];
    assert(exported_all(t, chars, parts, 1, (FUEL - 1) as nat) == Some(Seq::<TypeModel>::empty()));
    assert(exported_all(t, chars, parts, 0, (FUEL - 1) as nat) == Some(
        seq![TypeModel::Var(v)] + Seq::<TypeModel>::empty(),
    ));
    let args = seq![TypeModel::Var(v)];
    assert(seq![TypeModel::Var(v)] + Seq::<TypeModel>::empty() =~= args);
    let tree = TypeModel::Apply(text, args);
    assert(exported(t, chars, ty, FUEL as nat) == Some(tree));
    assert(occurrences_all(args, 1) =~= Seq::<usize>::empty());
    assert(occurrences(args[0]) =~= seq![v]);
    assert(occurrences_all(args, 0) =~= seq![v]);
    let places = occurrences(tree);
    assert(places =~= seq![v]);
    assert(places.subrange(1, 1) =~= Seq::<usize>::empty());
    assert(!places.subrange(1, places.len() as int).contains(v));
    let letters = lettered(places, places.len() as int);
    assert(letters =~= Seq::<usize>::empty());
    assert(crate::types::number_name(tree) is None);
    assert(rendered_arguments(args, 1, letters) =~= Seq::<char>::empty());
    assert(crate::types::var_name(v, letters) =~= seq!['*']);
    assert(!crate::types::is_compound(args[0]));
    assert(rendered_type(args[0], letters) =~= seq!['*']);
    assert(rendered_arguments(args, 0, letters) =~= " *"@);
    assert(rendered_type(tree, letters) =~= text + " *"@);
}

/// A numeric literal that nothing constrains has an open type by its
/// form: a numeral without a point is a `Num *`, a hexadecimal numeral an
/// `Int *`, a numeral with a point a `Float *`.
pub proof fn lemma_literal_types(
    chars: Seq<char>,
    ast: AstModel,
    st: InferModel,
    node: usize,
    fuel: nat,
)
    requires
        fuel > 0,
        ast.node_at(node) matches Some(n) && (n.kind is Num || n.kind is Int || n.kind is Frac),
        st.types.nodes.len() + 2 <= usize::MAX,
        st.types.links.len() + 1 <= usize::MAX,
    ensures
        inferred(chars, ast, st, node, fuel).1 matches Ok(ty) && type_text_at(
            inferred(chars, ast, st, node, fuel).0.types,
            chars,
            ty,
        ) == literal_type_text(ast.node_at(node).unwrap().kind),
{
    reveal_strlit("Int");
    reveal_strlit("Float");
    reveal_strlit("Num");
    reveal_strlit(" *");
    reveal_strlit("Int *");
    reveal_strlit("Float *");
    reveal_strlit("Num *");
    let kind = ast.node_at(node).unwrap().kind;
    let name = match kind {
        Kind::Int(_) => Name::Int,
        Kind::Frac(_) => Name::Float,
        _ => Name::Num,
    };
    let (s, r) = inferred(chars, ast, st, node, fuel);
    let v = st.types.nodes.len() as usize;
    let ty = (st.types.nodes.len() + 1) as usize;
    let span = Span {
        start: st.types.links.len() as usize,
        end: (st.types.links.len() + 1) as usize,
    };
    assert(r == Ok::<usize, TypeError>(ty));
    assert(s.types.node_at(ty) == Some(TyNode::Apply(name, span)));
    assert(s.types.node_at(v) == Some(TyNode::Var));
    assert(s.types.parts(span) =~= seq![v]);
    lemma_open_type_text(s.types, chars, name, name_text(chars, name), ty, v, span);
    assert("Int"@ + " *"@ =~= "Int *"@);
    assert("Float"@ + " *"@ =~= "Float *"@);
    assert("Num"@ + " *"@ =~= "Num *"@);
}

} // verus!
