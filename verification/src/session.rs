//! The pipeline: from the text of a submission to the text of its answer.

use vstd::prelude::*;
use crate::diagnostic::{draw, drawn, lines_model, Diagnostic, DiagnosticModel};
use crate::eval::{eval, evaluated, EVAL_FUEL};
use crate::infer::{infer, infer_decls, inferred, inferred_decls, Infer, InferModel};
use crate::lexer::{is_blank, tokenize, tokens_of, Token};
use crate::parser::{parse_program, parsed_program, ProgramModel};
use crate::reconstruct::through_memory;
use crate::report::{
    crash_diagnosis, crash_diagnostic, syntax_diagnosis, syntax_diagnostic, type_diagnosis,
    type_diagnostic, type_text_at, type_text_of,
};
use crate::show::{show, shown, SHOW_FUEL};
use crate::solve::{Types, TypesModel, FUEL};
use crate::syntax::{Ast, AstModel, Kind};
use crate::text::{append, append_str, chars_of, copy, text_of};
use crate::value::{render, rendered};
use crate::values::{ValNode, Values, ValuesModel};

verus! {

/// What follows a diagnostic at a prompt.
pub const REPROMPT: &'static str = "Enter an expression, or :help, or :exit/:q.";

/// The declarations that the language brings: its named types and the
/// types of its functions.
pub const PRELUDE: &'static str = "Int a : Num (Integer a)
Float a : Num (FloatingPoint a)
I8 : Int Signed8
I16 : Int Signed16
I32 : Int Signed32
I64 : Int Signed64
U8 : Int Unsigned8
U16 : Int Unsigned16
U32 : Int Unsigned32
U64 : Int Unsigned64
Nat : Int Natural
F32 : Float Binary32
F64 : Float Binary64
Bool : [ False, True ]
Result ok err : [ Err err, Ok ok ]
Num.add : Num a, Num a -> Num a
Num.sub : Num a, Num a -> Num a
Num.mul : Num a, Num a -> Num a
Num.abs : Num a -> Num a
Num.rem : Int a, Int a -> Result (Int a) [ DivByZero ]*
Num.divFloor : Int a, Int a -> Result (Int a) [ DivByZero ]*
Num.divCeil : Int a, Int a -> Result (Int a) [ DivByZero ]*
Num.addWrap : Int a, Int a -> Int a
Num.subWrap : Int a, Int a -> Int a
Num.mulWrap : Int a, Int a -> Int a
Num.addChecked : Num a, Num a -> Result (Num a) [ Overflow ]*
Num.subChecked : Num a, Num a -> Result (Num a) [ Overflow ]*
Num.mulChecked : Num a, Num a -> Result (Num a) [ Overflow ]*
Num.bitwiseAnd : Int a, Int a -> Int a
Num.bitwiseXor : Int a, Int a -> Int a
Num.maxI64 : I64
Num.minI64 : I64
Bool.isEq : a, a -> Bool
Bool.isNotEq : a, a -> Bool
Str.concat : Str, Str -> Str
Str.countGraphemes : Str -> Nat
Str.toI8 : Str -> Result I8 [ InvalidNumStr ]*
Str.toI16 : Str -> Result I16 [ InvalidNumStr ]*
List.concat : List a, List a -> List a
List.contains : List a, a -> Bool
List.sum : List (Num a) -> Num a
List.first : List a -> Result a [ ListWasEmpty ]*
List.last : List a -> Result a [ ListWasEmpty ]*
{}";

/// What a session keeps from one submission to the next: the text of the
/// declarations and definitions that were submitted. A session holds no
/// more than a submission may have tokens: what would make it longer is
/// answered as too long and is not kept.
#[derive(Debug, PartialEq, Eq)]
pub struct Session {
    pub definitions: Vec<char>,
}

impl View for Session {
    type V = Seq<char>;

    open spec fn view(&self) -> Seq<char> {
        self.definitions@
    }
}

impl Session {
    /// A session in which nothing was submitted yet.
    pub fn new() -> (r: Session)
        ensures
            r@ == Seq::<char>::empty(),
    {
        let r = Session { definitions: Vec::new() };
        assert(r@ =~= Seq::<char>::empty());
        r
    }
}

/// How a submission ended.
#[derive(Clone, Copy, Debug, PartialEq, Eq, Structural)]
pub enum Ending {
    /// The expression has a value: the answer is the value and its type.
    Value,
    /// A stage before evaluation refused the submission: the answer is its
    /// report, and the session goes on as it was.
    Report,
    /// Evaluation crashed: the answer tells where, and nothing can be
    /// submitted after it.
    Crash,
}

/// What a submission is answered with: how it ended, the text to print,
/// and the session as it is afterwards.
#[derive(Debug, PartialEq, Eq)]
pub struct Answer {
    pub session: Session,
    pub ending: Ending,
    pub text: String,
}

/// An answer as contracts see it: the definitions that the session holds
/// afterwards, how the submission ended, and the text.
pub struct AnswerModel {
    pub definitions: Seq<char>,
    pub ending: Ending,
    pub text: Seq<char>,
}

impl View for Answer {
    type V = AnswerModel;

    open spec fn view(&self) -> AnswerModel {
        AnswerModel { definitions: self.session@, ending: self.ending, text: self.text@ }
    }
}

/// How far the lines of a text are read: the lines that are shown so far,
/// the line that is being read, whether it holds blanks only, and its number.
pub struct Scan {
    pub lines: Seq<Seq<char>>,
    pub current: Seq<char>,
    pub blank: bool,
    pub line: nat,
}

/// The reading after one more character. A line from `origin` on is shown
/// indented by four spaces, and empty where it holds blanks only.
pub open spec fn step(st: Scan, c: char, origin: nat) -> Scan {
    if c == '\n' {
        Scan {
            lines: if st.line >= origin {
                st.lines.push(
                    if st.blank {
                        Seq::empty()
                    } else {
                        st.current
                    },
                )
            } else {
                st.lines
            },
            current: Seq::empty(),
            blank: true,
            line: st.line + 1,
        }
    } else {
        Scan {
            lines: st.lines,
            current: (if st.current.len() == 0 {
                "    "@
            } else {
                st.current
            }).push(c),
            blank: st.blank && is_blank(c),
            line: st.line,
        }
    }
}

/// The reading after the characters from index `i` on.
pub open spec fn scanned(chars: Seq<char>, i: int, st: Scan, origin: nat) -> Scan
    decreases chars.len() - i,
{
    if 0 <= i < chars.len() {
        scanned(chars, i + 1, step(st, chars[i], origin), origin)
    } else {
        st
    }
}

/// The three lines of the program that a submission stands in.
pub open spec fn header() -> Seq<Seq<char>> {
    seq!["app \"app\" provides [ replOutput ] to \"./platform\""@, Seq::empty(), "replOutput ="@]
}

/// The lines of the program as the report shows them: the header, and
/// under it the lines of the text from the line `origin` on.
pub open spec fn program_lines(chars: Seq<char>, origin: nat) -> Seq<Seq<char>> {
    let end = scanned(
        chars,
        0,
        Scan { lines: header(), current: Seq::empty(), blank: true, line: 0 },
        origin,
    );
    if end.line >= origin && !end.blank {
        end.lines.push(end.current)
    } else {
        end.lines
    }
}

/// The lines of the program as the report shows them.
pub fn shown_lines(chars: &Vec<char>, origin: usize) -> (r: Vec<Vec<char>>)
    ensures
        lines_model(r@) == program_lines(chars@, origin as nat),
{
    let mut lines: Vec<Vec<char>> = Vec::new();
    lines.push(chars_of("app \"app\" provides [ replOutput ] to \"./platform\""));
    lines.push(Vec::new());
    lines.push(chars_of("replOutput ="));
    assert(lines_model(lines@) =~= header());
    let mut line: usize = 0;
    let mut current: Vec<char> = Vec::new();
    let mut blank = true;
    let mut i: usize = 0;
    let ghost start = Scan { lines: header(), current: Seq::empty(), blank: true, line: 0 };
    while i < chars.len()
        invariant
            i <= chars@.len(),
            line <= i,
            scanned(chars@, 0, start, origin as nat) == scanned(
                chars@,
                i as int,
                Scan {
                    lines: lines_model(lines@),
                    current: current@,
                    blank,
                    line: line as nat,
                },
                origin as nat,
            ),
        decreases chars.len() - i,
    {
        let c = chars[i];
        let ghost before = lines_model(lines@);
        if c == '\n' {
            if line >= origin {
                if blank {
                    lines.push(Vec::new());
                    assert(lines_model(lines@) =~= before.push(Seq::empty()));
                } else {
                    let ghost text = current@;
                    lines.push(current);
                    assert(lines_model(lines@) =~= before.push(text));
                }
            }
            current = Vec::new();
            blank = true;
            line = line + 1;
        } else {
            if blank && c != ' ' && c != '\t' && c != '\r' {
                blank = false;
            }
            if current.len() == 0 {
                append_str(&mut current, "    ");
                assert(current@ =~= "    "@);
            }
            current.push(c);
        }
        i = i + 1;
    }
    if line >= origin && !blank {
        let ghost before = lines_model(lines@);
        let ghost text = current@;
        lines.push(current);
        assert(lines_model(lines@) =~= before.push(text));
    }
    lines
}

/// Whether the first `i` characters of a text end in a line of blanks
/// after a newline; `blanks` tells whether a blank was met on the way back.
pub open spec fn trailing_blank(text: Seq<char>, i: int, blanks: bool) -> bool
    decreases i,
{
    if i <= 0 || i > text.len() {
        false
    } else if text[i - 1] == '\n' {
        blanks
    } else if !is_blank(text[i - 1]) {
        false
    } else {
        trailing_blank(text, i - 1, true)
    }
}

/// Whether a text ends in a line of blanks after its last newline: the
/// mark of a submission that was typed at a prompt.
pub open spec fn typed_at_prompt(text: Seq<char>) -> bool {
    trailing_blank(text, text.len() as int, false)
}

/// Whether a text ends in a line of blanks after its last newline.
pub fn ends_blank(text: &Vec<char>) -> (r: bool)
    ensures
        r == typed_at_prompt(text@),
{
    let mut i: usize = text.len();
    let mut blanks = false;
    while i > 0
        invariant
            i <= text@.len(),
            typed_at_prompt(text@) == trailing_blank(text@, i as int, blanks),
        decreases i,
    {
        let c = text[i - 1];
        if c == '\n' {
            return blanks;
        }
        if c != ' ' && c != '\t' && c != '\r' {
            return false;
        }
        blanks = true;
        i = i - 1;
    }
    false
}

/// The number of newlines among the first `n` characters of a text, as far
/// as the text reaches.
pub open spec fn newlines(chars: Seq<char>, n: int) -> nat
    decreases n,
{
    if n <= 0 {
        0
    } else if n > chars.len() {
        newlines(chars, chars.len() as int)
    } else {
        newlines(chars, n - 1) + if chars[n - 1] == '\n' {
            1nat
        } else {
            0nat
        }
    }
}

/// The line of the first token from index `i` on that begins at or after
/// the character `mark`; the line of `mark` itself where there is none.
pub open spec fn origin_line(chars: Seq<char>, tokens: Seq<Token>, mark: usize, i: int) -> usize
    decreases tokens.len() - i,
{
    if 0 <= i < tokens.len() {
        if tokens[i].start >= mark {
            tokens[i].line
        } else {
            origin_line(chars, tokens, mark, i + 1)
        }
    } else if newlines(chars, mark as int) <= usize::MAX {
        newlines(chars, mark as int) as usize
    } else {
        0
    }
}

/// The line of the first token that begins at or after the character
/// `mark`, or of `mark` itself.
pub fn origin_of(chars: &Vec<char>, tokens: &Vec<Token>, mark: usize) -> (r: usize)
    ensures
        r == origin_line(chars@, tokens@, mark, 0),
{
    let mut i: usize = 0;
    while i < tokens.len()
        invariant
            i <= tokens@.len(),
            origin_line(chars@, tokens@, mark, 0) == origin_line(chars@, tokens@, mark, i as int),
        decreases tokens.len() - i,
    {
        if tokens[i].start >= mark {
            return tokens[i].line;
        }
        i = i + 1;
    }
    let stop = if mark <= chars.len() {
        mark
    } else {
        chars.len()
    };
    let mut count: usize = 0;
    let mut n: usize = 0;
    while n < stop
        invariant
            n <= stop <= chars@.len(),
            count == newlines(chars@, n as int),
            count <= n,
        decreases stop - n,
    {
        if chars[n] == '\n' {
            count = count + 1;
        }
        n = n + 1;
    }
    assert(newlines(chars@, mark as int) == newlines(chars@, stop as int)) by {
        reveal_with_fuel(newlines, 2);
    }
    count
}

/// The text of a diagnostic over the program, with the re-prompt after it
/// where the submission was typed at a prompt.
pub open spec fn reply(chars: Seq<char>, written: Seq<char>, d: DiagnosticModel, origin: usize) -> Seq<
    char,
> {
    drawn(program_lines(chars, origin as nat), d) + if typed_at_prompt(written) {
        "\n\n"@ + REPROMPT@
    } else {
        Seq::empty()
    }
}

/// Renders a diagnostic over the program, with the re-prompt after it
/// where the submission was typed at a prompt.
pub fn reported(chars: &Vec<char>, written: &Vec<char>, d: &Diagnostic, origin: usize) -> (r: Vec<
    char,
>)
    ensures
        r@ == reply(chars@, written@, d@, origin),
{
    let lines = shown_lines(chars, origin);
    let mut out = draw(&lines, d);
    if ends_blank(written) {
        let ghost before = out@;
        append_str(&mut out, "\n\n");
        append_str(&mut out, REPROMPT);
        assert(out@ =~= before + ("\n\n"@ + REPROMPT@));
    } else {
        assert(out@ + Seq::<char>::empty() =~= out@);
    }
    out
}

/// The character at which the definitions and the submission begin in the
/// text of the program.
pub open spec fn mark_of(prelude: Seq<char>) -> usize {
    if prelude.len() + 1 <= usize::MAX {
        (prelude.len() + 1) as usize
    } else {
        0
    }
}

/// The declarations of the block at `root`.
pub open spec fn items_of(ast: AstModel, root: usize) -> Seq<usize> {
    match ast.node_at(root) {
        Some(n) => match n.kind {
            Kind::Block(items, _) => ast.parts(items),
            _ => Seq::empty(),
        },
        None => Seq::empty(),
    }
}

/// The state of inference before anything is declared.
pub open spec fn blank_state() -> InferModel {
    InferModel {
        types: TypesModel { nodes: Seq::empty(), links: Seq::empty() },
        env: Seq::empty(),
        aliases: Seq::empty(),
        declared: Seq::empty(),
    }
}

/// The text of the value at `v`; a question mark for what cannot be shown.
pub open spec fn value_text(vals: ValuesModel, v: usize) -> Seq<char> {
    match shown(vals, v, SHOW_FUEL as nat) {
        Some(m) => rendered(m),
        None => "?"@,
    }
}

/// The text of the declarations and definitions of a program: what stands
/// between the prelude and the expression.
pub open spec fn kept(program: ProgramModel, prelude: Seq<char>) -> Seq<char> {
    if program.body < program.source.tokens.len() {
        let start = prelude.len() as int + 1;
        let stop = program.source.tokens[program.body as int].start as int;
        if start <= stop <= program.source.chars.len() {
            program.source.chars.subrange(start, stop)
        } else {
            Seq::empty()
        }
    } else {
        Seq::empty()
    }
}

/// The answer to a submission in a session that holds `definitions`. The
/// submission is parsed after the prelude and the definitions, its type is
/// inferred, it is evaluated, and the value is printed with the type. A
/// stage before evaluation that fails answers with its report instead, and
/// the session stays as it was. An evaluation that crashes ends the
/// session: its answer tells where it crashed, and no prompt follows. A
/// report numbers the lines of the definitions and the submission from the
/// first line that holds a token.
pub open spec fn answered(definitions: Seq<char>, source: Seq<char>) -> AnswerModel {
    let prelude = PRELUDE@;
    let text = definitions + source;
    let mark = mark_of(prelude);
    match parsed_program(prelude, text) {
        Err(e) => {
            let chars = prelude + seq!['\n'] + text;
            let tokens = match tokens_of(chars) {
                Some(tokens) => tokens,
                None => Seq::empty(),
            };
            let origin = origin_line(chars, tokens, mark, 0);
            AnswerModel {
                definitions,
                ending: Ending::Report,
                text: reply(chars, source, syntax_diagnosis(tokens, e, origin), origin),
            }
        },
        Ok(program) => {
            let chars = program.source.chars;
            let ast = program.ast;
            let origin = origin_line(chars, program.source.tokens, mark, 0);
            let (s1, r1) = inferred_decls(
                chars,
                ast,
                blank_state(),
                items_of(ast, program.prelude),
                0,
                true,
                FUEL as nat,
            );
            match r1 {
                Err(e) => AnswerModel {
                    definitions,
                    ending: Ending::Report,
                    text: reply(
                        chars,
                        source,
                        type_diagnosis(chars, ast, s1.types, e, origin),
                        origin,
                    ),
                },
                Ok(_) => {
                    let (s2, r2) = inferred(chars, ast, s1, program.root, FUEL as nat);
                    match r2 {
                        Err(e) => AnswerModel {
                            definitions,
                            ending: Ending::Report,
                            text: reply(
                                chars,
                                source,
                                type_diagnosis(chars, ast, s2.types, e, origin),
                                origin,
                            ),
                        },
                        Ok(ty) => {
                            let empty = ValuesModel {
                                nodes: Seq::empty(),
                                links: Seq::empty(),
                                chars: Seq::empty(),
                            };
                            let (v0, scope) = empty.with_node(ValNode::Empty);
                            let (v1, r3) = evaluated(
                                chars,
                                ast,
                                v0,
                                scope,
                                program.root,
                                EVAL_FUEL as nat,
                            );
                            match r3 {
                                Err(crash) => AnswerModel {
                                    definitions,
                                    ending: Ending::Crash,
                                    text: drawn(
                                        program_lines(chars, origin as nat),
                                        crash_diagnosis(ast, crash, origin),
                                    ),
                                },
                                Ok(value) => AnswerModel {
                                    definitions: kept(program, prelude),
                                    ending: Ending::Value,
                                    text: value_text(v1, value) + " : "@ + type_text_at(
                                        s2.types,
                                        chars,
                                        ty,
                                    ),
                                },
                            }
                        },
                    }
                },
            }
        },
    }
}

/// Only a submission that is answered with a value changes what the session
/// holds: after a report, and after a crash, the definitions are what they
/// were.
pub proof fn lemma_session_stays(definitions: Seq<char>, source: Seq<char>)
    ensures
        answered(definitions, source).ending != Ending::Value ==> answered(
            definitions,
            source,
        ).definitions == definitions,
{
}

/// Answers one submission: the value and the type of its expression, or
/// the report of what is wrong with it, or the place at which evaluation
/// crashed. The declarations and definitions of a submission that was
/// answered with a value stay in the session. After a crash the caller
/// ends the session: the answer says so in its ending.
///
/// The value is laid out in memory under the layouts that are planned for
/// its type, and printed as it is rebuilt from there; what is rebuilt is
/// the value as it is shown. A value that cannot be laid out is printed as
/// it is shown.
#[verifier::rlimit(60)]
pub fn submit(session: &Session, source: &str) -> (r: Answer)
    ensures
        r@ == answered(session@, source@),
{
    let prelude = chars_of(PRELUDE);
    let mut text = copy(&session.definitions);
    let written = chars_of(source);
    append(&mut text, &written);
    let mark: usize = if prelude.len() < usize::MAX {
        prelude.len() + 1
    } else {
        0
    };
    let same = Session { definitions: copy(&session.definitions) };
    let program = match parse_program(&prelude, &text) {
        Ok(program) => program,
        Err(e) => {
            let mut chars = copy(&prelude);
            chars.push('\n');
            append(&mut chars, &text);
            assert(chars@ =~= prelude@ + seq!['\n'] + text@);
            let tokens = match tokenize(&chars) {
                Some(tokens) => tokens,
                None => Vec::new(),
            };
            let origin = origin_of(&chars, &tokens, mark);
            let d = syntax_diagnostic(&tokens, e, origin);
            return Answer {
                session: same,
                ending: Ending::Report,
                text: text_of(&reported(&chars, &written, &d, origin)),
            };
        },
    };
    let chars = &program.source.chars;
    let ast = &program.ast;
    let origin = origin_of(chars, &program.source.tokens, mark);
    let mut st = Infer {
        types: Types::new(),
        env: Vec::new(),
        aliases: Vec::new(),
        declared: Vec::new(),
    };
    assert(st@ == blank_state());
    let builtin = match ast.node(program.prelude) {
        Some(n) => match n.kind {
            Kind::Block(items, _) => ast.parts(items),
            _ => Vec::new(),
        },
        None => Vec::new(),
    };
    match infer_decls(chars, ast, &mut st, &builtin, 0, true, FUEL) {
        Ok(_) => {},
        Err(e) => {
            let d = type_diagnostic(chars, ast, &st.types, e, origin);
            return Answer {
                session: same,
                ending: Ending::Report,
                text: text_of(&reported(chars, &written, &d, origin)),
            };
        },
    }
    let ty = match infer(chars, ast, &mut st, program.root, FUEL) {
        Ok(ty) => ty,
        Err(e) => {
            let d = type_diagnostic(chars, ast, &st.types, e, origin);
            return Answer {
                session: same,
                ending: Ending::Report,
                text: text_of(&reported(chars, &written, &d, origin)),
            };
        },
    };
    let type_text = type_text_of(&st.types, chars, ty);
    let mut vals = Values::new();
    let scope = vals.add(ValNode::Empty);
    let value = match eval(chars, ast, &mut vals, scope, program.root, EVAL_FUEL) {
        Ok(value) => value,
        Err(crash) => {
            let d = crash_diagnostic(ast, crash, origin);
            let lines = shown_lines(chars, origin);
            return Answer {
                session: same,
                ending: Ending::Crash,
                text: text_of(&draw(&lines, &d)),
            };
        },
    };
    let mut out = match show(&vals, value, SHOW_FUEL) {
        Some(direct) => {
            match through_memory(&st.types, chars, &st.aliases, ty, &vals, value, SHOW_FUEL) {
                Some(rebuilt) => render(&rebuilt),
                None => render(&direct),
            }
        },
        None => chars_of("?"),
    };
    append_str(&mut out, " : ");
    append(&mut out, &type_text);
    let mut definitions: Vec<char> = Vec::new();
    if program.body < program.source.tokens.len() {
        let stop = program.source.tokens[program.body].start;
        if prelude.len() < usize::MAX && prelude.len() + 1 <= stop && stop <= chars.len() {
            let start: usize = prelude.len() + 1;
            let mut i: usize = start;
            while i < stop
                invariant
                    start <= i <= stop <= chars@.len(),
                    definitions@ =~= chars@.subrange(start as int, i as int),
                decreases stop - i,
            {
                definitions.push(chars[i]);
                i = i + 1;
            }
        }
    }
    assert(definitions@ =~= kept(program@, prelude@));
    Answer { session: Session { definitions }, ending: Ending::Value, text: text_of(&out) }
}

} // verus!
