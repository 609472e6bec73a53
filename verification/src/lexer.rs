//! The lexer: source text to tokens, each with its place.

use vstd::prelude::*;

verus! {

/// The kinds of tokens.
#[derive(Clone, Copy, Debug, PartialEq, Eq, Structural)]
pub enum TokenKind {
    /// A name that begins with a lower-case letter; it may be qualified by a module.
    Lower,
    /// A name that begins with an upper-case letter.
    Upper,
    /// A decimal numeral without a point.
    Number,
    /// A hexadecimal numeral.
    Hex,
    /// A decimal numeral with a point.
    Fraction,
    /// A string literal, quotes included.
    Text,
    Open,
    Close,
    OpenSquare,
    CloseSquare,
    OpenCurly,
    CloseCurly,
    Comma,
    Colon,
    Equals,
    Arrow,
    Backslash,
    Plus,
    Minus,
    Star,
    Percent,
    EqualsEquals,
    NotEquals,
    Underscore,
}

/// A token: the characters of the source from `start` up to `end`.
#[derive(Clone, Copy, Debug, PartialEq, Eq, Structural)]
pub struct Token {
    pub kind: TokenKind,
    pub start: usize,
    pub end: usize,
    /// The line of the token, counted from zero.
    pub line: usize,
    /// The column of the token's first character, counted from zero.
    pub column: usize,
    /// Whether the token is the first one of its line.
    pub leads: bool,
}

/// Whether `c` is a lower-case letter.
pub open spec fn is_lower(c: char) -> bool {
    'a' <= c <= 'z'
}

/// Whether `c` is an upper-case letter.
pub open spec fn is_upper(c: char) -> bool {
    'A' <= c <= 'Z'
}

/// Whether `c` is a decimal digit.
pub open spec fn is_digit(c: char) -> bool {
    '0' <= c <= '9'
}

/// Whether `c` is a hexadecimal digit.
pub open spec fn is_hex_digit(c: char) -> bool {
    is_digit(c) || 'a' <= c <= 'f' || 'A' <= c <= 'F'
}

/// Whether `c` may stand inside a name.
pub open spec fn is_name_char(c: char) -> bool {
    is_lower(c) || is_upper(c) || is_digit(c)
}

/// The classes of characters that a run is made of.
#[derive(Clone, Copy, Debug, PartialEq, Eq, Structural)]
pub enum Class {
    Name,
    Digit,
    HexDigit,
}

/// Whether `c` belongs to the class.
pub open spec fn in_class(class: Class, c: char) -> bool {
    match class {
        Class::Name => is_name_char(c),
        Class::Digit => is_digit(c),
        Class::HexDigit => is_hex_digit(c),
    }
}

/// The end of the run of characters of one class that begins at `pos`: the
/// first index from `pos` on whose character is not of the class.
pub open spec fn run_end(src: Seq<char>, pos: int, class: Class) -> int
    decreases src.len() - pos,
{
    if 0 <= pos < src.len() && in_class(class, src[pos]) {
        run_end(src, pos + 1, class)
    } else {
        pos
    }
}

/// The index after the quote that closes the string whose contents begin at
/// `pos`; a character after a backslash does not close it.
pub open spec fn text_end(src: Seq<char>, pos: int) -> Option<int>
    decreases src.len() - pos,
{
    if pos < 0 || pos >= src.len() || src[pos] == '\n' {
        None
    } else if src[pos] == '"' {
        Some(pos + 1)
    } else if src[pos] == '\\' && pos + 1 < src.len() {
        text_end(src, pos + 2)
    } else {
        text_end(src, pos + 1)
    }
}

/// Whether the character at `pos` is `c`.
pub open spec fn at(src: Seq<char>, pos: int, c: char) -> bool {
    0 <= pos < src.len() && src[pos] == c
}

/// The token that begins at `pos`, by its kind and its end.
pub open spec fn token_at(src: Seq<char>, pos: int) -> Option<(TokenKind, int)>
    recommends
        0 <= pos < src.len(),
{
    let c = src[pos];
    if is_lower(c) {
        Some((TokenKind::Lower, run_end(src, pos, Class::Name)))
    } else if is_upper(c) {
        let end = run_end(src, pos, Class::Name);
        if at(src, end, '.') && end + 1 < src.len() && is_lower(src[end + 1]) {
            Some((TokenKind::Lower, run_end(src, end + 1, Class::Name)))
        } else {
            Some((TokenKind::Upper, end))
        }
    } else if is_digit(c) {
        if c == '0' && at(src, pos + 1, 'x') {
            let end = run_end(src, pos + 2, Class::HexDigit);
            if end > pos + 2 {
                Some((TokenKind::Hex, end))
            } else {
                None
            }
        } else {
            let end = run_end(src, pos, Class::Digit);
            if at(src, end, '.') && end + 1 < src.len() && is_digit(src[end + 1]) {
                Some((TokenKind::Fraction, run_end(src, end + 1, Class::Digit)))
            } else {
                Some((TokenKind::Number, end))
            }
        }
    } else if c == '"' {
        match text_end(src, pos + 1) {
            Some(end) => Some((TokenKind::Text, end)),
            None => None,
        }
    } else if c == '(' {
        Some((TokenKind::Open, pos + 1))
    } else if c == ')' {
        Some((TokenKind::Close, pos + 1))
    } else if c == '[' {
        Some((TokenKind::OpenSquare, pos + 1))
    } else if c == ']' {
        Some((TokenKind::CloseSquare, pos + 1))
    } else if c == '{' {
        Some((TokenKind::OpenCurly, pos + 1))
    } else if c == '}' {
        Some((TokenKind::CloseCurly, pos + 1))
    } else if c == ',' {
        Some((TokenKind::Comma, pos + 1))
    } else if c == ':' {
        Some((TokenKind::Colon, pos + 1))
    } else if c == '=' {
        if at(src, pos + 1, '=') {
            Some((TokenKind::EqualsEquals, pos + 2))
        } else {
            Some((TokenKind::Equals, pos + 1))
        }
    } else if c == '!' {
        if at(src, pos + 1, '=') {
            Some((TokenKind::NotEquals, pos + 2))
        } else {
            None
        }
    } else if c == '-' {
        if at(src, pos + 1, '>') {
            Some((TokenKind::Arrow, pos + 2))
        } else {
            Some((TokenKind::Minus, pos + 1))
        }
    } else if c == '\\' {
        Some((TokenKind::Backslash, pos + 1))
    } else if c == '+' {
        Some((TokenKind::Plus, pos + 1))
    } else if c == '*' {
        Some((TokenKind::Star, pos + 1))
    } else if c == '%' {
        Some((TokenKind::Percent, pos + 1))
    } else if c == '_' {
        Some((TokenKind::Underscore, pos + 1))
    } else {
        None
    }
}

/// Whether `c` separates tokens without ending the line.
pub open spec fn is_blank(c: char) -> bool {
    c == ' ' || c == '\t' || c == '\r'
}

/// The tokens of the source from `pos` on, or `None` where a character
/// begins no token. `line` is the line of `pos`, `line_start` the index at
/// which that line begins, and `leads` whether no token came before `pos`
/// on the line.
pub open spec fn lexed(src: Seq<char>, pos: int, line: int, line_start: int, leads: bool) -> Option<
    Seq<Token>,
>
    decreases src.len() - pos,
{
    if pos < 0 || pos >= src.len() {
        Some(Seq::empty())
    } else if is_blank(src[pos]) {
        lexed(src, pos + 1, line, line_start, leads)
    } else if src[pos] == '\n' {
        lexed(src, pos + 1, line + 1, pos + 1, true)
    } else {
        match token_at(src, pos) {
            Some((kind, end)) => if pos < end <= src.len() {
                match lexed(src, end, line, line_start, false) {
                    Some(rest) => Some(
                        seq![
                            Token {
                                kind,
                                start: pos as usize,
                                end: end as usize,
                                line: line as usize,
                                column: (pos - line_start) as usize,
                                leads,
                            },
                        ] + rest,
                    ),
                    None => None,
                }
            } else {
                None
            },
            None => None,
        }
    }
}

/// The tokens of a source text.
pub open spec fn tokens_of(src: Seq<char>) -> Option<Seq<Token>> {
    lexed(src, 0, 0, 0, true)
}

/// Whether `c` is a lower-case letter.
fn lower(c: char) -> (r: bool)
    ensures
        r == is_lower(c),
{
    'a' <= c && c <= 'z'
}

/// Whether `c` is an upper-case letter.
fn upper(c: char) -> (r: bool)
    ensures
        r == is_upper(c),
{
    'A' <= c && c <= 'Z'
}

/// Whether `c` is a decimal digit.
fn digit(c: char) -> (r: bool)
    ensures
        r == is_digit(c),
{
    '0' <= c && c <= '9'
}

/// Whether `c` belongs to the class.
fn of_class(class: Class, c: char) -> (r: bool)
    ensures
        r == in_class(class, c),
{
    match class {
        Class::Name => lower(c) || upper(c) || digit(c),
        Class::Digit => digit(c),
        Class::HexDigit => digit(c) || ('a' <= c && c <= 'f') || ('A' <= c && c <= 'F'),
    }
}

/// The end of the run of characters of one class that begins at `pos`.
fn scan_run(src: &Vec<char>, pos: usize, class: Class) -> (r: usize)
    requires
        pos <= src@.len(),
    ensures
        r == run_end(src@, pos as int, class),
        pos <= r <= src@.len(),
{
    let mut i: usize = pos;
    while i < src.len() && of_class(class, src[i])
        invariant
            pos <= i <= src@.len(),
            run_end(src@, pos as int, class) == run_end(src@, i as int, class),
        decreases src.len() - i,
    {
        i = i + 1;
    }
    i
}

/// The index after the quote that closes the string whose contents begin at `pos`.
fn scan_text(src: &Vec<char>, pos: usize) -> (r: Option<usize>)
    requires
        pos <= src@.len(),
    ensures
        match r {
            Some(end) => text_end(src@, pos as int) == Some(end as int) && pos < end <= src@.len(),
            None => text_end(src@, pos as int) is None,
        },
{
    let mut i: usize = pos;
    loop
        invariant
            pos <= i <= src@.len(),
            text_end(src@, pos as int) == text_end(src@, i as int),
        decreases src.len() - i,
    {
        if i >= src.len() || src[i] == '\n' {
            return None;
        }
        if src[i] == '"' {
            return Some(i + 1);
        }
        if src[i] == '\\' && i + 1 < src.len() {
            i = i + 2;
        } else {
            i = i + 1;
        }
    }
}

/// Whether the character at `pos` is `c`.
fn is_at(src: &Vec<char>, pos: usize, c: char) -> (r: bool)
    ensures
        r == at(src@, pos as int, c),
{
    pos < src.len() && src[pos] == c
}

/// The token that begins at `pos`, by its kind and its end.
fn scan(src: &Vec<char>, pos: usize) -> (r: Option<(TokenKind, usize)>)
    requires
        pos < src@.len(),
    ensures
        match r {
            Some((kind, end)) => token_at(src@, pos as int) == Some((kind, end as int)) && end
                <= src@.len(),
            None => token_at(src@, pos as int) is None,
        },
{
    let len = src.len();
    let c = src[pos];
    if lower(c) {
        Some((TokenKind::Lower, scan_run(src, pos, Class::Name)))
    } else if upper(c) {
        let end = scan_run(src, pos, Class::Name);
        if is_at(src, end, '.') && end + 1 < src.len() && lower(src[end + 1]) {
            Some((TokenKind::Lower, scan_run(src, end + 1, Class::Name)))
        } else {
            Some((TokenKind::Upper, end))
        }
    } else if digit(c) {
        if c == '0' && is_at(src, pos + 1, 'x') {
            let end = scan_run(src, pos + 2, Class::HexDigit);
            if end > pos + 2 {
                Some((TokenKind::Hex, end))
            } else {
                None
            }
        } else {
            let end = scan_run(src, pos, Class::Digit);
            if is_at(src, end, '.') && end + 1 < src.len() && digit(src[end + 1]) {
                Some((TokenKind::Fraction, scan_run(src, end + 1, Class::Digit)))
            } else {
                Some((TokenKind::Number, end))
            }
        }
    } else if c == '"' {
        match scan_text(src, pos + 1) {
            Some(end) => Some((TokenKind::Text, end)),
            None => None,
        }
    } else if c == '(' {
        Some((TokenKind::Open, pos + 1))
    } else if c == ')' {
        Some((TokenKind::Close, pos + 1))
    } else if c == '[' {
        Some((TokenKind::OpenSquare, pos + 1))
    } else if c == ']' {
        Some((TokenKind::CloseSquare, pos + 1))
    } else if c == '{' {
        Some((TokenKind::OpenCurly, pos + 1))
    } else if c == '}' {
        Some((TokenKind::CloseCurly, pos + 1))
    } else if c == ',' {
        Some((TokenKind::Comma, pos + 1))
    } else if c == ':' {
        Some((TokenKind::Colon, pos + 1))
    } else if c == '=' {
        if is_at(src, pos + 1, '=') {
            Some((TokenKind::EqualsEquals, pos + 2))
        } else {
            Some((TokenKind::Equals, pos + 1))
        }
    } else if c == '!' {
        if is_at(src, pos + 1, '=') {
            Some((TokenKind::NotEquals, pos + 2))
        } else {
            None
        }
    } else if c == '-' {
        if is_at(src, pos + 1, '>') {
            Some((TokenKind::Arrow, pos + 2))
        } else {
            Some((TokenKind::Minus, pos + 1))
        }
    } else if c == '\\' {
        Some((TokenKind::Backslash, pos + 1))
    } else if c == '+' {
        Some((TokenKind::Plus, pos + 1))
    } else if c == '*' {
        Some((TokenKind::Star, pos + 1))
    } else if c == '%' {
        Some((TokenKind::Percent, pos + 1))
    } else if c == '_' {
        Some((TokenKind::Underscore, pos + 1))
    } else {
        None
    }
}

/// Splits a source text into its tokens. Returns `None` where a character
/// begins no token: a stray character, a numeral `0x` without digits, or a
/// string that its line does not close.
pub fn tokenize(src: &Vec<char>) -> (r: Option<Vec<Token>>)
    ensures
        match r {
            Some(tokens) => tokens_of(src@) == Some(tokens@),
            None => tokens_of(src@) is None,
        },
{
    let ghost total = tokens_of(src@);
    let mut tokens: Vec<Token> = Vec::new();
    let mut pos: usize = 0;
    let mut line: usize = 0;
    let mut line_start: usize = 0;
    let mut leads = true;
    while pos < src.len()
        invariant
            pos <= src@.len(),
            line_start <= pos,
            line <= pos,
            total == tokens_of(src@),
            total == match lexed(src@, pos as int, line as int, line_start as int, leads) {
                Some(rest) => Some(tokens@ + rest),
                None => None,
            },
        decreases src.len() - pos,
    {
        let c = src[pos];
        if c == ' ' || c == '\t' || c == '\r' {
            pos = pos + 1;
        } else if c == '\n' {
            pos = pos + 1;
            line = line + 1;
            line_start = pos;
            leads = true;
        } else {
            match scan(src, pos) {
                Some((kind, end)) => {
                    if end <= pos {
                        return None;
                    }
                    let ghost before = tokens@;
                    let token = Token { kind, start: pos, end, line, column: pos - line_start, leads };
                    tokens.push(token);
                    proof {
                        match lexed(src@, end as int, line as int, line_start as int, false) {
                            Some(rest) => {
                                assert(before.push(token) + rest =~= before + (seq![token] + rest));
                            },
                            None => {},
                        }
                    }
                    pos = end;
                    leads = false;
                },
                None => {
                    return None;
                },
            }
        }
    }
    assert(tokens@ + Seq::<Token>::empty() =~= tokens@);
    Some(tokens)
}

/// The tokens of a text from `pos` on lie in the text from `pos` on, each
/// of them not empty, one after the other.
proof fn lemma_lexed_in_order(src: Seq<char>, pos: int, line: int, line_start: int, leads: bool)
    requires
        0 <= pos,
        src.len() <= usize::MAX,
        lexed(src, pos, line, line_start, leads) is Some,
    ensures
        ({
            let tokens = lexed(src, pos, line, line_start, leads).unwrap();
            &&& forall|i: int|
                0 <= i < tokens.len() ==> pos <= (#[trigger] tokens[i]).start < tokens[i].end
                    <= src.len()
            &&& forall|i: int, j: int|
                0 <= i < j < tokens.len() ==> (#[trigger] tokens[i]).end <= (
                #[trigger] tokens[j]).start
        }),
    decreases src.len() - pos,
{
    if pos < src.len() {
        if is_blank(src[pos]) {
            lemma_lexed_in_order(src, pos + 1, line, line_start, leads);
        } else if src[pos] == '\n' {
            lemma_lexed_in_order(src, pos + 1, line + 1, pos + 1, true);
        } else {
            let (kind, end) = token_at(src, pos).unwrap();
            lemma_lexed_in_order(src, end, line, line_start, false);
            let rest = lexed(src, end, line, line_start, false).unwrap();
            let tokens = lexed(src, pos, line, line_start, leads).unwrap();
            assert(tokens.len() == rest.len() + 1);
            assert forall|i: int| 0 <= i < tokens.len() implies pos <= (
            #[trigger] tokens[i]).start < tokens[i].end <= src.len() by {
                if i > 0 {
                    assert(tokens[i] == rest[i - 1]);
                }
            }
            assert forall|i: int, j: int| 0 <= i < j < tokens.len() implies (
            #[trigger] tokens[i]).end <= (#[trigger] tokens[j]).start by {
                assert(tokens[j] == rest[j - 1]);
                if i > 0 {
                    assert(tokens[i] == rest[i - 1]);
                }
            }
        }
    }
}

/// The tokens of a text lie in the text, each of them not empty, one after
/// the other: no character belongs to two tokens.
pub proof fn lemma_tokens_in_order(src: Seq<char>)
    requires
        src.len() <= usize::MAX,
        tokens_of(src) is Some,
    ensures
        forall|i: int|
            0 <= i < tokens_of(src).unwrap().len() ==> (#[trigger] tokens_of(src).unwrap()[i]).start
                < tokens_of(src).unwrap()[i].end <= src.len(),
        forall|i: int, j: int|
            0 <= i < j < tokens_of(src).unwrap().len() ==> (#[trigger] tokens_of(
                src,
            ).unwrap()[i]).end <= (#[trigger] tokens_of(src).unwrap()[j]).start,
{
    lemma_lexed_in_order(src, 0, 0, 0, true);
}

} // verus!
