//! The parser: tokens to a syntax tree, or the place where it got stuck.

use vstd::prelude::*;
use crate::diagnostic::Region;
use crate::lexer::{tokenize, tokens_of, Token, TokenKind};
use crate::syntax::{region_between, region_of, Ast, AstModel, Kind, Node, Operator, Span};
use crate::text::{chars_of, UNIT};

verus! {

/// How deep expressions and types may nest.
pub const MAX_DEPTH: usize = 256;

/// How many tokens a submission may have, the definitions that stand
/// before it counted in. The parser and the stages after it go one call
/// deeper for each item of a list and for each definition of a block, so
/// that the number of tokens bounds the depth of the call stack: the limit
/// keeps that depth within the stack that a thread has by default. What is
/// longer is not parsed.
pub const MAX_TOKENS: usize = 12_000;

/// The greatest value of a numeral.
pub const MAX_LITERAL: i128 = 0xffff_ffff_ffff_ffff;

/// Why a source text is no submission.
#[derive(Clone, Copy, Debug, PartialEq, Eq, Structural)]
pub enum SyntaxError {
    /// A character begins no token.
    BadCharacter,
    /// A definition has arguments before its equals sign: the region covers
    /// the arguments.
    ArgumentsBeforeEquals(Region),
    /// The token at this index cannot stand there; the number of tokens
    /// stands for the end of the text.
    Unexpected(usize),
    /// The numeral at this index is too large.
    NumberTooLarge(usize),
    /// The token at this index is nested too deep.
    TooDeep(usize),
    /// The text has more tokens than a submission may have.
    TooLong,
}

/// A source text with its tokens.
pub struct Source {
    pub chars: Vec<char>,
    pub tokens: Vec<Token>,
}

/// The mathematical model of a [`Source`].
pub struct SourceModel {
    pub chars: Seq<char>,
    pub tokens: Seq<Token>,
}

impl View for Source {
    type V = SourceModel;

    open spec fn view(&self) -> SourceModel {
        SourceModel { chars: self.chars@, tokens: self.tokens@ }
    }
}

/// What parsing one construct gives: the arena with the construct's nodes,
/// the index of its node, and the index of the token after it.
pub type Parsed = Result<(AstModel, usize, int), SyntaxError>;

/// What parsing a sequence of constructs gives.
pub type ParsedAll = Result<(AstModel, Seq<usize>, int), SyntaxError>;

/// Whether the outcome of a parsing function is the specified one.
pub open spec fn agrees(r: Result<(usize, usize), SyntaxError>, ast: AstModel, expected: Parsed) -> bool {
    match r {
        Ok((node, next)) => expected == Ok::<(AstModel, usize, int), SyntaxError>(
            (ast, node, next as int),
        ),
        Err(e) => expected == Err::<(AstModel, usize, int), SyntaxError>(e),
    }
}

impl SourceModel {
    /// The kind of the token at `pos`, where `pos` lies before `end`.
    pub open spec fn kind_at(self, pos: int, end: int) -> Option<TokenKind> {
        if 0 <= pos < end <= self.tokens.len() {
            Some(self.tokens[pos].kind)
        } else {
            None
        }
    }

    /// The characters of the source from `start` up to `end`.
    pub open spec fn slice(self, span: Span) -> Seq<char> {
        if span.start <= span.end <= self.chars.len() {
            self.chars.subrange(span.start as int, span.end as int)
        } else {
            Seq::empty()
        }
    }

    /// The characters of the token at `pos`.
    pub open spec fn text_at(self, pos: int) -> Seq<char> {
        if 0 <= pos < self.tokens.len() {
            self.slice(Span { start: self.tokens[pos].start, end: self.tokens[pos].end })
        } else {
            Seq::empty()
        }
    }

    /// Whether the token at `pos` is the name `word`.
    pub open spec fn word_at(self, pos: int, end: int, word: Seq<char>) -> bool {
        self.kind_at(pos, end) == Some(TokenKind::Lower) && self.text_at(pos) == word
    }

    /// Whether the token at `pos` is a reserved word.
    pub open spec fn keyword_at(self, pos: int, end: int) -> bool {
        self.word_at(pos, end, "if"@) || self.word_at(pos, end, "then"@) || self.word_at(
            pos,
            end,
            "else"@,
        ) || self.word_at(pos, end, "when"@) || self.word_at(pos, end, "is"@)
    }

    /// The stretch of the source that the token at `pos` covers.
    pub open spec fn span_at(self, pos: int) -> Span {
        if 0 <= pos < self.tokens.len() {
            Span { start: self.tokens[pos].start, end: self.tokens[pos].end }
        } else {
            Span { start: 0, end: 0 }
        }
    }
}

impl Source {
    /// The kind of the token at `pos`, where `pos` lies before `end`.
    pub fn kind(&self, pos: usize, end: usize) -> (r: Option<TokenKind>)
        ensures
            r == self@.kind_at(pos as int, end as int),
    {
        if pos < end && end <= self.tokens.len() {
            Some(self.tokens[pos].kind)
        } else {
            None
        }
    }

    /// The stretch of the source that the token at `pos` covers.
    pub fn span(&self, pos: usize) -> (r: Span)
        ensures
            r == self@.span_at(pos as int),
    {
        if pos < self.tokens.len() {
            Span { start: self.tokens[pos].start, end: self.tokens[pos].end }
        } else {
            Span { start: 0, end: 0 }
        }
    }

    /// Whether the stretch of the source holds exactly the characters of `word`.
    pub fn holds(&self, span: Span, word: &str) -> (r: bool)
        ensures
            r == (self@.slice(span) == word@),
    {
        let other = chars_of(word);
        if span.start <= span.end && span.end <= self.chars.len() {
            let ghost part = self@.slice(span);
            if span.end - span.start != other.len() {
                return false;
            }
            let mut i: usize = 0;
            while i < other.len()
                invariant
                    i <= other.len(),
                    span.start <= span.end <= self.chars@.len(),
                    span.end - span.start == other.len(),
                    part == self.chars@.subrange(span.start as int, span.end as int),
                    part == self@.slice(span),
                    other@ == word@,
                    forall|k: int| 0 <= k < i ==> part[k] == other@[k],
                decreases other.len() - i,
            {
                if self.chars[span.start + i] != other[i] {
                    assert(part[i as int] != other@[i as int]);
                    return false;
                }
                i = i + 1;
            }
            assert(part =~= other@);
            true
        } else {
            assert(other@.len() == 0 ==> other@ =~= Seq::<char>::empty());
            other.len() == 0
        }
    }

    /// Whether the token at `pos` is the name `word`.
    pub fn word(&self, pos: usize, end: usize, word: &str) -> (r: bool)
        ensures
            r == self@.word_at(pos as int, end as int, word@),
    {
        match self.kind(pos, end) {
            Some(TokenKind::Lower) => self.holds(self.span(pos), word),
            _ => false,
        }
    }

    /// Whether the token at `pos` is a reserved word.
    pub fn keyword(&self, pos: usize, end: usize) -> (r: bool)
        ensures
            r == self@.keyword_at(pos as int, end as int),
    {
        self.word(pos, end, "if") || self.word(pos, end, "then") || self.word(pos, end, "else")
            || self.word(pos, end, "when") || self.word(pos, end, "is")
    }
}

/// The value of a digit in base `base`, where `c` is one.
pub open spec fn digit_value(c: char, base: int) -> Option<int> {
    if '0' <= c <= '9' {
        Some(c as int - '0' as int)
    } else if base == 16 && 'a' <= c <= 'f' {
        Some(c as int - 'a' as int + 10)
    } else if base == 16 && 'A' <= c <= 'F' {
        Some(c as int - 'A' as int + 10)
    } else {
        None
    }
}

/// The number that the digits from index `i` on continue, given the value
/// `acc` of the digits before them; `None` where a character is no digit or
/// the number exceeds the greatest literal.
pub open spec fn numeral_from(text: Seq<char>, i: int, acc: int, base: int) -> Option<int>
    decreases text.len() - i,
{
    if i < 0 || i >= text.len() {
        Some(acc)
    } else {
        match digit_value(text[i], base) {
            Some(d) => if acc * base + d > MAX_LITERAL {
                None
            } else {
                numeral_from(text, i + 1, acc * base + d, base)
            },
            None => None,
        }
    }
}

/// The value of the first `places` decimal places that begin at index `i`,
/// in units of the last of them, continuing the value `acc`; places that
/// the text does not have count as zero, places beyond them are dropped.
pub open spec fn places_from(text: Seq<char>, i: int, acc: int, places: nat) -> Option<int>
    decreases places,
{
    if places == 0 {
        Some(acc)
    } else if 0 <= i < text.len() {
        match digit_value(text[i], 10) {
            Some(d) => places_from(text, i + 1, acc * 10 + d, (places - 1) as nat),
            None => None,
        }
    } else {
        places_from(text, i, acc * 10, (places - 1) as nat)
    }
}

/// The index of the first point in `text` from `i` on, or the length of
/// `text` where it has none.
pub open spec fn point_from(text: Seq<char>, i: int) -> int
    decreases text.len() - i,
{
    if 0 <= i < text.len() && text[i] != '.' {
        point_from(text, i + 1)
    } else {
        i
    }
}

/// The value of the literal that covers `span` of `chars`, by its kind: a
/// decimal or hexadecimal numeral, or a fraction in units of its last
/// decimal place.
pub open spec fn literal_value(kind: TokenKind, chars: Seq<char>, span: Span) -> Option<int> {
    if span.start <= span.end <= chars.len() {
        match kind {
            TokenKind::Number => numeral_from(chars.take(span.end as int), span.start as int, 0, 10),
            TokenKind::Hex => if span.start + 2 <= span.end {
                numeral_from(chars.take(span.end as int), span.start + 2, 0, 16)
            } else {
                None
            },
            TokenKind::Fraction => {
                let point = point_from(chars.take(span.end as int), span.start as int);
                match numeral_from(chars.take(point), span.start as int, 0, 10) {
                    Some(whole) => places_from(
                        chars.take(span.end as int),
                        if point < span.end {
                            point + 1
                        } else {
                            point
                        },
                        whole,
                        18,
                    ),
                    None => None,
                }
            },
            _ => None,
        }
    } else {
        None
    }
}

/// The node of a literal with the given value.
pub open spec fn literal_node(kind: TokenKind, value: i128) -> Kind {
    match kind {
        TokenKind::Hex => Kind::Int(value),
        TokenKind::Fraction => Kind::Frac(value),
        _ => Kind::Num(value),
    }
}

/// The value of the digit `c` in base `base`.
fn digit_of(c: char, base: u8) -> (r: Option<i128>)
    requires
        base == 10 || base == 16,
    ensures
        match r {
            Some(d) => digit_value(c, base as int) == Some(d as int) && 0 <= d < base,
            None => digit_value(c, base as int) is None,
        },
{
    if '0' <= c && c <= '9' {
        Some((c as u32 - '0' as u32) as i128)
    } else if base == 16 && 'a' <= c && c <= 'f' {
        Some((c as u32 - 'a' as u32 + 10) as i128)
    } else if base == 16 && 'A' <= c && c <= 'F' {
        Some((c as u32 - 'A' as u32 + 10) as i128)
    } else {
        None
    }
}

/// The number that the digits of `text` between `from` and `to` are.
pub fn numeral_of(text: &Vec<char>, from: usize, to: usize, base: u8) -> (r: Option<i128>)
    requires
        from <= to <= text@.len(),
        base == 10 || base == 16,
    ensures
        match r {
            Some(v) => numeral_from(text@.take(to as int), from as int, 0, base as int) == Some(
                v as int,
            ) && 0 <= v <= MAX_LITERAL,
            None => numeral_from(text@.take(to as int), from as int, 0, base as int) is None,
        },
{
    let ghost part = text@.take(to as int);
    let mut acc: i128 = 0;
    let mut i: usize = from;
    while i < to
        invariant
            from <= i <= to <= text@.len(),
            base == 10 || base == 16,
            part == text@.take(to as int),
            0 <= acc <= MAX_LITERAL,
            numeral_from(part, from as int, 0, base as int) == numeral_from(
                part,
                i as int,
                acc as int,
                base as int,
            ),
        decreases to - i,
    {
        match digit_of(text[i], base) {
            Some(d) => {
                let next = acc * (base as i128) + d;
                if next > MAX_LITERAL {
                    return None;
                }
                acc = next;
            },
            None => {
                return None;
            },
        }
        i = i + 1;
    }
    Some(acc)
}

/// The value of the literal that covers `span` of the source.
fn literal_of(s: &Source, kind: TokenKind, span: Span) -> (r: Option<i128>)
    ensures
        match r {
            Some(v) => literal_value(kind, s@.chars, span) == Some(v as int),
            None => literal_value(kind, s@.chars, span) is None,
        },
{
    if !(span.start <= span.end && span.end <= s.chars.len()) {
        return None;
    }
    match kind {
        TokenKind::Number => numeral_of(&s.chars, span.start, span.end, 10),
        TokenKind::Hex => {
            if span.end - span.start >= 2 {
                numeral_of(&s.chars, span.start + 2, span.end, 16)
            } else {
                None
            }
        },
        TokenKind::Fraction => {
            let ghost part = s.chars@.take(span.end as int);
            let mut point: usize = span.start;
            while point < span.end && s.chars[point] != '.'
                invariant
                    span.start <= point <= span.end <= s.chars@.len(),
                    part == s.chars@.take(span.end as int),
                    point_from(part, span.start as int) == point_from(part, point as int),
                decreases span.end - point,
            {
                point = point + 1;
            }
            let ghost value = literal_value(kind, s@.chars, span);
            match numeral_of(&s.chars, span.start, point, 10) {
                Some(whole) => {
                    let mut acc: i128 = whole;
                    let mut i: usize = if point < span.end {
                        point + 1
                    } else {
                        point
                    };
                    let mut places: u32 = 18;
                    proof {
                        reveal_with_fuel(pow10, 1);
                    }
                    while places > 0
                        invariant
                            i <= span.end <= s.chars@.len(),
                            part == s.chars@.take(span.end as int),
                            places <= 18,
                            0 <= acc,
                            acc + 1 <= 0x1_0000_0000_0000_0000 * pow10((18 - places) as nat),
                            value == literal_value(kind, s@.chars, span),
                            value == places_from(part, i as int, acc as int, places as nat),
                        decreases places,
                    {
                        proof {
                            lemma_pow10_grows((18 - places) as nat, 17);
                            assert(pow10(17) == 100_000_000_000_000_000) by {
                                reveal_with_fuel(pow10, 18);
                            }
                            assert(pow10((18 - places + 1) as nat) == 10 * pow10(
                                (18 - places) as nat,
                            ));
                        }
                        if i < span.end {
                            assert(part[i as int] == s.chars@[i as int]);
                            match digit_of(s.chars[i], 10) {
                                Some(d) => {
                                    acc = acc * 10 + d;
                                    i = i + 1;
                                },
                                None => {
                                    return None;
                                },
                            }
                        } else {
                            acc = acc * 10;
                        }
                        places = places - 1;
                    }
                    Some(acc)
                },
                None => None,
            }
        },
        _ => None,
    }
}

/// Ten to the power of `n`.
pub open spec fn pow10(n: nat) -> int
    decreases n,
{
    if n == 0 {
        1
    } else {
        10 * pow10((n - 1) as nat)
    }
}

/// The powers of ten grow with their exponents, from one on.
proof fn lemma_pow10_grows(m: nat, n: nat)
    requires
        m <= n,
    ensures
        1 <= pow10(m) <= pow10(n),
    decreases n,
{
    if n > 0 {
        if m < n {
            lemma_pow10_grows(m, (n - 1) as nat);
        } else {
            lemma_pow10_grows((m - 1) as nat, (n - 1) as nat);
        }
    }
}

/// The arena with a node of the given kind that covers the tokens from
/// `first` up to `next`.
pub open spec fn placed(s: SourceModel, ast: AstModel, kind: Kind, first: int, next: int) -> Parsed {
    let (grown, index) = ast.with_node(Node { kind, region: region_between(s.tokens, first, next - 1) });
    Ok((grown, index, next))
}

/// The arena with a node that has the given parts, whose kind is made from
/// the stretch of links that holds them.
pub open spec fn placed_with(
    s: SourceModel,
    ast: AstModel,
    parts: Seq<usize>,
    kind: spec_fn(Span) -> Kind,
    first: int,
    next: int,
) -> Parsed {
    let (linked, span) = ast.with_links(parts);
    placed(s, linked, kind(span), first, next)
}

/// The source between the quotes of a string literal.
pub open spec fn contents(span: Span) -> Span {
    if span.start + 2 <= span.end {
        Span { start: (span.start + 1) as usize, end: (span.end - 1) as usize }
    } else {
        Span { start: span.start, end: span.start }
    }
}

/// Whether an operand that stands alone can begin at `pos`.
pub open spec fn starts_atom(s: SourceModel, pos: int, end: int) -> bool {
    match s.kind_at(pos, end) {
        Some(TokenKind::Number) | Some(TokenKind::Hex) | Some(TokenKind::Fraction) | Some(
            TokenKind::Text,
        ) | Some(TokenKind::Open) | Some(TokenKind::OpenSquare) | Some(TokenKind::OpenCurly) | Some(
            TokenKind::Upper,
        ) => true,
        Some(TokenKind::Lower) => !s.keyword_at(pos, end),
        _ => false,
    }
}

/// The operator of precedence `level` at `pos`: comparisons bind loosest
/// (level 0), then sums (1), then products (2).
pub open spec fn operator_at(s: SourceModel, pos: int, end: int, level: nat) -> Option<Operator> {
    match s.kind_at(pos, end) {
        Some(TokenKind::EqualsEquals) => if level == 0 {
            Some(Operator::Equal)
        } else {
            None
        },
        Some(TokenKind::NotEquals) => if level == 0 {
            Some(Operator::NotEqual)
        } else {
            None
        },
        Some(TokenKind::Plus) => if level == 1 {
            Some(Operator::Add)
        } else {
            None
        },
        Some(TokenKind::Minus) => if level == 1 {
            Some(Operator::Sub)
        } else {
            None
        },
        Some(TokenKind::Star) => if level >= 2 {
            Some(Operator::Mul)
        } else {
            None
        },
        Some(TokenKind::Percent) => if level >= 2 {
            Some(Operator::Rem)
        } else {
            None
        },
        _ => None,
    }
}

/// The first index from `pos` on, before `end`, whose token leads its line
/// at a column that is not right of `column`; `end` where there is none.
pub open spec fn boundary(tokens: Seq<Token>, pos: int, end: int, column: int) -> int
    decreases end - pos,
{
    if pos < 0 || pos >= end || pos >= tokens.len() {
        end
    } else if tokens[pos].leads && tokens[pos].column <= column {
        pos
    } else {
        boundary(tokens, pos + 1, end, column)
    }
}

/// A pattern that stands alone: a name, a blank, or a tag without arguments.
pub open spec fn parsed_simple_pattern(s: SourceModel, ast: AstModel, pos: int, end: int) -> Parsed {
    match s.kind_at(pos, end) {
        Some(TokenKind::Lower) => if s.keyword_at(pos, end) {
            Err(SyntaxError::Unexpected(pos as usize))
        } else {
            placed(s, ast, Kind::PatVar(s.span_at(pos)), pos, pos + 1)
        },
        Some(TokenKind::Underscore) => placed(s, ast, Kind::PatAny, pos, pos + 1),
        Some(TokenKind::Upper) => placed_with(
            s,
            ast,
            Seq::empty(),
            |span: Span| Kind::PatTag(s.span_at(pos), span),
            pos,
            pos + 1,
        ),
        _ => Err(SyntaxError::Unexpected(pos as usize)),
    }
}

/// Whether a simple pattern can begin at `pos`.
pub open spec fn starts_pattern(s: SourceModel, pos: int, end: int) -> bool {
    match s.kind_at(pos, end) {
        Some(TokenKind::Underscore) | Some(TokenKind::Upper) => true,
        Some(TokenKind::Lower) => !s.keyword_at(pos, end),
        _ => false,
    }
}

/// The simple patterns that follow one another from `pos` on.
pub open spec fn parsed_pattern_args(s: SourceModel, ast: AstModel, pos: int, end: int) -> ParsedAll
    decreases end - pos,
{
    if starts_pattern(s, pos, end) {
        match parsed_simple_pattern(s, ast, pos, end) {
            Ok((grown, node, next)) => if pos < next <= end {
                match parsed_pattern_args(s, grown, next, end) {
                    Ok((last, nodes, after)) => Ok((last, seq![node] + nodes, after)),
                    Err(e) => Err(e),
                }
            } else {
                Err(SyntaxError::Unexpected(pos as usize))
            },
            Err(e) => Err(e),
        }
    } else {
        Ok((ast, Seq::empty(), pos))
    }
}

/// A pattern: a simple one, or a tag with simple patterns as its arguments.
pub open spec fn parsed_pattern(s: SourceModel, ast: AstModel, pos: int, end: int) -> Parsed {
    match s.kind_at(pos, end) {
        Some(TokenKind::Upper) => match parsed_pattern_args(s, ast, pos + 1, end) {
            Ok((grown, nodes, next)) => placed_with(
                s,
                grown,
                nodes,
                |span: Span| Kind::PatTag(s.span_at(pos), span),
                pos,
                next,
            ),
            Err(e) => Err(e),
        },
        _ => parsed_simple_pattern(s, ast, pos, end),
    }
}

/// The patterns from `pos` on, separated by commas: the parameters of a function.
pub open spec fn parsed_params(s: SourceModel, ast: AstModel, pos: int, end: int) -> ParsedAll
    decreases end - pos,
{
    match parsed_pattern(s, ast, pos, end) {
        Ok((grown, node, next)) => if s.kind_at(next, end) == Some(TokenKind::Comma) && pos < next {
            match parsed_params(s, grown, next + 1, end) {
                Ok((last, nodes, after)) => Ok((last, seq![node] + nodes, after)),
                Err(e) => Err(e),
            }
        } else {
            Ok((grown, seq![node], next))
        },
        Err(e) => Err(e),
    }
}

/// An operand that stands alone: a literal, a name, a tag, or an
/// expression, a list or a record between its brackets.
pub open spec fn parsed_atom(s: SourceModel, ast: AstModel, pos: int, end: int, depth: nat) -> Parsed
    decreases depth, 0int, end - pos,
{
    match s.kind_at(pos, end) {
        None => Err(SyntaxError::Unexpected(pos as usize)),
        Some(kind) => match kind {
            TokenKind::Number | TokenKind::Hex | TokenKind::Fraction => match literal_value(
                kind,
                s.chars,
                s.span_at(pos),
            ) {
                Some(v) => placed(s, ast, literal_node(kind, v as i128), pos, pos + 1),
                None => Err(SyntaxError::NumberTooLarge(pos as usize)),
            },
            TokenKind::Text => placed(s, ast, Kind::Str(contents(s.span_at(pos))), pos, pos + 1),
            TokenKind::Lower => if s.keyword_at(pos, end) {
                Err(SyntaxError::Unexpected(pos as usize))
            } else {
                placed(s, ast, Kind::Var(s.span_at(pos)), pos, pos + 1)
            },
            TokenKind::Upper => placed_with(
                s,
                ast,
                Seq::empty(),
                |span: Span| Kind::Tag(s.span_at(pos), span),
                pos,
                pos + 1,
            ),
            TokenKind::Open => if depth == 0 {
                Err(SyntaxError::TooDeep(pos as usize))
            } else {
                match parsed_expr(s, ast, pos + 1, end, (depth - 1) as nat) {
                    Ok((grown, node, next)) => if s.kind_at(next, end) == Some(TokenKind::Close) {
                        Ok((grown, node, next + 1))
                    } else {
                        Err(SyntaxError::Unexpected(next as usize))
                    },
                    Err(e) => Err(e),
                }
            },
            TokenKind::OpenSquare => if depth == 0 {
                Err(SyntaxError::TooDeep(pos as usize))
            } else {
                match parsed_items(s, ast, pos + 1, end, (depth - 1) as nat, false) {
                    Ok((grown, nodes, next)) => if s.kind_at(next, end) == Some(
                        TokenKind::CloseSquare,
                    ) {
                        placed_with(s, grown, nodes, |span: Span| Kind::List(span), pos, next + 1)
                    } else {
                        Err(SyntaxError::Unexpected(next as usize))
                    },
                    Err(e) => Err(e),
                }
            },
            TokenKind::OpenCurly => if depth == 0 {
                Err(SyntaxError::TooDeep(pos as usize))
            } else {
                match parsed_items(s, ast, pos + 1, end, (depth - 1) as nat, true) {
                    Ok((grown, nodes, next)) => if s.kind_at(next, end) == Some(
                        TokenKind::CloseCurly,
                    ) {
                        placed_with(s, grown, nodes, |span: Span| Kind::Record(span), pos, next + 1)
                    } else {
                        Err(SyntaxError::Unexpected(next as usize))
                    },
                    Err(e) => Err(e),
                }
            },
            _ => Err(SyntaxError::Unexpected(pos as usize)),
        },
    }
}

/// The operands that follow one another from `pos` on: the arguments of an
/// application.
pub open spec fn parsed_arguments(
    s: SourceModel,
    ast: AstModel,
    pos: int,
    end: int,
    depth: nat,
) -> ParsedAll
    decreases depth, 1int, end - pos,
{
    if starts_atom(s, pos, end) {
        match parsed_atom(s, ast, pos, end, depth) {
            Ok((grown, node, next)) => if pos < next <= end {
                match parsed_arguments(s, grown, next, end, depth) {
                    Ok((last, nodes, after)) => Ok((last, seq![node] + nodes, after)),
                    Err(e) => Err(e),
                }
            } else {
                Err(SyntaxError::Unexpected(pos as usize))
            },
            Err(e) => Err(e),
        }
    } else {
        Ok((ast, Seq::empty(), pos))
    }
}

/// An operand with the arguments that it is applied to: a tag with its
/// payload, a function with its arguments, or an operand alone.
pub open spec fn parsed_application(
    s: SourceModel,
    ast: AstModel,
    pos: int,
    end: int,
    depth: nat,
) -> Parsed
    decreases depth, 2int, end - pos,
{
    if s.kind_at(pos, end) == Some(TokenKind::Upper) {
        match parsed_arguments(s, ast, pos + 1, end, depth) {
            Ok((grown, nodes, next)) => placed_with(
                s,
                grown,
                nodes,
                |span: Span| Kind::Tag(s.span_at(pos), span),
                pos,
                next,
            ),
            Err(e) => Err(e),
        }
    } else {
        match parsed_atom(s, ast, pos, end, depth) {
            Ok((grown, head, next)) => match parsed_arguments(s, grown, next, end, depth) {
                Ok((last, nodes, after)) => if nodes.len() == 0 {
                    Ok((last, head, after))
                } else {
                    placed_with(s, last, nodes, |span: Span| Kind::Call(head, span), pos, after)
                },
                Err(e) => Err(e),
            },
            Err(e) => Err(e),
        }
    }
}

/// An operand of an operator of precedence `level`.
pub open spec fn parsed_operand(
    s: SourceModel,
    ast: AstModel,
    pos: int,
    end: int,
    depth: nat,
    level: nat,
) -> Parsed
    decreases depth, 9 - 3 * level, end - pos,
{
    if level == 2 {
        parsed_application(s, ast, pos, end, depth)
    } else if level < 2 {
        parsed_binary(s, ast, pos, end, depth, level + 1)
    } else {
        Err(SyntaxError::Unexpected(pos as usize))
    }
}

/// Operands with operators of precedence `level` between them; operators
/// of one precedence group to the left, and comparisons do not chain.
pub open spec fn parsed_binary(
    s: SourceModel,
    ast: AstModel,
    pos: int,
    end: int,
    depth: nat,
    level: nat,
) -> Parsed
    decreases depth, 11 - 3 * level, end - pos,
{
    if level > 2 {
        Err(SyntaxError::Unexpected(pos as usize))
    } else {
        match parsed_operand(s, ast, pos, end, depth, level) {
            Ok((grown, left, next)) => parsed_rest(s, grown, left, pos, next, end, depth, level),
            Err(e) => Err(e),
        }
    }
}

/// What follows the operand `left`, which began at `first`: further
/// operators of precedence `level` with their operands.
pub open spec fn parsed_rest(
    s: SourceModel,
    ast: AstModel,
    left: usize,
    first: int,
    pos: int,
    end: int,
    depth: nat,
    level: nat,
) -> Parsed
    decreases depth, 10 - 3 * level, end - pos,
{
    if level > 2 {
        Err(SyntaxError::Unexpected(pos as usize))
    } else {
        match operator_at(s, pos, end, level) {
            Some(op) => match parsed_operand(s, ast, pos + 1, end, depth, level) {
                Ok((grown, right, next)) => if pos < next <= end {
                    match placed(s, grown, Kind::Binary(op, left, right), first, next) {
                        Ok((last, node, after)) => if level == 0 {
                            Ok((last, node, after))
                        } else {
                            parsed_rest(s, last, node, first, next, end, depth, level)
                        },
                        Err(e) => Err(e),
                    }
                } else {
                    Err(SyntaxError::Unexpected(pos as usize))
                },
                Err(e) => Err(e),
            },
            None => Ok((ast, left, pos)),
        }
    }
}

/// An expression.
pub open spec fn parsed_expr(s: SourceModel, ast: AstModel, pos: int, end: int, depth: nat) -> Parsed
    decreases depth, 12int, end - pos,
{
    if depth == 0 {
        Err(SyntaxError::TooDeep(pos as usize))
    } else if s.kind_at(pos, end) == Some(TokenKind::Backslash) {
        match parsed_params(s, ast, pos + 1, end) {
            Ok((grown, params, next)) => if s.kind_at(next, end) == Some(TokenKind::Arrow) {
                match parsed_expr(s, grown, next + 1, end, (depth - 1) as nat) {
                    Ok((last, body, after)) => placed_with(
                        s,
                        last,
                        params,
                        |span: Span| Kind::Lambda(span, body),
                        pos,
                        after,
                    ),
                    Err(e) => Err(e),
                }
            } else {
                Err(SyntaxError::Unexpected(next as usize))
            },
            Err(e) => Err(e),
        }
    } else if s.word_at(pos, end, "if"@) {
        match parsed_expr(s, ast, pos + 1, end, (depth - 1) as nat) {
            Ok((a1, cond, n1)) => if s.word_at(n1, end, "then"@) {
                match parsed_expr(s, a1, n1 + 1, end, (depth - 1) as nat) {
                    Ok((a2, yes, n2)) => if s.word_at(n2, end, "else"@) {
                        match parsed_expr(s, a2, n2 + 1, end, (depth - 1) as nat) {
                            Ok((a3, no, n3)) => placed(s, a3, Kind::If(cond, yes, no), pos, n3),
                            Err(e) => Err(e),
                        }
                    } else {
                        Err(SyntaxError::Unexpected(n2 as usize))
                    },
                    Err(e) => Err(e),
                }
            } else {
                Err(SyntaxError::Unexpected(n1 as usize))
            },
            Err(e) => Err(e),
        }
    } else if s.word_at(pos, end, "when"@) {
        match parsed_expr(s, ast, pos + 1, end, (depth - 1) as nat) {
            Ok((a1, subject, n1)) => if s.word_at(n1, end, "is"@) && 0 <= n1 + 1 < end
                <= s.tokens.len() {
                match parsed_branches(
                    s,
                    a1,
                    n1 + 1,
                    end,
                    (depth - 1) as nat,
                    s.tokens[n1 + 1].column as int,
                ) {
                    Ok((a2, branches, n2)) => placed_with(
                        s,
                        a2,
                        branches,
                        |span: Span| Kind::When(subject, span),
                        pos,
                        n2,
                    ),
                    Err(e) => Err(e),
                }
            } else {
                Err(SyntaxError::Unexpected(n1 as usize))
            },
            Err(e) => Err(e),
        }
    } else {
        parsed_binary(s, ast, pos, end, depth, 0)
    }
}

/// The items of a list, or the fields of a record where `fields` is set,
/// from `pos` up to the closing bracket, separated by commas.
pub open spec fn parsed_items(
    s: SourceModel,
    ast: AstModel,
    pos: int,
    end: int,
    depth: nat,
    fields: bool,
) -> ParsedAll
    decreases depth, 13int, end - pos,
{
    if s.kind_at(pos, end) == Some(
        if fields {
            TokenKind::CloseCurly
        } else {
            TokenKind::CloseSquare
        },
    ) || depth == 0 {
        Ok((ast, Seq::empty(), pos))
    } else {
        let item = if fields {
            if s.kind_at(pos, end) == Some(TokenKind::Lower) && s.kind_at(pos + 1, end) == Some(
                TokenKind::Colon,
            ) {
                match parsed_expr(s, ast, pos + 2, end, depth) {
                    Ok((grown, value, next)) => placed(
                        s,
                        grown,
                        Kind::Field(s.span_at(pos), value),
                        pos,
                        next,
                    ),
                    Err(e) => Err(e),
                }
            } else {
                Err(SyntaxError::Unexpected(pos as usize))
            }
        } else {
            parsed_expr(s, ast, pos, end, depth)
        };
        match item {
            Ok((grown, node, next)) => if s.kind_at(next, end) == Some(TokenKind::Comma) && pos
                < next {
                match parsed_items(s, grown, next + 1, end, depth, fields) {
                    Ok((last, nodes, after)) => Ok((last, seq![node] + nodes, after)),
                    Err(e) => Err(e),
                }
            } else {
                Ok((grown, seq![node], next))
            },
            Err(e) => Err(e),
        }
    }
}

/// The branches of a `when` from `pos` on. A branch begins with a token
/// that leads its line at the column of the first branch, and reaches up to
/// the next such token.
pub open spec fn parsed_branches(
    s: SourceModel,
    ast: AstModel,
    pos: int,
    end: int,
    depth: nat,
    column: int,
) -> ParsedAll
    decreases depth, 13int, end - pos,
{
    if pos < 0 || pos >= end || depth == 0 {
        Ok((ast, Seq::empty(), pos))
    } else {
        let stop = boundary(s.tokens, pos + 1, end, column);
        match parsed_pattern(s, ast, pos, stop) {
            Ok((a1, pattern, n1)) => if s.kind_at(n1, stop) == Some(TokenKind::Arrow) {
                match parsed_expr(s, a1, n1 + 1, stop, depth) {
                    Ok((a2, body, n2)) => if n2 == stop && pos < stop <= end {
                        match placed(s, a2, Kind::Branch(pattern, body), pos, n2) {
                            Ok((a3, node, _)) => match parsed_branches(
                                s,
                                a3,
                                stop,
                                end,
                                depth,
                                column,
                            ) {
                                Ok((last, nodes, after)) => Ok((last, seq![node] + nodes, after)),
                                Err(e) => Err(e),
                            },
                            Err(e) => Err(e),
                        }
                    } else {
                        Err(SyntaxError::Unexpected(n2 as usize))
                    },
                    Err(e) => Err(e),
                }
            } else {
                Err(SyntaxError::Unexpected(n1 as usize))
            },
            Err(e) => Err(e),
        }
    }
}

/// Whether the outcome of a function that parses a sequence into `after`,
/// which held `before`, is the specified one.
pub open spec fn agrees_into(
    r: Result<usize, SyntaxError>,
    ast: AstModel,
    before: Seq<usize>,
    after: Seq<usize>,
    expected: ParsedAll,
) -> bool {
    match r {
        Ok(next) => expected matches Ok((a, nodes, n)) && a == ast && n == next && after == before
            + nodes,
        Err(e) => expected == Err::<(AstModel, Seq<usize>, int), SyntaxError>(e),
    }
}

/// Putting a node before the nodes of a sequence is appending it to what
/// came before them.
proof fn lemma_prepend(before: Seq<usize>, node: usize, rest: ParsedAll)
    ensures
        rest matches Ok((_, nodes, _)) ==> before.push(node) + nodes == before + (seq![node]
            + nodes),
{
    match rest {
        Ok((_, nodes, _)) => {
            assert(before.push(node) + nodes =~= before + (seq![node] + nodes));
        },
        Err(_) => {},
    }
}

/// Adds a node of the given kind that covers the tokens from `first` up to `next`.
fn place(s: &Source, ast: &mut Ast, kind: Kind, first: usize, next: usize) -> (r: Result<
    (usize, usize),
    SyntaxError,
>)
    ensures
        agrees(r, final(ast)@, placed(s@, old(ast)@, kind, first as int, next as int)),
        r is Ok,
{
    let region = if next == 0 {
        Region { first: 0, last: 0, start: 0, end: 0 }
    } else {
        region_of(&s.tokens, first, next - 1)
    };
    let index = ast.add(Node { kind, region });
    Ok((index, next))
}

/// An empty stretch at the end of the links.
fn no_links(ast: &mut Ast) -> (span: Span)
    ensures
        (final(ast)@, span) == old(ast)@.with_links(Seq::empty()),
{
    let none: Vec<usize> = Vec::new();
    ast.link(&none)
}

/// Whether an operand that stands alone can begin at `pos`.
fn atom_starts(s: &Source, pos: usize, end: usize) -> (r: bool)
    ensures
        r == starts_atom(s@, pos as int, end as int),
{
    match s.kind(pos, end) {
        Some(TokenKind::Number) | Some(TokenKind::Hex) | Some(TokenKind::Fraction) | Some(
            TokenKind::Text,
        ) | Some(TokenKind::Open) | Some(TokenKind::OpenSquare) | Some(TokenKind::OpenCurly) | Some(
            TokenKind::Upper,
        ) => true,
        Some(TokenKind::Lower) => !s.keyword(pos, end),
        _ => false,
    }
}

/// Whether a simple pattern can begin at `pos`.
fn pattern_starts(s: &Source, pos: usize, end: usize) -> (r: bool)
    ensures
        r == starts_pattern(s@, pos as int, end as int),
{
    match s.kind(pos, end) {
        Some(TokenKind::Underscore) | Some(TokenKind::Upper) => true,
        Some(TokenKind::Lower) => !s.keyword(pos, end),
        _ => false,
    }
}

/// The operator of precedence `level` at `pos`.
fn operator(s: &Source, pos: usize, end: usize, level: usize) -> (r: Option<Operator>)
    ensures
        r == operator_at(s@, pos as int, end as int, level as nat),
{
    match s.kind(pos, end) {
        Some(TokenKind::EqualsEquals) => if level == 0 {
            Some(Operator::Equal)
        } else {
            None
        },
        Some(TokenKind::NotEquals) => if level == 0 {
            Some(Operator::NotEqual)
        } else {
            None
        },
        Some(TokenKind::Plus) => if level == 1 {
            Some(Operator::Add)
        } else {
            None
        },
        Some(TokenKind::Minus) => if level == 1 {
            Some(Operator::Sub)
        } else {
            None
        },
        Some(TokenKind::Star) => if level >= 2 {
            Some(Operator::Mul)
        } else {
            None
        },
        Some(TokenKind::Percent) => if level >= 2 {
            Some(Operator::Rem)
        } else {
            None
        },
        _ => None,
    }
}

/// The first index from `pos` on whose token begins a new part at `column`.
fn find_boundary(tokens: &Vec<Token>, pos: usize, end: usize, column: usize) -> (r: usize)
    ensures
        r == boundary(tokens@, pos as int, end as int, column as int),
        pos <= end ==> pos <= r <= end,
{
    let mut i: usize = pos;
    while i < end && i < tokens.len() && !(tokens[i].leads && tokens[i].column <= column)
        invariant
            pos <= i,
            pos <= end ==> i <= end,
            boundary(tokens@, pos as int, end as int, column as int) == boundary(
                tokens@,
                i as int,
                end as int,
                column as int,
            ),
        decreases end - i,
    {
        i = i + 1;
    }
    if i < end && i < tokens.len() {
        i
    } else {
        end
    }
}

/// Parses a pattern that stands alone.
fn simple_pattern(s: &Source, ast: &mut Ast, pos: usize, end: usize) -> (r: Result<
    (usize, usize),
    SyntaxError,
>)
    ensures
        agrees(r, final(ast)@, parsed_simple_pattern(s@, old(ast)@, pos as int, end as int)),
{
    match s.kind(pos, end) {
        Some(TokenKind::Lower) => {
            if s.keyword(pos, end) {
                Err(SyntaxError::Unexpected(pos))
            } else {
                place(s, ast, Kind::PatVar(s.span(pos)), pos, pos + 1)
            }
        },
        Some(TokenKind::Underscore) => place(s, ast, Kind::PatAny, pos, pos + 1),
        Some(TokenKind::Upper) => {
            let span = no_links(ast);
            place(s, ast, Kind::PatTag(s.span(pos), span), pos, pos + 1)
        },
        _ => Err(SyntaxError::Unexpected(pos)),
    }
}

/// Parses the simple patterns that follow one another from `pos` on.
fn pattern_args(s: &Source, ast: &mut Ast, out: &mut Vec<usize>, pos: usize, end: usize) -> (r:
    Result<usize, SyntaxError>)
    ensures
        agrees_into(
            r,
            final(ast)@,
            old(out)@,
            final(out)@,
            parsed_pattern_args(s@, old(ast)@, pos as int, end as int),
        ),
    decreases end - pos,
{
    if pattern_starts(s, pos, end) {
        match simple_pattern(s, ast, pos, end) {
            Ok((node, next)) => {
                if pos < next && next <= end {
                    out.push(node);
                    let ghost mid = ast@;
                    let r = pattern_args(s, ast, out, next, end);
                    proof {
                        lemma_prepend(
                            old(out)@,
                            node,
                            parsed_pattern_args(s@, mid, next as int, end as int),
                        );
                    }
                    r
                } else {
                    Err(SyntaxError::Unexpected(pos))
                }
            },
            Err(e) => Err(e),
        }
    } else {
        assert(out@ + Seq::<usize>::empty() =~= out@);
        Ok(pos)
    }
}

/// Parses a pattern.
fn pattern(s: &Source, ast: &mut Ast, pos: usize, end: usize) -> (r: Result<
    (usize, usize),
    SyntaxError,
>)
    ensures
        agrees(r, final(ast)@, parsed_pattern(s@, old(ast)@, pos as int, end as int)),
{
    match s.kind(pos, end) {
        Some(TokenKind::Upper) => {
            let mut nodes: Vec<usize> = Vec::new();
            match pattern_args(s, ast, &mut nodes, pos + 1, end) {
                Ok(next) => {
                    assert(nodes@ =~= Seq::<usize>::empty() + nodes@);
                    let span = ast.link(&nodes);
                    place(s, ast, Kind::PatTag(s.span(pos), span), pos, next)
                },
                Err(e) => Err(e),
            }
        },
        _ => simple_pattern(s, ast, pos, end),
    }
}

/// Parses the parameters of a function.
fn params(s: &Source, ast: &mut Ast, out: &mut Vec<usize>, pos: usize, end: usize) -> (r: Result<
    usize,
    SyntaxError,
>)
    ensures
        agrees_into(
            r,
            final(ast)@,
            old(out)@,
            final(out)@,
            parsed_params(s@, old(ast)@, pos as int, end as int),
        ),
    decreases end - pos,
{
    match pattern(s, ast, pos, end) {
        Ok((node, next)) => {
            out.push(node);
            if s.kind(next, end) == Some(TokenKind::Comma) && pos < next {
                let ghost mid = ast@;
                let r = params(s, ast, out, next + 1, end);
                proof {
                    lemma_prepend(old(out)@, node, parsed_params(s@, mid, next + 1, end as int));
                }
                r
            } else {
                assert(old(out)@.push(node) =~= old(out)@ + seq![node]);
                Ok(next)
            }
        },
        Err(e) => Err(e),
    }
}

/// Parses an operand that stands alone.
fn atom(s: &Source, ast: &mut Ast, pos: usize, end: usize, depth: usize) -> (r: Result<
    (usize, usize),
    SyntaxError,
>)
    ensures
        agrees(r, final(ast)@, parsed_atom(s@, old(ast)@, pos as int, end as int, depth as nat)),
    decreases depth, 0int, end - pos,
{
    match s.kind(pos, end) {
        None => Err(SyntaxError::Unexpected(pos)),
        Some(kind) => match kind {
            TokenKind::Number | TokenKind::Hex | TokenKind::Fraction => {
                match literal_of(s, kind, s.span(pos)) {
                    Some(v) => {
                        let node = match kind {
                            TokenKind::Hex => Kind::Int(v),
                            TokenKind::Fraction => Kind::Frac(v),
                            _ => Kind::Num(v),
                        };
                        place(s, ast, node, pos, pos + 1)
                    },
                    None => Err(SyntaxError::NumberTooLarge(pos)),
                }
            },
            TokenKind::Text => {
                let span = s.span(pos);
                let inner = if span.end >= 2 && span.start <= span.end - 2 {
                    Span { start: span.start + 1, end: span.end - 1 }
                } else {
                    Span { start: span.start, end: span.start }
                };
                place(s, ast, Kind::Str(inner), pos, pos + 1)
            },
            TokenKind::Lower => {
                if s.keyword(pos, end) {
                    Err(SyntaxError::Unexpected(pos))
                } else {
                    place(s, ast, Kind::Var(s.span(pos)), pos, pos + 1)
                }
            },
            TokenKind::Upper => {
                let span = no_links(ast);
                place(s, ast, Kind::Tag(s.span(pos), span), pos, pos + 1)
            },
            TokenKind::Open => {
                if depth == 0 {
                    return Err(SyntaxError::TooDeep(pos));
                }
                match expr(s, ast, pos + 1, end, depth - 1) {
                    Ok((node, next)) => {
                        if s.kind(next, end) == Some(TokenKind::Close) {
                            Ok((node, next + 1))
                        } else {
                            Err(SyntaxError::Unexpected(next))
                        }
                    },
                    Err(e) => Err(e),
                }
            },
            TokenKind::OpenSquare => {
                if depth == 0 {
                    return Err(SyntaxError::TooDeep(pos));
                }
                let mut nodes: Vec<usize> = Vec::new();
                match items(s, ast, &mut nodes, pos + 1, end, depth - 1, false) {
                    Ok(next) => {
                        assert(nodes@ =~= Seq::<usize>::empty() + nodes@);
                        if s.kind(next, end) == Some(TokenKind::CloseSquare) {
                            let span = ast.link(&nodes);
                            place(s, ast, Kind::List(span), pos, next + 1)
                        } else {
                            Err(SyntaxError::Unexpected(next))
                        }
                    },
                    Err(e) => Err(e),
                }
            },
            TokenKind::OpenCurly => {
                if depth == 0 {
                    return Err(SyntaxError::TooDeep(pos));
                }
                let mut nodes: Vec<usize> = Vec::new();
                match items(s, ast, &mut nodes, pos + 1, end, depth - 1, true) {
                    Ok(next) => {
                        assert(nodes@ =~= Seq::<usize>::empty() + nodes@);
                        if s.kind(next, end) == Some(TokenKind::CloseCurly) {
                            let span = ast.link(&nodes);
                            place(s, ast, Kind::Record(span), pos, next + 1)
                        } else {
                            Err(SyntaxError::Unexpected(next))
                        }
                    },
                    Err(e) => Err(e),
                }
            },
            _ => Err(SyntaxError::Unexpected(pos)),
        },
    }
}

/// Parses the arguments of an application.
fn arguments(
    s: &Source,
    ast: &mut Ast,
    out: &mut Vec<usize>,
    pos: usize,
    end: usize,
    depth: usize,
) -> (r: Result<usize, SyntaxError>)
    ensures
        agrees_into(
            r,
            final(ast)@,
            old(out)@,
            final(out)@,
            parsed_arguments(s@, old(ast)@, pos as int, end as int, depth as nat),
        ),
    decreases depth, 1int, end - pos,
{
    if atom_starts(s, pos, end) {
        match atom(s, ast, pos, end, depth) {
            Ok((node, next)) => {
                if pos < next && next <= end {
                    out.push(node);
                    let ghost mid = ast@;
                    let r = arguments(s, ast, out, next, end, depth);
                    proof {
                        lemma_prepend(
                            old(out)@,
                            node,
                            parsed_arguments(s@, mid, next as int, end as int, depth as nat),
                        );
                    }
                    r
                } else {
                    Err(SyntaxError::Unexpected(pos))
                }
            },
            Err(e) => Err(e),
        }
    } else {
        assert(out@ + Seq::<usize>::empty() =~= out@);
        Ok(pos)
    }
}

/// Parses an operand with the arguments that it is applied to.
fn application(s: &Source, ast: &mut Ast, pos: usize, end: usize, depth: usize) -> (r: Result<
    (usize, usize),
    SyntaxError,
>)
    ensures
        agrees(
            r,
            final(ast)@,
            parsed_application(s@, old(ast)@, pos as int, end as int, depth as nat),
        ),
    decreases depth, 2int, end - pos,
{
    if s.kind(pos, end) == Some(TokenKind::Upper) {
        let mut nodes: Vec<usize> = Vec::new();
        match arguments(s, ast, &mut nodes, pos + 1, end, depth) {
            Ok(next) => {
                assert(nodes@ =~= Seq::<usize>::empty() + nodes@);
                let span = ast.link(&nodes);
                place(s, ast, Kind::Tag(s.span(pos), span), pos, next)
            },
            Err(e) => Err(e),
        }
    } else {
        match atom(s, ast, pos, end, depth) {
            Ok((head, next)) => {
                let mut nodes: Vec<usize> = Vec::new();
                match arguments(s, ast, &mut nodes, next, end, depth) {
                    Ok(after) => {
                        assert(nodes@ =~= Seq::<usize>::empty() + nodes@);
                        if nodes.len() == 0 {
                            Ok((head, after))
                        } else {
                            let span = ast.link(&nodes);
                            place(s, ast, Kind::Call(head, span), pos, after)
                        }
                    },
                    Err(e) => Err(e),
                }
            },
            Err(e) => Err(e),
        }
    }
}

/// Parses an operand of an operator of precedence `level`.
fn operand(s: &Source, ast: &mut Ast, pos: usize, end: usize, depth: usize, level: usize) -> (r:
    Result<(usize, usize), SyntaxError>)
    ensures
        agrees(
            r,
            final(ast)@,
            parsed_operand(s@, old(ast)@, pos as int, end as int, depth as nat, level as nat),
        ),
    decreases depth, 9 - 3 * level, end - pos,
{
    if level == 2 {
        application(s, ast, pos, end, depth)
    } else if level < 2 {
        binary(s, ast, pos, end, depth, level + 1)
    } else {
        Err(SyntaxError::Unexpected(pos))
    }
}

/// Parses operands with operators of precedence `level` between them.
fn binary(s: &Source, ast: &mut Ast, pos: usize, end: usize, depth: usize, level: usize) -> (r:
    Result<(usize, usize), SyntaxError>)
    ensures
        agrees(
            r,
            final(ast)@,
            parsed_binary(s@, old(ast)@, pos as int, end as int, depth as nat, level as nat),
        ),
    decreases depth, 11 - 3 * level, end - pos,
{
    if level > 2 {
        return Err(SyntaxError::Unexpected(pos));
    }
    match operand(s, ast, pos, end, depth, level) {
        Ok((left, next)) => rest(s, ast, left, pos, next, end, depth, level),
        Err(e) => Err(e),
    }
}

/// Parses what follows the operand `left`, which began at `first`.
fn rest(
    s: &Source,
    ast: &mut Ast,
    left: usize,
    first: usize,
    pos: usize,
    end: usize,
    depth: usize,
    level: usize,
) -> (r: Result<(usize, usize), SyntaxError>)
    ensures
        agrees(
            r,
            final(ast)@,
            parsed_rest(
                s@,
                old(ast)@,
                left,
                first as int,
                pos as int,
                end as int,
                depth as nat,
                level as nat,
            ),
        ),
    decreases depth, 10 - 3 * level, end - pos,
{
    if level > 2 {
        return Err(SyntaxError::Unexpected(pos));
    }
    match operator(s, pos, end, level) {
        Some(op) => match operand(s, ast, pos + 1, end, depth, level) {
            Ok((right, next)) => {
                if pos < next && next <= end {
                    match place(s, ast, Kind::Binary(op, left, right), first, next) {
                        Ok((node, after)) => {
                            if level == 0 {
                                Ok((node, after))
                            } else {
                                rest(s, ast, node, first, next, end, depth, level)
                            }
                        },
                        Err(e) => Err(e),
                    }
                } else {
                    Err(SyntaxError::Unexpected(pos))
                }
            },
            Err(e) => Err(e),
        },
        None => Ok((left, pos)),
    }
}

/// Parses an expression.
fn expr(s: &Source, ast: &mut Ast, pos: usize, end: usize, depth: usize) -> (r: Result<
    (usize, usize),
    SyntaxError,
>)
    ensures
        agrees(r, final(ast)@, parsed_expr(s@, old(ast)@, pos as int, end as int, depth as nat)),
    decreases depth, 12int, end - pos,
{
    if depth == 0 {
        return Err(SyntaxError::TooDeep(pos));
    }
    if s.kind(pos, end) == Some(TokenKind::Backslash) {
        let mut nodes: Vec<usize> = Vec::new();
        match params(s, ast, &mut nodes, pos + 1, end) {
            Ok(next) => {
                assert(nodes@ =~= Seq::<usize>::empty() + nodes@);
                if s.kind(next, end) == Some(TokenKind::Arrow) {
                    match expr(s, ast, next + 1, end, depth - 1) {
                        Ok((body, after)) => {
                            let span = ast.link(&nodes);
                            place(s, ast, Kind::Lambda(span, body), pos, after)
                        },
                        Err(e) => Err(e),
                    }
                } else {
                    Err(SyntaxError::Unexpected(next))
                }
            },
            Err(e) => Err(e),
        }
    } else if s.word(pos, end, "if") {
        match expr(s, ast, pos + 1, end, depth - 1) {
            Ok((cond, n1)) => {
                if !s.word(n1, end, "then") {
                    return Err(SyntaxError::Unexpected(n1));
                }
                match expr(s, ast, n1 + 1, end, depth - 1) {
                    Ok((yes, n2)) => {
                        if !s.word(n2, end, "else") {
                            return Err(SyntaxError::Unexpected(n2));
                        }
                        match expr(s, ast, n2 + 1, end, depth - 1) {
                            Ok((no, n3)) => place(s, ast, Kind::If(cond, yes, no), pos, n3),
                            Err(e) => Err(e),
                        }
                    },
                    Err(e) => Err(e),
                }
            },
            Err(e) => Err(e),
        }
    } else if s.word(pos, end, "when") {
        match expr(s, ast, pos + 1, end, depth - 1) {
            Ok((subject, n1)) => {
                if !(s.word(n1, end, "is") && n1 + 1 < end && end <= s.tokens.len()) {
                    return Err(SyntaxError::Unexpected(n1));
                }
                let column = s.tokens[n1 + 1].column;
                let mut nodes: Vec<usize> = Vec::new();
                match branches(s, ast, &mut nodes, n1 + 1, end, depth - 1, column) {
                    Ok(n2) => {
                        assert(nodes@ =~= Seq::<usize>::empty() + nodes@);
                        let span = ast.link(&nodes);
                        place(s, ast, Kind::When(subject, span), pos, n2)
                    },
                    Err(e) => Err(e),
                }
            },
            Err(e) => Err(e),
        }
    } else {
        binary(s, ast, pos, end, depth, 0)
    }
}

/// Parses the items of a list, or the fields of a record where `fields` is set.
fn items(
    s: &Source,
    ast: &mut Ast,
    out: &mut Vec<usize>,
    pos: usize,
    end: usize,
    depth: usize,
    fields: bool,
) -> (r: Result<usize, SyntaxError>)
    ensures
        agrees_into(
            r,
            final(ast)@,
            old(out)@,
            final(out)@,
            parsed_items(s@, old(ast)@, pos as int, end as int, depth as nat, fields),
        ),
    decreases depth, 13int, end - pos,
{
    let close = if fields {
        TokenKind::CloseCurly
    } else {
        TokenKind::CloseSquare
    };
    if s.kind(pos, end) == Some(close) || depth == 0 {
        assert(out@ + Seq::<usize>::empty() =~= out@);
        return Ok(pos);
    }
    let item = if fields {
        if s.kind(pos, end) == Some(TokenKind::Lower) && s.kind(pos + 1, end) == Some(
            TokenKind::Colon,
        ) {
            match expr(s, ast, pos + 2, end, depth) {
                Ok((value, next)) => place(s, ast, Kind::Field(s.span(pos), value), pos, next),
                Err(e) => Err(e),
            }
        } else {
            Err(SyntaxError::Unexpected(pos))
        }
    } else {
        expr(s, ast, pos, end, depth)
    };
    match item {
        Ok((node, next)) => {
            out.push(node);
            if s.kind(next, end) == Some(TokenKind::Comma) && pos < next {
                let ghost mid = ast@;
                let r = items(s, ast, out, next + 1, end, depth, fields);
                proof {
                    lemma_prepend(
                        old(out)@,
                        node,
                        parsed_items(s@, mid, next + 1, end as int, depth as nat, fields),
                    );
                }
                r
            } else {
                assert(old(out)@.push(node) =~= old(out)@ + seq![node]);
                Ok(next)
            }
        },
        Err(e) => Err(e),
    }
}

/// Parses the branches of a `when`.
fn branches(
    s: &Source,
    ast: &mut Ast,
    out: &mut Vec<usize>,
    pos: usize,
    end: usize,
    depth: usize,
    column: usize,
) -> (r: Result<usize, SyntaxError>)
    ensures
        agrees_into(
            r,
            final(ast)@,
            old(out)@,
            final(out)@,
            parsed_branches(s@, old(ast)@, pos as int, end as int, depth as nat, column as int),
        ),
    decreases depth, 13int, end - pos,
{
    if pos >= end || depth == 0 {
        assert(out@ + Seq::<usize>::empty() =~= out@);
        return Ok(pos);
    }
    let stop = find_boundary(&s.tokens, pos + 1, end, column);
    match pattern(s, ast, pos, stop) {
        Ok((pat, n1)) => {
            if s.kind(n1, stop) != Some(TokenKind::Arrow) {
                return Err(SyntaxError::Unexpected(n1));
            }
            match expr(s, ast, n1 + 1, stop, depth) {
                Ok((body, n2)) => {
                    if !(n2 == stop && pos < stop && stop <= end) {
                        return Err(SyntaxError::Unexpected(n2));
                    }
                    match place(s, ast, Kind::Branch(pat, body), pos, n2) {
                        Ok((node, _)) => {
                            out.push(node);
                            let ghost mid = ast@;
                            let r = branches(s, ast, out, stop, end, depth, column);
                            proof {
                                lemma_prepend(
                                    old(out)@,
                                    node,
                                    parsed_branches(
                                        s@,
                                        mid,
                                        stop as int,
                                        end as int,
                                        depth as nat,
                                        column as int,
                                    ),
                                );
                            }
                            r
                        },
                        Err(e) => Err(e),
                    }
                },
                Err(e) => Err(e),
            }
        },
        Err(e) => Err(e),
    }
}

/// Whether a type that stands alone can begin at `pos`.
pub open spec fn starts_type(s: SourceModel, pos: int, end: int) -> bool {
    match s.kind_at(pos, end) {
        Some(TokenKind::Upper) | Some(TokenKind::Star) | Some(TokenKind::Open) | Some(
            TokenKind::OpenSquare,
        ) => true,
        Some(TokenKind::Lower) => !s.keyword_at(pos, end),
        _ => false,
    }
}

/// A type that stands alone: a name, a variable, a star, or a type or the
/// tags of a union between their brackets.
pub open spec fn parsed_type_atom(
    s: SourceModel,
    ast: AstModel,
    pos: int,
    end: int,
    depth: nat,
) -> Parsed
    decreases depth, 0int, end - pos,
{
    match s.kind_at(pos, end) {
        Some(TokenKind::Upper) => placed_with(
            s,
            ast,
            Seq::empty(),
            |span: Span| Kind::TyApply(s.span_at(pos), span),
            pos,
            pos + 1,
        ),
        Some(TokenKind::Lower) => if s.keyword_at(pos, end) {
            Err(SyntaxError::Unexpected(pos as usize))
        } else {
            placed(s, ast, Kind::TyVar(s.span_at(pos)), pos, pos + 1)
        },
        Some(TokenKind::Star) => placed(s, ast, Kind::TyAny, pos, pos + 1),
        Some(TokenKind::Open) => if depth == 0 {
            Err(SyntaxError::TooDeep(pos as usize))
        } else {
            match parsed_type(s, ast, pos + 1, end, (depth - 1) as nat) {
                Ok((grown, node, next)) => if s.kind_at(next, end) == Some(TokenKind::Close) {
                    Ok((grown, node, next + 1))
                } else {
                    Err(SyntaxError::Unexpected(next as usize))
                },
                Err(e) => Err(e),
            }
        },
        Some(TokenKind::OpenSquare) => if depth == 0 {
            Err(SyntaxError::TooDeep(pos as usize))
        } else {
            match parsed_type_tags(s, ast, pos + 1, end, (depth - 1) as nat) {
                Ok((grown, nodes, next)) => if s.kind_at(next, end) == Some(
                    TokenKind::CloseSquare,
                ) {
                    if s.kind_at(next + 1, end) == Some(TokenKind::Star) {
                        placed_with(
                            s,
                            grown,
                            nodes,
                            |span: Span| Kind::TyUnion(span, true),
                            pos,
                            next + 2,
                        )
                    } else {
                        placed_with(
                            s,
                            grown,
                            nodes,
                            |span: Span| Kind::TyUnion(span, false),
                            pos,
                            next + 1,
                        )
                    }
                } else {
                    Err(SyntaxError::Unexpected(next as usize))
                },
                Err(e) => Err(e),
            }
        },
        _ => Err(SyntaxError::Unexpected(pos as usize)),
    }
}

/// The types that follow one another from `pos` on: the arguments of a
/// named type or of a tag.
pub open spec fn parsed_type_args(
    s: SourceModel,
    ast: AstModel,
    pos: int,
    end: int,
    depth: nat,
) -> ParsedAll
    decreases depth, 1int, end - pos,
{
    if starts_type(s, pos, end) {
        match parsed_type_atom(s, ast, pos, end, depth) {
            Ok((grown, node, next)) => if pos < next <= end {
                match parsed_type_args(s, grown, next, end, depth) {
                    Ok((last, nodes, after)) => Ok((last, seq![node] + nodes, after)),
                    Err(e) => Err(e),
                }
            } else {
                Err(SyntaxError::Unexpected(pos as usize))
            },
            Err(e) => Err(e),
        }
    } else {
        Ok((ast, Seq::empty(), pos))
    }
}

/// A named type with its arguments, or a type that stands alone.
pub open spec fn parsed_type_apply(
    s: SourceModel,
    ast: AstModel,
    pos: int,
    end: int,
    depth: nat,
) -> Parsed
    decreases depth, 2int, end - pos,
{
    if s.kind_at(pos, end) == Some(TokenKind::Upper) {
        match parsed_type_args(s, ast, pos + 1, end, depth) {
            Ok((grown, nodes, next)) => placed_with(
                s,
                grown,
                nodes,
                |span: Span| Kind::TyApply(s.span_at(pos), span),
                pos,
                next,
            ),
            Err(e) => Err(e),
        }
    } else {
        parsed_type_atom(s, ast, pos, end, depth)
    }
}

/// The types from `pos` on, separated by commas: the parameters of a
/// function type, or a single type.
pub open spec fn parsed_type_params(
    s: SourceModel,
    ast: AstModel,
    pos: int,
    end: int,
    depth: nat,
) -> ParsedAll
    decreases depth, 3int, end - pos,
{
    match parsed_type_apply(s, ast, pos, end, depth) {
        Ok((grown, node, next)) => if s.kind_at(next, end) == Some(TokenKind::Comma) && pos < next {
            match parsed_type_params(s, grown, next + 1, end, depth) {
                Ok((last, nodes, after)) => Ok((last, seq![node] + nodes, after)),
                Err(e) => Err(e),
            }
        } else {
            Ok((grown, seq![node], next))
        },
        Err(e) => Err(e),
    }
}

/// A type: a function type where an arrow follows the parameters, else the
/// one type that stands there.
pub open spec fn parsed_type(s: SourceModel, ast: AstModel, pos: int, end: int, depth: nat) -> Parsed
    decreases depth, 4int, end - pos,
{
    match parsed_type_params(s, ast, pos, end, depth) {
        Ok((grown, nodes, next)) => if s.kind_at(next, end) == Some(TokenKind::Arrow) {
            if depth == 0 {
                Err(SyntaxError::TooDeep(next as usize))
            } else {
                match parsed_type(s, grown, next + 1, end, (depth - 1) as nat) {
                    Ok((last, result, after)) => placed_with(
                        s,
                        last,
                        nodes,
                        |span: Span| Kind::TyFunction(span, result),
                        pos,
                        after,
                    ),
                    Err(e) => Err(e),
                }
            }
        } else if nodes.len() == 1 {
            Ok((grown, nodes[0], next))
        } else {
            Err(SyntaxError::Unexpected(next as usize))
        },
        Err(e) => Err(e),
    }
}

/// The tags of a union from `pos` up to the closing bracket, separated by
/// commas, each with the types of its payload.
pub open spec fn parsed_type_tags(
    s: SourceModel,
    ast: AstModel,
    pos: int,
    end: int,
    depth: nat,
) -> ParsedAll
    decreases depth, 5int, end - pos,
{
    if s.kind_at(pos, end) == Some(TokenKind::Upper) {
        match parsed_type_args(s, ast, pos + 1, end, depth) {
            Ok((a1, args, n1)) => match placed_with(
                s,
                a1,
                args,
                |span: Span| Kind::TyTag(s.span_at(pos), span),
                pos,
                n1,
            ) {
                Ok((a2, node, _)) => if s.kind_at(n1, end) == Some(TokenKind::Comma) && pos < n1 {
                    match parsed_type_tags(s, a2, n1 + 1, end, depth) {
                        Ok((last, nodes, after)) => Ok((last, seq![node] + nodes, after)),
                        Err(e) => Err(e),
                    }
                } else {
                    Ok((a2, seq![node], n1))
                },
                Err(e) => Err(e),
            },
            Err(e) => Err(e),
        }
    } else {
        Ok((ast, Seq::empty(), pos))
    }
}

/// Whether a type that stands alone can begin at `pos`.
fn type_starts(s: &Source, pos: usize, end: usize) -> (r: bool)
    ensures
        r == starts_type(s@, pos as int, end as int),
{
    match s.kind(pos, end) {
        Some(TokenKind::Upper) | Some(TokenKind::Star) | Some(TokenKind::Open) | Some(
            TokenKind::OpenSquare,
        ) => true,
        Some(TokenKind::Lower) => !s.keyword(pos, end),
        _ => false,
    }
}

/// Parses a type that stands alone.
fn type_atom(s: &Source, ast: &mut Ast, pos: usize, end: usize, depth: usize) -> (r: Result<
    (usize, usize),
    SyntaxError,
>)
    ensures
        agrees(
            r,
            final(ast)@,
            parsed_type_atom(s@, old(ast)@, pos as int, end as int, depth as nat),
        ),
    decreases depth, 0int, end - pos,
{
    match s.kind(pos, end) {
        Some(TokenKind::Upper) => {
            let span = no_links(ast);
            place(s, ast, Kind::TyApply(s.span(pos), span), pos, pos + 1)
        },
        Some(TokenKind::Lower) => {
            if s.keyword(pos, end) {
                Err(SyntaxError::Unexpected(pos))
            } else {
                place(s, ast, Kind::TyVar(s.span(pos)), pos, pos + 1)
            }
        },
        Some(TokenKind::Star) => place(s, ast, Kind::TyAny, pos, pos + 1),
        Some(TokenKind::Open) => {
            if depth == 0 {
                return Err(SyntaxError::TooDeep(pos));
            }
            match ty(s, ast, pos + 1, end, depth - 1) {
                Ok((node, next)) => {
                    if s.kind(next, end) == Some(TokenKind::Close) {
                        Ok((node, next + 1))
                    } else {
                        Err(SyntaxError::Unexpected(next))
                    }
                },
                Err(e) => Err(e),
            }
        },
        Some(TokenKind::OpenSquare) => {
            if depth == 0 {
                return Err(SyntaxError::TooDeep(pos));
            }
            let mut nodes: Vec<usize> = Vec::new();
            match type_tags(s, ast, &mut nodes, pos + 1, end, depth - 1) {
                Ok(next) => {
                    assert(nodes@ =~= Seq::<usize>::empty() + nodes@);
                    if s.kind(next, end) == Some(TokenKind::CloseSquare) {
                        let open = s.kind(next + 1, end) == Some(TokenKind::Star);
                        let span = ast.link(&nodes);
                        if open {
                            place(s, ast, Kind::TyUnion(span, true), pos, next + 2)
                        } else {
                            place(s, ast, Kind::TyUnion(span, false), pos, next + 1)
                        }
                    } else {
                        Err(SyntaxError::Unexpected(next))
                    }
                },
                Err(e) => Err(e),
            }
        },
        _ => Err(SyntaxError::Unexpected(pos)),
    }
}

/// Parses the arguments of a named type or of a tag.
fn type_args(
    s: &Source,
    ast: &mut Ast,
    out: &mut Vec<usize>,
    pos: usize,
    end: usize,
    depth: usize,
) -> (r: Result<usize, SyntaxError>)
    ensures
        agrees_into(
            r,
            final(ast)@,
            old(out)@,
            final(out)@,
            parsed_type_args(s@, old(ast)@, pos as int, end as int, depth as nat),
        ),
    decreases depth, 1int, end - pos,
{
    if type_starts(s, pos, end) {
        match type_atom(s, ast, pos, end, depth) {
            Ok((node, next)) => {
                if pos < next && next <= end {
                    out.push(node);
                    let ghost mid = ast@;
                    let r = type_args(s, ast, out, next, end, depth);
                    proof {
                        lemma_prepend(
                            old(out)@,
                            node,
                            parsed_type_args(s@, mid, next as int, end as int, depth as nat),
                        );
                    }
                    r
                } else {
                    Err(SyntaxError::Unexpected(pos))
                }
            },
            Err(e) => Err(e),
        }
    } else {
        assert(out@ + Seq::<usize>::empty() =~= out@);
        Ok(pos)
    }
}

/// Parses a named type with its arguments, or a type that stands alone.
fn type_apply(s: &Source, ast: &mut Ast, pos: usize, end: usize, depth: usize) -> (r: Result<
    (usize, usize),
    SyntaxError,
>)
    ensures
        agrees(
            r,
            final(ast)@,
            parsed_type_apply(s@, old(ast)@, pos as int, end as int, depth as nat),
        ),
    decreases depth, 2int, end - pos,
{
    if s.kind(pos, end) == Some(TokenKind::Upper) {
        let mut nodes: Vec<usize> = Vec::new();
        match type_args(s, ast, &mut nodes, pos + 1, end, depth) {
            Ok(next) => {
                assert(nodes@ =~= Seq::<usize>::empty() + nodes@);
                let span = ast.link(&nodes);
                place(s, ast, Kind::TyApply(s.span(pos), span), pos, next)
            },
            Err(e) => Err(e),
        }
    } else {
        type_atom(s, ast, pos, end, depth)
    }
}

/// Parses the parameters of a function type, or a single type.
fn type_params(
    s: &Source,
    ast: &mut Ast,
    out: &mut Vec<usize>,
    pos: usize,
    end: usize,
    depth: usize,
) -> (r: Result<usize, SyntaxError>)
    ensures
        agrees_into(
            r,
            final(ast)@,
            old(out)@,
            final(out)@,
            parsed_type_params(s@, old(ast)@, pos as int, end as int, depth as nat),
        ),
    decreases depth, 3int, end - pos,
{
    match type_apply(s, ast, pos, end, depth) {
        Ok((node, next)) => {
            out.push(node);
            if s.kind(next, end) == Some(TokenKind::Comma) && pos < next {
                let ghost mid = ast@;
                let r = type_params(s, ast, out, next + 1, end, depth);
                proof {
                    lemma_prepend(
                        old(out)@,
                        node,
                        parsed_type_params(s@, mid, next + 1, end as int, depth as nat),
                    );
                }
                r
            } else {
                assert(old(out)@.push(node) =~= old(out)@ + seq![node]);
                Ok(next)
            }
        },
        Err(e) => Err(e),
    }
}

/// Parses a type.
fn ty(s: &Source, ast: &mut Ast, pos: usize, end: usize, depth: usize) -> (r: Result<
    (usize, usize),
    SyntaxError,
>)
    ensures
        agrees(r, final(ast)@, parsed_type(s@, old(ast)@, pos as int, end as int, depth as nat)),
    decreases depth, 4int, end - pos,
{
    let mut nodes: Vec<usize> = Vec::new();
    match type_params(s, ast, &mut nodes, pos, end, depth) {
        Ok(next) => {
            assert(nodes@ =~= Seq::<usize>::empty() + nodes@);
            if s.kind(next, end) == Some(TokenKind::Arrow) {
                if depth == 0 {
                    return Err(SyntaxError::TooDeep(next));
                }
                match ty(s, ast, next + 1, end, depth - 1) {
                    Ok((result, after)) => {
                        let span = ast.link(&nodes);
                        place(s, ast, Kind::TyFunction(span, result), pos, after)
                    },
                    Err(e) => Err(e),
                }
            } else if nodes.len() == 1 {
                Ok((nodes[0], next))
            } else {
                Err(SyntaxError::Unexpected(next))
            }
        },
        Err(e) => Err(e),
    }
}

/// Parses the tags of a union.
fn type_tags(
    s: &Source,
    ast: &mut Ast,
    out: &mut Vec<usize>,
    pos: usize,
    end: usize,
    depth: usize,
) -> (r: Result<usize, SyntaxError>)
    ensures
        agrees_into(
            r,
            final(ast)@,
            old(out)@,
            final(out)@,
            parsed_type_tags(s@, old(ast)@, pos as int, end as int, depth as nat),
        ),
    decreases depth, 5int, end - pos,
{
    if s.kind(pos, end) == Some(TokenKind::Upper) {
        let mut args: Vec<usize> = Vec::new();
        match type_args(s, ast, &mut args, pos + 1, end, depth) {
            Ok(n1) => {
                assert(args@ =~= Seq::<usize>::empty() + args@);
                let span = ast.link(&args);
                match place(s, ast, Kind::TyTag(s.span(pos), span), pos, n1) {
                    Ok((node, _)) => {
                        out.push(node);
                        if s.kind(n1, end) == Some(TokenKind::Comma) && pos < n1 {
                            let ghost mid = ast@;
                            let r = type_tags(s, ast, out, n1 + 1, end, depth);
                            proof {
                                lemma_prepend(
                                    old(out)@,
                                    node,
                                    parsed_type_tags(s@, mid, n1 + 1, end as int, depth as nat),
                                );
                            }
                            r
                        } else {
                            assert(old(out)@.push(node) =~= old(out)@ + seq![node]);
                            Ok(n1)
                        }
                    },
                    Err(e) => Err(e),
                }
            },
            Err(e) => Err(e),
        }
    } else {
        assert(out@ + Seq::<usize>::empty() =~= out@);
        Ok(pos)
    }
}

/// The index after the names that follow one another from `pos` on.
pub open spec fn names_end(s: SourceModel, pos: int, end: int) -> int
    decreases end - pos,
{
    if s.kind_at(pos, end) == Some(TokenKind::Lower) && !s.keyword_at(pos, end) {
        names_end(s, pos + 1, end)
    } else {
        pos
    }
}

/// The type variables that the tokens from `pos` up to `stop` name.
pub open spec fn parsed_type_vars(s: SourceModel, ast: AstModel, pos: int, stop: int) -> ParsedAll
    decreases stop - pos,
{
    if pos < stop {
        match placed(s, ast, Kind::TyVar(s.span_at(pos)), pos, pos + 1) {
            Ok((grown, node, next)) => match parsed_type_vars(s, grown, next, stop) {
                Ok((last, nodes, after)) => Ok((last, seq![node] + nodes, after)),
                Err(e) => Err(e),
            },
            Err(e) => Err(e),
        }
    } else {
        Ok((ast, Seq::empty(), pos))
    }
}

/// What `r` is where it ends at `stop`, and the token that it stopped at
/// as unexpected where it does not.
pub open spec fn ending_at(r: Parsed, stop: int) -> Parsed {
    match r {
        Ok((ast, node, next)) => if next == stop {
            r
        } else {
            Err(SyntaxError::Unexpected(next as usize))
        },
        Err(e) => Err(e),
    }
}

/// The declaration or definition that the tokens from `pos` up to `stop`
/// are, or `None` where they have the form of neither: the declaration of a
/// named type, the declared type of a name, or the definition of a name. A
/// definition with names between the defined name and the equals sign is
/// an error of its own.
pub open spec fn parsed_declaration(
    s: SourceModel,
    ast: AstModel,
    pos: int,
    stop: int,
    depth: nat,
) -> Option<Parsed> {
    let after = names_end(s, pos + 1, stop);
    if s.kind_at(pos, stop) == Some(TokenKind::Upper) {
        if s.kind_at(after, stop) == Some(TokenKind::Colon) {
            Some(
                match parsed_type_vars(s, ast, pos + 1, after) {
                    Ok((a1, vars, _)) => match ending_at(
                        parsed_type(s, a1, after + 1, stop, depth),
                        stop,
                    ) {
                        Ok((a2, body, _)) => placed_with(
                            s,
                            a2,
                            vars,
                            |span: Span| Kind::Alias(s.span_at(pos), span, body),
                            pos,
                            stop,
                        ),
                        Err(e) => Err(e),
                    },
                    Err(e) => Err(e),
                },
            )
        } else {
            None
        }
    } else if s.kind_at(pos, stop) == Some(TokenKind::Lower) && !s.keyword_at(pos, stop) {
        if after == pos + 1 {
            if s.kind_at(pos + 1, stop) == Some(TokenKind::Colon) {
                Some(
                    match ending_at(parsed_type(s, ast, pos + 2, stop, depth), stop) {
                        Ok((grown, body, _)) => placed(
                            s,
                            grown,
                            Kind::Annotation(s.span_at(pos), body),
                            pos,
                            stop,
                        ),
                        Err(e) => Err(e),
                    },
                )
            } else if s.kind_at(pos + 1, stop) == Some(TokenKind::Equals) {
                Some(
                    match ending_at(parsed_expr(s, ast, pos + 2, stop, depth), stop) {
                        Ok((grown, body, _)) => placed(
                            s,
                            grown,
                            Kind::Def(s.span_at(pos), body),
                            pos,
                            stop,
                        ),
                        Err(e) => Err(e),
                    },
                )
            } else {
                None
            }
        } else if s.kind_at(after, stop) == Some(TokenKind::Equals) {
            Some(
                Err(
                    SyntaxError::ArgumentsBeforeEquals(
                        region_between(s.tokens, pos + 1, after - 1),
                    ),
                ),
            )
        } else {
            None
        }
    } else {
        None
    }
}

/// The declarations and definitions from `pos` on, and last the expression
/// that they lead to. Each begins with a token that leads its line at
/// `column` and reaches up to the next such token.
pub open spec fn parsed_block_items(
    s: SourceModel,
    ast: AstModel,
    pos: int,
    end: int,
    depth: nat,
    column: int,
) -> ParsedAll
    decreases end - pos,
{
    if pos < 0 || pos >= end {
        Err(SyntaxError::Unexpected(end as usize))
    } else {
        let stop = boundary(s.tokens, pos + 1, end, column);
        match parsed_declaration(s, ast, pos, stop, depth) {
            Some(Ok((grown, node, _))) => if pos < stop <= end {
                match parsed_block_items(s, grown, stop, end, depth, column) {
                    Ok((last, nodes, after)) => Ok((last, seq![node] + nodes, after)),
                    Err(e) => Err(e),
                }
            } else {
                Err(SyntaxError::Unexpected(pos as usize))
            },
            Some(Err(e)) => Err(e),
            None => if stop == end {
                match ending_at(parsed_expr(s, ast, pos, end, depth), end) {
                    Ok((grown, body, next)) => Ok((grown, seq![body], next)),
                    Err(e) => Err(e),
                }
            } else {
                Err(SyntaxError::Unexpected(stop as usize))
            },
        }
    }
}

/// The block that the tokens from `pos` up to `end` are: declarations and
/// definitions, one to a line at the column of the first token, and last
/// the expression that they lead to.
pub open spec fn parsed_block(s: SourceModel, ast: AstModel, pos: int, end: int) -> Parsed {
    if 0 <= pos < end <= s.tokens.len() {
        match parsed_block_items(s, ast, pos, end, MAX_DEPTH as nat, s.tokens[pos].column as int) {
            Ok((grown, nodes, _)) => if nodes.len() > 0 {
                placed_with(
                    s,
                    grown,
                    nodes.drop_last(),
                    |span: Span| Kind::Block(span, nodes.last()),
                    pos,
                    end,
                )
            } else {
                Err(SyntaxError::Unexpected(pos as usize))
            },
            Err(e) => Err(e),
        }
    } else {
        Err(SyntaxError::Unexpected(end as usize))
    }
}

/// The syntax tree of a submission, with the index of its root.
pub open spec fn parsed(chars: Seq<char>) -> Result<(SourceModel, AstModel, usize), SyntaxError> {
    match tokens_of(chars) {
        None => Err(SyntaxError::BadCharacter),
        Some(tokens) => {
            let s = SourceModel { chars, tokens };
            let empty = AstModel { nodes: Seq::empty(), links: Seq::empty() };
            if tokens.len() > MAX_TOKENS {
                Err(SyntaxError::TooLong)
            } else {
                match parsed_block(s, empty, 0, tokens.len() as int) {
                    Ok((ast, root, _)) => Ok((s, ast, root)),
                    Err(e) => Err(e),
                }
            }
        },
    }
}

/// The index of the first token from `i` on that begins at or after the
/// character `mark`; the number of tokens where there is none.
pub open spec fn split_at(tokens: Seq<Token>, mark: int, i: int) -> int
    decreases tokens.len() - i,
{
    if 0 <= i < tokens.len() && tokens[i].start < mark {
        split_at(tokens, mark, i + 1)
    } else {
        i
    }
}

/// The index of the token that begins the last of the parts that begin at
/// `column` between `pos` and `end`: the expression of a block.
pub open spec fn last_part(tokens: Seq<Token>, pos: int, end: int, column: int) -> int
    decreases end - pos,
{
    let stop = boundary(tokens, pos + 1, end, column);
    if pos < stop < end {
        last_part(tokens, stop, end, column)
    } else {
        pos
    }
}

/// A program: the declarations that the language brings, and after them a
/// submission.
pub struct ProgramModel {
    pub source: SourceModel,
    pub ast: AstModel,
    /// The root of the declarations that the language brings.
    pub prelude: usize,
    /// The root of the submission.
    pub root: usize,
    /// The index of the submission's first token.
    pub split: usize,
    /// The index of the token that begins the submission's expression.
    pub body: usize,
}

/// The program of a prelude and a submission: the two are parsed as blocks
/// of their own, after one another in one text.
pub open spec fn parsed_program(prelude: Seq<char>, text: Seq<char>) -> Result<
    ProgramModel,
    SyntaxError,
> {
    let chars = prelude + seq!['\n'] + text;
    match tokens_of(chars) {
        None => Err(SyntaxError::BadCharacter),
        Some(tokens) => {
            let s = SourceModel { chars, tokens };
            let empty = AstModel { nodes: Seq::empty(), links: Seq::empty() };
            let split = split_at(tokens, prelude.len() as int, 0);
            if tokens.len() - split > MAX_TOKENS {
                Err(SyntaxError::TooLong)
            } else {
                match parsed_block(s, empty, 0, split) {
                    Ok((a1, first, _)) => match parsed_block(s, a1, split, tokens.len() as int) {
                    Ok((a2, root, _)) => Ok(
                        ProgramModel {
                            source: s,
                            ast: a2,
                            prelude: first,
                            root,
                            split: split as usize,
                            body: last_part(
                                tokens,
                                split,
                                tokens.len() as int,
                                tokens[split].column as int,
                            ) as usize,
                        },
                    ),
                        Err(e) => Err(e),
                    },
                    Err(e) => Err(e),
                }
            }
        },
    }
}

/// The index after the names that follow one another from `pos` on.
fn skip_names(s: &Source, pos: usize, end: usize) -> (r: usize)
    ensures
        r == names_end(s@, pos as int, end as int),
        pos <= r,
        pos <= end ==> r <= end,
{
    let mut i: usize = pos;
    while s.kind(i, end) == Some(TokenKind::Lower) && !s.keyword(i, end)
        invariant
            pos <= i,
            pos <= end ==> i <= end,
            names_end(s@, pos as int, end as int) == names_end(s@, i as int, end as int),
        decreases end - i,
    {
        i = i + 1;
    }
    i
}

/// Adds the type variables that the tokens from `pos` up to `stop` name.
fn type_vars(s: &Source, ast: &mut Ast, out: &mut Vec<usize>, pos: usize, stop: usize) -> (r:
    Result<usize, SyntaxError>)
    ensures
        agrees_into(
            r,
            final(ast)@,
            old(out)@,
            final(out)@,
            parsed_type_vars(s@, old(ast)@, pos as int, stop as int),
        ),
    decreases stop - pos,
{
    if pos < stop {
        match place(s, ast, Kind::TyVar(s.span(pos)), pos, pos + 1) {
            Ok((node, next)) => {
                out.push(node);
                let ghost mid = ast@;
                let r = type_vars(s, ast, out, next, stop);
                proof {
                    lemma_prepend(
                        old(out)@,
                        node,
                        parsed_type_vars(s@, mid, next as int, stop as int),
                    );
                }
                r
            },
            Err(e) => Err(e),
        }
    } else {
        assert(out@ + Seq::<usize>::empty() =~= out@);
        Ok(pos)
    }
}

/// Parses a declaration or a definition. Returns `None` where the tokens
/// have the form of neither; the arena is then as it was.
fn declaration(s: &Source, ast: &mut Ast, pos: usize, stop: usize, depth: usize) -> (r: Option<
    Result<(usize, usize), SyntaxError>,
>)
    requires
        pos < usize::MAX,
    ensures
        match r {
            Some(found) => parsed_declaration(
                s@,
                old(ast)@,
                pos as int,
                stop as int,
                depth as nat,
            ) matches Some(expected) && agrees(found, final(ast)@, expected) && (found matches Ok(
                (_, next),
            ) ==> next == stop),
            None => parsed_declaration(s@, old(ast)@, pos as int, stop as int, depth as nat)
                is None && final(ast)@ == old(ast)@,
        },
{
    let after = skip_names(s, pos + 1, stop);
    if s.kind(pos, stop) == Some(TokenKind::Upper) {
        if s.kind(after, stop) == Some(TokenKind::Colon) {
            let mut vars: Vec<usize> = Vec::new();
            match type_vars(s, ast, &mut vars, pos + 1, after) {
                Ok(_) => {
                    assert(vars@ =~= Seq::<usize>::empty() + vars@);
                    match ty(s, ast, after + 1, stop, depth) {
                        Ok((body, next)) => {
                            if next != stop {
                                return Some(Err(SyntaxError::Unexpected(next)));
                            }
                            let span = ast.link(&vars);
                            Some(place(s, ast, Kind::Alias(s.span(pos), span, body), pos, stop))
                        },
                        Err(e) => Some(Err(e)),
                    }
                },
                Err(e) => Some(Err(e)),
            }
        } else {
            None
        }
    } else if s.kind(pos, stop) == Some(TokenKind::Lower) && !s.keyword(pos, stop) {
        if after == pos + 1 {
            if s.kind(pos + 1, stop) == Some(TokenKind::Colon) {
                match ty(s, ast, pos + 2, stop, depth) {
                    Ok((body, next)) => {
                        if next != stop {
                            return Some(Err(SyntaxError::Unexpected(next)));
                        }
                        Some(place(s, ast, Kind::Annotation(s.span(pos), body), pos, stop))
                    },
                    Err(e) => Some(Err(e)),
                }
            } else if s.kind(pos + 1, stop) == Some(TokenKind::Equals) {
                match expr(s, ast, pos + 2, stop, depth) {
                    Ok((body, next)) => {
                        if next != stop {
                            return Some(Err(SyntaxError::Unexpected(next)));
                        }
                        Some(place(s, ast, Kind::Def(s.span(pos), body), pos, stop))
                    },
                    Err(e) => Some(Err(e)),
                }
            } else {
                None
            }
        } else if s.kind(after, stop) == Some(TokenKind::Equals) {
            Some(
                Err(SyntaxError::ArgumentsBeforeEquals(region_of(&s.tokens, pos + 1, after - 1))),
            )
        } else {
            None
        }
    } else {
        None
    }
}

/// Parses the declarations and definitions of a submission, and last the
/// expression that they lead to.
fn block_items(
    s: &Source,
    ast: &mut Ast,
    out: &mut Vec<usize>,
    pos: usize,
    end: usize,
    depth: usize,
    column: usize,
) -> (r: Result<usize, SyntaxError>)
    ensures
        agrees_into(
            r,
            final(ast)@,
            old(out)@,
            final(out)@,
            parsed_block_items(s@, old(ast)@, pos as int, end as int, depth as nat, column as int),
        ),
    decreases end - pos,
{
    if pos >= end {
        return Err(SyntaxError::Unexpected(end));
    }
    let stop = find_boundary(&s.tokens, pos + 1, end, column);
    match declaration(s, ast, pos, stop, depth) {
        Some(Ok((node, _))) => {
            if pos < stop && stop <= end {
                out.push(node);
                let ghost mid = ast@;
                let r = block_items(s, ast, out, stop, end, depth, column);
                proof {
                    lemma_prepend(
                        old(out)@,
                        node,
                        parsed_block_items(
                            s@,
                            mid,
                            stop as int,
                            end as int,
                            depth as nat,
                            column as int,
                        ),
                    );
                }
                r
            } else {
                Err(SyntaxError::Unexpected(pos))
            }
        },
        Some(Err(e)) => Err(e),
        None => {
            if stop == end {
                match expr(s, ast, pos, end, depth) {
                    Ok((body, next)) => {
                        if next != end {
                            return Err(SyntaxError::Unexpected(next));
                        }
                        out.push(body);
                        assert(old(out)@.push(body) =~= old(out)@ + seq![body]);
                        Ok(next)
                    },
                    Err(e) => Err(e),
                }
            } else {
                Err(SyntaxError::Unexpected(stop))
            }
        },
    }
}

/// A submission that was parsed: its source, its syntax tree, and the
/// index of the tree's root.
pub struct Tree {
    pub source: Source,
    pub ast: Ast,
    pub root: usize,
}

/// Parses the tokens from `pos` up to `end` as a block.
pub fn block(s: &Source, ast: &mut Ast, pos: usize, end: usize) -> (r: Result<
    (usize, usize),
    SyntaxError,
>)
    ensures
        agrees(r, final(ast)@, parsed_block(s@, old(ast)@, pos as int, end as int)),
{
    if !(pos < end && end <= s.tokens.len()) {
        return Err(SyntaxError::Unexpected(end));
    }
    let mut nodes: Vec<usize> = Vec::new();
    let column = s.tokens[pos].column;
    match block_items(s, ast, &mut nodes, pos, end, MAX_DEPTH, column) {
        Ok(_) => {
            assert(nodes@ =~= Seq::<usize>::empty() + nodes@);
            let ghost all = nodes@;
            match nodes.pop() {
                Some(body) => {
                    assert(nodes@ =~= all.drop_last());
                    let span = ast.link(&nodes);
                    place(s, ast, Kind::Block(span, body), pos, end)
                },
                None => Err(SyntaxError::Unexpected(pos)),
            }
        },
        Err(e) => Err(e),
    }
}

/// Parses a submission: declarations and definitions, one to a line at the
/// column of the first, and last the expression that they lead to.
pub fn parse(text: &str) -> (r: Result<Tree, SyntaxError>)
    ensures
        match r {
            Ok(tree) => parsed(text@) == Ok::<(SourceModel, AstModel, usize), SyntaxError>(
                (tree.source@, tree.ast@, tree.root),
            ),
            Err(e) => parsed(text@) == Err::<(SourceModel, AstModel, usize), SyntaxError>(e),
        },
{
    let chars = chars_of(text);
    let tokens = match tokenize(&chars) {
        Some(tokens) => tokens,
        None => {
            return Err(SyntaxError::BadCharacter);
        },
    };
    let source = Source { chars, tokens };
    if source.tokens.len() > MAX_TOKENS {
        return Err(SyntaxError::TooLong);
    }
    let mut ast = Ast::new();
    assert(ast@.nodes =~= Seq::<Node>::empty() && ast@.links =~= Seq::<usize>::empty());
    let end = source.tokens.len();
    match block(&source, &mut ast, 0, end) {
        Ok((root, _)) => Ok(Tree { source, ast, root }),
        Err(e) => Err(e),
    }
}

/// A program that was parsed.
pub struct Program {
    pub source: Source,
    pub ast: Ast,
    pub prelude: usize,
    pub root: usize,
    pub split: usize,
    pub body: usize,
}

impl View for Program {
    type V = ProgramModel;

    open spec fn view(&self) -> ProgramModel {
        ProgramModel {
            source: self.source@,
            ast: self.ast@,
            prelude: self.prelude,
            root: self.root,
            split: self.split,
            body: self.body,
        }
    }
}

/// Parses a prelude and a submission as one program.
pub fn parse_program(prelude: &Vec<char>, text: &Vec<char>) -> (r: Result<Program, SyntaxError>)
    ensures
        match r {
            Ok(program) => parsed_program(prelude@, text@) == Ok::<ProgramModel, SyntaxError>(
                program@,
            ),
            Err(e) => parsed_program(prelude@, text@) == Err::<ProgramModel, SyntaxError>(e),
        },
{
    let mut chars = crate::text::copy(prelude);
    chars.push('\n');
    crate::text::append(&mut chars, text);
    assert(chars@ =~= prelude@ + seq!['\n'] + text@);
    let tokens = match tokenize(&chars) {
        Some(tokens) => tokens,
        None => {
            return Err(SyntaxError::BadCharacter);
        },
    };
    let source = Source { chars, tokens };
    let mut split: usize = 0;
    while split < source.tokens.len() && source.tokens[split].start < prelude.len()
        invariant
            split <= source.tokens@.len(),
            split_at(source.tokens@, prelude@.len() as int, 0) == split_at(
                source.tokens@,
                prelude@.len() as int,
                split as int,
            ),
        decreases source.tokens.len() - split,
    {
        split = split + 1;
    }
    if source.tokens.len() - split > MAX_TOKENS {
        return Err(SyntaxError::TooLong);
    }
    let mut ast = Ast::new();
    assert(ast@.nodes =~= Seq::<Node>::empty() && ast@.links =~= Seq::<usize>::empty());
    let end = source.tokens.len();
    let first = match block(&source, &mut ast, 0, split) {
        Ok((first, _)) => first,
        Err(e) => {
            return Err(e);
        },
    };
    let root = match block(&source, &mut ast, split, end) {
        Ok((root, _)) => root,
        Err(e) => {
            return Err(e);
        },
    };
    let column = source.tokens[split].column;
    let mut body: usize = split;
    let mut stop = find_boundary(&source.tokens, body + 1, end, column);
    while body < stop && stop < end
        invariant
            split <= body < end == source.tokens@.len(),
            stop == boundary(source.tokens@, body + 1, end as int, column as int),
            last_part(source.tokens@, split as int, end as int, column as int) == last_part(
                source.tokens@,
                body as int,
                end as int,
                column as int,
            ),
        decreases end - body,
    {
        body = stop;
        stop = find_boundary(&source.tokens, body + 1, end, column);
    }
    Ok(Program { source, ast, prelude: first, root, split, body })
}

} // verus!
