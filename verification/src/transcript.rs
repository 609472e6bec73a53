//! Reading what an evaluator process wrote: the banner is cut away, the answer
//! is framed, escape sequences are removed, and a diagnostic is found by its
//! header rule.

use vstd::prelude::*;
use vstd::utf8::*;
use vstd::string::*;
use crate::text::{chars_of, same_text, text_of};

verus! {

/// The first character of every diagnostic's header rule.
pub const ERROR_MESSAGE_START: char = '\u{2500}';

/// How the evaluator process ended.
#[derive(Clone, Copy, Debug, PartialEq, Eq, Structural)]
pub struct Status {
    /// Whether the process reported success.
    pub success: bool,
    /// The signal that ended it, if one did.
    pub signal: Option<i32>,
}

/// What one submission produced.
#[derive(Debug)]
pub struct Out {
    pub stdout: String,
    pub stderr: String,
    pub status: Status,
}

/// Why no answer could be read from the process output.
#[derive(Clone, Copy, Debug, PartialEq, Eq, Structural)]
pub enum TranscriptError {
    /// The output does not begin with the banner.
    MissingBanner,
    /// Nothing follows the banner, and the process died of a segmentation fault.
    Segfault,
    /// Nothing follows the banner, and the process ended some other way.
    ExitedEarly,
    /// The answer does not end in a newline.
    MissingNewline,
    /// The answer is a lone newline, with nothing between the delimiters.
    TooShort,
    /// The answer's first character is longer than one byte.
    SplitCharacter,
    /// Removing the escape sequences failed.
    StripFailed,
    /// What is left after removing the escape sequences is not UTF-8.
    NotUtf8,
}

/// The signal number of a segmentation fault.
pub const SIGSEGV: i32 = 11;

/// The answer inside `stdout`: what stands between the banner and the closing
/// newline, without its first byte.
pub open spec fn framed(stdout: Seq<u8>, banner: Seq<u8>, status: Status) -> Result<
    Seq<u8>,
    TranscriptError,
> {
    if !banner.is_prefix_of(stdout) {
        Err(TranscriptError::MissingBanner)
    } else {
        let answer = stdout.skip(banner.len() as int);
        if answer.len() == 0 {
            if status.signal == Some(SIGSEGV) {
                Err(TranscriptError::Segfault)
            } else {
                Err(TranscriptError::ExitedEarly)
            }
        } else if answer.last() != 0x0au8 {
            Err(TranscriptError::MissingNewline)
        } else if answer.len() < 2 {
            Err(TranscriptError::TooShort)
        } else if is_continuation_byte(answer[1]) {
            Err(TranscriptError::SplitCharacter)
        } else {
            Ok(answer.subrange(1, answer.len() - 1))
        }
    }
}

/// Whether `stdout` begins with `banner`.
fn has_prefix(stdout: &[u8], banner: &[u8]) -> (r: bool)
    ensures
        r == banner@.is_prefix_of(stdout@),
{
    if banner.len() > stdout.len() {
        return false;
    }
    let mut i: usize = 0;
    while i < banner.len()
        invariant
            i <= banner.len() <= stdout.len(),
            forall|k: int| 0 <= k < i ==> banner@[k] == stdout@[k],
        decreases banner.len() - i,
    {
        if banner[i] != stdout[i] {
            return false;
        }
        i = i + 1;
    }
    assert(banner@ =~= stdout@.subrange(0, banner@.len() as int));
    true
}

/// Frames the answer in the bytes that the process wrote.
pub fn frame_answer(stdout: &[u8], banner: &[u8], status: Status) -> (r: Result<
    Vec<u8>,
    TranscriptError,
>)
    ensures
        match framed(stdout@, banner@, status) {
            Ok(body) => r.is_ok() && r.unwrap()@ == body,
            Err(e) => r == Err::<Vec<u8>, TranscriptError>(e),
        },
{
    if !has_prefix(stdout, banner) {
        return Err(TranscriptError::MissingBanner);
    }
    let start: usize = banner.len();
    let end: usize = stdout.len();
    let ghost answer = stdout@.skip(start as int);
    if start == end {
        return match status.signal {
            Some(n) => if n == SIGSEGV {
                Err(TranscriptError::Segfault)
            } else {
                Err(TranscriptError::ExitedEarly)
            },
            None => Err(TranscriptError::ExitedEarly),
        };
    }
    if stdout[end - 1] != 0x0au8 {
        return Err(TranscriptError::MissingNewline);
    }
    if end - start < 2 {
        return Err(TranscriptError::TooShort);
    }
    let second: u8 = stdout[start + 1];
    assert(second == answer[1]);
    if 0x80 <= second && second <= 0xbf {
        return Err(TranscriptError::SplitCharacter);
    }
    let mut body: Vec<u8> = Vec::new();
    let mut i: usize = start + 1;
    while i < end - 1
        invariant
            start + 1 <= i <= end - 1,
            end == stdout@.len(),
            body@ == stdout@.subrange(start + 1, i as int),
        decreases end - i,
    {
        body.push(stdout[i]);
        i = i + 1;
    }
    assert(body@ =~= answer.subrange(1, answer.len() - 1));
    Ok(body)
}

/// Declares `std::io::Error`, which a failed write reports.
#[verifier::external_type_specification]
#[verifier::external_body]
pub struct ExIoError(std::io::Error);

/// Declares `std::string::FromUtf8Error`, which holds the bytes that were not UTF-8.
#[verifier::external_type_specification]
#[verifier::external_body]
pub struct ExFromUtf8Error(std::string::FromUtf8Error);

/// `String::from_utf8` succeeds exactly on well-formed UTF-8, and the string
/// it returns then holds the characters that the bytes encode.
pub assume_specification[ String::from_utf8 ](vec: Vec<u8>) -> (r: Result<
    String,
    std::string::FromUtf8Error,
>)
    ensures
        r.is_ok() == valid_utf8(vec@),
        r matches Ok(s) ==> s@ == decode_utf8(vec@),
;

/// What is left of `data` once the terminal escape sequences in it are
/// removed, or `None` where the removal reports a failed write.
pub uninterp spec fn stripped(data: Seq<u8>) -> Option<Seq<u8>>;

/// Calls `strip_ansi_escapes::strip`, which feeds the bytes through a terminal
/// state machine and collects in memory what that machine prints. The result
/// depends on the bytes alone; nothing more is claimed of it here.
#[verifier::external_body]
fn strip_escapes(data: &[u8]) -> (r: Result<Vec<u8>, std::io::Error>)
    ensures
        match r {
            Ok(plain) => stripped(data@) == Some(plain@),
            Err(_) => stripped(data@).is_none(),
        },
{
    strip_ansi_escapes::strip(data)
}

/// The text of an answer whose escape sequences were removed.
pub open spec fn finished(plain: Option<Seq<u8>>) -> Result<Seq<char>, TranscriptError> {
    match plain {
        None => Err(TranscriptError::StripFailed),
        Some(bytes) => if valid_utf8(bytes) {
            Ok(decode_utf8(bytes))
        } else {
            Err(TranscriptError::NotUtf8)
        },
    }
}

/// The answer that `stdout` holds, as text without escape sequences.
pub open spec fn answer(stdout: Seq<u8>, banner: Seq<u8>, status: Status) -> Result<
    Seq<char>,
    TranscriptError,
> {
    match framed(stdout, banner, status) {
        Err(e) => Err(e),
        Ok(body) => finished(stripped(body)),
    }
}

/// Whether `r` is the outcome `expected`, carrying `stderr` and `status` along.
pub open spec fn is_outcome(
    r: Result<Out, TranscriptError>,
    expected: Result<Seq<char>, TranscriptError>,
    stderr: Seq<char>,
    status: Status,
) -> bool {
    match expected {
        Ok(text) => r matches Ok(out) && out.stdout@ == text && out.stderr@ == stderr
            && out.status == status,
        Err(e) => r matches Err(got) && got == e,
    }
}

/// Builds the outcome from the answer's bytes once the escape sequences are
/// gone; `None` stands for a removal that failed.
pub fn finish_answer(plain: Option<Vec<u8>>, stderr: String, status: Status) -> (r: Result<
    Out,
    TranscriptError,
>)
    ensures
        is_outcome(
            r,
            finished(
                match plain {
                    Some(bytes) => Some(bytes@),
                    None => None,
                },
            ),
            stderr@,
            status,
        ),
{
    match plain {
        None => Err(TranscriptError::StripFailed),
        Some(bytes) => match String::from_utf8(bytes) {
            Ok(stdout) => Ok(Out { stdout, stderr, status }),
            Err(_) => Err(TranscriptError::NotUtf8),
        },
    }
}

/// Reads the answer to one submission out of what the process wrote after
/// `banner`, and returns it with escape sequences removed.
pub fn read_answer(stdout: &str, stderr: String, status: Status, banner: &str) -> (r: Result<
    Out,
    TranscriptError,
>)
    ensures
        is_outcome(r, answer(stdout.spec_bytes(), banner.spec_bytes(), status), stderr@, status),
{
    match frame_answer(stdout.as_bytes(), banner.as_bytes(), status) {
        Err(e) => Err(e),
        Ok(body) => {
            let plain = match strip_escapes(body.as_slice()) {
                Ok(bytes) => Some(bytes),
                Err(_) => None,
            };
            finish_answer(plain, stderr, status)
        },
    }
}

/// Where the first diagnostic's header rule starts in `text`: the least index
/// that holds the rule character, or the length of `text` if none does.
pub fn find_rule(text: &Vec<char>) -> (r: usize)
    ensures
        r <= text@.len(),
        forall|j: int| 0 <= j < r ==> text@[j] != ERROR_MESSAGE_START,
        r < text@.len() ==> text@[r as int] == ERROR_MESSAGE_START,
{
    let mut i: usize = 0;
    while i < text.len()
        invariant
            i <= text@.len(),
            forall|j: int| 0 <= j < i ==> text@[j] != ERROR_MESSAGE_START,
        decreases text.len() - i,
    {
        if text[i] == ERROR_MESSAGE_START {
            return i;
        }
        i = i + 1;
    }
    i
}

/// Whether `start` is where the first header rule of `text` begins.
pub open spec fn is_rule_start(text: Seq<char>, start: int) -> bool {
    &&& 0 <= start < text.len()
    &&& text[start] == ERROR_MESSAGE_START
    &&& forall|j: int| 0 <= j < start ==> text[j] != ERROR_MESSAGE_START
}

/// The diagnostic in `stdout`: everything from the first header rule on.
/// Whatever was printed before the rule is skipped.
pub fn failure_report(stdout: &str) -> (r: Option<String>)
    ensures
        r is None <==> !stdout@.contains(ERROR_MESSAGE_START),
        r matches Some(report) ==> exists|start: int|
            is_rule_start(stdout@, start) && report@ == stdout@.skip(start),
{
    let text = chars_of(stdout);
    let start = find_rule(&text);
    if start == text.len() {
        return None;
    }
    let mut tail: Vec<char> = Vec::new();
    let mut i: usize = start;
    while i < text.len()
        invariant
            start <= i <= text@.len(),
            tail@ == text@.subrange(start as int, i as int),
        decreases text.len() - i,
    {
        tail.push(text[i]);
        i = i + 1;
    }
    let report = text_of(&tail);
    assert(is_rule_start(stdout@, start as int) && report@ == stdout@.skip(start as int));
    Some(report)
}

/// Whether `out` is a clean success that printed exactly `expected`.
pub fn is_success(out: &Out, expected: &str) -> (r: bool)
    ensures
        r == (out.stderr@.len() == 0 && out.stdout@ == expected@ && out.status.success),
{
    out.stderr.as_str().is_empty() && same_text(out.stdout.as_str(), expected)
        && out.status.success
}

/// Whether `out` is a clean run whose first diagnostic, with all that follows
/// it, is exactly `expected`.
pub fn is_failure(out: &Out, expected: &str) -> (r: bool)
    ensures
        r == (out.stderr@.len() == 0 && out.status.success && exists|start: int|
            is_rule_start(out.stdout@, start) && expected@ == out.stdout@.skip(start)),
{
    match failure_report(out.stdout.as_str()) {
        Some(report) => {
            let same = same_text(report.as_str(), expected);
            proof {
                let found = choose|start: int|
                    is_rule_start(out.stdout@, start) && report@ == out.stdout@.skip(start);
                assert forall|start: int| is_rule_start(out.stdout@, start) implies start
                    == found by {}
            }
            out.stderr.as_str().is_empty() && same && out.status.success
        },
        None => {
            assert forall|start: int| !is_rule_start(out.stdout@, start) by {}
            false
        },
    }
}

} // verus!
