//! The functions that the language provides.

use vstd::prelude::*;
use crate::num::{
    add_checked, add_wrap, bitwise_and, bitwise_xor, ceil_quotient, div_ceil, div_floor,
    floor_quotient, mul_checked, mul_wrap, rem, remainder, sub_checked, sub_wrap, IntWidth,
};
use crate::parser::{numeral_from, numeral_of};
use crate::syntax::Span;
use crate::text::{chars_of, is_text, UNIT};
use crate::values::{alike, equal, Crash, ValNode, Values, ValuesModel};

verus! {

/// How deep a comparison of two values may go.
pub const COMPARE_FUEL: usize = 10_000;

/// The operations on two whole numbers.
#[derive(Clone, Copy, Debug, PartialEq, Eq, Structural)]
pub enum IntOp {
    Add,
    Sub,
    Mul,
    Rem,
    DivFloor,
    DivCeil,
    AddWrap,
    SubWrap,
    MulWrap,
    AddChecked,
    SubChecked,
    MulChecked,
    And,
    Xor,
}

/// What an operation on numbers comes to.
#[derive(Clone, Copy, Debug, PartialEq, Eq, Structural)]
pub enum Outcome {
    /// A number.
    Plain(i128),
    /// A success that holds a number.
    Okay(i128),
    /// A division by zero, reported as a value.
    DivByZero,
    /// An overflow, reported as a value.
    Overflow,
    /// A result outside the range of the numbers, which ends the evaluation.
    Crashed,
}

/// The operation that a function's name stands for.
pub open spec fn int_op(name: Seq<char>) -> Option<IntOp> {
    if name == "Num.add"@ {
        Some(IntOp::Add)
    } else if name == "Num.sub"@ {
        Some(IntOp::Sub)
    } else if name == "Num.mul"@ {
        Some(IntOp::Mul)
    } else if name == "Num.rem"@ {
        Some(IntOp::Rem)
    } else if name == "Num.divFloor"@ {
        Some(IntOp::DivFloor)
    } else if name == "Num.divCeil"@ {
        Some(IntOp::DivCeil)
    } else if name == "Num.addWrap"@ {
        Some(IntOp::AddWrap)
    } else if name == "Num.subWrap"@ {
        Some(IntOp::SubWrap)
    } else if name == "Num.mulWrap"@ {
        Some(IntOp::MulWrap)
    } else if name == "Num.addChecked"@ {
        Some(IntOp::AddChecked)
    } else if name == "Num.subChecked"@ {
        Some(IntOp::SubChecked)
    } else if name == "Num.mulChecked"@ {
        Some(IntOp::MulChecked)
    } else if name == "Num.bitwiseAnd"@ {
        Some(IntOp::And)
    } else if name == "Num.bitwiseXor"@ {
        Some(IntOp::Xor)
    } else {
        None
    }
}

/// The operation that a function's name stands for.
pub fn int_op_of(name: &Vec<char>) -> (r: Option<IntOp>)
    ensures
        r == int_op(name@),
{
    if is_text(name, "Num.add") {
        Some(IntOp::Add)
    } else if is_text(name, "Num.sub") {
        Some(IntOp::Sub)
    } else if is_text(name, "Num.mul") {
        Some(IntOp::Mul)
    } else if is_text(name, "Num.rem") {
        Some(IntOp::Rem)
    } else if is_text(name, "Num.divFloor") {
        Some(IntOp::DivFloor)
    } else if is_text(name, "Num.divCeil") {
        Some(IntOp::DivCeil)
    } else if is_text(name, "Num.addWrap") {
        Some(IntOp::AddWrap)
    } else if is_text(name, "Num.subWrap") {
        Some(IntOp::SubWrap)
    } else if is_text(name, "Num.mulWrap") {
        Some(IntOp::MulWrap)
    } else if is_text(name, "Num.addChecked") {
        Some(IntOp::AddChecked)
    } else if is_text(name, "Num.subChecked") {
        Some(IntOp::SubChecked)
    } else if is_text(name, "Num.mulChecked") {
        Some(IntOp::MulChecked)
    } else if is_text(name, "Num.bitwiseAnd") {
        Some(IntOp::And)
    } else if is_text(name, "Num.bitwiseXor") {
        Some(IntOp::Xor)
    } else {
        None
    }
}

/// What an operation on two whole numbers of the default width comes to.
/// The plain operations end the evaluation where their result leaves the
/// width; the wrapping ones reduce it by two's complement; the checked ones
/// report an overflow; the divisions report a zero divisor.
pub open spec fn int_outcome(op: IntOp, a: int, b: int) -> Outcome {
    let w = IntWidth::I64;
    match op {
        IntOp::Add => if w.holds(a + b) {
            Outcome::Plain((a + b) as i128)
        } else {
            Outcome::Crashed
        },
        IntOp::Sub => if w.holds(a - b) {
            Outcome::Plain((a - b) as i128)
        } else {
            Outcome::Crashed
        },
        IntOp::Mul => if w.holds(a * b) {
            Outcome::Plain((a * b) as i128)
        } else {
            Outcome::Crashed
        },
        IntOp::AddWrap => Outcome::Plain(w.wrapped(a + b) as i128),
        IntOp::SubWrap => Outcome::Plain(w.wrapped(a - b) as i128),
        IntOp::MulWrap => Outcome::Plain(w.wrapped(a * b) as i128),
        IntOp::AddChecked => if w.holds(a + b) {
            Outcome::Okay((a + b) as i128)
        } else {
            Outcome::Overflow
        },
        IntOp::SubChecked => if w.holds(a - b) {
            Outcome::Okay((a - b) as i128)
        } else {
            Outcome::Overflow
        },
        IntOp::MulChecked => if w.holds(a * b) {
            Outcome::Okay((a * b) as i128)
        } else {
            Outcome::Overflow
        },
        IntOp::Rem => if b == 0 {
            Outcome::DivByZero
        } else {
            Outcome::Okay(remainder(a, b) as i128)
        },
        IntOp::DivFloor => if b == 0 {
            Outcome::DivByZero
        } else {
            Outcome::Okay(w.wrapped(floor_quotient(a, b)) as i128)
        },
        IntOp::DivCeil => if b == 0 {
            Outcome::DivByZero
        } else {
            Outcome::Okay(w.wrapped(ceil_quotient(a, b)) as i128)
        },
        IntOp::And => Outcome::Plain(w.wrapped(((a as i128) & (b as i128)) as int) as i128),
        IntOp::Xor => Outcome::Plain(w.wrapped(((a as i128) ^ (b as i128)) as int) as i128),
    }
}

/// Works out an operation on two whole numbers of the default width.
pub fn int_operation(op: IntOp, a: i128, b: i128) -> (r: Outcome)
    requires
        IntWidth::I64.holds(a as int),
        IntWidth::I64.holds(b as int),
    ensures
        r == int_outcome(op, a as int, b as int),
{
    let w = IntWidth::I64;
    match op {
        IntOp::Add => match add_checked(w, a, b) {
            Ok(x) => Outcome::Plain(x),
            Err(_) => Outcome::Crashed,
        },
        IntOp::Sub => match sub_checked(w, a, b) {
            Ok(x) => Outcome::Plain(x),
            Err(_) => Outcome::Crashed,
        },
        IntOp::Mul => match mul_checked(w, a, b) {
            Ok(x) => Outcome::Plain(x),
            Err(_) => Outcome::Crashed,
        },
        IntOp::AddWrap => Outcome::Plain(add_wrap(w, a, b)),
        IntOp::SubWrap => Outcome::Plain(sub_wrap(w, a, b)),
        IntOp::MulWrap => Outcome::Plain(mul_wrap(w, a, b)),
        IntOp::AddChecked => match add_checked(w, a, b) {
            Ok(x) => Outcome::Okay(x),
            Err(_) => Outcome::Overflow,
        },
        IntOp::SubChecked => match sub_checked(w, a, b) {
            Ok(x) => Outcome::Okay(x),
            Err(_) => Outcome::Overflow,
        },
        IntOp::MulChecked => match mul_checked(w, a, b) {
            Ok(x) => Outcome::Okay(x),
            Err(_) => Outcome::Overflow,
        },
        IntOp::Rem => match rem(w, a, b) {
            Ok(x) => Outcome::Okay(x),
            Err(_) => Outcome::DivByZero,
        },
        IntOp::DivFloor => match div_floor(w, a, b) {
            Ok(x) => Outcome::Okay(x),
            Err(_) => Outcome::DivByZero,
        },
        IntOp::DivCeil => match div_ceil(w, a, b) {
            Ok(x) => Outcome::Okay(x),
            Err(_) => Outcome::DivByZero,
        },
        IntOp::And => Outcome::Plain(bitwise_and(w, a, b)),
        IntOp::Xor => Outcome::Plain(bitwise_xor(w, a, b)),
    }
}

/// A division reports a zero divisor exactly where the divisor is zero, and
/// is a success that holds the quotient everywhere else: the floor quotient
/// for the floor division, the ceiling quotient for the ceiling division,
/// and the remainder for the remainder. The one quotient that does not fit
/// the width, the least value by minus one, is reduced to the width.
pub proof fn lemma_division(a: int, b: int)
    requires
        IntWidth::I64.holds(a),
        IntWidth::I64.holds(b),
    ensures
        int_outcome(IntOp::DivFloor, a, b) is DivByZero <==> b == 0,
        int_outcome(IntOp::DivCeil, a, b) is DivByZero <==> b == 0,
        int_outcome(IntOp::Rem, a, b) is DivByZero <==> b == 0,
        b != 0 ==> int_outcome(IntOp::Rem, a, b) == Outcome::Okay(remainder(a, b) as i128),
        b != 0 && !(a == IntWidth::I64.lowest() && b == -1) ==> int_outcome(IntOp::DivFloor, a, b)
            == Outcome::Okay(floor_quotient(a, b) as i128) && int_outcome(IntOp::DivCeil, a, b)
            == Outcome::Okay(ceil_quotient(a, b) as i128),
{
    if b != 0 && !(a == IntWidth::I64.lowest() && b == -1) {
        crate::num::lemma_quotient_fits(IntWidth::I64, a, b);
        crate::num::lemma_wrapped(IntWidth::I64, floor_quotient(a, b));
        crate::num::lemma_wrapped(IntWidth::I64, ceil_quotient(a, b));
    }
}

/// The wrapping operations give the value of the width that is congruent
/// to the exact result, and the exact result itself where it fits; the
/// checked operations report an overflow exactly where it does not fit, and
/// hold the exact result everywhere else.
pub proof fn lemma_wrapping_and_checking(a: int, b: int)
    requires
        IntWidth::I64.holds(a),
        IntWidth::I64.holds(b),
    ensures
        int_outcome(IntOp::AddWrap, a, b) == Outcome::Plain(IntWidth::I64.wrapped(a + b) as i128),
        int_outcome(IntOp::SubWrap, a, b) == Outcome::Plain(IntWidth::I64.wrapped(a - b) as i128),
        int_outcome(IntOp::MulWrap, a, b) == Outcome::Plain(IntWidth::I64.wrapped(a * b) as i128),
        IntWidth::I64.wrapped(a + b) % IntWidth::I64.modulus() == (a + b) % IntWidth::I64.modulus(),
        IntWidth::I64.wrapped(a - b) % IntWidth::I64.modulus() == (a - b) % IntWidth::I64.modulus(),
        IntWidth::I64.wrapped(a * b) % IntWidth::I64.modulus() == (a * b) % IntWidth::I64.modulus(),
        int_outcome(IntOp::AddChecked, a, b) is Overflow <==> !IntWidth::I64.holds(a + b),
        int_outcome(IntOp::SubChecked, a, b) is Overflow <==> !IntWidth::I64.holds(a - b),
        int_outcome(IntOp::MulChecked, a, b) is Overflow <==> !IntWidth::I64.holds(a * b),
        IntWidth::I64.holds(a + b) ==> int_outcome(IntOp::AddChecked, a, b) == Outcome::Okay(
            (a + b) as i128,
        ) && IntWidth::I64.wrapped(a + b) == a + b,
        IntWidth::I64.holds(a - b) ==> int_outcome(IntOp::SubChecked, a, b) == Outcome::Okay(
            (a - b) as i128,
        ) && IntWidth::I64.wrapped(a - b) == a - b,
        IntWidth::I64.holds(a * b) ==> int_outcome(IntOp::MulChecked, a, b) == Outcome::Okay(
            (a * b) as i128,
        ) && IntWidth::I64.wrapped(a * b) == a * b,
{
    crate::num::lemma_wrapped(IntWidth::I64, a + b);
    crate::num::lemma_wrapped(IntWidth::I64, a - b);
    crate::num::lemma_wrapped(IntWidth::I64, a * b);
}

/// Whether `x` is a value of the cells that hold numbers.
pub open spec fn fits(x: int) -> bool {
    i128::MIN <= x <= i128::MAX
}

/// What an operation on two fractions comes to: their sum, difference or
/// product where it fits, and for every other operation the end of the
/// evaluation.
pub open spec fn frac_outcome(op: IntOp, a: int, b: int) -> Outcome {
    match op {
        IntOp::Add => if fits(a + b) {
            Outcome::Plain((a + b) as i128)
        } else {
            Outcome::Crashed
        },
        IntOp::Sub => if fits(a - b) {
            Outcome::Plain((a - b) as i128)
        } else {
            Outcome::Crashed
        },
        IntOp::Mul => if fits(a * b) {
            Outcome::Plain(((a * b) / (UNIT as int)) as i128)
        } else {
            Outcome::Crashed
        },
        _ => Outcome::Crashed,
    }
}

/// Works out an operation on two fractions.
pub fn frac_operation(op: IntOp, a: i128, b: i128) -> (r: Outcome)
    ensures
        r == frac_outcome(op, a as int, b as int),
{
    match op {
        IntOp::Add => match a.checked_add(b) {
            Some(x) => Outcome::Plain(x),
            None => Outcome::Crashed,
        },
        IntOp::Sub => match a.checked_sub(b) {
            Some(x) => Outcome::Plain(x),
            None => Outcome::Crashed,
        },
        IntOp::Mul => match a.checked_mul(b) {
            Some(x) => match x.checked_div_euclid(UNIT) {
                Some(q) => Outcome::Plain(q),
                None => Outcome::Crashed,
            },
            None => Outcome::Crashed,
        },
        _ => Outcome::Crashed,
    }
}

/// A number as the operations take it.
#[derive(Clone, Copy, Debug, PartialEq, Eq, Structural)]
pub enum Number {
    Whole(i128),
    Fraction(i128),
}

/// The number at `value`, where it is one that the operations can take: a
/// whole number of the default width, or a fraction.
pub open spec fn number_at(vals: ValuesModel, value: usize) -> Option<Number> {
    match vals.node_at(value) {
        Some(ValNode::Int(x)) => if IntWidth::I64.holds(x as int) {
            Some(Number::Whole(x))
        } else {
            None
        },
        Some(ValNode::Frac(x)) => Some(Number::Fraction(x)),
        _ => None,
    }
}

/// The number at `value`.
pub fn number_of(vals: &Values, value: usize) -> (r: Option<Number>)
    ensures
        r == number_at(vals@, value),
{
    match vals.node(value) {
        Some(ValNode::Int(x)) => {
            if IntWidth::I64.contains(x) {
                Some(Number::Whole(x))
            } else {
                None
            }
        },
        Some(ValNode::Frac(x)) => Some(Number::Fraction(x)),
        _ => None,
    }
}

/// A number as a fraction, where it fits.
pub open spec fn as_fraction(n: Number) -> Option<i128> {
    match n {
        Number::Whole(x) => if fits(x * UNIT) {
            Some((x * UNIT) as i128)
        } else {
            None
        },
        Number::Fraction(x) => Some(x),
    }
}

/// A number as a fraction.
pub fn to_fraction(n: Number) -> (r: Option<i128>)
    ensures
        r == as_fraction(n),
{
    match n {
        Number::Whole(x) => x.checked_mul(UNIT),
        Number::Fraction(x) => Some(x),
    }
}

/// What an operation on two numbers comes to, and whether the result is a
/// fraction. Two whole numbers are worked on as whole numbers; where one
/// of the two is a fraction, both are taken as fractions.
pub open spec fn number_outcome(op: IntOp, a: Number, b: Number) -> (Outcome, bool) {
    match (a, b) {
        (Number::Whole(x), Number::Whole(y)) => (int_outcome(op, x as int, y as int), false),
        _ => match (as_fraction(a), as_fraction(b)) {
            (Some(x), Some(y)) => (frac_outcome(op, x as int, y as int), true),
            _ => (Outcome::Crashed, true),
        },
    }
}

/// Works out an operation on two numbers.
pub fn number_operation(op: IntOp, a: Number, b: Number) -> (r: (Outcome, bool))
    requires
        a matches Number::Whole(x) ==> IntWidth::I64.holds(x as int),
        b matches Number::Whole(y) ==> IntWidth::I64.holds(y as int),
    ensures
        r == number_outcome(op, a, b),
{
    match (a, b) {
        (Number::Whole(x), Number::Whole(y)) => (int_operation(op, x, y), false),
        _ => match (to_fraction(a), to_fraction(b)) {
            (Some(x), Some(y)) => (frac_operation(op, x, y), true),
            _ => (Outcome::Crashed, true),
        },
    }
}

/// The value that an outcome is: a number, a success that holds a number,
/// or a failure that holds the tag of what went wrong.
pub open spec fn outcome_value(vals: ValuesModel, outcome: Outcome, fraction: bool, at: usize) -> (
    ValuesModel,
    Result<usize, Crash>,
) {
    match outcome {
        Outcome::Plain(x) => {
            let (grown, v) = vals.with_node(
                if fraction {
                    ValNode::Frac(x)
                } else {
                    ValNode::Int(x)
                },
            );
            (grown, Ok(v))
        },
        Outcome::Okay(x) => {
            let (v1, n) = vals.with_node(
                if fraction {
                    ValNode::Frac(x)
                } else {
                    ValNode::Int(x)
                },
            );
            let (v2, ok) = v1.with_tag("Ok"@, seq![n]);
            (v2, Ok(ok))
        },
        Outcome::DivByZero => failure(vals, "DivByZero"@),
        Outcome::Overflow => failure(vals, "Overflow"@),
        Outcome::Crashed => (vals, Err(Crash::Overflow(at))),
    }
}

/// The failure that holds the tag `what`.
pub open spec fn failure(vals: ValuesModel, what: Seq<char>) -> (ValuesModel, Result<usize, Crash>) {
    let (v1, tag) = vals.with_tag(what, Seq::empty());
    let (v2, err) = v1.with_tag("Err"@, seq![tag]);
    (v2, Ok(err))
}

/// The success that holds `value`.
pub open spec fn success(vals: ValuesModel, value: usize) -> (ValuesModel, Result<usize, Crash>) {
    let (v1, ok) = vals.with_tag("Ok"@, seq![value]);
    (v1, Ok(ok))
}

/// The truth value `b`.
pub open spec fn truth(vals: ValuesModel, b: bool) -> (ValuesModel, Result<usize, Crash>) {
    let (v1, tag) = vals.with_tag(
        if b {
            "True"@
        } else {
            "False"@
        },
        Seq::empty(),
    );
    (v1, Ok(tag))
}

/// Adds the failure that holds the tag `what`.
pub fn fail(vals: &mut Values, what: &str) -> (r: Result<usize, Crash>)
    ensures
        (final(vals)@, r) == failure(old(vals)@, what@),
{
    let none: Vec<usize> = Vec::new();
    assert(none@ =~= Seq::empty());
    let tag = vals.tag(what, &none);
    let mut one: Vec<usize> = Vec::new();
    one.push(tag);
    assert(one@ =~= seq![tag]);
    Ok(vals.tag("Err", &one))
}

/// Adds the success that holds `value`.
pub fn succeed(vals: &mut Values, value: usize) -> (r: Result<usize, Crash>)
    ensures
        (final(vals)@, r) == success(old(vals)@, value),
{
    let mut one: Vec<usize> = Vec::new();
    one.push(value);
    assert(one@ =~= seq![value]);
    Ok(vals.tag("Ok", &one))
}

/// Adds the truth value `b`.
pub fn tell(vals: &mut Values, b: bool) -> (r: Result<usize, Crash>)
    ensures
        (final(vals)@, r) == truth(old(vals)@, b),
{
    let none: Vec<usize> = Vec::new();
    assert(none@ =~= Seq::empty());
    if b {
        Ok(vals.tag("True", &none))
    } else {
        Ok(vals.tag("False", &none))
    }
}

/// Adds the value that an outcome is.
pub fn value_of_outcome(vals: &mut Values, outcome: Outcome, fraction: bool, at: usize) -> (r:
    Result<usize, Crash>)
    ensures
        (final(vals)@, r) == outcome_value(old(vals)@, outcome, fraction, at),
{
    match outcome {
        Outcome::Plain(x) => {
            if fraction {
                Ok(vals.add(ValNode::Frac(x)))
            } else {
                Ok(vals.add(ValNode::Int(x)))
            }
        },
        Outcome::Okay(x) => {
            let n = if fraction {
                vals.add(ValNode::Frac(x))
            } else {
                vals.add(ValNode::Int(x))
            };
            succeed(vals, n)
        },
        Outcome::DivByZero => fail(vals, "DivByZero"),
        Outcome::Overflow => fail(vals, "Overflow"),
        Outcome::Crashed => Err(Crash::Overflow(at)),
    }
}

/// Where the extended grapheme clusters of `text` begin, one after the
/// other: each as the offset of its first byte where the text is written
/// in UTF-8. The clusters are those of the Unicode text segmentation rules.
pub uninterp spec fn cluster_starts(text: Seq<char>) -> Seq<usize>;

/// Calls `unicode_segmentation::UnicodeSegmentation::grapheme_indices` on
/// the text, asking for extended clusters, and hands out the offset of
/// each cluster that the iterator gives. Taken on trust: that these
/// offsets depend on the characters of the text alone.
#[verifier::external_body]
fn cluster_starts_of(text: &Vec<char>) -> (r: Vec<usize>)
    ensures
        r@ == cluster_starts(text@),
{
    let written: String = text.iter().collect();
    unicode_segmentation::UnicodeSegmentation::grapheme_indices(written.as_str(), true)
        .map(|(at, _)| at)
        .collect()
}

/// The number of graphemes of `text`: as many as it has clusters.
pub open spec fn graphemes(text: Seq<char>) -> nat {
    cluster_starts(text).len()
}

/// The number of graphemes of `text`.
pub fn count_graphemes(text: &Vec<char>) -> (r: usize)
    ensures
        r == graphemes(text@),
{
    cluster_starts_of(text).len()
}

/// The whole number that `text` writes in decimal digits, with a minus
/// sign before them where it is negative.
pub open spec fn signed_numeral(text: Seq<char>) -> Option<int> {
    if text.len() > 1 && text[0] == '-' {
        match numeral_from(text, 1, 0, 10) {
            Some(v) => Some(-v),
            None => None,
        }
    } else if text.len() > 0 {
        numeral_from(text, 0, 0, 10)
    } else {
        None
    }
}

/// The whole number that `text` writes.
pub fn signed_numeral_of(text: &Vec<char>) -> (r: Option<i128>)
    ensures
        match r {
            Some(v) => signed_numeral(text@) == Some(v as int),
            None => signed_numeral(text@) is None,
        },
{
    assert(text@.take(text@.len() as int) =~= text@);
    if text.len() > 1 && text[0] == '-' {
        match numeral_of(text, 1, text.len(), 10) {
            Some(v) => Some(-v),
            None => None,
        }
    } else if text.len() > 0 {
        numeral_of(text, 0, text.len(), 10)
    } else {
        None
    }
}

/// Whether a value among `items` from index `i` on is the same as `x`.
pub open spec fn contains_from(vals: ValuesModel, items: Seq<usize>, x: usize, i: int) -> Option<
    bool,
>
    decreases items.len() - i,
{
    if 0 <= i < items.len() {
        match alike(vals, items[i], x, COMPARE_FUEL as nat) {
            Some(true) => Some(true),
            Some(false) => contains_from(vals, items, x, i + 1),
            None => None,
        }
    } else {
        Some(false)
    }
}

/// The sum of `acc` and the numbers at `items` from index `i` on.
pub open spec fn summed(vals: ValuesModel, items: Seq<usize>, i: int, acc: Number) -> Option<Number>
    decreases items.len() - i,
{
    if 0 <= i < items.len() {
        match number_at(vals, items[i]) {
            Some(n) => match number_outcome(IntOp::Add, acc, n) {
                (Outcome::Plain(x), fraction) => summed(
                    vals,
                    items,
                    i + 1,
                    if fraction {
                        Number::Fraction(x)
                    } else {
                        Number::Whole(x)
                    },
                ),
                _ => None,
            },
            None => None,
        }
    } else {
        Some(acc)
    }
}

/// The items of the list at `value`.
pub open spec fn items_at(vals: ValuesModel, value: usize) -> Option<Seq<usize>> {
    match vals.node_at(value) {
        Some(ValNode::List(span)) => Some(vals.parts(span)),
        _ => None,
    }
}

/// The characters of the string at `value`.
pub open spec fn string_at(vals: ValuesModel, value: usize) -> Option<Seq<char>> {
    match vals.node_at(value) {
        Some(ValNode::Str(span)) => Some(vals.text(span)),
        _ => None,
    }
}

/// The value that a name of the language stands for by itself.
pub open spec fn constant(name: Seq<char>) -> Option<ValNode> {
    if name == "Num.maxI64"@ {
        Some(ValNode::Int(0x7fff_ffff_ffff_ffffi128))
    } else if name == "Num.minI64"@ {
        Some(ValNode::Int(-0x8000_0000_0000_0000i128))
    } else {
        None
    }
}

/// Whether a name is the name of a function that the language provides.
pub open spec fn is_builtin(name: Seq<char>) -> bool {
    int_op(name) is Some || name == "Num.abs"@ || name == "Bool.isEq"@ || name == "Bool.isNotEq"@
        || name == "Str.concat"@ || name == "Str.countGraphemes"@ || name == "Str.toI8"@ || name
        == "Str.toI16"@ || name == "List.concat"@ || name == "List.contains"@ || name
        == "List.sum"@ || name == "List.first"@ || name == "List.last"@
}

/// The result of a string that is read as a whole number of width `w`: a
/// success that holds the number, or the failure `InvalidNumStr` where the
/// string writes no number of the width.
pub open spec fn read_number(vals: ValuesModel, text: Seq<char>, w: IntWidth) -> (
    ValuesModel,
    Result<usize, Crash>,
) {
    match signed_numeral(text) {
        Some(v) => if w.holds(v) {
            let (v1, n) = vals.with_node(ValNode::Int(v as i128));
            success(v1, n)
        } else {
            failure(vals, "InvalidNumStr"@)
        },
        None => failure(vals, "InvalidNumStr"@),
    }
}

/// What the function `name` gives for the arguments `args`, at the node
/// `at` of the syntax tree.
pub open spec fn built(vals: ValuesModel, name: Seq<char>, args: Seq<usize>, at: usize) -> (
    ValuesModel,
    Result<usize, Crash>,
) {
    match int_op(name) {
        Some(op) => if args.len() == 2 {
            match (number_at(vals, args[0]), number_at(vals, args[1])) {
                (Some(a), Some(b)) => {
                    let (outcome, fraction) = number_outcome(op, a, b);
                    outcome_value(vals, outcome, fraction, at)
                },
                _ => (vals, Err(Crash::BadOperands(at))),
            }
        } else {
            (vals, Err(Crash::NotCallable(at)))
        },
        None => if name == "Num.abs"@ && args.len() == 1 {
            match number_at(vals, args[0]) {
                Some(Number::Whole(x)) => if x >= 0 {
                    (vals, Ok(args[0]))
                } else {
                    let (outcome, fraction) = number_outcome(
                        IntOp::Sub,
                        Number::Whole(0),
                        Number::Whole(x),
                    );
                    outcome_value(vals, outcome, fraction, at)
                },
                Some(Number::Fraction(x)) => if x >= 0 {
                    (vals, Ok(args[0]))
                } else {
                    outcome_value(vals, frac_outcome(IntOp::Sub, 0, x as int), true, at)
                },
                None => (vals, Err(Crash::BadOperands(at))),
            }
        } else if name == "Bool.isEq"@ && args.len() == 2 {
            match alike(vals, args[0], args[1], COMPARE_FUEL as nat) {
                Some(b) => truth(vals, b),
                None => (vals, Err(Crash::TooDeep(at))),
            }
        } else if name == "Bool.isNotEq"@ && args.len() == 2 {
            match alike(vals, args[0], args[1], COMPARE_FUEL as nat) {
                Some(b) => truth(vals, !b),
                None => (vals, Err(Crash::TooDeep(at))),
            }
        } else if name == "Str.concat"@ && args.len() == 2 {
            match (string_at(vals, args[0]), string_at(vals, args[1])) {
                (Some(a), Some(b)) => {
                    let (v1, s) = vals.with_named(a + b, |span: Span| ValNode::Str(span));
                    (v1, Ok(s))
                },
                _ => (vals, Err(Crash::BadOperands(at))),
            }
        } else if name == "Str.countGraphemes"@ && args.len() == 1 {
            match string_at(vals, args[0]) {
                Some(a) => {
                    let (v1, n) = vals.with_node(
                        ValNode::Int(graphemes(a) as i128),
                    );
                    (v1, Ok(n))
                },
                None => (vals, Err(Crash::BadOperands(at))),
            }
        } else if name == "Str.toI8"@ && args.len() == 1 {
            match string_at(vals, args[0]) {
                Some(a) => read_number(vals, a, IntWidth::I8),
                None => (vals, Err(Crash::BadOperands(at))),
            }
        } else if name == "Str.toI16"@ && args.len() == 1 {
            match string_at(vals, args[0]) {
                Some(a) => read_number(vals, a, IntWidth::I16),
                None => (vals, Err(Crash::BadOperands(at))),
            }
        } else if name == "List.concat"@ && args.len() == 2 {
            match (items_at(vals, args[0]), items_at(vals, args[1])) {
                (Some(a), Some(b)) => {
                    let (v1, list) = vals.with_parts(a + b, |span: Span| ValNode::List(span));
                    (v1, Ok(list))
                },
                _ => (vals, Err(Crash::BadOperands(at))),
            }
        } else if name == "List.contains"@ && args.len() == 2 {
            match items_at(vals, args[0]) {
                Some(items) => match contains_from(vals, items, args[1], 0) {
                    Some(b) => truth(vals, b),
                    None => (vals, Err(Crash::TooDeep(at))),
                },
                None => (vals, Err(Crash::BadOperands(at))),
            }
        } else if name == "List.sum"@ && args.len() == 1 {
            match items_at(vals, args[0]) {
                Some(items) => match summed(vals, items, 0, Number::Whole(0)) {
                    Some(Number::Whole(x)) => {
                        let (v1, n) = vals.with_node(ValNode::Int(x));
                        (v1, Ok(n))
                    },
                    Some(Number::Fraction(x)) => {
                        let (v1, n) = vals.with_node(ValNode::Frac(x));
                        (v1, Ok(n))
                    },
                    None => (vals, Err(Crash::BadOperands(at))),
                },
                None => (vals, Err(Crash::BadOperands(at))),
            }
        } else if name == "List.first"@ && args.len() == 1 {
            match items_at(vals, args[0]) {
                Some(items) => if items.len() > 0 {
                    success(vals, items[0])
                } else {
                    failure(vals, "ListWasEmpty"@)
                },
                None => (vals, Err(Crash::BadOperands(at))),
            }
        } else if name == "List.last"@ && args.len() == 1 {
            match items_at(vals, args[0]) {
                Some(items) => if items.len() > 0 {
                    success(vals, items.last())
                } else {
                    failure(vals, "ListWasEmpty"@)
                },
                None => (vals, Err(Crash::BadOperands(at))),
            }
        } else {
            (vals, Err(Crash::NotCallable(at)))
        },
    }
}

/// The items of the list at `value`.
pub fn items_of(vals: &Values, value: usize) -> (r: Option<Vec<usize>>)
    ensures
        match r {
            Some(items) => items_at(vals@, value) == Some(items@),
            None => items_at(vals@, value) is None,
        },
{
    match vals.node(value) {
        Some(ValNode::List(span)) => Some(vals.parts(span)),
        _ => None,
    }
}

/// The characters of the string at `value`.
pub fn string_of(vals: &Values, value: usize) -> (r: Option<Vec<char>>)
    ensures
        match r {
            Some(text) => string_at(vals@, value) == Some(text@),
            None => string_at(vals@, value) is None,
        },
{
    match vals.node(value) {
        Some(ValNode::Str(span)) => Some(vals.text(span)),
        _ => None,
    }
}

/// The value that a name of the language stands for by itself.
pub fn constant_of(name: &Vec<char>) -> (r: Option<ValNode>)
    ensures
        r == constant(name@),
{
    if is_text(name, "Num.maxI64") {
        Some(ValNode::Int(0x7fff_ffff_ffff_ffff))
    } else if is_text(name, "Num.minI64") {
        Some(ValNode::Int(-0x8000_0000_0000_0000))
    } else {
        None
    }
}

/// Whether a name is the name of a function that the language provides.
pub fn names_builtin(name: &Vec<char>) -> (r: bool)
    ensures
        r == is_builtin(name@),
{
    int_op_of(name).is_some() || is_text(name, "Num.abs") || is_text(name, "Bool.isEq") || is_text(
        name,
        "Bool.isNotEq",
    ) || is_text(name, "Str.concat") || is_text(name, "Str.countGraphemes") || is_text(
        name,
        "Str.toI8",
    ) || is_text(name, "Str.toI16") || is_text(name, "List.concat") || is_text(
        name,
        "List.contains",
    ) || is_text(name, "List.sum") || is_text(name, "List.first") || is_text(name, "List.last")
}

/// Reads a string as a whole number of width `w`.
pub fn read(vals: &mut Values, text: &Vec<char>, w: IntWidth) -> (r: Result<usize, Crash>)
    ensures
        (final(vals)@, r) == read_number(old(vals)@, text@, w),
{
    match signed_numeral_of(text) {
        Some(v) => {
            if w.contains(v) {
                let n = vals.add(ValNode::Int(v));
                succeed(vals, n)
            } else {
                fail(vals, "InvalidNumStr")
            }
        },
        None => fail(vals, "InvalidNumStr"),
    }
}

/// Whether a value among `items` is the same as `x`.
pub fn contains(vals: &Values, items: &Vec<usize>, x: usize) -> (r: Option<bool>)
    ensures
        r == contains_from(vals@, items@, x, 0),
{
    let mut i: usize = 0;
    while i < items.len()
        invariant
            i <= items@.len(),
            contains_from(vals@, items@, x, 0) == contains_from(vals@, items@, x, i as int),
        decreases items.len() - i,
    {
        match equal(vals, items[i], x, COMPARE_FUEL) {
            Some(true) => {
                return Some(true);
            },
            Some(false) => {},
            None => {
                return None;
            },
        }
        i = i + 1;
    }
    Some(false)
}

/// The sum of the numbers at `items`.
pub fn sum(vals: &Values, items: &Vec<usize>) -> (r: Option<Number>)
    ensures
        r == summed(vals@, items@, 0, Number::Whole(0)),
{
    let mut acc = Number::Whole(0);
    let mut i: usize = 0;
    while i < items.len()
        invariant
            i <= items@.len(),
            acc matches Number::Whole(x) ==> IntWidth::I64.holds(x as int),
            summed(vals@, items@, 0, Number::Whole(0)) == summed(vals@, items@, i as int, acc),
        decreases items.len() - i,
    {
        match number_of(vals, items[i]) {
            Some(n) => match number_operation(IntOp::Add, acc, n) {
                (Outcome::Plain(x), fraction) => {
                    acc = if fraction {
                        Number::Fraction(x)
                    } else {
                        Number::Whole(x)
                    };
                },
                _ => {
                    return None;
                },
            },
            None => {
                return None;
            },
        }
        i = i + 1;
    }
    Some(acc)
}

/// Calls the function `name` with the arguments `args`.
pub fn call_builtin(vals: &mut Values, name: &Vec<char>, args: &Vec<usize>, at: usize) -> (r: Result<
    usize,
    Crash,
>)
    ensures
        (final(vals)@, r) == built(old(vals)@, name@, args@, at),
{
    match int_op_of(name) {
        Some(op) => {
            if args.len() != 2 {
                return Err(Crash::NotCallable(at));
            }
            match (number_of(vals, args[0]), number_of(vals, args[1])) {
                (Some(a), Some(b)) => {
                    let (outcome, fraction) = number_operation(op, a, b);
                    value_of_outcome(vals, outcome, fraction, at)
                },
                _ => Err(Crash::BadOperands(at)),
            }
        },
        None => {
            if is_text(name, "Num.abs") && args.len() == 1 {
                match number_of(vals, args[0]) {
                    Some(Number::Whole(x)) => {
                        if x >= 0 {
                            Ok(args[0])
                        } else {
                            let (outcome, fraction) = number_operation(
                                IntOp::Sub,
                                Number::Whole(0),
                                Number::Whole(x),
                            );
                            value_of_outcome(vals, outcome, fraction, at)
                        }
                    },
                    Some(Number::Fraction(x)) => {
                        if x >= 0 {
                            Ok(args[0])
                        } else {
                            value_of_outcome(vals, frac_operation(IntOp::Sub, 0, x), true, at)
                        }
                    },
                    None => Err(Crash::BadOperands(at)),
                }
            } else if is_text(name, "Bool.isEq") && args.len() == 2 {
                match equal(vals, args[0], args[1], COMPARE_FUEL) {
                    Some(b) => tell(vals, b),
                    None => Err(Crash::TooDeep(at)),
                }
            } else if is_text(name, "Bool.isNotEq") && args.len() == 2 {
                match equal(vals, args[0], args[1], COMPARE_FUEL) {
                    Some(b) => tell(vals, !b),
                    None => Err(Crash::TooDeep(at)),
                }
            } else if is_text(name, "Str.concat") && args.len() == 2 {
                match (string_of(vals, args[0]), string_of(vals, args[1])) {
                    (Some(a), Some(b)) => {
                        let mut text = a;
                        crate::text::append(&mut text, &b);
                        let span = vals.write(&text);
                        Ok(vals.add(ValNode::Str(span)))
                    },
                    _ => Err(Crash::BadOperands(at)),
                }
            } else if is_text(name, "Str.countGraphemes") && args.len() == 1 {
                match string_of(vals, args[0]) {
                    Some(a) => Ok(vals.add(ValNode::Int(count_graphemes(&a) as i128))),
                    None => Err(Crash::BadOperands(at)),
                }
            } else if is_text(name, "Str.toI8") && args.len() == 1 {
                match string_of(vals, args[0]) {
                    Some(a) => read(vals, &a, IntWidth::I8),
                    None => Err(Crash::BadOperands(at)),
                }
            } else if is_text(name, "Str.toI16") && args.len() == 1 {
                match string_of(vals, args[0]) {
                    Some(a) => read(vals, &a, IntWidth::I16),
                    None => Err(Crash::BadOperands(at)),
                }
            } else if is_text(name, "List.concat") && args.len() == 2 {
                match (items_of(vals, args[0]), items_of(vals, args[1])) {
                    (Some(a), Some(b)) => {
                        let mut all = a;
                        crate::solve::append_all(&mut all, &b);
                        let span = vals.link(&all);
                        Ok(vals.add(ValNode::List(span)))
                    },
                    _ => Err(Crash::BadOperands(at)),
                }
            } else if is_text(name, "List.contains") && args.len() == 2 {
                match items_of(vals, args[0]) {
                    Some(items) => match contains(vals, &items, args[1]) {
                        Some(b) => tell(vals, b),
                        None => Err(Crash::TooDeep(at)),
                    },
                    None => Err(Crash::BadOperands(at)),
                }
            } else if is_text(name, "List.sum") && args.len() == 1 {
                match items_of(vals, args[0]) {
                    Some(items) => match sum(vals, &items) {
                        Some(Number::Whole(x)) => Ok(vals.add(ValNode::Int(x))),
                        Some(Number::Fraction(x)) => Ok(vals.add(ValNode::Frac(x))),
                        None => Err(Crash::BadOperands(at)),
                    },
                    None => Err(Crash::BadOperands(at)),
                }
            } else if is_text(name, "List.first") && args.len() == 1 {
                match items_of(vals, args[0]) {
                    Some(items) => {
                        if items.len() > 0 {
                            succeed(vals, items[0])
                        } else {
                            fail(vals, "ListWasEmpty")
                        }
                    },
                    None => Err(Crash::BadOperands(at)),
                }
            } else if is_text(name, "List.last") && args.len() == 1 {
                match items_of(vals, args[0]) {
                    Some(items) => {
                        if items.len() > 0 {
                            succeed(vals, items[items.len() - 1])
                        } else {
                            fail(vals, "ListWasEmpty")
                        }
                    },
                    None => Err(Crash::BadOperands(at)),
                }
            } else {
                Err(Crash::NotCallable(at))
            }
        },
    }
}

} // verus!
