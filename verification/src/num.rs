//! Integer arithmetic of the evaluated language: fixed-width integers with
//! wrapping and checked operations, and division that reports a zero divisor.

use vstd::prelude::*;
use vstd::arithmetic::div_mod::{
    lemma_fundamental_div_mod, lemma_mod_bound, lemma_mod_decreases, lemma_mod_multiples_vanish,
    lemma_mod_twice, lemma_small_mod,
};

verus! {

/// The width and signedness of an integer type.
#[derive(Clone, Copy, Debug, PartialEq, Eq, Structural)]
pub enum IntWidth {
    I8,
    I16,
    I32,
    I64,
    U8,
    U16,
    U32,
    U64,
}

/// The failure of a division whose divisor is zero.
#[derive(Clone, Copy, Debug, PartialEq, Eq, Structural)]
pub struct DivByZero;

/// The failure of a checked operation whose exact result does not fit the width.
#[derive(Clone, Copy, Debug, PartialEq, Eq, Structural)]
pub struct Overflow;

impl IntWidth {
    /// Whether the width has negative values.
    pub open spec fn signed(self) -> bool {
        self is I8 || self is I16 || self is I32 || self is I64
    }

    /// The number of values of the width: two to the power of its bits.
    pub open spec fn modulus(self) -> int {
        match self {
            IntWidth::I8 | IntWidth::U8 => 0x100,
            IntWidth::I16 | IntWidth::U16 => 0x1_0000,
            IntWidth::I32 | IntWidth::U32 => 0x1_0000_0000,
            IntWidth::I64 | IntWidth::U64 => 0x1_0000_0000_0000_0000,
        }
    }

    /// The least value of the width.
    pub open spec fn lowest(self) -> int {
        if self.signed() {
            -(self.modulus() / 2)
        } else {
            0
        }
    }

    /// The greatest value of the width.
    pub open spec fn highest(self) -> int {
        if self.signed() {
            self.modulus() / 2 - 1
        } else {
            self.modulus() - 1
        }
    }

    /// Whether `x` is a value of the width.
    pub open spec fn holds(self, x: int) -> bool {
        self.lowest() <= x <= self.highest()
    }

    /// The value of the width that is congruent to `x` modulo the number of its
    /// values: what two's complement arithmetic keeps of `x`.
    pub open spec fn wrapped(self, x: int) -> int {
        let r = x % self.modulus();
        if r > self.highest() {
            r - self.modulus()
        } else {
            r
        }
    }

    /// Whether the width has negative values.
    pub fn is_signed(self) -> (r: bool)
        ensures
            r == self.signed(),
    {
        match self {
            IntWidth::I8 | IntWidth::I16 | IntWidth::I32 | IntWidth::I64 => true,
            _ => false,
        }
    }

    /// The number of values of the width.
    pub fn count(self) -> (r: i128)
        ensures
            r == self.modulus(),
    {
        match self {
            IntWidth::I8 | IntWidth::U8 => 0x100,
            IntWidth::I16 | IntWidth::U16 => 0x1_0000,
            IntWidth::I32 | IntWidth::U32 => 0x1_0000_0000,
            IntWidth::I64 | IntWidth::U64 => 0x1_0000_0000_0000_0000,
        }
    }

    /// The least value of the width.
    pub fn min_value(self) -> (r: i128)
        ensures
            r == self.lowest(),
    {
        if self.is_signed() {
            -(self.count() / 2)
        } else {
            0
        }
    }

    /// The greatest value of the width.
    pub fn max_value(self) -> (r: i128)
        ensures
            r == self.highest(),
    {
        if self.is_signed() {
            self.count() / 2 - 1
        } else {
            self.count() - 1
        }
    }

    /// Whether `x` is a value of the width.
    pub fn contains(self, x: i128) -> (r: bool)
        ensures
            r == self.holds(x as int),
    {
        self.min_value() <= x && x <= self.max_value()
    }

    /// Reduces `x` to the width by two's complement.
    pub fn wrap(self, x: i128) -> (r: i128)
        ensures
            r == self.wrapped(x as int),
            self.holds(r as int),
    {
        let m: i128 = self.count();
        let r: i128 = match x.checked_rem_euclid(m) {
            Some(r) => r,
            None => 0,
        };
        if r > self.max_value() {
            r - m
        } else {
            r
        }
    }
}

/// A wrapped value lies in the width, is congruent to the exact value, and is
/// the exact value itself where that one fits.
pub proof fn lemma_wrapped(w: IntWidth, x: int)
    ensures
        w.holds(w.wrapped(x)),
        w.wrapped(x) % w.modulus() == x % w.modulus(),
        w.holds(x) ==> w.wrapped(x) == x,
{
    let m = w.modulus();
    let r = x % m;
    lemma_mod_bound(x, m);
    lemma_mod_twice(x, m);
    lemma_mod_multiples_vanish(-1, r, m);
    assert(m * -1 + r == r - m);
    if w.holds(x) {
        if x >= 0 {
            lemma_small_mod(x as nat, m as nat);
        } else {
            lemma_mod_multiples_vanish(1, x, m);
            assert(m * 1 + x == x + m);
            lemma_small_mod((x + m) as nat, m as nat);
        }
    }
}

/// The greatest integer that is not above the exact quotient of `a` by `b`.
pub open spec fn floor_quotient(a: int, b: int) -> int
    recommends
        b != 0,
{
    if b > 0 {
        a / b
    } else {
        (-a) / (-b)
    }
}

/// The least integer that is not below the exact quotient of `a` by `b`.
pub open spec fn ceil_quotient(a: int, b: int) -> int
    recommends
        b != 0,
{
    -floor_quotient(-a, b)
}

/// The distance of `x` from zero.
pub open spec fn magnitude(x: int) -> int {
    if x >= 0 {
        x
    } else {
        -x
    }
}

/// What is left of `a` after taking out `b` as often as it goes, counting
/// towards zero: the remainder has the sign of `a`.
pub open spec fn remainder(a: int, b: int) -> int
    recommends
        b != 0,
{
    if a >= 0 {
        magnitude(a) % magnitude(b)
    } else {
        -(magnitude(a) % magnitude(b))
    }
}

/// The floor quotient `q` is the one integer with `q * b <= a < (q + 1) * b`
/// for a positive divisor, and with the mirrored bounds for a negative one.
pub proof fn lemma_floor_quotient(a: int, b: int)
    requires
        b != 0,
    ensures
        b > 0 ==> floor_quotient(a, b) * b <= a < floor_quotient(a, b) * b + b,
        b < 0 ==> floor_quotient(a, b) * b >= a > floor_quotient(a, b) * b + b,
{
    if b > 0 {
        lemma_fundamental_div_mod(a, b);
        lemma_mod_bound(a, b);
        assert(b * (a / b) == (a / b) * b) by (nonlinear_arith);
    } else {
        let q = (-a) / (-b);
        lemma_fundamental_div_mod(-a, -b);
        lemma_mod_bound(-a, -b);
        assert((-b) * q == -(q * b)) by (nonlinear_arith);
    }
}

/// The ceiling quotient `q` is the one integer with `(q - 1) * b < a <= q * b`
/// for a positive divisor, and with the mirrored bounds for a negative one.
pub proof fn lemma_ceil_quotient(a: int, b: int)
    requires
        b != 0,
    ensures
        b > 0 ==> ceil_quotient(a, b) * b - b < a <= ceil_quotient(a, b) * b,
        b < 0 ==> ceil_quotient(a, b) * b - b > a >= ceil_quotient(a, b) * b,
{
    lemma_floor_quotient(-a, b);
    let f = floor_quotient(-a, b);
    assert((-f) * b == -(f * b)) by (nonlinear_arith);
}

/// Both quotients of two values of a width are values of that width, but for
/// the least value of a signed width divided by minus one.
pub proof fn lemma_quotient_fits(w: IntWidth, a: int, b: int)
    requires
        w.holds(a),
        w.holds(b),
        b != 0,
        !(a == w.lowest() && b == -1),
    ensures
        w.holds(floor_quotient(a, b)),
        w.holds(ceil_quotient(a, b)),
{
    lemma_floor_quotient(a, b);
    lemma_ceil_quotient(a, b);
    let f = floor_quotient(a, b);
    let c = ceil_quotient(a, b);
    let lo = w.lowest();
    let hi = w.highest();
    assert(lo <= f <= hi && lo <= c <= hi) by (nonlinear_arith)
        requires
            lo <= a <= hi,
            lo <= b <= hi,
            lo <= 0 < hi,
            lo == 0 || lo == -hi - 1,
            b != 0,
            !(a == lo && b == -1),
            b > 0 ==> f * b <= a < f * b + b,
            b < 0 ==> f * b >= a > f * b + b,
            b > 0 ==> c * b - b < a <= c * b,
            b < 0 ==> c * b - b > a >= c * b,
    ;
}

/// Floor division in width `w`. A zero divisor is reported; otherwise the
/// quotient is returned, reduced to the width where it does not fit (the
/// least value of a signed width divided by minus one).
pub fn div_floor(w: IntWidth, a: i128, b: i128) -> (r: Result<i128, DivByZero>)
    requires
        w.holds(a as int),
        w.holds(b as int),
    ensures
        r is Err <==> b == 0,
        r matches Ok(q) ==> q == w.wrapped(floor_quotient(a as int, b as int)),
        r matches Ok(q) ==> w.holds(q as int),
        r matches Ok(q) ==> !(a == w.lowest() && b == -1) ==> q == floor_quotient(
            a as int,
            b as int,
        ),
{
    if b == 0 {
        return Err(DivByZero);
    }
    proof {
        lemma_floor_bounds(a as int, b as int);
        if !(a == w.lowest() && b == -1) {
            lemma_quotient_fits(w, a as int, b as int);
            lemma_wrapped(w, floor_quotient(a as int, b as int));
        }
    }
    let q: i128 = if b > 0 {
        match a.checked_div_euclid(b) {
            Some(q) => q,
            None => 0,
        }
    } else {
        match (-a).checked_div_euclid(-b) {
            Some(q) => q,
            None => 0,
        }
    };
    Ok(w.wrap(q))
}

/// Ceiling division in width `w`. A zero divisor is reported; otherwise the
/// quotient is returned, reduced to the width where it does not fit (the
/// least value of a signed width divided by minus one).
pub fn div_ceil(w: IntWidth, a: i128, b: i128) -> (r: Result<i128, DivByZero>)
    requires
        w.holds(a as int),
        w.holds(b as int),
    ensures
        r is Err <==> b == 0,
        r matches Ok(q) ==> q == w.wrapped(ceil_quotient(a as int, b as int)),
        r matches Ok(q) ==> w.holds(q as int),
        r matches Ok(q) ==> !(a == w.lowest() && b == -1) ==> q == ceil_quotient(
            a as int,
            b as int,
        ),
{
    if b == 0 {
        return Err(DivByZero);
    }
    proof {
        lemma_floor_bounds(-a as int, b as int);
        if !(a == w.lowest() && b == -1) {
            lemma_quotient_fits(w, a as int, b as int);
            lemma_wrapped(w, ceil_quotient(a as int, b as int));
        }
    }
    let f: i128 = if b > 0 {
        match (-a).checked_div_euclid(b) {
            Some(q) => q,
            None => 0,
        }
    } else {
        match a.checked_div_euclid(-b) {
            Some(q) => q,
            None => 0,
        }
    };
    Ok(w.wrap(-f))
}

/// The floor quotient is no farther from zero than the dividend, give or take one.
proof fn lemma_floor_bounds(a: int, b: int)
    requires
        b != 0,
    ensures
        -magnitude(a) - 1 <= floor_quotient(a, b) <= magnitude(a),
{
    lemma_floor_quotient(a, b);
    let f = floor_quotient(a, b);
    assert(-magnitude(a) - 1 <= f <= magnitude(a)) by (nonlinear_arith)
        requires
            b != 0,
            b > 0 ==> f * b <= a < f * b + b,
            b < 0 ==> f * b >= a > f * b + b,
    ;
}

/// The remainder of `a` by `b` in width `w`, with the sign of `a`. A zero
/// divisor is reported.
pub fn rem(w: IntWidth, a: i128, b: i128) -> (r: Result<i128, DivByZero>)
    requires
        w.holds(a as int),
        w.holds(b as int),
    ensures
        r is Err <==> b == 0,
        r matches Ok(x) ==> x == remainder(a as int, b as int) && w.holds(x as int),
{
    if b == 0 {
        return Err(DivByZero);
    }
    proof {
        lemma_mod_bound(magnitude(a as int), magnitude(b as int));
        assert((a as int) * -1 == -(a as int));
        assert((b as int) * -1 == -(b as int));
        if a >= 0 {
            lemma_mod_decreases(magnitude(a as int) as nat, magnitude(b as int) as nat);
        }
    }
    match a.checked_rem(b) {
        Some(x) => Ok(x),
        None => Ok(0),
    }
}

/// The sum of `a` and `b`, reduced to width `w` by two's complement.
pub fn add_wrap(w: IntWidth, a: i128, b: i128) -> (r: i128)
    requires
        w.holds(a as int),
        w.holds(b as int),
    ensures
        r == w.wrapped(a + b),
        w.holds(r as int),
{
    w.wrap(a + b)
}

/// The difference of `a` and `b`, reduced to width `w` by two's complement.
pub fn sub_wrap(w: IntWidth, a: i128, b: i128) -> (r: i128)
    requires
        w.holds(a as int),
        w.holds(b as int),
    ensures
        r == w.wrapped(a - b),
        w.holds(r as int),
{
    w.wrap(a - b)
}

/// The sum of `a` and `b` where it is a value of width `w`, else an overflow.
pub fn add_checked(w: IntWidth, a: i128, b: i128) -> (r: Result<i128, Overflow>)
    requires
        w.holds(a as int),
        w.holds(b as int),
    ensures
        r is Ok <==> w.holds(a + b),
        r matches Ok(x) ==> x == a + b,
{
    let x: i128 = a + b;
    if w.contains(x) {
        Ok(x)
    } else {
        Err(Overflow)
    }
}

/// The difference of `a` and `b` where it is a value of width `w`, else an overflow.
pub fn sub_checked(w: IntWidth, a: i128, b: i128) -> (r: Result<i128, Overflow>)
    requires
        w.holds(a as int),
        w.holds(b as int),
    ensures
        r is Ok <==> w.holds(a - b),
        r matches Ok(x) ==> x == a - b,
{
    let x: i128 = a - b;
    if w.contains(x) {
        Ok(x)
    } else {
        Err(Overflow)
    }
}

/// The product of `a` and `b` where it is a value of width `w`, else an overflow.
pub fn mul_checked(w: IntWidth, a: i128, b: i128) -> (r: Result<i128, Overflow>)
    requires
        w.holds(a as int),
        w.holds(b as int),
    ensures
        r is Ok <==> w.holds(a * b),
        r matches Ok(x) ==> x == a * b,
{
    match a.checked_mul(b) {
        Some(x) => if w.contains(x) {
            Ok(x)
        } else {
            Err(Overflow)
        },
        None => Err(Overflow),
    }
}

/// The product of `a` and `b`, reduced to width `w` by two's complement.
pub fn mul_wrap(w: IntWidth, a: i128, b: i128) -> (r: i128)
    requires
        w.holds(a as int),
        w.holds(b as int),
    ensures
        r == w.wrapped(a * b),
        w.holds(r as int),
{
    match w {
        IntWidth::U64 => {
            let x: u128 = a as u128;
            let y: u128 = b as u128;
            assert(x * y <= 0xffff_ffff_ffff_ffff * 0xffff_ffff_ffff_ffff) by (nonlinear_arith)
                requires
                    0 <= x <= 0xffff_ffff_ffff_ffff,
                    0 <= y <= 0xffff_ffff_ffff_ffff,
            ;
            let low: u128 = (x * y) % 0x1_0000_0000_0000_0000;
            low as i128
        },
        _ => {
            assert(-0x4000_0000_0000_0000_0000_0000_0000_0000 <= a * b
                <= 0x4000_0000_0000_0000_0000_0000_0000_0000) by (nonlinear_arith)
                requires
                    -0x8000_0000_0000_0000 <= a <= 0x8000_0000_0000_0000,
                    -0x8000_0000_0000_0000 <= b <= 0x8000_0000_0000_0000,
            ;
            w.wrap(a * b)
        },
    }
}

/// The bitwise conjunction of `a` and `b`, as a value of width `w`.
pub fn bitwise_and(w: IntWidth, a: i128, b: i128) -> (r: i128)
    requires
        w.holds(a as int),
        w.holds(b as int),
    ensures
        r == w.wrapped((a & b) as int),
        w.holds(r as int),
{
    w.wrap(a & b)
}

/// The bitwise exclusive disjunction of `a` and `b`, as a value of width `w`.
pub fn bitwise_xor(w: IntWidth, a: i128, b: i128) -> (r: i128)
    requires
        w.holds(a as int),
        w.holds(b as int),
    ensures
        r == w.wrapped((a ^ b) as int),
        w.holds(r as int),
{
    w.wrap(a ^ b)
}

} // verus!
