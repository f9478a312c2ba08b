//! Numbers as text, and single-precision numbers by their bit pattern.
use vstd::prelude::*;

use crate::text::chars_of;

verus! {

pub open spec fn is_digit(c: char) -> bool {
    '0' <= c <= '9'
}

pub open spec fn all_digits(s: Seq<char>) -> bool {
    forall|i: int| 0 <= i < s.len() ==> is_digit(#[trigger] s[i])
}

/// The value of a run of decimal digits.
pub open spec fn digits_value(s: Seq<char>) -> nat
    decreases s.len(),
{
    if s.len() == 0 {
        0
    } else {
        digits_value(s.drop_last()) * 10 + (s.last() as int - '0' as int) as nat
    }
}

/// The number that a text writes in decimal, after an optional plus sign, where
/// it is at most `max`.
pub open spec fn parse_decimal(s: Seq<char>, max: nat) -> Option<nat> {
    let digits = if s.len() > 0 && s[0] == '+' {
        s.skip(1)
    } else {
        s
    };
    if digits.len() > 0 && all_digits(digits) && digits_value(digits) <= max {
        Some(digits_value(digits))
    } else {
        None
    }
}

proof fn lemma_digits_value_grows(s: Seq<char>, i: int)
    requires
        0 <= i <= s.len(),
        all_digits(s),
    ensures
        digits_value(s.take(i)) <= digits_value(s),
    decreases s.len(),
{
    if i < s.len() {
        assert(all_digits(s.drop_last()));
        lemma_digits_value_grows(s.drop_last(), i);
        assert(s.drop_last().take(i) =~= s.take(i));
        assert(is_digit(s.last()));
    } else {
        assert(s.take(i) =~= s);
    }
}

/// The number that the characters write in decimal, where it is at most `max`.
pub fn parse_chars(s: &[char], max: u64) -> (r: Option<u64>)
    ensures
        match r {
            Some(n) => parse_decimal(s@, max as nat) == Some(n as nat),
            None => parse_decimal(s@, max as nat) is None,
        },
{
    let from: usize = if s.len() > 0 && s[0] == '+' {
        1
    } else {
        0
    };
    let ghost digits = s@.skip(from as int);
    assert(s@.skip(0) =~= s@);
    if from == s.len() {
        return None;
    }
    let mut value: u64 = 0;
    let mut i: usize = from;
    while i < s.len()
        invariant
            from <= i <= s.len(),
            digits == s@.skip(from as int),
            all_digits(digits.take(i - from)),
            value == digits_value(digits.take(i - from)),
            value <= max,
            parse_decimal(s@, max as nat) == (if digits.len() > 0 && all_digits(digits)
                && digits_value(digits) <= max {
                Some(digits_value(digits))
            } else {
                None
            }),
        decreases s.len() - i,
    {
        let c = s[i];
        assert(digits[i - from] == c);
        if !('0' <= c && c <= '9') {
            return None;
        }
        let d: u64 = c as u64 - '0' as u64;
        let ghost upto = digits.take(i - from + 1);
        assert(upto.drop_last() =~= digits.take(i - from));
        assert(upto.last() == c);
        assert(digits_value(upto) == digits_value(digits.take(i - from)) * 10 + d);
        proof {
            if all_digits(digits) {
                lemma_digits_value_grows(digits, i - from + 1);
            }
        }
        if d > max || value > max / 10 || value * 10 > max - d {
            return None;
        }
        assert forall|k: int| 0 <= k < upto.len() implies is_digit(#[trigger] upto[k]) by {
            if k < i - from {
                assert(is_digit(digits.take(i - from)[k]));
            }
        }
        value = value * 10 + d;
        i += 1;
    }
    assert(digits.take(i - from) =~= digits);
    Some(value)
}

pub fn parse_u64_chars(s: &[char]) -> (r: Option<u64>)
    ensures
        match r {
            Some(n) => parse_decimal(s@, u64::MAX as nat) == Some(n as nat),
            None => parse_decimal(s@, u64::MAX as nat) is None,
        },
{
    parse_chars(s, u64::MAX)
}

pub fn parse_u32_chars(s: &[char]) -> (r: Option<u32>)
    ensures
        match r {
            Some(n) => parse_decimal(s@, u32::MAX as nat) == Some(n as nat),
            None => parse_decimal(s@, u32::MAX as nat) is None,
        },
{
    match parse_chars(s, u32::MAX as u64) {
        Some(n) => Some(n as u32),
        None => None,
    }
}

pub fn parse_u16_chars(s: &[char]) -> (r: Option<u16>)
    ensures
        match r {
            Some(n) => parse_decimal(s@, u16::MAX as nat) == Some(n as nat),
            None => parse_decimal(s@, u16::MAX as nat) is None,
        },
{
    match parse_chars(s, u16::MAX as u64) {
        Some(n) => Some(n as u16),
        None => None,
    }
}

pub fn parse_u16_text(s: &str) -> (r: Option<u16>)
    ensures
        match r {
            Some(n) => parse_decimal(s@, u16::MAX as nat) == Some(n as nat),
            None => parse_decimal(s@, u16::MAX as nat) is None,
        },
{
    let cs = chars_of(s);
    parse_u16_chars(cs.as_slice())
}

/// The decimal digit of a number below ten.
pub open spec fn digit_char(d: nat) -> char {
    (d + '0' as nat) as char
}

/// A number written in decimal, without leading zeros.
pub open spec fn decimal(n: nat) -> Seq<char>
    decreases n,
{
    if n < 10 {
        seq![digit_char(n)]
    } else {
        decimal(n / 10).push(digit_char(n % 10))
    }
}

/// A number written in decimal.
pub fn decimal_text(n: u64) -> (r: String)
    ensures
        r@ == decimal(n as nat),
    decreases n,
{
    let d: u8 = (n % 10) as u8;
    let c: char = (d + 48) as char;
    if n < 10 {
        let mut r = String::new();
        r.push(c);
        assert(r@ =~= seq![digit_char(n as nat)]);
        r
    } else {
        let mut r = decimal_text(n / 10);
        r.push(c);
        r
    }
}

/// Writing a number and reading it back gives the number.
pub proof fn decimal_parses_back(n: nat, max: nat)
    requires
        n <= max,
    ensures
        parse_decimal(decimal(n), max) == Some(n),
{
    lemma_decimal_digits(n);
}

/// A number written in decimal is made of digits, of which the first is no zero but
/// for the number zero; the digits have the number's value.
pub proof fn a_decimal_is_made_of_digits(n: nat)
    ensures
        decimal(n).len() > 0,
        all_digits(decimal(n)),
        digits_value(decimal(n)) == n,
        n > 0 ==> decimal(n)[0] != '0',
    decreases n,
{
    lemma_decimal_digits(n);
    if n >= 10 {
        lemma_decimal_digits(n / 10);
        a_decimal_is_made_of_digits(n / 10);
    }
}

/// A text that writes a number in decimal is all digits but for a plus sign before
/// them, and none other is read as one.
pub proof fn only_digits_make_a_number(s: Seq<char>, max: nat)
    ensures
        parse_decimal(s, max) matches Some(n) ==> n <= max && s.len() > 0,
        (s.len() > 0 && all_digits(s) && digits_value(s) <= max) ==> parse_decimal(s, max) == Some(
            digits_value(s),
        ) && parse_decimal(seq!['+'] + s, max) == Some(digits_value(s)),
        (exists|i: int|
            0 <= i < s.len() && !is_digit(#[trigger] s[i]) && !(i == 0 && s[i] == '+'))
            ==> parse_decimal(s, max) is None,
{
    assert((seq!['+'] + s).skip(1) =~= s);
    if s.len() > 0 && all_digits(s) {
        assert(is_digit(s[0]));
    }
    if exists|i: int| 0 <= i < s.len() && !is_digit(#[trigger] s[i]) && !(i == 0 && s[i] == '+') {
        let i = choose|i: int|
            0 <= i < s.len() && !is_digit(#[trigger] s[i]) && !(i == 0 && s[i] == '+');
        if s[0] == '+' {
            assert(s.skip(1)[i - 1] == s[i]);
        }
    }
}

/// A number written in decimal has no white space around it.
pub proof fn lemma_decimal_is_trimmed(n: nat)
    ensures
        crate::text::trim(decimal(n)) == decimal(n),
{
    lemma_decimal_digits(n);
    let s = decimal(n);
    assert(is_digit(s[0]));
    assert(is_digit(s[s.len() - 1]));
    assert(crate::text::trim_start(s) == s);
    assert(crate::text::trim_end(s) == s);
}

proof fn lemma_decimal_digits(n: nat)
    ensures
        decimal(n).len() > 0,
        all_digits(decimal(n)),
        digits_value(decimal(n)) == n,
        decimal(n)[0] != '+',
    decreases n,
{
    if n < 10 {
        assert(decimal(n) =~= seq![digit_char(n)]);
        assert(decimal(n).drop_last() =~= Seq::empty());
        assert(digits_value(decimal(n).drop_last()) == 0);
    } else {
        lemma_decimal_digits(n / 10);
        let shorter = decimal(n / 10);
        assert(decimal(n).drop_last() =~= shorter);
        assert(decimal(n)[0] == shorter[0]);
        assert forall|i: int| 0 <= i < decimal(n).len() implies is_digit(
            #[trigger] decimal(n)[i],
        ) by {
            if i < shorter.len() {
                assert(is_digit(shorter[i]));
            }
        }
    }
}

/// A single-precision number, held as its IEEE 754 bit pattern.
#[derive(Clone, Copy, PartialEq, Eq, Structural, Debug)]
pub struct Float32 {
    pub bits: u32,
}

impl Float32 {
    /// The bits below the sign.
    pub open spec fn magnitude(self) -> int {
        self.bits as int % 0x8000_0000
    }

    pub open spec fn finite(self) -> bool {
        self.magnitude() < 0x7f80_0000
    }

    pub open spec fn nan(self) -> bool {
        self.magnitude() > 0x7f80_0000
    }

    /// The place of the number in the order of all numbers: of two numbers that
    /// are not NaN, the one with the smaller place is the smaller one, and both
    /// zeros have the same place.
    pub open spec fn place(self) -> int {
        if self.bits >= 0x8000_0000 {
            -self.magnitude()
        } else {
            self.magnitude()
        }
    }

    /// The number kept between `low` and `high`; NaN stays what it is.
    pub open spec fn clamped(self, low: Float32, high: Float32) -> Float32 {
        if self.nan() {
            self
        } else if self.place() < low.place() {
            low
        } else if self.place() > high.place() {
            high
        } else {
            self
        }
    }

    pub fn is_finite(self) -> (r: bool)
        ensures
            r == self.finite(),
    {
        self.bits % 0x8000_0000 < 0x7f80_0000
    }

    fn place_of(self) -> (r: i64)
        ensures
            r == self.place(),
    {
        let magnitude: i64 = (self.bits % 0x8000_0000) as i64;
        if self.bits >= 0x8000_0000 {
            -magnitude
        } else {
            magnitude
        }
    }

    /// The number kept between `low` and `high`.
    pub fn clamp(self, low: Float32, high: Float32) -> (r: Float32)
        ensures
            r == self.clamped(low, high),
    {
        if self.bits % 0x8000_0000 > 0x7f80_0000 {
            self
        } else if self.place_of() < low.place_of() {
            low
        } else if self.place_of() > high.place_of() {
            high
        } else {
            self
        }
    }

    /// The larger of the number and `low`, where `low` is not NaN; NaN counts as
    /// the smaller.
    pub open spec fn at_least(self, low: Float32) -> Float32 {
        if self.nan() || self.place() < low.place() {
            low
        } else {
            self
        }
    }

    /// The larger of the number and `low`.
    pub fn max(self, low: Float32) -> (r: Float32)
        requires
            !low.nan(),
        ensures
            r == self.at_least(low),
    {
        if self.bits % 0x8000_0000 > 0x7f80_0000 || self.place_of() < low.place_of() {
            low
        } else {
            self
        }
    }

    /// Whether the number is below the other one; nothing is below or above NaN.
    pub fn is_below(self, other: Float32) -> (r: bool)
        ensures
            r == (!self.nan() && !other.nan() && self.place() < other.place()),
    {
        self.bits % 0x8000_0000 <= 0x7f80_0000 && other.bits % 0x8000_0000 <= 0x7f80_0000
            && self.place_of() < other.place_of()
    }

    /// Whether the numbers are equal; NaN equals nothing.
    pub open spec fn equals(self, other: Float32) -> bool {
        !self.nan() && !other.nan() && self.place() == other.place()
    }

    /// Whether the numbers are equal.
    pub fn is_equal(self, other: Float32) -> (r: bool)
        ensures
            r == self.equals(other),
    {
        self.bits % 0x8000_0000 <= 0x7f80_0000 && other.bits % 0x8000_0000 <= 0x7f80_0000
            && self.place_of() == other.place_of()
    }

    /// Whether the number is zero or below.
    pub fn not_above_zero(self) -> (r: bool)
        ensures
            r == (!self.nan() && self.place() <= 0),
    {
        self.bits % 0x8000_0000 <= 0x7f80_0000 && self.place_of() <= 0
    }

    /// The number, or zero where it is not above zero.
    pub fn at_least_zero(self) -> (r: Float32)
        requires
            self.finite(),
        ensures
            r == (if self.place() > 0 {
                self
            } else {
                (Float32 { bits: 0 })
            }),
    {
        if self.place_of() > 0 {
            self
        } else {
            Float32 { bits: 0 }
        }
    }
}

/// `a / b` rounded to the nearest number, halves to the even one.
pub open spec fn rounded_ratio(a: nat, b: nat) -> nat {
    let q = a / b;
    let rest = a % b;
    if 2 * rest > b || (2 * rest == b && q % 2 == 1) {
        q + 1
    } else {
        q
    }
}

pub(crate) fn rounded_ratio_of(a: u128, b: u128) -> (r: u128)
    requires
        0 < b <= 0x1_0000_0000_0000_0000,
        a <= 0x10_0000_0000_0000_0000_0000,
    ensures
        r == rounded_ratio(a as nat, b as nat),
{
    let q: u128 = a / b;
    let rest: u128 = a % b;
    assert(q <= a) by (nonlinear_arith)
        requires
            q == a / b,
            b > 0,
    ;
    if 2 * rest > b || (2 * rest == b && q % 2 == 1) {
        q + 1
    } else {
        q
    }
}

/// The distance between the double-precision numbers near `n`.
pub open spec fn double_step(n: nat) -> nat
    decreases n,
{
    if n < 0x20_0000_0000_0000 {
        1
    } else {
        2 * double_step(n / 2)
    }
}

/// The double-precision number nearest to `n`.
pub open spec fn nearest_double(n: nat) -> nat {
    rounded_ratio(n, double_step(n)) * double_step(n)
}

fn double_step_of(n: u64) -> (r: u64)
    ensures
        r == double_step(n as nat),
        0 < r,
        r <= 1 || r <= n / 0x10_0000_0000_0000,
    decreases n,
{
    if n < 0x20_0000_0000_0000 {
        1
    } else {
        2 * double_step_of(n / 2)
    }
}

pub(crate) fn nearest_double_of(n: u64) -> (r: u128)
    ensures
        r == nearest_double(n as nat),
        r <= 0x1_0000_0000_0000_0000,
{
    let step: u128 = double_step_of(n) as u128;
    let q: u128 = rounded_ratio_of(n as u128, step);
    proof {
        lemma_rounding_bound(n, step as int, q as int);
    }
    q * step
}

proof fn lemma_rounding_bound(n: u64, step: int, q: int)
    requires
        step == double_step(n as nat),
        step > 0,
        step <= 1 || step <= n / 0x10_0000_0000_0000,
        q == rounded_ratio(n as nat, step as nat),
    ensures
        q * step <= 0x1_0000_0000_0000_0000,
{
    reveal_with_fuel(two_to, 12);
    let part = lemma_step_divides(n as nat, 11);
    let k = part * 0x20_0000_0000_0000int;
    assert(k * step == 0x20_0000_0000_0000int * (part * step)) by (nonlinear_arith)
        requires
            k == part * 0x20_0000_0000_0000int,
    ;
    assert(n / (step as u64) < k) by (nonlinear_arith)
        requires
            k * step == 0x1_0000_0000_0000_0000int,
            0 < step <= 0xffff_ffff_ffff_ffff,
            n < 0x1_0000_0000_0000_0000int,
    ;
    assert(q <= k);
    assert(q * step <= k * step) by (nonlinear_arith)
        requires
            q <= k,
            step > 0,
    ;
}

spec fn two_to(e: nat) -> int
    decreases e,
{
    if e == 0 {
        1
    } else {
        2 * two_to((e - 1) as nat)
    }
}

proof fn lemma_step_divides(n: nat, e: nat) -> (k: int)
    requires
        n < 0x20_0000_0000_0000 * two_to(e),
    ensures
        double_step(n) > 0,
        k * double_step(n) == two_to(e),
    decreases e,
{
    if n < 0x20_0000_0000_0000 {
        assert(two_to(e) * 1 == two_to(e));
        two_to(e)
    } else {
        let k = lemma_step_divides(n / 2, (e - 1) as nat);
        let whole = double_step(n) as int;
        let half = double_step(n / 2) as int;
        assert(k * whole == 2 * (k * half)) by (nonlinear_arith)
            requires
                whole == 2 * half,
        ;
        k
    }
}

/// A number kept between two limits lies between them, and is the number itself where it
/// already did.
pub proof fn a_number_kept_between_limits(n: Float32, low: Float32, high: Float32)
    requires
        !n.nan(),
        low.place() <= high.place(),
    ensures
        low.place() <= n.clamped(low, high).place() <= high.place(),
        low.place() <= n.place() <= high.place() ==> n.clamped(low, high) == n,
        n.place() < low.place() ==> n.clamped(low, high) == low,
        n.place() > high.place() ==> n.clamped(low, high) == high,
        n.at_least(low).place() >= low.place(),
        n.place() > low.place() ==> n.at_least(low) == n,
{
}

/// Of two positive numbers the one with the smaller bits is the smaller one; every
/// negative number lies below zero, and of two the one with the larger bits below the
/// other.
pub proof fn numbers_are_ordered_by_their_bits(a: Float32, b: Float32)
    requires
        a.bits < b.bits,
    ensures
        b.bits < 0x8000_0000 ==> a.place() < b.place(),
        a.bits >= 0x8000_0000 ==> b.place() < a.place(),
        (0 < a.bits < 0x8000_0000 && b.bits >= 0x8000_0000) ==> b.place() < a.place(),
        (Float32 { bits: 0x8000_0000 }).place() == (Float32 { bits: 0 }).place(),
{
}

/// A ratio is rounded to the nearest whole number, and from the middle to the even one.
pub proof fn a_ratio_is_rounded_to_the_nearest(a: nat, b: nat)
    requires
        b > 0,
    ensures
        2 * a <= 2 * b * rounded_ratio(a, b) + b,
        2 * b * rounded_ratio(a, b) <= 2 * a + b,
        (2 * b * rounded_ratio(a, b) == 2 * a + b || 2 * a == 2 * b * rounded_ratio(a, b) + b)
            ==> rounded_ratio(a, b) % 2 == 0,
{
    vstd::arithmetic::div_mod::lemma_fundamental_div_mod(a as int, b as int);
    let q = a / b;
    let r = a % b;
    let n = rounded_ratio(a, b);
    assert(0 <= r < b);
    assert(a == b * q + r);
    assert(2 * b * n == 2 * (b * n)) by (nonlinear_arith);
    assert(b * (q + 1) == b * q + b) by (nonlinear_arith);
}

/// Numbers are equal where they have the same place, which both zeros have; a NaN equals
/// nothing, not even itself.
pub proof fn both_zeros_are_equal(a: Float32, b: Float32)
    ensures
        a.nan() || b.nan() ==> !a.equals(b),
        (!a.nan() && a == b) ==> a.equals(b),
        (Float32 { bits: 0 }).equals(Float32 { bits: 0x8000_0000 }),
        (!a.nan() && !b.nan() && a.place() != b.place()) ==> !a.equals(b),
        a.equals(b) == b.equals(a),
{
}

/// Up to 53 bits a number is its own nearest double. A larger one is rounded to a multiple
/// of the least power of two with which 53 bits are enough, by at most half of it.
pub proof fn the_nearest_double_is_near(n: nat)
    ensures
        n < 0x20_0000_0000_0000 ==> nearest_double(n) == n,
        double_step(n) > 0,
        nearest_double(n) % double_step(n) == 0,
        2 * n <= 2 * nearest_double(n) + double_step(n),
        2 * nearest_double(n) <= 2 * n + double_step(n),
        n < 0x20_0000_0000_0000 * double_step(n),
        n >= 0x20_0000_0000_0000 ==> n >= 0x10_0000_0000_0000 * double_step(n),
{
    lemma_step_range(n);
    let step = double_step(n);
    let q = rounded_ratio(n, step);
    a_ratio_is_rounded_to_the_nearest(n, step);
    assert(2 * step * q == 2 * (q * step)) by (nonlinear_arith);
    vstd::arithmetic::div_mod::lemma_mod_multiples_basic(q as int, step as int);
    if n < 0x20_0000_0000_0000 {
        assert(step == 1);
        assert(q * 1 == q);
    }
}

proof fn lemma_step_range(n: nat)
    ensures
        double_step(n) > 0,
        n < 0x20_0000_0000_0000 * double_step(n),
        n >= 0x20_0000_0000_0000 ==> n >= 0x10_0000_0000_0000 * double_step(n),
    decreases n,
{
    if n >= 0x20_0000_0000_0000 {
        lemma_step_range(n / 2);
    }
}

} // verus!
