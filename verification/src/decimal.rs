//! Fixed-point decimal numbers, as the expression evaluator computes with
//! them.
//!
//! A `Number` stands for `mantissa / 10^scale`. Sums, products and the
//! like are computed by the `rust_decimal` crate; this module hands it the
//! two parts of each operand and takes the two parts of the result back.
use rust_decimal::Decimal;
use rust_decimal::MathematicalOps;
use vstd::prelude::*;

verus! {

/// A decimal number `mantissa / 10^scale`.
#[derive(Clone, Copy, PartialEq, Eq, Structural, Debug)]
pub struct Number {
    pub mantissa: i128,
    pub scale: u32,
}

/// The largest scale a decimal can have.
pub const MAX_SCALE: u32 = 28;

/// Ten to the power `e`.
pub open spec fn pow10(e: nat) -> nat
    decreases e,
{
    if e == 0 {
        1
    } else {
        10 * pow10((e - 1) as nat)
    }
}

/// What `Decimal::from_str` makes of a text: the mantissa and scale of the
/// decimal it reads, or nothing where it reads none.
pub uninterp spec fn decimal_parse(text: Seq<char>) -> Option<(i128, u32)>;

/// What `Decimal::checked_add` makes of two decimals given by mantissa and
/// scale; nothing where one of them is no decimal or the sum overflows.
pub uninterp spec fn decimal_add(am: i128, ascale: u32, bm: i128, bscale: u32) -> Option<
    (i128, u32),
>;

/// What `Decimal::checked_sub` makes of two decimals.
pub uninterp spec fn decimal_sub(am: i128, ascale: u32, bm: i128, bscale: u32) -> Option<
    (i128, u32),
>;

/// What `Decimal::checked_mul` makes of two decimals.
pub uninterp spec fn decimal_mul(am: i128, ascale: u32, bm: i128, bscale: u32) -> Option<
    (i128, u32),
>;

/// What `Decimal::checked_div` makes of two decimals.
pub uninterp spec fn decimal_div(am: i128, ascale: u32, bm: i128, bscale: u32) -> Option<
    (i128, u32),
>;

/// What `MathematicalOps::checked_powd` makes of a base and an exponent.
pub uninterp spec fn decimal_pow(am: i128, ascale: u32, bm: i128, bscale: u32) -> Option<
    (i128, u32),
>;

/// The number with the given parts.
pub open spec fn number_of(parts: Option<(i128, u32)>) -> Option<Number> {
    match parts {
        Some((m, s)) => Some(Number { mantissa: m, scale: s }),
        None => None,
    }
}

/// Reads a decimal with `Decimal::from_str`. The contract only names the
/// result: it is the decimal that the crate reads from this text, split
/// into mantissa and scale.
#[verifier::external_body]
pub(crate) fn parse_decimal(text: &str) -> (r: Option<Number>)
    ensures
        r == number_of(decimal_parse(text@)),
{
    match text.parse::<Decimal>() {
        Ok(d) => Some(Number { mantissa: d.mantissa(), scale: d.scale() }),
        Err(_) => None,
    }
}

/// Adds with `Decimal::checked_add`. The contract names the result; the
/// crate documents that it is `None` on overflow.
#[verifier::external_body]
pub(crate) fn checked_add(a: Number, b: Number) -> (r: Option<Number>)
    ensures
        r == number_of(decimal_add(a.mantissa, a.scale, b.mantissa, b.scale)),
{
    let x = Decimal::try_from_i128_with_scale(a.mantissa, a.scale).ok()?;
    let y = Decimal::try_from_i128_with_scale(b.mantissa, b.scale).ok()?;
    let d = x.checked_add(y)?;
    Some(Number { mantissa: d.mantissa(), scale: d.scale() })
}

/// Subtracts with `Decimal::checked_sub`. The contract names the result.
#[verifier::external_body]
pub(crate) fn checked_sub(a: Number, b: Number) -> (r: Option<Number>)
    ensures
        r == number_of(decimal_sub(a.mantissa, a.scale, b.mantissa, b.scale)),
{
    let x = Decimal::try_from_i128_with_scale(a.mantissa, a.scale).ok()?;
    let y = Decimal::try_from_i128_with_scale(b.mantissa, b.scale).ok()?;
    let d = x.checked_sub(y)?;
    Some(Number { mantissa: d.mantissa(), scale: d.scale() })
}

/// Multiplies with `Decimal::checked_mul`. The contract names the result.
#[verifier::external_body]
pub(crate) fn checked_mul(a: Number, b: Number) -> (r: Option<Number>)
    ensures
        r == number_of(decimal_mul(a.mantissa, a.scale, b.mantissa, b.scale)),
{
    let x = Decimal::try_from_i128_with_scale(a.mantissa, a.scale).ok()?;
    let y = Decimal::try_from_i128_with_scale(b.mantissa, b.scale).ok()?;
    let d = x.checked_mul(y)?;
    Some(Number { mantissa: d.mantissa(), scale: d.scale() })
}

/// Divides with `Decimal::checked_div`, which is `None` for a zero divisor
/// as for an overflow. The contract names the result.
#[verifier::external_body]
pub(crate) fn checked_div(a: Number, b: Number) -> (r: Option<Number>)
    ensures
        r == number_of(decimal_div(a.mantissa, a.scale, b.mantissa, b.scale)),
{
    let x = Decimal::try_from_i128_with_scale(a.mantissa, a.scale).ok()?;
    let y = Decimal::try_from_i128_with_scale(b.mantissa, b.scale).ok()?;
    let d = x.checked_div(y)?;
    Some(Number { mantissa: d.mantissa(), scale: d.scale() })
}

/// Raises to a power with `MathematicalOps::checked_powd`. The exponent
/// must be a whole number: for any other the crate goes through a
/// logarithm that may stop the program. The contract names the result.
#[verifier::external_body]
pub(crate) fn checked_pow(a: Number, b: Number) -> (r: Option<Number>)
    requires
        b.is_whole(),
    ensures
        r == number_of(decimal_pow(a.mantissa, a.scale, b.mantissa, b.scale)),
{
    let x = Decimal::try_from_i128_with_scale(a.mantissa, a.scale).ok()?;
    let y = Decimal::try_from_i128_with_scale(b.mantissa, b.scale).ok()?;
    let d = x.checked_powd(y)?;
    Some(Number { mantissa: d.mantissa(), scale: d.scale() })
}

proof fn lemma_pow10_values()
    ensures
        pow10(0) == 1,
        pow10(28) == 10000000000000000000000000000,
        forall|e: nat| #[trigger] pow10(e + 1) == 10 * pow10(e),
{
    reveal_with_fuel(pow10, 30);
}

/// Ten to the power `e`, for a scale that a decimal can have.
pub fn power_of_ten(e: u32) -> (r: i128)
    requires
        e <= MAX_SCALE,
    ensures
        r == pow10(e as nat),
        1 <= r <= 10000000000000000000000000000,
{
    let mut r: i128 = 1;
    let mut i: u32 = 0;
    proof {
        lemma_pow10_values();
    }
    while i < e
        invariant
            i <= e <= MAX_SCALE,
            r == pow10(i as nat),
            1 <= r,
            r * pow10((28 - i) as nat) == 10000000000000000000000000000,
            forall|k: nat| #[trigger] pow10(k + 1) == 10 * pow10(k),
        decreases e - i,
    {
        let ghost rest = pow10((28 - i - 1) as nat);
        assert(pow10((28 - i) as nat) == 10 * rest) by {
            assert(pow10(((28 - i - 1) as nat) + 1) == 10 * pow10((28 - i - 1) as nat));
        }
        assert(r * 10 * rest == 10000000000000000000000000000) by (nonlinear_arith)
            requires
                r * (10 * rest) == 10000000000000000000000000000,
        ;
        assert(rest >= 1) by {
            lemma_pow10_positive((28 - i - 1) as nat);
        }
        assert(r * 10 <= 10000000000000000000000000000) by (nonlinear_arith)
            requires
                r * 10 * rest == 10000000000000000000000000000,
                rest >= 1,
                r >= 1,
        ;
        assert(pow10((i + 1) as nat) == 10 * pow10(i as nat));
        r = r * 10;
        i += 1;
    }
    proof {
        lemma_pow10_positive((28 - i) as nat);
        assert(r <= 10000000000000000000000000000) by (nonlinear_arith)
            requires
                r * pow10((28 - i) as nat) == 10000000000000000000000000000,
                pow10((28 - i) as nat) >= 1,
                r >= 1,
        ;
    }
    r
}

/// Every power of ten is positive.
pub proof fn lemma_pow10_positive(e: nat)
    ensures
        pow10(e) >= 1,
    decreases e,
{
    if e > 0 {
        lemma_pow10_positive((e - 1) as nat);
    }
}

impl Number {
    /// The whole number `n`.
    pub fn from_u64(n: u64) -> (r: Number)
        ensures
            r == (Number { mantissa: n as i128, scale: 0 }),
    {
        Number { mantissa: n as i128, scale: 0 }
    }

    /// Whether the number has no fractional part.
    pub open spec fn is_whole(self) -> bool {
        &&& self.scale <= MAX_SCALE
        &&& self.mantissa > i128::MIN
        &&& (vstd::math::abs(self.mantissa as int) as int) % (pow10(self.scale as nat) as int)
            == 0
    }

    /// The number as a `usize`, fractional digits cut off; nothing for a
    /// negative number and for one beyond `usize`.
    pub open spec fn spec_to_usize(self) -> Option<usize> {
        if self.scale > MAX_SCALE || self.mantissa < 0 {
            None
        } else {
            let whole = self.mantissa as int / pow10(self.scale as nat) as int;
            if whole <= usize::MAX {
                Some(whole as usize)
            } else {
                None
            }
        }
    }

    /// The sum, where `rust_decimal` can form it.
    pub open spec fn spec_plus(self, other: Number) -> Option<Number> {
        number_of(decimal_add(self.mantissa, self.scale, other.mantissa, other.scale))
    }

    /// The difference, where `rust_decimal` can form it.
    pub open spec fn spec_minus(self, other: Number) -> Option<Number> {
        number_of(decimal_sub(self.mantissa, self.scale, other.mantissa, other.scale))
    }

    /// The product, where `rust_decimal` can form it.
    pub open spec fn spec_times(self, other: Number) -> Option<Number> {
        number_of(decimal_mul(self.mantissa, self.scale, other.mantissa, other.scale))
    }

    /// The quotient, where `rust_decimal` can form it.
    pub open spec fn spec_over(self, other: Number) -> Option<Number> {
        number_of(decimal_div(self.mantissa, self.scale, other.mantissa, other.scale))
    }

    /// The power, for a whole exponent and where `rust_decimal` can form it.
    pub open spec fn spec_power(self, exponent: Number) -> Option<Number> {
        if exponent.is_whole() {
            number_of(
                decimal_pow(self.mantissa, self.scale, exponent.mantissa, exponent.scale),
            )
        } else {
            None
        }
    }

    /// The number with the opposite sign.
    pub open spec fn spec_negated(self) -> Option<Number> {
        if self.mantissa == i128::MIN {
            None
        } else {
            Some(Number { mantissa: (-self.mantissa) as i128, scale: self.scale })
        }
    }

    /// Whether the number has no fractional part.
    pub fn whole(self) -> (r: bool)
        ensures
            r == self.is_whole(),
    {
        if self.scale > MAX_SCALE || self.mantissa == i128::MIN {
            return false;
        }
        let p = power_of_ten(self.scale);
        let magnitude: i128 = if self.mantissa < 0 {
            -self.mantissa
        } else {
            self.mantissa
        };
        magnitude % p == 0
    }

    /// `self` raised to `exponent`; nothing unless the exponent is whole.
    pub fn power(self, exponent: Number) -> (r: Option<Number>)
        ensures
            r == self.spec_power(exponent),
    {
        if exponent.whole() {
            checked_pow(self, exponent)
        } else {
            None
        }
    }

    /// The number with the opposite sign; nothing for a mantissa that has
    /// no opposite.
    pub fn negated(self) -> (r: Option<Number>)
        ensures
            r == self.spec_negated(),
    {
        if self.mantissa == i128::MIN {
            None
        } else {
            Some(Number { mantissa: -self.mantissa, scale: self.scale })
        }
    }

    /// The number as a `usize`, fractional digits cut off.
    pub fn to_usize(self) -> (r: Option<usize>)
        ensures
            r == self.spec_to_usize(),
    {
        if self.scale > MAX_SCALE || self.mantissa < 0 {
            return None;
        }
        let p = power_of_ten(self.scale);
        let whole: i128 = self.mantissa / p;
        if whole <= usize::MAX as i128 {
            Some(whole as usize)
        } else {
            None
        }
    }
}

} // verus!
