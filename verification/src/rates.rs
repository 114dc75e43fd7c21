//! Shares of a whole: fractions, what they are in floating-point arithmetic, and the bit patterns of
//! stored rates.

use crate::floats::{
    narrow, narrowed, percent_of, percent_text, quotient, quotient_of, Float, FloatView, DOUBLE,
    SINGLE, SINGLE_PARTS,
};
use crate::text::Text;
use vstd::prelude::*;

verus! {

/// A fraction of two counts.
#[derive(Debug, Clone, Copy, PartialEq, Eq, Structural)]
pub struct Ratio {
    pub num: u64,
    pub den: u64,
}

impl Ratio {
    /// There is something to divide by.
    pub open spec fn wf(self) -> bool {
        self.den > 0
    }

    /// The fraction is at most the whole.
    pub open spec fn is_share(self) -> bool {
        self.den > 0 && self.num <= self.den
    }

    /// The fraction is greater than `num / den`.
    pub open spec fn exceeds(self, num: int, den: int) -> bool {
        self.num * den > num * self.den
    }

    /// The fraction is at least `num / den`.
    pub open spec fn reaches(self, num: int, den: int) -> bool {
        self.num * den >= num * self.den
    }

    /// The fraction as a single-precision number.
    pub open spec fn single(self) -> FloatView {
        quotient_of(self.num as nat, self.den as nat, SINGLE as nat)
    }

    /// The fraction as a single-precision number, by way of a double-precision one.
    pub open spec fn wide_single(self) -> FloatView {
        narrowed(quotient_of(self.num as nat, self.den as nat, DOUBLE as nat))
    }

    /// The fraction as a double-precision number; zero where there is nothing to divide by.
    pub open spec fn double(self) -> FloatView {
        if self.den == 0 {
            FloatView { mant: 0, exp: 0 }
        } else {
            quotient_of(self.num as nat, self.den as nat, DOUBLE as nat)
        }
    }

    /// The fraction in percent as a text, by way of its single-precision number.
    pub open spec fn percent_text_of(self) -> Text {
        percent_of(self.single())
    }

    /// The fraction of `num` and `den`.
    pub fn new(num: u64, den: u64) -> (r: Ratio)
        requires
            den > 0,
        ensures
            r.num == num,
            r.den == den,
            r.wf(),
    {
        Ratio { num, den }
    }

    /// Whether the fraction is at least `num / den`.
    pub fn at_least(self, num: u32, den: u32) -> (r: bool)
        ensures
            r == self.reaches(num as int, den as int),
    {
        proof {
            lemma_product_fits(self.num, den);
            lemma_product_fits(self.den, num);
            assert(num * self.den == self.den * num) by (nonlinear_arith);
        }
        (self.num as u128) * (den as u128) >= (self.den as u128) * (num as u128)
    }

    /// The fraction in percent, as a text.
    pub fn percent_text(self) -> (r: String)
        requires
            self.wf(),
        ensures
            r@ == self.percent_text_of(),
    {
        percent_text(quotient(self.num, self.den, SINGLE))
    }

    /// The fraction as a single-precision number.
    pub fn to_single(self) -> (r: Float)
        requires
            self.wf(),
        ensures
            r@ == self.single(),
            r.mant <= SINGLE_PARTS,
            -46 <= r.exp <= 209,
    {
        quotient(self.num, self.den, SINGLE)
    }

    /// The fraction as a double-precision number.
    pub fn to_double(self) -> (r: Float)
        ensures
            r@ == self.double(),
    {
        if self.den == 0 {
            Float { mant: 0, exp: 0 }
        } else {
            quotient(self.num, self.den, DOUBLE)
        }
    }

    /// The fraction as a single-precision number, by way of a double-precision one.
    pub fn to_wide_single(self) -> (r: Float)
        requires
            self.wf(),
        ensures
            r@ == self.wide_single(),
            r.mant <= SINGLE_PARTS,
            -46 <= r.exp <= 209,
    {
        narrow(quotient(self.num, self.den, DOUBLE))
    }
}

/// The product of a count and a small number fits in twice the width.
proof fn lemma_product_fits(a: u64, b: u32)
    ensures
        0 <= a * b <= 0xffff_ffff_ffff_ffff_ffff_ffff,
{
    assert(0 <= a * b <= 0xffff_ffff_ffff_ffff_ffff_ffff) by (nonlinear_arith)
        requires
            0 <= a <= 0xffff_ffff_ffff_ffff,
            0 <= b <= 0xffff_ffff,
    ;
}

/// The bit pattern of 0.1 as a single-precision number.
pub const TENTH: u32 = 0x3dcc_cccd;

/// The bit pattern of 0.4 as a single-precision number.
pub const FOUR_TENTHS: u32 = 0x3ecc_cccd;

/// The bit pattern of 0.8 as a single-precision number.
pub const EIGHT_TENTHS: u32 = 0x3f4c_cccd;

/// A stored rate, given by the bit pattern of a single-precision number, lies below a positive
/// finite limit given in the same way: every number with the sign set does, and of the others
/// those with the smaller pattern. What is no number lies below nothing.
pub open spec fn rate_is_below(bits: u32, limit: u32) -> bool {
    if bits < 0x8000_0000 {
        bits < limit
    } else {
        bits <= 0xff80_0000
    }
}

/// Whether a stored rate lies below a positive finite limit.
pub fn rate_below(bits: u32, limit: u32) -> (r: bool)
    requires
        0 < limit <= 0x7f80_0000,
    ensures
        r == rate_is_below(bits, limit),
{
    if bits < 0x8000_0000 {
        bits < limit
    } else {
        bits <= 0xff80_0000
    }
}

/// The place of a rate among all rates that are numbers; the two zeros share one.
pub open spec fn rate_order(bits: u32) -> int {
    if bits < 0x8000_0000 {
        bits as int
    } else {
        0x8000_0000 - bits
    }
}

/// Whether one rate is lower than another.
pub fn rate_lower(a: u32, b: u32) -> (r: bool)
    ensures
        r == (rate_order(a) < rate_order(b)),
{
    let x: i64 = if a < 0x8000_0000 {
        a as i64
    } else {
        0x8000_0000 - a as i64
    };
    let y: i64 = if b < 0x8000_0000 {
        b as i64
    } else {
        0x8000_0000 - b as i64
    };
    x < y
}

/// Of two rates that are numbers and not below zero, the one that is below a limit has the smaller
/// place; the place of a negative rate is below that of zero.
pub proof fn law_rates_below_a_limit_come_first(bits: u32, limit: u32)
    requires
        0 < limit <= 0x7f80_0000,
        bits <= 0x7f80_0000 || 0x8000_0000 <= bits <= 0xff80_0000,
    ensures
        rate_is_below(bits, limit) <==> rate_order(bits) < rate_order(limit),
        rate_order(0) == rate_order(0x8000_0000),
{
}

/// What is no number lies below no limit.
pub proof fn law_no_number_is_below_nothing(bits: u32, limit: u32)
    requires
        0 < limit <= 0x7f80_0000,
        0x7f80_0000 < bits < 0x8000_0000 || bits > 0xff80_0000,
    ensures
        !rate_is_below(bits, limit),
{
}

impl Ratio {
    /// A fraction exceeds another just where it reaches it and the other does not reach it; each
    /// fraction reaches itself.
    pub proof fn law_exceeding_is_more_than_reaching(self, other: Ratio)
        requires
            self.wf(),
            other.wf(),
        ensures
            self.reaches(self.num as int, self.den as int),
            !self.exceeds(self.num as int, self.den as int),
            self.exceeds(other.num as int, other.den as int) <==> !other.reaches(
                self.num as int,
                self.den as int,
            ),
            self.exceeds(other.num as int, other.den as int) ==> self.reaches(
                other.num as int,
                other.den as int,
            ),
    {
    }
}

} // verus!
