//! Binary floating-point arithmetic on whole numbers.
//!
//! A rate is a quotient of counts, rounded to the nearest number that a floating-point format
//! holds. What is printed of it and what it is compared with follow from the rounded number.

use crate::numbers::{decimal_of, decimal_wide, round, rounded};
use crate::text::Text;
use vstd::arithmetic::power2::{
    lemma2_to64, lemma2_to64_rest, lemma_pow2_adds, lemma_pow2_pos, lemma_pow2_strictly_increases,
    lemma_pow2_unfold, pow2,
};
use vstd::prelude::*;

verus! {

/// The bits that a single-precision number has.
pub const SINGLE: u32 = 24;

/// The bits that a double-precision number has.
pub const DOUBLE: u32 = 53;

/// Two to the power of the bits of a single-precision number: the single-precision numbers from one
/// half to one are multiples of one part in so many.
pub const SINGLE_PARTS: u64 = 0x100_0000;

/// The number `mant` divided by two to the power of `exp`.
#[derive(Debug, Clone, Copy)]
pub struct Float {
    pub mant: u64,
    pub exp: i32,
}

/// The model of a floating-point number.
#[verifier::ext_equal]
pub struct FloatView {
    pub mant: nat,
    pub exp: int,
}

impl View for Float {
    type V = FloatView;

    open spec fn view(&self) -> FloatView {
        FloatView { mant: self.mant as nat, exp: self.exp as int }
    }
}

/// `num / den` times two to the power of `e`, as a fraction.
pub open spec fn scaled(num: nat, den: nat, e: int) -> (nat, nat) {
    if e >= 0 {
        (num * pow2(e as nat), den)
    } else {
        (num, den * pow2((-e) as nat))
    }
}

/// `num / den` times two to the power of `e` has just `bits` bits in front of its point.
pub open spec fn has_bits(num: nat, den: nat, bits: nat, e: int) -> bool {
    let (n, d) = scaled(num, den, e);
    pow2((bits - 1) as nat) * d <= n < pow2(bits) * d
}

/// The power of two that gives a positive fraction `bits` bits in front of its point.
pub open spec fn exponent_of(num: nat, den: nat, bits: nat) -> int {
    choose|e: int| has_bits(num, den, bits, e)
}

/// The floating-point number of `bits` bits nearest to `num / den`, a half to the even one.
pub open spec fn float_of(num: nat, den: nat, bits: nat) -> FloatView {
    if num == 0 {
        FloatView { mant: 0, exp: 0 }
    } else {
        let e = exponent_of(num, den, bits);
        let (n, d) = scaled(num, den, e);
        FloatView { mant: rounded(n, d), exp: e }
    }
}

/// A floating-point number as a fraction.
pub open spec fn fraction_of(f: FloatView) -> (nat, nat) {
    scaled(f.mant, 1, -f.exp)
}

/// The whole number that a count becomes as a floating-point number of `bits` bits.
pub open spec fn nearest(n: nat, bits: nat) -> nat {
    if n < pow2(bits) {
        n
    } else {
        fraction_of(float_of(n, 1, bits)).0
    }
}

/// The quotient of two counts in the arithmetic of `bits` bits.
pub open spec fn quotient_of(num: nat, den: nat, bits: nat) -> FloatView {
    float_of(nearest(num, bits), nearest(den, bits), bits)
}

/// A double-precision number as a single-precision one.
pub open spec fn narrowed(f: FloatView) -> FloatView {
    let g = float_of(f.mant, 1, SINGLE as nat);
    FloatView { mant: g.mant, exp: g.exp + f.exp }
}

/// A hundred times a single-precision number, as a single-precision number.
pub open spec fn hundredfold(f: FloatView) -> FloatView {
    let g = float_of(f.mant * 100, 1, SINGLE as nat);
    FloatView { mant: g.mant, exp: g.exp + f.exp }
}

/// The whole number nearest to a floating-point number, a half to the even one.
pub open spec fn whole_of(f: FloatView) -> nat {
    let (n, d) = fraction_of(f);
    rounded(n, d)
}

/// A single-precision number in percent, without decimals.
pub open spec fn percent_of(f: FloatView) -> Text {
    decimal_of(whole_of(hundredfold(f)))
}

/// A floating-point number is greater than `parts` parts of those that one has in single precision.
pub open spec fn is_above(f: FloatView, parts: nat) -> bool {
    let (n, d) = fraction_of(f);
    n * SINGLE_PARTS > parts * d
}

/// The next power of two doubles what is scaled.
proof fn lemma_scaled_doubles(num: nat, den: nat, e: int)
    ensures
        ({
            let (n, d) = scaled(num, den, e);
            let (m, c) = scaled(num, den, e + 1);
            m * d == 2 * n * c
        }),
{
    let (n, d) = scaled(num, den, e);
    let (m, c) = scaled(num, den, e + 1);
    if e >= 0 {
        lemma_pow2_unfold((e + 1) as nat);
        let p = pow2(e as nat);
        assert(m == num * (2 * p) && n == num * p);
        assert((num * (2 * p)) * den == 2 * (num * p) * den) by (nonlinear_arith);
    } else if e == -1 {
        lemma2_to64();
        assert(pow2(1) == 2 && pow2(0) == 1);
        assert(c == den) by {
            assert(m == num * 1);
        }
        assert(num * (den * 2) == 2 * num * den) by (nonlinear_arith);
    } else {
        lemma_pow2_unfold((-e) as nat);
        let p = pow2((-e - 1) as nat);
        assert(d == den * (2 * p) && c == den * p);
        assert(num * (den * (2 * p)) == 2 * num * (den * p)) by (nonlinear_arith);
    }
}

/// What is scaled by is positive where it was.
proof fn lemma_scaled_positive(num: nat, den: nat, e: int)
    requires
        den > 0,
    ensures
        scaled(num, den, e).1 > 0,
        num > 0 ==> scaled(num, den, e).0 > 0,
{
    if e >= 0 {
        lemma_pow2_pos(e as nat);
        let p = pow2(e as nat);
        assert(num > 0 ==> num * p > 0) by (nonlinear_arith)
            requires
                p > 0,
        ;
    } else {
        lemma_pow2_pos((-e) as nat);
        let p = pow2((-e) as nat);
        assert(den * p > 0) by (nonlinear_arith)
            requires
                p > 0,
                den > 0,
        ;
    }
}

/// A higher power of two at least doubles what is scaled.
proof fn lemma_scaled_grows(num: nat, den: nat, e1: int, e2: int)
    requires
        den > 0,
        e1 < e2,
    ensures
        scaled(num, den, e2).0 * scaled(num, den, e1).1 >= 2 * scaled(num, den, e1).0 * scaled(
            num,
            den,
            e2,
        ).1,
    decreases e2 - e1,
{
    let (n1, d1) = scaled(num, den, e1);
    let (n3, d3) = scaled(num, den, e2);
    lemma_scaled_doubles(num, den, e2 - 1);
    if e1 + 1 < e2 {
        lemma_scaled_grows(num, den, e1, e2 - 1);
        let (n2, d2) = scaled(num, den, e2 - 1);
        lemma_scaled_positive(num, den, e2 - 1);
        assert(n3 * d1 >= 2 * n1 * d3) by (nonlinear_arith)
            requires
                n3 * d2 == 2 * n2 * d3,
                n2 * d1 >= 2 * n1 * d2,
                d2 > 0,
                n1 >= 0,
                d1 >= 0,
                d3 >= 0,
                n3 >= 0,
        {
            assert((n3 * d1) * d2 == 2 * (n2 * d1) * d3);
            assert(2 * (n2 * d1) * d3 >= 2 * (2 * n1 * d2) * d3);
            assert(2 * (2 * n1 * d2) * d3 >= (2 * n1 * d3) * d2);
        }
    }
}

/// Only one power of two gives a fraction so many bits.
pub proof fn lemma_exponent_is_one(num: nat, den: nat, bits: nat, e1: int, e2: int)
    requires
        den > 0,
        bits > 0,
        has_bits(num, den, bits, e1),
        has_bits(num, den, bits, e2),
    ensures
        e1 == e2,
{
    if e1 < e2 {
        lemma_too_many_bits(num, den, bits, e1, e2);
    }
    if e2 < e1 {
        lemma_too_many_bits(num, den, bits, e2, e1);
    }
}

/// A higher power of two than the right one gives a fraction too many bits.
proof fn lemma_too_many_bits(num: nat, den: nat, bits: nat, e1: int, e2: int)
    requires
        den > 0,
        bits > 0,
        has_bits(num, den, bits, e1),
        e1 < e2,
    ensures
        !has_bits(num, den, bits, e2),
{
    let (n1, d1) = scaled(num, den, e1);
    let (n2, d2) = scaled(num, den, e2);
    lemma_scaled_grows(num, den, e1, e2);
    lemma_scaled_positive(num, den, e1);
    lemma_pow2_unfold(bits);
    let h = pow2((bits - 1) as nat);
    assert(n2 >= (2 * h) * d2) by (nonlinear_arith)
        requires
            n2 * d1 >= 2 * n1 * d2,
            n1 >= h * d1,
            d1 > 0,
            d2 >= 0,
            n2 >= 0,
    {
        assert(2 * n1 * d2 >= 2 * (h * d1) * d2);
        assert(2 * (h * d1) * d2 == ((2 * h) * d2) * d1);
    }
}

/// A power of two is the largest below its double, so that exponents compare as powers do.
proof fn lemma_pow2_bound(e: nat, limit: nat, n: nat)
    requires
        pow2(e) <= n < pow2(limit),
    ensures
        e < limit,
{
    if e > limit {
        lemma_pow2_strictly_increases(limit, e);
    }
}

/// A number of few bits is not scaled down far.
proof fn lemma_scaled_down(num: nat, den: nat, bits: nat, e: int, limit: nat)
    requires
        den > 0,
        bits > 0,
        num < pow2(limit),
        has_bits(num, den, bits, e),
        e < 0,
    ensures
        bits - 1 - e < limit,
{
    let h = pow2((bits - 1) as nat);
    let p = pow2((-e) as nat);
    lemma_pow2_pos((-e) as nat);
    lemma_pow2_adds((bits - 1) as nat, (-e) as nat);
    assert(h * p <= h * (den * p)) by (nonlinear_arith)
        requires
            den > 0,
            h >= 0,
            p >= 0,
    ;
    lemma_pow2_bound((bits - 1 - e) as nat, limit, num);
}

/// The floating-point number nearest to `num / den`.
pub fn to_float(num: u128, den: u128, bits: u32) -> (r: Float)
    requires
        bits == SINGLE || bits == DOUBLE,
        0 < den <= 0x2_0000_0000_0000_0000,
        num <= 0x2_0000_0000_0000_0000,
    ensures
        r@ == float_of(num as nat, den as nat, bits as nat),
        num > 0 ==> has_bits(num as nat, den as nat, bits as nat, r.exp as int),
        r.mant <= pow2(bits as nat),
        r.mant <= 0x20_0000_0000_0000,
        bits == SINGLE ==> r.mant <= SINGLE_PARTS,
        -67 + bits <= r.exp <= bits + 66,
{
    proof {
        lemma2_to64();
        lemma2_to64_rest();
        lemma_pow2_unfold(65);
        lemma_pow2_unfold(66);
        lemma_pow2_adds(65, bits as nat);
    }
    if num == 0 {
        return Float { mant: 0, exp: 0 };
    }
    let top: u128 = if bits == SINGLE {
        0x100_0000
    } else {
        0x20_0000_0000_0000
    };
    let half: u128 = top / 2;
    assert(top == pow2(bits as nat) && half == pow2((bits - 1) as nat));
    let mut n: u128 = num;
    let mut d: u128 = den;
    let mut e: i32 = 0;
    assert(d * top <= 0x2_0000_0000_0000_0000 * 0x20_0000_0000_0000) by (nonlinear_arith)
        requires
            d <= 0x2_0000_0000_0000_0000,
            top <= 0x20_0000_0000_0000,
    ;
    if n >= d * top {
        proof {
            assert(den * pow2(0) == den) by {
                assert(pow2(0) == 1);
            }
            assert(n >= d * half) by (nonlinear_arith)
                requires
                    n >= d * top,
                    top >= half,
            ;
            assert(pow2(0) <= den);
        }
        while n >= d * top
            invariant
                n == num,
                -66 <= e <= 0,
                d == den * pow2((-e) as nat),
                pow2((-e) as nat) <= d,
                1 <= d <= 0x2_0000_0000_0000_0000,
                num <= 0x2_0000_0000_0000_0000,
                den > 0,
                n >= d * half,
                top == 2 * half,
                0x80_0000 <= half <= 0x10_0000_0000_0000,
                d * top <= 0x2_0000_0000_0000_0000 * 0x20_0000_0000_0000,
            decreases 0x4_0000_0000_0000_0000 - d,
        {
            let ghost p = pow2((-e) as nat);
            proof {
                lemma_pow2_unfold((-e + 1) as nat);
                lemma2_to64();
                lemma_pow2_unfold(65);
                lemma_pow2_unfold(66);
                assert(2 * d <= n) by (nonlinear_arith)
                    requires
                        n >= d * top,
                        top >= 2,
                        d >= 0,
                ;
                assert(2 * d == den * (2 * p)) by (nonlinear_arith)
                    requires
                        d == den * p,
                ;
                assert((2 * d) * half == d * top) by (nonlinear_arith)
                    requires
                        top == 2 * half,
                ;
                lemma_pow2_bound((-e + 1) as nat, 66, (2 * d) as nat);
            }
            d = d * 2;
            e = e - 1;
            assert(d * top <= 0x2_0000_0000_0000_0000 * 0x20_0000_0000_0000) by (nonlinear_arith)
                requires
                    d <= 0x2_0000_0000_0000_0000,
                    top <= 0x20_0000_0000_0000,
            ;
        }
        proof {
            if e == 0 {
                assert(pow2(0) == 1);
            }
            assert(d * half == half * d && d * top == top * d) by (nonlinear_arith);
        }
    } else {
        proof {
            assert(num * pow2(0) == num) by {
                assert(pow2(0) == 1);
            }
            assert(d * half <= d * top) by (nonlinear_arith)
                requires
                    half <= top,
                    d >= 0,
            ;
            assert(d * top <= pow2(65) * pow2(bits as nat)) by (nonlinear_arith)
                requires
                    0 <= d <= pow2(65),
                    0 <= top <= pow2(bits as nat),
            ;
        }
        while n < d * half
            invariant
                d == den,
                0 <= e <= bits + 66,
                n == num * pow2(e as nat),
                pow2(e as nat) <= n,
                num > 0,
                n < d * top,
                top == 2 * half,
                d * half <= d * top <= pow2((65 + bits) as nat),
                d * top <= 0x2_0000_0000_0000_0000 * 0x20_0000_0000_0000,
                bits <= 53,
            decreases d * top - n,
        {
            let ghost p = pow2(e as nat);
            proof {
                lemma_pow2_unfold((e + 1) as nat);
                lemma_pow2_pos(e as nat);
                assert(2 * n == num * (2 * p)) by (nonlinear_arith)
                    requires
                        n == num * p,
                ;
                assert(2 * n < d * top) by (nonlinear_arith)
                    requires
                        n < d * half,
                        top == 2 * half,
                ;
                lemma_pow2_bound((e + 1) as nat, (65 + bits) as nat, (2 * n) as nat);
            }
            n = n * 2;
            e = e + 1;
        }
        assert(d * half == half * d && d * top == top * d) by (nonlinear_arith);
    }
    assert(scaled(num as nat, den as nat, e as int) == (n as nat, d as nat));
    assert(has_bits(num as nat, den as nat, bits as nat, e as int));
    let m = round(n, d);
    proof {
        let chosen = exponent_of(num as nat, den as nat, bits as nat);
        lemma_exponent_is_one(num as nat, den as nat, bits as nat, chosen, e as int);
        lemma_rounded_at_most(n as nat, d as nat, top as nat);
        if e < 0 {
            lemma_scaled_down(num as nat, den as nat, bits as nat, e as int, 66);
        }
    }
    Float { mant: m as u64, exp: e }
}

/// The whole number that a count becomes as a floating-point number of `bits` bits.
fn to_nearest(n: u64, bits: u32) -> (r: u128)
    requires
        bits == SINGLE || bits == DOUBLE,
    ensures
        r == nearest(n as nat, bits as nat),
        r <= 0x2_0000_0000_0000_0000,
        n > 0 ==> r > 0,
{
    proof {
        lemma2_to64();
        lemma2_to64_rest();
    }
    let top: u64 = if bits == SINGLE {
        0x100_0000
    } else {
        0x20_0000_0000_0000
    };
    if n < top {
        return n as u128;
    }
    let f = to_float(n as u128, 1, bits);
    proof {
        lemma_large_is_whole(n as nat, bits as nat, f.exp as int);
    }
    let shift = power((-f.exp) as u32);
    proof {
        let (a, b) = scaled(n as nat, 1, f.exp as int);
        lemma_scaled_positive(n as nat, 1, f.exp as int);
        lemma_rounded_at_least(a, b, pow2((bits - 1) as nat));
        lemma_pow2_pos((bits - 1) as nat);
        assert(0 < f.mant * shift <= pow2(bits as nat) * shift) by (nonlinear_arith)
            requires
                0 < f.mant <= pow2(bits as nat),
                0 < shift,
        ;
    }
    (f.mant as u128) * shift
}

/// Two to the power of `e`.
fn power(e: u32) -> (r: u128)
    requires
        e <= 126,
    ensures
        r == pow2(e as nat),
        r > 0,
{
    let mut p: u128 = 1;
    let mut i: u32 = 0;
    proof {
        lemma2_to64();
    }
    while i < e
        invariant
            i <= e <= 126,
            p == pow2(i as nat),
            p > 0,
        decreases e - i,
    {
        proof {
            lemma_pow2_unfold((i + 1) as nat);
            lemma_small_powers((i + 1) as nat);
        }
        p = p * 2;
        i = i + 1;
    }
    p
}

/// The powers of two that fit in 128 bits.
proof fn lemma_small_powers(e: nat)
    requires
        e <= 126,
    ensures
        pow2(e) <= 0x4000_0000_0000_0000_0000_0000_0000_0000,
{
    lemma2_to64();
    lemma2_to64_rest();
    lemma_pow2_adds(63, 63);
    if e < 126 {
        lemma_pow2_strictly_increases(e, 126);
    }
    assert(pow2(63) * pow2(63) == 0x4000_0000_0000_0000_0000_0000_0000_0000) by (nonlinear_arith)
        requires
            pow2(63) == 0x8000_0000_0000_0000,
    ;
}

/// A count of more than `bits` bits becomes a whole number.
proof fn lemma_large_is_whole(n: nat, bits: nat, e: int)
    requires
        bits == 24 || bits == 53,
        pow2(bits) <= n < 0x1_0000_0000_0000_0000,
        has_bits(n, 1, bits, e),
    ensures
        e < 0,
        -e <= 65 - bits,
        pow2(bits) * pow2((-e) as nat) <= 0x2_0000_0000_0000_0000,
{
    lemma2_to64();
    lemma2_to64_rest();
    lemma_pow2_unfold(65);
    let h = pow2((bits - 1) as nat);
    if e >= 0 {
        let p = pow2(e as nat);
        lemma_pow2_pos(e as nat);
        assert(n * p >= n) by (nonlinear_arith)
            requires
                p >= 1,
                n >= 0,
        ;
        assert(false);
    }
    let d = pow2((-e) as nat);
    assert(h * (1 * d) <= n);
    lemma_pow2_adds((bits - 1) as nat, (-e) as nat);
    assert(h * d == pow2((bits - 1 - e) as nat));
    lemma_pow2_bound((bits - 1 - e) as nat, 64, n);
    lemma_pow2_adds(bits, (-e) as nat);
    if bits - e < 65 {
        lemma_pow2_strictly_increases((bits - e) as nat, 65);
    }
}

/// The quotient of two counts in the arithmetic of `bits` bits.
pub fn quotient(num: u64, den: u64, bits: u32) -> (r: Float)
    requires
        bits == SINGLE || bits == DOUBLE,
        den > 0,
    ensures
        r@ == quotient_of(num as nat, den as nat, bits as nat),
        r.mant <= 0x20_0000_0000_0000,
        bits == SINGLE ==> r.mant <= SINGLE_PARTS,
        -67 + bits <= r.exp <= bits + 66,
{
    let n = to_nearest(num, bits);
    let d = to_nearest(den, bits);
    to_float(n, d, bits)
}

/// A double-precision number as a single-precision one.
pub fn narrow(f: Float) -> (r: Float)
    requires
        f.mant <= 0x20_0000_0000_0000,
        -14 <= f.exp <= 119,
    ensures
        r@ == narrowed(f@),
        r.mant <= SINGLE_PARTS,
        -46 <= r.exp <= 209,
{
    let g = to_float(f.mant as u128, 1, SINGLE);
    proof {
        lemma2_to64_rest();
        if f.mant > 0 && g.exp < 0 {
            lemma_scaled_down(f.mant as nat, 1, 24, g.exp as int, 54);
        }
    }
    Float { mant: g.mant, exp: g.exp + f.exp }
}

/// The numbers of more than a hundred bits behind their point, and few in front, are below one half.
proof fn lemma_tiny(mant: nat, exp: int)
    requires
        mant <= 0x20_0000_0000_0000,
        exp > 100,
    ensures
        fraction_of(FloatView { mant, exp }) == (mant, pow2(exp as nat)),
        mant * 0x200_0000 < pow2(exp as nat),
{
    lemma2_to64();
    lemma2_to64_rest();
    lemma_pow2_adds(50, 50);
    lemma_pow2_strictly_increases(100, exp as nat);
    assert(pow2(50) * pow2(50) == 0x10_0000_0000_0000_0000_0000_0000) by (nonlinear_arith)
        requires
            pow2(50) == 0x4_0000_0000_0000,
    ;
}

/// A single-precision number in percent, without decimals.
pub fn percent_text(f: Float) -> (r: String)
    requires
        f.mant <= SINGLE_PARTS,
        -46 <= f.exp <= 209,
    ensures
        r@ == percent_of(f@),
{
    let g = to_float((f.mant as u128) * 100, 1, SINGLE);
    proof {
        lemma2_to64();
        if f.mant > 0 && g.exp < 0 {
            lemma_scaled_down((f.mant * 100) as nat, 1, 24, g.exp as int, 32);
        }
    }
    let h = Float { mant: g.mant, exp: g.exp + f.exp };
    assert(h@ == hundredfold(f@));
    decimal_wide(whole(h))
}

/// The whole number nearest to a floating-point number.
fn whole(f: Float) -> (r: u128)
    requires
        f.mant <= SINGLE_PARTS,
        -60 <= f.exp <= 400,
    ensures
        r == whole_of(f@),
{
    if f.exp > 100 {
        proof {
            lemma_tiny(f.mant as nat, f.exp as int);
            let p = pow2(f.exp as nat);
            assert(f.mant as nat / p == 0 && f.mant as nat % p == f.mant) by (nonlinear_arith)
                requires
                    0 <= f.mant < p,
            ;
        }
        return 0;
    }
    proof {
        lemma2_to64();
    }
    let (n, d) = fraction(f);
    round(n, d)
}

/// A floating-point number as a fraction.
fn fraction(f: Float) -> (r: (u128, u128))
    requires
        f.mant <= SINGLE_PARTS,
        -60 <= f.exp <= 100,
    ensures
        (r.0 as nat, r.1 as nat) == fraction_of(f@),
        0 < r.1 <= 0x10_0000_0000_0000_0000_0000_0000,
        r.0 <= 0x100_0000 * 0x1000_0000_0000_0000,
{
    proof {
        lemma2_to64();
        lemma2_to64_rest();
        lemma_pow2_adds(50, 50);
        assert(pow2(50) * pow2(50) == 0x10_0000_0000_0000_0000_0000_0000) by (nonlinear_arith)
            requires
                pow2(50) == 0x4_0000_0000_0000,
        ;
    }
    if f.exp > 0 {
        proof {
            if f.exp < 100 {
                lemma_pow2_strictly_increases(f.exp as nat, 100);
            }
            assert(1 * pow2(f.exp as nat) == pow2(f.exp as nat));
        }
        (f.mant as u128, power(f.exp as u32))
    } else {
        let p = power((-f.exp) as u32);
        proof {
            if -f.exp < 60 {
                lemma_pow2_strictly_increases((-f.exp) as nat, 60);
            }
            assert(0 <= f.mant * p <= 0x100_0000 * 0x1000_0000_0000_0000) by (nonlinear_arith)
                requires
                    0 <= f.mant <= 0x100_0000,
                    0 <= p <= 0x1000_0000_0000_0000,
            ;
        }
        ((f.mant as u128) * p, 1)
    }
}

/// Whether a floating-point number is greater than `parts` parts of those that one has.
pub fn above(f: Float, parts: u32) -> (r: bool)
    requires
        f.mant <= SINGLE_PARTS,
        -60 <= f.exp <= 400,
        0 < parts <= SINGLE_PARTS,
    ensures
        r == is_above(f@, parts as nat),
{
    if f.exp > 100 {
        proof {
            lemma_tiny(f.mant as nat, f.exp as int);
            let p = pow2(f.exp as nat);
            assert(p <= parts * p) by (nonlinear_arith)
                requires
                    parts >= 1,
                    p >= 0,
            ;
        }
        return false;
    }
    let (n, d) = fraction(f);
    proof {
        assert(0 <= parts * d <= 0x100_0000 * 0x10_0000_0000_0000_0000_0000_0000)
            by (nonlinear_arith)
            requires
                0 <= parts <= 0x100_0000,
                0 <= d <= 0x10_0000_0000_0000_0000_0000_0000,
        ;
        assert(0 <= n * 0x100_0000 <= 0x100_0000 * 0x1000_0000_0000_0000 * 0x100_0000)
            by (nonlinear_arith)
            requires
                0 <= n <= 0x100_0000 * 0x1000_0000_0000_0000,
        ;
    }
    n * (SINGLE_PARTS as u128) > (parts as u128) * d
}

/// What one less a quotient of counts is in single precision, in parts of those that one has, and
/// nothing where the quotient is one or more. No single-precision number from one half to one lies
/// between such parts, and below one half the difference needs no rounding.
pub open spec fn rest_of(f: FloatView) -> nat {
    let (n, d) = fraction_of(f);
    if n >= d {
        0
    } else {
        rounded((d - n) as nat * SINGLE_PARTS as nat, d)
    }
}

/// What one less a quotient of counts is in single precision.
pub fn rest(f: Float) -> (r: u64)
    requires
        f.mant <= SINGLE_PARTS,
        -60 <= f.exp <= 100,
    ensures
        r == rest_of(f@),
        r <= SINGLE_PARTS,
{
    let (n, d) = fraction(f);
    if n >= d {
        return 0;
    }
    let left: u128 = (d - n) * (SINGLE_PARTS as u128);
    let parts = round(left, d);
    proof {
        assert(left <= 0x100_0000 * d) by (nonlinear_arith)
            requires
                left == (d - n) * 0x100_0000,
                n >= 0,
        ;
        lemma_rounded_at_most(left as nat, d as nat, 0x100_0000);
    }
    parts as u64
}

/// A fraction of a whole number or more rounds to no less than that.
pub proof fn lemma_rounded_at_least(n: nat, d: nat, limit: nat)
    requires
        d > 0,
        n >= limit * d,
    ensures
        rounded(n, d) >= limit,
{
    assert(n / d >= limit) by (nonlinear_arith)
        requires
            n >= limit * d,
            d > 0,
            limit >= 0,
    ;
}

/// A fraction below a whole number rounds to no more than that.
pub proof fn lemma_rounded_at_most(n: nat, d: nat, limit: nat)
    requires
        d > 0,
        n <= limit * d,
    ensures
        rounded(n, d) <= limit,
{
    assert(n / d <= limit && (n / d == limit ==> n % d == 0)) by (nonlinear_arith)
        requires
            n <= limit * d,
            d > 0,
            limit >= 0,
            n >= 0,
    ;
}

/// The larger fraction is not rounded to the smaller whole number.
pub proof fn lemma_rounded_grows(a: nat, b: nat, c: nat, d: nat)
    requires
        b > 0,
        d > 0,
        a * d <= c * b,
    ensures
        rounded(a, b) <= rounded(c, d),
{
    let w1 = a / b;
    let r1 = a % b;
    let w2 = c / d;
    let r2 = c % d;
    assert(a == w1 * b + r1 && 0 <= r1 < b) by (nonlinear_arith)
        requires
            b > 0,
            w1 == a / b,
            r1 == a % b,
    ;
    assert(c == w2 * d + r2 && 0 <= r2 < d) by (nonlinear_arith)
        requires
            d > 0,
            w2 == c / d,
            r2 == c % d,
    ;
    assert(w1 <= w2) by (nonlinear_arith)
        requires
            a * d <= c * b,
            a == w1 * b + r1,
            c == w2 * d + r2,
            0 <= r1 < b,
            0 <= r2 < d,
            w1 >= 0,
            w2 >= 0,
    {
        if w1 > w2 {
            assert(w1 * b * d >= (w2 + 1) * b * d);
            assert(a * d >= w1 * b * d);
            assert((w2 * d + r2) * b < (w2 + 1) * d * b);
        }
    }
    if w1 == w2 {
        assert(r1 * d <= r2 * b) by (nonlinear_arith)
            requires
                a * d <= c * b,
                a == w1 * b + r1,
                c == w1 * d + r2,
        ;
        assert(2 * r1 > b ==> 2 * r2 > d) by (nonlinear_arith)
            requires
                r1 * d <= r2 * b,
                b > 0,
                d > 0,
                r1 >= 0,
                r2 >= 0,
        {
            if 2 * r1 > b {
                assert(2 * r1 * d > b * d);
                assert(2 * r2 * b > d * b);
            }
        }
        assert(2 * r1 == b ==> 2 * r2 >= d) by (nonlinear_arith)
            requires
                r1 * d <= r2 * b,
                b > 0,
                d > 0,
                r1 >= 0,
                r2 >= 0,
        {
            if 2 * r1 == b {
                assert(2 * r1 * d == b * d);
                assert(2 * r2 * b >= d * b);
            }
        }
    }
}

/// A fraction of many bits can be scaled down to the right number of bits.
proof fn lemma_scale_down(num: nat, den: nat, bits: nat, e: int)
    requires
        den > 0,
        bits > 0,
        e <= 0,
        scaled(num, den, e).0 >= pow2((bits - 1) as nat) * scaled(num, den, e).1,
    ensures
        exists|k: int| has_bits(num, den, bits, k),
    decreases num + 1 - scaled(num, den, e).1,
{
    lemma2_to64();
    let (n, d) = scaled(num, den, e);
    if n < pow2(bits) * d {
        assert(has_bits(num, den, bits, e));
    } else {
        let (m, c) = scaled(num, den, e - 1);
        lemma_pow2_unfold((-e + 1) as nat);
        lemma_pow2_unfold(bits);
        lemma_pow2_pos((bits - 1) as nat);
        lemma_scaled_positive(num, den, e);
        let p = pow2((-e) as nat);
        let h = pow2((bits - 1) as nat);
        assert(n == num) by {
            if e == 0 {
                assert(pow2(0) == 1);
                assert(num * 1 == num);
            }
        }
        assert(d == den * p) by {
            if e == 0 {
                assert(pow2(0) == 1);
                assert(den * 1 == den);
            }
        }
        assert(den * (2 * p) == 2 * (den * p)) by (nonlinear_arith);
        assert(c == 2 * d);
        assert(n >= h * c && c <= n) by (nonlinear_arith)
            requires
                n >= (2 * h) * d,
                c == 2 * d,
                h >= 1,
                d >= 0,
        ;
        lemma_scale_down(num, den, bits, e - 1);
    }
}

/// A positive fraction of few bits can be scaled up to the right number of bits.
proof fn lemma_scale_up(num: nat, den: nat, bits: nat, e: int)
    requires
        num > 0,
        den > 0,
        bits > 0,
        e >= 0,
        scaled(num, den, e).0 < pow2(bits) * scaled(num, den, e).1,
    ensures
        exists|k: int| has_bits(num, den, bits, k),
    decreases pow2(bits) * den - scaled(num, den, e).0,
{
    let (n, d) = scaled(num, den, e);
    if n >= pow2((bits - 1) as nat) * d {
        assert(has_bits(num, den, bits, e));
    } else {
        lemma_pow2_unfold((e + 1) as nat);
        lemma_pow2_unfold(bits);
        lemma_scaled_positive(num, den, e);
        let p = pow2(e as nat);
        let h = pow2((bits - 1) as nat);
        assert(num * (2 * p) == 2 * (num * p)) by (nonlinear_arith);
        assert(2 * n < (2 * h) * d) by (nonlinear_arith)
            requires
                n < h * d,
        ;
        lemma_scale_up(num, den, bits, e + 1);
    }
}

/// Every positive fraction has a power of two that gives it so many bits.
proof fn lemma_exponent(num: nat, den: nat, bits: nat)
    requires
        num > 0,
        den > 0,
        bits > 0,
    ensures
        has_bits(num, den, bits, exponent_of(num, den, bits)),
{
    lemma2_to64();
    assert(pow2(0) == 1);
    assert(scaled(num, den, 0) == (num, den)) by {
        assert(num * 1 == num);
    }
    if num < pow2(bits) * den {
        lemma_scale_up(num, den, bits, 0);
    } else {
        lemma_pow2_unfold(bits);
        let h = pow2((bits - 1) as nat);
        assert(num >= h * den) by (nonlinear_arith)
            requires
                num >= (2 * h) * den,
                h >= 0,
                den >= 0,
        ;
        lemma_scale_down(num, den, bits, 0);
    }
}

/// `f` is at most `g`: so it stands when both are brought to the same power of two.
pub open spec fn is_at_most(f: FloatView, g: FloatView) -> bool {
    if f.exp >= g.exp {
        f.mant <= g.mant * pow2((f.exp - g.exp) as nat)
    } else {
        f.mant * pow2((g.exp - f.exp) as nat) <= g.mant
    }
}

/// Whether `f` is at most `g`.
pub fn at_most(f: Float, g: Float) -> (r: bool)
    ensures
        r == is_at_most(f@, g@),
{
    if f.exp >= g.exp {
        let d: i64 = f.exp as i64 - g.exp as i64;
        if d >= 64 {
            proof {
                lemma_far_is_more(f.mant, g.mant, d as nat);
            }
            return f.mant == 0 || g.mant > 0;
        }
        let p = power(d as u32);
        proof {
            lemma_shift_fits(g.mant, d as nat);
        }
        (f.mant as u128) <= (g.mant as u128) * p
    } else {
        let d: i64 = g.exp as i64 - f.exp as i64;
        if d >= 64 {
            proof {
                lemma_far_is_more(g.mant, f.mant, d as nat);
            }
            return f.mant == 0;
        }
        let p = power(d as u32);
        proof {
            lemma_shift_fits(f.mant, d as nat);
        }
        (f.mant as u128) * p <= (g.mant as u128)
    }
}

/// A count times a small power of two fits in twice the width.
proof fn lemma_shift_fits(m: u64, d: nat)
    requires
        d < 64,
    ensures
        0 <= m * pow2(d) <= u128::MAX,
{
    lemma2_to64_rest();
    if d < 63 {
        lemma_pow2_strictly_increases(d, 63);
    }
    let p = pow2(d);
    assert(0 <= m * p <= 0xffff_ffff_ffff_ffff * 0x8000_0000_0000_0000) by (nonlinear_arith)
        requires
            0 <= m <= 0xffff_ffff_ffff_ffff,
            0 <= p <= 0x8000_0000_0000_0000,
    ;
}

/// A positive count times a large power of two is more than any count.
proof fn lemma_far_is_more(m: u64, n: u64, d: nat)
    requires
        d >= 64,
    ensures
        n > 0 ==> m < n * pow2(d),
        n == 0 ==> n * pow2(d) == 0,
{
    lemma2_to64_rest();
    if d > 64 {
        lemma_pow2_strictly_increases(64, d);
    }
    let p = pow2(d);
    assert(n > 0 ==> n * p >= p) by (nonlinear_arith)
        requires
            p >= 0,
    ;
    assert(n == 0 ==> n * p == 0) by (nonlinear_arith);
}

/// Numbers compare as they do at any power of two that is fine enough for both.
proof fn lemma_at_power(f: FloatView, g: FloatView, e: int)
    requires
        e >= f.exp,
        e >= g.exp,
    ensures
        is_at_most(f, g) <==> f.mant * pow2((e - f.exp) as nat) <= g.mant * pow2(
            (e - g.exp) as nat,
        ),
{
    let (m, k) = (f.mant, g.mant);
    if f.exp >= g.exp {
        let s = pow2((f.exp - g.exp) as nat);
        let q = pow2((e - f.exp) as nat);
        lemma_pow2_adds((f.exp - g.exp) as nat, (e - f.exp) as nat);
        lemma_pow2_pos((e - f.exp) as nat);
        assert((m <= k * s) == (m * q <= k * (s * q))) by (nonlinear_arith)
            requires
                q > 0,
        ;
    } else {
        let s = pow2((g.exp - f.exp) as nat);
        let q = pow2((e - g.exp) as nat);
        lemma_pow2_adds((g.exp - f.exp) as nat, (e - g.exp) as nat);
        lemma_pow2_pos((e - g.exp) as nat);
        assert((m * s <= k) == (m * (s * q) <= k * q)) by (nonlinear_arith)
            requires
                q > 0,
        ;
    }
}

/// The order of numbers is total, and runs through.
pub proof fn law_numbers_are_ordered(f: FloatView, g: FloatView, h: FloatView)
    ensures
        is_at_most(f, g) || is_at_most(g, f),
        is_at_most(f, g) && is_at_most(g, h) ==> is_at_most(f, h),
{
    let e = if f.exp >= g.exp && f.exp >= h.exp {
        f.exp
    } else if g.exp >= h.exp {
        g.exp
    } else {
        h.exp
    };
    lemma_at_power(f, g, e);
    lemma_at_power(g, f, e);
    lemma_at_power(g, h, e);
    lemma_at_power(f, h, e);
}

/// Numbers compare as their fractions do.
proof fn lemma_fractions_compare(f: FloatView, g: FloatView)
    requires
        is_at_most(f, g),
    ensures
        fraction_of(f).0 * fraction_of(g).1 <= fraction_of(g).0 * fraction_of(f).1,
{
    lemma2_to64();
    let (m, k) = (f.mant, g.mant);
    let e = if f.exp >= g.exp {
        f.exp
    } else {
        g.exp
    };
    let top = if e > 0 {
        e
    } else {
        0
    };
    lemma_at_power(f, g, top);
    let p = pow2((top - f.exp) as nat);
    let q = pow2((top - g.exp) as nat);
    assert(m * p <= k * q);
    if f.exp > 0 {
        lemma_pow2_adds((top - f.exp) as nat, f.exp as nat);
    } else {
        lemma_pow2_adds(top as nat, (-f.exp) as nat);
    }
    if g.exp > 0 {
        lemma_pow2_adds((top - g.exp) as nat, g.exp as nat);
    } else {
        lemma_pow2_adds(top as nat, (-g.exp) as nat);
    }
    let (n1, d1) = fraction_of(f);
    let (n2, d2) = fraction_of(g);
    let t = pow2(top as nat);
    lemma_pow2_pos(top as nat);
    assert(n1 * t == m * p * d1) by (nonlinear_arith)
        requires
            f.exp > 0 ==> n1 == m && d1 == 1 * pow2(f.exp as nat) && t == p * pow2(f.exp as nat),
            f.exp <= 0 ==> d1 == 1 && n1 == m * pow2((-f.exp) as nat) && p == t * pow2(
                (-f.exp) as nat,
            ),
    ;
    assert(n2 * t == k * q * d2) by (nonlinear_arith)
        requires
            g.exp > 0 ==> n2 == k && d2 == 1 * pow2(g.exp as nat) && t == q * pow2(g.exp as nat),
            g.exp <= 0 ==> d2 == 1 && n2 == k * pow2((-g.exp) as nat) && q == t * pow2(
                (-g.exp) as nat,
            ),
    ;
    assert(n1 * d2 <= n2 * d1) by (nonlinear_arith)
        requires
            t > 0,
            m * p <= k * q,
            n1 * t == m * p * d1,
            n2 * t == k * q * d2,
            d1 >= 0,
            d2 >= 0,
    {
        assert((m * p) * (d1 * d2) <= (k * q) * (d1 * d2));
        assert((n1 * d2) * t == (m * p * d1) * d2);
        assert((n2 * d1) * t == (k * q * d2) * d1);
        assert((n1 * d2) * t <= (n2 * d1) * t);
    }
}

/// Rounding keeps the order of fractions.
pub proof fn lemma_float_grows(num1: nat, num2: nat, den: nat, bits: nat)
    requires
        num1 <= num2,
        den > 0,
        bits > 0,
    ensures
        is_at_most(float_of(num1, den, bits), float_of(num2, den, bits)),
{
    lemma2_to64();
    let f = float_of(num1, den, bits);
    let g = float_of(num2, den, bits);
    if num1 == 0 {
        assert(f.mant == 0);
        let s = pow2((g.exp - f.exp) as nat);
        assert(0 * s == 0);
    } else {
        lemma_exponent(num1, den, bits);
        lemma_exponent(num2, den, bits);
        let (n1, d1) = scaled(num1, den, f.exp);
        let (n2, d2) = scaled(num2, den, g.exp);
        lemma_scaled_positive(num1, den, f.exp);
        lemma_scaled_positive(num2, den, g.exp);
        lemma_pow2_unfold(bits);
        let h = pow2((bits - 1) as nat);
        if f.exp == g.exp {
            assert(d1 == d2);
            assert(n1 <= n2) by {
                if f.exp >= 0 {
                    let p = pow2(f.exp as nat);
                    assert(num1 * p <= num2 * p) by (nonlinear_arith)
                        requires
                            num1 <= num2,
                            p >= 0,
                    ;
                }
            }
            assert(n1 * d2 <= n2 * d1) by (nonlinear_arith)
                requires
                    n1 <= n2,
                    d1 == d2,
                    d1 >= 0,
            ;
            lemma_rounded_grows(n1, d1, n2, d2);
            assert(pow2(0) == 1);
            assert(g.mant * 1 == g.mant);
        } else if f.exp < g.exp {
            let (m, c) = scaled(num2, den, f.exp);
            assert(c == d1 && m >= n1) by {
                if f.exp >= 0 {
                    let p = pow2(f.exp as nat);
                    assert(num1 * p <= num2 * p) by (nonlinear_arith)
                        requires
                            num1 <= num2,
                            p >= 0,
                    ;
                }
            }
            lemma_scaled_grows(num2, den, f.exp, g.exp);
            assert(n2 >= (2 * h) * d2) by (nonlinear_arith)
                requires
                    n2 * c >= 2 * m * d2,
                    m >= h * c,
                    c > 0,
                    d2 >= 0,
                    n2 >= 0,
            {
                assert(2 * m * d2 >= 2 * (h * c) * d2);
                assert(2 * (h * c) * d2 == ((2 * h) * d2) * c);
            }
            assert(false);
        } else {
            lemma_rounded_at_most(n1, d1, pow2(bits));
            lemma_rounded_at_least(n2, d2, h);
            let s = pow2((f.exp - g.exp) as nat);
            lemma_pow2_unfold((f.exp - g.exp) as nat);
            lemma_pow2_pos((f.exp - g.exp - 1) as nat);
            assert(f.mant <= g.mant * s) by (nonlinear_arith)
                requires
                    f.mant <= 2 * h,
                    g.mant >= h,
                    s >= 2,
                    h >= 0,
            ;
        }
    }
}

/// A count of more bits than the format has is scaled down, and stays that large.
proof fn lemma_nearest_is_large(n: nat, bits: nat)
    requires
        bits > 0,
        n >= pow2(bits),
    ensures
        float_of(n, 1, bits).exp < 0,
        nearest(n, bits) >= pow2(bits),
{
    let f = float_of(n, 1, bits);
    lemma_pow2_pos(bits);
    lemma_pow2_unfold(bits);
    lemma_exponent(n, 1, bits);
    let (a, d) = scaled(n, 1, f.exp);
    lemma_scaled_positive(n, 1, f.exp);
    let h = pow2((bits - 1) as nat);
    if f.exp >= 0 {
        let p = pow2(f.exp as nat);
        lemma_pow2_pos(f.exp as nat);
        assert(n * p >= n) by (nonlinear_arith)
            requires
                p >= 1,
                n >= 0,
        ;
        assert(false);
    }
    lemma_rounded_at_least(a, d, h);
    let p = pow2((-f.exp) as nat);
    lemma_pow2_unfold((-f.exp) as nat);
    lemma_pow2_pos((-f.exp - 1) as nat);
    assert(f.mant * p >= 2 * h) by (nonlinear_arith)
        requires
            f.mant >= h,
            p >= 2,
            h >= 0,
    ;
}

/// Counts keep their order as floating-point numbers.
pub proof fn lemma_nearest_grows(a: nat, b: nat, bits: nat)
    requires
        a <= b,
        bits > 0,
    ensures
        nearest(a, bits) <= nearest(b, bits),
        a > 0 ==> nearest(a, bits) > 0,
{
    lemma_pow2_pos(bits);
    if a >= pow2(bits) {
        lemma_nearest_is_large(a, bits);
    }
    if b >= pow2(bits) {
        lemma_nearest_is_large(b, bits);
        if a >= pow2(bits) {
            lemma_float_grows(a, b, 1, bits);
            lemma_fractions_compare(float_of(a, 1, bits), float_of(b, 1, bits));
            let f = fraction_of(float_of(a, 1, bits));
            let g = fraction_of(float_of(b, 1, bits));
            assert(f.1 == 1 && g.1 == 1);
            assert(f.0 * 1 == f.0 && g.0 * 1 == g.0);
        }
    }
}

/// The rest that a larger quotient leaves is not larger, and no rest is more than one.
pub proof fn lemma_rest_falls(f: FloatView, g: FloatView)
    requires
        is_at_most(f, g),
    ensures
        rest_of(g) <= rest_of(f) <= SINGLE_PARTS,
{
    lemma_fractions_compare(f, g);
    let (n1, d1) = fraction_of(f);
    let (n2, d2) = fraction_of(g);
    lemma_scaled_positive(f.mant, 1, -f.exp);
    lemma_scaled_positive(g.mant, 1, -g.exp);
    let one = SINGLE_PARTS as nat;
    if n1 < d1 {
        let left = (d1 - n1) as nat * one;
        assert(left <= one * d1) by (nonlinear_arith)
            requires
                left == (d1 - n1) * one,
                n1 >= 0,
                one >= 0,
        ;
        lemma_rounded_at_most(left, d1, one);
    }
    if n2 < d2 {
        assert(n1 < d1) by (nonlinear_arith)
            requires
                n1 * d2 <= n2 * d1,
                n2 < d2,
                d1 > 0,
                d2 > 0,
        {
            if n1 >= d1 {
                assert(n1 * d2 >= d1 * d2);
                assert(n2 * d1 < d2 * d1);
            }
        }
        let x = (d2 - n2) as nat;
        let y = (d1 - n1) as nat;
        assert((x * one) * d1 <= (y * one) * d2) by (nonlinear_arith)
            requires
                x == d2 - n2,
                y == d1 - n1,
                n1 * d2 <= n2 * d1,
                one >= 0,
        {
            assert(x * d1 <= y * d2);
        }
        lemma_rounded_grows(x * one, d2, y * one, d1);
    }
}

/// More of a whole never gives the smaller quotient.
pub proof fn law_quotient_grows(a: nat, b: nat, den: nat, bits: nat)
    requires
        a <= b,
        den > 0,
        bits > 0,
    ensures
        is_at_most(quotient_of(a, den, bits), quotient_of(b, den, bits)),
{
    lemma_nearest_grows(a, b, bits);
    lemma_nearest_grows(den, den, bits);
    lemma_float_grows(nearest(a, bits), nearest(b, bits), nearest(den, bits), bits);
}

/// A quotient of nothing leaves all of one, and a quotient of one or more leaves nothing.
pub proof fn lemma_rest_at_its_ends(num: nat, den: nat)
    requires
        den > 0,
    ensures
        num == 0 ==> rest_of(quotient_of(num, den, SINGLE as nat)) == SINGLE_PARTS,
        num >= den ==> rest_of(quotient_of(num, den, SINGLE as nat)) == 0,
{
    lemma2_to64();
    let bits = SINGLE as nat;
    assert(pow2(0) == 1);
    if num == 0 {
        let f = quotient_of(num, den, bits);
        assert(f == (FloatView { mant: 0, exp: 0 }));
        assert(fraction_of(f) == (0nat * pow2(0), 1nat));
        assert(0nat * pow2(0) == 0) by (nonlinear_arith);
        lemma_rounded_at_least(SINGLE_PARTS as nat, 1, SINGLE_PARTS as nat);
        lemma_rounded_at_most(SINGLE_PARTS as nat, 1, SINGLE_PARTS as nat);
    }
    if num >= den {
        lemma_nearest_grows(den, den, bits);
        let m = nearest(den, bits);
        let h = pow2(23);
        assert(pow2(24) == 2 * h);
        assert(has_bits(m, m, bits, 23)) by {
            assert(h * m <= m * h && m * h < (2 * h) * m) by (nonlinear_arith)
                requires
                    m > 0,
                    h > 0,
            ;
        }
        lemma_exponent(m, m, bits);
        lemma_exponent_is_one(m, m, bits, exponent_of(m, m, bits), 23);
        let g = quotient_of(den, den, bits);
        assert(m * h == h * m) by (nonlinear_arith);
        lemma_rounded_at_least(m * h, m, h);
        lemma_rounded_at_most(m * h, m, h);
        assert(g == (FloatView { mant: h, exp: 23 }));
        assert(fraction_of(g) == (h, 1 * h));
        law_quotient_grows(den, num, den, bits);
        lemma_rest_falls(g, quotient_of(num, den, bits));
    }
}

} // verus!
