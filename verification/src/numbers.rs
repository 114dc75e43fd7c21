//! Numbers in decimal and hexadecimal notation.

use crate::text::Text;
use vstd::prelude::*;

verus! {

/// The digit for `d`, which is below sixteen.
pub open spec fn digit_of(d: nat) -> char {
    if d < 10 {
        (48 + d) as char
    } else {
        (87 + d) as char
    }
}

/// `n` in decimal notation.
pub open spec fn decimal_of(n: nat) -> Text
    decreases n,
{
    if n < 10 {
        seq![digit_of(n)]
    } else {
        decimal_of(n / 10).push(digit_of(n % 10))
    }
}

/// `n` in hexadecimal notation with small letters.
pub open spec fn hex_of(n: nat) -> Text
    decreases n,
{
    if n < 16 {
        seq![digit_of(n)]
    } else {
        hex_of(n / 16).push(digit_of(n % 16))
    }
}

/// `n` in decimal notation, with a minus sign before it where it is negative.
pub open spec fn signed_decimal_of(n: int) -> Text {
    if n < 0 {
        seq!['-'] + decimal_of((-n) as nat)
    } else {
        decimal_of(n as nat)
    }
}

/// `s` preceded by as many zeros as bring it to `width` characters.
pub open spec fn zero_fill(s: Text, width: int) -> Text
    decreases width - s.len(),
{
    if s.len() < width {
        zero_fill(seq!['0'] + s, width)
    } else {
        s
    }
}

/// `n` in decimal notation, with zeros behind the sign to reach `width` characters.
pub open spec fn filled_decimal_of(n: int, width: int) -> Text {
    if n < 0 {
        seq!['-'] + zero_fill(decimal_of((-n) as nat), width - 1)
    } else {
        zero_fill(decimal_of(n as nat), width)
    }
}

/// The digit for `d`.
fn digit(d: u64) -> (c: char)
    requires
        d < 16,
    ensures
        c == digit_of(d as nat),
{
    if d < 10 {
        (48 + d) as u8 as char
    } else {
        (87 + d) as u8 as char
    }
}

/// `n` in decimal notation.
pub fn decimal(n: u64) -> (s: String)
    ensures
        s@ == decimal_of(n as nat),
    decreases n,
{
    let mut s = if n < 10 {
        String::new()
    } else {
        decimal(n / 10)
    };
    s.push(digit(n % 10));
    s
}

/// `n` in hexadecimal notation with small letters.
pub fn hex(n: u64) -> (s: String)
    ensures
        s@ == hex_of(n as nat),
    decreases n,
{
    let mut s = if n < 16 {
        String::new()
    } else {
        hex(n / 16)
    };
    s.push(digit(n % 16));
    s
}

/// `n` in decimal digits.
pub fn decimal_wide(n: u128) -> (s: String)
    ensures
        s@ == decimal_of(n as nat),
    decreases n,
{
    if n <= 0xffff_ffff_ffff_ffff {
        return decimal(n as u64);
    }
    let mut s = decimal_wide(n / 10);
    s.append(decimal((n % 10) as u64).as_str());
    assert(decimal_of((n % 10) as nat) == seq![digit_of((n % 10) as nat)]);
    s
}

/// `n` in decimal notation.
pub fn count_text(n: usize) -> (s: String)
    ensures
        s@ == decimal_of(n as nat),
{
    decimal(n as u64)
}

/// The distance of `n` from zero.
fn magnitude(n: i64) -> (m: u64)
    ensures
        m == if n < 0 {
            -n
        } else {
            n as int
        },
{
    if n < 0 {
        (-(n + 1)) as u64 + 1
    } else {
        n as u64
    }
}

/// `n` in decimal notation, with a minus sign before it where it is negative.
pub fn signed_decimal(n: i64) -> (s: String)
    ensures
        s@ == signed_decimal_of(n as int),
{
    let digits = decimal(magnitude(n));
    if n < 0 {
        let mut s = String::new();
        s.push('-');
        s.append(digits.as_str());
        s
    } else {
        digits
    }
}

/// `s` preceded by as many zeros as bring it to `width` characters.
pub fn fill_zeros(s: &str, width: usize) -> (r: String)
    ensures
        r@ == zero_fill(s@, width as int),
{
    let mut out = s.to_owned();
    let mut n = crate::text::chars_of(s).len();
    while n < width
        invariant
            n == out@.len(),
            zero_fill(s@, width as int) == zero_fill(out@, width as int),
        decreases width - n,
    {
        let mut longer = String::new();
        longer.push('0');
        longer.append(out.as_str());
        out = longer;
        n = n + 1;
    }
    out
}

/// `n` in decimal notation, with zeros behind the sign to reach `width` characters.
pub fn filled_decimal(n: i64, width: usize) -> (s: String)
    requires
        width > 0,
    ensures
        s@ == filled_decimal_of(n as int, width as int),
{
    let digits = decimal(magnitude(n));
    if n < 0 {
        let mut s = String::new();
        s.push('-');
        s.append(fill_zeros(digits.as_str(), width - 1).as_str());
        s
    } else {
        fill_zeros(digits.as_str(), width)
    }
}

/// `num / den` rounded to the nearest whole number, a half to the even one.
pub open spec fn rounded(num: nat, den: nat) -> nat {
    let whole = num / den;
    let rest = num % den;
    if 2 * rest > den || (2 * rest == den && whole % 2 == 1) {
        whole + 1
    } else {
        whole
    }
}

/// `num / den` rounded to the nearest whole number, a half to the even one.
pub fn round(num: u128, den: u128) -> (r: u128)
    requires
        0 < den <= 0x7fff_ffff_ffff_ffff_ffff_ffff_ffff_ffff,
    ensures
        r == rounded(num as nat, den as nat),
        r <= num,
{
    let whole = num / den;
    let rest = num % den;
    proof {
        assert(num / den <= num && (num > 0 && den > 1 ==> num / den < num)) by (nonlinear_arith)
            requires
                den > 0,
                num >= 0,
        ;
        assert(den == 1 ==> num % den == 0) by (nonlinear_arith);
        assert(num % den < den) by (nonlinear_arith)
            requires
                den > 0,
                num >= 0,
        ;
        if num == 0 {
            assert(num % den == 0) by (nonlinear_arith)
                requires
                    num == 0,
                    den > 0,
            ;
        }
    }
    if 2 * rest > den || (2 * rest == den && whole % 2 == 1) {
        whole + 1
    } else {
        whole
    }
}

/// The number that decimal digits stand for.
pub open spec fn value_of(digits: Text) -> nat
    decreases digits.len(),
{
    if digits.len() == 0 {
        0
    } else {
        value_of(digits.drop_last()) * 10 + (digits.last() as nat - '0' as nat) as nat
    }
}

/// A number in decimal notation stands for itself, is made of digits alone, and begins with a zero
/// only where it is zero.
pub proof fn law_decimal_stands_for_its_number(n: nat)
    ensures
        value_of(decimal_of(n)) == n,
        decimal_of(n).len() > 0,
        forall|i: int| 0 <= i < decimal_of(n).len() ==> '0' <= #[trigger] decimal_of(n)[i] <= '9',
        n > 0 ==> decimal_of(n)[0] != '0',
    decreases n,
{
    let d = decimal_of(n);
    if n < 10 {
        assert(d.drop_last() =~= Seq::<char>::empty());
        assert(value_of(d.drop_last()) == 0);
    } else {
        law_decimal_stands_for_its_number(n / 10);
        assert(d.drop_last() =~= decimal_of(n / 10));
        assert(d[0] == decimal_of(n / 10)[0]);
    }
}

/// Two numbers that read the same are the same.
pub proof fn law_decimals_tell_numbers_apart(a: int, b: int)
    requires
        signed_decimal_of(a) == signed_decimal_of(b),
    ensures
        a == b,
{
    let x = if a < 0 {
        -a
    } else {
        a
    } as nat;
    let y = if b < 0 {
        -b
    } else {
        b
    } as nat;
    law_decimal_stands_for_its_number(x);
    law_decimal_stands_for_its_number(y);
    let s = signed_decimal_of(a);
    let t = signed_decimal_of(b);
    assert(decimal_of(x)[0] != '-');
    assert(decimal_of(y)[0] != '-');
    if a < 0 {
        assert(s[0] == '-');
        assert(s.skip(1) =~= decimal_of(x));
    } else {
        assert(s[0] != '-');
    }
    if b < 0 {
        assert(t[0] == '-');
        assert(t.skip(1) =~= decimal_of(y));
    } else {
        assert(t[0] != '-');
    }
}

/// Filling puts zeros in front, as many as are missing, and changes nothing else.
pub proof fn law_filling_puts_zeros_in_front(s: Text, width: int)
    ensures
        s.is_suffix_of(zero_fill(s, width)),
        zero_fill(s, width).len() == if s.len() < width {
            width
        } else {
            s.len() as int
        },
        forall|i: int|
            0 <= i < zero_fill(s, width).len() - s.len() ==> #[trigger] zero_fill(s, width)[i] == '0',
    decreases width - s.len(),
{
    let r = zero_fill(s, width);
    if s.len() < width {
        let more = seq!['0'] + s;
        law_filling_puts_zeros_in_front(more, width);
        assert(r.subrange(r.len() - more.len(), r.len() as int) == more);
        assert(r.subrange(r.len() - s.len(), r.len() as int) =~= more.skip(1));
        assert(more.skip(1) =~= s);
        let at = r.len() - more.len();
        assert(r[at] == more[0]) by {
            assert(r.subrange(at, r.len() as int)[0] == r[at]);
        }
    } else {
        assert(s.subrange(0, s.len() as int) =~= s);
    }
}

/// Rounding goes to the nearest whole number: no other is nearer, and of two that are as near the
/// even one is taken.
pub proof fn law_rounding_goes_to_the_nearest(num: nat, den: nat)
    requires
        den > 0,
    ensures
        2 * (rounded(num, den) * den) <= 2 * num + den,
        2 * num <= 2 * (rounded(num, den) * den) + den,
        2 * (rounded(num, den) * den) == 2 * num + den ==> rounded(num, den) % 2 == 0,
        2 * num == 2 * (rounded(num, den) * den) + den ==> rounded(num, den) % 2 == 0,
{
    let whole = num / den;
    let rest = num % den;
    vstd::arithmetic::div_mod::lemma_fundamental_div_mod(num as int, den as int);
    assert(num == whole * den + rest) by (nonlinear_arith)
        requires
            num == den * whole + rest,
    ;
    assert((whole + 1) * den == whole * den + den) by (nonlinear_arith);
    assert(rest < den);
}

} // verus!
