use vstd::prelude::*;
use crate::text::push_char;

verus! {

/// How many units make one whole: numbers are held exactly, to six decimal places.
pub const SCALE: i64 = 1000000;

/// Digits kept after the decimal point.
pub const FRACTION_DIGITS: u64 = 6;

/// A number of the language, held exactly as a whole count of millionths.
#[derive(Clone, Copy, Debug, PartialEq, Eq, Structural)]
pub struct Number {
    pub units: i64,
}

pub open spec fn abs(x: int) -> int {
    if x < 0 {
        -x
    } else {
        x
    }
}

/// Division that truncates toward zero.
pub open spec fn trunc_div(x: int, y: int) -> int
    recommends
        y != 0,
{
    if (x >= 0) == (y > 0) {
        abs(x) / abs(y)
    } else {
        -(abs(x) / abs(y))
    }
}

pub open spec fn fits(v: int) -> bool {
    i64::MIN <= v <= i64::MAX
}

/// The number held by `units`, when it fits.
pub open spec fn number_of(v: int) -> Option<Number> {
    if fits(v) {
        Some(Number { units: v as i64 })
    } else {
        None
    }
}

pub open spec fn sum_units(a: Number, b: Number) -> int {
    a.units + b.units
}

pub open spec fn difference_units(a: Number, b: Number) -> int {
    a.units - b.units
}

pub open spec fn product_units(a: Number, b: Number) -> int {
    trunc_div(a.units * b.units, SCALE as int)
}

pub open spec fn quotient_units(a: Number, b: Number) -> int
    recommends
        b.units != 0,
{
    trunc_div(a.units * SCALE as int, b.units as int)
}

pub open spec fn digit_char(d: int) -> char {
    if d == 0 {
        '0'
    } else if d == 1 {
        '1'
    } else if d == 2 {
        '2'
    } else if d == 3 {
        '3'
    } else if d == 4 {
        '4'
    } else if d == 5 {
        '5'
    } else if d == 6 {
        '6'
    } else if d == 7 {
        '7'
    } else if d == 8 {
        '8'
    } else {
        '9'
    }
}

/// Decimal digits of a natural number, most significant first, no leading zeros.
pub open spec fn nat_digits(n: nat) -> Seq<char>
    decreases n,
{
    if n < 10 {
        seq![digit_char(n as int)]
    } else {
        nat_digits(n / 10).push(digit_char((n % 10) as int))
    }
}

/// The last `k` decimal digits of `f`, leading zeros included.
pub open spec fn fixed_digits(f: nat, k: nat) -> Seq<char>
    decreases k,
{
    if k == 0 {
        Seq::empty()
    } else {
        fixed_digits(f / 10, (k - 1) as nat).push(digit_char((f % 10) as int))
    }
}

/// A fraction of `k` digits with its trailing zeros dropped.
pub open spec fn trimmed(f: nat, k: nat) -> (nat, nat)
    decreases k,
{
    if k > 0 && f % 10 == 0 {
        trimmed(f / 10, (k - 1) as nat)
    } else {
        (f, k)
    }
}

pub open spec fn fraction_text(f: nat) -> Seq<char> {
    if f == 0 {
        Seq::empty()
    } else {
        seq!['.'] + fixed_digits(trimmed(f, FRACTION_DIGITS as nat).0, trimmed(f, FRACTION_DIGITS as nat).1)
    }
}

/// The display form of a number: its sign, its whole part, and its fraction
/// without trailing zeros (no decimal point at all for a whole number).
pub open spec fn number_text(units: int) -> Seq<char> {
    (if units < 0 {
        seq!['-']
    } else {
        Seq::empty()
    }) + nat_digits((abs(units) / SCALE as int) as nat) + fraction_text((abs(units) % SCALE as int) as nat)
}

fn digit_char_exec(d: u64) -> (c: char)
    requires
        d < 10,
    ensures
        c == digit_char(d as int),
{
    if d == 0 {
        '0'
    } else if d == 1 {
        '1'
    } else if d == 2 {
        '2'
    } else if d == 3 {
        '3'
    } else if d == 4 {
        '4'
    } else if d == 5 {
        '5'
    } else if d == 6 {
        '6'
    } else if d == 7 {
        '7'
    } else if d == 8 {
        '8'
    } else {
        '9'
    }
}

fn push_nat_digits(n: u64, out: &mut String)
    ensures
        final(out)@ == old(out)@ + nat_digits(n as nat),
    decreases n,
{
    if n >= 10 {
        push_nat_digits(n / 10, out);
    }
    let c = digit_char_exec(n % 10);
    push_char(out, c);
}

fn push_fixed_digits(f: u64, k: u64, out: &mut String)
    ensures
        final(out)@ == old(out)@ + fixed_digits(f as nat, k as nat),
    decreases k,
{
    if k > 0 {
        push_fixed_digits(f / 10, k - 1, out);
        let c = digit_char_exec(f % 10);
        push_char(out, c);
    } else {
        assert(old(out)@ + Seq::<char>::empty() == old(out)@);
    }
}

/// Truncating division on wide integers, away from the edge of the range.
fn div_toward_zero(x: i128, y: i128) -> (r: i128)
    requires
        y != 0,
        x > i128::MIN,
        y > i128::MIN,
    ensures
        r == trunc_div(x as int, y as int),
{
    let ax: u128 = if x < 0 {
        (-x) as u128
    } else {
        x as u128
    };
    let ay: u128 = if y < 0 {
        (-y) as u128
    } else {
        y as u128
    };
    let q: u128 = ax / ay;
    assert(q <= ax) by (nonlinear_arith)
        requires
            q == ax / ay,
            ay >= 1,
    ;
    if (x >= 0) == (y > 0) {
        q as i128
    } else {
        -(q as i128)
    }
}

impl Number {
    pub fn from_units(units: i64) -> (r: Number)
        ensures
            r.units == units,
    {
        Number { units }
    }

    pub fn is_zero(&self) -> (r: bool)
        ensures
            r == (self.units == 0),
    {
        self.units == 0
    }

    pub fn add(self, other: Number) -> (r: Option<Number>)
        ensures
            r == number_of(sum_units(self, other)),
    {
        let wide: i128 = self.units as i128 + other.units as i128;
        if wide < i64::MIN as i128 || wide > i64::MAX as i128 {
            None
        } else {
            Some(Number { units: wide as i64 })
        }
    }

    pub fn subtract(self, other: Number) -> (r: Option<Number>)
        ensures
            r == number_of(difference_units(self, other)),
    {
        let wide: i128 = self.units as i128 - other.units as i128;
        if wide < i64::MIN as i128 || wide > i64::MAX as i128 {
            None
        } else {
            Some(Number { units: wide as i64 })
        }
    }

    pub fn multiply(self, other: Number) -> (r: Option<Number>)
        ensures
            r == number_of(product_units(self, other)),
    {
        let a: i128 = self.units as i128;
        let b: i128 = other.units as i128;
        assert(a * b <= 0x4000_0000_0000_0000_0000_0000_0000_0000int) by (nonlinear_arith)
            requires
                -0x8000_0000_0000_0000int <= a <= 0x7fff_ffff_ffff_ffffint,
                -0x8000_0000_0000_0000int <= b <= 0x7fff_ffff_ffff_ffffint,
        ;
        assert(a * b >= -0x4000_0000_0000_0000_0000_0000_0000_0000int) by (nonlinear_arith)
            requires
                -0x8000_0000_0000_0000int <= a <= 0x7fff_ffff_ffff_ffffint,
                -0x8000_0000_0000_0000int <= b <= 0x7fff_ffff_ffff_ffffint,
        ;
        let wide = div_toward_zero(a * b, SCALE as i128);
        if wide < i64::MIN as i128 || wide > i64::MAX as i128 {
            None
        } else {
            Some(Number { units: wide as i64 })
        }
    }

    /// The quotient; the divisor must not be zero.
    pub fn divide(self, other: Number) -> (r: Option<Number>)
        requires
            other.units != 0,
        ensures
            r == number_of(quotient_units(self, other)),
    {
        let a: i128 = (self.units as i128) * (SCALE as i128);
        let wide = div_toward_zero(a, other.units as i128);
        if wide < i64::MIN as i128 || wide > i64::MAX as i128 {
            None
        } else {
            Some(Number { units: wide as i64 })
        }
    }

    pub fn negate(self) -> (r: Option<Number>)
        ensures
            r == number_of(-self.units),
    {
        if self.units == i64::MIN {
            None
        } else {
            Some(Number { units: -self.units })
        }
    }

    pub fn less(self, other: Number) -> (r: bool)
        ensures
            r == (self.units < other.units),
    {
        self.units < other.units
    }

    /// The display form: no decimal point for a whole number, no trailing zeros otherwise.
    pub fn to_text(&self) -> (r: String)
        ensures
            r@ == number_text(self.units as int),
    {
        let mut out = String::new();
        let magnitude: u64 = if self.units < 0 {
            push_char(&mut out, '-');
            (-(self.units as i128)) as u64
        } else {
            self.units as u64
        };
        let whole = magnitude / (SCALE as u64);
        let mut f = magnitude % (SCALE as u64);
        push_nat_digits(whole, &mut out);
        if f != 0 {
            let ghost f0 = f as nat;
            push_char(&mut out, '.');
            let mut k: u64 = FRACTION_DIGITS;
            while k > 0 && f % 10 == 0
                invariant
                    trimmed(f as nat, k as nat) == trimmed(f0, FRACTION_DIGITS as nat),
                decreases k,
            {
                f = f / 10;
                k = k - 1;
            }
            push_fixed_digits(f, k, &mut out);
        }
        proof {
            let pre: Seq<char> = if self.units < 0 { seq!['-'] } else { Seq::empty() };
            assert(abs(self.units as int) == magnitude as int);
            assert(pre + nat_digits(whole as nat) + fraction_text((magnitude % (SCALE as u64)) as nat)
                == number_text(self.units as int));
        }
        out
    }
}

} // verus!
