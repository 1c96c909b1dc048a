//! Decimal digits and fixed-point numbers.
//!
//! Every length, position and rate in this crate is an `i64` counting
//! millionths of a unit, which is exactly the six decimal places that the
//! firmware prints and accepts. This module reads and writes such numbers as
//! ASCII text.

use vstd::prelude::*;

verus! {

/// Number of fixed-point steps in one unit.
pub const SCALE: i64 = 1_000_000;

/// Ten to the power `n`.
pub open spec fn pow10(n: nat) -> nat
    decreases n,
{
    if n == 0 {
        1
    } else {
        10 * pow10((n - 1) as nat)
    }
}

/// Whether `b` is an ASCII decimal digit.
pub open spec fn is_digit(b: u8) -> bool {
    0x30 <= b <= 0x39
}

/// The digit that the ASCII byte `b` writes.
pub open spec fn digit_of(b: u8) -> nat {
    (b - 0x30) as nat
}

/// The ASCII byte that writes the digit `d`.
pub open spec fn digit_byte(d: nat) -> u8 {
    (0x30 + d) as u8
}

/// The number that a string of decimal digits writes, most significant
/// digit first. The empty string writes zero.
pub open spec fn digits_value(s: Seq<u8>) -> nat
    decreases s.len(),
{
    if s.len() == 0 {
        0
    } else {
        digits_value(s.drop_last()) * 10 + digit_of(s.last())
    }
}

/// The position just past the longest run of digits that starts at `i`.
pub open spec fn digits_end(s: Seq<u8>, i: int) -> int
    decreases s.len() - i,
{
    if 0 <= i < s.len() && is_digit(s[i]) {
        digits_end(s, i + 1)
    } else {
        i
    }
}

/// A decimal number as it was written: a sign, the digits before the point
/// read as one integer, and the digits after the point read as another.
#[derive(Clone, Copy, Debug, PartialEq, Eq, Structural)]
pub struct Number {
    /// Whether a minus sign came first.
    pub negative: bool,
    /// The digits before the decimal point.
    pub major: u32,
    /// The digits after the decimal point, read as an integer of their own;
    /// zero when there were none.
    pub minor: u32,
    /// How many digits stood after the decimal point.
    pub frac_digits: usize,
}

impl Number {
    /// The absolute value in millionths, with anything below one millionth
    /// cut off.
    pub open spec fn magnitude(self) -> int {
        self.major * SCALE + (self.minor * SCALE) / (pow10(self.frac_digits as nat) as int)
    }

    /// The value in millionths.
    pub open spec fn fixed(self) -> int {
        if self.negative {
            -self.magnitude()
        } else {
            self.magnitude()
        }
    }

    /// The value in millionths.
    pub fn to_fixed(&self) -> (v: i64)
        ensures
            v == self.fixed(),
    {
        let scaled: u64 = (self.minor as u64) * 1_000_000;
        let fraction: u64 = if self.frac_digits > 19 {
            proof {
                lemma_pow10_grows(20, self.frac_digits as nat);
                lemma_pow10_values();
                lemma_small_quotient(scaled as int, pow10(self.frac_digits as nat) as int);
            }
            0
        } else {
            let divisor: u64 = power_of_ten(self.frac_digits);
            proof {
                lemma_pow10_positive(self.frac_digits as nat);
            }
            scaled / divisor
        };
        assert(fraction <= scaled) by {
            lemma_pow10_positive(self.frac_digits as nat);
            lemma_quotient_bound(scaled as int, pow10(self.frac_digits as nat) as int);
        }
        let magnitude: u64 = (self.major as u64) * 1_000_000 + fraction;
        if self.negative {
            -(magnitude as i64)
        } else {
            magnitude as i64
        }
    }
}

/// The number written at position `i` of `s` and the position just past it,
/// or `None` where no number stands there.
///
/// A number is an optional sign, at least one digit, and optionally a point
/// followed by at least one digit. The digits on either side of the point
/// must each fit in 32 bits.
pub open spec fn number_at(s: Seq<u8>, i: int) -> Option<(Number, int)> {
    let signed = 0 <= i < s.len() && (s[i] == 0x2b || s[i] == 0x2d);
    let negative = signed && s[i] == 0x2d;
    let a = if signed {
        i + 1
    } else {
        i
    };
    let b = digits_end(s, a);
    let major = digits_value(s.subrange(a, b));
    let fraction = b + 1 < s.len() && s[b] == 0x2e && is_digit(s[b + 1]);
    let c = if fraction {
        digits_end(s, b + 1)
    } else {
        b
    };
    let minor = if fraction {
        digits_value(s.subrange(b + 1, c))
    } else {
        0
    };
    let frac_digits = if fraction {
        c - b - 1
    } else {
        0
    };
    if b == a || major > u32::MAX || minor > u32::MAX {
        None
    } else {
        Some(
            (
                Number {
                    negative,
                    major: major as u32,
                    minor: minor as u32,
                    frac_digits: frac_digits as usize,
                },
                c,
            ),
        )
    }
}

/// The unsigned integer written at position `i` of `s` and the position just
/// past it: at least one digit, with a value that fits in 32 bits.
pub open spec fn unsigned_at(s: Seq<u8>, i: int) -> Option<(u32, int)> {
    let b = digits_end(s, i);
    let value = digits_value(s.subrange(i, b));
    if b == i || value > u32::MAX {
        None
    } else {
        Some((value as u32, b))
    }
}

/// A run of digits ends between its start and the end of the text.
pub proof fn lemma_digits_end_bounds(s: Seq<u8>, i: int)
    requires
        0 <= i <= s.len(),
    ensures
        i <= digits_end(s, i) <= s.len(),
    decreases s.len() - i,
{
    if i < s.len() && is_digit(s[i]) {
        lemma_digits_end_bounds(s, i + 1);
    }
}

/// A number takes up at least one byte and ends within the text.
pub proof fn lemma_number_at_bounds(s: Seq<u8>, i: int)
    requires
        0 <= i <= s.len(),
    ensures
        number_at(s, i) matches Some((n, end)) ==> {
            &&& i < end <= s.len()
            &&& (s.len() <= usize::MAX && n.frac_digits == 0 ==> n.minor == 0)
        },
{
    let signed = 0 <= i < s.len() && (s[i] == 0x2b || s[i] == 0x2d);
    let a = if signed {
        i + 1
    } else {
        i
    };
    lemma_digits_end_bounds(s, a);
    let b = digits_end(s, a);
    if b + 1 < s.len() && is_digit(s[b + 1]) {
        lemma_digits_end_bounds(s, b + 2);
    }
}

/// Ten to the power `n` is at least one.
pub proof fn lemma_pow10_positive(n: nat)
    ensures
        pow10(n) >= 1,
    decreases n,
{
    if n > 0 {
        lemma_pow10_positive((n - 1) as nat);
    }
}

/// The powers of ten up to the sixth divide a million.
pub proof fn lemma_pow10_divides_scale(n: nat)
    requires
        n <= 6,
    ensures
        (1_000_000int / (pow10(n) as int)) * pow10(n) == 1_000_000,
{
    reveal_with_fuel(pow10, 8);
    let p = pow10(n) as int;
    assert(p == 1 || p == 10 || p == 100 || p == 1_000 || p == 10_000 || p == 100_000 || p
        == 1_000_000);
    assert((1_000_000int / p) * p == 1_000_000) by (nonlinear_arith)
        requires
            p == 1 || p == 10 || p == 100 || p == 1_000 || p == 10_000 || p == 100_000 || p
                == 1_000_000,
    ;
}

/// A larger power of ten is a larger number.
pub proof fn lemma_pow10_grows(a: nat, b: nat)
    requires
        a <= b,
    ensures
        pow10(a) <= pow10(b),
    decreases b,
{
    if a < b {
        lemma_pow10_grows(a, (b - 1) as nat);
    }
}

/// The powers of ten up to the twentieth.
pub proof fn lemma_pow10_values()
    ensures
        pow10(0) == 1,
        pow10(1) == 10,
        pow10(2) == 100,
        pow10(3) == 1_000,
        pow10(4) == 10_000,
        pow10(5) == 100_000,
        pow10(6) == 1_000_000,
        pow10(7) == 10_000_000,
        pow10(8) == 100_000_000,
        pow10(9) == 1_000_000_000,
        pow10(10) == 10_000_000_000,
        pow10(11) == 100_000_000_000,
        pow10(12) == 1_000_000_000_000,
        pow10(13) == 10_000_000_000_000,
        pow10(14) == 100_000_000_000_000,
        pow10(15) == 1_000_000_000_000_000,
        pow10(16) == 10_000_000_000_000_000,
        pow10(17) == 100_000_000_000_000_000,
        pow10(18) == 1_000_000_000_000_000_000,
        pow10(19) == 10_000_000_000_000_000_000,
        pow10(20) == 100_000_000_000_000_000_000,
{
    reveal_with_fuel(pow10, 22);
}

/// A number divided by a larger one is zero.
proof fn lemma_small_quotient(n: int, d: int)
    requires
        0 <= n < d,
    ensures
        n / d == 0,
{
    assert(n / d == 0) by (nonlinear_arith)
        requires
            0 <= n < d,
    ;
}

/// Dividing a number by one or more does not make it larger.
proof fn lemma_quotient_bound(n: int, d: int)
    requires
        0 <= n,
        1 <= d,
    ensures
        0 <= n / d <= n,
{
    assert(0 <= n / d <= n) by (nonlinear_arith)
        requires
            0 <= n,
            1 <= d,
    ;
}

/// Ten to the power `n`, for the powers that fit in 64 bits.
pub fn power_of_ten(n: usize) -> (r: u64)
    requires
        n <= 19,
    ensures
        r == pow10(n as nat),
{
    proof {
        lemma_pow10_values();
    }
    match n {
        0 => 1,
        1 => 10,
        2 => 100,
        3 => 1_000,
        4 => 10_000,
        5 => 100_000,
        6 => 1_000_000,
        7 => 10_000_000,
        8 => 100_000_000,
        9 => 1_000_000_000,
        10 => 10_000_000_000,
        11 => 100_000_000_000,
        12 => 1_000_000_000_000,
        13 => 10_000_000_000_000,
        14 => 100_000_000_000_000,
        15 => 1_000_000_000_000_000,
        16 => 10_000_000_000_000_000,
        17 => 100_000_000_000_000_000,
        18 => 1_000_000_000_000_000_000,
        _ => 10_000_000_000_000_000_000,
    }
}

/// Executable test for an ASCII decimal digit.
pub fn byte_is_digit(b: u8) -> (r: bool)
    ensures
        r == is_digit(b),
{
    b >= 0x30 && b <= 0x39
}

/// Reads the run of digits that starts at `start`: where it ends, and its
/// value if that fits in 32 bits.
pub fn scan_digits(s: &[u8], start: usize) -> (r: (usize, Option<u32>))
    requires
        start <= s.len(),
    ensures
        r.0 == digits_end(s@, start as int),
        start <= r.0 <= s.len(),
        match r.1 {
            Some(v) => v == digits_value(s@.subrange(start as int, r.0 as int)),
            None => digits_value(s@.subrange(start as int, r.0 as int)) > u32::MAX,
        },
{
    let mut j: usize = start;
    let mut acc: u64 = 0;
    let mut fits: bool = true;
    assert(s@.subrange(start as int, start as int) =~= Seq::<u8>::empty());
    while j < s.len() && byte_is_digit(s[j])
        invariant
            start <= j <= s.len(),
            digits_end(s@, j as int) == digits_end(s@, start as int),
            fits ==> acc == digits_value(s@.subrange(start as int, j as int)) && acc <= u32::MAX,
            !fits ==> digits_value(s@.subrange(start as int, j as int)) > u32::MAX,
        decreases s.len() - j,
    {
        let d: u64 = (s[j] - 0x30) as u64;
        proof {
            let t = s@.subrange(start as int, j + 1);
            assert(t.drop_last() =~= s@.subrange(start as int, j as int));
            assert(t.last() == s@[j as int]);
        }
        if fits {
            acc = acc * 10 + d;
            if acc > 0xffff_ffff {
                fits = false;
            }
        }
        j = j + 1;
    }
    if fits {
        (j, Some(acc as u32))
    } else {
        (j, None)
    }
}

/// Reads the unsigned integer written at `start`.
pub fn scan_unsigned(s: &[u8], start: usize) -> (r: Option<(u32, usize)>)
    requires
        start <= s.len(),
    ensures
        match r {
            Some((v, end)) => unsigned_at(s@, start as int) == Some((v, end as int)),
            None => unsigned_at(s@, start as int).is_none(),
        },
{
    let (end, value) = scan_digits(s, start);
    if end == start {
        return None;
    }
    match value {
        Some(v) => Some((v, end)),
        None => None,
    }
}

/// Reads the decimal number written at `start`.
pub fn scan_number(s: &[u8], start: usize) -> (r: Option<(Number, usize)>)
    requires
        start <= s.len(),
    ensures
        match r {
            Some((n, end)) => number_at(s@, start as int) == Some((n, end as int)),
            None => number_at(s@, start as int).is_none(),
        },
{
    let signed = start < s.len() && (s[start] == 0x2b || s[start] == 0x2d);
    let negative = signed && s[start] == 0x2d;
    let a: usize = if signed {
        start + 1
    } else {
        start
    };
    let (b, major) = scan_digits(s, a);
    if b == a {
        return None;
    }
    let fraction = b < s.len() - 1 && s[b] == 0x2e && byte_is_digit(s[b + 1]);
    if fraction {
        let (c, minor) = scan_digits(s, b + 1);
        match (major, minor) {
            (Some(major), Some(minor)) => Some(
                (Number { negative, major, minor, frac_digits: c - b - 1 }, c),
            ),
            _ => None,
        }
    } else {
        match major {
            Some(major) => Some((Number { negative, major, minor: 0, frac_digits: 0 }, b)),
            None => None,
        }
    }
}

/// The shortest decimal writing of `n`.
pub open spec fn decimal_digits(n: nat) -> Seq<u8>
    decreases n,
{
    if n < 10 {
        seq![digit_byte(n)]
    } else {
        decimal_digits(n / 10).push(digit_byte(n % 10))
    }
}

/// The last `width` decimal digits of `n`, with leading zeros.
pub open spec fn padded_digits(n: nat, width: nat) -> Seq<u8>
    decreases width,
{
    if width == 0 {
        Seq::empty()
    } else {
        padded_digits(n / 10, (width - 1) as nat).push(digit_byte(n % 10))
    }
}

/// The absolute value of `v`.
pub open spec fn abs(v: int) -> nat {
    if v < 0 {
        (-v) as nat
    } else {
        v as nat
    }
}

/// The writing of the fixed-point number `v` with six decimal places: a
/// minus sign where `v` is negative, the whole part, a point and six digits.
pub open spec fn fixed_text(v: int) -> Seq<u8> {
    let sign = if v < 0 {
        seq![0x2du8]
    } else {
        Seq::empty()
    };
    sign + decimal_digits(abs(v) / (SCALE as nat)) + seq![0x2eu8] + padded_digits(
        abs(v) % (SCALE as nat),
        6,
    )
}

/// The sum `v` held to the range of `i64`.
pub open spec fn clamp(v: int) -> i64 {
    if v < i64::MIN {
        i64::MIN
    } else if v > i64::MAX {
        i64::MAX
    } else {
        v as i64
    }
}

/// The sum of `a` and `b`, held to the range of `i64`.
pub fn saturating_sum(a: i64, b: i64) -> (r: i64)
    ensures
        r == clamp(a + b),
{
    let t: i128 = a as i128 + b as i128;
    if t < i64::MIN as i128 {
        i64::MIN
    } else if t > i64::MAX as i128 {
        i64::MAX
    } else {
        t as i64
    }
}

/// Appends the shortest decimal writing of `n`.
pub fn push_decimal(out: &mut Vec<u8>, n: u64)
    ensures
        final(out)@ == old(out)@ + decimal_digits(n as nat),
    decreases n,
{
    if n >= 10 {
        push_decimal(out, n / 10);
    }
    out.push(0x30 + (n % 10) as u8);
    assert(out@ =~= old(out)@ + decimal_digits(n as nat));
}

/// Appends the last `width` decimal digits of `n`, with leading zeros.
pub fn push_padded(out: &mut Vec<u8>, n: u64, width: usize)
    ensures
        final(out)@ == old(out)@ + padded_digits(n as nat, width as nat),
    decreases width,
{
    if width > 0 {
        push_padded(out, n / 10, width - 1);
        out.push(0x30 + (n % 10) as u8);
    }
    assert(out@ =~= old(out)@ + padded_digits(n as nat, width as nat));
}

/// Appends the fixed-point number `v` with six decimal places.
pub fn push_fixed(out: &mut Vec<u8>, v: i64)
    ensures
        final(out)@ == old(out)@ + fixed_text(v as int),
{
    let m: u64 = if v < 0 {
        out.push(0x2d);
        (-(v as i128)) as u64
    } else {
        v as u64
    };
    push_decimal(out, m / 1_000_000);
    out.push(0x2e);
    push_padded(out, m % 1_000_000, 6);
    assert(out@ =~= old(out)@ + fixed_text(v as int));
}

/// The number that reads as `v` written with six decimal places.
pub open spec fn number_of_fixed(v: int) -> Number {
    Number {
        negative: v < 0,
        major: (abs(v) / (SCALE as nat)) as u32,
        minor: (abs(v) % (SCALE as nat)) as u32,
        frac_digits: 6,
    }
}

/// Whether `v` can be read back from its writing: its whole part fits in 32
/// bits.
pub open spec fn readable(v: int) -> bool {
    abs(v) / (SCALE as nat) <= u32::MAX
}

/// The shortest decimal writing of a number is made of digits, has at least
/// one of them, and reads as the number.
pub proof fn lemma_decimal_digits(n: nat)
    ensures
        decimal_digits(n).len() >= 1,
        forall|i: int| 0 <= i < decimal_digits(n).len() ==> is_digit(#[trigger] decimal_digits(n)[i]),
        digits_value(decimal_digits(n)) == n,
    decreases n,
{
    let s = decimal_digits(n);
    if n < 10 {
        assert(s.drop_last() =~= Seq::<u8>::empty());
        assert(digits_value(s.drop_last()) == 0);
    } else {
        lemma_decimal_digits(n / 10);
        assert(s.drop_last() =~= decimal_digits(n / 10));
    }
}

/// The padded writing of a number that needs no more than `width` digits is
/// made of `width` digits and reads as the number.
pub proof fn lemma_padded_digits(n: nat, width: nat)
    requires
        n < pow10(width),
    ensures
        padded_digits(n, width).len() == width,
        forall|i: int|
            0 <= i < padded_digits(n, width).len() ==> is_digit(
                #[trigger] padded_digits(n, width)[i],
            ),
        digits_value(padded_digits(n, width)) == n,
    decreases width,
{
    let s = padded_digits(n, width);
    if width > 0 {
        lemma_padded_digits(n / 10, (width - 1) as nat);
        assert(s.drop_last() =~= padded_digits(n / 10, (width - 1) as nat));
    }
}

/// Where digits stand from `i` up to `k` and no digit stands at `k`, the run
/// of digits from `i` ends at `k`.
pub proof fn lemma_digits_end_run(s: Seq<u8>, i: int, k: int)
    requires
        0 <= i <= k <= s.len(),
        forall|j: int| i <= j < k ==> is_digit(#[trigger] s[j]),
        k == s.len() || !is_digit(s[k]),
    ensures
        digits_end(s, i) == k,
    decreases k - i,
{
    if i < k {
        lemma_digits_end_run(s, i + 1, k);
    }
}

/// A run of digits ends at the same place whether it is looked for in a
/// text or in what is left of the text from `q` on.
pub proof fn lemma_digits_end_shift(s: Seq<u8>, q: int, i: int)
    requires
        0 <= q <= s.len(),
        0 <= i,
    ensures
        digits_end(s, q + i) == digits_end(s.subrange(q, s.len() as int), i) + q,
    decreases s.len() - q - i,
{
    let t = s.subrange(q, s.len() as int);
    if i < t.len() && is_digit(t[i]) {
        lemma_digits_end_shift(s, q, i + 1);
    }
}

/// A number reads the same whether it is looked for in a text or in what is
/// left of the text from `q` on.
pub proof fn lemma_number_at_shift(s: Seq<u8>, q: int, i: int)
    requires
        0 <= q <= s.len(),
        0 <= i <= s.len() - q,
    ensures
        number_at(s, q + i) == match number_at(s.subrange(q, s.len() as int), i) {
            Some((n, end)) => Some((n, end + q)),
            None => None,
        },
{
    let t = s.subrange(q, s.len() as int);
    let signed = 0 <= i < t.len() && (t[i] == 0x2b || t[i] == 0x2d);
    let a = if signed {
        i + 1
    } else {
        i
    };
    lemma_digits_end_shift(s, q, a);
    lemma_digits_end_bounds(t, a);
    let b = digits_end(t, a);
    assert(s.subrange(q + a, q + b) =~= t.subrange(a, b));
    if b + 1 < t.len() {
        lemma_digits_end_shift(s, q, b + 1);
        lemma_digits_end_bounds(t, b + 1);
        let c = digits_end(t, b + 1);
        assert(s.subrange(q + b + 1, q + c) =~= t.subrange(b + 1, c));
    }
}

/// A number written with six decimal places reads back as itself, whatever
/// follows it, unless a digit follows.
pub proof fn lemma_number_at_fixed_text(v: int, rest: Seq<u8>)
    requires
        readable(v),
        rest.len() == 0 || !is_digit(rest[0]),
    ensures
        number_at(fixed_text(v) + rest, 0) == Some(
            (number_of_fixed(v), fixed_text(v).len() as int),
        ),
        number_of_fixed(v).fixed() == v,
{
    let whole = decimal_digits(abs(v) / 1_000_000);
    let part = padded_digits(abs(v) % 1_000_000, 6);
    let t = fixed_text(v) + rest;
    lemma_decimal_digits(abs(v) / 1_000_000);
    lemma_pow10_values();
    lemma_padded_digits(abs(v) % 1_000_000, 6);
    let a: int = if v < 0 {
        1
    } else {
        0
    };
    let b = a + whole.len();
    let c = b + 7;
    assert(fixed_text(v).len() == c);
    assert forall|j: int| a <= j < b implies is_digit(#[trigger] t[j]) by {
        assert(t[j] == whole[j - a]);
    }
    assert(t[b] == 0x2e);
    assert forall|j: int| b + 1 <= j < c implies is_digit(#[trigger] t[j]) by {
        assert(t[j] == part[j - b - 1]);
    }
    assert(t[0] == if v < 0 {
        0x2du8
    } else {
        whole[0]
    });
    lemma_digits_end_run(t, a, b);
    if rest.len() > 0 {
        assert(t[c] == rest[0]);
    }
    lemma_digits_end_run(t, b + 1, c);
    assert(t.subrange(a, b) =~= whole);
    assert(t.subrange(b + 1, c) =~= part);
    assert(is_digit(t[b + 1]));
    assert(number_of_fixed(v).magnitude() == abs(v)) by {
        let m = (abs(v) % 1_000_000) as int;
        assert(pow10(6) == 1_000_000);
        assert((m * 1_000_000) / 1_000_000 == m);
    }
}

/// A whole number in its shortest writing reads back as itself, whatever
/// follows it, unless a digit or a decimal point follows.
pub proof fn lemma_number_at_whole(n: nat, rest: Seq<u8>)
    requires
        n <= u32::MAX,
        rest.len() == 0 || (!is_digit(rest[0]) && rest[0] != 0x2e),
    ensures
        number_at(decimal_digits(n) + rest, 0) == Some(
            (
                Number { negative: false, major: n as u32, minor: 0, frac_digits: 0 },
                decimal_digits(n).len() as int,
            ),
        ),
{
    let whole = decimal_digits(n);
    let t = whole + rest;
    lemma_decimal_digits(n);
    let b = whole.len() as int;
    assert forall|j: int| 0 <= j < b implies is_digit(#[trigger] t[j]) by {
        assert(t[j] == whole[j]);
    }
    assert(t[0] == whole[0]);
    if rest.len() > 0 {
        assert(t[b] == rest[0]);
    }
    lemma_digits_end_run(t, 0, b);
    assert(t.subrange(0, b) =~= whole);
}

/// A whole number in its shortest writing, standing at position `i` of a
/// text, reads back as itself, unless a digit follows it.
pub proof fn lemma_unsigned_at_whole(s: Seq<u8>, i: int, n: nat)
    requires
        0 <= i,
        i + decimal_digits(n).len() <= s.len(),
        s.subrange(i, i + decimal_digits(n).len()) == decimal_digits(n),
        i + decimal_digits(n).len() == s.len() || !is_digit(s[i + decimal_digits(n).len()]),
        n <= u32::MAX,
    ensures
        unsigned_at(s, i) == Some((n as u32, i + decimal_digits(n).len())),
{
    let whole = decimal_digits(n);
    let e = i + whole.len();
    lemma_decimal_digits(n);
    assert forall|j: int| i <= j < e implies is_digit(#[trigger] s[j]) by {
        assert(s.subrange(i, e)[j - i] == s[j]);
    }
    lemma_digits_end_run(s, i, e);
}

} // verus!
