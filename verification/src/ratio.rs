//! Decimal fractions, and the byte savings that are measured against them.

use vstd::prelude::*;
use crate::number::{read_digits, unsigned_value, DigitRun};
use crate::text::{chars_of, find_char, position};

verus! {

/// A non-negative decimal fraction, `digits / 10^places`.
#[derive(Debug, Clone, Copy, PartialEq, Eq, Structural)]
pub struct Ratio {
    /// The digits as an integer.
    pub digits: u64,
    /// The number of digits behind the decimal point.
    pub places: u32,
}

/// Ten to the power of `n`.
pub open spec fn pow10(n: nat) -> nat
    decreases n,
{
    if n == 0 {
        1
    } else {
        10 * pow10((n - 1) as nat)
    }
}

/// Powers of ten are positive and grow with the exponent.
pub proof fn lemma_pow10(n: nat, m: nat)
    requires
        n <= m,
    ensures
        1 <= pow10(n) <= pow10(m),
    decreases m,
{
    if n < m {
        lemma_pow10(n, (m - 1) as nat);
    } else if n > 0 {
        lemma_pow10((n - 1) as nat, (n - 1) as nat);
    }
}

/// Ten to the power of twenty exceeds every `u64`, and of 39 every product of
/// two.
proof fn lemma_large_powers()
    ensures
        pow10(20) == 100_000_000_000_000_000_000,
        pow10(38) == 100_000_000_000_000_000_000_000_000_000_000_000_000,
        pow10(39) == 1_000_000_000_000_000_000_000_000_000_000_000_000_000,
{
    reveal_with_fuel(pow10, 40);
}

/// Ten to the power of `n`, computed.
fn power_of_ten(n: u32) -> (r: u128)
    requires
        n <= 38,
    ensures
        r == pow10(n as nat),
{
    let mut r: u128 = 1;
    let mut i: u32 = 0;
    proof {
        lemma_large_powers();
    }
    while i < n
        invariant
            i <= n <= 38,
            r == pow10(i as nat),
            pow10(38) == 100_000_000_000_000_000_000_000_000_000_000_000_000,
        decreases n - i,
    {
        proof {
            lemma_pow10((i + 1) as nat, 38);
        }
        r = r * 10;
        i = i + 1;
    }
    r
}

/// Whether `part` is at most `ratio` of `whole`.
pub open spec fn within(ratio: Ratio, part: nat, whole: nat) -> bool {
    part * pow10(ratio.places as nat) <= ratio.digits * whole
}

/// Whether a ratio is at most one.
pub open spec fn is_unit(ratio: Ratio) -> bool {
    ratio.digits <= pow10(ratio.places as nat)
}

impl Ratio {
    /// Whether `part` is at most this fraction of `whole`.
    pub fn allows(&self, part: u64, whole: u64) -> (r: bool)
        ensures
            r == within(*self, part as nat, whole as nat),
    {
        proof {
            assert(self.digits * whole <= 0xffff_ffff_ffff_ffff * 0xffff_ffff_ffff_ffff)
                by (nonlinear_arith)
                requires
                    self.digits <= 0xffff_ffff_ffff_ffff,
                    whole <= 0xffff_ffff_ffff_ffff,
            ;
            lemma_large_powers();
        }
        let scaled: u128 = self.digits as u128 * whole as u128;
        if self.places > 38 {
            proof {
                lemma_pow10(39, self.places as nat);
                let unit = pow10(self.places as nat);
                if part > 0 {
                    assert(part * unit >= unit) by (nonlinear_arith)
                        requires
                            part >= 1,
                            unit >= 0,
                    ;
                } else {
                    assert(part * unit == 0) by (nonlinear_arith)
                        requires
                            part == 0,
                    ;
                }
            }
            return part == 0;
        }
        let unit = power_of_ten(self.places);
        proof {
            lemma_pow10(self.places as nat, self.places as nat);
            let p = part as int;
            let u = unit as int;
            let s = scaled as int;
            assert((p <= s / u) == (p * u <= s)) by (nonlinear_arith)
                requires
                    u > 0,
                    s >= 0,
                    p >= 0,
            ;
        }
        part as u128 <= scaled / unit
    }

    /// Whether the ratio is at most one.
    pub fn at_most_one(&self) -> (r: bool)
        ensures
            r == is_unit(*self),
    {
        proof {
            lemma_large_powers();
        }
        if self.places >= 20 {
            proof {
                lemma_pow10(20, self.places as nat);
            }
            return true;
        }
        self.digits as u128 <= power_of_ten(self.places)
    }

    /// Reads a decimal text as a ratio of at most one.
    pub fn parse(text: &str) -> (r: Option<Ratio>)
        ensures
            r == unit_ratio(text@),
    {
        let all = chars_of(text);
        let n = all.len();
        let negative = n > 0 && all[0] == '-';
        let start: usize = if negative {
            1
        } else {
            0
        };
        let ghost body = unsigned_part(text@);
        assert(body =~= all@.subrange(start as int, n as int));
        let mark = find_char(&all, start, n, 'e');
        assert(body.take(mark - start) =~= all@.subrange(start as int, mark as int));
        let shift = match read_shift(&all, start, mark) {
            Some(shift) => shift,
            None => {
                return None;
            },
        };
        let (digits, behind) = match read_mantissa(&all, start, mark) {
            Some(m) => m,
            None => {
                return None;
            },
        };
        if shift > 0xffff_ffff || behind > 0xffff_ffff || shift + behind as u64 > 0xffff_ffff {
            return None;
        }
        let ratio = Ratio { digits, places: (shift + behind as u64) as u32 };
        if negative && digits != 0 {
            return None;
        }
        if ratio.at_most_one() {
            Some(ratio)
        } else {
            None
        }
    }
}

/// Reads the exponent at `mark`, with the decimal text starting at `start`.
/// Nothing where it is not of the accepted form or exceeds `u64`.
fn read_shift(all: &Vec<char>, start: usize, mark: usize) -> (r: Option<u64>)
    requires
        start <= mark <= all@.len(),
        mark - start == position(all@.skip(start as int), 'e'),
    ensures
        match r {
            Some(k) => exponent_shift(all@.skip(start as int)) == Some(k as nat),
            None => match exponent_shift(all@.skip(start as int)) {
                Some(k) => k > u64::MAX,
                None => true,
            },
        },
{
    let n = all.len();
    let ghost body = all@.skip(start as int);
    if mark == n {
        return Some(0);
    }
    if n - mark < 2 || all[mark + 1] != '-' {
        return None;
    }
    assert(body.skip(mark - start + 2) =~= all@.skip(mark + 2));
    match read_digits(all, mark + 2) {
        DigitRun::Worth(k) => Some(k),
        _ => None,
    }
}

/// Reads the mantissa `all[start..mark]`: its digits and how many stand behind
/// the point. Nothing where it is no mantissa or its digits exceed `u64`.
fn read_mantissa(all: &Vec<char>, start: usize, mark: usize) -> (r: Option<(u64, usize)>)
    requires
        start <= mark <= all@.len(),
    ensures
        match r {
            Some(m) => {
                let mantissa = all@.subrange(start as int, mark as int);
                &&& unsigned_value(mantissa_digits(mantissa)) == Some(m.0 as nat)
                &&& m.1 == mantissa_places(mantissa)
            },
            None => match unsigned_value(
                mantissa_digits(all@.subrange(start as int, mark as int)),
            ) {
                Some(d) => d > u64::MAX,
                None => true,
            },
        },
{
    let ghost mantissa = all@.subrange(start as int, mark as int);
    let point = find_char(all, start, mark, '.');
    let mut run: Vec<char> = Vec::new();
    let mut i: usize = start;
    while i < point
        invariant
            start <= i <= point <= mark <= all@.len(),
            run@ =~= all@.subrange(start as int, i as int),
        decreases point - i,
    {
        run.push(all[i]);
        i = i + 1;
    }
    let mut behind: usize = 0;
    if point < mark {
        i = point + 1;
        while i < mark
            invariant
                start <= point < i <= mark <= all@.len(),
                behind == i - point - 1,
                run@ =~= all@.subrange(start as int, point as int) + all@.subrange(
                    point + 1,
                    i as int,
                ),
            decreases mark - i,
        {
            run.push(all[i]);
            behind = behind + 1;
            i = i + 1;
        }
    }
    assert(run@ =~= mantissa_digits(mantissa));
    assert(run@.skip(0) =~= run@);
    match read_digits(&run, 0) {
        DigitRun::Worth(d) => Some((d, behind)),
        _ => None,
    }
}

/// `t` without a leading minus sign.
pub open spec fn unsigned_part(t: Seq<char>) -> Seq<char> {
    if t.len() > 0 && t[0] == '-' {
        t.drop_first()
    } else {
        t
    }
}

/// The digits of a mantissa, its decimal point left out.
pub open spec fn mantissa_digits(mantissa: Seq<char>) -> Seq<char> {
    let point = position(mantissa, '.');
    if point < mantissa.len() {
        mantissa.take(point) + mantissa.skip(point + 1)
    } else {
        mantissa
    }
}

/// How many digits of a mantissa stand behind its decimal point.
pub open spec fn mantissa_places(mantissa: Seq<char>) -> int {
    let point = position(mantissa, '.');
    if point < mantissa.len() {
        mantissa.len() - point - 1
    } else {
        0
    }
}

/// The power of ten that a decimal text divides its mantissa by: none without an
/// exponent, otherwise what its negative exponent says.
pub open spec fn exponent_shift(body: Seq<char>) -> Option<nat> {
    let mark = position(body, 'e');
    if mark >= body.len() {
        Some(0)
    } else if mark + 1 < body.len() && body[mark + 1] == '-' {
        unsigned_value(body.skip(mark + 2))
    } else {
        None
    }
}

/// The ratio of at most one that a decimal text writes: digits with at most one
/// point and an optional negative exponent, a minus sign only before zero.
pub open spec fn unit_ratio(t: Seq<char>) -> Option<Ratio> {
    let body = unsigned_part(t);
    let mantissa = body.take(position(body, 'e'));
    match (exponent_shift(body), unsigned_value(mantissa_digits(mantissa))) {
        (Some(shift), Some(digits)) => {
            let places = shift + mantissa_places(mantissa);
            let ratio = Ratio { digits: digits as u64, places: places as u32 };
            if digits <= u64::MAX && places <= u32::MAX && is_unit(ratio) && (t[0] == '-' ==> digits
                == 0) {
                Some(ratio)
            } else {
                None
            }
        },
        _ => None,
    }
}

/// How an output compares with its input in bytes. The saved fraction is
/// `1 - output_bytes / input_bytes`.
#[derive(Debug, Clone, Copy, PartialEq, Eq, Structural)]
pub struct Savings {
    /// Bytes of the input.
    pub input_bytes: usize,
    /// Bytes of the output.
    pub output_bytes: usize,
}

} // verus!
