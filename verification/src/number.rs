//! Integer literals, their decimal and hexadecimal texts, and decimal
//! fractions.

use vstd::prelude::*;
use vstd::arithmetic::power2::{
    lemma2_to64, lemma2_to64_rest, lemma_pow2_pos, lemma_pow2_strictly_increases, lemma_pow2_unfold,
    pow2,
};
use crate::text::chars_of;

verus! {

/// Whether `c` is an ASCII digit.
pub open spec fn is_digit(c: char) -> bool {
    '0' <= c && c <= '9'
}

/// The value of an ASCII digit.
pub open spec fn digit_value(c: char) -> nat {
    (c as u32 - '0' as u32) as nat
}

/// Whether every character of `s` is an ASCII digit.
pub open spec fn all_digits(s: Seq<char>) -> bool {
    forall|i: int| 0 <= i < s.len() ==> is_digit(#[trigger] s[i])
}

/// The number that a run of digits writes in base ten.
pub open spec fn digits_value(s: Seq<char>) -> nat
    decreases s.len(),
{
    if s.len() == 0 {
        0
    } else {
        10 * digits_value(s.drop_last()) + digit_value(s.last())
    }
}

/// The value of a digit run of at least one digit.
pub open spec fn unsigned_value(s: Seq<char>) -> Option<nat> {
    if s.len() > 0 && all_digits(s) {
        Some(digits_value(s))
    } else {
        None
    }
}

/// The value of an optionally signed integer literal.
pub open spec fn signed_value(s: Seq<char>) -> Option<int> {
    if s.len() > 0 && (s[0] == '-' || s[0] == '+') {
        match unsigned_value(s.drop_first()) {
            Some(n) => Some(
                if s[0] == '-' {
                    -(n as int)
                } else {
                    n as int
                },
            ),
            None => None,
        }
    } else {
        match unsigned_value(s) {
            Some(n) => Some(n as int),
            None => None,
        }
    }
}

/// The value of an integer literal that carries no minus sign.
pub open spec fn natural_value(s: Seq<char>) -> Option<nat> {
    if s.len() > 0 && s[0] == '+' {
        unsigned_value(s.drop_first())
    } else {
        unsigned_value(s)
    }
}

/// Decides [`is_digit`].
pub fn digit(c: char) -> (r: bool)
    ensures
        r == is_digit(c),
{
    '0' <= c && c <= '9'
}

/// What a scan of a digit run found.
pub enum DigitRun {
    /// Not a run of at least one digit.
    Invalid,
    /// A run worth more than `u64::MAX`.
    TooLarge,
    /// A run worth this much.
    Worth(u64),
}

/// Reads `chars[from..]` as a digit run.
pub fn read_digits(chars: &Vec<char>, from: usize) -> (r: DigitRun)
    requires
        from <= chars@.len(),
    ensures
        match r {
            DigitRun::Invalid => unsigned_value(chars@.skip(from as int)) is None,
            DigitRun::TooLarge => {
                &&& unsigned_value(chars@.skip(from as int)) is Some
                &&& digits_value(chars@.skip(from as int)) > u64::MAX
            },
            DigitRun::Worth(n) => unsigned_value(chars@.skip(from as int)) == Some(n as nat),
        },
{
    let ghost run = chars@.skip(from as int);
    if from == chars.len() {
        return DigitRun::Invalid;
    }
    let mut worth: u64 = 0;
    let mut large: bool = false;
    let mut i: usize = from;
    while i < chars.len()
        invariant
            from <= i <= chars@.len(),
            run == chars@.skip(from as int),
            all_digits(run.take(i - from)),
            !large ==> worth == digits_value(run.take(i - from)),
            large ==> digits_value(run.take(i - from)) > u64::MAX,
        decreases chars@.len() - i,
    {
        let c = chars[i];
        let ghost k = i - from;
        assert(run[k] == c);
        if !digit(c) {
            assert(unsigned_value(run) is None);
            return DigitRun::Invalid;
        }
        let d: u64 = (c as u32 - '0' as u32) as u64;
        assert(run.take(k + 1).drop_last() =~= run.take(k));
        assert(run.take(k + 1).last() == c);
        assert(digits_value(run.take(k + 1)) == 10 * digits_value(run.take(k)) + d);
        assert(all_digits(run.take(k + 1))) by {
            assert forall|j: int| 0 <= j < k + 1 implies is_digit(
                #[trigger] run.take(k + 1)[j],
            ) by {
                if j < k {
                    assert(run.take(k)[j] == run.take(k + 1)[j]);
                }
            }
        }
        if !large {
            if worth > (u64::MAX - d) / 10 {
                large = true;
            } else {
                worth = 10 * worth + d;
            }
        }
        i = i + 1;
    }
    assert(run.take(run.len() as int) =~= run);
    if large {
        DigitRun::TooLarge
    } else {
        DigitRun::Worth(worth)
    }
}

/// Reads an optionally signed integer literal that fits `i64`.
pub fn parse_i64(s: &str) -> (r: Option<i64>)
    ensures
        r == (match signed_value(s@) {
            Some(v) if i64::MIN <= v <= i64::MAX => Some(v as i64),
            _ => None,
        }),
{
    let chars = chars_of(s);
    let signed = chars.len() > 0 && (chars[0] == '-' || chars[0] == '+');
    let negative = chars.len() > 0 && chars[0] == '-';
    let from: usize = if signed {
        1
    } else {
        0
    };
    proof {
        assert(signed ==> s@.drop_first() =~= s@.skip(1));
        assert(!signed ==> s@ =~= s@.skip(0));
    }
    match read_digits(&chars, from) {
        DigitRun::Worth(n) => {
            if negative {
                if n <= 0x7fff_ffff_ffff_ffff {
                    Some(-(n as i64))
                } else if n == 0x8000_0000_0000_0000 {
                    Some(i64::MIN)
                } else {
                    None
                }
            } else if n <= 0x7fff_ffff_ffff_ffff {
                Some(n as i64)
            } else {
                None
            }
        },
        _ => None,
    }
}

/// Reads an integer literal without a minus sign that fits `u64`.
pub fn parse_u64(s: &str) -> (r: Option<u64>)
    ensures
        r == (match natural_value(s@) {
            Some(v) if v <= u64::MAX => Some(v as u64),
            _ => None,
        }),
{
    let chars = chars_of(s);
    let plus = chars.len() > 0 && chars[0] == '+';
    let from: usize = if plus {
        1
    } else {
        0
    };
    proof {
        assert(plus ==> s@.drop_first() =~= s@.skip(1));
        assert(!plus ==> s@ =~= s@.skip(0));
    }
    match read_digits(&chars, from) {
        DigitRun::Worth(n) => Some(n),
        _ => None,
    }
}

/// Reads an integer literal without a minus sign that fits `usize`.
pub fn parse_usize(s: &str) -> (r: Option<usize>)
    ensures
        r == (match natural_value(s@) {
            Some(v) if v <= usize::MAX => Some(v as usize),
            _ => None,
        }),
{
    match parse_u64(s) {
        Some(n) => {
            if n <= usize::MAX as u64 {
                Some(n as usize)
            } else {
                None
            }
        },
        None => None,
    }
}

// ---------------------------------------------------------------------------
// IEEE 754 binary64
// ---------------------------------------------------------------------------

/// The stored exponent of a binary64 number.
pub open spec fn biased_exponent(bits: u64) -> int {
    (bits as int / 0x10_0000_0000_0000) % 0x800
}

/// The significand of a binary64 number as an integer.
pub open spec fn significand(bits: u64) -> nat {
    let fraction = (bits as int % 0x10_0000_0000_0000) as nat;
    if biased_exponent(bits) == 0 {
        fraction
    } else {
        fraction + 0x10_0000_0000_0000
    }
}

/// The power of two that scales the significand.
pub open spec fn exponent(bits: u64) -> int {
    if biased_exponent(bits) == 0 {
        -1074
    } else {
        biased_exponent(bits) - 1075
    }
}

/// Whether a finite binary64 number, `significand * 2^exponent` up to its sign,
/// is an integer.
pub open spec fn is_whole(bits: u64) -> bool {
    exponent(bits) >= 0 || significand(bits) % pow2((-exponent(bits)) as nat) == 0
}

/// Decides [`is_whole`].
pub fn whole(bits: u64) -> (r: bool)
    ensures
        r == is_whole(bits),
{
    let biased: u64 = (bits / 0x10_0000_0000_0000) % 0x800;
    let fraction: u64 = bits % 0x10_0000_0000_0000;
    let digits: u64 = if biased == 0 {
        fraction
    } else {
        fraction + 0x10_0000_0000_0000
    };
    assert(digits == significand(bits));
    if biased >= 1075 {
        return true;
    }
    let scale: u64 = if biased == 0 {
        1074
    } else {
        1075 - biased
    };
    assert(scale == -exponent(bits));
    if scale >= 53 {
        proof {
            lemma2_to64_rest();
            if scale > 53 {
                lemma_pow2_strictly_increases(53, scale as nat);
            }
            if digits > 0 {
                vstd::arithmetic::div_mod::lemma_small_mod(
                    digits as nat,
                    pow2(scale as nat),
                );
            } else {
                lemma_pow2_pos(scale as nat);
                vstd::arithmetic::div_mod::lemma_small_mod(0, pow2(scale as nat));
            }
        }
        return digits == 0;
    }
    let mut unit: u64 = 1;
    let mut k: u64 = 0;
    proof {
        lemma2_to64();
    }
    while k < scale
        invariant
            k <= scale < 53,
            unit == pow2(k as nat),
            unit <= 0x10_0000_0000_0000,
        decreases scale - k,
    {
        proof {
            lemma_pow2_unfold((k + 1) as nat);
            lemma2_to64_rest();
            if k + 1 < 52 {
                lemma_pow2_strictly_increases((k + 1) as nat, 52);
            }
        }
        unit = unit * 2;
        k = k + 1;
    }
    proof {
        lemma_pow2_pos(scale as nat);
    }
    digits % unit == 0
}

/// The digit that writes `d`.
pub open spec fn digit_char(d: nat) -> char
    recommends
        d < 10,
{
    ('0' as u32 + d) as char
}

/// The decimal text of `n`, without leading zeros.
pub open spec fn decimal(n: nat) -> Seq<char>
    decreases n,
{
    if n < 10 {
        seq![digit_char(n)]
    } else {
        decimal(n / 10).push(digit_char(n % 10))
    }
}

/// The decimal text of a possibly negative integer.
pub open spec fn signed_decimal(i: int) -> Seq<char> {
    if i < 0 {
        seq!['-'] + decimal((-i) as nat)
    } else {
        decimal(i as nat)
    }
}

/// The decimal text of a number reads back as the number.
pub proof fn lemma_decimal_reads_back(n: nat)
    ensures
        decimal(n).len() > 0,
        all_digits(decimal(n)),
        digits_value(decimal(n)) == n,
    decreases n,
{
    let d = decimal(n);
    if n < 10 {
        assert(d.drop_last() =~= Seq::<char>::empty());
        assert(digits_value(Seq::<char>::empty()) == 0);
        assert(d.last() == digit_char(n));
    } else {
        lemma_decimal_reads_back(n / 10);
        let front = decimal(n / 10);
        assert(d.drop_last() =~= front);
        assert(d.last() == digit_char(n % 10));
        assert forall|i: int| 0 <= i < d.len() implies is_digit(#[trigger] d[i]) by {
            if i < front.len() {
                assert(d[i] == front[i]);
            }
        }
    }
}

/// The character for a digit below ten.
fn digit_of(d: u64) -> (r: char)
    requires
        d < 10,
    ensures
        r == digit_char(d as nat),
{
    if d == 0 {
        '0'
    } else if d == 1 {
        '1'
    } else if d == 2 {
        '2'
    } else if d == 3 {
        '3'
    } else if d == 4 {
        '4'
    } else if d == 5 {
        '5'
    } else if d == 6 {
        '6'
    } else if d == 7 {
        '7'
    } else if d == 8 {
        '8'
    } else {
        '9'
    }
}

/// The decimal text of `n`.
pub fn decimal_text(n: u64) -> (r: String)
    ensures
        r@ == decimal(n as nat),
    decreases n,
{
    if n < 10 {
        let mut out = String::new();
        out.push(digit_of(n));
        assert(out@ =~= seq![digit_char(n as nat)]);
        out
    } else {
        let mut out = decimal_text(n / 10);
        out.push(digit_of(n % 10));
        out
    }
}

/// The decimal text of `i`.
pub fn signed_decimal_text(i: i64) -> (r: String)
    ensures
        r@ == signed_decimal(i as int),
{
    if i < 0 {
        let mut out = String::new();
        out.push('-');
        let magnitude: u64 = (-(i as i128)) as u64;
        let digits = decimal_text(magnitude);
        out.append(digits.as_str());
        assert(out@ =~= seq!['-'] + decimal((-(i as int)) as nat));
        out
    } else {
        decimal_text(i as u64)
    }
}

/// The decimal text of `n`.
pub fn count_text(n: usize) -> (r: String)
    ensures
        r@ == decimal(n as nat),
{
    decimal_text(n as u64)
}

} // verus!
