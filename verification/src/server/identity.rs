//! Event identifiers.

use vstd::prelude::*;
use crate::bindings::{hash_xxh3, xxh3};

verus! {

/// The `width` low bytes of `n`, least significant first.
pub open spec fn little_endian(n: nat, width: nat) -> Seq<u8>
    decreases width,
{
    if width == 0 {
        Seq::empty()
    } else {
        seq![(n % 256) as u8] + little_endian(n / 256, (width - 1) as nat)
    }
}

/// The hexadecimal digit that writes `d`.
pub open spec fn hex_char(d: nat) -> char
    recommends
        d < 16,
{
    if d < 10 {
        ('0' as u32 + d) as char
    } else {
        ('a' as u32 + (d - 10)) as char
    }
}

/// The `width` low hexadecimal digits of `n`.
pub open spec fn hex(n: nat, width: nat) -> Seq<char>
    decreases width,
{
    if width == 0 {
        Seq::empty()
    } else {
        hex(n / 16, (width - 1) as nat).push(hex_char(n % 16))
    }
}

/// The bytes that an identifier hashes: a counter and a timestamp.
pub open spec fn identity_bytes(sequence: u64, ts_ns: u64) -> Seq<u8> {
    little_endian(sequence as nat, 8) + little_endian(ts_ns as nat, 8)
}

/// The identifier of an event: 16 lowercase hexadecimal digits.
pub open spec fn identifier(sequence: u64, ts_ns: u64) -> Seq<char> {
    hex(xxh3(identity_bytes(sequence, ts_ns)) as nat, 16)
}

/// Appends the bytes of `n`, least significant first.
fn push_bytes(out: &mut Vec<u8>, n: u64)
    ensures
        final(out)@ == old(out)@ + little_endian(n as nat, 8),
{
    let ghost start = out@;
    let mut rest: u64 = n;
    let mut left: u64 = 8;
    while left > 0
        invariant
            left <= 8,
            out@ + little_endian(rest as nat, left as nat) == start + little_endian(n as nat, 8),
        decreases left,
    {
        let ghost before = out@;
        out.push((rest % 256) as u8);
        assert(out@ + little_endian(rest as nat / 256, (left - 1) as nat) =~= before
            + little_endian(rest as nat, left as nat));
        rest = rest / 256;
        left = left - 1;
    }
    assert(out@ =~= start + little_endian(n as nat, 8));
}

/// The hexadecimal digit for `d`.
fn hex_digit(d: u64) -> (r: char)
    requires
        d < 16,
    ensures
        r == hex_char(d as nat),
{
    let digits: [char; 16] = [
        '0', '1', '2', '3', '4', '5', '6', '7', '8', '9', 'a', 'b', 'c', 'd', 'e', 'f',
    ];
    digits[d as usize]
}

/// The `width` low hexadecimal digits of `n`, written.
fn hex_text(n: u64, width: u64) -> (r: String)
    ensures
        r@ == hex(n as nat, width as nat),
    decreases width,
{
    if width == 0 {
        return String::new();
    }
    let mut out = hex_text(n / 16, width - 1);
    out.push(hex_digit(n % 16));
    out
}

/// The identifier of the event with this sequence number and timestamp, as 16
/// lowercase hexadecimal digits of a 64-bit hash.
pub fn event_id(sequence: u64, ts_ns: u64) -> (r: String)
    ensures
        r@ == identifier(sequence, ts_ns),
        r@.len() == 16,
{
    let mut bytes: Vec<u8> = Vec::new();
    push_bytes(&mut bytes, sequence);
    push_bytes(&mut bytes, ts_ns);
    assert(bytes@ =~= identity_bytes(sequence, ts_ns));
    let hash = hash_xxh3(&bytes);
    proof {
        lemma_hex_length(hash as nat, 16);
    }
    hex_text(hash, 16)
}

/// A hexadecimal text is as long as asked for.
proof fn lemma_hex_length(n: nat, width: nat)
    ensures
        hex(n, width).len() == width,
    decreases width,
{
    if width > 0 {
        lemma_hex_length(n / 16, (width - 1) as nat);
    }
}

/// Numbers with the same low hexadecimal digits agree modulo their range.
proof fn lemma_hex_injective(n: nat, m: nat, width: nat)
    requires
        hex(n, width) == hex(m, width),
        n < pow16(width),
        m < pow16(width),
    ensures
        n == m,
    decreases width,
{
    if width > 0 {
        let a = hex(n / 16, (width - 1) as nat);
        let b = hex(m / 16, (width - 1) as nat);
        assert(a.push(hex_char(n % 16)).drop_last() =~= a);
        assert(b.push(hex_char(m % 16)).drop_last() =~= b);
        assert(hex(n, width).last() == hex_char(n % 16));
        assert(hex(m, width).last() == hex_char(m % 16));
        lemma_hex_injective(n / 16, m / 16, (width - 1) as nat);
        assert(n % 16 == m % 16);
    }
}

/// Sixteen to the power of `n`.
pub open spec fn pow16(n: nat) -> nat
    decreases n,
{
    if n == 0 {
        1
    } else {
        16 * pow16((n - 1) as nat)
    }
}

/// Numbers with the same low bytes are equal within their range.
proof fn lemma_bytes_injective(n: nat, m: nat, width: nat)
    requires
        little_endian(n, width) == little_endian(m, width),
        n < pow16(2 * width),
        m < pow16(2 * width),
    ensures
        n == m,
    decreases width,
{
    if width > 0 {
        let w = (width - 1) as nat;
        assert(little_endian(n, width)[0] == (n % 256) as u8);
        assert(little_endian(m, width)[0] == (m % 256) as u8);
        assert(little_endian(n, width).drop_first() =~= little_endian(n / 256, w));
        assert(little_endian(m, width).drop_first() =~= little_endian(m / 256, w));
        assert(pow16(2 * width) == 256 * pow16(2 * w)) by {
            reveal_with_fuel(pow16, 3);
        }
        lemma_bytes_injective(n / 256, m / 256, w);
    } else {
        assert(pow16(0) == 1);
    }
}

/// The low bytes of a number are as many as asked for.
proof fn lemma_bytes_length(n: nat, width: nat)
    ensures
        little_endian(n, width).len() == width,
    decreases width,
{
    if width > 0 {
        lemma_bytes_length(n / 256, (width - 1) as nat);
    }
}

/// Two events share an identifier only where the hash of their counter and
/// timestamp collides; the hashed bytes themselves never do.
pub proof fn identifiers_differ_unless_hashes_collide(a: u64, at: u64, b: u64, bt: u64)
    ensures
        identity_bytes(a, at) == identity_bytes(b, bt) ==> a == b && at == bt,
        identifier(a, at) == identifier(b, bt) ==> xxh3(identity_bytes(a, at)) == xxh3(
            identity_bytes(b, bt),
        ),
{
    assert(pow16(16) == 0x1_0000_0000_0000_0000) by {
        reveal_with_fuel(pow16, 17);
    }
    if identity_bytes(a, at) == identity_bytes(b, bt) {
        let x = little_endian(a as nat, 8);
        let y = little_endian(b as nat, 8);
        let s = little_endian(at as nat, 8);
        let t = little_endian(bt as nat, 8);
        lemma_bytes_length(a as nat, 8);
        lemma_bytes_length(b as nat, 8);
        lemma_bytes_length(at as nat, 8);
        lemma_bytes_length(bt as nat, 8);
        assert((x + s).take(8) =~= x);
        assert((y + t).take(8) =~= y);
        assert((x + s).skip(8) =~= s);
        assert((y + t).skip(8) =~= t);
        lemma_bytes_injective(a as nat, b as nat, 8);
        lemma_bytes_injective(at as nat, bt as nat, 8);
    }
    if identifier(a, at) == identifier(b, bt) {
        lemma_hex_injective(
            xxh3(identity_bytes(a, at)) as nat,
            xxh3(identity_bytes(b, bt)) as nat,
            16,
        );
    }
}

} // verus!
