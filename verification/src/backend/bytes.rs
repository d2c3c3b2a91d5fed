//! Numbers as sequences of bytes, least significant byte first.
use vstd::prelude::*;

verus! {

/// The `n` low bytes of `v`, least significant first.
pub open spec fn le_bytes(v: int, n: nat) -> Seq<u8>
    decreases n,
{
    if n == 0 {
        Seq::empty()
    } else {
        seq![(v % 256) as u8] + le_bytes(v / 256, (n - 1) as nat)
    }
}

/// The number that the bytes stand for.
pub open spec fn le_value(bytes: Seq<u8>) -> int
    decreases bytes.len(),
{
    if bytes.len() == 0 {
        0
    } else {
        bytes[0] + 256 * le_value(bytes.skip(1))
    }
}

pub open spec fn le_16(v: u16) -> Seq<u8> {
    le_bytes(v as int, 2)
}

pub open spec fn le_32(v: u32) -> Seq<u8> {
    le_bytes(v as int, 4)
}

pub open spec fn le_64(v: u64) -> Seq<u8> {
    le_bytes(v as int, 8)
}

/// The two's complement of a signed number in 32 bits.
pub open spec fn twos_32(v: int) -> u32 {
    (v % 0x1_0000_0000) as u32
}

pub proof fn le_bytes_len(v: int, n: nat)
    ensures
        le_bytes(v, n).len() == n,
    decreases n,
{
    if n > 0 {
        le_bytes_len(v / 256, (n - 1) as nat);
    }
}

/// Reading back what was written gives the number modulo the width.
pub proof fn le_round_trip(v: int, n: nat)
    requires
        v >= 0,
    ensures
        n == 1 ==> le_value(le_bytes(v, n)) == v % 0x100,
        n == 2 ==> le_value(le_bytes(v, n)) == v % 0x1_0000,
        n == 4 ==> le_value(le_bytes(v, n)) == v % 0x1_0000_0000,
        n == 8 ==> le_value(le_bytes(v, n)) == v % 0x1_0000_0000_0000_0000,
{
    le_round_trip_step(v, n);
    if n > 0 {
        le_round_trip_step(v / 256, (n - 1) as nat);
    }
    if n > 1 {
        le_round_trip_step(v / 256 / 256, (n - 2) as nat);
    }
    if n > 2 {
        le_round_trip_step(v / 256 / 256 / 256, (n - 3) as nat);
    }
    if n > 3 {
        le_round_trip_step(v / 256 / 256 / 256 / 256, (n - 4) as nat);
    }
    if n > 4 {
        le_round_trip_step(v / 256 / 256 / 256 / 256 / 256, (n - 5) as nat);
    }
    if n > 5 {
        le_round_trip_step(v / 256 / 256 / 256 / 256 / 256 / 256, (n - 6) as nat);
    }
    if n > 6 {
        le_round_trip_step(v / 256 / 256 / 256 / 256 / 256 / 256 / 256, (n - 7) as nat);
    }
}

proof fn le_round_trip_step(v: int, n: nat)
    requires
        v >= 0,
    ensures
        n > 0 ==> le_value(le_bytes(v, n)) == v % 256 + 256 * le_value(
            le_bytes(v / 256, (n - 1) as nat),
        ),
        n == 0 ==> le_value(le_bytes(v, n)) == 0,
{
    if n > 0 {
        let rest = le_bytes(v / 256, (n - 1) as nat);
        assert(le_bytes(v, n).skip(1) =~= rest);
        assert(le_bytes(v, n)[0] == (v % 256) as u8);
    }
}

/// The number in the `n` bytes from `at` on.
pub open spec fn field(bytes: Seq<u8>, at: int, n: int) -> int {
    le_value(bytes.subrange(at, at + n))
}

/// How many numbers there are of `n` bytes.
pub open spec fn width(n: nat) -> int {
    if n == 1 {
        0x100
    } else if n == 2 {
        0x1_0000
    } else if n == 4 {
        0x1_0000_0000
    } else {
        0x1_0000_0000_0000_0000
    }
}

/// A number that fits is read where it was written, whatever stands around it.
pub proof fn fields_read_back(before: Seq<u8>, v: int, n: nat, after: Seq<u8>)
    requires
        n == 1 || n == 2 || n == 4 || n == 8,
        0 <= v < width(n),
    ensures
        field(before + le_bytes(v, n) + after, before.len() as int, n as int) == v,
{
    le_bytes_len(v, n);
    le_round_trip(v, n);
    let at = before.len() as int;
    assert((before + le_bytes(v, n) + after).subrange(at, at + n) =~= le_bytes(v, n));
}

/// A byte is read where it was written.
pub proof fn byte_reads_back(before: Seq<u8>, b: u8, after: Seq<u8>)
    ensures
        field(before + seq![b] + after, before.len() as int, 1) == b,
{
    let at = before.len() as int;
    let one = (before + seq![b] + after).subrange(at, at + 1);
    assert(one =~= seq![b]);
    assert(one.skip(1) =~= Seq::empty());
    reveal_with_fuel(le_value, 2);
}

/// A field of a part is the field of the whole.
pub proof fn part_of_whole(whole: Seq<u8>, at: int, part: Seq<u8>, offset: int, n: int)
    requires
        0 <= at,
        at + part.len() <= whole.len(),
        whole.subrange(at, at + part.len()) =~= part,
        0 <= offset,
        0 <= n,
        offset + n <= part.len(),
    ensures
        field(whole, at + offset, n) == field(part, offset, n),
{
    assert(whole.subrange(at + offset, at + offset + n) =~= part.subrange(offset, offset + n));
}

/// The lowest byte comes first: byte `k` of what is written is digit `k` of the
/// number to the base 256.
pub proof fn low_bytes_come_first(v: int, n: nat, k: nat)
    requires
        v >= 0,
        k < n,
    ensures
        le_bytes(v, n).len() == n,
        le_bytes(v, n)[k as int] == v / vstd::arithmetic::power::pow(256, k) % 256,
    decreases n,
{
    le_bytes_len(v, n);
    vstd::arithmetic::power::lemma_pow0(256);
    if k > 0 {
        low_bytes_come_first(v / 256, (n - 1) as nat, (k - 1) as nat);
        let p = vstd::arithmetic::power::pow(256, (k - 1) as nat);
        vstd::arithmetic::power::lemma_pow_positive(256, (k - 1) as nat);
        assert(vstd::arithmetic::power::pow(256, k) == 256 * p) by {
            reveal(vstd::arithmetic::power::pow);
        }
        vstd::arithmetic::div_mod::lemma_div_denominator(v, 256, p);
        assert(le_bytes(v, n)[k as int] == le_bytes(v / 256, (n - 1) as nat)[k - 1]);
    }
}

/// Appending one after the other is appending the whole.
pub proof fn lemma_concat(t: Seq<u8>, a: Seq<u8>, b: Seq<u8>, c: Seq<u8>, d: Seq<u8>)
    ensures
        t + a + b == t + (a + b),
        t + a + b + c == t + (a + b + c),
        t + a + b + c + d == t + (a + b + c + d),
{
    assert(t + a + b =~= t + (a + b));
    assert(t + a + b + c =~= t + (a + b + c));
    assert(t + a + b + c + d =~= t + (a + b + c + d));
}

pub fn push_all(text: &mut Vec<u8>, bytes: &[u8])
    ensures
        final(text)@ == old(text)@ + bytes@,
{
    let ghost before = text@;
    let mut i: usize = 0;
    while i < bytes.len()
        invariant
            i <= bytes@.len(),
            text@ =~= before + bytes@.take(i as int),
        decreases bytes.len() - i,
    {
        text.push(bytes[i]);
        i += 1;
    }
    assert(bytes@.take(i as int) =~= bytes@);
}

pub fn push_u16(text: &mut Vec<u8>, v: u16)
    ensures
        final(text)@ == old(text)@ + le_16(v),
{
    reveal_with_fuel(le_bytes, 3);
    text.push((v % 256) as u8);
    text.push((v / 256) as u8);
}

pub fn push_u32(text: &mut Vec<u8>, v: u32)
    ensures
        final(text)@ == old(text)@ + le_32(v),
{
    reveal_with_fuel(le_bytes, 5);
    text.push((v % 256) as u8);
    text.push((v / 256 % 256) as u8);
    text.push((v / 256 / 256 % 256) as u8);
    text.push((v / 256 / 256 / 256) as u8);
}

pub fn push_u64(text: &mut Vec<u8>, v: u64)
    ensures
        final(text)@ == old(text)@ + le_64(v),
{
    reveal_with_fuel(le_bytes, 9);
    text.push((v % 256) as u8);
    text.push((v / 256 % 256) as u8);
    text.push((v / 256 / 256 % 256) as u8);
    text.push((v / 256 / 256 / 256 % 256) as u8);
    text.push((v / 256 / 256 / 256 / 256 % 256) as u8);
    text.push((v / 256 / 256 / 256 / 256 / 256 % 256) as u8);
    text.push((v / 256 / 256 / 256 / 256 / 256 / 256 % 256) as u8);
    text.push((v / 256 / 256 / 256 / 256 / 256 / 256 / 256 % 256) as u8);
}

/// Overwrites four bytes.
pub fn write_u32(text: &mut Vec<u8>, at: usize, v: u32)
    requires
        at + 4 <= old(text)@.len(),
    ensures
        final(text)@ == old(text)@.take(at as int) + le_32(v) + old(text)@.skip(at + 4),
{
    reveal_with_fuel(le_bytes, 5);
    let ghost before = text@;
    let len: usize = text.len();
    assert(at + 4 <= len);
    text.set(at, (v % 256) as u8);
    text.set(at + 1, (v / 256 % 256) as u8);
    text.set(at + 2, (v / 256 / 256 % 256) as u8);
    text.set(at + 3, (v / 256 / 256 / 256) as u8);
    assert(text@ =~= before.take(at as int) + le_32(v) + before.skip(at + 4));
}

/// The number can be written as a signed 32-bit number.
pub open spec fn fits_i32(v: int) -> bool {
    -0x8000_0000 <= v < 0x8000_0000
}

pub fn is_i32(v: i64) -> (fits: bool)
    ensures
        fits == fits_i32(v as int),
{
    -0x8000_0000 <= v && v < 0x8000_0000
}

/// The bit pattern of a signed number.
pub fn bits_of_i32(v: i32) -> (bits: u32)
    ensures
        bits == twos_32(v as int),
{
    if v >= 0 {
        v as u32
    } else {
        (0x1_0000_0000i64 + v as i64) as u32
    }
}

/// The signed number of a bit pattern.
pub open spec fn signed_32(v: u32) -> int {
    if v < 0x8000_0000 {
        v as int
    } else {
        v - 0x1_0000_0000
    }
}

pub fn i32_of_bits(v: u32) -> (r: i32)
    ensures
        r == signed_32(v),
{
    if v < 0x8000_0000 {
        v as i32
    } else {
        (v as i64 - 0x1_0000_0000i64) as i32
    }
}

/// Writing a signed number and reading it back gives the number.
pub proof fn signed_round_trip(v: i32, w: u32)
    ensures
        signed_32(twos_32(v as int)) == v,
        twos_32(signed_32(w)) == w,
{
}

} // verus!
