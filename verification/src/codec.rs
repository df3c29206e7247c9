//! Big-endian packing and unpacking of fixed-width integers.
//!
//! Every wire format in this crate is built from these primitives. The spec
//! functions give the value of a field read at an offset of a byte sequence
//! and the bytes of a value; the executable functions compute them.

use vstd::prelude::*;

verus! {

/// The unsigned 16-bit value stored big-endian at `at`.
pub open spec fn u16_at(s: Seq<u8>, at: int) -> u16 {
    (s[at] as int * 0x100 + s[at + 1] as int) as u16
}

/// The unsigned 32-bit value stored big-endian at `at`.
pub open spec fn u32_at(s: Seq<u8>, at: int) -> u32 {
    (s[at] as int * 0x100_0000 + s[at + 1] as int * 0x1_0000 + s[at + 2] as int * 0x100 + s[at
        + 3] as int) as u32
}

/// The unsigned 64-bit value stored big-endian at `at`.
pub open spec fn u64_at(s: Seq<u8>, at: int) -> u64 {
    (u32_at(s, at) as int * 0x1_0000_0000 + u32_at(s, at + 4) as int) as u64
}

/// The two's-complement reading of a 32-bit pattern.
pub open spec fn as_signed32(u: u32) -> i32 {
    if u < 0x8000_0000 {
        u as i32
    } else {
        (u as int - 0x1_0000_0000) as i32
    }
}

/// The two's-complement reading of a 64-bit pattern.
pub open spec fn as_signed64(u: u64) -> i64 {
    if u < 0x8000_0000_0000_0000 {
        u as i64
    } else {
        (u as int - 0x1_0000_0000_0000_0000) as i64
    }
}

/// The 32-bit pattern of a signed value.
pub open spec fn as_unsigned32(v: i32) -> u32 {
    if v >= 0 {
        v as u32
    } else {
        (v as int + 0x1_0000_0000) as u32
    }
}

/// The 64-bit pattern of a signed value.
pub open spec fn as_unsigned64(v: i64) -> u64 {
    if v >= 0 {
        v as u64
    } else {
        (v as int + 0x1_0000_0000_0000_0000) as u64
    }
}

/// The signed 32-bit value stored big-endian at `at`.
pub open spec fn i32_at(s: Seq<u8>, at: int) -> i32 {
    as_signed32(u32_at(s, at))
}

/// The signed 64-bit value stored big-endian at `at`.
pub open spec fn i64_at(s: Seq<u8>, at: int) -> i64 {
    as_signed64(u64_at(s, at))
}

/// The two bytes of `v`, most significant first.
pub open spec fn u16_bytes(v: u16) -> Seq<u8> {
    seq![(v / 0x100) as u8, (v % 0x100) as u8]
}

/// The four bytes of `v`, most significant first.
pub open spec fn u32_bytes(v: u32) -> Seq<u8> {
    seq![
        (v / 0x100_0000) as u8,
        (v / 0x1_0000 % 0x100) as u8,
        (v / 0x100 % 0x100) as u8,
        (v % 0x100) as u8,
    ]
}

/// The eight bytes of `v`, most significant first.
pub open spec fn u64_bytes(v: u64) -> Seq<u8> {
    u32_bytes((v / 0x1_0000_0000) as u32) + u32_bytes((v % 0x1_0000_0000) as u32)
}

/// The four bytes of the two's-complement pattern of `v`.
pub open spec fn i32_bytes(v: i32) -> Seq<u8> {
    u32_bytes(as_unsigned32(v))
}

/// The eight bytes of the two's-complement pattern of `v`.
pub open spec fn i64_bytes(v: i64) -> Seq<u8> {
    u64_bytes(as_unsigned64(v))
}

/// The four base-256 digits of a number below 2^32 are its quotients and
/// remainders by the powers of 256.
proof fn lemma_digits_of_sum(a: int, b: int, c: int, d: int)
    requires
        0 <= a < 0x100,
        0 <= b < 0x100,
        0 <= c < 0x100,
        0 <= d < 0x100,
    ensures
        0 <= a * 0x100_0000 + b * 0x1_0000 + c * 0x100 + d < 0x1_0000_0000,
        (a * 0x100_0000 + b * 0x1_0000 + c * 0x100 + d) / 0x100_0000 == a,
        (a * 0x100_0000 + b * 0x1_0000 + c * 0x100 + d) / 0x1_0000 % 0x100 == b,
        (a * 0x100_0000 + b * 0x1_0000 + c * 0x100 + d) / 0x100 % 0x100 == c,
        (a * 0x100_0000 + b * 0x1_0000 + c * 0x100 + d) % 0x100 == d,
{
    let v = a * 0x100_0000 + b * 0x1_0000 + c * 0x100 + d;
    assert(v / 0x100_0000 == a);
    assert(v / 0x1_0000 == a * 0x100 + b);
    assert(v / 0x100 == a * 0x1_0000 + b * 0x100 + c);
}

/// A number below 2^32 is the sum of its four base-256 digits, each with its weight.
proof fn lemma_sum_of_digits(v: int)
    requires
        0 <= v < 0x1_0000_0000,
    ensures
        0 <= v / 0x100_0000 < 0x100,
        (v / 0x100_0000) * 0x100_0000 + (v / 0x1_0000 % 0x100) * 0x1_0000 + (v / 0x100 % 0x100)
            * 0x100 + v % 0x100 == v,
{
    let hi = v / 0x1_0000;
    let mid = v / 0x100;
    assert(v == mid * 0x100 + v % 0x100);
    assert(mid == hi * 0x100 + mid % 0x100);
    assert(hi == (v / 0x100_0000) * 0x100 + hi % 0x100);
}

/// Reading back a packed 16-bit value gives the value.
pub proof fn lemma_u16_pack_then_read(v: u16)
    ensures
        u16_bytes(v).len() == 2,
        u16_at(u16_bytes(v), 0) == v,
{
}

/// Reading back a packed 32-bit value gives the value.
pub proof fn lemma_u32_pack_then_read(v: u32)
    ensures
        u32_bytes(v).len() == 4,
        u32_at(u32_bytes(v), 0) == v,
{
    lemma_sum_of_digits(v as int);
}

/// Reading back a packed 64-bit value gives the value.
pub proof fn lemma_u64_pack_then_read(v: u64)
    ensures
        u64_bytes(v).len() == 8,
        u64_at(u64_bytes(v), 0) == v,
{
    let hi = (v / 0x1_0000_0000) as u32;
    let lo = (v % 0x1_0000_0000) as u32;
    let s = u64_bytes(v);
    lemma_u32_pack_then_read(hi);
    lemma_u32_pack_then_read(lo);
    assert(s.len() == 8);
    assert(s[0] == u32_bytes(hi)[0] && s[1] == u32_bytes(hi)[1] && s[2] == u32_bytes(hi)[2]
        && s[3] == u32_bytes(hi)[3]);
    assert(s[4] == u32_bytes(lo)[0] && s[5] == u32_bytes(lo)[1] && s[6] == u32_bytes(lo)[2]
        && s[7] == u32_bytes(lo)[3]);
    assert(u32_at(s, 0) == hi);
    assert(u32_at(s, 4) == lo);
}

/// Reading back a packed signed 32-bit value gives the value.
pub proof fn lemma_i32_pack_then_read(v: i32)
    ensures
        i32_bytes(v).len() == 4,
        i32_at(i32_bytes(v), 0) == v,
{
    lemma_u32_pack_then_read(as_unsigned32(v));
}

/// Reading back a packed signed 64-bit value gives the value.
pub proof fn lemma_i64_pack_then_read(v: i64)
    ensures
        i64_bytes(v).len() == 8,
        i64_at(i64_bytes(v), 0) == v,
{
    lemma_u64_pack_then_read(as_unsigned64(v));
}

/// Packing the 16-bit value read at `at` gives the two bytes there.
pub proof fn lemma_u16_read_then_pack(s: Seq<u8>, at: int)
    requires
        0 <= at,
        at + 2 <= s.len(),
    ensures
        u16_bytes(u16_at(s, at)) == s.subrange(at, at + 2),
{
    assert(u16_bytes(u16_at(s, at)) =~= s.subrange(at, at + 2));
}

/// Packing the 32-bit value read at `at` gives the four bytes there.
pub proof fn lemma_u32_read_then_pack(s: Seq<u8>, at: int)
    requires
        0 <= at,
        at + 4 <= s.len(),
    ensures
        u32_bytes(u32_at(s, at)) == s.subrange(at, at + 4),
        i32_bytes(i32_at(s, at)) == s.subrange(at, at + 4),
{
    lemma_digits_of_sum(s[at] as int, s[at + 1] as int, s[at + 2] as int, s[at + 3] as int);
    let v = u32_at(s, at);
    let p = u32_bytes(v);
    assert(p[0] == s[at] && p[1] == s[at + 1] && p[2] == s[at + 2] && p[3] == s[at + 3]);
    assert(p =~= s.subrange(at, at + 4));
    assert(as_unsigned32(as_signed32(v)) == v);
}

/// Packing the 64-bit value read at `at` gives the eight bytes there.
pub proof fn lemma_u64_read_then_pack(s: Seq<u8>, at: int)
    requires
        0 <= at,
        at + 8 <= s.len(),
    ensures
        u64_bytes(u64_at(s, at)) == s.subrange(at, at + 8),
        i64_bytes(i64_at(s, at)) == s.subrange(at, at + 8),
{
    lemma_u32_read_then_pack(s, at);
    lemma_u32_read_then_pack(s, at + 4);
    let v = u64_at(s, at);
    assert((v / 0x1_0000_0000) as u32 == u32_at(s, at));
    assert((v % 0x1_0000_0000) as u32 == u32_at(s, at + 4));
    assert(u64_bytes(v) =~= s.subrange(at, at + 4) + s.subrange(at + 4, at + 8));
    assert(u64_bytes(v) =~= s.subrange(at, at + 8));
    assert(as_unsigned64(as_signed64(v)) == v);
}

/// Reads an unsigned 16-bit field, or `None` where the buffer ends before it.
pub fn read_u16(buf: &[u8], at: usize) -> (r: Option<u16>)
    ensures
        r is Some <==> at + 2 <= buf@.len(),
        r is Some ==> r->0 == u16_at(buf@, at as int),
{
    if buf.len() < 2 || at > buf.len() - 2 {
        return None;
    }
    Some(buf[at] as u16 * 0x100 + buf[at + 1] as u16)
}

/// Reads an unsigned 32-bit field, or `None` where the buffer ends before it.
pub fn read_u32(buf: &[u8], at: usize) -> (r: Option<u32>)
    ensures
        r is Some <==> at + 4 <= buf@.len(),
        r is Some ==> r->0 == u32_at(buf@, at as int),
{
    if buf.len() < 4 || at > buf.len() - 4 {
        return None;
    }
    Some(
        buf[at] as u32 * 0x100_0000 + buf[at + 1] as u32 * 0x1_0000 + buf[at + 2] as u32 * 0x100
            + buf[at + 3] as u32,
    )
}

/// Reads an unsigned 64-bit field, or `None` where the buffer ends before it.
pub fn read_u64(buf: &[u8], at: usize) -> (r: Option<u64>)
    ensures
        r is Some <==> at + 8 <= buf@.len(),
        r is Some ==> r->0 == u64_at(buf@, at as int),
{
    if buf.len() < 8 || at > buf.len() - 8 {
        return None;
    }
    let hi = read_u32(buf, at);
    let lo = read_u32(buf, at + 4);
    match (hi, lo) {
        (Some(hi), Some(lo)) => Some(hi as u64 * 0x1_0000_0000 + lo as u64),
        _ => None,
    }
}

/// Reads a signed 32-bit field, or `None` where the buffer ends before it.
pub fn read_i32(buf: &[u8], at: usize) -> (r: Option<i32>)
    ensures
        r is Some <==> at + 4 <= buf@.len(),
        r is Some ==> r->0 == i32_at(buf@, at as int),
{
    match read_u32(buf, at) {
        Some(u) => Some(to_signed32(u)),
        None => None,
    }
}

/// Reads a signed 64-bit field, or `None` where the buffer ends before it.
pub fn read_i64(buf: &[u8], at: usize) -> (r: Option<i64>)
    ensures
        r is Some <==> at + 8 <= buf@.len(),
        r is Some ==> r->0 == i64_at(buf@, at as int),
{
    match read_u64(buf, at) {
        Some(u) => Some(to_signed64(u)),
        None => None,
    }
}

/// The signed value with the bit pattern of `u`.
pub fn to_signed32(u: u32) -> (r: i32)
    ensures
        r == as_signed32(u),
{
    if u < 0x8000_0000 {
        u as i32
    } else {
        (u as i64 - 0x1_0000_0000) as i32
    }
}

/// The signed value with the bit pattern of `u`.
pub fn to_signed64(u: u64) -> (r: i64)
    ensures
        r == as_signed64(u),
{
    if u < 0x8000_0000_0000_0000 {
        u as i64
    } else {
        (u as i128 - 0x1_0000_0000_0000_0000) as i64
    }
}

/// The bit pattern of `v` as an unsigned value.
pub fn to_unsigned32(v: i32) -> (r: u32)
    ensures
        r == as_unsigned32(v),
{
    if v >= 0 {
        v as u32
    } else {
        (v as i64 + 0x1_0000_0000) as u32
    }
}

/// The bit pattern of `v` as an unsigned value.
pub fn to_unsigned64(v: i64) -> (r: u64)
    ensures
        r == as_unsigned64(v),
{
    if v >= 0 {
        v as u64
    } else {
        (v as i128 + 0x1_0000_0000_0000_0000) as u64
    }
}

/// Appends the two bytes of `v`.
pub fn push_u16(buf: &mut Vec<u8>, v: u16)
    ensures
        final(buf)@ == old(buf)@ + u16_bytes(v),
{
    buf.push((v / 0x100) as u8);
    buf.push((v % 0x100) as u8);
    assert(buf@ =~= old(buf)@ + u16_bytes(v));
}

/// Appends the four bytes of `v`.
pub fn push_u32(buf: &mut Vec<u8>, v: u32)
    ensures
        final(buf)@ == old(buf)@ + u32_bytes(v),
{
    buf.push((v / 0x100_0000) as u8);
    buf.push((v / 0x1_0000 % 0x100) as u8);
    buf.push((v / 0x100 % 0x100) as u8);
    buf.push((v % 0x100) as u8);
    assert(buf@ =~= old(buf)@ + u32_bytes(v));
}

/// Appends the eight bytes of `v`.
pub fn push_u64(buf: &mut Vec<u8>, v: u64)
    ensures
        final(buf)@ == old(buf)@ + u64_bytes(v),
{
    push_u32(buf, (v / 0x1_0000_0000) as u32);
    push_u32(buf, (v % 0x1_0000_0000) as u32);
    assert(buf@ =~= old(buf)@ + u64_bytes(v));
}

/// Appends the four bytes of `v` in two's complement.
pub fn push_i32(buf: &mut Vec<u8>, v: i32)
    ensures
        final(buf)@ == old(buf)@ + i32_bytes(v),
{
    push_u32(buf, to_unsigned32(v));
}

/// Appends the eight bytes of `v` in two's complement.
pub fn push_i64(buf: &mut Vec<u8>, v: i64)
    ensures
        final(buf)@ == old(buf)@ + i64_bytes(v),
{
    push_u64(buf, to_unsigned64(v));
}

/// Appends a copy of `bytes`.
pub fn push_all(buf: &mut Vec<u8>, bytes: &[u8])
    ensures
        final(buf)@ == old(buf)@ + bytes@,
{
    buf.extend_from_slice(bytes);
}

/// A copy of `buf[from..to]`, or `None` where the range does not lie in the buffer.
pub fn copy_range(buf: &[u8], from: usize, to: usize) -> (r: Option<Vec<u8>>)
    ensures
        r is Some <==> from <= to <= buf@.len(),
        r is Some ==> r->0@ == buf@.subrange(from as int, to as int),
{
    if from > to || to > buf.len() {
        return None;
    }
    let mut out: Vec<u8> = Vec::new();
    let mut i: usize = from;
    while i < to
        invariant
            from <= i <= to <= buf@.len(),
            out@ == buf@.subrange(from as int, i as int),
        decreases to - i,
    {
        out.push(buf[i]);
        i = i + 1;
        assert(out@ =~= buf@.subrange(from as int, i as int));
    }
    Some(out)
}

/// Whether two buffers hold the same bytes.
pub fn same_bytes(a: &[u8], b: &[u8]) -> (r: bool)
    ensures
        r == (a@ == b@),
{
    if a.len() != b.len() {
        return false;
    }
    let mut i: usize = 0;
    while i < a.len()
        invariant
            i <= a@.len(),
            a@.len() == b@.len(),
            forall|k: int| 0 <= k < i ==> a@[k] == b@[k],
        decreases a@.len() - i,
    {
        if a[i] != b[i] {
            return false;
        }
        i = i + 1;
    }
    assert(a@ =~= b@);
    true
}

} // verus!
