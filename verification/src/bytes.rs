//! Integers in byte buffers: reading and writing them in either byte order.

use crate::error::Error;
use vstd::arithmetic::div_mod::lemma_fundamental_div_mod_converse;
use vstd::prelude::*;

verus! {

/// The 16-bit value stored little-endian in `s` at index `at`.
pub open spec fn le_u16(s: Seq<u8>, at: int) -> u16 {
    (s[at] as int + s[at + 1] as int * 0x100) as u16
}

/// The 32-bit value stored little-endian in `s` at index `at`.
pub open spec fn le_u32(s: Seq<u8>, at: int) -> u32 {
    (s[at] as int + s[at + 1] as int * 0x100 + s[at + 2] as int * 0x1_0000 + s[at + 3] as int
        * 0x100_0000) as u32
}

/// The 64-bit value stored little-endian in `s` at index `at`.
pub open spec fn le_u64(s: Seq<u8>, at: int) -> u64 {
    (le_u32(s, at) as int + le_u32(s, at + 4) as int * 0x1_0000_0000) as u64
}

/// The 32-bit value stored big-endian in `s` at index `at`.
pub open spec fn be_u32(s: Seq<u8>, at: int) -> u32 {
    (s[at] as int * 0x100_0000 + s[at + 1] as int * 0x1_0000 + s[at + 2] as int * 0x100 + s[at
        + 3] as int) as u32
}

/// The 64-bit value stored big-endian in `s` at index `at`.
pub open spec fn be_u64(s: Seq<u8>, at: int) -> u64 {
    (be_u32(s, at) as int * 0x1_0000_0000 + be_u32(s, at + 4) as int) as u64
}

/// The two bytes that hold `v` little-endian.
pub open spec fn u16_le_bytes(v: u16) -> Seq<u8> {
    seq![(v % 0x100) as u8, (v / 0x100) as u8]
}

/// The four bytes that hold `v` little-endian.
pub open spec fn u32_le_bytes(v: u32) -> Seq<u8> {
    seq![
        (v % 0x100) as u8,
        (v / 0x100 % 0x100) as u8,
        (v / 0x1_0000 % 0x100) as u8,
        (v / 0x100_0000) as u8,
    ]
}

/// The eight bytes that hold `v` little-endian.
pub open spec fn u64_le_bytes(v: u64) -> Seq<u8> {
    u32_le_bytes((v % 0x1_0000_0000) as u32) + u32_le_bytes((v / 0x1_0000_0000) as u32)
}

/// The four bytes that hold `v` big-endian.
pub open spec fn u32_be_bytes(v: u32) -> Seq<u8> {
    seq![
        (v / 0x100_0000) as u8,
        (v / 0x1_0000 % 0x100) as u8,
        (v / 0x100 % 0x100) as u8,
        (v % 0x100) as u8,
    ]
}

/// The eight bytes that hold `v` big-endian.
pub open spec fn u64_be_bytes(v: u64) -> Seq<u8> {
    u32_be_bytes((v / 0x1_0000_0000) as u32) + u32_be_bytes((v % 0x1_0000_0000) as u32)
}

/// `n` zero bytes.
pub open spec fn zeros(n: nat) -> Seq<u8> {
    Seq::new(n, |i: int| 0u8)
}

/// A 32-bit value is the sum of its base-256 digits, each at its place.
pub proof fn lemma_u32_digits_sum(v: u32)
    ensures
        v == v % 0x100 + (v / 0x100 % 0x100) * 0x100 + (v / 0x1_0000 % 0x100) * 0x1_0000 + (v
            / 0x100_0000) * 0x100_0000,
        v / 0x100_0000 < 0x100,
{
    let x = v as int;
    let q1 = x / 0x100;
    let q2 = q1 / 0x100;
    let q3 = q2 / 0x100;
    assert(x == 0x100 * q1 + x % 0x100);
    assert(q1 == 0x100 * q2 + q1 % 0x100);
    assert(q2 == 0x100 * q3 + q2 % 0x100);
    lemma_fundamental_div_mod_converse(x, 0x1_0000, q2, (q1 % 0x100) * 0x100 + x % 0x100);
    lemma_fundamental_div_mod_converse(
        x,
        0x100_0000,
        q3,
        (q2 % 0x100) * 0x1_0000 + (q1 % 0x100) * 0x100 + x % 0x100,
    );
}

/// Reading back what `u32_le_bytes` wrote gives the value, wherever the bytes stand.
pub proof fn lemma_le_u32_of_bytes(s: Seq<u8>, at: int, v: u32)
    requires
        0 <= at,
        at + 4 <= s.len(),
        s.subrange(at, at + 4) == u32_le_bytes(v),
    ensures
        le_u32(s, at) == v,
{
    let t = s.subrange(at, at + 4);
    assert(t[0] == s[at] && t[1] == s[at + 1] && t[2] == s[at + 2] && t[3] == s[at + 3]);
    lemma_u32_digits_sum(v);
    assert(s[at] == (v % 0x100) as u8);
    assert(s[at + 1] == (v / 0x100 % 0x100) as u8);
    assert(s[at + 2] == (v / 0x1_0000 % 0x100) as u8);
    assert(s[at + 3] == (v / 0x100_0000) as u8);
}

/// Reading back what `u64_le_bytes` wrote gives the value, wherever the bytes stand.
pub proof fn lemma_le_u64_of_bytes(s: Seq<u8>, at: int, v: u64)
    requires
        0 <= at,
        at + 8 <= s.len(),
        s.subrange(at, at + 8) == u64_le_bytes(v),
    ensures
        le_u64(s, at) == v,
{
    let t = s.subrange(at, at + 8);
    let lo = (v % 0x1_0000_0000) as u32;
    let hi = (v / 0x1_0000_0000) as u32;
    assert(s.subrange(at, at + 4) =~= u32_le_bytes(lo)) by {
        assert forall|i: int| 0 <= i < 4 implies s.subrange(at, at + 4)[i] == u32_le_bytes(lo)[i] by {
            assert(t[i] == s[at + i]);
        }
    }
    assert(s.subrange(at + 4, at + 8) =~= u32_le_bytes(hi)) by {
        assert forall|i: int| 0 <= i < 4 implies s.subrange(at + 4, at + 8)[i] == u32_le_bytes(
            hi,
        )[i] by {
            assert(t[i + 4] == s[at + 4 + i]);
        }
    }
    lemma_le_u32_of_bytes(s, at, lo);
    lemma_le_u32_of_bytes(s, at + 4, hi);
}

/// The little-endian 16-bit value at `at`, if two bytes are there.
pub fn read_u16_le(data: &[u8], at: usize) -> (r: Option<u16>)
    ensures
        r == (if at + 2 <= data@.len() {
            Some(le_u16(data@, at as int))
        } else {
            None
        }),
{
    if data.len() < 2 || at > data.len() - 2 {
        return None;
    }
    let b0: u16 = data[at] as u16;
    let b1: u16 = data[at + 1] as u16;
    Some(b0 + b1 * 0x100)
}

/// The little-endian 32-bit value at `at`, if four bytes are there.
pub fn read_u32_le(data: &[u8], at: usize) -> (r: Option<u32>)
    ensures
        r == (if at + 4 <= data@.len() {
            Some(le_u32(data@, at as int))
        } else {
            None
        }),
{
    if data.len() < 4 || at > data.len() - 4 {
        return None;
    }
    let b0: u32 = data[at] as u32;
    let b1: u32 = data[at + 1] as u32;
    let b2: u32 = data[at + 2] as u32;
    let b3: u32 = data[at + 3] as u32;
    Some(b0 + b1 * 0x100 + b2 * 0x1_0000 + b3 * 0x100_0000)
}

/// The little-endian 64-bit value at `at`, if eight bytes are there.
pub fn read_u64_le(data: &[u8], at: usize) -> (r: Option<u64>)
    ensures
        r == (if at + 8 <= data@.len() {
            Some(le_u64(data@, at as int))
        } else {
            None
        }),
{
    if data.len() < 8 || at > data.len() - 8 {
        return None;
    }
    let lo: u64 = match read_u32_le(data, at) {
        Some(v) => v as u64,
        None => 0,
    };
    let hi: u64 = match read_u32_le(data, at + 4) {
        Some(v) => v as u64,
        None => 0,
    };
    Some(lo + hi * 0x1_0000_0000)
}

/// The big-endian 32-bit value at `at`, if four bytes are there.
pub fn read_u32_be(data: &[u8], at: usize) -> (r: Option<u32>)
    ensures
        r == (if at + 4 <= data@.len() {
            Some(be_u32(data@, at as int))
        } else {
            None
        }),
{
    if data.len() < 4 || at > data.len() - 4 {
        return None;
    }
    let b0: u32 = data[at] as u32;
    let b1: u32 = data[at + 1] as u32;
    let b2: u32 = data[at + 2] as u32;
    let b3: u32 = data[at + 3] as u32;
    Some(b0 * 0x100_0000 + b1 * 0x1_0000 + b2 * 0x100 + b3)
}

/// The big-endian 64-bit value at `at`, if eight bytes are there.
pub fn read_u64_be(data: &[u8], at: usize) -> (r: Option<u64>)
    ensures
        r == (if at + 8 <= data@.len() {
            Some(be_u64(data@, at as int))
        } else {
            None
        }),
{
    if data.len() < 8 || at > data.len() - 8 {
        return None;
    }
    let hi: u64 = match read_u32_be(data, at) {
        Some(v) => v as u64,
        None => 0,
    };
    let lo: u64 = match read_u32_be(data, at + 4) {
        Some(v) => v as u64,
        None => 0,
    };
    Some(hi * 0x1_0000_0000 + lo)
}

/// Appends `v` little-endian.
pub fn push_u16_le(out: &mut Vec<u8>, v: u16)
    ensures
        final(out)@ == old(out)@ + u16_le_bytes(v),
{
    out.push((v % 0x100) as u8);
    out.push((v / 0x100) as u8);
    assert(out@ =~= old(out)@ + u16_le_bytes(v));
}

/// Appends `v` little-endian.
pub fn push_u32_le(out: &mut Vec<u8>, v: u32)
    ensures
        final(out)@ == old(out)@ + u32_le_bytes(v),
{
    out.push((v % 0x100) as u8);
    out.push((v / 0x100 % 0x100) as u8);
    out.push((v / 0x1_0000 % 0x100) as u8);
    out.push((v / 0x100_0000) as u8);
    assert(out@ =~= old(out)@ + u32_le_bytes(v));
}

/// Appends `v` little-endian.
pub fn push_u64_le(out: &mut Vec<u8>, v: u64)
    ensures
        final(out)@ == old(out)@ + u64_le_bytes(v),
{
    push_u32_le(out, (v % 0x1_0000_0000) as u32);
    push_u32_le(out, (v / 0x1_0000_0000) as u32);
    assert(out@ =~= old(out)@ + u64_le_bytes(v));
}

/// Appends `v` big-endian.
pub fn push_u32_be(out: &mut Vec<u8>, v: u32)
    ensures
        final(out)@ == old(out)@ + u32_be_bytes(v),
{
    out.push((v / 0x100_0000) as u8);
    out.push((v / 0x1_0000 % 0x100) as u8);
    out.push((v / 0x100 % 0x100) as u8);
    out.push((v % 0x100) as u8);
    assert(out@ =~= old(out)@ + u32_be_bytes(v));
}

/// Appends `v` big-endian.
pub fn push_u64_be(out: &mut Vec<u8>, v: u64)
    ensures
        final(out)@ == old(out)@ + u64_be_bytes(v),
{
    push_u32_be(out, (v / 0x1_0000_0000) as u32);
    push_u32_be(out, (v % 0x1_0000_0000) as u32);
    assert(out@ =~= old(out)@ + u64_be_bytes(v));
}

/// Appends the bytes of `data` from `from` up to `to`.
pub fn push_range(out: &mut Vec<u8>, data: &[u8], from: usize, to: usize)
    requires
        from <= to <= data@.len(),
    ensures
        final(out)@ == old(out)@ + data@.subrange(from as int, to as int),
{
    let part = vstd::slice::slice_subrange(data, from, to);
    out.extend_from_slice(part);
    assert(out@ =~= old(out)@ + data@.subrange(from as int, to as int));
}

/// Appends `n` zero bytes.
pub fn push_zeros(out: &mut Vec<u8>, n: usize)
    ensures
        final(out)@ == old(out)@ + zeros(n as nat),
{
    let mut i: usize = 0;
    while i < n
        invariant
            i <= n,
            out@ == old(out)@ + zeros(i as nat),
        decreases n - i,
    {
        out.push(0u8);
        i = i + 1;
        assert(out@ =~= old(out)@ + zeros(i as nat));
    }
}

/// The 32-bit value at `at`, big-endian or little-endian.
pub open spec fn spec_u32(s: Seq<u8>, at: int, big_endian: bool) -> u32 {
    if big_endian {
        be_u32(s, at)
    } else {
        le_u32(s, at)
    }
}

/// The 64-bit value at `at`, big-endian or little-endian.
pub open spec fn spec_u64(s: Seq<u8>, at: int, big_endian: bool) -> u64 {
    if big_endian {
        be_u64(s, at)
    } else {
        le_u64(s, at)
    }
}

/// The 32-bit value at `at` in the given byte order, if four bytes are
/// there.
pub fn read_u32(data: &[u8], at: usize, big_endian: bool) -> (r: Option<u32>)
    ensures
        r == (if at + 4 <= data@.len() {
            Some(spec_u32(data@, at as int, big_endian))
        } else {
            None
        }),
{
    if big_endian {
        read_u32_be(data, at)
    } else {
        read_u32_le(data, at)
    }
}

/// The 64-bit value at `at` in the given byte order, if eight bytes are
/// there.
pub fn read_u64(data: &[u8], at: usize, big_endian: bool) -> (r: Option<u64>)
    ensures
        r == (if at + 8 <= data@.len() {
            Some(spec_u64(data@, at as int, big_endian))
        } else {
            None
        }),
{
    if big_endian {
        read_u64_be(data, at)
    } else {
        read_u64_le(data, at)
    }
}

/// The bytes that hold `v` in the given byte order.
pub open spec fn u32_bytes(v: u32, big_endian: bool) -> Seq<u8> {
    if big_endian {
        u32_be_bytes(v)
    } else {
        u32_le_bytes(v)
    }
}

/// The bytes that hold `v` in the given byte order.
pub open spec fn u64_bytes(v: u64, big_endian: bool) -> Seq<u8> {
    if big_endian {
        u64_be_bytes(v)
    } else {
        u64_le_bytes(v)
    }
}

/// Appends `v` in the given byte order.
pub fn push_u32(out: &mut Vec<u8>, v: u32, big_endian: bool)
    ensures
        final(out)@ == old(out)@ + u32_bytes(v, big_endian),
{
    if big_endian {
        push_u32_be(out, v);
    } else {
        push_u32_le(out, v);
    }
}

/// Appends `v` in the given byte order.
pub fn push_u64(out: &mut Vec<u8>, v: u64, big_endian: bool)
    ensures
        final(out)@ == old(out)@ + u64_bytes(v, big_endian),
{
    if big_endian {
        push_u64_be(out, v);
    } else {
        push_u64_le(out, v);
    }
}

/// Appending a part to what was appended before is appending the two
/// together.
pub proof fn lemma_push_part(base: Seq<u8>, acc: Seq<u8>, x: Seq<u8>)
    ensures
        (base + acc) + x == base + (acc + x),
        base + Seq::<u8>::empty() == base,
        Seq::<u8>::empty() + x == x,
{
    assert((base + acc) + x =~= base + (acc + x));
    assert(base + Seq::<u8>::empty() =~= base);
    assert(Seq::<u8>::empty() + x =~= x);
}

/// What a result that holds bytes says, over views.
pub open spec fn bytes_result_view(r: Result<Vec<u8>, Error>) -> Result<Seq<u8>, Error> {
    match r {
        Ok(v) => Ok(v@),
        Err(e) => Err(e),
    }
}

} // verus!
