//! Writing version 4 banks.

use crate::bytes::{
    bytes_result_view, lemma_push_part, push_range, push_u16_le, push_u32_le, push_zeros,
    u16_le_bytes, u32_le_bytes, zeros,
};
use crate::error::Error;
use crate::fsb::detect::fsb4_magic;
use crate::fsb::parse4::entry_at;
use crate::fsb::write5::{push_header_tail, push_magic, samples_in_buffer, spec_header_tail};
use crate::fsb::{BankView, FsbBank, SampleView};
use vstd::prelude::*;
use vstd::utf8::encode_utf8;

verus! {

/// The version number that is written into a version 4 header.
pub const FSB4_VERSION: u32 = 0x0004_0001;

/// The 30-byte name field of a sample header: the first 29 bytes of the
/// name at most, then zeros.
pub open spec fn spec_name_field(name: Option<Seq<char>>) -> Seq<u8> {
    let b = match name {
        Some(n) => encode_utf8(n),
        None => Seq::empty(),
    };
    let k = if b.len() < 29 {
        b.len() as int
    } else {
        29
    };
    b.subrange(0, k) + zeros((30 - k) as nat)
}

/// The last 24 bytes of a sample header that the buffer does not hold:
/// volume 255, pan 128, priority 128, the channel count, a minimal distance
/// of 1.0 and a maximal distance of 10000.0 as 32-bit floats, and zeros.
pub open spec fn spec_default_tail(channels: u32) -> Seq<u8> {
    u16_le_bytes(255) + u16_le_bytes(128) + u16_le_bytes(128) + u16_le_bytes(
        (channels % 0x1_0000) as u16,
    ) + seq![0x00u8, 0x00u8, 0x80u8, 0x3fu8] + seq![0x00u8, 0x40u8, 0x1cu8, 0x46u8] + zeros(8)
}

/// The last 24 bytes of sample header `i`: those that the buffer holds, so
/// that what they say is kept.
pub open spec fn spec_entry_tail(b: BankView, i: int) -> Seq<u8> {
    if entry_at(i) + 80 <= b.data.len() {
        b.data.subrange(entry_at(i) + 56, entry_at(i) + 80)
    } else {
        spec_default_tail(b.samples[i].channels)
    }
}

/// The mode word of a sample: the one it was read with, else one made from
/// the channel count.
pub open spec fn spec_v4_mode(s: SampleView) -> u32 {
    match s.mode {
        Some(m) => m.0,
        None => if s.channels == 2 {
            0x0040_0000
        } else {
            0x0002_0000
        },
    }
}

/// The first loop point that is stored: 0 where the sample has none.
pub open spec fn spec_v4_loop_start(s: SampleView) -> u32 {
    match s.loop_start {
        Some(v) => v,
        None => 0,
    }
}

/// The second loop point that is stored: the sample count where the sample
/// has none.
pub open spec fn spec_v4_loop_end(s: SampleView) -> u32 {
    match s.loop_end {
        Some(v) => v,
        None => (s.samples % 0x1_0000_0000) as u32,
    }
}

/// The 80 bytes of sample header `i`.
#[verifier::opaque]
pub open spec fn spec_v4_entry_bytes(b: BankView, i: int) -> Seq<u8> {
    let s = b.samples[i];
    u16_le_bytes(80) + spec_name_field(s.name) + u32_le_bytes((s.samples % 0x1_0000_0000) as u32)
        + u32_le_bytes((s.data_size % 0x1_0000_0000) as u32) + u32_le_bytes(spec_v4_loop_start(s))
        + u32_le_bytes(spec_v4_loop_end(s)) + u32_le_bytes(spec_v4_mode(s)) + u32_le_bytes(
        s.frequency,
    ) + spec_entry_tail(b, i)
}

/// The first `k` sample headers, one after the other.
pub open spec fn spec_v4_entries_upto(b: BankView, k: nat) -> Seq<u8>
    decreases k,
{
    if k == 0 {
        Seq::empty()
    } else {
        spec_v4_entries_upto(b, (k - 1) as nat) + spec_v4_entry_bytes(b, k - 1)
    }
}

/// The data of the first `k` samples, one after the other without gaps.
pub open spec fn spec_v4_data_upto(b: BankView, k: nat) -> Seq<u8>
    decreases k,
{
    if k == 0 {
        Seq::empty()
    } else {
        spec_v4_data_upto(b, (k - 1) as nat) + b.sample_bytes(k - 1)
    }
}

/// The fixed header of a version 4 file.
#[verifier::opaque]
pub open spec fn spec_header4(b: BankView) -> Seq<u8> {
    fsb4_magic() + u32_le_bytes(b.samples.len() as u32) + u32_le_bytes(
        (80 * b.samples.len()) as u32,
    ) + u32_le_bytes(spec_v4_data_upto(b, b.samples.len()).len() as u32) + u32_le_bytes(
        FSB4_VERSION,
    ) + u32_le_bytes(b.flags) + spec_header_tail(b.data, 24, 48)
}

/// The bank as a version 4 file: the header, the sample headers and the
/// samples' data. It fails where a sample lies outside the buffer, or where
/// the headers or the data are too long for the 32 bits of their size.
pub open spec fn spec_save_fsb4(b: BankView) -> Result<Seq<u8>, Error> {
    let n = b.samples.len();
    if !b.samples_in_buffer() {
        Err(Error::SampleOutOfBounds)
    } else if 80 * n > u32::MAX || spec_v4_data_upto(b, n).len() > u32::MAX {
        Err(Error::TooLarge)
    } else {
        Ok(spec_header4(b) + spec_v4_entries_upto(b, n) + spec_v4_data_upto(b, n))
    }
}

/// The sample headers are 80 bytes each.
pub proof fn lemma_v4_entries_len(b: BankView, k: nat)
    ensures
        spec_v4_entries_upto(b, k).len() == 80 * k,
    decreases k,
{
    if k > 0 {
        lemma_v4_entries_len(b, (k - 1) as nat);
        reveal(spec_v4_entry_bytes);
    }
}

/// Appends the 30-byte name field of a sample.
fn push_name_field(out: &mut Vec<u8>, name: &Option<String>)
    ensures
        final(out)@ == old(out)@ + spec_name_field(crate::fsb::parse5::name_view(*name)),
{
    match name {
        Some(n) => {
            let bytes = n.as_str().as_bytes();
            let k: usize = if bytes.len() < 29 {
                bytes.len()
            } else {
                29
            };
            push_range(out, bytes, 0, k);
            push_zeros(out, 30 - k);
            assert(out@ =~= old(out)@ + spec_name_field(Some(n@)));
        },
        None => {
            push_zeros(out, 30);
            assert(Seq::<u8>::empty().subrange(0, 0) =~= Seq::<u8>::empty());
            assert(out@ =~= old(out)@ + spec_name_field(None));
        },
    }
}

/// Appends the last 24 bytes of sample header `i`.
fn push_entry_tail(out: &mut Vec<u8>, bank: &FsbBank, i: usize)
    requires
        i < bank.samples@.len(),
        80 * bank.samples@.len() <= u32::MAX,
    ensures
        final(out)@ == old(out)@ + spec_entry_tail(bank@, i as int),
{
    let at: usize = 48 + 80 * i;
    if bank.data.len() >= 80 && at <= bank.data.len() - 80 {
        push_range(out, bank.data.as_slice(), at + 56, at + 80);
    } else {
        let channels: u32 = bank.samples[i].channels;
        assert(bank.samples@[i as int]@ == bank@.samples[i as int]);
        push_u16_le(out, 255);
        push_u16_le(out, 128);
        push_u16_le(out, 128);
        push_u16_le(out, (channels % 0x1_0000) as u16);
        out.push(0x00);
        out.push(0x00);
        out.push(0x80);
        out.push(0x3f);
        out.push(0x00);
        out.push(0x40);
        out.push(0x1c);
        out.push(0x46);
        push_zeros(out, 8);
        assert(out@ =~= old(out)@ + spec_default_tail(channels));
    }
}

/// Appends sample header `i`.
fn push_entry(out: &mut Vec<u8>, bank: &FsbBank, i: usize)
    requires
        i < bank.samples@.len(),
        80 * bank.samples@.len() <= u32::MAX,
    ensures
        final(out)@ == old(out)@ + spec_v4_entry_bytes(bank@, i as int),
{
    reveal(spec_v4_entry_bytes);
    let ghost base = out@;
    let s = &bank.samples[i];
    let ghost sv = bank@.samples[i as int];
    assert(s@ == sv);
    let count: u32 = (s.samples % 0x1_0000_0000) as u32;
    let size: u32 = (s.data_size % 0x1_0000_0000) as u32;
    let start: u32 = match s.loop_start {
        Some(v) => v,
        None => 0,
    };
    let end: u32 = match s.loop_end {
        Some(v) => v,
        None => count,
    };
    let mode: u32 = match s.mode {
        Some(m) => m.0,
        None => if s.channels == 2 {
            0x0040_0000
        } else {
            0x0002_0000
        },
    };
    push_u16_le(out, 80);
    let ghost a1 = u16_le_bytes(80);
    push_name_field(out, &s.name);
    let ghost a2 = a1 + spec_name_field(sv.name);
    proof {
        lemma_push_part(base, a1, spec_name_field(sv.name));
    }
    push_u32_le(out, count);
    let ghost a3 = a2 + u32_le_bytes(count);
    proof {
        lemma_push_part(base, a2, u32_le_bytes(count));
    }
    push_u32_le(out, size);
    let ghost a4 = a3 + u32_le_bytes(size);
    proof {
        lemma_push_part(base, a3, u32_le_bytes(size));
    }
    push_u32_le(out, start);
    let ghost a5 = a4 + u32_le_bytes(start);
    proof {
        lemma_push_part(base, a4, u32_le_bytes(start));
    }
    push_u32_le(out, end);
    let ghost a6 = a5 + u32_le_bytes(end);
    proof {
        lemma_push_part(base, a5, u32_le_bytes(end));
    }
    push_u32_le(out, mode);
    let ghost a7 = a6 + u32_le_bytes(mode);
    proof {
        lemma_push_part(base, a6, u32_le_bytes(mode));
    }
    push_u32_le(out, s.frequency);
    let ghost a8 = a7 + u32_le_bytes(s.frequency);
    proof {
        lemma_push_part(base, a7, u32_le_bytes(s.frequency));
    }
    push_entry_tail(out, bank, i);
    proof {
        lemma_push_part(base, a8, spec_entry_tail(bank@, i as int));
    }
}

/// Writes a bank as a version 4 file.
pub fn save_fsb4(bank: &FsbBank) -> (r: Result<Vec<u8>, Error>)
    ensures
        bytes_result_view(r) == spec_save_fsb4(bank@),
{
    let n: usize = bank.samples.len();
    let len: usize = bank.data.len();
    if !samples_in_buffer(bank) {
        return Err(Error::SampleOutOfBounds);
    }
    if n > 0xFFFF_FFFF / 80 {
        return Err(Error::TooLarge);
    }
    let mut audio: Vec<u8> = Vec::new();
    let mut i: usize = 0;
    while i < n
        invariant
            i <= n,
            n == bank.samples@.len(),
            len == bank.data@.len(),
            bank@.samples_in_buffer(),
            audio@ == spec_v4_data_upto(bank@, i as nat),
        decreases n - i,
    {
        let s = &bank.samples[i];
        let ghost sv = bank@.samples[i as int];
        assert(s@ == sv);
        assert(sv.data_end() <= len);
        push_range(
            &mut audio,
            bank.data.as_slice(),
            s.data_offset as usize,
            (s.data_offset + s.data_size) as usize,
        );
        i = i + 1;
    }
    if audio.len() > 0xFFFF_FFFF {
        return Err(Error::TooLarge);
    }
    let mut out: Vec<u8> = Vec::new();
    push_magic(&mut out, 0x34);
    push_u32_le(&mut out, n as u32);
    push_u32_le(&mut out, (80 * n) as u32);
    push_u32_le(&mut out, audio.len() as u32);
    push_u32_le(&mut out, FSB4_VERSION);
    push_u32_le(&mut out, bank.flags);
    push_header_tail(&mut out, bank.data.as_slice(), 24);
    assert(out@ =~= spec_header4(bank@)) by {
        reveal(spec_header4);
    }
    let ghost head = out@;
    let mut k: usize = 0;
    while k < n
        invariant
            k <= n,
            n == bank.samples@.len(),
            80 * n <= u32::MAX,
            out@ == head + spec_v4_entries_upto(bank@, k as nat),
        decreases n - k,
    {
        push_entry(&mut out, bank, k);
        k = k + 1;
        assert(out@ =~= head + spec_v4_entries_upto(bank@, k as nat));
    }
    out.extend_from_slice(audio.as_slice());
    assert(out@ =~= spec_header4(bank@) + spec_v4_entries_upto(bank@, n as nat)
        + spec_v4_data_upto(bank@, n as nat));
    Ok(out)
}

} // verus!
