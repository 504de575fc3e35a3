//! Reading version 4 banks.

use crate::bytes::le_u32;
use crate::error::Error;
use crate::fsb::parse5::{bank_result_view, field_at};
use crate::fsb::{BankView, Codec, Encryption, Fsb4Mode, FsbBank, Sample, SampleView, Version};
use crate::text::{spec_from_utf8_lossy, string_from_utf8_lossy};
use vstd::prelude::*;

verus! {

/// The length of the fixed header of a version 4 file.
pub const FSB4_HEADER_SIZE: usize = 48;

/// The length of a sample header of a version 4 file.
pub const FSB4_ENTRY_SIZE: usize = 80;

/// The flag of the header that says that the samples are MPEG.
pub const FSB4_FLAG_MPEG: u32 = 0x0020_0000;

/// The length of `s` without the zero bytes at its end.
pub open spec fn trimmed_len(s: Seq<u8>) -> int
    decreases s.len(),
{
    if s.len() == 0 {
        0
    } else if s.last() == 0 {
        trimmed_len(s.drop_last())
    } else {
        s.len() as int
    }
}

/// `s` without the zero bytes at its end.
pub open spec fn trim_nuls(s: Seq<u8>) -> Seq<u8> {
    s.subrange(0, trimmed_len(s))
}

/// Where sample header `i` starts.
pub open spec fn entry_at(i: int) -> int {
    48 + 80 * i
}

/// The stored size of sample `i`.
pub open spec fn spec_v4_size(data: Seq<u8>, i: int) -> u32 {
    le_u32(data, entry_at(i) + 36)
}

/// Where the data of sample `i` starts: the samples lie one after the other
/// from `base` on.
pub open spec fn spec_v4_offset(data: Seq<u8>, base: int, i: nat) -> int
    decreases i,
{
    if i == 0 {
        base
    } else {
        spec_v4_offset(data, base, (i - 1) as nat) + spec_v4_size(data, i - 1)
    }
}

/// The codec that the header's flags name.
pub open spec fn spec_v4_codec(flags: u32) -> Codec {
    if flags & FSB4_FLAG_MPEG != 0 {
        Codec::Mpeg
    } else {
        Codec::Pcm16
    }
}

/// The sample that header `i` describes, its data starting at `offset`. The
/// name is the 30-byte name field without the zero bytes at its end, decoded
/// with replacement characters; a stored frequency of 0 stands for 44100 Hz;
/// the loop points count only where the mode has the loop flag.
pub open spec fn spec_v4_entry(data: Seq<u8>, i: int, offset: int) -> SampleView {
    let at = entry_at(i);
    let mode = Fsb4Mode(le_u32(data, at + 48));
    let freq = le_u32(data, at + 52);
    SampleView {
        index: i,
        name: Some(spec_from_utf8_lossy(trim_nuls(data.subrange(at + 2, at + 32)))),
        frequency: if freq > 0 {
            freq
        } else {
            44100
        },
        channels: if mode.spec_is_stereo() {
            2
        } else {
            1
        },
        samples: le_u32(data, at + 32) as u64,
        data_offset: offset as u64,
        data_size: spec_v4_size(data, i) as u64,
        loop_start: if mode.spec_has_loop_points() {
            Some(le_u32(data, at + 40))
        } else {
            None
        },
        loop_end: if mode.spec_has_loop_points() {
            Some(le_u32(data, at + 44))
        } else {
            None
        },
        vorbis_crc: None,
        vorbis_seek_table: None,
        mode: Some(mode),
    }
}

/// The samples of a version 4 file with `count` sample headers.
pub open spec fn spec_v4_samples(data: Seq<u8>, base: int, count: nat) -> Seq<SampleView> {
    Seq::new(count, |i: int| spec_v4_entry(data, i, spec_v4_offset(data, base, i as nat)))
}

/// The bank that a version 4 file holds. The sample headers must lie inside
/// the file, and so must the data of every sample.
pub open spec fn spec_parse_fsb4(data: Seq<u8>) -> Result<BankView, Error> {
    if data.len() < 48 {
        Err(Error::TooSmall)
    } else {
        let count = le_u32(data, 4);
        let shs = le_u32(data, 8);
        let flags = le_u32(data, 20);
        let base = 48 + shs;
        if entry_at(count as int) > data.len() {
            Err(Error::Truncated)
        } else if spec_v4_offset(data, base, count as nat) > data.len() {
            Err(Error::SampleOutOfBounds)
        } else {
            Ok(
                BankView {
                    version: Version::Fsb4,
                    codec: spec_v4_codec(flags),
                    samples: spec_v4_samples(data, base, count as nat),
                    encryption: Encryption::Plain,
                    data,
                    header_size: 48,
                    sample_headers_size: shs,
                    name_table_size: 0,
                    data_size: le_u32(data, 12),
                    flags,
                    fsb5_mode: 0,
                },
            )
        }
    }
}

/// The samples lie one after the other: no sample starts before the one
/// before it.
pub proof fn lemma_v4_offset_grows(data: Seq<u8>, base: int, i: nat, k: nat)
    requires
        i <= k,
    ensures
        spec_v4_offset(data, base, i) <= spec_v4_offset(data, base, k),
    decreases k - i,
{
    if i < k {
        lemma_v4_offset_grows(data, base, i, (k - 1) as nat);
    }
}

/// A bank that was parsed from a version 4 file meets the bank invariant.
pub proof fn lemma_parse_fsb4_wf(data: Seq<u8>)
    requires
        spec_parse_fsb4(data) is Ok,
        data.len() <= u64::MAX,
    ensures
        spec_parse_fsb4(data)->Ok_0.wf(),
{
    let b = spec_parse_fsb4(data)->Ok_0;
    let count = le_u32(data, 4);
    let base = 48 + le_u32(data, 8);
    assert forall|i: int| 0 <= i < b.samples.len() implies {
        &&& (#[trigger] b.samples[i]).index == i
        &&& b.samples[i].data_offset == spec_v4_offset(data, base, i as nat)
        &&& b.samples[i].data_end() == spec_v4_offset(data, base, (i + 1) as nat)
        &&& b.samples[i].data_end() <= data.len()
    } by {
        lemma_v4_offset_grows(data, base, i as nat, count as nat);
        lemma_v4_offset_grows(data, base, (i + 1) as nat, count as nat);
        lemma_v4_offset_grows(data, base, 0, i as nat);
        assert(spec_v4_offset(data, base, (i + 1) as nat) == spec_v4_offset(data, base, i as nat)
            + spec_v4_size(data, i));
    }
}

/// The length of the 30-byte name field at `at` without the zero bytes at
/// its end.
fn name_length(data: &[u8], at: usize) -> (r: usize)
    requires
        at + 30 <= data@.len(),
    ensures
        r == trimmed_len(data@.subrange(at as int, at + 30)),
        r <= 30,
{
    let ghost field = data@.subrange(at as int, at + 30);
    let len: usize = data.len();
    let mut k: usize = 30;
    assert(field.subrange(0, 30) =~= field);
    while k > 0 && data[at + k - 1] == 0
        invariant
            k <= 30,
            at + 30 <= data@.len(),
            len == data@.len(),
            field == data@.subrange(at as int, at + 30),
            trimmed_len(field) == trimmed_len(field.subrange(0, k as int)),
        decreases k,
    {
        assert(field.subrange(0, k as int).drop_last() =~= field.subrange(0, k - 1));
        k = k - 1;
    }
    proof {
        lemma_trimmed_prefix(field, k);
    }
    k
}

/// A prefix that is empty or ends in a byte other than zero has no zero
/// bytes to lose.
proof fn lemma_trimmed_prefix(field: Seq<u8>, k: usize)
    requires
        k <= field.len(),
        k > 0 ==> field[k - 1] != 0,
    ensures
        trimmed_len(field.subrange(0, k as int)) == k,
{
}

/// Reads sample header `i`, the data of its sample starting at `offset`.
fn parse_entry(data: &[u8], i: usize, offset: u64) -> (r: Sample)
    requires
        entry_at(i as int) + 80 <= data@.len(),
    ensures
        r@ == spec_v4_entry(data@, i as int, offset as int),
{
    let len: usize = data.len();
    let at: usize = 48 + 80 * i;
    let name_len: usize = name_length(data, at + 2);
    let field = vstd::slice::slice_subrange(data, at + 2, at + 2 + name_len);
    assert(field@ =~= trim_nuls(data@.subrange(at + 2, at + 32)));
    let name = string_from_utf8_lossy(field);
    let mode = Fsb4Mode(field_at(data, at + 48));
    let freq: u32 = field_at(data, at + 52);
    let has_loop = mode.has_loop_points();
    let channels: u32 = if mode.is_stereo() {
        2
    } else {
        1
    };
    Sample {
        index: i,
        name: Some(name),
        frequency: if freq > 0 {
            freq
        } else {
            44100
        },
        channels,
        samples: field_at(data, at + 32) as u64,
        data_offset: offset,
        data_size: field_at(data, at + 36) as u64,
        loop_start: if has_loop {
            Some(field_at(data, at + 40))
        } else {
            None
        },
        loop_end: if has_loop {
            Some(field_at(data, at + 44))
        } else {
            None
        },
        vorbis_crc: None,
        vorbis_seek_table: None,
        mode: Some(mode),
    }
}

/// Reads a version 4 bank.
pub fn parse_fsb4(data: Vec<u8>) -> (r: Result<FsbBank, Error>)
    ensures
        bank_result_view(r) == spec_parse_fsb4(data@),
        r matches Ok(b) ==> b@.wf(),
{
    let len: usize = data.len();
    if len < 48 {
        return Err(Error::TooSmall);
    }
    let count: u32 = field_at(data.as_slice(), 4);
    let shs: u32 = field_at(data.as_slice(), 8);
    let data_size: u32 = field_at(data.as_slice(), 12);
    let flags: u32 = field_at(data.as_slice(), 20);
    if count as u64 > (len as u64 - 48) / 80 {
        return Err(Error::Truncated);
    }
    let base: u64 = 48 + shs as u64;
    let mut samples: Vec<Sample> = Vec::new();
    let mut offset: u64 = base;
    let mut i: usize = 0;
    while i < count as usize
        invariant
            i <= count,
            len == data@.len(),
            entry_at(count as int) <= len,
            base == 48 + shs,
            count == le_u32(data@, 4),
            shs == le_u32(data@, 8),
            samples@.len() == i,
            offset == spec_v4_offset(data@, base as int, i as nat),
            offset <= len || i == 0,
            forall|j: int|
                0 <= j < i ==> (#[trigger] samples@[j])@ == spec_v4_entry(
                    data@,
                    j,
                    spec_v4_offset(data@, base as int, j as nat),
                ),
        decreases count - i,
    {
        let s = parse_entry(data.as_slice(), i, offset);
        let size: u64 = s.data_size;
        if offset > len as u64 || size > len as u64 - offset {
            proof {
                lemma_v4_offset_grows(data@, base as int, (i + 1) as nat, count as nat);
                assert(spec_v4_offset(data@, base as int, (i + 1) as nat) == spec_v4_offset(
                    data@,
                    base as int,
                    i as nat,
                ) + spec_v4_size(data@, i as int));
            }
            return Err(Error::SampleOutOfBounds);
        }
        offset = offset + size;
        samples.push(s);
        i = i + 1;
    }
    if offset > len as u64 {
        return Err(Error::SampleOutOfBounds);
    }
    let codec = if flags & FSB4_FLAG_MPEG != 0 {
        Codec::Mpeg
    } else {
        Codec::Pcm16
    };
    let ghost text = data@;
    let bank = FsbBank {
        version: Version::Fsb4,
        codec,
        samples,
        encryption: Encryption::Plain,
        data,
        header_size: 48,
        sample_headers_size: shs,
        name_table_size: 0,
        data_size,
        flags,
        fsb5_mode: 0,
    };
    proof {
        assert(bank@.samples =~= spec_v4_samples(text, base as int, count as nat));
        assert(spec_parse_fsb4(text) == Ok::<BankView, Error>(bank@));
        lemma_parse_fsb4_wf(text);
    }
    Ok(bank)
}

} // verus!
