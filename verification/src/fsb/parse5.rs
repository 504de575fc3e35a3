//! Reading version 5 banks.

use crate::bytes::{le_u32, le_u64, read_u32_le, read_u64_le};
use crate::error::Error;
use crate::fsb::detect::{decrypt_data, spec_decrypt_data};
use crate::fsb::word::{ChunkWord, SampleWord, CHUNK_LOOP, CHUNK_VORBIS};
use crate::fsb::{sample_views, BankView, Codec, Encryption, FsbBank, Sample, SampleView, Version};
use vstd::prelude::*;
use vstd::utf8::{decode_utf8, valid_utf8};

verus! {

/// The length of the fixed header of a version 5 file.
pub const FSB5_HEADER_SIZE: usize = 60;

/// The frequency that a frequency index stands for; the reserved indices
/// from 12 on stand for 44100 Hz.
pub open spec fn spec_frequency(index: u64) -> u32 {
    if index == 0 {
        4000
    } else if index == 1 {
        8000
    } else if index == 2 {
        11000
    } else if index == 3 {
        11025
    } else if index == 4 {
        16000
    } else if index == 5 {
        22050
    } else if index == 6 {
        24000
    } else if index == 7 {
        32000
    } else if index == 8 {
        44100
    } else if index == 9 {
        48000
    } else if index == 10 {
        96000
    } else if index == 11 {
        192000
    } else {
        44100
    }
}

/// Whether a frequency is one of the twelve of the frequency table.
pub open spec fn in_frequency_table(f: u32) -> bool {
    f == 4000 || f == 8000 || f == 11000 || f == 11025 || f == 16000 || f == 22050 || f == 24000
        || f == 32000 || f == 44100 || f == 48000 || f == 96000 || f == 192000
}

/// The index that stands for a frequency; a frequency that the table lacks
/// gets the index of 44100 Hz.
pub open spec fn spec_frequency_to_index(freq: u32) -> u64 {
    if freq == 4000 {
        0
    } else if freq == 8000 {
        1
    } else if freq == 11000 {
        2
    } else if freq == 11025 {
        3
    } else if freq == 16000 {
        4
    } else if freq == 22050 {
        5
    } else if freq == 24000 {
        6
    } else if freq == 32000 {
        7
    } else if freq == 44100 {
        8
    } else if freq == 48000 {
        9
    } else if freq == 96000 {
        10
    } else if freq == 192000 {
        11
    } else {
        8
    }
}

/// The frequency that a frequency index stands for.
pub fn frequency_of_index(index: u64) -> (r: u32)
    ensures
        r == spec_frequency(index),
{
    match index {
        0 => 4000,
        1 => 8000,
        2 => 11000,
        3 => 11025,
        4 => 16000,
        5 => 22050,
        6 => 24000,
        7 => 32000,
        8 => 44100,
        9 => 48000,
        10 => 96000,
        11 => 192000,
        _ => 44100,
    }
}

/// The index that stands for a frequency.
pub fn frequency_to_index(freq: u32) -> (r: usize)
    ensures
        r == spec_frequency_to_index(freq),
        r < 12,
        spec_frequency_to_index(spec_frequency(r as u64)) == r,
{
    match freq {
        4000 => 0,
        8000 => 1,
        11000 => 2,
        11025 => 3,
        16000 => 4,
        22050 => 5,
        24000 => 6,
        32000 => 7,
        44100 => 8,
        48000 => 9,
        96000 => 10,
        192000 => 11,
        _ => 8,
    }
}

/// What the chunks of one sample header say.
pub struct ChunkData {
    pub loop_start: Option<u32>,
    pub loop_end: Option<u32>,
    pub vorbis_crc: Option<u32>,
    pub vorbis_seek_table: Option<Seq<u32>>,
}

/// The chunks of one sample header, as they are read.
pub struct Chunks {
    pub loop_start: Option<u32>,
    pub loop_end: Option<u32>,
    pub vorbis_crc: Option<u32>,
    pub vorbis_seek_table: Option<Vec<u32>>,
}

impl View for Chunks {
    type V = ChunkData;

    open spec fn view(&self) -> ChunkData {
        ChunkData {
            loop_start: self.loop_start,
            loop_end: self.loop_end,
            vorbis_crc: self.vorbis_crc,
            vorbis_seek_table: match self.vorbis_seek_table {
                Some(t) => Some(t@),
                None => None,
            },
        }
    }
}

/// A sample header without chunks says nothing of loops or Vorbis.
pub open spec fn no_chunks() -> ChunkData {
    ChunkData { loop_start: None, loop_end: None, vorbis_crc: None, vorbis_seek_table: None }
}

/// The `count` little-endian 32-bit values that stand in `data` from `at` on.
pub open spec fn seek_table_at(data: Seq<u8>, at: int, count: nat) -> Seq<u32> {
    Seq::new(count, |k: int| le_u32(data, at + 4 * k))
}

/// What is known of a sample's chunks after the chunk of type `kind` whose
/// body of `size` bytes starts at `start`. A loop chunk holds two values, a
/// Vorbis chunk a checksum and then as many seek entries as fit; a chunk too
/// short for that is malformed. A chunk of another type changes nothing.
pub open spec fn spec_apply_chunk(
    data: Seq<u8>,
    start: int,
    size: int,
    kind: u32,
    acc: ChunkData,
) -> Result<ChunkData, Error> {
    if kind == CHUNK_LOOP {
        if size < 8 {
            Err(Error::MalformedChunk)
        } else {
            Ok(
                ChunkData {
                    loop_start: Some(le_u32(data, start)),
                    loop_end: Some(le_u32(data, start + 4)),
                    ..acc
                },
            )
        }
    } else if kind == CHUNK_VORBIS {
        if size < 4 {
            Err(Error::MalformedChunk)
        } else {
            Ok(
                ChunkData {
                    vorbis_crc: Some(le_u32(data, start)),
                    vorbis_seek_table: Some(seek_table_at(data, start + 4, ((size - 4) / 4) as nat)),
                    ..acc
                },
            )
        }
    } else {
        Ok(acc)
    }
}

/// The chunks that start at `pos`, read one after the other until one says
/// that no other follows, and the position behind the last. Each chunk must
/// lie inside the buffer.
pub open spec fn spec_parse_chunks(data: Seq<u8>, pos: int, acc: ChunkData) -> Result<
    (ChunkData, int),
    Error,
>
    decreases data.len() - pos,
{
    if pos < 0 || pos + 4 > data.len() {
        Err(Error::Truncated)
    } else {
        let w = ChunkWord(le_u32(data, pos));
        let start = pos + 4;
        let end = start + w.spec_size();
        if end > data.len() {
            Err(Error::Truncated)
        } else {
            match spec_apply_chunk(data, start, w.spec_size() as int, w.spec_kind(), acc) {
                Err(e) => Err(e),
                Ok(next) => if w.spec_more() {
                    spec_parse_chunks(data, end, next)
                } else {
                    Ok((next, end))
                },
            }
        }
    }
}

/// The sample that a header word and its chunks describe, before its size
/// and name are known. `base` is where the data region starts.
pub open spec fn raw_sample(index: int, w: SampleWord, c: ChunkData, base: int) -> SampleView {
    SampleView {
        index,
        name: None,
        frequency: spec_frequency(w.spec_frequency_index()),
        channels: if w.spec_stereo() {
            2
        } else {
            1
        },
        samples: w.spec_sample_count(),
        data_offset: (base + w.spec_offset_units() * 16) as u64,
        data_size: 0,
        loop_start: c.loop_start,
        loop_end: c.loop_end,
        vorbis_crc: c.vorbis_crc,
        vorbis_seek_table: c.vorbis_seek_table,
        mode: None,
    }
}

/// The sample header at `pos` and the position behind it.
pub open spec fn spec_parse_header(data: Seq<u8>, pos: int, index: int, base: int) -> Result<
    (SampleView, int),
    Error,
> {
    if pos < 0 || pos + 8 > data.len() {
        Err(Error::Truncated)
    } else {
        let w = SampleWord(le_u64(data, pos));
        if w.spec_has_chunks() {
            match spec_parse_chunks(data, pos + 8, no_chunks()) {
                Err(e) => Err(e),
                Ok((c, next)) => Ok((raw_sample(index, w, c, base), next)),
            }
        } else {
            Ok((raw_sample(index, w, no_chunks(), base), pos + 8))
        }
    }
}

/// `acc` followed by the `count` sample headers that stand one after the
/// other from `pos` on.
pub open spec fn spec_parse_headers(
    data: Seq<u8>,
    pos: int,
    count: nat,
    base: int,
    acc: Seq<SampleView>,
) -> Result<Seq<SampleView>, Error>
    decreases count,
{
    if count == 0 {
        Ok(acc)
    } else {
        match spec_parse_header(data, pos, acc.len() as int, base) {
            Err(e) => Err(e),
            Ok((s, next)) => spec_parse_headers(data, next, (count - 1) as nat, base, acc.push(s)),
        }
    }
}

/// Where the data of sample `i` ends: where the next sample starts, or for
/// the last sample where the data region ends.
pub open spec fn next_offset(raw: Seq<SampleView>, i: int, data_end: int) -> int {
    if i + 1 < raw.len() {
        raw[i + 1].data_offset as int
    } else {
        data_end
    }
}

/// No sample starts behind the place where its data ends.
pub open spec fn offsets_ok(raw: Seq<SampleView>, data_end: int) -> bool {
    forall|i: int| 0 <= i < raw.len() ==> (#[trigger] raw[i]).data_offset <= next_offset(
        raw,
        i,
        data_end,
    )
}

/// The index of the first zero byte of `table` from `from` on, or the
/// table's length if there is none.
pub open spec fn nul_from(table: Seq<u8>, from: int) -> int
    decreases table.len() - from,
{
    if from < 0 || from >= table.len() {
        table.len() as int
    } else if table[from] == 0 {
        from
    } else {
        nul_from(table, from + 1)
    }
}

/// The name of sample `i` in a name table: the bytes from the sample's
/// offset up to the next zero byte, if they are UTF-8. The name must end
/// inside the table.
pub open spec fn spec_name_at(table: Seq<u8>, i: int) -> Result<Option<Seq<char>>, Error> {
    let off = le_u32(table, 4 * i) as int;
    let end = nul_from(table, off);
    if end >= table.len() {
        Err(Error::Truncated)
    } else {
        let b = table.subrange(off, end);
        Ok(
            if valid_utf8(b) {
                Some(decode_utf8(b))
            } else {
                None
            },
        )
    }
}

/// The table holds an offset for each of `n` samples, and each name ends
/// inside it.
pub open spec fn names_ok(table: Seq<u8>, n: int) -> bool {
    &&& 4 * n <= table.len()
    &&& forall|i: int| 0 <= i < n ==> (#[trigger] spec_name_at(table, i)) is Ok
}

/// The names of `n` samples. An empty table gives none.
pub open spec fn spec_names(table: Seq<u8>, n: int) -> Result<Seq<Option<Seq<char>>>, Error> {
    if table.len() == 0 {
        Ok(Seq::new(n as nat, |i: int| None))
    } else if !names_ok(table, n) {
        Err(Error::Truncated)
    } else {
        Ok(Seq::new(n as nat, |i: int| spec_name_at(table, i)->Ok_0))
    }
}

/// The samples with their sizes and names: each sample runs up to the start
/// of the next one, the last one up to the end of the data region.
pub open spec fn finish_samples(
    raw: Seq<SampleView>,
    names: Seq<Option<Seq<char>>>,
    data_end: int,
) -> Seq<SampleView> {
    Seq::new(
        raw.len(),
        |i: int|
            SampleView {
                data_size: (next_offset(raw, i, data_end) - raw[i].data_offset) as u64,
                name: names[i],
                ..raw[i]
            },
    )
}

/// The samples of a version 5 file whose header and data are in the clear:
/// `count` sample headers from position 60 on, each sample's size from the
/// offsets, and the names from the name table, which lies between the
/// sample headers and the data region.
pub open spec fn spec_parse_samples5(plain: Seq<u8>, count: u32, shs: u32, nts: u32, ds: u32) -> Result<
    Seq<SampleView>,
    Error,
> {
    let base = 60 + shs + nts;
    match spec_parse_headers(plain, 60, count as nat, base, Seq::empty()) {
        Err(e) => Err(e),
        Ok(raw) => if !offsets_ok(raw, base + ds) {
            Err(Error::SampleOutOfBounds)
        } else {
            match spec_names(plain.subrange(60 + shs, base), count as int) {
                Err(e) => Err(e),
                Ok(names) => Ok(finish_samples(raw, names, base + ds)),
            }
        },
    }
}

/// The bank that a version 5 file holds, given the file with its header in
/// the clear and the cipher that it was found under. The header's fields
/// stand at fixed places; the data region, which starts behind the sample
/// headers and the name table, must lie inside the file.
pub open spec fn spec_parse_fsb5(d1: Seq<u8>, enc: Encryption) -> Result<BankView, Error> {
    if d1.len() < 60 {
        Err(Error::TooSmall)
    } else {
        let count = le_u32(d1, 8);
        let shs = le_u32(d1, 12);
        let nts = le_u32(d1, 16);
        let ds = le_u32(d1, 20);
        let base = 60 + shs + nts;
        match Codec::spec_from_u32(le_u32(d1, 24)) {
            None => Err(Error::UnknownCodec),
            Some(codec) => if base + ds > d1.len() {
                Err(Error::SampleOutOfBounds)
            } else {
                let plain = spec_decrypt_data(d1, enc, base, base + ds);
                match spec_parse_samples5(plain, count, shs, nts, ds) {
                    Err(e) => Err(e),
                    Ok(samples) => Ok(
                        BankView {
                            version: Version::Fsb5,
                            codec,
                            samples,
                            encryption: enc,
                            data: plain,
                            header_size: 60,
                            sample_headers_size: shs,
                            name_table_size: nts,
                            data_size: ds,
                            flags: le_u32(d1, 32),
                            fsb5_mode: le_u32(d1, 28),
                        },
                    ),
                }
            },
        }
    }
}

/// What a result of loading says, over views.
pub open spec fn bank_result_view(r: Result<FsbBank, Error>) -> Result<BankView, Error> {
    match r {
        Ok(b) => Ok(b@),
        Err(e) => Err(e),
    }
}

/// Reads the seek table of `count` entries that starts at `at`.
fn read_seek_table(data: &[u8], at: usize, count: usize) -> (r: Vec<u32>)
    requires
        at + 4 * count <= data@.len(),
    ensures
        r@ == seek_table_at(data@, at as int, count as nat),
{
    let mut table: Vec<u32> = Vec::new();
    let len: usize = data.len();
    let mut k: usize = 0;
    while k < count
        invariant
            k <= count,
            len == data@.len(),
            at + 4 * count <= data@.len(),
            table@ == seek_table_at(data@, at as int, k as nat),
        decreases count - k,
    {
        let v: u32 = match read_u32_le(data, at + 4 * k) {
            Some(v) => v,
            None => 0,
        };
        table.push(v);
        k = k + 1;
        assert(table@ =~= seek_table_at(data@, at as int, k as nat));
    }
    table
}

/// Reads the chunks that start at `pos`.
fn parse_chunks(data: &[u8], pos: usize) -> (r: Result<(Chunks, usize), Error>)
    requires
        pos <= data@.len(),
    ensures
        match r {
            Ok((c, end)) => spec_parse_chunks(data@, pos as int, no_chunks()) == Ok::<
                (ChunkData, int),
                Error,
            >((c@, end as int)) && pos < end <= data@.len(),
            Err(e) => spec_parse_chunks(data@, pos as int, no_chunks()) == Err::<
                (ChunkData, int),
                Error,
            >(e),
        },
{
    let mut acc = Chunks {
        loop_start: None,
        loop_end: None,
        vorbis_crc: None,
        vorbis_seek_table: None,
    };
    let mut at: usize = pos;
    let len: usize = data.len();
    loop
        invariant
            pos <= at <= data@.len(),
            len == data@.len(),
            spec_parse_chunks(data@, pos as int, no_chunks()) == spec_parse_chunks(
                data@,
                at as int,
                acc@,
            ),
        decreases data@.len() - at,
    {
        let word: u32 = match read_u32_le(data, at) {
            Some(v) => v,
            None => {
                return Err(Error::Truncated);
            },
        };
        let w = ChunkWord(word);
        let start: usize = at + 4;
        let size: usize = w.size() as usize;
        if size > len - start {
            return Err(Error::Truncated);
        }
        let end: usize = start + size;
        let kind: u32 = w.kind();
        if kind == CHUNK_LOOP {
            if size < 8 {
                return Err(Error::MalformedChunk);
            }
            acc.loop_start = read_u32_le(data, start);
            acc.loop_end = read_u32_le(data, start + 4);
        } else if kind == CHUNK_VORBIS {
            if size < 4 {
                return Err(Error::MalformedChunk);
            }
            acc.vorbis_crc = read_u32_le(data, start);
            acc.vorbis_seek_table = Some(read_seek_table(data, start + 4, (size - 4) / 4));
        }
        if !w.more() {
            return Ok((acc, end));
        }
        at = end;
    }
}

/// Reads the sample header at `pos`.
fn parse_header(data: &[u8], pos: usize, index: usize, base: u64) -> (r: Result<
    (Sample, usize),
    Error,
>)
    requires
        pos <= data@.len(),
        base <= 0x4_0000_0000,
    ensures
        match r {
            Ok((s, end)) => spec_parse_header(data@, pos as int, index as int, base as int) == Ok::<
                (SampleView, int),
                Error,
            >((s@, end as int)) && pos < end <= data@.len(),
            Err(e) => spec_parse_header(data@, pos as int, index as int, base as int) == Err::<
                (SampleView, int),
                Error,
            >(e),
        },
{
    let len: usize = data.len();
    let word: u64 = match read_u64_le(data, pos) {
        Some(v) => v,
        None => {
            return Err(Error::Truncated);
        },
    };
    let w = SampleWord(word);
    let (chunks, end) = if w.has_chunks() {
        match parse_chunks(data, pos + 8) {
            Ok(found) => found,
            Err(e) => {
                return Err(e);
            },
        }
    } else {
        (
            Chunks { loop_start: None, loop_end: None, vorbis_crc: None, vorbis_seek_table: None },
            pos + 8,
        )
    };
    let channels: u32 = if w.stereo() {
        2
    } else {
        1
    };
    let sample = Sample {
        index,
        name: None,
        frequency: frequency_of_index(w.frequency_index()),
        channels,
        samples: w.sample_count(),
        data_offset: base + w.offset_units() * 16,
        data_size: 0,
        loop_start: chunks.loop_start,
        loop_end: chunks.loop_end,
        vorbis_crc: chunks.vorbis_crc,
        vorbis_seek_table: chunks.vorbis_seek_table,
        mode: None,
    };
    Ok((sample, end))
}

/// Reads `count` sample headers from position 60 on.
fn parse_headers(data: &[u8], count: u32, base: u64) -> (r: Result<Vec<Sample>, Error>)
    requires
        60 <= data@.len(),
        base <= 0x4_0000_0000,
    ensures
        match r {
            Ok(v) => spec_parse_headers(data@, 60, count as nat, base as int, Seq::empty()) == Ok::<
                Seq<SampleView>,
                Error,
            >(sample_views(v@)),
            Err(e) => spec_parse_headers(data@, 60, count as nat, base as int, Seq::empty())
                == Err::<Seq<SampleView>, Error>(e),
        },
{
    let mut samples: Vec<Sample> = Vec::new();
    let mut pos: usize = 60;
    let mut i: u32 = 0;
    assert(sample_views(samples@) =~= Seq::empty());
    while i < count
        invariant
            i <= count,
            pos <= data@.len(),
            base <= 0x4_0000_0000,
            samples@.len() == i,
            spec_parse_headers(data@, 60, count as nat, base as int, Seq::empty())
                == spec_parse_headers(
                data@,
                pos as int,
                (count - i) as nat,
                base as int,
                sample_views(samples@),
            ),
        decreases count - i,
    {
        let ghost before = sample_views(samples@);
        match parse_header(data, pos, samples.len(), base) {
            Err(e) => {
                return Err(e);
            },
            Ok((s, next)) => {
                samples.push(s);
                assert(sample_views(samples@) =~= before.push(s@));
                pos = next;
            },
        }
        i = i + 1;
    }
    Ok(samples)
}


/// The view of a name that may be absent.
pub open spec fn name_view(n: Option<String>) -> Option<Seq<char>> {
    match n {
        Some(t) => Some(t@),
        None => None,
    }
}

/// A value read inside a part of a buffer is the value read in the buffer.
pub proof fn lemma_le_u32_subrange(s: Seq<u8>, a: int, b: int, k: int)
    requires
        0 <= a <= b <= s.len(),
        0 <= k,
        k + 4 <= b - a,
    ensures
        le_u32(s.subrange(a, b), k) == le_u32(s, a + k),
{
}

/// From a zero byte on, the first zero byte is that one; behind the table
/// there is none.
proof fn lemma_nul_from_step(table: Seq<u8>, from: int)
    requires
        0 <= from,
    ensures
        from >= table.len() ==> nul_from(table, from) == table.len(),
        from < table.len() && table[from] == 0 ==> nul_from(table, from) == from,
        from < table.len() && table[from] != 0 ==> nul_from(table, from) == nul_from(
            table,
            from + 1,
        ),
{
}

/// Reads the name of sample `i` from the name table that `data` holds from
/// `table_start` up to `table_end`.
fn read_name(data: &[u8], table_start: usize, table_end: usize, i: usize) -> (r: Result<
    Option<String>,
    Error,
>)
    requires
        table_start <= table_end <= data@.len(),
        4 * (i + 1) <= table_end - table_start,
    ensures
        match r {
            Ok(name) => spec_name_at(data@.subrange(table_start as int, table_end as int), i as int)
                == Ok::<Option<Seq<char>>, Error>(name_view(name)),
            Err(e) => e == Error::Truncated && spec_name_at(
                data@.subrange(table_start as int, table_end as int),
                i as int,
            ) is Err,
        },
{
    let ghost table = data@.subrange(table_start as int, table_end as int);
    let len: usize = data.len();
    let tlen: usize = table_end - table_start;
    let off32: u32 = match read_u32_le(data, table_start + 4 * i) {
        Some(v) => v,
        None => {
            return Err(Error::Truncated);
        },
    };
    proof {
        lemma_le_u32_subrange(data@, table_start as int, table_end as int, 4 * i);
    }
    let off: usize = off32 as usize;
    if off >= tlen {
        proof {
            lemma_nul_from_step(table, off as int);
        }
        return Err(Error::Truncated);
    }
    let mut j: usize = off;
    while j < tlen && data[table_start + j] != 0
        invariant
            off <= j <= tlen,
            table_start + tlen == table_end,
            table_end <= data@.len(),
            len == data@.len(),
            table == data@.subrange(table_start as int, table_end as int),
            nul_from(table, off as int) == nul_from(table, j as int),
        decreases tlen - j,
    {
        proof {
            lemma_nul_from_step(table, j as int);
        }
        j = j + 1;
    }
    proof {
        lemma_nul_from_step(table, j as int);
    }
    if j >= tlen {
        return Err(Error::Truncated);
    }
    let mut bytes: Vec<u8> = Vec::new();
    crate::bytes::push_range(&mut bytes, data, table_start + off, table_start + j);
    assert(bytes@ =~= table.subrange(off as int, j as int));
    Ok(crate::text::string_from_utf8(bytes))
}

/// The samples with the sizes that their offsets give them.
pub open spec fn sized_samples(raw: Seq<SampleView>, data_end: int) -> Seq<SampleView> {
    Seq::new(
        raw.len(),
        |i: int|
            SampleView {
                data_size: (next_offset(raw, i, data_end) - raw[i].data_offset) as u64,
                ..raw[i]
            },
    )
}

/// The samples with the given names.
pub open spec fn named_samples(v: Seq<SampleView>, names: Seq<Option<Seq<char>>>) -> Seq<
    SampleView,
> {
    Seq::new(v.len(), |i: int| SampleView { name: names[i], ..v[i] })
}

/// Gives each sample the size that its offset and the next one's leave it.
fn set_sizes(samples: &mut Vec<Sample>, data_end: u64) -> (r: Result<(), Error>)
    ensures
        match r {
            Ok(()) => offsets_ok(sample_views(old(samples)@), data_end as int) && sample_views(
                final(samples)@,
            ) == sized_samples(sample_views(old(samples)@), data_end as int),
            Err(e) => e == Error::SampleOutOfBounds && !offsets_ok(
                sample_views(old(samples)@),
                data_end as int,
            ),
        },
{
    let ghost raw = sample_views(samples@);
    let n: usize = samples.len();
    let mut i: usize = 0;
    while i < n
        invariant
            i <= n,
            n == samples@.len(),
            raw.len() == n,
            raw == sample_views(old(samples)@),
            forall|j: int|
                0 <= j < i ==> (#[trigger] raw[j]).data_offset <= next_offset(
                    raw,
                    j,
                    data_end as int,
                ),
            forall|j: int|
                0 <= j < i ==> (#[trigger] samples@[j])@ == sized_samples(raw, data_end as int)[j],
            forall|j: int| i <= j < n ==> (#[trigger] samples@[j])@ == raw[j],
        decreases n - i,
    {
        let next: u64 = if i + 1 < n {
            samples[i + 1].data_offset
        } else {
            data_end
        };
        assert(next == next_offset(raw, i as int, data_end as int));
        let here: u64 = samples[i].data_offset;
        assert(here == raw[i as int].data_offset);
        if here > next {
            return Err(Error::SampleOutOfBounds);
        }
        samples[i].data_size = next - here;
        i = i + 1;
    }
    assert(sample_views(samples@) =~= sized_samples(raw, data_end as int));
    Ok(())
}

/// Gives each sample its name from the name table that `data` holds from
/// `table_start` up to `table_end`.
fn set_names(samples: &mut Vec<Sample>, data: &[u8], table_start: usize, table_end: usize) -> (r:
    Result<(), Error>)
    requires
        table_start <= table_end <= data@.len(),
    ensures
        match r {
            Ok(()) => {
                let names = spec_names(
                    data@.subrange(table_start as int, table_end as int),
                    old(samples)@.len() as int,
                );
                names is Ok && sample_views(final(samples)@) == named_samples(
                    sample_views(old(samples)@),
                    names->Ok_0,
                )
            },
            Err(e) => spec_names(
                data@.subrange(table_start as int, table_end as int),
                old(samples)@.len() as int,
            ) == Err::<Seq<Option<Seq<char>>>, Error>(e),
        },
{
    let ghost table = data@.subrange(table_start as int, table_end as int);
    let ghost before = sample_views(samples@);
    let n: usize = samples.len();
    let tlen: usize = table_end - table_start;
    if tlen == 0 {
        let mut k: usize = 0;
        while k < n
            invariant
                k <= n,
                n == samples@.len(),
                before.len() == n,
                forall|j: int|
                    0 <= j < k ==> (#[trigger] samples@[j])@ == (SampleView {
                        name: None,
                        ..before[j]
                    }),
                forall|j: int| k <= j < n ==> (#[trigger] samples@[j])@ == before[j],
            decreases n - k,
        {
            samples[k].name = None;
            k = k + 1;
        }
        assert(sample_views(samples@) =~= named_samples(before, spec_names(table, n as int)->Ok_0));
        return Ok(());
    }
    if n > tlen / 4 {
        return Err(Error::Truncated);
    }
    let mut i: usize = 0;
    while i < n
        invariant
            i <= n,
            n == samples@.len(),
            before.len() == n,
            4 * n <= tlen,
            0 < tlen,
            tlen == table_end - table_start,
            table_start <= table_end <= data@.len(),
            table == data@.subrange(table_start as int, table_end as int),
            before == sample_views(old(samples)@),
            forall|j: int| 0 <= j < i ==> (#[trigger] spec_name_at(table, j)) is Ok,
            forall|j: int|
                0 <= j < i ==> (#[trigger] samples@[j])@ == (SampleView {
                    name: spec_name_at(table, j)->Ok_0,
                    ..before[j]
                }),
            forall|j: int| i <= j < n ==> (#[trigger] samples@[j])@ == before[j],
        decreases n - i,
    {
        match read_name(data, table_start, table_end, i) {
            Err(e) => {
                assert(!names_ok(table, n as int));
                return Err(Error::Truncated);
            },
            Ok(name) => {
                samples[i].name = name;
            },
        }
        i = i + 1;
    }
    assert(names_ok(table, n as int));
    assert(sample_views(samples@) =~= named_samples(before, spec_names(table, n as int)->Ok_0));
    Ok(())
}

/// With sound offsets no sample starts behind the end of the data region.
pub proof fn lemma_offsets_bounded(raw: Seq<SampleView>, data_end: int, i: int)
    requires
        offsets_ok(raw, data_end),
        0 <= i < raw.len(),
    ensures
        raw[i].data_offset <= next_offset(raw, i, data_end) <= data_end,
    decreases raw.len() - i,
{
    if i + 1 < raw.len() {
        lemma_offsets_bounded(raw, data_end, i + 1);
    }
}

/// What the headers that were read are like: there are `count` more than
/// before, each is at its index and starts in the data region, and what was
/// there before stays.
pub proof fn lemma_parse_headers_shape(
    data: Seq<u8>,
    pos: int,
    count: nat,
    base: int,
    acc: Seq<SampleView>,
)
    requires
        0 <= base <= 0x4_0000_0000,
        spec_parse_headers(data, pos, count, base, acc) is Ok,
    ensures
        ({
            let raw = spec_parse_headers(data, pos, count, base, acc)->Ok_0;
            &&& raw.len() == acc.len() + count
            &&& forall|j: int| 0 <= j < acc.len() ==> raw[j] == acc[j]
            &&& forall|j: int|
                acc.len() <= j < raw.len() ==> {
                    &&& (#[trigger] raw[j]).index == j
                    &&& raw[j].data_offset >= base
                    &&& raw[j].data_size == 0
                    &&& raw[j].name is None
                }
        }),
    decreases count,
{
    if count > 0 {
        let first = spec_parse_header(data, pos, acc.len() as int, base);
        let s = first->Ok_0.0;
        let next = first->Ok_0.1;
        SampleWord(le_u64(data, pos)).lemma_ranges();
        lemma_parse_headers_shape(data, next, (count - 1) as nat, base, acc.push(s));
        let raw = spec_parse_headers(data, pos, count, base, acc)->Ok_0;
        assert(forall|j: int| 0 <= j < acc.len() ==> acc.push(s)[j] == acc[j]);
        assert(acc.push(s)[acc.len() as int] == s);
    }
}

/// The samples that were parsed are as many as the header says, each at its
/// index, one after the other in the data region.
pub proof fn lemma_parse_samples5_shape(plain: Seq<u8>, count: u32, shs: u32, nts: u32, ds: u32)
    requires
        spec_parse_samples5(plain, count, shs, nts, ds) is Ok,
    ensures
        ({
            let v = spec_parse_samples5(plain, count, shs, nts, ds)->Ok_0;
            let base = 60 + shs + nts;
            &&& v.len() == count
            &&& forall|i: int|
                0 <= i < v.len() ==> {
                    &&& (#[trigger] v[i]).index == i
                    &&& v[i].data_offset >= base
                    &&& v[i].data_end() <= base + ds
                }
            &&& forall|i: int|
                0 <= i < v.len() - 1 ==> (#[trigger] v[i]).data_end() == v[i + 1].data_offset
            &&& v.len() > 0 ==> v.last().data_end() == base + ds
        }),
{
    let v = spec_parse_samples5(plain, count, shs, nts, ds)->Ok_0;
    let base = 60 + shs + nts;
    let raw = spec_parse_headers(plain, 60, count as nat, base, Seq::empty())->Ok_0;
    lemma_parse_headers_shape(plain, 60, count as nat, base, Seq::empty());
    assert forall|i: int| 0 <= i < v.len() implies {
        &&& (#[trigger] v[i]).index == i
        &&& v[i].data_offset >= base
        &&& v[i].data_end() == next_offset(raw, i, base + ds)
        &&& v[i].data_end() <= base + ds
    } by {
        lemma_offsets_bounded(raw, base + ds, i);
    }
}

/// A bank that was parsed from a version 5 file meets the bank invariant.
pub proof fn lemma_parse_fsb5_wf(d1: Seq<u8>, enc: Encryption)
    requires
        spec_parse_fsb5(d1, enc) is Ok,
    ensures
        spec_parse_fsb5(d1, enc)->Ok_0.wf(),
        spec_parse_fsb5(d1, enc)->Ok_0.samples.len() == le_u32(d1, 8),
        spec_parse_fsb5(d1, enc)->Ok_0.data.len() == d1.len(),
{
    let count = le_u32(d1, 8);
    let shs = le_u32(d1, 12);
    let nts = le_u32(d1, 16);
    let ds = le_u32(d1, 20);
    let base = 60 + shs + nts;
    let plain = spec_decrypt_data(d1, enc, base, base + ds);
    assert(plain.len() == d1.len());
    lemma_parse_samples5_shape(plain, count, shs, nts, ds);
}

/// What holds of every sample that the headers of a version 5 file
/// describe: its frequency is one of the table, it has one or two channels
/// and fewer than 2^30 samples, both loop points or none, a checksum and a
/// seek table or neither, and no mode word.
pub open spec fn header_sound(s: SampleView) -> bool {
    &&& in_frequency_table(s.frequency)
    &&& (s.channels == 1 || s.channels == 2)
    &&& s.samples < 0x4000_0000
    &&& (s.loop_start is Some <==> s.loop_end is Some)
    &&& (s.vorbis_crc is Some <==> s.vorbis_seek_table is Some)
    &&& s.mode is None
}

/// Loop points and Vorbis data come in pairs.
pub open spec fn chunks_paired(c: ChunkData) -> bool {
    &&& (c.loop_start is Some <==> c.loop_end is Some)
    &&& (c.vorbis_crc is Some <==> c.vorbis_seek_table is Some)
}

/// Reading chunks keeps the pairs together.
pub proof fn lemma_parse_chunks_paired(data: Seq<u8>, pos: int, acc: ChunkData)
    requires
        chunks_paired(acc),
        spec_parse_chunks(data, pos, acc) is Ok,
    ensures
        chunks_paired(spec_parse_chunks(data, pos, acc)->Ok_0.0),
    decreases data.len() - pos,
{
    let w = ChunkWord(le_u32(data, pos));
    let start = pos + 4;
    let end = start + w.spec_size();
    let next = spec_apply_chunk(data, start, w.spec_size() as int, w.spec_kind(), acc)->Ok_0;
    assert(chunks_paired(next));
    if w.spec_more() {
        lemma_parse_chunks_paired(data, end, next);
    }
}

/// The header at `pos` describes a sound sample.
pub proof fn lemma_parse_header_sound(data: Seq<u8>, pos: int, index: int, base: int)
    requires
        spec_parse_header(data, pos, index, base) is Ok,
    ensures
        header_sound(spec_parse_header(data, pos, index, base)->Ok_0.0),
{
    let w = SampleWord(le_u64(data, pos));
    w.lemma_ranges();
    if w.spec_has_chunks() {
        lemma_parse_chunks_paired(data, pos + 8, no_chunks());
    }
}

/// The headers that were read describe sound samples, if those that were
/// there before are sound.
pub proof fn lemma_parse_headers_sound(
    data: Seq<u8>,
    pos: int,
    count: nat,
    base: int,
    acc: Seq<SampleView>,
)
    requires
        spec_parse_headers(data, pos, count, base, acc) is Ok,
        forall|j: int| 0 <= j < acc.len() ==> header_sound(#[trigger] acc[j]),
    ensures
        ({
            let raw = spec_parse_headers(data, pos, count, base, acc)->Ok_0;
            forall|j: int| 0 <= j < raw.len() ==> header_sound(#[trigger] raw[j])
        }),
    decreases count,
{
    if count > 0 {
        let first = spec_parse_header(data, pos, acc.len() as int, base);
        let s = first->Ok_0.0;
        let next = first->Ok_0.1;
        lemma_parse_header_sound(data, pos, acc.len() as int, base);
        assert forall|j: int| 0 <= j < acc.push(s).len() implies header_sound(
            #[trigger] acc.push(s)[j],
        ) by {
            if j < acc.len() {
                assert(acc.push(s)[j] == acc[j]);
            }
        }
        lemma_parse_headers_sound(data, next, (count - 1) as nat, base, acc.push(s));
    }
}

/// Every sample of a bank that was parsed from a version 5 file is sound,
/// and there are as many as the header's count field says.
pub proof fn lemma_parse_fsb5_sound(d1: Seq<u8>, enc: Encryption)
    requires
        spec_parse_fsb5(d1, enc) is Ok,
    ensures
        ({
            let b = spec_parse_fsb5(d1, enc)->Ok_0;
            &&& b.samples.len() == le_u32(d1, 8)
            &&& forall|i: int| 0 <= i < b.samples.len() ==> header_sound(#[trigger] b.samples[i])
        }),
{
    let count = le_u32(d1, 8);
    let shs = le_u32(d1, 12);
    let nts = le_u32(d1, 16);
    let ds = le_u32(d1, 20);
    let base = 60 + shs + nts;
    let plain = spec_decrypt_data(d1, enc, base, base + ds);
    let b = spec_parse_fsb5(d1, enc)->Ok_0;
    let raw = spec_parse_headers(plain, 60, count as nat, base, Seq::empty())->Ok_0;
    lemma_parse_samples5_shape(plain, count, shs, nts, ds);
    lemma_parse_headers_sound(plain, 60, count as nat, base, Seq::empty());
    assert forall|i: int| 0 <= i < b.samples.len() implies header_sound(
        #[trigger] b.samples[i],
    ) by {
        assert(header_sound(raw[i]));
    }
}

/// The 32-bit header field at `at`.
pub fn field_at(data: &[u8], at: usize) -> (r: u32)
    requires
        at + 4 <= data@.len(),
    ensures
        r == le_u32(data@, at as int),
{
    match read_u32_le(data, at) {
        Some(v) => v,
        None => 0,
    }
}

/// Reads the samples of a version 5 file whose header and data are in the
/// clear.
fn parse_samples5(data: &[u8], count: u32, shs: u32, nts: u32, ds: u32) -> (r: Result<
    Vec<Sample>,
    Error,
>)
    requires
        60 + shs + nts + ds <= data@.len(),
    ensures
        match r {
            Ok(v) => spec_parse_samples5(data@, count, shs, nts, ds) == Ok::<
                Seq<SampleView>,
                Error,
            >(sample_views(v@)),
            Err(e) => spec_parse_samples5(data@, count, shs, nts, ds) == Err::<
                Seq<SampleView>,
                Error,
            >(e),
        },
{
    let len: usize = data.len();
    let base: u64 = 60 + shs as u64 + nts as u64;
    let data_end: u64 = base + ds as u64;
    let mut samples = match parse_headers(data, count, base) {
        Ok(v) => v,
        Err(e) => {
            return Err(e);
        },
    };
    let ghost raw = sample_views(samples@);
    match set_sizes(&mut samples, data_end) {
        Ok(()) => {},
        Err(e) => {
            return Err(e);
        },
    }
    proof {
        lemma_parse_headers_shape(data@, 60, count as nat, base as int, Seq::empty());
        assert(raw.len() == count);
        assert(sample_views(samples@).len() == samples@.len());
        assert(sized_samples(raw, data_end as int).len() == raw.len());
        assert(samples@.len() == count);
    }
    let ghost sized = sample_views(samples@);
    match set_names(&mut samples, data, 60 + shs as usize, base as usize) {
        Ok(()) => {},
        Err(e) => {
            return Err(e);
        },
    }
    proof {
        let names = spec_names(data@.subrange(60 + shs, base as int), count as int)->Ok_0;
        assert(sample_views(samples@) =~= finish_samples(raw, names, data_end as int));
    }
    Ok(samples)
}

/// Reads a version 5 bank from a file whose header is in the clear.
pub fn parse_fsb5(data: Vec<u8>, enc: Encryption) -> (r: Result<FsbBank, Error>)
    ensures
        bank_result_view(r) == spec_parse_fsb5(data@, enc),
        r matches Ok(b) ==> b@.wf(),
{
    let mut data = data;
    let ghost d1 = data@;
    let len: usize = data.len();
    if len < 60 {
        return Err(Error::TooSmall);
    }
    let count: u32 = field_at(data.as_slice(), 8);
    let shs: u32 = field_at(data.as_slice(), 12);
    let nts: u32 = field_at(data.as_slice(), 16);
    let ds: u32 = field_at(data.as_slice(), 20);
    let codec_raw: u32 = field_at(data.as_slice(), 24);
    let fsb5_mode: u32 = field_at(data.as_slice(), 28);
    let flags: u32 = field_at(data.as_slice(), 32);
    let codec = match Codec::from_u32(codec_raw) {
        Some(c) => c,
        None => {
            return Err(Error::UnknownCodec);
        },
    };
    let base: u64 = 60 + shs as u64 + nts as u64;
    let data_end: u64 = base + ds as u64;
    if data_end > len as u64 {
        return Err(Error::SampleOutOfBounds);
    }
    decrypt_data(&mut data, enc, base as usize, data_end as usize);
    let samples = match parse_samples5(data.as_slice(), count, shs, nts, ds) {
        Ok(v) => v,
        Err(e) => {
            return Err(e);
        },
    };
    let bank = FsbBank {
        version: Version::Fsb5,
        codec,
        samples,
        encryption: enc,
        data,
        header_size: 60,
        sample_headers_size: shs,
        name_table_size: nts,
        data_size: ds,
        flags,
        fsb5_mode,
    };
    proof {
        assert(spec_parse_fsb5(d1, enc) == Ok::<BankView, Error>(bank@));
        lemma_parse_fsb5_wf(d1, enc);
    }
    Ok(bank)
}

} // verus!
