//! Why a version 5 bank that was saved is loaded as a bank that is saved
//! as the same file.

use crate::bytes::{
    le_u32, le_u64, lemma_le_u32_of_bytes, lemma_le_u64_of_bytes, u32_le_bytes, u64_le_bytes,
};
use crate::error::Error;
use crate::fsb::detect::{
    decrypts_back, fsb4_magic, fsb5_magic, lemma_decrypts_back, spec_decrypt_data,
    spec_decrypt_header, spec_detect, spec_encrypt,
};
use crate::fsb::parse5::{
    in_frequency_table,
    finish_samples, next_offset, no_chunks, offsets_ok, raw_sample, seek_table_at,
    spec_frequency, spec_frequency_to_index, spec_names, spec_parse_chunks, spec_parse_fsb5,
    spec_parse_header, spec_parse_headers, spec_parse_samples5, ChunkData,
};
use crate::fsb::word::{ChunkWord, SampleWord, CHUNK_LOOP, CHUNK_VORBIS};
use crate::fsb::write5::{
    lemma_audio_grows, lemma_pad_len, pad32, pad_len, save_cipher, seek_table_bytes, spec_audio,
    spec_audio_offset, spec_audio_upto, spec_header5, spec_header_tail, spec_headers,
    spec_headers_upto, spec_loop_chunk, spec_sample_header, spec_sample_word, spec_save5_check,
    spec_save_fsb5_plain, spec_vorbis_chunk,
};
use crate::fsb::{
    spec_from_bytes, spec_save, BankView, Codec, Encryption, SampleView, Version,
};
use vstd::prelude::*;

verus! {

/// What the chunks of a written sample header say when they are read back.
pub open spec fn written_chunks(s: SampleView) -> ChunkData {
    ChunkData {
        loop_start: if s.has_loop() {
            s.loop_start
        } else {
            None
        },
        loop_end: if s.has_loop() {
            s.loop_end
        } else {
            None
        },
        vorbis_crc: s.vorbis_crc,
        vorbis_seek_table: if s.vorbis_crc is Some {
            Some(s.seek_entries())
        } else {
            None
        },
    }
}

/// The entries of a written seek table are read back one by one.
proof fn lemma_seek_table_read(data: Seq<u8>, at: int, t: Seq<u32>)
    requires
        0 <= at,
        at + 4 * t.len() <= data.len(),
        data.subrange(at, at + 4 * t.len()) == seek_table_bytes(t),
    ensures
        seek_table_at(data, at, t.len()) == t,
{
    let bytes = seek_table_bytes(t);
    assert forall|k: int| 0 <= k < t.len() implies le_u32(data, at + 4 * k) == t[k] by {
        assert(data.subrange(at + 4 * k, at + 4 * k + 4) =~= u32_le_bytes(t[k])) by {
            assert forall|m: int| 0 <= m < 4 implies data.subrange(at + 4 * k, at + 4 * k + 4)[m]
                == u32_le_bytes(t[k])[m] by {
                let j = 4 * k + m;
                assert(data[at + j] == data.subrange(at, at + 4 * t.len())[j]);
                assert(bytes[j] == u32_le_bytes(t[j / 4])[j % 4]);
                assert(j / 4 == k && j % 4 == m);
            }
        }
        lemma_le_u32_of_bytes(data, at + 4 * k, t[k]);
    }
    assert(seek_table_at(data, at, t.len()) =~= t);
}

/// A written Vorbis chunk is read back as the last chunk of its header.
pub proof fn lemma_parse_vorbis_chunk(data: Seq<u8>, p: int, s: SampleView, acc: ChunkData)
    requires
        0 <= p,
        s.vorbis_crc is Some,
        s.vorbis_chunk_size() < 0x100_0000,
        p + spec_vorbis_chunk(s).len() <= data.len(),
        data.subrange(p, p + spec_vorbis_chunk(s).len()) == spec_vorbis_chunk(s),
    ensures
        spec_vorbis_chunk(s).len() == 4 + s.vorbis_chunk_size(),
        spec_parse_chunks(data, p, acc) == Ok::<(ChunkData, int), Error>(
            (
                ChunkData {
                    vorbis_crc: s.vorbis_crc,
                    vorbis_seek_table: Some(s.seek_entries()),
                    ..acc
                },
                p + 4 + s.vorbis_chunk_size(),
            ),
        ),
{
    let t = s.seek_entries();
    let size = s.vorbis_chunk_size();
    let w = ChunkWord::spec_pack(false, size as u32, CHUNK_VORBIS);
    let chunk = spec_vorbis_chunk(s);
    let total = chunk.len() as int;
    ChunkWord::lemma_unpack_pack(false, size as u32, CHUNK_VORBIS);
    assert(total == 8 + 4 * t.len());
    let part = data.subrange(p, p + total);
    assert(data.subrange(p, p + 4) =~= u32_le_bytes(w.0)) by {
        assert forall|m: int| 0 <= m < 4 implies data.subrange(p, p + 4)[m] == u32_le_bytes(
            w.0,
        )[m] by {
            assert(data[p + m] == part[m]);
        }
    }
    lemma_le_u32_of_bytes(data, p, w.0);
    assert(data.subrange(p + 4, p + 8) =~= u32_le_bytes(s.vorbis_crc->Some_0)) by {
        assert forall|m: int| 0 <= m < 4 implies data.subrange(p + 4, p + 8)[m] == u32_le_bytes(
            s.vorbis_crc->Some_0,
        )[m] by {
            assert(data[p + 4 + m] == part[4 + m]);
        }
    }
    lemma_le_u32_of_bytes(data, p + 4, s.vorbis_crc->Some_0);
    assert(data.subrange(p + 8, p + 8 + 4 * t.len()) =~= seek_table_bytes(t)) by {
        assert forall|m: int| 0 <= m < 4 * t.len() implies data.subrange(
            p + 8,
            p + 8 + 4 * t.len(),
        )[m] == seek_table_bytes(t)[m] by {
            assert(data[p + 8 + m] == part[8 + m]);
        }
    }
    lemma_seek_table_read(data, p + 8, t);
    assert((size - 4) / 4 == t.len());
}

/// A written loop chunk is read back, and the reading goes on behind it if
/// the chunk says so.
pub proof fn lemma_parse_loop_chunk(data: Seq<u8>, p: int, s: SampleView, acc: ChunkData)
    requires
        0 <= p,
        s.has_loop(),
        p + 12 <= data.len(),
        data.subrange(p, p + 12) == spec_loop_chunk(s),
    ensures
        spec_loop_chunk(s).len() == 12,
        spec_parse_chunks(data, p, acc) == (if s.vorbis_crc is Some {
            spec_parse_chunks(
                data,
                p + 12,
                ChunkData { loop_start: s.loop_start, loop_end: s.loop_end, ..acc },
            )
        } else {
            Ok::<(ChunkData, int), Error>(
                (ChunkData { loop_start: s.loop_start, loop_end: s.loop_end, ..acc }, p + 12),
            )
        }),
{
    let w = ChunkWord::spec_pack(s.vorbis_crc is Some, 8, CHUNK_LOOP);
    ChunkWord::lemma_unpack_pack(s.vorbis_crc is Some, 8, CHUNK_LOOP);
    let part = data.subrange(p, p + 12);
    assert(data.subrange(p, p + 4) =~= u32_le_bytes(w.0)) by {
        assert forall|m: int| 0 <= m < 4 implies data.subrange(p, p + 4)[m] == u32_le_bytes(
            w.0,
        )[m] by {
            assert(data[p + m] == part[m]);
        }
    }
    lemma_le_u32_of_bytes(data, p, w.0);
    assert(data.subrange(p + 4, p + 8) =~= u32_le_bytes(s.loop_start->Some_0)) by {
        assert forall|m: int| 0 <= m < 4 implies data.subrange(p + 4, p + 8)[m] == u32_le_bytes(
            s.loop_start->Some_0,
        )[m] by {
            assert(data[p + 4 + m] == part[4 + m]);
        }
    }
    lemma_le_u32_of_bytes(data, p + 4, s.loop_start->Some_0);
    assert(data.subrange(p + 8, p + 12) =~= u32_le_bytes(s.loop_end->Some_0)) by {
        assert forall|m: int| 0 <= m < 4 implies data.subrange(p + 8, p + 12)[m] == u32_le_bytes(
            s.loop_end->Some_0,
        )[m] by {
            assert(data[p + 8 + m] == part[8 + m]);
        }
    }
    lemma_le_u32_of_bytes(data, p + 8, s.loop_end->Some_0);
}


/// The length of a written sample header.
pub open spec fn header_len(s: SampleView) -> int {
    8 + (if s.has_loop() {
        12int
    } else {
        0int
    }) + (if s.vorbis_crc is Some {
        4 + s.vorbis_chunk_size()
    } else {
        0int
    })
}

/// A written sample header has the length that its chunks give it.
pub proof fn lemma_header_len(s: SampleView, off: int)
    ensures
        spec_sample_header(s, off).len() == header_len(s),
{
}

/// A part of a part of a buffer is a part of the buffer.
pub proof fn lemma_sub_part(data: Seq<u8>, pos: int, whole: Seq<u8>, a: int, b: int)
    requires
        0 <= pos,
        pos + whole.len() <= data.len(),
        data.subrange(pos, pos + whole.len()) == whole,
        0 <= a <= b <= whole.len(),
    ensures
        data.subrange(pos + a, pos + b) == whole.subrange(a, b),
{
    let part = data.subrange(pos, pos + whole.len());
    assert(data.subrange(pos + a, pos + b) =~= whole.subrange(a, b)) by {
        assert forall|m: int| 0 <= m < b - a implies data.subrange(pos + a, pos + b)[m]
            == whole.subrange(a, b)[m] by {
            assert(data[pos + a + m] == part[a + m]);
        }
    }
}

/// The word of a written sample header is read back with its fields.
pub proof fn lemma_header_word(data: Seq<u8>, pos: int, s: SampleView, off: int)
    requires
        0 <= pos,
        0 <= off <= u32::MAX,
        pos + header_len(s) <= data.len(),
        data.subrange(pos, pos + header_len(s)) == spec_sample_header(s, off),
    ensures
        le_u64(data, pos) == spec_sample_word(s, off).0,
        spec_sample_word(s, off).spec_has_chunks() == (s.has_loop() || s.vorbis_crc is Some),
        spec_sample_word(s, off).spec_frequency_index() == spec_frequency_to_index(s.frequency),
        spec_sample_word(s, off).spec_stereo() == (s.channels > 1),
        spec_sample_word(s, off).spec_offset_units() == off / 16,
        spec_sample_word(s, off).spec_sample_count() == s.samples % 0x4000_0000,
{
    let w = spec_sample_word(s, off);
    let hdr = spec_sample_header(s, off);
    lemma_header_len(s, off);
    SampleWord::lemma_unpack_pack(
        s.has_loop() || s.vorbis_crc is Some,
        spec_frequency_to_index(s.frequency),
        s.channels > 1,
        (off / 16) as u64,
        s.samples % 0x4000_0000,
    );
    lemma_sub_part(data, pos, hdr, 0, 8);
    assert(hdr.subrange(0, 8) =~= u64_le_bytes(w.0));
    lemma_le_u64_of_bytes(data, pos, w.0);
}

/// The chunks of a written sample header are read back.
pub proof fn lemma_header_chunks(data: Seq<u8>, pos: int, s: SampleView, off: int)
    requires
        0 <= pos,
        s.vorbis_chunk_size() < 0x100_0000,
        s.has_loop() || s.vorbis_crc is Some,
        pos + header_len(s) <= data.len(),
        data.subrange(pos, pos + header_len(s)) == spec_sample_header(s, off),
    ensures
        spec_parse_chunks(data, pos + 8, no_chunks()) == Ok::<(ChunkData, int), Error>(
            (written_chunks(s), pos + header_len(s)),
        ),
{
    let hdr = spec_sample_header(s, off);
    lemma_header_len(s, off);
    if s.has_loop() {
        lemma_sub_part(data, pos, hdr, 8, 20);
        assert(hdr.subrange(8, 20) =~= spec_loop_chunk(s));
        lemma_parse_loop_chunk(data, pos + 8, s, no_chunks());
        if s.vorbis_crc is Some {
            let v = spec_vorbis_chunk(s);
            lemma_sub_part(data, pos, hdr, 20, 20 + v.len() as int);
            assert(hdr.subrange(20, 20 + v.len() as int) =~= v);
            lemma_parse_vorbis_chunk(
                data,
                pos + 20,
                s,
                ChunkData { loop_start: s.loop_start, loop_end: s.loop_end, ..no_chunks() },
            );
        }
    } else {
        let v = spec_vorbis_chunk(s);
        lemma_sub_part(data, pos, hdr, 8, 8 + v.len() as int);
        assert(hdr.subrange(8, 8 + v.len() as int) =~= v);
        lemma_parse_vorbis_chunk(data, pos + 8, s, no_chunks());
    }
}

/// A written sample header is read back: the word with its fields, the
/// chunks with what they hold, and the position behind the header.
pub proof fn lemma_parse_written_header(
    data: Seq<u8>,
    pos: int,
    s: SampleView,
    off: int,
    index: int,
    base: int,
)
    requires
        0 <= pos,
        0 <= off <= u32::MAX,
        s.vorbis_chunk_size() < 0x100_0000,
        pos + header_len(s) <= data.len(),
        data.subrange(pos, pos + header_len(s)) == spec_sample_header(s, off),
    ensures
        spec_parse_header(data, pos, index, base) == Ok::<(SampleView, int), Error>(
            (
                raw_sample(index, spec_sample_word(s, off), written_chunks(s), base),
                pos + header_len(s),
            ),
        ),
{
    lemma_header_word(data, pos, s, off);
    if s.has_loop() || s.vorbis_crc is Some {
        lemma_header_chunks(data, pos, s, off);
    } else {
        assert(written_chunks(s) == no_chunks());
    }
}

/// The sample that is read back from the written header of sample `i`,
/// before its size and name are known.
pub open spec fn reread_sample(b: BankView, base: int, i: int) -> SampleView {
    raw_sample(
        i,
        spec_sample_word(b.samples[i], spec_audio_offset(b, i as nat)),
        written_chunks(b.samples[i]),
        base,
    )
}

/// The samples that are read back from the first `k` written headers.
pub open spec fn reread_raw(b: BankView, base: int, k: nat) -> Seq<SampleView> {
    Seq::new(k, |i: int| reread_sample(b, base, i))
}

/// In the block of written headers, each header stands behind the ones
/// before it.
pub proof fn lemma_headers_part(b: BankView, i: nat, k: nat)
    requires
        i < k,
    ensures
        spec_headers_upto(b, k).len() >= spec_headers_upto(b, (i + 1) as nat).len(),
        spec_headers_upto(b, (i + 1) as nat).len() == spec_headers_upto(b, i).len() + header_len(
            b.samples[i as int],
        ),
        spec_headers_upto(b, k).subrange(
            spec_headers_upto(b, i).len() as int,
            spec_headers_upto(b, (i + 1) as nat).len() as int,
        ) == spec_sample_header(b.samples[i as int], spec_audio_offset(b, i)),
    decreases k - i,
{
    let h = spec_sample_header(b.samples[i as int], spec_audio_offset(b, i));
    lemma_header_len(b.samples[i as int], spec_audio_offset(b, i));
    let a = spec_headers_upto(b, i);
    assert(spec_headers_upto(b, (i + 1) as nat) == a + h);
    if i + 1 == k {
        assert((a + h).subrange(a.len() as int, (a + h).len() as int) =~= h);
    } else {
        lemma_headers_part(b, i, (k - 1) as nat);
        let prev = spec_headers_upto(b, (k - 1) as nat);
        let last = spec_sample_header(
            b.samples[k - 1],
            spec_audio_offset(b, (k - 1) as nat),
        );
        assert(spec_headers_upto(b, k) == prev + last);
        assert((prev + last).subrange(a.len() as int, (a + h).len() as int) =~= prev.subrange(
            a.len() as int,
            (a + h).len() as int,
        ));
    }
}

/// Where the written header of sample `i` starts in the file.
pub open spec fn header_pos(b: BankView, i: nat) -> int {
    60 + spec_headers_upto(b, i).len() as int
}

/// In a file that holds the block of written headers, the header of sample
/// `i` stands at its position.
pub proof fn lemma_written_header_at(b: BankView, data: Seq<u8>, i: nat)
    requires
        i < b.samples.len(),
        60 + spec_headers(b).len() <= data.len(),
        data.subrange(60, 60 + spec_headers(b).len() as int) == spec_headers(b),
    ensures
        header_pos(b, (i + 1) as nat) == header_pos(b, i) + header_len(b.samples[i as int]),
        header_pos(b, (i + 1) as nat) <= 60 + spec_headers(b).len(),
        data.subrange(header_pos(b, i), header_pos(b, (i + 1) as nat)) == spec_sample_header(
            b.samples[i as int],
            spec_audio_offset(b, i),
        ),
{
    let n = b.samples.len();
    let all = spec_headers(b);
    let pos = header_pos(b, i);
    let next = header_pos(b, (i + 1) as nat);
    lemma_headers_part(b, i, n);
    let part = all.subrange(pos - 60, next - 60);
    assert(data.subrange(pos, next) =~= part) by {
        assert forall|m: int| 0 <= m < next - pos implies data.subrange(pos, next)[m]
            == part[m] by {
            assert(data[pos + m] == data.subrange(60, 60 + all.len() as int)[pos - 60 + m]);
        }
    }
}

/// The block of written headers is read back header by header.
pub proof fn lemma_parse_written_headers(b: BankView, data: Seq<u8>, base: int, i: nat)
    requires
        i <= b.samples.len(),
        b.seek_tables_fit(),
        spec_audio(b).len() <= u32::MAX,
        60 + spec_headers(b).len() <= data.len(),
        data.subrange(60, 60 + spec_headers(b).len() as int) == spec_headers(b),
    ensures
        spec_parse_headers(
            data,
            header_pos(b, i),
            (b.samples.len() - i) as nat,
            base,
            reread_raw(b, base, i),
        ) == Ok::<Seq<SampleView>, Error>(reread_raw(b, base, b.samples.len())),
    decreases b.samples.len() - i,
{
    let n = b.samples.len();
    if i < n {
        let s = b.samples[i as int];
        let off = spec_audio_offset(b, i);
        let pos = header_pos(b, i);
        let acc = reread_raw(b, base, i);
        lemma_written_header_at(b, data, i);
        lemma_audio_grows(b, i, n);
        assert(s.vorbis_chunk_size() < 0x100_0000);
        lemma_parse_written_header(data, pos, s, off, i as int, base);
        let one = reread_sample(b, base, i as int);
        assert(acc.len() == i);
        assert(spec_parse_header(data, pos, acc.len() as int, base) == Ok::<
            (SampleView, int),
            Error,
        >((one, header_pos(b, (i + 1) as nat))));
        assert(acc.push(one) =~= reread_raw(b, base, (i + 1) as nat));
        lemma_parse_written_headers(b, data, base, (i + 1) as nat);
        assert(spec_parse_headers(data, pos, (n - i) as nat, base, acc) == spec_parse_headers(
            data,
            header_pos(b, (i + 1) as nat),
            (n - i - 1) as nat,
            base,
            acc.push(one),
        ));
    } else {
        assert(reread_raw(b, base, i) == reread_raw(b, base, n));
    }
}


/// A 32-bit field that was written at `at` into a header is read back.
proof fn lemma_field_read(h: Seq<u8>, at: int, v: u32)
    requires
        0 <= at,
        at + 4 <= h.len(),
        h.subrange(at, at + 4) == u32_le_bytes(v),
    ensures
        le_u32(h, at) == v,
{
    lemma_le_u32_of_bytes(h, at, v);
}

/// What the fixed header of a written version 5 file holds.
pub proof fn lemma_header5_fields(b: BankView)
    ensures
        spec_header5(b).len() == 60,
        spec_header5(b).subrange(0, 4) == fsb5_magic(),
        le_u32(spec_header5(b), 8) == b.samples.len() as u32,
        le_u32(spec_header5(b), 12) == spec_headers(b).len() as u32,
        le_u32(spec_header5(b), 16) == b.name_table_size,
        le_u32(spec_header5(b), 20) == spec_audio(b).len() as u32,
        le_u32(spec_header5(b), 24) == b.codec.spec_to_u32(),
        le_u32(spec_header5(b), 28) == b.fsb5_mode,
        le_u32(spec_header5(b), 32) == b.flags,
        spec_header5(b).subrange(36, 60) == spec_header_tail(b.data, 36, 60),
{
    reveal(spec_header5);
    let h = spec_header5(b);
    let tail = spec_header_tail(b.data, 36, 60);
    assert(tail.len() == 24);
    assert(h.len() == 60);
    assert(h.subrange(0, 4) =~= fsb5_magic());
    assert(h.subrange(8, 12) =~= u32_le_bytes(b.samples.len() as u32));
    lemma_field_read(h, 8, b.samples.len() as u32);
    assert(h.subrange(12, 16) =~= u32_le_bytes(spec_headers(b).len() as u32));
    lemma_field_read(h, 12, spec_headers(b).len() as u32);
    assert(h.subrange(16, 20) =~= u32_le_bytes(b.name_table_size));
    lemma_field_read(h, 16, b.name_table_size);
    assert(h.subrange(20, 24) =~= u32_le_bytes(spec_audio(b).len() as u32));
    lemma_field_read(h, 20, spec_audio(b).len() as u32);
    assert(h.subrange(24, 28) =~= u32_le_bytes(b.codec.spec_to_u32()));
    lemma_field_read(h, 24, b.codec.spec_to_u32());
    assert(h.subrange(28, 32) =~= u32_le_bytes(b.fsb5_mode));
    lemma_field_read(h, 28, b.fsb5_mode);
    assert(h.subrange(32, 36) =~= u32_le_bytes(b.flags));
    lemma_field_read(h, 32, b.flags);
    assert(h.subrange(36, 60) =~= tail);
}

/// Where the data region starts in a written file.
pub open spec fn saved_base(b: BankView) -> int {
    60 + spec_headers(b).len() + b.name_table_size
}

/// How a written version 5 file is laid out: the header, the sample
/// headers, the name table and the data region, one after the other.
pub proof fn lemma_saved_layout(b: BankView)
    requires
        spec_save5_check(b) is Ok,
    ensures
        ({
            let p = spec_save_fsb5_plain(b);
            let hl = spec_headers(b).len() as int;
            let base = saved_base(b);
            &&& p.len() == base + spec_audio(b).len()
            &&& p.subrange(0, 60) == spec_header5(b)
            &&& p.subrange(60, 60 + hl) == spec_headers(b)
            &&& p.subrange(60 + hl, base) == b.name_table()
            &&& p.subrange(base, p.len() as int) == spec_audio(b)
        }),
{
    let p = spec_save_fsb5_plain(b);
    let hl = spec_headers(b).len() as int;
    let base = saved_base(b);
    lemma_header5_fields(b);
    assert(b.name_table().len() == b.name_table_size);
    assert(p.subrange(0, 60) =~= spec_header5(b));
    assert(p.subrange(60, 60 + hl) =~= spec_headers(b));
    assert(p.subrange(60 + hl, base) =~= b.name_table());
    assert(p.subrange(base, p.len() as int) =~= spec_audio(b));
}

/// A field of the header of a file is the field of the header alone.
pub proof fn lemma_field_of_prefix(p: Seq<u8>, h: Seq<u8>, at: int)
    requires
        0 <= at,
        at + 4 <= h.len() <= p.len(),
        p.subrange(0, h.len() as int) == h,
    ensures
        le_u32(p, at) == le_u32(h, at),
{
    let part = p.subrange(0, h.len() as int);
    assert(p[at] == part[at]);
    assert(p[at + 1] == part[at + 1]);
    assert(p[at + 2] == part[at + 2]);
    assert(p[at + 3] == part[at + 3]);
}


/// The bank that reading back a written version 5 file gives: the samples
/// as their written headers describe them, each running up to the start of
/// the next one in the written data region, and the written file as the
/// buffer.
pub open spec fn reread_bank(b: BankView, kind: Encryption) -> BankView {
    let base = saved_base(b);
    let end = base + spec_audio(b).len();
    BankView {
        version: Version::Fsb5,
        codec: b.codec,
        samples: finish_samples(
            reread_raw(b, base, b.samples.len()),
            spec_names(b.name_table(), b.samples.len() as int)->Ok_0,
            end,
        ),
        encryption: kind,
        data: spec_save_fsb5_plain(b),
        header_size: 60,
        sample_headers_size: spec_headers(b).len() as u32,
        name_table_size: b.name_table_size,
        data_size: spec_audio(b).len() as u32,
        flags: b.flags,
        fsb5_mode: b.fsb5_mode,
    }
}

/// The id of a codec names the codec.
pub proof fn lemma_codec_id(c: Codec)
    ensures
        Codec::spec_from_u32(c.spec_to_u32()) == Some(c),
{
}

/// The fields of the word that is written for a sample.
pub proof fn lemma_written_word(s: SampleView, off: int)
    requires
        0 <= off <= u32::MAX,
    ensures
        spec_sample_word(s, off).spec_has_chunks() == (s.has_loop() || s.vorbis_crc is Some),
        spec_sample_word(s, off).spec_frequency_index() == spec_frequency_to_index(s.frequency),
        spec_sample_word(s, off).spec_stereo() == (s.channels > 1),
        spec_sample_word(s, off).spec_offset_units() == off / 16,
        spec_sample_word(s, off).spec_sample_count() == s.samples % 0x4000_0000,
{
    SampleWord::lemma_unpack_pack(
        s.has_loop() || s.vorbis_crc is Some,
        spec_frequency_to_index(s.frequency),
        s.channels > 1,
        (off / 16) as u64,
        s.samples % 0x4000_0000,
    );
}

/// What the sample that is read back from a written header is like.
pub proof fn lemma_reread_sample(b: BankView, base: int, i: int)
    requires
        0 <= i < b.samples.len(),
        0 <= base <= 0x4_0000_0000,
        spec_audio(b).len() <= u32::MAX,
    ensures
        ({
            let r = reread_sample(b, base, i);
            let s = b.samples[i];
            &&& r.index == i
            &&& r.loop_start == written_chunks(s).loop_start
            &&& r.loop_end == written_chunks(s).loop_end
            &&& r.vorbis_crc == s.vorbis_crc
            &&& r.vorbis_seek_table == written_chunks(s).vorbis_seek_table
            &&& r.frequency == spec_frequency(spec_frequency_to_index(s.frequency))
            &&& r.channels == (if s.channels > 1 {
                2u32
            } else {
                1u32
            })
            &&& r.samples == s.samples % 0x4000_0000
            &&& r.data_offset == base + spec_audio_offset(b, i as nat)
        }),
{
    let off = spec_audio_offset(b, i as nat);
    lemma_audio_grows(b, i as nat, b.samples.len());
    lemma_written_word(b.samples[i], off);
    assert(off % 16 == 0);
    assert((off / 16) * 16 == off);
}

/// Where a sample that is read back starts: at its place in the written
/// data region.
pub proof fn lemma_reread_offset(b: BankView, base: int, i: int)
    requires
        0 <= i < b.samples.len(),
        0 <= base <= 0x4_0000_0000,
        spec_audio(b).len() <= u32::MAX,
    ensures
        reread_sample(b, base, i).data_offset == base + spec_audio_offset(b, i as nat),
        spec_audio_offset(b, i as nat) <= spec_audio(b).len(),
        spec_audio_offset(b, i as nat) % 32 == 0,
        i + 1 < b.samples.len() ==> spec_audio_offset(b, i as nat) <= spec_audio_offset(
            b,
            (i + 1) as nat,
        ),
{
    let s = b.samples[i];
    let off = spec_audio_offset(b, i as nat);
    lemma_audio_grows(b, i as nat, b.samples.len());
    lemma_audio_grows(b, i as nat, (i + 1) as nat);
    SampleWord::lemma_unpack_pack(
        s.has_loop() || s.vorbis_crc is Some,
        spec_frequency_to_index(s.frequency),
        s.channels > 1,
        (off / 16) as u64,
        s.samples % 0x4000_0000,
    );
    assert(off % 16 == 0);
    assert((off / 16) * 16 == off);
}

/// The samples that are read back lie in the written data region one after
/// the other.
pub proof fn lemma_reread_offsets_ok(b: BankView)
    requires
        spec_save5_check(b) is Ok,
    ensures
        offsets_ok(
            reread_raw(b, saved_base(b), b.samples.len()),
            saved_base(b) + spec_audio(b).len(),
        ),
{
    let base = saved_base(b);
    let raw = reread_raw(b, base, b.samples.len());
    let end = base + spec_audio(b).len();
    assert forall|i: int| 0 <= i < raw.len() implies (#[trigger] raw[i]).data_offset
        <= next_offset(raw, i, end) by {
        lemma_reread_offset(b, base, i);
        if i + 1 < raw.len() {
            lemma_reread_offset(b, base, i + 1);
        }
    }
}

/// A written file whose header is in the clear, and whose data region is
/// in the clear after the second step of decryption, is read back as the
/// bank that was written.
pub proof fn lemma_parse_saved(b: BankView, d1: Seq<u8>, kind: Encryption)
    requires
        spec_save5_check(b) is Ok,
        spec_names(b.name_table(), b.samples.len() as int) is Ok,
        d1.len() == spec_save_fsb5_plain(b).len(),
        d1.subrange(0, 60) == spec_header5(b),
        spec_decrypt_data(d1, kind, saved_base(b), saved_base(b) + spec_audio(b).len())
            == spec_save_fsb5_plain(b),
    ensures
        spec_parse_fsb5(d1, kind) == Ok::<BankView, Error>(reread_bank(b, kind)),
{
    let p = spec_save_fsb5_plain(b);
    let h = spec_header5(b);
    let n = b.samples.len();
    let hl = spec_headers(b).len();
    let al = spec_audio(b).len();
    let base = saved_base(b);
    lemma_saved_layout(b);
    lemma_header5_fields(b);
    lemma_field_of_prefix(d1, h, 8);
    lemma_field_of_prefix(d1, h, 12);
    lemma_field_of_prefix(d1, h, 16);
    lemma_field_of_prefix(d1, h, 20);
    lemma_field_of_prefix(d1, h, 24);
    lemma_field_of_prefix(d1, h, 28);
    lemma_field_of_prefix(d1, h, 32);
    lemma_codec_id(b.codec);
    assert(le_u32(d1, 8) == n);
    assert(le_u32(d1, 12) == hl);
    assert(le_u32(d1, 20) == al);
    lemma_parse_written_headers(b, p, base, 0);
    assert(reread_raw(b, base, 0) =~= Seq::<SampleView>::empty());
    lemma_reread_offsets_ok(b);
    assert(spec_parse_samples5(p, n as u32, hl as u32, b.name_table_size, al as u32) == Ok::<
        Seq<SampleView>,
        Error,
    >(reread_bank(b, kind).samples));
}


/// Where the written data of sample `i` ends in the written data region:
/// where the next sample starts, or at the end of the region.
pub open spec fn written_end(b: BankView, i: int) -> int {
    if i + 1 < b.samples.len() {
        spec_audio_offset(b, (i + 1) as nat)
    } else {
        spec_audio(b).len() as int
    }
}

/// What finishing a sample keeps: all but the size and the name; and the
/// sample then ends where the next one starts.
pub proof fn lemma_finish_sample(
    raw: Seq<SampleView>,
    names: Seq<Option<Seq<char>>>,
    end: int,
    i: int,
)
    requires
        0 <= i < raw.len(),
        raw[i].data_offset <= next_offset(raw, i, end) <= u64::MAX,
    ensures
        ({
            let r = finish_samples(raw, names, end)[i];
            &&& r.data_end() == next_offset(raw, i, end)
            &&& r == SampleView { data_size: r.data_size, name: r.name, ..raw[i] }
        }),
{
}

/// What a sample that is read back has in common with the sample that was
/// written: all that its header stores, and its place in the data region.
pub proof fn lemma_reread_fields(b: BankView, kind: Encryption, i: int)
    requires
        spec_save5_check(b) is Ok,
        0 <= i < b.samples.len(),
    ensures
        ({
            let r = reread_bank(b, kind).samples[i];
            let s = b.samples[i];
            &&& r.has_loop() == s.has_loop()
            &&& s.has_loop() ==> r.loop_start == s.loop_start && r.loop_end == s.loop_end
            &&& r.vorbis_crc == s.vorbis_crc
            &&& s.vorbis_crc is Some ==> r.seek_entries() == s.seek_entries()
            &&& r.vorbis_chunk_size() < 0x100_0000
            &&& spec_frequency_to_index(r.frequency) == spec_frequency_to_index(s.frequency)
            &&& (r.channels > 1) == (s.channels > 1)
            &&& r.samples % 0x4000_0000 == s.samples % 0x4000_0000
            &&& r.data_offset == saved_base(b) + spec_audio_offset(b, i as nat)
            &&& r.data_end() == saved_base(b) + written_end(b, i)
            &&& r.index == i
        }),
{
    let base = saved_base(b);
    let end = base + spec_audio(b).len();
    let s = b.samples[i];
    let raw = reread_raw(b, base, b.samples.len());
    let names = spec_names(b.name_table(), b.samples.len() as int)->Ok_0;
    assert(s.vorbis_chunk_size() < 0x100_0000);
    lemma_reread_sample(b, base, i);
    lemma_reread_offset(b, base, i);
    assert(raw[i] == reread_sample(b, base, i));
    assert(next_offset(raw, i, end) == base + written_end(b, i)) by {
        if i + 1 < b.samples.len() {
            lemma_reread_sample(b, base, i + 1);
            assert(raw[i + 1] == reread_sample(b, base, i + 1));
        }
    }
    lemma_finish_sample(raw, names, end, i);
    assert(reread_bank(b, kind).samples[i] == finish_samples(raw, names, end)[i]);
}

/// The header that is written for a sample that was read back is the
/// header that it was read from.
pub proof fn lemma_reread_header(b: BankView, kind: Encryption, i: int, off: int)
    requires
        spec_save5_check(b) is Ok,
        0 <= i < b.samples.len(),
    ensures
        spec_sample_header(reread_bank(b, kind).samples[i], off) == spec_sample_header(
            b.samples[i],
            off,
        ),
{
    lemma_reread_fields(b, kind, i);
    let r = reread_bank(b, kind).samples[i];
    let s = b.samples[i];
    assert(spec_sample_word(r, off) == spec_sample_word(s, off));
    if s.has_loop() {
        assert(spec_loop_chunk(r) == spec_loop_chunk(s));
    }
    if s.vorbis_crc is Some {
        assert(spec_vorbis_chunk(r) == spec_vorbis_chunk(s));
    }
}

/// The bytes of a sample that was read back are its part of the written
/// data region.
pub proof fn lemma_reread_bytes(b: BankView, kind: Encryption, i: int)
    requires
        spec_save5_check(b) is Ok,
        0 <= i < b.samples.len(),
    ensures
        0 <= spec_audio_offset(b, i as nat) <= written_end(b, i) <= spec_audio(b).len(),
        reread_bank(b, kind).sample_bytes(i) == spec_audio(b).subrange(
            spec_audio_offset(b, i as nat),
            written_end(b, i),
        ),
{
    let base = saved_base(b);
    lemma_reread_fields(b, kind, i);
    lemma_saved_layout(b);
    lemma_reread_offset(b, base, i);
    if i + 1 < b.samples.len() {
        lemma_reread_offset(b, base, i + 1);
    }
    lemma_sub_part(
        spec_save_fsb5_plain(b),
        base,
        spec_audio(b),
        spec_audio_offset(b, i as nat),
        written_end(b, i),
    );
}

/// A length that is a multiple of 32 needs no padding.
pub proof fn lemma_pad32_aligned(s: Seq<u8>)
    requires
        s.len() % 32 == 0,
    ensures
        pad32(s) == s,
{
    assert(pad_len(s.len() as int) == 0);
    assert(pad32(s) =~= s);
}

/// The start of the written data region up to the end of a sample, and
/// that region up to the end of the next sample.
proof fn lemma_audio_step(au: Seq<u8>, start: int, end: int, before: Seq<u8>, bytes: Seq<u8>)
    requires
        0 <= start <= end <= au.len(),
        before == au.subrange(0, start),
        bytes == au.subrange(start, end),
    ensures
        before + bytes == au.subrange(0, end),
{
    assert(before + bytes =~= au.subrange(0, end));
}

/// The data region that is written for the first `k` samples that were
/// read back is the start of the data region that they were read from.
#[verifier::rlimit(50)]
pub proof fn lemma_reread_audio(b: BankView, kind: Encryption, k: nat)
    requires
        spec_save5_check(b) is Ok,
        k <= b.samples.len(),
    ensures
        k == 0 ==> spec_audio_upto(reread_bank(b, kind), k) == Seq::<u8>::empty(),
        k > 0 ==> spec_audio_upto(reread_bank(b, kind), k) == spec_audio(b).subrange(
            0,
            written_end(b, k - 1),
        ),
        spec_audio_offset(reread_bank(b, kind), k) == (if k < b.samples.len() {
            spec_audio_offset(b, k)
        } else {
            spec_audio(b).len() as int
        }),
    decreases k,
{
    let r = reread_bank(b, kind);
    let au = spec_audio(b);
    let n = b.samples.len();
    lemma_pad_len(spec_audio_upto(b, n).len() as int);
    if k == 0 {
        lemma_pad32_aligned(Seq::<u8>::empty());
        assert(spec_audio_upto(r, 0) == Seq::<u8>::empty());
        assert(spec_audio_upto(b, 0) == Seq::<u8>::empty());
        assert(spec_audio_offset(r, 0) == 0);
        assert(spec_audio_offset(b, 0) == 0);
        if n == 0 {
            assert(au == pad32(Seq::<u8>::empty()));
        }
    } else {
        lemma_reread_audio(b, kind, (k - 1) as nat);
        lemma_reread_bytes(b, kind, k - 1);
        let before = spec_audio_upto(r, (k - 1) as nat);
        let start = spec_audio_offset(b, (k - 1) as nat);
        let end = written_end(b, k - 1);
        lemma_audio_grows(b, (k - 1) as nat, n);
        assert(pad32(before).len() == spec_audio_offset(r, (k - 1) as nat));
        assert(spec_audio_offset(r, (k - 1) as nat) == start);
        assert(pad32(before) == au.subrange(0, start)) by {
            if k == 1 {
                lemma_pad32_aligned(Seq::<u8>::empty());
                assert(au.subrange(0, 0) =~= Seq::<u8>::empty());
            } else {
                assert(written_end(b, k - 2) == start);
                assert(before.len() == start);
                lemma_pad32_aligned(before);
            }
        }
        assert(spec_audio_upto(r, k) == pad32(before) + r.sample_bytes(k - 1));
        lemma_audio_step(au, start, end, pad32(before), r.sample_bytes(k - 1));
        if k < n {
            lemma_audio_grows(b, k, n);
        }
        assert(end % 32 == 0);
        assert(au.subrange(0, end).len() == end);
        lemma_pad32_aligned(au.subrange(0, end));
    }
}

/// The headers that are written for the first `k` samples that were read
/// back are the headers that they were read from.
pub proof fn lemma_reread_headers(b: BankView, kind: Encryption, k: nat)
    requires
        spec_save5_check(b) is Ok,
        k <= b.samples.len(),
    ensures
        spec_headers_upto(reread_bank(b, kind), k) == spec_headers_upto(b, k),
    decreases k,
{
    if k > 0 {
        lemma_reread_headers(b, kind, (k - 1) as nat);
        lemma_reread_audio(b, kind, (k - 1) as nat);
        lemma_reread_header(b, kind, k - 1, spec_audio_offset(b, (k - 1) as nat));
    }
}

/// Writing the bank that was read back from a written file gives the file
/// again, before any cipher.
pub proof fn lemma_resave_plain(b: BankView, kind: Encryption)
    requires
        spec_save5_check(b) is Ok,
    ensures
        spec_save5_check(reread_bank(b, kind)) is Ok,
        spec_headers(reread_bank(b, kind)) == spec_headers(b),
        spec_audio(reread_bank(b, kind)) == spec_audio(b),
        spec_save_fsb5_plain(reread_bank(b, kind)) == spec_save_fsb5_plain(b),
{
    let r = reread_bank(b, kind);
    let n = b.samples.len();
    let p = spec_save_fsb5_plain(b);
    lemma_saved_layout(b);
    lemma_reread_headers(b, kind, n);
    lemma_reread_audio(b, kind, n);
    assert(r.samples.len() == n);
    assert(spec_audio(r) == spec_audio(b)) by {
        lemma_pad_len(spec_audio_upto(b, n).len() as int);
        if n == 0 {
        } else {
            assert(spec_audio(b).subrange(0, spec_audio(b).len() as int) =~= spec_audio(b));
            lemma_pad32_aligned(spec_audio(b));
        }
    }
    assert forall|i: int| 0 <= i < n implies (#[trigger] r.samples[i]).data_end()
        <= r.data.len() && r.samples[i].vorbis_chunk_size() < 0x100_0000 by {
        lemma_reread_fields(b, kind, i);
        lemma_reread_bytes(b, kind, i);
    }
    assert(r.name_table() == b.name_table());
    assert(spec_header_tail(r.data, 36, 60) == spec_header_tail(b.data, 36, 60)) by {
        lemma_header5_fields(b);
        assert(p.subrange(36, 60) =~= p.subrange(0, 60).subrange(36, 60));
    }
    assert(spec_header5(r) == spec_header5(b)) by {
        reveal(spec_header5);
    }
}


/// A written version 5 file in the clear is recognised as what it is.
pub proof fn lemma_detect_plain(b: BankView)
    requires
        spec_save5_check(b) is Ok,
    ensures
        spec_detect(spec_save_fsb5_plain(b)) == Ok::<(Version, Encryption), Error>(
            (Version::Fsb5, Encryption::Plain),
        ),
{
    let p = spec_save_fsb5_plain(b);
    lemma_saved_layout(b);
    lemma_header5_fields(b);
    assert(p.subrange(0, 4) =~= p.subrange(0, 60).subrange(0, 4));
    assert(fsb5_magic()[3] != fsb4_magic()[3]);
}

/// The header of a written file under a cipher is in the clear again after
/// the first step of decryption, and its data region after the second.
pub proof fn lemma_decrypt_saved(b: BankView, kind: Encryption)
    requires
        spec_save5_check(b) is Ok,
        decrypts_back(
            spec_save_fsb5_plain(b),
            kind,
            saved_base(b),
            saved_base(b) + spec_audio(b).len(),
        ),
    ensures
        ({
            let p = spec_save_fsb5_plain(b);
            let base = saved_base(b);
            let end = base + spec_audio(b).len();
            let d1 = spec_decrypt_header(spec_encrypt(p, kind, base, end), kind);
            &&& d1.len() == p.len()
            &&& d1.subrange(0, 60) == spec_header5(b)
            &&& spec_decrypt_data(d1, kind, base, end) == p
        }),
{
    let p = spec_save_fsb5_plain(b);
    let base = saved_base(b);
    let end = base + spec_audio(b).len();
    let d1 = spec_decrypt_header(spec_encrypt(p, kind, base, end), kind);
    let d2 = spec_decrypt_data(d1, kind, base, end);
    lemma_saved_layout(b);
    assert(d2 == p);
    assert(d1.len() == p.len()) by {
        assert(d2.len() == p.len());
    }
    assert(d1.subrange(0, 60) =~= p.subrange(0, 60)) by {
        assert forall|i: int| 0 <= i < 60 implies d1[i] == p[i] by {
            assert(d2[i] == d1[i]);
        }
    }
}

/// Whether a saved version 5 file can be told from others and decrypted:
/// under a cipher it is recognised as what it is, which a file in the
/// clear always is; and under the block cipher decryption undoes the file's
/// encryption, which the writer finds of each file that it encrypts.
pub open spec fn loads_back(b: BankView, encrypt: bool) -> bool {
    &&& save_cipher(b, encrypt) != Encryption::Plain ==> spec_detect(spec_save(b, encrypt)->Ok_0)
        == Ok::<(Version, Encryption), Error>((Version::Fsb5, save_cipher(b, encrypt)))
    &&& save_cipher(b, encrypt) == Encryption::Aes ==> decrypts_back(
        spec_save_fsb5_plain(b),
        Encryption::Aes,
        saved_base(b),
        saved_base(b) + spec_audio(b).len(),
    )
}

/// The file that a sound version 5 bank is written as is read back as the
/// bank that its written headers describe.
pub proof fn lemma_load_saved_fsb5(b: BankView, encrypt: bool)
    requires
        b.version == Version::Fsb5,
        b.wf(),
        spec_save(b, encrypt) is Ok,
        loads_back(b, encrypt),
    ensures
        spec_save5_check(b) is Ok,
        spec_from_bytes(spec_save(b, encrypt)->Ok_0) == Ok::<BankView, Error>(
            reread_bank(b, save_cipher(b, encrypt)),
        ),
        reread_bank(b, save_cipher(b, encrypt)).wf(),
{
    let kind = save_cipher(b, encrypt);
    let p = spec_save_fsb5_plain(b);
    let base = saved_base(b);
    let end = base + spec_audio(b).len();
    let bytes = spec_save(b, encrypt)->Ok_0;
    assert(bytes == spec_encrypt(p, kind, base, end));
    lemma_detect_plain(b);
    lemma_saved_layout(b);
    if kind != Encryption::Aes {
        lemma_decrypts_back(p, kind, base, end);
    }
    lemma_decrypt_saved(b, kind);
    let d1 = spec_decrypt_header(bytes, kind);
    lemma_parse_saved(b, d1, kind);
    crate::fsb::parse5::lemma_parse_fsb5_wf(d1, kind);
}

/// Saving and loading again is a round trip for a version 5 bank: the
/// file that a sound bank is written as is read back as a sound bank under
/// the same cipher, and writing that bank under its cipher gives the file
/// again, byte for byte.
pub proof fn lemma_roundtrip_fsb5(b: BankView, encrypt: bool)
    requires
        b.version == Version::Fsb5,
        b.wf(),
        spec_save(b, encrypt) is Ok,
        loads_back(b, encrypt),
    ensures
        spec_from_bytes(spec_save(b, encrypt)->Ok_0) is Ok,
        spec_from_bytes(spec_save(b, encrypt)->Ok_0)->Ok_0.wf(),
        spec_from_bytes(spec_save(b, encrypt)->Ok_0)->Ok_0.encryption == save_cipher(b, encrypt),
        spec_save(spec_from_bytes(spec_save(b, encrypt)->Ok_0)->Ok_0, true) == spec_save(
            b,
            encrypt,
        ),
{
    let kind = save_cipher(b, encrypt);
    lemma_load_saved_fsb5(b, encrypt);
    lemma_resave_plain(b, kind);
    assert(saved_base(reread_bank(b, kind)) == saved_base(b));
}

/// What loading keeps of a sample that was saved: a version 5 file with
/// the headers of some samples is loaded as a bank with as many samples,
/// in their order. Each has its index, the frequency that its frequency
/// index stands for, one or two channels, and its sample count modulo 2^30;
/// both loop points if its header has a loop chunk, else none; the
/// checksum and the seek table if its header has a Vorbis chunk, else none;
/// and no mode word.
pub proof fn lemma_loaded_sample_fsb5(b: BankView, encrypt: bool, i: int)
    requires
        b.version == Version::Fsb5,
        b.wf(),
        spec_save(b, encrypt) is Ok,
        loads_back(b, encrypt),
        0 <= i < b.samples.len(),
    ensures
        ({
            let loaded = spec_from_bytes(spec_save(b, encrypt)->Ok_0)->Ok_0;
            let r = loaded.samples[i];
            let s = b.samples[i];
            &&& spec_from_bytes(spec_save(b, encrypt)->Ok_0) is Ok
            &&& loaded.version == Version::Fsb5
            &&& loaded.codec == b.codec
            &&& loaded.samples.len() == b.samples.len()
            &&& r.index == i
            &&& r.frequency == spec_frequency(spec_frequency_to_index(s.frequency))
            &&& in_frequency_table(s.frequency) ==> r.frequency == s.frequency
            &&& r.channels == (if s.channels > 1 {
                2u32
            } else {
                1u32
            })
            &&& r.samples == s.samples % 0x4000_0000
            &&& s.has_loop() ==> r.loop_start == s.loop_start && r.loop_end == s.loop_end
            &&& !s.has_loop() ==> r.loop_start is None && r.loop_end is None
            &&& r.vorbis_crc == s.vorbis_crc
            &&& s.vorbis_crc is Some ==> r.vorbis_seek_table == Some(s.seek_entries())
            &&& s.vorbis_crc is None ==> r.vorbis_seek_table is None
            &&& r.mode is None
        }),
{
    let kind = save_cipher(b, encrypt);
    let base = saved_base(b);
    let end = base + spec_audio(b).len();
    lemma_load_saved_fsb5(b, encrypt);
    let raw = reread_raw(b, base, b.samples.len());
    let names = spec_names(b.name_table(), b.samples.len() as int)->Ok_0;
    lemma_reread_sample(b, base, i);
    lemma_reread_fields(b, kind, i);
    lemma_reread_offsets_ok(b);
    assert(raw[i] == reread_sample(b, base, i));
    assert(raw[i].data_offset <= next_offset(raw, i, end));
    lemma_reread_offset(b, base, i);
    if i + 1 < b.samples.len() {
        lemma_reread_offset(b, base, i + 1);
        lemma_reread_sample(b, base, i + 1);
        assert(raw[i + 1] == reread_sample(b, base, i + 1));
    }
    lemma_finish_sample(raw, names, end, i);
    assert(reread_bank(b, kind).samples[i] == finish_samples(raw, names, end)[i]);
}

} // verus!
