//! Writing version 5 banks.

use crate::bytes::{
    bytes_result_view, lemma_push_part, push_range, push_u32_le, push_u64_le, push_zeros,
    u32_le_bytes, u64_le_bytes, zeros,
};
use crate::error::Error;
use crate::fsb::detect::{decrypts_back, fsb5_magic, spec_encrypt};
use crate::fsb::parse5::{frequency_to_index, spec_frequency_to_index};
use crate::fsb::word::{ChunkWord, SampleWord, CHUNK_LOOP, CHUNK_VORBIS};
use crate::fsb::{BankView, Encryption, FsbBank, Sample, SampleView};
use vstd::prelude::*;

verus! {

/// How many zero bytes bring a length of `n` up to a multiple of 32.
pub open spec fn pad_len(n: int) -> int {
    (32 - n % 32) % 32
}

/// `s` followed by zero bytes up to a multiple of 32.
pub open spec fn pad32(s: Seq<u8>) -> Seq<u8> {
    s + zeros(pad_len(s.len() as int) as nat)
}

impl SampleView {
    /// Whether the sample has both loop points.
    pub open spec fn has_loop(self) -> bool {
        self.loop_start is Some && self.loop_end is Some
    }

    /// The seek table, empty where there is none.
    pub open spec fn seek_entries(self) -> Seq<u32> {
        match self.vorbis_seek_table {
            Some(t) => t,
            None => Seq::empty(),
        }
    }

    /// The length of the body of the sample's Vorbis chunk.
    pub open spec fn vorbis_chunk_size(self) -> int {
        4 + 4 * (self.seek_entries().len() as int)
    }
}

impl BankView {
    /// The bytes of sample `i`.
    pub open spec fn sample_bytes(self, i: int) -> Seq<u8> {
        self.data.subrange(self.samples[i].data_offset as int, self.samples[i].data_end())
    }

    /// Each sample's range lies inside the buffer.
    pub open spec fn samples_in_buffer(self) -> bool {
        forall|i: int|
            0 <= i < self.samples.len() ==> (#[trigger] self.samples[i]).data_end()
                <= self.data.len()
    }

    /// Each Vorbis chunk is short enough for the 24 bits of its length.
    pub open spec fn seek_tables_fit(self) -> bool {
        forall|i: int|
            0 <= i < self.samples.len() ==> (#[trigger] self.samples[i]).vorbis_chunk_size()
                < 0x100_0000
    }

    /// Where the name table starts in the buffer.
    pub open spec fn name_table_start(self) -> int {
        self.header_size + self.sample_headers_size
    }

    /// The name table, as it stands in the buffer.
    pub open spec fn name_table(self) -> Seq<u8> {
        self.data.subrange(self.name_table_start(), self.data_base())
    }
}

/// The bytes of a seek table: its entries, little-endian, one after the other.
pub open spec fn seek_table_bytes(t: Seq<u32>) -> Seq<u8> {
    Seq::new(4 * t.len(), |j: int| u32_le_bytes(t[j / 4])[j % 4])
}

/// The loop chunk of a sample: a chunk of type 3 that holds the two loop
/// points, and says whether a Vorbis chunk follows.
pub open spec fn spec_loop_chunk(s: SampleView) -> Seq<u8> {
    u32_le_bytes(ChunkWord::spec_pack(s.vorbis_crc is Some, 8, CHUNK_LOOP).0) + u32_le_bytes(
        s.loop_start->Some_0,
    ) + u32_le_bytes(s.loop_end->Some_0)
}

/// The Vorbis chunk of a sample: a last chunk of type 11 that holds the
/// checksum and the seek table.
pub open spec fn spec_vorbis_chunk(s: SampleView) -> Seq<u8> {
    u32_le_bytes(ChunkWord::spec_pack(false, s.vorbis_chunk_size() as u32, CHUNK_VORBIS).0)
        + u32_le_bytes(s.vorbis_crc->Some_0) + seek_table_bytes(s.seek_entries())
}

/// The word that opens the header of a sample whose data starts `offset`
/// bytes into the data region. The sample count is stored modulo 2^30.
pub open spec fn spec_sample_word(s: SampleView, offset: int) -> SampleWord {
    SampleWord::spec_pack(
        s.has_loop() || s.vorbis_crc is Some,
        spec_frequency_to_index(s.frequency),
        s.channels > 1,
        (offset / 16) as u64,
        s.samples % 0x4000_0000,
    )
}

/// The header of a sample: its word, then its loop chunk and its Vorbis
/// chunk as far as it has them.
pub open spec fn spec_sample_header(s: SampleView, offset: int) -> Seq<u8> {
    u64_le_bytes(spec_sample_word(s, offset).0) + (if s.has_loop() {
        spec_loop_chunk(s)
    } else {
        Seq::empty()
    }) + (if s.vorbis_crc is Some {
        spec_vorbis_chunk(s)
    } else {
        Seq::empty()
    })
}

/// The data region before its final padding, up to sample `k`: each sample's
/// bytes start at a multiple of 32.
pub open spec fn spec_audio_upto(b: BankView, k: nat) -> Seq<u8>
    decreases k,
{
    if k == 0 {
        Seq::empty()
    } else {
        pad32(spec_audio_upto(b, (k - 1) as nat)) + b.sample_bytes(k - 1)
    }
}

/// Where the data of sample `i` starts in the data region that is written.
pub open spec fn spec_audio_offset(b: BankView, i: nat) -> int {
    pad32(spec_audio_upto(b, i)).len() as int
}

/// The data region that is written.
pub open spec fn spec_audio(b: BankView) -> Seq<u8> {
    pad32(spec_audio_upto(b, b.samples.len()))
}

/// The headers of the first `k` samples, one after the other.
pub open spec fn spec_headers_upto(b: BankView, k: nat) -> Seq<u8>
    decreases k,
{
    if k == 0 {
        Seq::empty()
    } else {
        spec_headers_upto(b, (k - 1) as nat) + spec_sample_header(
            b.samples[k - 1],
            spec_audio_offset(b, (k - 1) as nat),
        )
    }
}

/// The block of sample headers that is written.
pub open spec fn spec_headers(b: BankView) -> Seq<u8> {
    spec_headers_upto(b, b.samples.len())
}

/// The 24 bytes behind the header's fields: those of the buffer, or zeros
/// where the buffer is too short to hold them.
pub open spec fn spec_header_tail(data: Seq<u8>, from: int, to: int) -> Seq<u8> {
    if data.len() >= to {
        data.subrange(from, to)
    } else {
        zeros(24)
    }
}

/// The fixed header of a version 5 file.
#[verifier::opaque]
pub open spec fn spec_header5(b: BankView) -> Seq<u8> {
    fsb5_magic() + u32_le_bytes(1) + u32_le_bytes(b.samples.len() as u32) + u32_le_bytes(
        spec_headers(b).len() as u32,
    ) + u32_le_bytes(b.name_table_size) + u32_le_bytes(spec_audio(b).len() as u32) + u32_le_bytes(
        b.codec.spec_to_u32(),
    ) + u32_le_bytes(b.fsb5_mode) + u32_le_bytes(b.flags) + spec_header_tail(b.data, 36, 60)
}

/// Whether the bank can be written as a version 5 file, and if not, why.
pub open spec fn spec_save5_check(b: BankView) -> Result<(), Error> {
    if !b.samples_in_buffer() || b.data_base() > b.data.len() {
        Err(Error::SampleOutOfBounds)
    } else if b.samples.len() > u32::MAX || !b.seek_tables_fit() || spec_headers(b).len()
        > u32::MAX || spec_audio(b).len() > u32::MAX {
        Err(Error::TooLarge)
    } else {
        Ok(())
    }
}

/// The bank as a version 5 file in the clear: the header, the sample
/// headers, the name table as it was, and the data region.
pub open spec fn spec_save_fsb5_plain(b: BankView) -> Seq<u8> {
    spec_header5(b) + spec_headers(b) + b.name_table() + spec_audio(b)
}

/// The cipher that a saved file is put under: the one that the bank was
/// found under, or none if the caller asks for a file in the clear.
pub open spec fn save_cipher(b: BankView, encrypt: bool) -> Encryption {
    if encrypt {
        b.encryption
    } else {
        Encryption::Plain
    }
}

/// The bank as a version 5 file.
pub open spec fn spec_save_fsb5(b: BankView, encrypt: bool) -> Result<Seq<u8>, Error> {
    match spec_save5_check(b) {
        Err(e) => Err(e),
        Ok(()) => {
            let base = 60 + spec_headers(b).len() + b.name_table_size;
            Ok(
                spec_encrypt(
                    spec_save_fsb5_plain(b),
                    save_cipher(b, encrypt),
                    base,
                    base + spec_audio(b).len(),
                ),
            )
        },
    }
}

/// Padding adds fewer than 32 bytes and reaches a multiple of 32.
pub proof fn lemma_pad_len(n: int)
    requires
        0 <= n,
    ensures
        0 <= pad_len(n) < 32,
        (n + pad_len(n)) % 32 == 0,
{
}

/// The padded length does not shrink when the length grows.
pub proof fn lemma_pad_monotonic(n: int, m: int)
    requires
        0 <= n <= m,
    ensures
        n + pad_len(n) <= m + pad_len(m),
{
    lemma_pad_len(n);
    lemma_pad_len(m);
    let a = n + pad_len(n);
    let c = m + pad_len(m);
    if c < a {
        assert(a - c >= 32) by {
            assert(a % 32 == 0 && c % 32 == 0);
        }
    }
}

/// The data region only grows from sample to sample.
pub proof fn lemma_audio_grows(b: BankView, i: nat, k: nat)
    requires
        i <= k,
    ensures
        spec_audio_upto(b, i).len() <= spec_audio_upto(b, k).len(),
        spec_audio_offset(b, i) <= spec_audio_offset(b, k),
        spec_audio_offset(b, i) % 32 == 0,
    decreases k - i,
{
    lemma_pad_len(spec_audio_upto(b, i).len() as int);
    if i < k {
        lemma_audio_grows(b, i, (k - 1) as nat);
        let n = spec_audio_upto(b, (k - 1) as nat).len() as int;
        let m = spec_audio_upto(b, k).len() as int;
        lemma_pad_len(n);
        assert(m >= n + pad_len(n));
        lemma_pad_monotonic(n, m);
        assert(spec_audio_offset(b, (k - 1) as nat) == n + pad_len(n));
        assert(spec_audio_offset(b, k) == m + pad_len(m));
    }
}

/// Appends zero bytes up to a multiple of 32.
fn pad_to_32(out: &mut Vec<u8>)
    ensures
        final(out)@ == pad32(old(out)@),
        final(out)@.len() % 32 == 0,
        final(out)@.len() < old(out)@.len() + 32,
{
    let rest: usize = out.len() % 32;
    if rest != 0 {
        push_zeros(out, 32 - rest);
    } else {
        assert(out@ =~= pad32(old(out)@));
    }
}

/// Appends the entries of a seek table.
fn push_seek_table(out: &mut Vec<u8>, table: &Vec<u32>)
    ensures
        final(out)@ == old(out)@ + seek_table_bytes(table@),
{
    let n: usize = table.len();
    let mut k: usize = 0;
    assert(out@ =~= old(out)@ + seek_table_bytes(table@.subrange(0, 0)));
    while k < n
        invariant
            k <= n,
            n == table@.len(),
            out@ == old(out)@ + seek_table_bytes(table@.subrange(0, k as int)),
        decreases n - k,
    {
        let ghost before = out@;
        push_u32_le(out, table[k]);
        k = k + 1;
        assert(out@ =~= old(out)@ + seek_table_bytes(table@.subrange(0, k as int))) by {
            let a = seek_table_bytes(table@.subrange(0, k - 1));
            let c = seek_table_bytes(table@.subrange(0, k as int));
            assert(c =~= a + u32_le_bytes(table@[k - 1])) by {
                assert forall|j: int| 0 <= j < c.len() implies c[j] == (a + u32_le_bytes(
                    table@[k - 1],
                ))[j] by {
                    if j >= 4 * (k - 1) {
                        assert(j / 4 == k - 1 && j % 4 == j - 4 * (k - 1));
                    }
                }
            }
        }
    }
    assert(table@.subrange(0, n as int) =~= table@);
}

/// Appends the loop chunk of a sample.
fn push_loop_chunk(out: &mut Vec<u8>, s: &Sample)
    requires
        s@.has_loop(),
    ensures
        final(out)@ == old(out)@ + spec_loop_chunk(s@),
{
    let ghost base = out@;
    let word = ChunkWord::pack(s.vorbis_crc.is_some(), 8, CHUNK_LOOP).0;
    let start: u32 = match s.loop_start {
        Some(v) => v,
        None => 0,
    };
    let end: u32 = match s.loop_end {
        Some(v) => v,
        None => 0,
    };
    push_u32_le(out, word);
    push_u32_le(out, start);
    proof {
        lemma_push_part(base, u32_le_bytes(word), u32_le_bytes(start));
    }
    push_u32_le(out, end);
    proof {
        lemma_push_part(base, u32_le_bytes(word) + u32_le_bytes(start), u32_le_bytes(end));
    }
}

/// Appends the Vorbis chunk of a sample.
fn push_vorbis_chunk(out: &mut Vec<u8>, s: &Sample)
    requires
        s@.vorbis_crc is Some,
        s@.vorbis_chunk_size() < 0x100_0000,
    ensures
        final(out)@ == old(out)@ + spec_vorbis_chunk(s@),
{
    let ghost base = out@;
    let crc: u32 = match s.vorbis_crc {
        Some(v) => v,
        None => 0,
    };
    let count: usize = match &s.vorbis_seek_table {
        Some(t) => t.len(),
        None => 0,
    };
    let size: u32 = (4 + 4 * count) as u32;
    let word = ChunkWord::pack(false, size, CHUNK_VORBIS).0;
    push_u32_le(out, word);
    push_u32_le(out, crc);
    proof {
        lemma_push_part(base, u32_le_bytes(word), u32_le_bytes(crc));
    }
    match &s.vorbis_seek_table {
        Some(t) => {
            push_seek_table(out, t);
        },
        None => {
            assert(seek_table_bytes(Seq::<u32>::empty()) =~= Seq::<u8>::empty());
            proof {
                lemma_push_part(out@, Seq::empty(), Seq::empty());
            }
        },
    }
    proof {
        lemma_push_part(
            base,
            u32_le_bytes(word) + u32_le_bytes(crc),
            seek_table_bytes(s@.seek_entries()),
        );
    }
}

/// Appends the header of a sample whose data starts `offset` bytes into the
/// data region.
fn push_sample_header(out: &mut Vec<u8>, s: &Sample, offset: u64)
    requires
        offset <= u32::MAX,
        s@.vorbis_chunk_size() < 0x100_0000,
    ensures
        final(out)@ == old(out)@ + spec_sample_header(s@, offset as int),
{
    let ghost base = out@;
    let has_vorbis = s.vorbis_crc.is_some();
    let has_loop = s.loop_start.is_some() && s.loop_end.is_some();
    let word = SampleWord::pack(
        has_loop || has_vorbis,
        frequency_to_index(s.frequency) as u64,
        s.channels > 1,
        offset / 16,
        s.samples % 0x4000_0000,
    );
    push_u64_le(out, word.0);
    let ghost w = u64_le_bytes(word.0);
    let ghost l = if has_loop {
        spec_loop_chunk(s@)
    } else {
        Seq::<u8>::empty()
    };
    let ghost v = if has_vorbis {
        spec_vorbis_chunk(s@)
    } else {
        Seq::<u8>::empty()
    };
    if has_loop {
        push_loop_chunk(out, s);
    }
    proof {
        lemma_push_part(base + w, Seq::empty(), Seq::empty());
        lemma_push_part(base, w, l);
    }
    assert(out@ == base + (w + l));
    if has_vorbis {
        push_vorbis_chunk(out, s);
    }
    proof {
        lemma_push_part(base + (w + l), Seq::empty(), Seq::empty());
        lemma_push_part(base, w + l, v);
    }
}

/// Whether each sample's range lies inside the buffer.
pub fn samples_in_buffer(bank: &FsbBank) -> (r: bool)
    ensures
        r == bank@.samples_in_buffer(),
{
    let n: usize = bank.samples.len();
    let len: u64 = bank.data.len() as u64;
    let mut i: usize = 0;
    while i < n
        invariant
            i <= n,
            n == bank.samples@.len(),
            len == bank.data@.len(),
            forall|j: int| 0 <= j < i ==> (#[trigger] bank@.samples[j]).data_end() <= len,
        decreases n - i,
    {
        let s = &bank.samples[i];
        assert(s@ == bank@.samples[i as int]);
        if s.data_offset > len || s.data_size > len - s.data_offset {
            return false;
        }
        i = i + 1;
    }
    true
}

/// Whether each Vorbis chunk is short enough for the 24 bits of its length.
fn seek_tables_fit(bank: &FsbBank) -> (r: bool)
    ensures
        r == bank@.seek_tables_fit(),
{
    let n: usize = bank.samples.len();
    let mut i: usize = 0;
    while i < n
        invariant
            i <= n,
            n == bank.samples@.len(),
            forall|j: int|
                0 <= j < i ==> (#[trigger] bank@.samples[j]).vorbis_chunk_size() < 0x100_0000,
        decreases n - i,
    {
        let s = &bank.samples[i];
        assert(s@ == bank@.samples[i as int]);
        let fits = match &s.vorbis_seek_table {
            Some(t) => t.len() < 0x3F_FFFF,
            None => true,
        };
        if !fits {
            return false;
        }
        i = i + 1;
    }
    true
}

/// Lays out the data region and the sample headers of a bank.
fn build_regions(bank: &FsbBank) -> (r: Result<(Vec<u8>, Vec<u8>), Error>)
    requires
        bank@.samples_in_buffer(),
        bank@.seek_tables_fit(),
    ensures
        match r {
            Ok((headers, audio)) => {
                &&& headers@ == spec_headers(bank@)
                &&& audio@ == spec_audio(bank@)
                &&& audio@.len() <= u32::MAX
                &&& headers@.len() <= u32::MAX
            },
            Err(e) => e == Error::TooLarge && (spec_headers(bank@).len() > u32::MAX || spec_audio(
                bank@,
            ).len() > u32::MAX),
        },
{
    let n: usize = bank.samples.len();
    let len: usize = bank.data.len();
    let mut audio: Vec<u8> = Vec::new();
    let mut headers: Vec<u8> = Vec::new();
    let mut i: usize = 0;
    while i < n
        invariant
            i <= n,
            n == bank.samples@.len(),
            len == bank.data@.len(),
            bank@.samples_in_buffer(),
            bank@.seek_tables_fit(),
            audio@ == spec_audio_upto(bank@, i as nat),
            headers@ == spec_headers_upto(bank@, i as nat),
        decreases n - i,
    {
        let s = &bank.samples[i];
        let ghost sv = bank@.samples[i as int];
        assert(s@ == sv);
        assert(sv.data_end() <= len);
        assert(sv.vorbis_chunk_size() < 0x100_0000);
        let ghost a0 = audio@;
        let ghost h0 = headers@;
        pad_to_32(&mut audio);
        if audio.len() > 0xFFFF_FFFF {
            proof {
                lemma_audio_grows(bank@, i as nat, n as nat);
            }
            return Err(Error::TooLarge);
        }
        let offset: u64 = audio.len() as u64;
        push_range(
            &mut audio,
            bank.data.as_slice(),
            s.data_offset as usize,
            (s.data_offset + s.data_size) as usize,
        );
        push_sample_header(&mut headers, s, offset);
        i = i + 1;
        proof {
            assert(bank@.sample_bytes(i - 1) == bank.data@.subrange(
                sv.data_offset as int,
                sv.data_end(),
            ));
            assert(audio@ == pad32(a0) + bank@.sample_bytes(i - 1));
            assert(offset as int == spec_audio_offset(bank@, (i - 1) as nat));
            assert(headers@ == h0 + spec_sample_header(sv, offset as int));
        }
    }
    pad_to_32(&mut audio);
    if audio.len() > 0xFFFF_FFFF || headers.len() > 0xFFFF_FFFF {
        return Err(Error::TooLarge);
    }
    Ok((headers, audio))
}

/// Appends the 24 bytes that stand in `data` from `from` on, or zeros where
/// `data` is too short.
pub fn push_header_tail(out: &mut Vec<u8>, data: &[u8], from: usize)
    requires
        from + 24 <= usize::MAX,
    ensures
        final(out)@ == old(out)@ + spec_header_tail(data@, from as int, from + 24),
{
    if data.len() >= from + 24 {
        push_range(out, data, from, from + 24);
    } else {
        push_zeros(out, 24);
    }
}

/// Appends the four bytes `FSB` and `last`.
pub fn push_magic(out: &mut Vec<u8>, last: u8)
    ensures
        final(out)@ == old(out)@ + seq![0x46u8, 0x53u8, 0x42u8, last],
{
    out.push(0x46);
    out.push(0x53);
    out.push(0x42);
    out.push(last);
    assert(out@ =~= old(out)@ + seq![0x46u8, 0x53u8, 0x42u8, last]);
}

/// Writes a bank as a version 5 file. With `encrypt` the file is put under
/// the cipher that the bank was found under.
pub fn save_fsb5(bank: &FsbBank, encrypt: bool) -> (r: Result<Vec<u8>, Error>)
    ensures
        bytes_result_view(r) == spec_save_fsb5(bank@, encrypt),
        r is Ok ==> decrypts_back(
            spec_save_fsb5_plain(bank@),
            save_cipher(bank@, encrypt),
            60 + spec_headers(bank@).len() + bank@.name_table_size,
            60 + spec_headers(bank@).len() + bank@.name_table_size + spec_audio(bank@).len(),
        ),
{
    let len: usize = bank.data.len();
    if !samples_in_buffer(bank) {
        return Err(Error::SampleOutOfBounds);
    }
    let names_at: u128 = bank.header_size as u128 + bank.sample_headers_size as u128;
    let old_base: u128 = names_at + bank.name_table_size as u128;
    if old_base > len as u128 {
        return Err(Error::SampleOutOfBounds);
    }
    if bank.samples.len() > 0xFFFF_FFFF || !seek_tables_fit(bank) {
        return Err(Error::TooLarge);
    }
    let (headers, audio) = match build_regions(bank) {
        Ok(found) => found,
        Err(e) => {
            return Err(e);
        },
    };
    let mut out: Vec<u8> = Vec::new();
    push_magic(&mut out, 0x35);
    push_u32_le(&mut out, 1);
    push_u32_le(&mut out, bank.samples.len() as u32);
    push_u32_le(&mut out, headers.len() as u32);
    push_u32_le(&mut out, bank.name_table_size);
    push_u32_le(&mut out, audio.len() as u32);
    push_u32_le(&mut out, bank.codec.to_u32());
    push_u32_le(&mut out, bank.fsb5_mode);
    push_u32_le(&mut out, bank.flags);
    push_header_tail(&mut out, bank.data.as_slice(), 36);
    assert(out@ =~= spec_header5(bank@)) by {
        reveal(spec_header5);
    }
    assert(out@.len() == 60);
    out.extend_from_slice(headers.as_slice());
    push_range(&mut out, bank.data.as_slice(), names_at as usize, old_base as usize);
    let base: usize = out.len();
    out.extend_from_slice(audio.as_slice());
    assert(out@ =~= spec_save_fsb5_plain(bank@));
    let kind = if encrypt {
        bank.encryption
    } else {
        Encryption::Plain
    };
    let end: usize = out.len();
    crate::fsb::detect::encrypt(&mut out, kind, base, end);
    Ok(out)
}

} // verus!
