//! The bit layout of the words that open sample headers and chunks.

use vstd::arithmetic::div_mod::lemma_fundamental_div_mod_converse;
use vstd::prelude::*;

verus! {

/// The 64-bit word that opens a version 5 sample header. From the lowest
/// bit: one bit that says whether chunks follow, four bits of frequency
/// index, one bit for stereo, 28 bits of data offset in units of 16 bytes,
/// and 30 bits of sample count.
#[derive(Debug, Clone, Copy)]
pub struct SampleWord(pub u64);

impl SampleWord {
    pub closed spec fn spec_has_chunks(self) -> bool {
        self.0 % 2 == 1
    }

    pub closed spec fn spec_frequency_index(self) -> u64 {
        self.0 / 2 % 16
    }

    pub closed spec fn spec_stereo(self) -> bool {
        self.0 / 32 % 2 == 1
    }

    pub closed spec fn spec_offset_units(self) -> u64 {
        self.0 / 64 % 0x1000_0000
    }

    pub closed spec fn spec_sample_count(self) -> u64 {
        self.0 / 0x4_0000_0000
    }

    /// The word with the given fields.
    pub closed spec fn spec_pack(
        has_chunks: bool,
        frequency_index: u64,
        stereo: bool,
        offset_units: u64,
        sample_count: u64,
    ) -> SampleWord {
        SampleWord(
            ((if has_chunks {
                1int
            } else {
                0int
            }) + frequency_index * 2 + (if stereo {
                32int
            } else {
                0int
            }) + offset_units * 64 + sample_count * 0x4_0000_0000) as u64,
        )
    }

    /// Bit 0: whether chunks follow the word.
    pub fn has_chunks(&self) -> (r: bool)
        ensures
            r == self.spec_has_chunks(),
    {
        self.0 % 2 == 1
    }

    /// Bits 1 to 4: the index into the frequency table.
    pub fn frequency_index(&self) -> (r: u64)
        ensures
            r == self.spec_frequency_index(),
            r < 16,
    {
        self.0 / 2 % 16
    }

    /// Bit 5: set for two channels, clear for one.
    pub fn stereo(&self) -> (r: bool)
        ensures
            r == self.spec_stereo(),
    {
        self.0 / 32 % 2 == 1
    }

    /// Bits 6 to 33: the data offset in units of 16 bytes.
    pub fn offset_units(&self) -> (r: u64)
        ensures
            r == self.spec_offset_units(),
            r < 0x1000_0000,
    {
        self.0 / 64 % 0x1000_0000
    }

    /// Bits 34 to 63: the number of playable frames.
    pub fn sample_count(&self) -> (r: u64)
        ensures
            r == self.spec_sample_count(),
            r < 0x4000_0000,
    {
        self.0 / 0x4_0000_0000
    }

    /// The word with the given fields.
    pub fn pack(
        has_chunks: bool,
        frequency_index: u64,
        stereo: bool,
        offset_units: u64,
        sample_count: u64,
    ) -> (r: SampleWord)
        requires
            frequency_index < 16,
            offset_units < 0x1000_0000,
            sample_count < 0x4000_0000,
        ensures
            r == Self::spec_pack(has_chunks, frequency_index, stereo, offset_units, sample_count),
            r.spec_has_chunks() == has_chunks,
            r.spec_frequency_index() == frequency_index,
            r.spec_stereo() == stereo,
            r.spec_offset_units() == offset_units,
            r.spec_sample_count() == sample_count,
    {
        let c: u64 = if has_chunks {
            1
        } else {
            0
        };
        let s: u64 = if stereo {
            32
        } else {
            0
        };
        proof {
            Self::lemma_unpack_pack(has_chunks, frequency_index, stereo, offset_units, sample_count);
        }
        SampleWord(c + frequency_index * 2 + s + offset_units * 64 + sample_count * 0x4_0000_0000)
    }

    /// No field is wider than its bits.
    pub proof fn lemma_ranges(self)
        ensures
            self.spec_frequency_index() < 16,
            self.spec_offset_units() < 0x1000_0000,
            self.spec_sample_count() < 0x4000_0000,
    {
    }

    /// The accessors read the bit ranges that the layout names.
    pub proof fn lemma_bits(self)
        ensures
            self.spec_has_chunks() == (self.0 & 1 == 1),
            self.spec_frequency_index() == (self.0 >> 1) & 0xF,
            self.spec_stereo() == ((self.0 >> 5) & 1 == 1),
            self.spec_offset_units() == (self.0 >> 6) & 0x0FFF_FFFF,
            self.spec_sample_count() == (self.0 >> 34) & 0x3FFF_FFFF,
    {
        let w = self.0;
        assert(w % 2 == w & 1) by (bit_vector);
        assert(w / 2 % 16 == (w >> 1) & 0xF) by (bit_vector);
        assert(w / 32 % 2 == (w >> 5) & 1) by (bit_vector);
        assert(w / 64 % 0x1000_0000 == (w >> 6) & 0x0FFF_FFFF) by (bit_vector);
        assert(w / 0x4_0000_0000 == (w >> 34) & 0x3FFF_FFFF) by (bit_vector);
    }

    /// Unpacking a packed word gives the fields back.
    pub proof fn lemma_unpack_pack(
        has_chunks: bool,
        frequency_index: u64,
        stereo: bool,
        offset_units: u64,
        sample_count: u64,
    )
        requires
            frequency_index < 16,
            offset_units < 0x1000_0000,
            sample_count < 0x4000_0000,
        ensures
            ({
                let r = Self::spec_pack(
                    has_chunks,
                    frequency_index,
                    stereo,
                    offset_units,
                    sample_count,
                );
                &&& r.spec_has_chunks() == has_chunks
                &&& r.spec_frequency_index() == frequency_index
                &&& r.spec_stereo() == stereo
                &&& r.spec_offset_units() == offset_units
                &&& r.spec_sample_count() == sample_count
                &&& r.0 == (if has_chunks {
                    1int
                } else {
                    0int
                }) + frequency_index * 2 + (if stereo {
                    32int
                } else {
                    0int
                }) + offset_units * 64 + sample_count * 0x4_0000_0000
            }),
    {
        let c: int = if has_chunks {
            1
        } else {
            0
        };
        let st: int = if stereo {
            1
        } else {
            0
        };
        let fi = frequency_index as int;
        let off = offset_units as int;
        let sc = sample_count as int;
        let w: int = c + fi * 2 + st * 32 + off * 64 + sc * 0x4_0000_0000;
        assert(0 <= w < 0x1_0000_0000_0000_0000);
        let q1 = fi + st * 16 + off * 32 + sc * 0x2_0000_0000;
        let q5 = st + off * 2 + sc * 0x2000_0000;
        let q6 = off + sc * 0x1000_0000;
        lemma_fundamental_div_mod_converse(w, 2, q1, c);
        lemma_fundamental_div_mod_converse(q1, 16, q5, fi);
        lemma_fundamental_div_mod_converse(w, 32, q5, c + fi * 2);
        lemma_fundamental_div_mod_converse(q5, 2, q6, st);
        lemma_fundamental_div_mod_converse(w, 64, q6, c + fi * 2 + st * 32);
        lemma_fundamental_div_mod_converse(q6, 0x1000_0000, sc, off);
        lemma_fundamental_div_mod_converse(
            w,
            0x4_0000_0000,
            sc,
            c + fi * 2 + st * 32 + off * 64,
        );
    }
}

/// The 32-bit word that opens a chunk of a version 5 sample header. From the
/// lowest bit: one bit that says whether another chunk follows, 24 bits of
/// length in bytes, and seven bits of type.
#[derive(Debug, Clone, Copy)]
pub struct ChunkWord(pub u32);

/// The type of a chunk that holds loop points.
pub const CHUNK_LOOP: u32 = 3;

/// The type of a chunk that holds a Vorbis setup checksum and seek table.
pub const CHUNK_VORBIS: u32 = 11;

impl ChunkWord {
    pub closed spec fn spec_more(self) -> bool {
        self.0 % 2 == 1
    }

    pub closed spec fn spec_size(self) -> u32 {
        self.0 / 2 % 0x100_0000
    }

    pub closed spec fn spec_kind(self) -> u32 {
        self.0 / 0x200_0000
    }

    /// The word with the given fields.
    pub closed spec fn spec_pack(more: bool, size: u32, kind: u32) -> ChunkWord {
        ChunkWord(
            ((if more {
                1int
            } else {
                0int
            }) + size * 2 + kind * 0x200_0000) as u32,
        )
    }

    /// Bit 0: whether another chunk follows this one.
    pub fn more(&self) -> (r: bool)
        ensures
            r == self.spec_more(),
    {
        self.0 % 2 == 1
    }

    /// Bits 1 to 24: the length of the chunk's body in bytes.
    pub fn size(&self) -> (r: u32)
        ensures
            r == self.spec_size(),
            r < 0x100_0000,
    {
        self.0 / 2 % 0x100_0000
    }

    /// Bits 25 to 31: the type of the chunk.
    pub fn kind(&self) -> (r: u32)
        ensures
            r == self.spec_kind(),
            r < 128,
    {
        self.0 / 0x200_0000
    }

    /// The word with the given fields.
    pub fn pack(more: bool, size: u32, kind: u32) -> (r: ChunkWord)
        requires
            size < 0x100_0000,
            kind < 128,
        ensures
            r == Self::spec_pack(more, size, kind),
            r.spec_more() == more,
            r.spec_size() == size,
            r.spec_kind() == kind,
    {
        let m: u32 = if more {
            1
        } else {
            0
        };
        proof {
            Self::lemma_unpack_pack(more, size, kind);
        }
        ChunkWord(m + size * 2 + kind * 0x200_0000)
    }

    /// Unpacking a packed word gives the fields back.
    pub proof fn lemma_unpack_pack(more: bool, size: u32, kind: u32)
        requires
            size < 0x100_0000,
            kind < 128,
        ensures
            ({
                let r = Self::spec_pack(more, size, kind);
                &&& r.spec_more() == more
                &&& r.spec_size() == size
                &&& r.spec_kind() == kind
                &&& r.0 == (if more {
                    1int
                } else {
                    0int
                }) + size * 2 + kind * 0x200_0000
            }),
    {
        let m: int = if more {
            1
        } else {
            0
        };
        let w: int = m + size * 2 + kind * 0x200_0000;
        let q1 = size + kind * 0x100_0000;
        lemma_fundamental_div_mod_converse(w, 2, q1, m);
        lemma_fundamental_div_mod_converse(q1, 0x100_0000, kind as int, size as int);
        lemma_fundamental_div_mod_converse(w, 0x200_0000, kind as int, m + size * 2);
    }

    /// No field is wider than its bits.
    pub proof fn lemma_ranges(self)
        ensures
            self.spec_size() < 0x100_0000,
            self.spec_kind() < 128,
    {
    }

    /// The accessors read the bit ranges that the layout names.
    pub proof fn lemma_bits(self)
        ensures
            self.spec_more() == (self.0 & 1 == 1),
            self.spec_size() == (self.0 >> 1) & 0xFF_FFFF,
            self.spec_kind() == (self.0 >> 25) & 0x7F,
    {
        let w = self.0;
        assert(w % 2 == w & 1) by (bit_vector);
        assert(w / 2 % 0x100_0000 == (w >> 1) & 0xFF_FFFF) by (bit_vector);
        assert(w / 0x200_0000 == (w >> 25) & 0x7F) by (bit_vector);
    }
}

} // verus!
