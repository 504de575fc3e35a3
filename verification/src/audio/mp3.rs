//! MPEG audio frames: their headers, and finding them in a stream.

use crate::bytes::{be_u32, push_range, read_u32_be};
use crate::error::Error;
use vstd::prelude::*;

verus! {

/// What the four bytes of an MPEG audio frame header say, and what follows
/// from them.
#[derive(Debug, Clone, Copy, PartialEq, Eq, Structural)]
pub struct Mp3FrameHeader {
    /// The two version bits: 3 for MPEG 1, 2 for MPEG 2, 0 for MPEG 2.5.
    pub version: u8,
    /// The two layer bits: 1 for Layer III, the one layer that is read.
    pub layer: u8,
    /// Whether a checksum follows the header: the protection bit is clear.
    pub crc: bool,
    pub bitrate_index: u8,
    pub sample_rate_index: u8,
    pub padding: bool,
    pub channel_mode: u8,
    /// The length of the frame in bytes, header included.
    pub frame_size: usize,
    /// The bitrate in kbit/s.
    pub bitrate: u32,
    /// The sample rate in Hz.
    pub sample_rate: u32,
}

/// The layer bits of Layer III. (The bits 11 stand for Layer I, 10 for
/// Layer II, and 00 are reserved.)
pub const LAYER_3: u8 = 1;

/// The bitrate in kbit/s that a bitrate index stands for in MPEG 1.
pub open spec fn spec_bitrate_v1(index: u8) -> u32 {
    if index == 1 {
        32
    } else if index == 2 {
        40
    } else if index == 3 {
        48
    } else if index == 4 {
        56
    } else if index == 5 {
        64
    } else if index == 6 {
        80
    } else if index == 7 {
        96
    } else if index == 8 {
        112
    } else if index == 9 {
        128
    } else if index == 10 {
        160
    } else if index == 11 {
        192
    } else if index == 12 {
        224
    } else if index == 13 {
        256
    } else if index == 14 {
        320
    } else {
        0
    }
}

/// The bitrate in kbit/s that a bitrate index stands for in MPEG 2 and 2.5.
pub open spec fn spec_bitrate_v2(index: u8) -> u32 {
    if index == 1 {
        8
    } else if index == 2 {
        16
    } else if index == 3 {
        24
    } else if index == 4 {
        32
    } else if index == 5 {
        40
    } else if index == 6 {
        48
    } else if index == 7 {
        56
    } else if index == 8 {
        64
    } else if index == 9 {
        80
    } else if index == 10 {
        96
    } else if index == 11 {
        112
    } else if index == 12 {
        128
    } else if index == 13 {
        144
    } else if index == 14 {
        160
    } else {
        0
    }
}

/// The sample rate in Hz of a version and a sample rate index; 0 where the
/// pair is reserved.
pub open spec fn spec_sample_rate(version: u8, index: u8) -> u32 {
    if version == 3 {
        if index == 0 {
            44100
        } else if index == 1 {
            48000
        } else if index == 2 {
            32000
        } else {
            0
        }
    } else if version == 2 {
        if index == 0 {
            22050
        } else if index == 1 {
            24000
        } else if index == 2 {
            16000
        } else {
            0
        }
    } else if version == 0 {
        if index == 0 {
            11025
        } else if index == 1 {
            12000
        } else if index == 2 {
            8000
        } else {
            0
        }
    } else {
        0
    }
}

/// The bitrate in kbit/s that a bitrate index stands for in MPEG 1.
fn bitrate_v1(index: u8) -> (r: u32)
    ensures
        r == spec_bitrate_v1(index),
        r <= 320,
{
    match index {
        1 => 32,
        2 => 40,
        3 => 48,
        4 => 56,
        5 => 64,
        6 => 80,
        7 => 96,
        8 => 112,
        9 => 128,
        10 => 160,
        11 => 192,
        12 => 224,
        13 => 256,
        14 => 320,
        _ => 0,
    }
}

/// The bitrate in kbit/s that a bitrate index stands for in MPEG 2 and 2.5.
fn bitrate_v2(index: u8) -> (r: u32)
    ensures
        r == spec_bitrate_v2(index),
        r <= 160,
{
    match index {
        1 => 8,
        2 => 16,
        3 => 24,
        4 => 32,
        5 => 40,
        6 => 48,
        7 => 56,
        8 => 64,
        9 => 80,
        10 => 96,
        11 => 112,
        12 => 128,
        13 => 144,
        14 => 160,
        _ => 0,
    }
}

/// The sample rate in Hz of a version and a sample rate index.
fn sample_rate_of(version: u8, index: u8) -> (r: u32)
    ensures
        r == spec_sample_rate(version, index),
{
    match (version, index) {
        (3, 0) => 44100,
        (3, 1) => 48000,
        (3, 2) => 32000,
        (2, 0) => 22050,
        (2, 1) => 24000,
        (2, 2) => 16000,
        (0, 0) => 11025,
        (0, 1) => 12000,
        (0, 2) => 8000,
        _ => 0,
    }
}

/// The bits of `header` from bit `shift` up that `mask` lets through.
pub open spec fn field(header: u32, shift: u32, mask: u32) -> u8 {
    ((header >> shift) & mask) as u8
}

/// The bits of `header` from bit `shift` up that `mask` lets through.
fn field_of(header: u32, shift: u32, mask: u32) -> (r: u8)
    requires
        shift < 32,
        mask <= 15,
    ensures
        r == field(header, shift, mask),
        r <= mask,
{
    assert((header >> shift) & mask <= mask) by (bit_vector);
    ((header >> shift) & mask) as u8
}

impl Mp3FrameHeader {
    /// The frame length in bytes: 144 times the bitrate over the sample rate
    /// in MPEG 1, 72 times in MPEG 2 and 2.5, and one more with padding.
    pub open spec fn spec_frame_size(version: u8, bitrate: u32, sample_rate: u32, padding: bool) -> int {
        (if version == 3 {
            144int
        } else {
            72int
        }) * bitrate * 1000 / (sample_rate as int) + (if padding {
            1int
        } else {
            0int
        })
    }

    /// What a frame header says, if it is one: the eleven sync bits are
    /// set, no field holds a reserved code, and the layer bits are 01, which
    /// stand for Layer III.
    pub open spec fn spec_parse(header: u32) -> Option<Mp3FrameHeader> {
        let version = field(header, 19, 0x03);
        let layer = field(header, 17, 0x03);
        let bitrate_index = field(header, 12, 0x0F);
        let sample_rate_index = field(header, 10, 0x03);
        let padding = field(header, 9, 0x01) == 1;
        let bitrate = if version == 3 {
            spec_bitrate_v1(bitrate_index)
        } else {
            spec_bitrate_v2(bitrate_index)
        };
        let sample_rate = spec_sample_rate(version, sample_rate_index);
        if (header >> 21) != 0x7FF || version == 1 || layer != LAYER_3 || bitrate_index == 0
            || bitrate_index == 15 || sample_rate_index == 3 || sample_rate == 0 {
            None
        } else {
            Some(
                Mp3FrameHeader {
                    version,
                    layer,
                    crc: field(header, 16, 0x01) == 0,
                    bitrate_index,
                    sample_rate_index,
                    padding,
                    channel_mode: field(header, 6, 0x03),
                    frame_size: Self::spec_frame_size(version, bitrate, sample_rate, padding) as usize,
                    bitrate,
                    sample_rate,
                },
            )
        }
    }

    /// The header word that holds the fields of `self`.
    pub open spec fn spec_encode(&self) -> u32 {
        (0x7FFu32 << 21) | ((self.version as u32) << 19) | ((self.layer as u32) << 17) | ((if self.crc {
            0u32
        } else {
            1u32
        }) << 16) | ((self.bitrate_index as u32) << 12) | ((self.sample_rate_index as u32) << 10) | ((
        if self.padding {
            1u32
        } else {
            0u32
        }) << 9) | ((self.channel_mode as u32) << 6)
    }

    /// Reads a frame header from its 32-bit big-endian word.
    pub fn parse(header: u32) -> (r: Option<Mp3FrameHeader>)
        ensures
            r == Self::spec_parse(header),
            r matches Some(f) ==> 24 <= f.frame_size <= 2881,
    {
        if (header >> 21) != 0x7FF {
            return None;
        }
        let version: u8 = field_of(header, 19, 0x03);
        let layer: u8 = field_of(header, 17, 0x03);
        let crc: bool = field_of(header, 16, 0x01) == 0;
        let bitrate_index: u8 = field_of(header, 12, 0x0F);
        let sample_rate_index: u8 = field_of(header, 10, 0x03);
        let padding: bool = field_of(header, 9, 0x01) == 1;
        let channel_mode: u8 = field_of(header, 6, 0x03);
        if version == 1 || layer == 0 || bitrate_index == 0 || bitrate_index == 15
            || sample_rate_index == 3 {
            return None;
        }
        if layer != LAYER_3 {
            return None;
        }
        let bitrate: u32 = if version == 3 {
            bitrate_v1(bitrate_index)
        } else {
            bitrate_v2(bitrate_index)
        };
        let sample_rate: u32 = sample_rate_of(version, sample_rate_index);
        if sample_rate == 0 {
            return None;
        }
        let coefficient: u32 = if version == 3 {
            144
        } else {
            72
        };
        let pad: u32 = if padding {
            1
        } else {
            0
        };
        assert(coefficient * bitrate * 1000 <= 46_080_000) by (nonlinear_arith)
            requires
                coefficient <= 144,
                bitrate <= 320,
        ;
        assert(version == 3 ==> bitrate >= 32);
        assert(version != 3 ==> bitrate >= 8);
        let scaled: u32 = coefficient * bitrate * 1000;
        assert(version == 3 ==> scaled >= 4_608_000 && sample_rate <= 48000 && sample_rate
            >= 32000);
        assert(version != 3 ==> scaled >= 576_000 && sample_rate <= 24000 && sample_rate >= 8000);
        let frame_size: usize = (scaled / sample_rate + pad) as usize;
        Some(
            Mp3FrameHeader {
                version,
                layer,
                crc,
                bitrate_index,
                sample_rate_index,
                padding,
                channel_mode,
                frame_size,
                bitrate,
                sample_rate,
            },
        )
    }

    /// Packs the fields of the header into its 32-bit word.
    pub fn encode(&self) -> (r: u32)
        ensures
            r == self.spec_encode(),
    {
        let protection: u32 = if self.crc {
            0
        } else {
            1
        };
        let pad: u32 = if self.padding {
            1
        } else {
            0
        };
        (0x7FFu32 << 21) | ((self.version as u32) << 19) | ((self.layer as u32) << 17) | (protection
            << 16) | ((self.bitrate_index as u32) << 12) | ((self.sample_rate_index as u32) << 10)
            | (pad << 9) | ((self.channel_mode as u32) << 6)
    }

    /// Where the fields of a header word stand, in arithmetic: the sync bits
    /// are the word over 2^21, and each field is the word over the power of
    /// two of its lowest bit, modulo the number of its values.
    pub proof fn lemma_fields(header: u32)
        ensures
            (header >> 21) == header / 0x20_0000,
            field(header, 19, 0x03) == header / 0x8_0000 % 4,
            field(header, 17, 0x03) == header / 0x2_0000 % 4,
            field(header, 16, 0x01) == header / 0x1_0000 % 2,
            field(header, 12, 0x0F) == header / 0x1000 % 16,
            field(header, 10, 0x03) == header / 0x400 % 4,
            field(header, 9, 0x01) == header / 0x200 % 2,
            field(header, 6, 0x03) == header / 0x40 % 4,
    {
        assert((header >> 21) == header / 0x20_0000) by (bit_vector);
        assert((header >> 19) & 0x03 == header / 0x8_0000 % 4) by (bit_vector);
        assert((header >> 17) & 0x03 == header / 0x2_0000 % 4) by (bit_vector);
        assert((header >> 16) & 0x01 == header / 0x1_0000 % 2) by (bit_vector);
        assert((header >> 12) & 0x0F == header / 0x1000 % 16) by (bit_vector);
        assert((header >> 10) & 0x03 == header / 0x400 % 4) by (bit_vector);
        assert((header >> 9) & 0x01 == header / 0x200 % 2) by (bit_vector);
        assert((header >> 6) & 0x03 == header / 0x40 % 4) by (bit_vector);
    }

    /// Packing the header that was read from a word gives the word back, but
    /// for the bits that the header does not hold: the private bit and the
    /// six lowest bits.
    pub proof fn lemma_encode_parse(header: u32)
        requires
            Self::spec_parse(header) is Some,
        ensures
            Self::spec_parse(header)->Some_0.spec_encode() == header & 0xFFFF_FEC0,
    {
        let f = Self::spec_parse(header)->Some_0;
        let v = (header >> 19) & 0x03;
        let l = (header >> 17) & 0x03;
        let c = (header >> 16) & 0x01;
        let b = (header >> 12) & 0x0F;
        let s = (header >> 10) & 0x03;
        let p = (header >> 9) & 0x01;
        let m = (header >> 6) & 0x03;
        assert(v < 256 && l < 256 && c < 256 && b < 256 && s < 256 && p < 256 && m < 256)
            by (bit_vector)
            requires
                v == (header >> 19) & 0x03,
                l == (header >> 17) & 0x03,
                c == (header >> 16) & 0x01,
                b == (header >> 12) & 0x0F,
                s == (header >> 10) & 0x03,
                p == (header >> 9) & 0x01,
                m == (header >> 6) & 0x03,
        ;
        let cc: u32 = if f.crc {
            0
        } else {
            1
        };
        let pp: u32 = if f.padding {
            1
        } else {
            0
        };
        assert(c == 0 || c == 1) by (bit_vector)
            requires
                c == (header >> 16) & 0x01,
        ;
        assert(p == 0 || p == 1) by (bit_vector)
            requires
                p == (header >> 9) & 0x01,
        ;
        assert(cc == c);
        assert(pp == p);
        assert(((0x7FFu32 << 21) | (v << 19) | (l << 17) | (cc << 16) | (b << 12) | (s << 10) | (pp
            << 9) | (m << 6)) == header & 0xFFFF_FEC0) by (bit_vector)
            requires
                (header >> 21) == 0x7FF,
                cc == c,
                pp == p,
                v == (header >> 19) & 0x03,
                l == (header >> 17) & 0x03,
                c == (header >> 16) & 0x01,
                b == (header >> 12) & 0x0F,
                s == (header >> 10) & 0x03,
                p == (header >> 9) & 0x01,
                m == (header >> 6) & 0x03,
        ;
    }
}


/// The frame header that the four bytes at `pos` hold, if they hold one.
pub open spec fn header_at(data: Seq<u8>, pos: int) -> Option<Mp3FrameHeader> {
    Mp3FrameHeader::spec_parse(be_u32(data, pos))
}

/// The first position from `from` on, with more than four bytes behind it,
/// at which a frame header stands.
pub open spec fn spec_next_sync(data: Seq<u8>, from: int) -> Option<int>
    decreases data.len() - from,
{
    if from < 0 || from + 4 >= data.len() {
        None
    } else if header_at(data, from) is Some {
        Some(from)
    } else {
        spec_next_sync(data, from + 1)
    }
}

/// The frames of `data` from `pos` on, one after the other. Where a frame
/// header stands, the frame is taken whole and the scan goes on behind it;
/// a frame that would run past the end stops the scan. Where none stands,
/// the scan goes on one byte further. The last four bytes are not looked
/// at. (A header never gives a length of 0: that test only shows that the
/// scan moves on.)
pub open spec fn spec_frames(data: Seq<u8>, pos: int) -> Seq<u8>
    decreases data.len() - pos,
{
    if pos < 0 || pos + 4 >= data.len() {
        Seq::empty()
    } else {
        match header_at(data, pos) {
            Some(f) => if 0 < f.frame_size && pos + f.frame_size <= data.len() {
                data.subrange(pos, pos + f.frame_size) + spec_frames(data, pos + f.frame_size)
            } else {
                Seq::empty()
            },
            None => spec_frames(data, pos + 1),
        }
    }
}

/// The frames of `data`, or all of `data` where it holds no frame: it is
/// then taken to be a bare frame stream already.
pub open spec fn spec_extract_mp3(data: Seq<u8>) -> Seq<u8> {
    if spec_frames(data, 0).len() == 0 {
        data
    } else {
        spec_frames(data, 0)
    }
}

/// Whether `data` starts with a frame header.
pub open spec fn spec_has_valid_mp3_frames(data: Seq<u8>) -> bool {
    data.len() >= 4 && header_at(data, 0) is Some
}

/// The sample rate, the channel count and the bitrate that the first frame
/// header of `data` gives.
pub open spec fn spec_mp3_info(data: Seq<u8>) -> Option<(u32, u32, u32)> {
    match spec_next_sync(data, 0) {
        Some(p) => {
            let f = header_at(data, p)->Some_0;
            Some(
                (
                    f.sample_rate,
                    if f.channel_mode == 3 {
                        1u32
                    } else {
                        2u32
                    },
                    f.bitrate,
                ),
            )
        },
        None => None,
    }
}

/// A corrupted stretch is skipped: where no frame header stands from `pos`
/// up to `to`, the frames from `pos` on are the frames from `to` on.
pub proof fn lemma_frames_skip(data: Seq<u8>, pos: int, to: int)
    requires
        0 <= pos <= to,
        forall|p: int| pos <= p < to && p + 4 < data.len() ==> header_at(data, p) is None,
    ensures
        spec_frames(data, pos) == spec_frames(data, to),
    decreases to - pos,
{
    if pos < to {
        lemma_frames_skip(data, pos + 1, to);
        if pos + 4 >= data.len() {
            assert(spec_frames(data, to) == Seq::<u8>::empty());
        }
    }
}

/// A frame whose header stands at `pos` and which fits into `data` is
/// taken whole, and the scan goes on behind it.
pub proof fn lemma_frames_take(data: Seq<u8>, pos: int)
    requires
        0 <= pos,
        pos + 4 < data.len(),
        header_at(data, pos) is Some,
        pos + header_at(data, pos)->Some_0.frame_size <= data.len(),
        0 < header_at(data, pos)->Some_0.frame_size,
    ensures
        spec_frames(data, pos) == data.subrange(
            pos,
            pos + header_at(data, pos)->Some_0.frame_size,
        ) + spec_frames(data, pos + header_at(data, pos)->Some_0.frame_size),
{
}

/// The scan finds its way back after a corrupted stretch: where a frame
/// stands at `pos` and no frame header stands from the end of that frame
/// up to `resume`, the frames from `pos` on are that frame and then the
/// frames from `resume` on.
pub proof fn lemma_frames_resync(data: Seq<u8>, pos: int, resume: int)
    requires
        0 <= pos,
        pos + 4 < data.len(),
        header_at(data, pos) is Some,
        0 < header_at(data, pos)->Some_0.frame_size,
        pos + header_at(data, pos)->Some_0.frame_size <= resume,
        pos + header_at(data, pos)->Some_0.frame_size <= data.len(),
        forall|p: int|
            pos + header_at(data, pos)->Some_0.frame_size <= p < resume && p + 4 < data.len()
                ==> header_at(data, p) is None,
    ensures
        spec_frames(data, pos) == data.subrange(
            pos,
            pos + header_at(data, pos)->Some_0.frame_size,
        ) + spec_frames(data, resume),
{
    let size = header_at(data, pos)->Some_0.frame_size as int;
    lemma_frames_take(data, pos);
    lemma_frames_skip(data, pos + size, resume);
}

/// What the search for a header finds: nothing before it, a header at it.
pub proof fn lemma_next_sync(data: Seq<u8>, from: int)
    requires
        0 <= from,
    ensures
        match spec_next_sync(data, from) {
            Some(p) => from <= p && p + 4 < data.len() && header_at(data, p) is Some && forall|
                q: int,
            |
                from <= q < p ==> header_at(data, q) is None,
            None => forall|q: int| from <= q && q + 4 < data.len() ==> header_at(data, q) is None,
        },
    decreases data.len() - from,
{
    if from + 4 < data.len() && header_at(data, from) is None {
        lemma_next_sync(data, from + 1);
    }
}

/// A value read inside the tail of a buffer is the value read in the buffer.
proof fn lemma_be_u32_tail(s: Seq<u8>, a: int, k: int)
    requires
        0 <= a <= s.len(),
        0 <= k,
        k + 4 <= s.len() - a,
    ensures
        be_u32(s.subrange(a, s.len() as int), k) == be_u32(s, a + k),
{
}

/// The search in the tail of a buffer finds what the search in the buffer
/// finds from there on.
proof fn lemma_next_sync_tail(s: Seq<u8>, a: int, from: int)
    requires
        0 <= a <= s.len(),
        0 <= from,
    ensures
        spec_next_sync(s.subrange(a, s.len() as int), from) == match spec_next_sync(s, a + from) {
            Some(p) => Some(p - a),
            None => None,
        },
    decreases s.len() - a - from,
{
    let t = s.subrange(a, s.len() as int);
    if from + 4 < t.len() {
        lemma_be_u32_tail(s, a, from);
        if header_at(t, from) is None {
            lemma_next_sync_tail(s, a, from + 1);
        }
    }
}

/// The position of the first frame header in `data` that has more than
/// four bytes behind it.
pub fn find_mp3_sync(data: &[u8]) -> (r: Option<usize>)
    ensures
        match r {
            Some(p) => spec_next_sync(data@, 0) == Some(p as int),
            None => spec_next_sync(data@, 0) is None,
        },
{
    let len: usize = data.len();
    let mut i: usize = 0;
    while len >= 4 && i < len - 4
        invariant
            len == data@.len(),
            i <= len,
            spec_next_sync(data@, 0) == spec_next_sync(data@, i as int),
        decreases len - i,
    {
        let word: u32 = match read_u32_be(data, i) {
            Some(v) => v,
            None => 0,
        };
        if Mp3FrameHeader::parse(word).is_some() {
            return Some(i);
        }
        i = i + 1;
    }
    None
}

/// Collects the frames of `data`.
fn collect_frames(data: &[u8]) -> (r: Vec<u8>)
    ensures
        r@ == spec_frames(data@, 0),
{
    let len: usize = data.len();
    let mut out: Vec<u8> = Vec::new();
    let mut pos: usize = 0;
    assert(out@ + spec_frames(data@, 0) =~= spec_frames(data@, 0));
    while len >= 4 && pos < len - 4
        invariant
            len == data@.len(),
            pos <= len,
            out@ + spec_frames(data@, pos as int) == spec_frames(data@, 0),
        decreases len - pos,
    {
        let word: u32 = match read_u32_be(data, pos) {
            Some(v) => v,
            None => 0,
        };
        match Mp3FrameHeader::parse(word) {
            Some(frame) => {
                if frame.frame_size <= len - pos {
                    let ghost before = out@;
                    push_range(&mut out, data, pos, pos + frame.frame_size);
                    proof {
                        lemma_frames_take(data@, pos as int);
                        let part = data@.subrange(pos as int, pos + frame.frame_size);
                        let rest = spec_frames(data@, pos + frame.frame_size);
                        assert((before + part) + rest =~= before + (part + rest));
                    }
                    pos = pos + frame.frame_size;
                } else {
                    assert(out@ + Seq::<u8>::empty() =~= out@);
                    return out;
                }
            },
            None => {
                let tail = vstd::slice::slice_subrange(data, pos + 1, len);
                let found = find_mp3_sync(tail);
                proof {
                    lemma_next_sync_tail(data@, pos + 1, 0);
                    lemma_next_sync(data@, pos + 1);
                }
                match found {
                    Some(skip) => {
                        proof {
                            lemma_frames_skip(data@, pos as int, pos + 1 + skip);
                        }
                        pos = pos + 1 + skip;
                    },
                    None => {
                        proof {
                            lemma_frames_skip(data@, pos as int, len as int);
                            assert(out@ + Seq::<u8>::empty() =~= out@);
                        }
                        return out;
                    },
                }
            },
        }
    }
    assert(out@ + Seq::<u8>::empty() =~= out@);
    out
}

/// Strips what stands between the MPEG frames of a version 4 sample. The
/// sample rate and the channel count are not used.
pub fn extract_mp3_from_fsb4(data: &[u8], _sample_rate: u32, _channels: u32) -> (r: Result<
    Vec<u8>,
    Error,
>)
    ensures
        r matches Ok(v) && v@ == spec_extract_mp3(data@),
{
    let out = collect_frames(data);
    if out.len() == 0 {
        return Ok(vstd::slice::slice_to_vec(data));
    }
    Ok(out)
}

/// The frames of a sample as FMOD stores them. With more than one channel
/// the result must start with a frame header, else the data is handed back
/// as it is.
pub open spec fn spec_extract_fsb4_mp3_fmod(data: Seq<u8>, channels: u32) -> Seq<u8> {
    let direct = spec_extract_mp3(data);
    if channels == 1 || (direct.len() > 0 && spec_has_valid_mp3_frames(direct)) {
        direct
    } else {
        data
    }
}

/// Extracts the frames of a sample as FMOD stores them.
pub fn extract_fsb4_mp3_fmod(data: &[u8], channels: u32) -> (r: Result<Vec<u8>, Error>)
    ensures
        r matches Ok(v) && v@ == spec_extract_fsb4_mp3_fmod(data@, channels),
{
    if channels == 1 {
        extract_mp3_from_fsb4(data, 44100, 1)
    } else {
        let direct = match extract_mp3_from_fsb4(data, 44100, channels) {
            Ok(v) => v,
            Err(e) => {
                return Err(e);
            },
        };
        if direct.len() != 0 && has_valid_mp3_frames(direct.as_slice()) {
            return Ok(direct);
        }
        Ok(vstd::slice::slice_to_vec(data))
    }
}

/// Whether `data` starts with a frame header.
pub fn has_valid_mp3_frames(data: &[u8]) -> (r: bool)
    ensures
        r == spec_has_valid_mp3_frames(data@),
{
    match read_u32_be(data, 0) {
        Some(word) => Mp3FrameHeader::parse(word).is_some(),
        None => false,
    }
}

/// The sample rate, the channel count and the bitrate of the first frame
/// header in `data` that has more than four bytes behind it.
pub fn get_mp3_info(data: &[u8]) -> (r: Option<(u32, u32, u32)>)
    ensures
        r == spec_mp3_info(data@),
{
    match find_mp3_sync(data) {
        Some(p) => {
            proof {
                lemma_next_sync(data@, 0);
            }
            let word: u32 = match read_u32_be(data, p) {
                Some(v) => v,
                None => 0,
            };
            match Mp3FrameHeader::parse(word) {
                Some(frame) => {
                    let channels: u32 = if frame.channel_mode == 3 {
                        1
                    } else {
                        2
                    };
                    Some((frame.sample_rate, channels, frame.bitrate))
                },
                None => None,
            }
        },
        None => None,
    }
}

/// An MP3 file with the given frames: the frames themselves.
pub fn create_mp3_file(frames: &[u8], _sample_rate: u32, _channels: u32) -> (r: Vec<u8>)
    ensures
        r@ == frames@,
{
    vstd::slice::slice_to_vec(frames)
}

} // verus!
