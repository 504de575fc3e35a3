//! Sound banks: what they hold, and how they are loaded, saved and edited.

use crate::audio::mp3::{extract_mp3_from_fsb4, get_mp3_info, spec_extract_mp3, spec_mp3_info};
use crate::bytes::{le_u32, push_range, push_u16_le, push_u32_le, u16_le_bytes, u32_le_bytes};
use crate::error::Error;
use vstd::prelude::*;

pub mod detect;
pub mod parse4;
pub mod parse5;
pub mod roundtrip;
pub mod roundtrip4;
pub mod write4;
pub mod write5;
pub mod word;

verus! {

/// The container version of a bank.
#[derive(Debug, Clone, Copy, PartialEq, Eq, Structural)]
pub enum Version {
    Fsb4,
    Fsb5,
}

/// How the samples of a bank are encoded.
#[derive(Debug, Clone, Copy, PartialEq, Eq, Structural)]
pub enum Codec {
    /// No codec was recorded.
    Unspecified,
    Pcm8,
    Pcm16,
    Pcm24,
    Pcm32,
    PcmFloat,
    GcAdpcm,
    ImaAdpcm,
    Vag,
    Hevag,
    Xma,
    Mpeg,
    Celt,
    At9,
    Xwma,
    Vorbis,
}

impl Codec {
    /// The codec with the given id.
    pub open spec fn spec_from_u32(val: u32) -> Option<Codec> {
        match val {
            0 => Some(Codec::Unspecified),
            1 => Some(Codec::Pcm8),
            2 => Some(Codec::Pcm16),
            3 => Some(Codec::Pcm24),
            4 => Some(Codec::Pcm32),
            5 => Some(Codec::PcmFloat),
            6 => Some(Codec::GcAdpcm),
            7 => Some(Codec::ImaAdpcm),
            8 => Some(Codec::Vag),
            9 => Some(Codec::Hevag),
            10 => Some(Codec::Xma),
            11 => Some(Codec::Mpeg),
            12 => Some(Codec::Celt),
            13 => Some(Codec::At9),
            14 => Some(Codec::Xwma),
            15 => Some(Codec::Vorbis),
            _ => None,
        }
    }

    /// The id of the codec.
    pub open spec fn spec_to_u32(self) -> u32 {
        match self {
            Codec::Unspecified => 0,
            Codec::Pcm8 => 1,
            Codec::Pcm16 => 2,
            Codec::Pcm24 => 3,
            Codec::Pcm32 => 4,
            Codec::PcmFloat => 5,
            Codec::GcAdpcm => 6,
            Codec::ImaAdpcm => 7,
            Codec::Vag => 8,
            Codec::Hevag => 9,
            Codec::Xma => 10,
            Codec::Mpeg => 11,
            Codec::Celt => 12,
            Codec::At9 => 13,
            Codec::Xwma => 14,
            Codec::Vorbis => 15,
        }
    }

    /// The codec with the given id, if the id is in the enumeration.
    pub fn from_u32(val: u32) -> (r: Option<Codec>)
        ensures
            r == Self::spec_from_u32(val),
            r is Some <==> val <= 15,
            r matches Some(c) ==> c.spec_to_u32() == val,
    {
        match val {
            0 => Some(Codec::Unspecified),
            1 => Some(Codec::Pcm8),
            2 => Some(Codec::Pcm16),
            3 => Some(Codec::Pcm24),
            4 => Some(Codec::Pcm32),
            5 => Some(Codec::PcmFloat),
            6 => Some(Codec::GcAdpcm),
            7 => Some(Codec::ImaAdpcm),
            8 => Some(Codec::Vag),
            9 => Some(Codec::Hevag),
            10 => Some(Codec::Xma),
            11 => Some(Codec::Mpeg),
            12 => Some(Codec::Celt),
            13 => Some(Codec::At9),
            14 => Some(Codec::Xwma),
            15 => Some(Codec::Vorbis),
            _ => None,
        }
    }

    /// The id of the codec.
    pub fn to_u32(self) -> (r: u32)
        ensures
            r == self.spec_to_u32(),
            r <= 15,
            Self::spec_from_u32(r) == Some(self),
    {
        match self {
            Codec::Unspecified => 0,
            Codec::Pcm8 => 1,
            Codec::Pcm16 => 2,
            Codec::Pcm24 => 3,
            Codec::Pcm32 => 4,
            Codec::PcmFloat => 5,
            Codec::GcAdpcm => 6,
            Codec::ImaAdpcm => 7,
            Codec::Vag => 8,
            Codec::Hevag => 9,
            Codec::Xma => 10,
            Codec::Mpeg => 11,
            Codec::Celt => 12,
            Codec::At9 => 13,
            Codec::Xwma => 14,
            Codec::Vorbis => 15,
        }
    }

    /// The file extension under which a sample of this codec is written out.
    pub open spec fn spec_extension(self) -> Seq<char> {
        match self {
            Codec::Mpeg => "mp3"@,
            Codec::Vorbis => "ogg"@,
            Codec::Pcm8 | Codec::Pcm16 | Codec::Pcm24 | Codec::Pcm32 | Codec::PcmFloat => "wav"@,
            _ => "bin"@,
        }
    }

    /// The file extension under which a sample of this codec is written out.
    pub fn extension(&self) -> (r: &'static str)
        ensures
            r@ == self.spec_extension(),
    {
        match self {
            Codec::Mpeg => "mp3",
            Codec::Vorbis => "ogg",
            Codec::Pcm8 | Codec::Pcm16 | Codec::Pcm24 | Codec::Pcm32 | Codec::PcmFloat => "wav",
            _ => "bin",
        }
    }
}

/// The cipher under which a bank was stored.
#[derive(Debug, Clone, Copy, PartialEq, Eq, Structural)]
pub enum Encryption {
    /// Stored in the clear.
    Plain,
    Aes,
    Fsbext,
}

/// The mode flags of a version 4 sample header.
#[derive(Debug, Clone, Copy)]
pub struct Fsb4Mode(pub u32);

impl Fsb4Mode {
    /// Whether the stereo flag, bit 22, is set.
    pub open spec fn spec_is_stereo(&self) -> bool {
        self.0 & 0x0040_0000 != 0
    }

    /// Whether the loop-points flag, bit 3, is set.
    pub open spec fn spec_has_loop_points(&self) -> bool {
        self.0 & 0x0000_0008 != 0
    }

    /// Whether the stereo flag is set.
    pub fn is_stereo(&self) -> (r: bool)
        ensures
            r == self.spec_is_stereo(),
    {
        self.0 & 0x0040_0000 != 0
    }

    /// Whether the loop-points flag is set.
    pub fn has_loop_points(&self) -> (r: bool)
        ensures
            r == self.spec_has_loop_points(),
    {
        self.0 & 0x0000_0008 != 0
    }
}


/// One audio entry of a bank.
#[derive(Debug, Clone)]
pub struct Sample {
    /// The position of the sample in the bank.
    pub index: usize,
    pub name: Option<String>,
    pub frequency: u32,
    pub channels: u32,
    /// The number of playable frames.
    pub samples: u64,
    /// Where the sample's bytes start in the bank's buffer.
    pub data_offset: u64,
    pub data_size: u64,
    pub loop_start: Option<u32>,
    pub loop_end: Option<u32>,
    /// The key of the sample's codec setup in the setup dictionary.
    pub vorbis_crc: Option<u32>,
    pub vorbis_seek_table: Option<Vec<u32>>,
    /// The raw mode flags of a version 4 header.
    pub mode: Option<Fsb4Mode>,
}

/// What a `Sample` holds, as mathematical values.
pub struct SampleView {
    pub index: int,
    pub name: Option<Seq<char>>,
    pub frequency: u32,
    pub channels: u32,
    pub samples: u64,
    pub data_offset: u64,
    pub data_size: u64,
    pub loop_start: Option<u32>,
    pub loop_end: Option<u32>,
    pub vorbis_crc: Option<u32>,
    pub vorbis_seek_table: Option<Seq<u32>>,
    pub mode: Option<Fsb4Mode>,
}

impl View for Sample {
    type V = SampleView;

    open spec fn view(&self) -> SampleView {
        SampleView {
            index: self.index as int,
            name: match self.name {
                Some(n) => Some(n@),
                None => None,
            },
            frequency: self.frequency,
            channels: self.channels,
            samples: self.samples,
            data_offset: self.data_offset,
            data_size: self.data_size,
            loop_start: self.loop_start,
            loop_end: self.loop_end,
            vorbis_crc: self.vorbis_crc,
            vorbis_seek_table: match self.vorbis_seek_table {
                Some(t) => Some(t@),
                None => None,
            },
            mode: self.mode,
        }
    }
}

impl SampleView {
    /// What holds of a sample of a version 4 bank: it has a mode word, it
    /// has loop points where the mode says so and nowhere else, and its
    /// frequency is not 0.
    pub open spec fn sound_v4(self) -> bool {
        &&& self.mode is Some
        &&& self.loop_start is Some <==> self.mode->Some_0.spec_has_loop_points()
        &&& self.loop_end is Some <==> self.mode->Some_0.spec_has_loop_points()
        &&& self.frequency > 0
    }

    /// Where the sample's bytes end in the bank's buffer.
    pub open spec fn data_end(self) -> int {
        self.data_offset + self.data_size
    }
}

/// A loaded sound bank: its samples and the decrypted bytes of its file.
#[derive(Debug)]
pub struct FsbBank {
    pub version: Version,
    pub codec: Codec,
    pub samples: Vec<Sample>,
    /// The cipher under which the bank was found.
    pub encryption: Encryption,
    /// The decrypted file; every sample's bytes are a range of it.
    pub data: Vec<u8>,
    pub header_size: usize,
    pub sample_headers_size: u32,
    pub name_table_size: u32,
    pub data_size: u32,
    pub flags: u32,
    pub fsb5_mode: u32,
}

/// What an `FsbBank` holds, as mathematical values.
pub struct BankView {
    pub version: Version,
    pub codec: Codec,
    pub samples: Seq<SampleView>,
    pub encryption: Encryption,
    pub data: Seq<u8>,
    pub header_size: nat,
    pub sample_headers_size: u32,
    pub name_table_size: u32,
    pub data_size: u32,
    pub flags: u32,
    pub fsb5_mode: u32,
}

/// The views of the samples of `v`.
pub open spec fn sample_views(v: Seq<Sample>) -> Seq<SampleView> {
    Seq::new(v.len(), |i: int| v[i]@)
}

impl View for FsbBank {
    type V = BankView;

    open spec fn view(&self) -> BankView {
        BankView {
            version: self.version,
            codec: self.codec,
            samples: sample_views(self.samples@),
            encryption: self.encryption,
            data: self.data@,
            header_size: self.header_size as nat,
            sample_headers_size: self.sample_headers_size,
            name_table_size: self.name_table_size,
            data_size: self.data_size,
            flags: self.flags,
            fsb5_mode: self.fsb5_mode,
        }
    }
}

impl BankView {
    /// Where the data region starts: behind the header, the sample headers
    /// and the name table.
    pub open spec fn data_base(self) -> int {
        self.header_size + self.sample_headers_size + self.name_table_size
    }

    /// Each sample is at its index, starts where the one before it ends, and
    /// all of them lie inside the buffer.
    pub open spec fn samples_contiguous(self) -> bool {
        &&& forall|i: int| 0 <= i < self.samples.len() ==> (#[trigger] self.samples[i]).index == i
        &&& forall|i: int|
            0 <= i < self.samples.len() - 1 ==> (#[trigger] self.samples[i]).data_end()
                == self.samples[i + 1].data_offset
        &&& forall|i: int|
            0 <= i < self.samples.len() ==> (#[trigger] self.samples[i]).data_end()
                <= self.data.len()
    }

    /// Two banks that differ in their samples at most.
    pub open spec fn same_but_samples(self, other: BankView) -> bool {
        self == (BankView { samples: self.samples, ..other })
    }

    /// What loading promises of the samples of a version 5 bank beyond the
    /// invariant: each has a frequency of the frequency table, one or two
    /// channels, both loop points or none, a checksum and a seek table or
    /// neither, and no mode word.
    pub open spec fn loaded_sound(self) -> bool {
        self.version == Version::Fsb5 ==> forall|i: int|
            0 <= i < self.samples.len() ==> parse5::header_sound(#[trigger] self.samples[i])
    }

    /// The invariant of a loaded bank.
    pub open spec fn wf(self) -> bool {
        &&& self.samples_contiguous()
        &&& self.samples.len() <= u32::MAX
        &&& match self.version {
            Version::Fsb4 => {
                &&& self.header_size == 48
                &&& self.encryption == Encryption::Plain
                &&& self.name_table_size == 0
                &&& self.data.len() >= 48
                &&& self.samples.len() > 0 ==> self.samples[0].data_offset == self.data_base()
                &&& forall|i: int|
                    0 <= i < self.samples.len() ==> (#[trigger] self.samples[i]).sound_v4()
            },
            Version::Fsb5 => {
                &&& self.header_size == 60
                &&& parse5::spec_names(self.name_table(), self.samples.len() as int) is Ok
                &&& self.data_base() + self.data_size <= self.data.len()
                &&& self.samples.len() > 0 ==> self.samples[0].data_offset >= self.data_base()
                &&& self.samples.len() > 0 ==> self.samples.last().data_end() == self.data_base()
                    + self.data_size
            },
        }
    }
}


/// The bank that a file holds: the version and the cipher are found first,
/// the header is put in the clear, and the bank is read as its version asks.
pub open spec fn spec_from_bytes(data: Seq<u8>) -> Result<BankView, Error> {
    match detect::spec_detect(data) {
        Err(e) => Err(e),
        Ok((Version::Fsb4, _)) => parse4::spec_parse_fsb4(data),
        Ok((Version::Fsb5, enc)) => parse5::spec_parse_fsb5(
            detect::spec_decrypt_header(data, enc),
            enc,
        ),
    }
}

/// A bank that was loaded has as many samples as the count field of its
/// file's header says, which stands at byte 4 of a version 4 header and at
/// byte 8 of a version 5 header once that is in the clear; and the samples
/// of a version 5 bank are sound.
pub proof fn lemma_loaded_sound(data: Seq<u8>)
    requires
        spec_from_bytes(data) is Ok,
    ensures
        ({
            let b = spec_from_bytes(data)->Ok_0;
            &&& b.loaded_sound()
            &&& b.version == Version::Fsb4 ==> b.samples.len() == le_u32(data, 4)
            &&& b.version == Version::Fsb5 ==> b.samples.len() == le_u32(
                detect::spec_decrypt_header(data, b.encryption),
                8,
            )
        }),
{
    match detect::spec_detect(data) {
        Ok((Version::Fsb5, enc)) => {
            parse5::lemma_parse_fsb5_sound(detect::spec_decrypt_header(data, enc), enc);
        },
        _ => {},
    }
}

/// The bank as a file: a version 4 bank is never encrypted; a version 5
/// bank is put under the cipher that it was found under where `encrypt`
/// asks for it.
pub open spec fn spec_save(b: BankView, encrypt: bool) -> Result<Seq<u8>, Error> {
    match b.version {
        Version::Fsb4 => write4::spec_save_fsb4(b),
        Version::Fsb5 => write5::spec_save_fsb5(b, encrypt),
    }
}

/// Whether loading a file and saving the bank under its own cipher gives
/// the file again.
pub open spec fn resaves(bytes: Seq<u8>) -> bool {
    spec_from_bytes(bytes) is Ok && spec_save(spec_from_bytes(bytes)->Ok_0, true) == Ok::<
        Seq<u8>,
        Error,
    >(bytes)
}

/// Whether a saved file is recognised as what it is: a file under a cipher
/// is not taken for a file in the clear or under the other cipher. A file
/// in the clear always is.
pub open spec fn recognised(b: BankView, encrypt: bool, bytes: Seq<u8>) -> bool {
    b.version == Version::Fsb5 && write5::save_cipher(b, encrypt) != Encryption::Plain
        ==> detect::spec_detect(bytes) == Ok::<(Version, Encryption), Error>(
        (Version::Fsb5, write5::save_cipher(b, encrypt)),
    )
}

/// What loading keeps of sample `i` of a version 5 bank that was saved:
/// all that its header stores.
pub open spec fn keeps_sample(b: BankView, loaded: BankView, i: int) -> bool {
    let r = loaded.samples[i];
    let s = b.samples[i];
    &&& r.index == i
    &&& r.frequency == parse5::spec_frequency(parse5::spec_frequency_to_index(s.frequency))
    &&& parse5::in_frequency_table(s.frequency) ==> r.frequency == s.frequency
    &&& r.channels == (if s.channels > 1 {
        2u32
    } else {
        1u32
    })
    &&& r.samples == s.samples % 0x4000_0000
    &&& s.has_loop() ==> r.loop_start == s.loop_start && r.loop_end == s.loop_end
    &&& !s.has_loop() ==> r.loop_start is None && r.loop_end is None
    &&& r.vorbis_crc == s.vorbis_crc
    &&& s.vorbis_crc is Some ==> r.vorbis_seek_table == Some(s.seek_entries())
    &&& s.vorbis_crc is None ==> r.vorbis_seek_table is None
}

/// Whether loading the file of a version 5 bank gives a bank of as many
/// samples that keeps of each all that its header stores.
pub open spec fn loads_with_samples(b: BankView, bytes: Seq<u8>) -> bool {
    b.version == Version::Fsb5 ==> {
        &&& spec_from_bytes(bytes) is Ok
        &&& spec_from_bytes(bytes)->Ok_0.version == Version::Fsb5
        &&& spec_from_bytes(bytes)->Ok_0.codec == b.codec
        &&& spec_from_bytes(bytes)->Ok_0.samples.len() == b.samples.len()
        &&& forall|i: int|
            0 <= i < b.samples.len() ==> #[trigger] keeps_sample(
                b,
                spec_from_bytes(bytes)->Ok_0,
                i,
            )
    }
}

/// Whether the names of a bank survive being written: a version 5 bank
/// keeps its name table; the name fields of a version 4 bank must hold
/// UTF-8 after the name was cut to 29 bytes.
pub open spec fn names_survive(b: BankView) -> bool {
    b.version == Version::Fsb4 ==> forall|i: int|
        0 <= i < b.samples.len() ==> roundtrip4::name_survives((#[trigger] b.samples[i]).name)
}

/// By how much a sample's size changes when `new_len` bytes take its place.
pub open spec fn size_change(b: BankView, index: int, new_len: int) -> int {
    new_len - b.samples[index].data_size
}

/// Whether new bytes can take the place of sample `index`, and if not, why.
pub open spec fn spec_splice_check(b: BankView, index: int, new_len: int) -> Result<(), Error> {
    let d = size_change(b, index, new_len);
    if index < 0 || index >= b.samples.len() {
        Err(Error::IndexOutOfBounds)
    } else if b.samples[index].data_end() > b.data.len() || exists|j: int|
        index < j < b.samples.len() && !(0 <= (#[trigger] b.samples[j]).data_offset + d
            <= u64::MAX) {
        Err(Error::SampleOutOfBounds)
    } else if !(0 <= b.data_size + d <= u32::MAX) || b.data.len() + d > usize::MAX {
        Err(Error::TooLarge)
    } else {
        Ok(())
    }
}

/// The bank with `new_bytes` in the place of the bytes of sample `index`:
/// the buffer is the bytes before the sample, the new bytes and the bytes
/// behind it; the sample has the new size; each later sample and the size
/// of the data region move by the change in size; all else stays.
pub open spec fn spec_splice(b: BankView, index: int, new_bytes: Seq<u8>) -> BankView {
    let d = size_change(b, index, new_bytes.len() as int);
    let old = b.samples[index];
    BankView {
        samples: Seq::new(
            b.samples.len(),
            |j: int|
                if j == index {
                    SampleView { data_size: new_bytes.len() as u64, ..b.samples[j] }
                } else if j > index {
                    SampleView {
                        data_offset: (b.samples[j].data_offset + d) as u64,
                        ..b.samples[j]
                    }
                } else {
                    b.samples[j]
                },
        ),
        data: b.data.subrange(0, old.data_offset as int) + new_bytes + b.data.subrange(
            old.data_end(),
            b.data.len() as int,
        ),
        data_size: (b.data_size + d) as u32,
        ..b
    }
}

/// The bank with sample `index` replaced by `s`.
pub open spec fn with_sample(b: BankView, index: int, s: SampleView) -> BankView {
    BankView { samples: b.samples.update(index, s), ..b }
}

/// A version 4 bank with the MPEG stream `new_bytes` in the place of sample
/// `index`: the bytes are spliced in, and the sample takes the sample rate
/// and the channel count of the stream's first frame header, if it has one.
pub open spec fn spec_replace_fsb4(b: BankView, index: int, new_bytes: Seq<u8>) -> BankView {
    let spliced = spec_splice(b, index, new_bytes);
    match spec_mp3_info(new_bytes) {
        Some((rate, channels, _)) => with_sample(
            spliced,
            index,
            SampleView { frequency: rate, channels, ..spliced.samples[index] },
        ),
        None => spliced,
    }
}

/// A replaced sample changes nothing before it, moves what lies behind it
/// by the change in size, and keeps a sound bank sound.
pub proof fn lemma_splice_shifts(b: BankView, index: int, new_bytes: Seq<u8>)
    requires
        spec_splice_check(b, index, new_bytes.len() as int) is Ok,
    ensures
        ({
            let r = spec_splice(b, index, new_bytes);
            let d = size_change(b, index, new_bytes.len() as int);
            &&& r.samples.len() == b.samples.len()
            &&& forall|j: int|
                0 <= j <= index ==> (#[trigger] r.samples[j]).data_offset
                    == b.samples[j].data_offset
            &&& forall|j: int| 0 <= j < index ==> (#[trigger] r.samples[j]) == b.samples[j]
            &&& forall|j: int|
                index < j < b.samples.len() ==> (#[trigger] r.samples[j]).data_offset
                    == b.samples[j].data_offset + d && r.samples[j].data_size
                    == b.samples[j].data_size
            &&& r.samples[index].data_size == new_bytes.len()
            &&& r.data_size == b.data_size + d
            &&& r.data.len() == b.data.len() + d
            &&& r.sample_bytes(index) == new_bytes
            &&& b.wf() ==> r.wf()
        }),
{
    let r = spec_splice(b, index, new_bytes);
    let d = size_change(b, index, new_bytes.len() as int);
    let old = b.samples[index];
    assert(r.sample_bytes(index) =~= new_bytes);
    if b.wf() {
        assert forall|j: int| 0 <= j < r.samples.len() implies (#[trigger] r.samples[j]).index
            == j by {
            assert(b.samples[j].index == j);
        }
        assert forall|j: int| 0 <= j < r.samples.len() - 1 implies (#[trigger] r.samples[j]).data_end()
            == r.samples[j + 1].data_offset by {
            assert(b.samples[j].data_end() == b.samples[j + 1].data_offset);
        }
        assert forall|j: int| 0 <= j < r.samples.len() implies (#[trigger] r.samples[j]).data_end()
            <= r.data.len() by {
            assert(b.samples[j].data_end() <= b.data.len());
            lemma_contiguous_order(b, j, index);
            lemma_contiguous_order(b, index, j);
        }
        assert(b.samples[0].index == 0);
        lemma_contiguous_order(b, 0, index);
        assert(b.samples.last().data_end() <= b.data.len());
        if b.version == Version::Fsb5 {
            assert(old.data_offset >= b.data_base());
            assert(r.name_table() =~= b.name_table());
        }
    }
}

/// Replacing a sample of a version 4 bank moves what lies behind it as
/// putting the new bytes in its place does: only the replaced sample's
/// frequency and channel count may differ.
pub proof fn lemma_replace_fsb4_shifts(b: BankView, index: int, new_bytes: Seq<u8>)
    requires
        spec_splice_check(b, index, new_bytes.len() as int) is Ok,
    ensures
        ({
            let r = spec_replace_fsb4(b, index, new_bytes);
            let spliced = spec_splice(b, index, new_bytes);
            &&& r.samples.len() == b.samples.len()
            &&& forall|j: int|
                0 <= j < b.samples.len() && j != index ==> (#[trigger] r.samples[j])
                    == spliced.samples[j]
            &&& r.samples[index].data_offset == b.samples[index].data_offset
            &&& r.samples[index].data_size == new_bytes.len()
            &&& r.data_size == spliced.data_size
            &&& r.data == spliced.data
        }),
{
    lemma_splice_shifts(b, index, new_bytes);
}

/// In a sound bank a sample with a lower index ends before one with a
/// higher index starts.
pub proof fn lemma_contiguous_order(b: BankView, i: int, k: int)
    requires
        b.samples_contiguous(),
        0 <= i < b.samples.len(),
        0 <= k < b.samples.len(),
    ensures
        i < k ==> b.samples[i].data_end() <= b.samples[k].data_offset,
        i <= k ==> b.samples[i].data_offset <= b.samples[k].data_offset,
    decreases k - i,
{
    if i < k {
        lemma_contiguous_order(b, i + 1, k);
        assert(b.samples[i].data_end() == b.samples[i + 1].data_offset);
    }
}

/// The bytes of a canonical WAV file with the given samples: a RIFF header
/// for uncompressed audio, then the samples. Sizes and rates that do not
/// fit their 32 or 16 bits are stored modulo the field's range.
pub open spec fn spec_wav(pcm: Seq<u8>, sample_rate: u32, channels: u16, bits: u16) -> Seq<u8> {
    let data_size = (pcm.len() % 0x1_0000_0000) as u32;
    let byte_rate = ((sample_rate * channels * (bits / 8)) % 0x1_0000_0000) as u32;
    let block_align = ((channels * (bits / 8)) % 0x1_0000) as u16;
    seq![0x52u8, 0x49u8, 0x46u8, 0x46u8] + u32_le_bytes(((36 + data_size) % 0x1_0000_0000) as u32)
        + seq![0x57u8, 0x41u8, 0x56u8, 0x45u8] + seq![0x66u8, 0x6du8, 0x74u8, 0x20u8]
        + u32_le_bytes(16) + u16_le_bytes(1) + u16_le_bytes(channels) + u32_le_bytes(sample_rate)
        + u32_le_bytes(byte_rate) + u16_le_bytes(block_align) + u16_le_bytes(bits) + seq![
        0x64u8,
        0x61u8,
        0x74u8,
        0x61u8,
    ] + u32_le_bytes(data_size) + pcm
}

/// Puts a WAV header for uncompressed audio before the samples `pcm_data`.
pub fn create_wav_header(pcm_data: &[u8], sample_rate: u32, channels: u16, bits_per_sample: u16) -> (r:
    Vec<u8>)
    ensures
        r@ == spec_wav(pcm_data@, sample_rate, channels, bits_per_sample),
{
    let data_size: u32 = (pcm_data.len() as u64 % 0x1_0000_0000) as u32;
    let bytes: u64 = (bits_per_sample / 8) as u64;
    assert(sample_rate as u64 * channels as u64 * bytes <= 0xFFFF_FFFF * 0xFFFF * 0x1FFF)
        by (nonlinear_arith)
        requires
            sample_rate <= 0xFFFF_FFFF,
            channels <= 0xFFFF,
            bytes <= 0x1FFF,
    ;
    assert(sample_rate as u64 * channels as u64 <= 0xFFFF_FFFF * 0xFFFF) by (nonlinear_arith)
        requires
            sample_rate <= 0xFFFF_FFFF,
            channels <= 0xFFFF,
    ;
    assert(channels as u64 * bytes <= 0xFFFF * 0x1FFF) by (nonlinear_arith)
        requires
            channels <= 0xFFFF,
            bytes <= 0x1FFF,
    ;
    let byte_rate: u32 = (sample_rate as u64 * channels as u64 * bytes % 0x1_0000_0000) as u32;
    let block_align: u16 = (channels as u64 * bytes % 0x1_0000) as u16;
    let file_size: u32 = ((36 + data_size as u64) % 0x1_0000_0000) as u32;
    let mut wav: Vec<u8> = Vec::new();
    wav.push(0x52);
    wav.push(0x49);
    wav.push(0x46);
    wav.push(0x46);
    push_u32_le(&mut wav, file_size);
    wav.push(0x57);
    wav.push(0x41);
    wav.push(0x56);
    wav.push(0x45);
    wav.push(0x66);
    wav.push(0x6d);
    wav.push(0x74);
    wav.push(0x20);
    push_u32_le(&mut wav, 16);
    push_u16_le(&mut wav, 1);
    push_u16_le(&mut wav, channels);
    push_u32_le(&mut wav, sample_rate);
    push_u32_le(&mut wav, byte_rate);
    push_u16_le(&mut wav, block_align);
    push_u16_le(&mut wav, bits_per_sample);
    wav.push(0x64);
    wav.push(0x61);
    wav.push(0x74);
    wav.push(0x61);
    push_u32_le(&mut wav, data_size);
    wav.extend_from_slice(pcm_data);
    assert(wav@ =~= spec_wav(pcm_data@, sample_rate, channels, bits_per_sample));
    wav
}

/// What extracting the audio of sample `index` gives: the bytes and the
/// kind of file that they are. MPEG samples are stripped to their frames,
/// 16-bit PCM gets a WAV header, Vorbis is handed out raw, and the bytes of
/// any other codec are handed out as they are, to be taken as opaque.
pub open spec fn spec_extract_audio(b: BankView, index: int) -> Result<(Seq<u8>, Seq<char>), Error> {
    if index < 0 || index >= b.samples.len() {
        Err(Error::IndexOutOfBounds)
    } else if b.samples[index].data_end() > b.data.len() {
        Err(Error::SampleOutOfBounds)
    } else {
        let raw = b.sample_bytes(index);
        let s = b.samples[index];
        match b.codec {
            Codec::Mpeg => Ok((spec_extract_mp3(raw), "mp3"@)),
            Codec::Vorbis => Ok((raw, "vorbis_raw"@)),
            Codec::Pcm16 => Ok(
                (spec_wav(raw, s.frequency, (s.channels % 0x1_0000) as u16, 16), "wav"@),
            ),
            _ => Ok((raw, "bin"@)),
        }
    }
}

impl FsbBank {
    /// Reads a bank from the bytes of a file.
    pub fn from_bytes(data: Vec<u8>) -> (r: Result<FsbBank, Error>)
        ensures
            parse5::bank_result_view(r) == spec_from_bytes(data@),
            r matches Ok(b) ==> b@.wf() && b@.loaded_sound(),
    {
        let mut data = data;
        proof {
            if spec_from_bytes(data@) is Ok {
                lemma_loaded_sound(data@);
            }
        }
        match detect::detect(data.as_slice()) {
            Err(e) => Err(e),
            Ok((Version::Fsb4, _)) => parse4::parse_fsb4(data),
            Ok((Version::Fsb5, enc)) => {
                detect::decrypt_header(&mut data, enc);
                parse5::parse_fsb5(data, enc)
            },
        }
    }

    /// Finds the container version of a file.
    pub fn detect_version(data: &[u8]) -> (r: Result<Version, Error>)
        ensures
            match r {
                Ok(v) => detect::spec_detect(data@) is Ok && detect::spec_detect(data@)->Ok_0.0 == v,
                Err(e) => detect::spec_detect(data@) == Err::<(Version, Encryption), Error>(e),
            },
    {
        match detect::detect(data) {
            Ok((v, _)) => Ok(v),
            Err(e) => Err(e),
        }
    }

    /// The bytes of sample `index`.
    pub fn sample_data(&self, index: usize) -> (r: Result<&[u8], Error>)
        ensures
            match r {
                Ok(bytes) => index < self@.samples.len() && self@.samples[index as int].data_end()
                    <= self@.data.len() && bytes@ == self@.sample_bytes(index as int),
                Err(e) => if index >= self@.samples.len() {
                    e == Error::IndexOutOfBounds
                } else {
                    e == Error::SampleOutOfBounds && self@.samples[index as int].data_end()
                        > self@.data.len()
                },
            },
    {
        if index >= self.samples.len() {
            return Err(Error::IndexOutOfBounds);
        }
        let s = &self.samples[index];
        assert(s@ == self@.samples[index as int]);
        let len: u64 = self.data.len() as u64;
        if s.data_offset > len || s.data_size > len - s.data_offset {
            return Err(Error::SampleOutOfBounds);
        }
        Ok(
            vstd::slice::slice_subrange(
                self.data.as_slice(),
                s.data_offset as usize,
                (s.data_offset + s.data_size) as usize,
            ),
        )
    }

    /// Writes the bank as a file of its version. The file of a sound bank
    /// is read back as a bank that is written as the same file again, if it
    /// is recognised as what it is and the bank's names survive.
    pub fn save(&self, encrypt: bool) -> (r: Result<Vec<u8>, Error>)
        ensures
            crate::bytes::bytes_result_view(r) == spec_save(self@, encrypt),
            r matches Ok(v) ==> (self@.wf() && recognised(self@, encrypt, v@) && names_survive(
                self@,
            ) ==> resaves(v@) && loads_with_samples(self@, v@)),
    {
        match self.version {
            Version::Fsb4 => {
                let r = write4::save_fsb4(self);
                proof {
                    if r is Ok && self@.wf() && names_survive(self@) {
                        roundtrip4::lemma_roundtrip_fsb4(self@, encrypt);
                    }
                }
                r
            },
            Version::Fsb5 => {
                let r = write5::save_fsb5(self, encrypt);
                proof {
                    if r is Ok && self@.wf() && recognised(self@, encrypt, r->Ok_0@) {
                        roundtrip::lemma_roundtrip_fsb5(self@, encrypt);
                        assert forall|i: int| 0 <= i < self@.samples.len() implies #[trigger] keeps_sample(
                            self@,
                            spec_from_bytes(r->Ok_0@)->Ok_0,
                            i,
                        ) by {
                            roundtrip::lemma_loaded_sample_fsb5(self@, encrypt, i);
                        }
                        if self@.samples.len() == 0 {
                            roundtrip::lemma_load_saved_fsb5(self@, encrypt);
                        } else {
                            roundtrip::lemma_loaded_sample_fsb5(self@, encrypt, 0);
                        }
                    }
                }
                r
            },
        }
    }

    /// The MPEG frames of sample `index`.
    pub fn extract_mp3(&self, index: usize) -> (r: Result<Vec<u8>, Error>)
        ensures
            match r {
                Ok(v) => self@.codec == Codec::Mpeg && spec_extract_audio(self@, index as int)
                    == Ok::<(Seq<u8>, Seq<char>), Error>((v@, "mp3"@)),
                Err(e) => if self@.codec != Codec::Mpeg {
                    e == Error::NotMpeg
                } else {
                    spec_extract_audio(self@, index as int) == Err::<(Seq<u8>, Seq<char>), Error>(e)
                },
            },
    {
        match self.codec {
            Codec::Mpeg => {},
            _ => {
                return Err(Error::NotMpeg);
            },
        }
        let raw = match self.sample_data(index) {
            Ok(v) => v,
            Err(e) => {
                return Err(e);
            },
        };
        let s = &self.samples[index];
        extract_mp3_from_fsb4(raw, s.frequency, s.channels)
    }

    /// The audio of sample `index` and the kind of file that it is.
    pub fn extract_audio(&self, index: usize) -> (r: Result<(Vec<u8>, &'static str), Error>)
        ensures
            match r {
                Ok((v, ext)) => spec_extract_audio(self@, index as int) == Ok::<
                    (Seq<u8>, Seq<char>),
                    Error,
                >((v@, ext@)),
                Err(e) => spec_extract_audio(self@, index as int) == Err::<
                    (Seq<u8>, Seq<char>),
                    Error,
                >(e),
            },
    {
        let raw = match self.sample_data(index) {
            Ok(v) => v,
            Err(e) => {
                return Err(e);
            },
        };
        let s = &self.samples[index];
        assert(s@ == self@.samples[index as int]);
        match self.codec {
            Codec::Mpeg => match extract_mp3_from_fsb4(raw, s.frequency, s.channels) {
                Ok(v) => Ok((v, "mp3")),
                Err(e) => Err(e),
            },
            Codec::Vorbis => Ok((vstd::slice::slice_to_vec(raw), "vorbis_raw")),
            Codec::Pcm16 => Ok(
                (create_wav_header(raw, s.frequency, (s.channels % 0x1_0000) as u16, 16), "wav"),
            ),
            _ => Ok((vstd::slice::slice_to_vec(raw), "bin")),
        }
    }

    /// Whether new bytes can take the place of sample `index`.
    fn splice_check(&self, index: usize, new_len: usize) -> (r: Result<(), Error>)
        ensures
            r == spec_splice_check(self@, index as int, new_len as int),
    {
        let n: usize = self.samples.len();
        if index >= n {
            return Err(Error::IndexOutOfBounds);
        }
        let s = &self.samples[index];
        assert(s@ == self@.samples[index as int]);
        let len: u64 = self.data.len() as u64;
        if s.data_offset > len || s.data_size > len - s.data_offset {
            return Err(Error::SampleOutOfBounds);
        }
        let old_size: u64 = s.data_size;
        let new_size: u64 = new_len as u64;
        let grows: bool = new_size >= old_size;
        let delta: u64 = if grows {
            new_size - old_size
        } else {
            old_size - new_size
        };
        let ghost d = size_change(self@, index as int, new_len as int);
        assert(d == if grows {
            delta as int
        } else {
            -(delta as int)
        });
        let mut j: usize = index + 1;
        while j < n
            invariant
                index < j <= n,
                n == self.samples@.len(),
                d == size_change(self@, index as int, new_len as int),
                d == if grows {
                    delta as int
                } else {
                    -(delta as int)
                },
                forall|i: int|
                    index < i < j ==> 0 <= (#[trigger] self@.samples[i]).data_offset + d
                        <= u64::MAX,
            decreases n - j,
        {
            let off: u64 = self.samples[j].data_offset;
            assert(self.samples@[j as int]@ == self@.samples[j as int]);
            let fits = if grows {
                off <= u64::MAX - delta
            } else {
                off >= delta
            };
            if !fits {
                return Err(Error::SampleOutOfBounds);
            }
            j = j + 1;
        }
        let size_fits = if grows {
            delta <= 0xFFFF_FFFF && self.data_size as u64 + delta <= 0xFFFF_FFFF && delta
                <= (usize::MAX - self.data.len()) as u64
        } else {
            self.data_size as u64 >= delta
        };
        if !size_fits {
            return Err(Error::TooLarge);
        }
        Ok(())
    }

    /// Puts `new_data` in the place of the bytes of sample `index`. Each
    /// later sample and the size of the data region move by the change in
    /// size. On a failure the bank stays as it was.
    pub fn splice_sample(&mut self, index: usize, new_data: &[u8]) -> (r: Result<(), Error>)
        ensures
            final(self).samples@.len() == old(self).samples@.len(),
            match r {
                Ok(()) => spec_splice_check(old(self)@, index as int, new_data@.len() as int)
                    is Ok && final(self)@ == spec_splice(old(self)@, index as int, new_data@),
                Err(e) => spec_splice_check(old(self)@, index as int, new_data@.len() as int)
                    == Err::<(), Error>(e) && *final(self) == *old(self),
            },
    {
        match self.splice_check(index, new_data.len()) {
            Ok(()) => {},
            Err(e) => {
                return Err(e);
            },
        }
        let ghost before = self@;
        let ghost d = size_change(before, index as int, new_data@.len() as int);
        let n: usize = self.samples.len();
        let len: usize = self.data.len();
        assert(self.samples@[index as int]@ == before.samples[index as int]);
        assert(before.samples[index as int].data_end() <= before.data.len());
        assert(forall|i: int|
            index < i < n ==> 0 <= (#[trigger] before.samples[i]).data_offset + d <= u64::MAX);
        assert(0 <= before.data_size + d <= u32::MAX);
        let old_offset: u64 = self.samples[index].data_offset;
        let old_size: u64 = self.samples[index].data_size;
        let new_size: u64 = new_data.len() as u64;
        let mut data: Vec<u8> = Vec::new();
        push_range(&mut data, self.data.as_slice(), 0, old_offset as usize);
        data.extend_from_slice(new_data);
        push_range(
            &mut data,
            self.data.as_slice(),
            (old_offset + old_size) as usize,
            len,
        );
        assert(data@ =~= spec_splice(before, index as int, new_data@).data);
        self.samples[index].data_size = new_size;
        let mut j: usize = index + 1;
        while j < n
            invariant
                index < j <= n,
                n == self.samples@.len(),
                n == before.samples.len(),
                d == new_size - old_size,
                d == size_change(before, index as int, new_data@.len() as int),
                self@.same_but_samples(before),
                old_size == before.samples[index as int].data_size,
                forall|i: int|
                    index < i < n ==> 0 <= (#[trigger] before.samples[i]).data_offset + d
                        <= u64::MAX,
                forall|i: int|
                    0 <= i < j ==> (#[trigger] self.samples@[i])@ == spec_splice(
                        before,
                        index as int,
                        new_data@,
                    ).samples[i],
                forall|i: int| j <= i < n ==> (#[trigger] self.samples@[i])@ == before.samples[i],
            decreases n - j,
        {
            let off: u64 = self.samples[j].data_offset;
            assert(self.samples@[j as int]@ == before.samples[j as int]);
            let moved: u64 = if new_size >= old_size {
                off + (new_size - old_size)
            } else {
                off - (old_size - new_size)
            };
            self.samples[j].data_offset = moved;
            j = j + 1;
        }
        self.data_size = if new_size >= old_size {
            self.data_size + (new_size - old_size) as u32
        } else {
            self.data_size - (old_size - new_size) as u32
        };
        self.data = data;
        assert(self@.samples =~= spec_splice(before, index as int, new_data@).samples);
        Ok(())
    }

    /// Replaces sample `index` of a version 4 bank by the MPEG stream
    /// `new_mp3_data`. On a failure the bank stays as it was.
    pub fn replace_sample(&mut self, index: usize, new_mp3_data: &[u8]) -> (r: Result<(), Error>)
        ensures
            match r {
                Ok(()) => {
                    &&& old(self)@.version == Version::Fsb4
                    &&& spec_splice_check(old(self)@, index as int, new_mp3_data@.len() as int)
                        is Ok
                    &&& final(self)@ == spec_replace_fsb4(old(self)@, index as int, new_mp3_data@)
                },
                Err(e) => {
                    &&& *final(self) == *old(self)
                    &&& if old(self)@.version == Version::Fsb5 {
                        e == Error::WrongVersion
                    } else {
                        spec_splice_check(old(self)@, index as int, new_mp3_data@.len() as int)
                            == Err::<(), Error>(e)
                    }
                },
            },
    {
        match self.version {
            Version::Fsb4 => {},
            Version::Fsb5 => {
                return Err(Error::WrongVersion);
            },
        }
        let info = get_mp3_info(new_mp3_data);
        match self.splice_sample(index, new_mp3_data) {
            Ok(()) => {},
            Err(e) => {
                return Err(e);
            },
        }
        let ghost spliced = self@;
        match info {
            Some((rate, channels, _)) => {
                self.samples[index].frequency = rate;
                self.samples[index].channels = channels;
                assert(self@.samples =~= spliced.samples.update(
                    index as int,
                    SampleView { frequency: rate, channels, ..spliced.samples[index as int] },
                ));
            },
            None => {},
        }
        Ok(())
    }
}

} // verus!
