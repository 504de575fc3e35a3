//! Reading, editing and writing FMOD sound banks of version 4 and 5: the
//! ciphers that banks are stored under, the container formats, the MPEG and
//! Vorbis streams inside them, and the replacement of single samples. Every
//! function is verified against a contract over the bytes that it reads or
//! writes; what rests on other crates is named where it is used.

use vstd::prelude::*;

pub mod audio;
pub mod bytes;
pub mod crypto;
pub mod dictionary;
pub mod error;
pub mod formats;
pub mod fsb;
pub mod pending;
pub mod text;

pub use crate::crypto::FSB_KEY;
pub use crate::dictionary::{get_vorbis_setup_header, SetupDictionary};
pub use crate::error::{Error, ErrorFamily};
pub use crate::fsb::{Codec, Encryption, Fsb4Mode, FsbBank, Sample, Version};
pub use crate::pending::PendingReplacements;

use crate::audio::vorbis::{
    build_ogg_file, generate_comment_header, generate_id_header, ogg_pages, spec_build_ogg,
    spec_comment_header, spec_id_header, spec_packets, spec_stream, starts_with_capture,
    VorbisHeaders,
};
use crate::bytes::bytes_result_view;
use crate::fsb::{
    lemma_splice_shifts, spec_extract_audio, spec_from_bytes, spec_splice, spec_splice_check,
    with_sample, BankView, SampleView,
};

verus! {

/// What rebuilding the Ogg file of a sample gives. It fails where the bank
/// is not Vorbis, where the sample has no setup checksum, where the
/// dictionary has no setup header for the checksum, and where the sample's
/// bytes cannot be had; else it is the file that is built from the two
/// synthesized headers, the setup header and the sample's bytes.
pub open spec fn spec_rebuild_ogg(
    dict: Map<u32, Seq<u8>>,
    bank: BankView,
    sample: SampleView,
) -> Result<Seq<u8>, Error> {
    if bank.codec != Codec::Vorbis {
        Err(Error::NotVorbis)
    } else if sample.vorbis_crc is None {
        Err(Error::MissingChecksum)
    } else if !dict.contains_key(sample.vorbis_crc->Some_0) {
        Err(Error::UnknownSetupChecksum(sample.vorbis_crc->Some_0))
    } else if sample.index < 0 || sample.index >= bank.samples.len() {
        Err(Error::IndexOutOfBounds)
    } else if bank.samples[sample.index].data_end() > bank.data.len() {
        Err(Error::SampleOutOfBounds)
    } else {
        spec_build_ogg(
            spec_id_header(sample.frequency, (sample.channels % 0x100) as u8),
            spec_comment_header(),
            dict[sample.vorbis_crc->Some_0],
            bank.sample_bytes(sample.index),
        )
    }
}

/// Rebuilds the Ogg file of a Vorbis sample of `bank`: the headers that
/// the bank does not store are made anew, the setup header comes from
/// `dict`. A file that is rebuilt starts with the Ogg capture pattern.
pub fn rebuild_ogg(dict: &SetupDictionary, bank: &FsbBank, sample: &Sample) -> (r: Result<
    Vec<u8>,
    Error,
>)
    ensures
        bytes_result_view(r) == spec_rebuild_ogg(dict@, bank@, sample@),
        r matches Ok(v) ==> starts_with_capture(v@),
{
    match bank.codec {
        Codec::Vorbis => {},
        _ => {
            return Err(Error::NotVorbis);
        },
    }
    let crc: u32 = match sample.vorbis_crc {
        Some(c) => c,
        None => {
            return Err(Error::MissingChecksum);
        },
    };
    let setup = match get_vorbis_setup_header(dict, crc) {
        Some(s) => s,
        None => {
            return Err(Error::UnknownSetupChecksum(crc));
        },
    };
    let raw = match bank.sample_data(sample.index) {
        Ok(v) => v,
        Err(e) => {
            return Err(e);
        },
    };
    let headers = VorbisHeaders {
        id_header: generate_id_header(sample.frequency, (sample.channels % 0x100) as u8),
        comment_header: generate_comment_header(),
        setup_header: setup,
    };
    build_ogg_file(&headers, raw, sample.samples)
}

/// Rebuilding a sample is a function of the dictionary, the bank and the
/// sample: two calls on the same three give the same result, byte for
/// byte.
pub proof fn lemma_rebuild_ogg_deterministic(
    dict: Map<u32, Seq<u8>>,
    bank: BankView,
    sample: SampleView,
    first: Result<Seq<u8>, Error>,
    second: Result<Seq<u8>, Error>,
)
    requires
        first == spec_rebuild_ogg(dict, bank, sample),
        second == spec_rebuild_ogg(dict, bank, sample),
    ensures
        first == second,
{
}

/// Whether a sample of a bank can be rebuilt: the bank is Vorbis, the
/// dictionary knows the sample's checksum, the sample's bytes lie inside
/// the bank's buffer, and they hold no more packets than 32 bits can count.
pub open spec fn can_rebuild(dict: Map<u32, Seq<u8>>, bank: BankView, sample: SampleView) -> bool {
    &&& bank.codec == Codec::Vorbis
    &&& sample.vorbis_crc is Some
    &&& dict.contains_key(sample.vorbis_crc->Some_0)
    &&& 0 <= sample.index < bank.samples.len()
    &&& bank.samples[sample.index].data_end() <= bank.data.len()
    &&& spec_packets(bank.sample_bytes(sample.index), 0).len() <= u32::MAX
}

/// A sample that can be rebuilt is rebuilt: the result is the Ogg file of
/// the identification header, the comment header, the setup header of the
/// dictionary and the sample's packets, the last of which ends the stream.
pub proof fn lemma_rebuild_ogg_succeeds(
    dict: Map<u32, Seq<u8>>,
    bank: BankView,
    sample: SampleView,
)
    requires
        can_rebuild(dict, bank, sample),
    ensures
        spec_rebuild_ogg(dict, bank, sample) == Ok::<Seq<u8>, Error>(
            ogg_pages(
                spec_stream(
                    spec_id_header(sample.frequency, (sample.channels % 0x100) as u8),
                    spec_comment_header(),
                    dict[sample.vorbis_crc->Some_0],
                    spec_packets(bank.sample_bytes(sample.index), 0),
                ),
            ),
        ),
{
}

/// A sample whose checksum the dictionary lacks is never rebuilt.
pub proof fn lemma_unknown_checksum_rejected(
    dict: Map<u32, Seq<u8>>,
    bank: BankView,
    sample: SampleView,
)
    requires
        bank.codec == Codec::Vorbis,
        sample.vorbis_crc is Some,
        !dict.contains_key(sample.vorbis_crc->Some_0),
    ensures
        spec_rebuild_ogg(dict, bank, sample) == Err::<Seq<u8>, Error>(
            Error::UnknownSetupChecksum(sample.vorbis_crc->Some_0),
        ),
{
}

/// The MPEG frames of a sample of `bank`.
pub fn extract_mp3(bank: &FsbBank, sample: &Sample) -> (r: Result<Vec<u8>, Error>)
    ensures
        match r {
            Ok(v) => bank@.codec == Codec::Mpeg && spec_extract_audio(bank@, sample@.index) == Ok::<
                (Seq<u8>, Seq<char>),
                Error,
            >((v@, "mp3"@)),
            Err(e) => if bank@.codec != Codec::Mpeg {
                e == Error::NotMpeg
            } else {
                spec_extract_audio(bank@, sample@.index) == Err::<(Seq<u8>, Seq<char>), Error>(e)
            },
        },
{
    bank.extract_mp3(sample.index)
}

/// The sample that takes the place of `target` when `new` replaces it: the
/// place in the bank and the name stay, what the audio is like comes from
/// `new`.
pub open spec fn replaced_sample(target: SampleView, new: SampleView) -> SampleView {
    SampleView {
        frequency: new.frequency,
        channels: new.channels,
        samples: new.samples,
        vorbis_crc: new.vorbis_crc,
        vorbis_seek_table: new.vorbis_seek_table,
        ..target
    }
}

/// Whether the first sample of `new_bank` may replace `target`, and if
/// not, why: the new bank must hold a sample; without resampling its
/// frequency and channel count must be the target's; and the dictionary
/// must know its setup checksum, if it has one.
pub open spec fn spec_replacement_fits(
    target: SampleView,
    dict: Map<u32, Seq<u8>>,
    new_bank: BankView,
    did_resample: bool,
) -> Result<(), Error> {
    if new_bank.samples.len() == 0 {
        Err(Error::EmptyReplacement)
    } else {
        let new = new_bank.samples[0];
        if new.data_end() > new_bank.data.len() {
            Err(Error::SampleOutOfBounds)
        } else if (new.frequency != target.frequency || new.channels != target.channels)
            && !did_resample {
            Err(Error::FormatMismatch)
        } else if new.vorbis_crc is Some && !dict.contains_key(new.vorbis_crc->Some_0) {
            Err(Error::UnsupportedSetup(new.vorbis_crc->Some_0))
        } else {
            Ok(())
        }
    }
}

/// Whether the one-sample bank `encoded` may replace sample `index` of a
/// version 5 bank, and if not, why. `did_resample` says that the source was
/// brought to the target's frequency and channel count before encoding.
pub open spec fn spec_replace_check(
    bank: BankView,
    dict: Map<u32, Seq<u8>>,
    index: int,
    encoded: Seq<u8>,
    did_resample: bool,
) -> Result<(), Error> {
    if bank.version != Version::Fsb5 {
        Err(Error::WrongVersion)
    } else if index < 0 || index >= bank.samples.len() {
        Err(Error::IndexOutOfBounds)
    } else {
        match spec_from_bytes(encoded) {
            Err(e) => Err(e),
            Ok(new_bank) => match spec_replacement_fits(
                bank.samples[index],
                dict,
                new_bank,
                did_resample,
            ) {
                Err(e) => Err(e),
                Ok(()) => spec_splice_check(bank, index, new_bank.samples[0].data_size as int),
            },
        }
    }
}

/// The bank after the first sample of `new_bank` has replaced sample
/// `index`.
pub open spec fn spec_replace_with(bank: BankView, index: int, new_bank: BankView) -> BankView {
    let spliced = spec_splice(bank, index, new_bank.sample_bytes(0));
    with_sample(spliced, index, replaced_sample(spliced.samples[index], new_bank.samples[0]))
}

/// The bank after the first sample of the one-sample bank `encoded` has
/// replaced sample `index`.
pub open spec fn spec_replace(bank: BankView, index: int, encoded: Seq<u8>) -> BankView {
    spec_replace_with(bank, index, spec_from_bytes(encoded)->Ok_0)
}

/// A replaced sample moves what lies behind it: the samples before it stay
/// as they are, the sample itself stays where it is, each later sample
/// moves by the change in size and keeps all else, the data region grows by
/// the change in size, and a sound bank stays sound.
pub proof fn lemma_replace_shifts(
    bank: BankView,
    dict: Map<u32, Seq<u8>>,
    index: int,
    encoded: Seq<u8>,
    did_resample: bool,
)
    requires
        spec_replace_check(bank, dict, index, encoded, did_resample) is Ok,
    ensures
        ({
            let r = spec_replace(bank, index, encoded);
            let new = spec_from_bytes(encoded)->Ok_0.samples[0];
            let d = new.data_size - bank.samples[index].data_size;
            &&& r.samples.len() == bank.samples.len()
            &&& forall|j: int| 0 <= j < index ==> (#[trigger] r.samples[j]) == bank.samples[j]
            &&& r.samples[index].data_offset == bank.samples[index].data_offset
            &&& r.samples[index].data_size == new.data_size
            &&& forall|j: int|
                index < j < bank.samples.len() ==> (#[trigger] r.samples[j]) == (SampleView {
                    data_offset: (bank.samples[j].data_offset + d) as u64,
                    ..bank.samples[j]
                }) && r.samples[j].data_offset == bank.samples[j].data_offset + d
            &&& r.data_size == bank.data_size + d
            &&& bank.wf() ==> r.wf()
        }),
{
    let new_bank = spec_from_bytes(encoded)->Ok_0;
    let bytes = new_bank.sample_bytes(0);
    assert(bytes.len() == new_bank.samples[0].data_size);
    lemma_splice_shifts(bank, index, bytes);
    let spliced = spec_splice(bank, index, bytes);
    let r = spec_replace(bank, index, encoded);
    if bank.wf() {
        assert(spliced.wf());
        assert(r.name_table() == spliced.name_table());
        assert forall|j: int| 0 <= j < r.samples.len() implies (#[trigger] r.samples[j]).index == j
            && r.samples[j].data_offset == spliced.samples[j].data_offset && r.samples[j].data_end()
            == spliced.samples[j].data_end() by {
            assert(spliced.samples[j].index == j);
        }
        assert(r.samples.last().data_end() == spliced.samples.last().data_end());
    }
}

/// A copy of a seek table that may be absent.
fn copy_seek_table(t: &Option<Vec<u32>>) -> (r: Option<Vec<u32>>)
    ensures
        match (r, *t) {
            (Some(a), Some(b)) => a@ == b@,
            (None, None) => true,
            _ => false,
        },
{
    match t {
        Some(v) => Some(vstd::slice::slice_to_vec(v.as_slice())),
        None => None,
    }
}

/// Whether the first sample of `new_bank` may replace a sample of the given
/// frequency and channel count.
fn replacement_fits(
    target: &Sample,
    dict: &SetupDictionary,
    new_bank: &FsbBank,
    did_resample: bool,
) -> (r: Result<(), Error>)
    ensures
        r == spec_replacement_fits(target@, dict@, new_bank@, did_resample),
{
    if new_bank.samples.len() == 0 {
        return Err(Error::EmptyReplacement);
    }
    let new_sample = &new_bank.samples[0];
    assert(new_sample@ == new_bank@.samples[0]);
    let len: u64 = new_bank.data.len() as u64;
    if new_sample.data_offset > len || new_sample.data_size > len - new_sample.data_offset {
        return Err(Error::SampleOutOfBounds);
    }
    let mismatch = new_sample.frequency != target.frequency || new_sample.channels
        != target.channels;
    if mismatch && !did_resample {
        return Err(Error::FormatMismatch);
    }
    match new_sample.vorbis_crc {
        Some(crc) => {
            if !dict.contains(crc) {
                return Err(Error::UnsupportedSetup(crc));
            }
        },
        None => {},
    }
    Ok(())
}

/// Puts the first sample of `new_bank` in the place of sample `index`.
fn replace_with(bank: &mut FsbBank, index: usize, new_bank: &FsbBank) -> (r: Result<(), Error>)
    requires
        new_bank@.samples.len() > 0,
        new_bank@.samples[0].data_end() <= new_bank@.data.len(),
    ensures
        match r {
            Ok(()) => spec_splice_check(
                old(bank)@,
                index as int,
                new_bank@.samples[0].data_size as int,
            ) is Ok && final(bank)@ == spec_replace_with(old(bank)@, index as int, new_bank@),
            Err(e) => spec_splice_check(
                old(bank)@,
                index as int,
                new_bank@.samples[0].data_size as int,
            ) == Err::<(), Error>(e) && *final(bank) == *old(bank),
        },
{
    let new_sample = &new_bank.samples[0];
    assert(new_sample@ == new_bank@.samples[0]);
    let new_data = match new_bank.sample_data(0) {
        Ok(v) => v,
        Err(e) => {
            return Err(Error::SampleOutOfBounds);
        },
    };
    match bank.splice_sample(index, new_data) {
        Ok(()) => {},
        Err(e) => {
            return Err(e);
        },
    }
    let ghost spliced = bank@;
    assert(bank.samples@.len() == spliced.samples.len());
    bank.samples[index].frequency = new_sample.frequency;
    bank.samples[index].channels = new_sample.channels;
    bank.samples[index].samples = new_sample.samples;
    bank.samples[index].vorbis_crc = new_sample.vorbis_crc;
    bank.samples[index].vorbis_seek_table = copy_seek_table(&new_sample.vorbis_seek_table);
    assert(bank@.samples =~= spliced.samples.update(
        index as int,
        replaced_sample(spliced.samples[index as int], new_sample@),
    ));
    Ok(())
}

/// Replaces sample `sample_index` of a version 5 bank by the first sample
/// of `encoded`, a bank that an encoder made of the new audio. On a failure
/// the bank stays as it was.
pub fn replace_sample(
    bank: &mut FsbBank,
    dict: &SetupDictionary,
    sample_index: usize,
    encoded: Vec<u8>,
    did_resample: bool,
) -> (r: Result<(), Error>)
    ensures
        match r {
            Ok(()) => {
                &&& spec_replace_check(
                    old(bank)@,
                    dict@,
                    sample_index as int,
                    encoded@,
                    did_resample,
                ) is Ok
                &&& final(bank)@ == spec_replace(old(bank)@, sample_index as int, encoded@)
            },
            Err(e) => {
                &&& spec_replace_check(
                    old(bank)@,
                    dict@,
                    sample_index as int,
                    encoded@,
                    did_resample,
                ) == Err::<(), Error>(e)
                &&& *final(bank) == *old(bank)
            },
        },
{
    match bank.version {
        Version::Fsb5 => {},
        Version::Fsb4 => {
            return Err(Error::WrongVersion);
        },
    }
    if sample_index >= bank.samples.len() {
        return Err(Error::IndexOutOfBounds);
    }
    assert(bank.samples@[sample_index as int]@ == bank@.samples[sample_index as int]);
    let new_bank = match FsbBank::from_bytes(encoded) {
        Ok(b) => b,
        Err(e) => {
            return Err(e);
        },
    };
    match replacement_fits(&bank.samples[sample_index], dict, &new_bank, did_resample) {
        Ok(()) => {},
        Err(e) => {
            return Err(e);
        },
    }
    replace_with(bank, sample_index, &new_bank)
}

} // verus!
