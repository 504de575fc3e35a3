use cums_sekiro::fsb::create_wav_header;
use cums_sekiro::{Codec, Encryption, Error, FsbBank, Sample, Version};

fn bank(codec: Codec) -> FsbBank {
    FsbBank {
        version: Version::Fsb5,
        codec,
        samples: vec![Sample {
            index: 0,
            name: None,
            frequency: 22050,
            channels: 2,
            samples: 4,
            data_offset: 2,
            data_size: 4,
            loop_start: None,
            loop_end: None,
            vorbis_crc: None,
            vorbis_seek_table: None,
            mode: None,
        }],
        encryption: Encryption::Plain,
        data: vec![0, 0, 1, 2, 3, 4, 0],
        header_size: 60,
        sample_headers_size: 0,
        name_table_size: 0,
        data_size: 0,
        flags: 0,
        fsb5_mode: 0,
    }
}

fn wav(rate: u32, channels: u16, bits: u16, pcm: &[u8]) -> Vec<u8> {
    let mut out = b"RIFF".to_vec();
    out.extend_from_slice(&(36 + pcm.len() as u32).to_le_bytes());
    out.extend_from_slice(b"WAVEfmt ");
    out.extend_from_slice(&16u32.to_le_bytes());
    out.extend_from_slice(&1u16.to_le_bytes());
    out.extend_from_slice(&channels.to_le_bytes());
    out.extend_from_slice(&rate.to_le_bytes());
    out.extend_from_slice(&(rate * channels as u32 * (bits as u32 / 8)).to_le_bytes());
    out.extend_from_slice(&(channels * (bits / 8)).to_le_bytes());
    out.extend_from_slice(&bits.to_le_bytes());
    out.extend_from_slice(b"data");
    out.extend_from_slice(&(pcm.len() as u32).to_le_bytes());
    out.extend_from_slice(pcm);
    out
}

#[test]
fn wav_header_bytes() {
    let out = create_wav_header(&[1, 2, 3, 4], 44100, 2, 16);
    assert_eq!(out.len(), 48);
    assert_eq!(out, wav(44100, 2, 16, &[1, 2, 3, 4]));
    assert_eq!(&out[28..32], &176400u32.to_le_bytes());
    assert_eq!(&out[32..34], &4u16.to_le_bytes());
    assert_eq!(create_wav_header(&[], 8000, 1, 8), wav(8000, 1, 8, &[]));
}

#[test]
fn wav_header_wraps_what_does_not_fit() {
    let out = create_wav_header(&[], u32::MAX, 2, 16);
    assert_eq!(&out[28..32], &u32::MAX.wrapping_mul(4).to_le_bytes());
    let out = create_wav_header(&[], 1, 0x8000, 32);
    assert_eq!(&out[32..34], &0u16.to_le_bytes());
}

#[test]
fn extract_audio_by_codec() {
    assert_eq!(
        bank(Codec::Pcm16).extract_audio(0),
        Ok((wav(22050, 2, 16, &[1, 2, 3, 4]), "wav"))
    );
    assert_eq!(bank(Codec::Vorbis).extract_audio(0), Ok((vec![1, 2, 3, 4], "vorbis_raw")));
    assert_eq!(bank(Codec::Mpeg).extract_audio(0), Ok((vec![1, 2, 3, 4], "mp3")));
    assert_eq!(bank(Codec::Pcm8).extract_audio(0), Ok((vec![1, 2, 3, 4], "bin")));
    assert_eq!(bank(Codec::Xma).extract_audio(0), Ok((vec![1, 2, 3, 4], "bin")));
}

#[test]
fn extract_audio_checks_the_sample() {
    assert_eq!(bank(Codec::Pcm16).extract_audio(1), Err(Error::IndexOutOfBounds));
    let mut b = bank(Codec::Pcm16);
    b.samples[0].data_size = 6;
    assert_eq!(b.extract_audio(0), Err(Error::SampleOutOfBounds));
}
