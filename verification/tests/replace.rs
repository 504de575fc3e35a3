use cums_sekiro::{
    extract_mp3, rebuild_ogg, replace_sample, Codec, Encryption, Error, FsbBank, Sample,
    SetupDictionary, Version,
};
use ogg::reading::PacketReader;
use std::io::Cursor;

fn sample(index: usize, frequency: u32, channels: u32, offset: u64, size: u64) -> Sample {
    Sample {
        index,
        name: None,
        frequency,
        channels,
        samples: 1000 * (index as u64 + 1),
        data_offset: offset,
        data_size: size,
        loop_start: None,
        loop_end: None,
        vorbis_crc: None,
        vorbis_seek_table: None,
        mode: None,
    }
}

fn raw_stream(packets: &[Vec<u8>]) -> Vec<u8> {
    let mut out = Vec::new();
    for p in packets {
        out.extend_from_slice(&(p.len() as u16).to_le_bytes());
        out.extend_from_slice(p);
    }
    out
}

/// A version 5 Vorbis bank with three samples, made by the library's own writer.
fn vorbis_bank() -> FsbBank {
    let streams = [
        raw_stream(&[vec![1; 10], vec![2; 20]]),
        raw_stream(&[vec![3; 30]]),
        raw_stream(&(0..12u8).map(|i| vec![i; 5]).collect::<Vec<_>>()),
    ];
    let mut data = vec![0u8; 60];
    let mut samples = Vec::new();
    let freqs = [44100u32, 48000, 44100];
    for (i, s) in streams.iter().enumerate() {
        let mut one = sample(i, freqs[i], 2, data.len() as u64, s.len() as u64);
        if i == 1 {
            one.loop_start = Some(100);
            one.loop_end = Some(900);
        }
        if i == 2 {
            one.vorbis_crc = Some(0xDEAD_BEEF);
            one.vorbis_seek_table = Some(vec![0, 64]);
        }
        samples.push(one);
        data.extend_from_slice(s);
    }
    let draft = FsbBank {
        version: Version::Fsb5,
        codec: Codec::Vorbis,
        samples,
        encryption: Encryption::Plain,
        data,
        header_size: 60,
        sample_headers_size: 0,
        name_table_size: 0,
        data_size: 0,
        flags: 0,
        fsb5_mode: 0,
    };
    FsbBank::from_bytes(draft.save(false).unwrap()).unwrap()
}

/// A version 5 bank with one sample, as an encoder would make it.
fn encoded(frequency: u32, channels: u32, crc: Option<u32>, bytes: &[u8]) -> Vec<u8> {
    let mut data = vec![0u8; 60];
    let mut one = sample(0, frequency, channels, 60, bytes.len() as u64);
    one.samples = 777;
    one.vorbis_crc = crc;
    one.vorbis_seek_table = crc.map(|_| vec![5, 6, 7]);
    data.extend_from_slice(bytes);
    let draft = FsbBank {
        version: Version::Fsb5,
        codec: Codec::Vorbis,
        samples: vec![one],
        encryption: Encryption::Plain,
        data,
        header_size: 60,
        sample_headers_size: 0,
        name_table_size: 0,
        data_size: 0,
        flags: 0,
        fsb5_mode: 0,
    };
    draft.save(false).unwrap()
}

fn dictionary() -> SetupDictionary {
    let mut dict = SetupDictionary::new();
    dict.insert(0xDEAD_BEEF, vec![0x05, b'v', b'o', b'r', b'b', b'i', b's', 0xEE]);
    dict.insert(0x1234, vec![0x05, 0x01]);
    dict
}

#[test]
fn loaded_fixture_has_what_was_written() {
    let bank = vorbis_bank();
    assert_eq!(bank.samples.len(), 3);
    assert_eq!(
        bank.samples.iter().map(|s| s.frequency).collect::<Vec<_>>(),
        vec![44100, 48000, 44100]
    );
    assert!(bank.samples[1].loop_start.is_some() && bank.samples[1].loop_end.is_some());
    assert_eq!(bank.samples[2].vorbis_crc, Some(0xDEAD_BEEF));
}

#[test]
fn rebuild_ogg_of_the_sample_with_a_checksum() {
    let bank = vorbis_bank();
    let dict = dictionary();
    let file = rebuild_ogg(&dict, &bank, &bank.samples[2]).unwrap();
    assert_eq!(&file[0..4], b"OggS");
    let mut reader = PacketReader::new(Cursor::new(file));
    let mut packets = Vec::new();
    while let Some(p) = reader.read_packet().unwrap() {
        packets.push(p);
    }
    assert_eq!(packets.len(), 3 + 12);
    assert_eq!(packets[0].data[0], 0x01);
    assert_eq!(&packets[0].data[1..7], b"vorbis");
    assert_eq!(packets[0].data[11], 2);
    assert_eq!(&packets[0].data[12..16], &44100u32.to_le_bytes());
    assert_eq!(packets[1].data[0], 0x03);
    assert_eq!(packets[2].data, dict.lookup(0xDEAD_BEEF).unwrap());
    for i in 0..12usize {
        assert_eq!(packets[3 + i].data, vec![i as u8; 5]);
    }
    assert!(packets[14].last_in_stream());
    assert!(packets[3 + 9].last_in_page());
}

#[test]
fn rebuild_ogg_is_the_same_each_time() {
    let bank = vorbis_bank();
    let dict = dictionary();
    let a = rebuild_ogg(&dict, &bank, &bank.samples[2]).unwrap();
    let b = rebuild_ogg(&dict, &bank, &bank.samples[2]).unwrap();
    assert_eq!(a, b);
}

#[test]
fn rebuild_ogg_rejects_an_unknown_checksum() {
    let bank = vorbis_bank();
    let mut dict = SetupDictionary::new();
    dict.insert(1, vec![1]);
    assert_eq!(
        rebuild_ogg(&dict, &bank, &bank.samples[2]),
        Err(Error::UnknownSetupChecksum(0xDEAD_BEEF))
    );
}

#[test]
fn rebuild_ogg_needs_a_checksum_and_a_vorbis_bank() {
    let mut bank = vorbis_bank();
    let dict = dictionary();
    assert_eq!(rebuild_ogg(&dict, &bank, &bank.samples[0]), Err(Error::MissingChecksum));
    let mut stray = bank.samples[2].clone();
    stray.index = 3;
    assert_eq!(rebuild_ogg(&dict, &bank, &stray), Err(Error::IndexOutOfBounds));
    bank.codec = Codec::Mpeg;
    assert_eq!(rebuild_ogg(&dict, &bank, &bank.samples[2]), Err(Error::NotVorbis));
}

#[test]
fn extract_mp3_needs_an_mpeg_bank() {
    let mut bank = vorbis_bank();
    assert_eq!(extract_mp3(&bank, &bank.samples[0]), Err(Error::NotMpeg));
    assert_eq!(bank.extract_mp3(0), Err(Error::NotMpeg));
    bank.codec = Codec::Mpeg;
    let raw = bank.sample_data(0).unwrap().to_vec();
    assert_eq!(extract_mp3(&bank, &bank.samples[0]), Ok(raw));
    assert_eq!(bank.extract_mp3(9), Err(Error::IndexOutOfBounds));
}

#[test]
fn replace_shifts_later_samples_by_the_change_in_size() {
    let mut bank = vorbis_bank();
    let before: Vec<(u64, u64)> =
        bank.samples.iter().map(|s| (s.data_offset, s.data_size)).collect();
    let old_total = bank.data_size;
    let old_len = bank.data.len();
    let kept = bank.sample_data(2).unwrap().to_vec();
    let new_bytes = raw_stream(&[vec![9; 100], vec![8; 50]]);
    let file = encoded(48000, 2, Some(0x1234), &new_bytes);
    let new_size = FsbBank::from_bytes(file.clone()).unwrap().samples[0].data_size;
    let d = new_size as i64 - before[1].1 as i64;
    assert!(d > 0);
    replace_sample(&mut bank, &dictionary(), 1, file, false).unwrap();
    assert_eq!(bank.samples[0].data_offset, before[0].0);
    assert_eq!(bank.samples[0].data_size, before[0].1);
    assert_eq!(bank.samples[1].data_offset, before[1].0);
    assert_eq!(bank.samples[1].data_size, new_size);
    assert_eq!(bank.samples[2].data_offset as i64, before[2].0 as i64 + d);
    assert_eq!(bank.samples[2].data_size, before[2].1);
    assert_eq!(bank.data_size as i64, old_total as i64 + d);
    assert_eq!(bank.data.len() as i64, old_len as i64 + d);
    assert_eq!(&bank.sample_data(1).unwrap()[..new_bytes.len()], &new_bytes[..]);
    assert_eq!(bank.sample_data(2).unwrap(), &kept[..]);
    // what the audio is like comes from the new sample, the rest stays
    assert_eq!(bank.samples[1].index, 1);
    assert_eq!(bank.samples[1].frequency, 48000);
    assert_eq!(bank.samples[1].samples, 777);
    assert_eq!(bank.samples[1].vorbis_crc, Some(0x1234));
    assert_eq!(bank.samples[1].vorbis_seek_table, Some(vec![5, 6, 7]));
    assert_eq!(bank.samples[1].loop_start, Some(100));
    // the bank can be saved and loaded again
    let again = FsbBank::from_bytes(bank.save(true).unwrap()).unwrap();
    assert_eq!(again.samples[1].vorbis_crc, Some(0x1234));
    assert_eq!(&again.sample_data(1).unwrap()[..new_bytes.len()], &new_bytes[..]);
    assert_eq!(&again.sample_data(2).unwrap()[..kept.len()], &kept[..]);
}

#[test]
fn replace_by_a_shorter_sample() {
    let mut bank = vorbis_bank();
    let before: Vec<(u64, u64)> =
        bank.samples.iter().map(|s| (s.data_offset, s.data_size)).collect();
    let old_total = bank.data_size;
    let file = encoded(44100, 2, None, &[]);
    replace_sample(&mut bank, &dictionary(), 0, file, false).unwrap();
    let d = before[0].1;
    assert_eq!(bank.samples[0].data_size, 0);
    assert_eq!(bank.samples[1].data_offset, before[1].0 - d);
    assert_eq!(bank.samples[2].data_offset, before[2].0 - d);
    assert_eq!(bank.data_size as u64, old_total as u64 - d);
    assert_eq!(bank.samples[0].vorbis_crc, None);
}

#[test]
fn replace_refuses_another_format_without_resampling() {
    let mut bank = vorbis_bank();
    let before = bank.data.clone();
    let file = encoded(48000, 2, Some(0x1234), &[1, 0, 9]);
    assert_eq!(
        replace_sample(&mut bank, &dictionary(), 0, file.clone(), false),
        Err(Error::FormatMismatch)
    );
    assert_eq!(bank.data, before);
    assert_eq!(bank.samples[0].frequency, 44100);
    let mono = encoded(44100, 1, None, &[1, 0, 9]);
    assert_eq!(
        replace_sample(&mut bank, &dictionary(), 0, mono, false),
        Err(Error::FormatMismatch)
    );
    // with resampling done the encoder's word is taken
    assert_eq!(replace_sample(&mut bank, &dictionary(), 0, file, true), Ok(()));
    assert_eq!(bank.samples[0].frequency, 48000);
}

#[test]
fn replace_refuses_an_unknown_setup() {
    let mut bank = vorbis_bank();
    let before = bank.data.clone();
    let file = encoded(44100, 2, Some(0xABCD), &[1, 0, 9]);
    assert_eq!(
        replace_sample(&mut bank, &dictionary(), 0, file, false),
        Err(Error::UnsupportedSetup(0xABCD))
    );
    assert_eq!(bank.data, before);
}

#[test]
fn replace_refuses_an_empty_bank_and_what_is_no_bank() {
    let mut bank = vorbis_bank();
    let mut empty = b"FSB5".to_vec();
    empty.extend_from_slice(&1u32.to_le_bytes());
    empty.extend_from_slice(&[0u8; 16]);
    empty.extend_from_slice(&15u32.to_le_bytes());
    empty.resize(60, 0);
    assert_eq!(
        replace_sample(&mut bank, &dictionary(), 0, empty, false),
        Err(Error::EmptyReplacement)
    );
    assert_eq!(
        replace_sample(&mut bank, &dictionary(), 0, vec![0u8; 100], false),
        Err(Error::UnknownFormat)
    );
    assert_eq!(
        replace_sample(&mut bank, &dictionary(), 0, vec![1, 2], false),
        Err(Error::TooSmall)
    );
}

#[test]
fn replace_checks_version_and_index() {
    let mut bank = vorbis_bank();
    let file = encoded(44100, 2, None, &[1, 0, 9]);
    assert_eq!(
        replace_sample(&mut bank, &dictionary(), 3, file.clone(), false),
        Err(Error::IndexOutOfBounds)
    );
    assert_eq!(bank.replace_sample(0, &[1, 2, 3]), Err(Error::WrongVersion));
    bank.version = Version::Fsb4;
    assert_eq!(
        replace_sample(&mut bank, &dictionary(), 0, file, false),
        Err(Error::WrongVersion)
    );
}

#[test]
fn splice_leaves_the_bank_alone_on_failure() {
    let mut bank = vorbis_bank();
    let data = bank.data.clone();
    let offsets: Vec<u64> = bank.samples.iter().map(|s| s.data_offset).collect();
    assert_eq!(bank.splice_sample(7, &[1]), Err(Error::IndexOutOfBounds));
    bank.data_size = u32::MAX;
    assert_eq!(bank.splice_sample(0, &[0u8; 1000]), Err(Error::TooLarge));
    assert_eq!(bank.data, data);
    assert_eq!(bank.samples.iter().map(|s| s.data_offset).collect::<Vec<_>>(), offsets);
    bank.data_size = 0;
    assert_eq!(bank.splice_sample(0, &[]), Err(Error::TooLarge));
    assert_eq!(bank.data, data);
}

#[test]
fn splice_puts_the_bytes_in_place() {
    let mut bank = vorbis_bank();
    let before = bank.data.clone();
    let at = bank.samples[1].data_offset as usize;
    let size = bank.samples[1].data_size as usize;
    bank.splice_sample(1, &[0xEE; 5]).unwrap();
    let mut want = before[..at].to_vec();
    want.extend_from_slice(&[0xEE; 5]);
    want.extend_from_slice(&before[at + size..]);
    assert_eq!(bank.data, want);
}
