use cums_sekiro::fsb::detect::{detect, encrypt};
use cums_sekiro::{
    rebuild_ogg, Codec, Encryption, Error, FsbBank, SetupDictionary, Version, FSB_KEY,
};

struct Fixture {
    freq_index: u64,
    stereo: bool,
    count: u64,
    loops: Option<(u32, u32)>,
    vorbis: Option<(u32, Vec<u32>)>,
    data: Vec<u8>,
}

fn sample_header(s: &Fixture, offset: u64) -> Vec<u8> {
    let has_chunks = s.loops.is_some() || s.vorbis.is_some();
    let word: u64 = (has_chunks as u64)
        | (s.freq_index << 1)
        | ((s.stereo as u64) << 5)
        | ((offset / 16) << 6)
        | (s.count << 34);
    let mut out = word.to_le_bytes().to_vec();
    if let Some((start, end)) = s.loops {
        let more = s.vorbis.is_some() as u32;
        out.extend_from_slice(&(more | (8 << 1) | (3 << 25)).to_le_bytes());
        out.extend_from_slice(&start.to_le_bytes());
        out.extend_from_slice(&end.to_le_bytes());
    }
    if let Some((crc, table)) = &s.vorbis {
        let size = 4 + 4 * table.len() as u32;
        out.extend_from_slice(&((size << 1) | (11 << 25)).to_le_bytes());
        out.extend_from_slice(&crc.to_le_bytes());
        for t in table {
            out.extend_from_slice(&t.to_le_bytes());
        }
    }
    out
}

fn name_table(names: &[&str]) -> Vec<u8> {
    let mut offsets = Vec::new();
    let mut strings = Vec::new();
    for n in names {
        offsets.push((4 * names.len() + strings.len()) as u32);
        strings.extend_from_slice(n.as_bytes());
        strings.push(0);
    }
    let mut out = Vec::new();
    for o in offsets {
        out.extend_from_slice(&o.to_le_bytes());
    }
    out.extend_from_slice(&strings);
    out
}

fn build_v5(samples: &[Fixture], names: &[&str], codec: u32) -> Vec<u8> {
    let mut headers = Vec::new();
    let mut audio = Vec::new();
    for s in samples {
        while audio.len() % 32 != 0 {
            audio.push(0);
        }
        headers.extend_from_slice(&sample_header(s, audio.len() as u64));
        audio.extend_from_slice(&s.data);
    }
    while audio.len() % 32 != 0 {
        audio.push(0);
    }
    let names = if names.is_empty() { Vec::new() } else { name_table(names) };
    let mut out = b"FSB5".to_vec();
    out.extend_from_slice(&1u32.to_le_bytes());
    out.extend_from_slice(&(samples.len() as u32).to_le_bytes());
    out.extend_from_slice(&(headers.len() as u32).to_le_bytes());
    out.extend_from_slice(&(names.len() as u32).to_le_bytes());
    out.extend_from_slice(&(audio.len() as u32).to_le_bytes());
    out.extend_from_slice(&codec.to_le_bytes());
    out.extend_from_slice(&0x11u32.to_le_bytes());
    out.extend_from_slice(&0x22u32.to_le_bytes());
    out.extend_from_slice(&(100..124u8).collect::<Vec<u8>>());
    assert_eq!(out.len(), 60);
    out.extend_from_slice(&headers);
    out.extend_from_slice(&names);
    out.extend_from_slice(&audio);
    out
}

fn three_samples() -> Vec<Fixture> {
    vec![
        Fixture {
            freq_index: 8,
            stereo: false,
            count: 1000,
            loops: None,
            vorbis: None,
            data: vec![0x11; 40],
        },
        Fixture {
            freq_index: 9,
            stereo: true,
            count: 2000,
            loops: Some((5, 1500)),
            vorbis: None,
            data: vec![0x22; 64],
        },
        Fixture {
            freq_index: 8,
            stereo: true,
            count: 3000,
            loops: None,
            vorbis: Some((0xDEAD_BEEF, vec![10, 20, 30])),
            data: vec![0x33; 7],
        },
    ]
}

fn set_u32(bytes: &mut [u8], at: usize, v: u32) {
    bytes[at..at + 4].copy_from_slice(&v.to_le_bytes());
}

#[test]
fn load_three_samples() {
    let bytes = build_v5(&three_samples(), &[], 15);
    let bank = FsbBank::from_bytes(bytes.clone()).unwrap();
    assert_eq!(bank.version, Version::Fsb5);
    assert_eq!(bank.codec, Codec::Vorbis);
    assert_eq!(bank.encryption, Encryption::Plain);
    assert_eq!(bank.header_size, 60);
    assert_eq!(bank.sample_headers_size, 8 + 20 + 28);
    assert_eq!(bank.name_table_size, 0);
    assert_eq!(bank.data_size, 64 + 64 + 32);
    assert_eq!(bank.fsb5_mode, 0x11);
    assert_eq!(bank.flags, 0x22);
    assert_eq!(bank.data, bytes);
    assert_eq!(bank.samples.len(), 3);
    let base = 60 + 56;
    let s = &bank.samples;
    assert_eq!((s[0].index, s[1].index, s[2].index), (0, 1, 2));
    assert_eq!((s[0].frequency, s[1].frequency, s[2].frequency), (44100, 48000, 44100));
    assert_eq!((s[0].channels, s[1].channels, s[2].channels), (1, 2, 2));
    assert_eq!((s[0].samples, s[1].samples, s[2].samples), (1000, 2000, 3000));
    assert_eq!(s[0].data_offset, base);
    assert_eq!(s[1].data_offset, base + 64);
    assert_eq!(s[2].data_offset, base + 128);
    assert_eq!((s[0].data_size, s[1].data_size, s[2].data_size), (64, 64, 32));
    assert_eq!((s[0].loop_start, s[0].loop_end), (None, None));
    assert_eq!((s[1].loop_start, s[1].loop_end), (Some(5), Some(1500)));
    assert_eq!(s[1].vorbis_crc, None);
    assert_eq!(s[1].vorbis_seek_table, None);
    assert_eq!(s[2].vorbis_crc, Some(0xDEAD_BEEF));
    assert_eq!(s[2].vorbis_seek_table, Some(vec![10, 20, 30]));
    assert!(s.iter().all(|x| x.name.is_none() && x.mode.is_none()));
}

#[test]
fn offsets_are_contiguous_and_inside_the_buffer() {
    let bank = FsbBank::from_bytes(build_v5(&three_samples(), &["a", "b", "c"], 15)).unwrap();
    for i in 0..bank.samples.len() {
        let s = &bank.samples[i];
        assert!(s.data_offset + s.data_size <= bank.data.len() as u64);
        if i + 1 < bank.samples.len() {
            assert_eq!(s.data_offset + s.data_size, bank.samples[i + 1].data_offset);
        }
    }
    let last = bank.samples.last().unwrap();
    let base = 60 + bank.sample_headers_size as u64 + bank.name_table_size as u64;
    assert_eq!(last.data_offset + last.data_size, base + bank.data_size as u64);
}

#[test]
fn sample_data_slices_the_buffer() {
    let bank = FsbBank::from_bytes(build_v5(&three_samples(), &[], 15)).unwrap();
    let mut want = vec![0x11u8; 40];
    want.resize(64, 0);
    assert_eq!(bank.sample_data(0).unwrap(), &want[..]);
    let mut want = vec![0x33u8; 7];
    want.resize(32, 0);
    assert_eq!(bank.sample_data(2).unwrap(), &want[..]);
    assert_eq!(bank.sample_data(3), Err(Error::IndexOutOfBounds));
}

#[test]
fn sample_data_checks_the_range() {
    let mut bank = FsbBank::from_bytes(build_v5(&three_samples(), &[], 15)).unwrap();
    bank.samples[2].data_size = 33;
    assert_eq!(bank.sample_data(2), Err(Error::SampleOutOfBounds));
    bank.samples[1].data_offset = u64::MAX;
    assert_eq!(bank.sample_data(1), Err(Error::SampleOutOfBounds));
}

#[test]
fn names_come_from_the_name_table() {
    let bank = FsbBank::from_bytes(build_v5(&three_samples(), &["intro", "", "bösendorfer"], 15))
        .unwrap();
    assert_eq!(bank.samples[0].name.as_deref(), Some("intro"));
    assert_eq!(bank.samples[1].name.as_deref(), Some(""));
    assert_eq!(bank.samples[2].name.as_deref(), Some("bösendorfer"));
    assert_eq!(bank.name_table_size as usize, 12 + 6 + 1 + 13);
}

#[test]
fn a_name_that_is_not_utf8_is_left_out() {
    let mut bytes = build_v5(&three_samples(), &["ab", "cd", "ef"], 15);
    let table = 60 + 56;
    bytes[table + 12] = 0xFF;
    let bank = FsbBank::from_bytes(bytes).unwrap();
    assert_eq!(bank.samples[0].name, None);
    assert_eq!(bank.samples[1].name.as_deref(), Some("cd"));
}

#[test]
fn a_name_must_end_inside_the_name_table() {
    let mut bytes = build_v5(&three_samples(), &["ab", "cd", "ef"], 15);
    let table = 60 + 56;
    // the last name loses its zero byte
    let last = table + 12 + 9 - 1;
    assert_eq!(bytes[last], 0);
    bytes[last] = b'x';
    assert_eq!(FsbBank::from_bytes(bytes.clone()).err(), Some(Error::Truncated));
    // an offset behind the table
    bytes[last] = 0;
    set_u32(&mut bytes, table, 21);
    assert_eq!(FsbBank::from_bytes(bytes).err(), Some(Error::Truncated));
}

#[test]
fn a_name_table_too_short_for_its_offsets() {
    let samples = three_samples();
    let mut bytes = build_v5(&samples, &[], 15);
    // claim a name table of 8 bytes, taken from the data region
    set_u32(&mut bytes, 16, 8);
    let ds = u32::from_le_bytes(bytes[20..24].try_into().unwrap());
    set_u32(&mut bytes, 20, ds - 8);
    assert_eq!(FsbBank::from_bytes(bytes).err(), Some(Error::Truncated));
}

#[test]
fn reserved_frequency_index_is_44100() {
    let mut samples = three_samples();
    samples[0].freq_index = 13;
    let bank = FsbBank::from_bytes(build_v5(&samples, &[], 15)).unwrap();
    assert_eq!(bank.samples[0].frequency, 44100);
}

#[test]
fn unknown_chunks_are_skipped() {
    let samples = three_samples();
    let mut bytes = build_v5(&samples[0..1], &[], 2);
    // give the one sample an unknown chunk of type 7 with 4 bytes, then a loop chunk
    let word = u64::from_le_bytes(bytes[60..68].try_into().unwrap()) | 1;
    bytes[60..68].copy_from_slice(&word.to_le_bytes());
    let mut chunks = Vec::new();
    chunks.extend_from_slice(&(1u32 | (4 << 1) | (7 << 25)).to_le_bytes());
    chunks.extend_from_slice(&[9, 9, 9, 9]);
    chunks.extend_from_slice(&((12u32 << 1) | (3 << 25)).to_le_bytes());
    chunks.extend_from_slice(&77u32.to_le_bytes());
    chunks.extend_from_slice(&88u32.to_le_bytes());
    chunks.extend_from_slice(&[1, 2, 3, 4]);
    let tail = bytes.split_off(68);
    bytes.extend_from_slice(&chunks);
    bytes.extend_from_slice(&tail);
    set_u32(&mut bytes, 12, 8 + chunks.len() as u32);
    let bank = FsbBank::from_bytes(bytes).unwrap();
    assert_eq!(bank.samples[0].loop_start, Some(77));
    assert_eq!(bank.samples[0].loop_end, Some(88));
    assert_eq!(bank.samples[0].vorbis_crc, None);
    assert_eq!(bank.samples[0].data_size, 64);
}

#[test]
fn too_small() {
    assert_eq!(FsbBank::from_bytes(vec![]).err(), Some(Error::TooSmall));
    assert_eq!(FsbBank::from_bytes(b"FSB5\0\0\0".to_vec()).err(), Some(Error::TooSmall));
    let mut short = b"FSB5".to_vec();
    short.resize(59, 0);
    assert_eq!(FsbBank::from_bytes(short).err(), Some(Error::TooSmall));
}

#[test]
fn unknown_format() {
    assert_eq!(FsbBank::from_bytes(vec![0u8; 64]).err(), Some(Error::UnknownFormat));
    assert_eq!(FsbBank::from_bytes(b"RIFFxxxxWAVE".to_vec()).err(), Some(Error::UnknownFormat));
    assert_eq!(FsbBank::detect_version(&[0u8; 64]), Err(Error::UnknownFormat));
    assert_eq!(FsbBank::detect_version(&[0u8; 7]), Err(Error::TooSmall));
}

#[test]
fn unknown_codec() {
    let bytes = build_v5(&three_samples(), &[], 16);
    assert_eq!(FsbBank::from_bytes(bytes).err(), Some(Error::UnknownCodec));
}

#[test]
fn truncated_sample_headers() {
    let mut bytes = build_v5(&three_samples()[0..1], &[], 15);
    // no data, and more samples than there are headers
    set_u32(&mut bytes, 20, 0);
    bytes.truncate(68);
    set_u32(&mut bytes, 8, 2);
    assert_eq!(FsbBank::from_bytes(bytes).err(), Some(Error::Truncated));
}

#[test]
fn truncated_chunk() {
    let mut bytes = build_v5(&three_samples()[1..2], &[], 15);
    // the loop chunk is said to have 0xFFFFFF bytes
    let at = 68;
    set_u32(&mut bytes, at, (0xFF_FFFF << 1) | (3 << 25));
    assert_eq!(FsbBank::from_bytes(bytes).err(), Some(Error::Truncated));
}

#[test]
fn malformed_chunks() {
    let mut bytes = build_v5(&three_samples()[1..2], &[], 15);
    set_u32(&mut bytes, 68, (4 << 1) | (3 << 25));
    assert_eq!(FsbBank::from_bytes(bytes).err(), Some(Error::MalformedChunk));
    let mut bytes = build_v5(&three_samples()[2..3], &[], 15);
    set_u32(&mut bytes, 68, (2 << 1) | (11 << 25));
    assert_eq!(FsbBank::from_bytes(bytes).err(), Some(Error::MalformedChunk));
}

#[test]
fn data_region_outside_the_file() {
    let mut bytes = build_v5(&three_samples(), &[], 15);
    let ds = u32::from_le_bytes(bytes[20..24].try_into().unwrap());
    set_u32(&mut bytes, 20, ds + 1);
    assert_eq!(FsbBank::from_bytes(bytes).err(), Some(Error::SampleOutOfBounds));
}

#[test]
fn sample_offsets_out_of_order() {
    let samples = three_samples();
    let mut bytes = build_v5(&samples, &[], 15);
    // the second sample starts behind the end of the data region
    let at = 68;
    let word = u64::from_le_bytes(bytes[at..at + 8].try_into().unwrap());
    let moved = (word & !(0x0FFF_FFFFu64 << 6)) | (100u64 << 6);
    bytes[at..at + 8].copy_from_slice(&moved.to_le_bytes());
    assert_eq!(FsbBank::from_bytes(bytes).err(), Some(Error::SampleOutOfBounds));
}

#[test]
fn save_gives_the_file_again() {
    for names in [&[][..], &["one", "two", "three"][..]] {
        let bytes = build_v5(&three_samples(), names, 15);
        let bank = FsbBank::from_bytes(bytes.clone()).unwrap();
        assert_eq!(bank.save(false).unwrap(), bytes);
        assert_eq!(bank.save(true).unwrap(), bytes);
    }
}

#[test]
fn save_of_an_empty_bank() {
    let bytes = build_v5(&[], &[], 2);
    assert_eq!(bytes.len(), 60);
    let bank = FsbBank::from_bytes(bytes.clone()).unwrap();
    assert!(bank.samples.is_empty());
    assert_eq!(bank.save(true).unwrap(), bytes);
}

#[test]
fn save_under_the_byte_cipher() {
    let plain = build_v5(&three_samples(), &["one", "two", "three"], 15);
    let mut bytes = plain.clone();
    cums_sekiro::crypto::fsbext_encrypt(&mut bytes, &FSB_KEY);
    assert_ne!(&bytes[0..4], b"FSB5");
    assert_eq!(detect(&bytes), Ok((Version::Fsb5, Encryption::Fsbext)));
    let bank = FsbBank::from_bytes(bytes.clone()).unwrap();
    assert_eq!(bank.encryption, Encryption::Fsbext);
    assert_eq!(bank.data, plain);
    assert_eq!(bank.samples.len(), 3);
    assert_eq!(bank.samples[2].vorbis_crc, Some(0xDEAD_BEEF));
    assert_eq!(bank.save(true).unwrap(), bytes);
    assert_eq!(bank.save(false).unwrap(), plain);
}

#[test]
fn save_under_the_block_cipher() {
    let plain = build_v5(&three_samples(), &["one", "two", "three"], 15);
    let mut bytes = plain.clone();
    let base = 60 + 56 + name_table(&["one", "two", "three"]).len();
    let end = bytes.len();
    encrypt(&mut bytes, Encryption::Aes, base, end);
    assert_ne!(&bytes[0..4], b"FSB5");
    // the header's first 32 bytes and the data region are encrypted, the rest is not
    assert_ne!(&bytes[0..32], &plain[0..32]);
    assert_eq!(&bytes[32..base], &plain[32..base]);
    assert_ne!(&bytes[base..], &plain[base..]);
    assert_eq!(detect(&bytes), Ok((Version::Fsb5, Encryption::Aes)));
    let bank = FsbBank::from_bytes(bytes.clone()).unwrap();
    assert_eq!(bank.encryption, Encryption::Aes);
    assert_eq!(bank.data, plain);
    assert_eq!(bank.samples[1].loop_end, Some(1500));
    assert_eq!(bank.save(true).unwrap(), bytes);
    assert_eq!(bank.save(false).unwrap(), plain);
}

#[test]
fn save_applies_the_recorded_cipher_only() {
    let plain = build_v5(&three_samples(), &[], 15);
    let mut bank = FsbBank::from_bytes(plain.clone()).unwrap();
    assert_eq!(bank.save(true).unwrap(), plain);
    bank.encryption = Encryption::Fsbext;
    let saved = bank.save(true).unwrap();
    let again = FsbBank::from_bytes(saved.clone()).unwrap();
    assert_eq!(again.encryption, Encryption::Fsbext);
    assert_eq!(again.save(true).unwrap(), saved);
}

#[test]
fn save_lays_the_samples_out_anew() {
    let mut bank = FsbBank::from_bytes(build_v5(&three_samples(), &[], 15)).unwrap();
    bank.samples[0].frequency = 12345;
    bank.samples[0].samples = (1 << 30) + 5;
    bank.samples[1].channels = 6;
    let saved = bank.save(false).unwrap();
    let again = FsbBank::from_bytes(saved.clone()).unwrap();
    assert_eq!(again.samples[0].frequency, 44100);
    assert_eq!(again.samples[0].samples, 5);
    assert_eq!(again.samples[1].channels, 2);
    assert_eq!(again.save(false).unwrap(), saved);
}

#[test]
fn save_refuses_a_sample_outside_the_buffer() {
    let mut bank = FsbBank::from_bytes(build_v5(&three_samples(), &[], 15)).unwrap();
    bank.samples[2].data_size += 1;
    assert_eq!(bank.save(false), Err(Error::SampleOutOfBounds));
}

#[test]
fn save_refuses_a_seek_table_that_is_too_long() {
    let mut bank = FsbBank::from_bytes(build_v5(&three_samples(), &[], 15)).unwrap();
    bank.samples[2].vorbis_seek_table = Some(vec![0; 0x3F_FFFF]);
    assert_eq!(bank.save(false), Err(Error::TooLarge));
    bank.samples[2].vorbis_seek_table = Some(vec![0; 0x3F_FFFE]);
    assert!(bank.save(false).is_ok());
}

#[test]
fn detect_finds_version_and_cipher() {
    let plain = build_v5(&three_samples(), &[], 15);
    assert_eq!(detect(&plain), Ok((Version::Fsb5, Encryption::Plain)));
    assert_eq!(FsbBank::detect_version(&plain), Ok(Version::Fsb5));
    assert_eq!(detect(b"FSB4\0\0\0\0"), Ok((Version::Fsb4, Encryption::Plain)));
    assert_eq!(detect(b"FSB"), Err(Error::TooSmall));
}

#[test]
fn three_samples_and_an_ogg_file() {
    let mut samples = three_samples();
    let mut stream = Vec::new();
    for i in 0..3u8 {
        stream.extend_from_slice(&6u16.to_le_bytes());
        stream.extend_from_slice(&[i; 6]);
    }
    samples[2].data = stream;
    let bank = FsbBank::from_bytes(build_v5(&samples, &[], 15)).unwrap();
    assert_eq!(bank.samples.len(), 3);
    assert_eq!(
        bank.samples.iter().map(|s| s.frequency).collect::<Vec<_>>(),
        vec![44100, 48000, 44100]
    );
    assert!(bank.samples[1].loop_start.is_some());
    assert!(bank.samples[1].loop_end.is_some());
    assert_eq!(bank.samples[2].vorbis_crc, Some(0xDEAD_BEEF));
    let mut dict = SetupDictionary::new();
    dict.insert(0xDEAD_BEEF, vec![0x05, b'v', b'o', b'r', b'b', b'i', b's']);
    let file = rebuild_ogg(&dict, &bank, &bank.samples[2]).unwrap();
    assert_eq!(&file[0..4], b"OggS");
    // three pages: the identification header, the two other headers, the audio
    let pages = file.windows(4).filter(|w| w == b"OggS").count();
    assert_eq!(pages, 3);
    let mut reader = ogg::reading::PacketReader::new(std::io::Cursor::new(file));
    let mut packets = Vec::new();
    while let Some(p) = reader.read_packet().unwrap() {
        packets.push(p.data);
    }
    assert_eq!(packets.len(), 6);
    assert_eq!(packets[0][0], 0x01);
    assert_eq!(packets[1][0], 0x03);
    assert_eq!(packets[2][0], 0x05);
    assert_eq!(packets[3], vec![0u8; 6]);
    assert_eq!(packets[5], vec![2u8; 6]);
}
