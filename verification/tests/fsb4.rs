use cums_sekiro::{Codec, Encryption, Error, Fsb4Mode, FsbBank, Version};

struct Entry {
    name: Vec<u8>,
    count: u32,
    loop_start: u32,
    loop_end: u32,
    mode: u32,
    freq: u32,
    tail: [u8; 24],
    data: Vec<u8>,
}

fn build_v4(entries: &[Entry], flags: u32) -> Vec<u8> {
    let mut out = b"FSB4".to_vec();
    out.extend_from_slice(&(entries.len() as u32).to_le_bytes());
    out.extend_from_slice(&(80 * entries.len() as u32).to_le_bytes());
    let total: usize = entries.iter().map(|e| e.data.len()).sum();
    out.extend_from_slice(&(total as u32).to_le_bytes());
    out.extend_from_slice(&0x0004_0001u32.to_le_bytes());
    out.extend_from_slice(&flags.to_le_bytes());
    out.extend_from_slice(&(200..224u8).collect::<Vec<u8>>());
    assert_eq!(out.len(), 48);
    for e in entries {
        out.extend_from_slice(&80u16.to_le_bytes());
        let mut name = e.name.clone();
        name.resize(30, 0);
        out.extend_from_slice(&name);
        out.extend_from_slice(&e.count.to_le_bytes());
        out.extend_from_slice(&(e.data.len() as u32).to_le_bytes());
        out.extend_from_slice(&e.loop_start.to_le_bytes());
        out.extend_from_slice(&e.loop_end.to_le_bytes());
        out.extend_from_slice(&e.mode.to_le_bytes());
        out.extend_from_slice(&e.freq.to_le_bytes());
        out.extend_from_slice(&e.tail);
    }
    for e in entries {
        out.extend_from_slice(&e.data);
    }
    out
}

fn two_entries() -> Vec<Entry> {
    vec![
        Entry {
            name: b"first".to_vec(),
            count: 1000,
            loop_start: 0,
            loop_end: 1000,
            mode: 0x0002_0000,
            freq: 22050,
            tail: [7; 24],
            data: vec![0xA1; 33],
        },
        Entry {
            name: b"second one".to_vec(),
            count: 2000,
            loop_start: 10,
            loop_end: 1990,
            mode: 0x0040_0008,
            freq: 48000,
            tail: [9; 24],
            data: vec![0xB2; 50],
        },
    ]
}

const MP3_HEADER: u32 = 0xFFFB_90E4;

fn mp3_stream(frames: usize) -> Vec<u8> {
    let mut out = Vec::new();
    for _ in 0..frames {
        let mut f = MP3_HEADER.to_be_bytes().to_vec();
        f.resize(417, 0x5A);
        out.extend_from_slice(&f);
    }
    out.extend_from_slice(&[0u8; 5]);
    out
}

#[test]
fn load_two_version_4_samples() {
    let bytes = build_v4(&two_entries(), 0x0020_0000);
    let bank = FsbBank::from_bytes(bytes.clone()).unwrap();
    assert_eq!(bank.version, Version::Fsb4);
    assert_eq!(bank.codec, Codec::Mpeg);
    assert_eq!(bank.encryption, Encryption::Plain);
    assert_eq!(bank.header_size, 48);
    assert_eq!(bank.sample_headers_size, 160);
    assert_eq!(bank.name_table_size, 0);
    assert_eq!(bank.data_size, 83);
    assert_eq!(bank.flags, 0x0020_0000);
    assert_eq!(bank.fsb5_mode, 0);
    assert_eq!(bank.data, bytes);
    let s = &bank.samples;
    assert_eq!(s.len(), 2);
    assert_eq!(s[0].index, 0);
    assert_eq!(s[0].name.as_deref(), Some("first"));
    assert_eq!(s[0].frequency, 22050);
    assert_eq!(s[0].channels, 1);
    assert_eq!(s[0].samples, 1000);
    assert_eq!(s[0].data_offset, 48 + 160);
    assert_eq!(s[0].data_size, 33);
    assert_eq!((s[0].loop_start, s[0].loop_end), (None, None));
    assert_eq!(s[0].mode.unwrap().0, 0x0002_0000);
    assert_eq!(s[1].index, 1);
    assert_eq!(s[1].name.as_deref(), Some("second one"));
    assert_eq!(s[1].frequency, 48000);
    assert_eq!(s[1].channels, 2);
    assert_eq!(s[1].data_offset, 48 + 160 + 33);
    assert_eq!(s[1].data_size, 50);
    assert_eq!((s[1].loop_start, s[1].loop_end), (Some(10), Some(1990)));
    assert!(s[1].mode.unwrap().is_stereo());
    assert!(s.iter().all(|x| x.vorbis_crc.is_none() && x.vorbis_seek_table.is_none()));
    assert_eq!(bank.sample_data(0).unwrap(), &[0xA1; 33][..]);
    assert_eq!(bank.sample_data(1).unwrap(), &[0xB2; 50][..]);
}

#[test]
fn codec_comes_from_the_flags() {
    let bank = FsbBank::from_bytes(build_v4(&two_entries(), 0)).unwrap();
    assert_eq!(bank.codec, Codec::Pcm16);
    let bank = FsbBank::from_bytes(build_v4(&two_entries(), 0xFFFF_FFFF)).unwrap();
    assert_eq!(bank.codec, Codec::Mpeg);
}

#[test]
fn a_frequency_of_zero_is_44100() {
    let mut entries = two_entries();
    entries[0].freq = 0;
    let bank = FsbBank::from_bytes(build_v4(&entries, 0)).unwrap();
    assert_eq!(bank.samples[0].frequency, 44100);
}

#[test]
fn names_lose_their_trailing_zeros_only() {
    let mut entries = two_entries();
    entries[0].name = b"a\0b".to_vec();
    entries[1].name = vec![b'x'; 30];
    let bank = FsbBank::from_bytes(build_v4(&entries, 0)).unwrap();
    assert_eq!(bank.samples[0].name.as_deref(), Some("a\0b"));
    assert_eq!(bank.samples[1].name.as_deref(), Some("x".repeat(30).as_str()));
    let mut entries = two_entries();
    entries[0].name = Vec::new();
    entries[1].name = vec![b'o', b'k', 0xFF];
    let bank = FsbBank::from_bytes(build_v4(&entries, 0)).unwrap();
    assert_eq!(bank.samples[0].name.as_deref(), Some(""));
    assert_eq!(bank.samples[1].name.as_deref(), Some("ok\u{FFFD}"));
}

#[test]
fn version_4_too_small_and_truncated() {
    let mut short = b"FSB4".to_vec();
    short.resize(47, 0);
    assert_eq!(FsbBank::from_bytes(short).err(), Some(Error::TooSmall));
    let mut bytes = build_v4(&two_entries(), 0);
    bytes.truncate(48 + 159);
    assert_eq!(FsbBank::from_bytes(bytes).err(), Some(Error::Truncated));
}

#[test]
fn samples_must_lie_inside_the_file() {
    let mut bytes = build_v4(&two_entries(), 0);
    bytes.pop();
    assert_eq!(FsbBank::from_bytes(bytes).err(), Some(Error::SampleOutOfBounds));
    let mut bytes = build_v4(&two_entries(), 0);
    // the sample headers are said to be longer than the file
    bytes[8..12].copy_from_slice(&10_000u32.to_le_bytes());
    assert_eq!(FsbBank::from_bytes(bytes).err(), Some(Error::SampleOutOfBounds));
}

#[test]
fn save_gives_the_version_4_file_again() {
    let bytes = build_v4(&two_entries(), 0x0020_0000);
    let bank = FsbBank::from_bytes(bytes.clone()).unwrap();
    assert_eq!(bank.save(false).unwrap(), bytes);
    assert_eq!(bank.save(true).unwrap(), bytes);
}

#[test]
fn save_of_an_empty_version_4_bank() {
    let bytes = build_v4(&[], 0);
    let bank = FsbBank::from_bytes(bytes.clone()).unwrap();
    assert_eq!(bank.save(false).unwrap(), bytes);
}

#[test]
fn save_keeps_a_name_of_29_bytes_at_most() {
    let mut entries = two_entries();
    entries[0].name = vec![b'n'; 30];
    let bank = FsbBank::from_bytes(build_v4(&entries, 0)).unwrap();
    let saved = bank.save(false).unwrap();
    assert_eq!(&saved[50..79], &[b'n'; 29][..]);
    assert_eq!(saved[79], 0);
}

#[test]
fn save_writes_defaults_for_what_a_sample_lacks() {
    let mut bank = FsbBank::from_bytes(build_v4(&two_entries(), 0)).unwrap();
    bank.samples[0].mode = None;
    bank.samples[0].channels = 2;
    bank.samples[0].name = None;
    bank.samples[1].mode = None;
    bank.samples[1].channels = 1;
    bank.samples[1].loop_start = None;
    bank.samples[1].loop_end = None;
    let saved = bank.save(false).unwrap();
    let first = 48;
    assert_eq!(&saved[first + 2..first + 32], &[0u8; 30][..]);
    assert_eq!(&saved[first + 48..first + 52], &0x0040_0000u32.to_le_bytes());
    let second = 48 + 80;
    assert_eq!(&saved[second + 40..second + 44], &0u32.to_le_bytes());
    assert_eq!(&saved[second + 44..second + 48], &2000u32.to_le_bytes());
    assert_eq!(&saved[second + 48..second + 52], &0x0002_0000u32.to_le_bytes());
    // the last 24 bytes of each sample header are kept
    assert_eq!(&saved[first + 56..first + 80], &[7u8; 24][..]);
    assert_eq!(&saved[second + 56..second + 80], &[9u8; 24][..]);
}

#[test]
fn save_writes_a_default_tail_where_the_buffer_has_none() {
    let mut bank = FsbBank::from_bytes(build_v4(&two_entries()[0..1], 0)).unwrap();
    // a buffer without headers: the sample's data only
    bank.data = vec![0xC3; 33];
    bank.samples[0].data_offset = 0;
    bank.samples[0].channels = 2;
    let saved = bank.save(false).unwrap();
    let mut tail = Vec::new();
    tail.extend_from_slice(&255u16.to_le_bytes());
    tail.extend_from_slice(&128u16.to_le_bytes());
    tail.extend_from_slice(&128u16.to_le_bytes());
    tail.extend_from_slice(&2u16.to_le_bytes());
    tail.extend_from_slice(&1.0f32.to_le_bytes());
    tail.extend_from_slice(&10000.0f32.to_le_bytes());
    tail.extend_from_slice(&[0u8; 8]);
    assert_eq!(&saved[48 + 56..48 + 80], &tail[..]);
    assert_eq!(&saved[24..48], &[0u8; 24][..]);
    assert_eq!(&saved[128..], &[0xC3; 33][..]);
}

#[test]
fn replace_shifts_what_lies_behind() {
    let bytes = build_v4(&two_entries(), 0x0020_0000);
    let mut bank = FsbBank::from_bytes(bytes.clone()).unwrap();
    let stream = mp3_stream(2);
    let d = stream.len() as i64 - 33;
    bank.replace_sample(0, &stream).unwrap();
    assert_eq!(bank.samples[0].data_offset, 208);
    assert_eq!(bank.samples[0].data_size, stream.len() as u64);
    assert_eq!(bank.samples[0].frequency, 44100);
    assert_eq!(bank.samples[0].channels, 1);
    assert_eq!(bank.samples[0].samples, 1000);
    assert_eq!(bank.samples[1].data_offset as i64, 208 + 33 + d);
    assert_eq!(bank.samples[1].data_size, 50);
    assert_eq!(bank.data_size as i64, 83 + d);
    assert_eq!(bank.data.len() as i64, bytes.len() as i64 + d);
    assert_eq!(bank.sample_data(0).unwrap(), &stream[..]);
    assert_eq!(bank.sample_data(1).unwrap(), &[0xB2; 50][..]);
    assert_eq!(&bank.data[..208], &bytes[..208]);
    // the bank can be saved and loaded again
    let again = FsbBank::from_bytes(bank.save(false).unwrap()).unwrap();
    assert_eq!(again.sample_data(0).unwrap(), &stream[..]);
    assert_eq!(again.sample_data(1).unwrap(), &[0xB2; 50][..]);
    assert_eq!(again.samples[0].frequency, 44100);
}

#[test]
fn replace_of_the_last_sample_by_a_shorter_one() {
    let mut bank = FsbBank::from_bytes(build_v4(&two_entries(), 0x0020_0000)).unwrap();
    bank.replace_sample(1, &[1, 2, 3]).unwrap();
    assert_eq!(bank.samples[0].data_offset, 208);
    assert_eq!(bank.samples[0].data_size, 33);
    assert_eq!(bank.samples[1].data_offset, 241);
    assert_eq!(bank.samples[1].data_size, 3);
    // no frame header in the new data: frequency and channels stay
    assert_eq!(bank.samples[1].frequency, 48000);
    assert_eq!(bank.samples[1].channels, 2);
    assert_eq!(bank.data_size, 36);
    assert_eq!(bank.sample_data(1).unwrap(), &[1, 2, 3][..]);
}

#[test]
fn replace_refuses_a_wrong_index() {
    let bytes = build_v4(&two_entries(), 0x0020_0000);
    let mut bank = FsbBank::from_bytes(bytes.clone()).unwrap();
    assert_eq!(bank.replace_sample(2, &[1, 2, 3]), Err(Error::IndexOutOfBounds));
    assert_eq!(bank.data, bytes);
    assert_eq!(bank.data_size, 83);
    assert_eq!(bank.samples[1].data_offset, 241);
}

#[test]
fn replace_refuses_a_sample_outside_the_buffer() {
    let mut bank = FsbBank::from_bytes(build_v4(&two_entries(), 0)).unwrap();
    bank.samples[0].data_size = 1 << 40;
    assert_eq!(bank.replace_sample(0, &[1, 2, 3]), Err(Error::SampleOutOfBounds));
}

#[test]
fn mode_flags_of_a_loaded_sample() {
    let bank = FsbBank::from_bytes(build_v4(&two_entries(), 0)).unwrap();
    let mode: Fsb4Mode = bank.samples[1].mode.unwrap();
    assert!(mode.has_loop_points());
    assert!(mode.is_stereo());
}
