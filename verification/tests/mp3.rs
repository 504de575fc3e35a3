use cums_sekiro::audio::mp3::{
    create_mp3_file, extract_fsb4_mp3_fmod, extract_mp3_from_fsb4, find_mp3_sync, get_mp3_info,
    has_valid_mp3_frames, Mp3FrameHeader,
};

const HEADER: u32 = 0xFFFB_9064;

fn frame(header: u32, fill: u8) -> Vec<u8> {
    let size = Mp3FrameHeader::parse(header).unwrap().frame_size;
    let mut out = header.to_be_bytes().to_vec();
    out.resize(size, fill);
    out
}

#[test]
fn parse_reads_the_fields() {
    let f = Mp3FrameHeader::parse(HEADER).unwrap();
    assert_eq!(f.version, 3);
    assert_eq!(f.layer, 1);
    assert!(!f.crc);
    assert_eq!(f.bitrate_index, 9);
    assert_eq!(f.sample_rate_index, 0);
    assert!(!f.padding);
    assert_eq!(f.channel_mode, 1);
    assert_eq!(f.bitrate, 128);
    assert_eq!(f.sample_rate, 44100);
    assert_eq!(f.frame_size, 417);
}

#[test]
fn parse_reads_a_layer_3_header() {
    // MPEG 1, Layer III, no checksum, 128 kbit/s, 44100 Hz, no padding, stereo
    let f = Mp3FrameHeader::parse(0xFFFB_9000).unwrap();
    assert_eq!(f.version, 3);
    assert_eq!(f.layer, 1);
    assert!(!f.crc);
    assert_eq!(f.bitrate_index, 9);
    assert_eq!(f.sample_rate_index, 0);
    assert!(!f.padding);
    assert_eq!(f.channel_mode, 0);
    assert_eq!(f.bitrate, 128);
    assert_eq!(f.sample_rate, 44100);
    assert_eq!(f.frame_size, 417);
}

#[test]
fn parse_reads_layer_3_only() {
    // the layer bits 01 stand for Layer III, 10 for Layer II, 11 for Layer I; 00 are reserved
    assert!(Mp3FrameHeader::parse(0xFFFB_9000).is_some());
    assert!(Mp3FrameHeader::parse(0xFFFD_9000).is_none());
    assert!(Mp3FrameHeader::parse(0xFFFF_9000).is_none());
    assert!(Mp3FrameHeader::parse(0xFFF9_9000).is_none());
}

#[test]
fn parse_counts_the_padding() {
    let f = Mp3FrameHeader::parse(HEADER | (1 << 9)).unwrap();
    assert!(f.padding);
    assert_eq!(f.frame_size, 418);
}

#[test]
fn parse_reads_the_protection_bit() {
    let f = Mp3FrameHeader::parse(HEADER & !(1 << 16)).unwrap();
    assert!(f.crc);
}

#[test]
fn parse_mpeg2_uses_the_other_table() {
    // version bits 10, bitrate index 9 (80 kbit/s), sample rate index 1 (24000 Hz)
    let header: u32 = (0x7FF << 21) | (2 << 19) | (1 << 17) | (1 << 16) | (9 << 12) | (1 << 10);
    let f = Mp3FrameHeader::parse(header).unwrap();
    assert_eq!(f.version, 2);
    assert_eq!(f.bitrate, 80);
    assert_eq!(f.sample_rate, 24000);
    assert_eq!(f.frame_size, 72 * 80 * 1000 / 24000);
    // version bits 00 (MPEG 2.5), sample rate index 2 (8000 Hz), bitrate index 1 (8 kbit/s)
    let header: u32 = (0x7FF << 21) | (1 << 17) | (1 << 12) | (2 << 10);
    let f = Mp3FrameHeader::parse(header).unwrap();
    assert_eq!(f.version, 0);
    assert_eq!(f.bitrate, 8);
    assert_eq!(f.sample_rate, 8000);
    assert_eq!(f.frame_size, 72);
}

#[test]
fn parse_rejects_what_is_no_header() {
    assert!(Mp3FrameHeader::parse(0).is_none());
    assert!(Mp3FrameHeader::parse(HEADER & 0x7FFF_FFFF).is_none());
    // reserved version
    assert!(Mp3FrameHeader::parse((HEADER & !(3 << 19)) | (1 << 19)).is_none());
    // layer bits other than 01
    assert!(Mp3FrameHeader::parse(HEADER & !(3 << 17)).is_none());
    assert!(Mp3FrameHeader::parse((HEADER & !(3 << 17)) | (2 << 17)).is_none());
    assert!(Mp3FrameHeader::parse((HEADER & !(3 << 17)) | (3 << 17)).is_none());
    // bitrate index 0 and 15
    assert!(Mp3FrameHeader::parse(HEADER & !(15 << 12)).is_none());
    assert!(Mp3FrameHeader::parse(HEADER | (15 << 12)).is_none());
    // sample rate index 3
    assert!(Mp3FrameHeader::parse(HEADER | (3 << 10)).is_none());
}

#[test]
fn encode_gives_the_header_back() {
    for header in [HEADER, HEADER | (1 << 9), HEADER & !(1 << 16), 0xFFFB_E0FF] {
        let f = Mp3FrameHeader::parse(header).unwrap();
        assert_eq!(f.encode(), header & 0xFFFF_FEC0);
    }
    let f = Mp3FrameHeader::parse(HEADER).unwrap();
    assert_eq!(f.encode(), 0xFFFB_9040);
}

#[test]
fn extract_takes_frames_one_after_the_other() {
    let mut data = frame(HEADER, 0x11);
    data.extend(frame(HEADER | (1 << 9), 0x22));
    data.extend_from_slice(&[0u8; 8]);
    let out = extract_mp3_from_fsb4(&data, 44100, 2).unwrap();
    assert_eq!(out.len(), 417 + 418);
    assert_eq!(&out[..], &data[..417 + 418]);
}

#[test]
fn extract_skips_a_corrupted_stretch() {
    let first = frame(HEADER, 0x11);
    let second = frame(HEADER, 0x22);
    let third = frame(HEADER, 0x33);
    let mut data = first.clone();
    let mut broken = second.clone();
    broken[0] = 0x00;
    data.extend_from_slice(&broken);
    data.extend_from_slice(&third);
    data.extend_from_slice(&[0u8; 5]);
    let out = extract_mp3_from_fsb4(&data, 44100, 2).unwrap();
    let mut want = first.clone();
    want.extend_from_slice(&third);
    assert_eq!(out, want);
}

#[test]
fn extract_skips_leading_garbage() {
    let mut data = vec![0x01u8, 0x02, 0x03];
    data.extend(frame(HEADER, 0x44));
    data.extend_from_slice(&[0u8; 5]);
    let out = extract_mp3_from_fsb4(&data, 0, 0).unwrap();
    assert_eq!(out, frame(HEADER, 0x44));
}

#[test]
fn extract_without_frames_hands_the_data_back() {
    let data = vec![0x10u8; 100];
    assert_eq!(extract_mp3_from_fsb4(&data, 44100, 1).unwrap(), data);
    assert_eq!(extract_mp3_from_fsb4(&[], 44100, 1).unwrap(), Vec::<u8>::new());
    assert_eq!(extract_mp3_from_fsb4(&[0xFF, 0xFB], 44100, 1).unwrap(), vec![0xFF, 0xFB]);
}

#[test]
fn extract_drops_a_frame_that_runs_past_the_end() {
    let mut data = frame(HEADER, 0x11);
    let mut cut = frame(HEADER, 0x22);
    cut.truncate(100);
    data.extend_from_slice(&cut);
    let out = extract_mp3_from_fsb4(&data, 44100, 2).unwrap();
    assert_eq!(out, frame(HEADER, 0x11));
}

#[test]
fn extract_does_not_look_at_the_last_four_bytes() {
    // a frame that ends exactly at the end of the data is taken
    let data = frame(HEADER, 0x11);
    assert_eq!(extract_mp3_from_fsb4(&data, 44100, 2).unwrap(), data);
    // a header in the last four bytes is not looked at
    let mut data = vec![0u8; 10];
    data.extend_from_slice(&HEADER.to_be_bytes());
    assert_eq!(find_mp3_sync(&data), None);
    data.push(0);
    assert_eq!(find_mp3_sync(&data), Some(10));
}

#[test]
fn find_sync_gives_the_first_header() {
    let mut data = vec![0xFFu8, 0x00, 0x12];
    data.extend(frame(HEADER, 0));
    data.extend(frame(HEADER, 0));
    assert_eq!(find_mp3_sync(&data), Some(3));
    assert_eq!(find_mp3_sync(&[0u8; 64]), None);
    assert_eq!(find_mp3_sync(&[]), None);
}

#[test]
fn info_of_the_first_header() {
    let mut data = vec![0u8; 7];
    data.extend(frame(HEADER, 0));
    assert_eq!(get_mp3_info(&data), Some((44100, 2, 128)));
    let mono = HEADER | (3 << 6);
    assert_eq!(get_mp3_info(&frame(mono, 0)), Some((44100, 1, 128)));
    assert_eq!(get_mp3_info(&[0u8; 3]), None);
    assert_eq!(get_mp3_info(&[0u8; 300]), None);
}

#[test]
fn valid_frames_start_with_a_header() {
    assert!(has_valid_mp3_frames(&HEADER.to_be_bytes()));
    assert!(has_valid_mp3_frames(&frame(HEADER, 0)));
    assert!(!has_valid_mp3_frames(&[0xFF, 0xFB, 0x90]));
    assert!(!has_valid_mp3_frames(&[0, 0, 0, 0, 0]));
}

#[test]
fn create_mp3_file_copies_the_frames() {
    assert_eq!(create_mp3_file(&[1, 2, 3], 44100, 2), vec![1, 2, 3]);
}

#[test]
fn fmod_extraction() {
    let mut data = vec![0x01u8, 0x02];
    data.extend(frame(HEADER, 0x55));
    data.extend_from_slice(&[0u8; 6]);
    assert_eq!(extract_fsb4_mp3_fmod(&data, 1).unwrap(), frame(HEADER, 0x55));
    assert_eq!(extract_fsb4_mp3_fmod(&data, 2).unwrap(), frame(HEADER, 0x55));
    let raw = vec![7u8; 50];
    assert_eq!(extract_fsb4_mp3_fmod(&raw, 1).unwrap(), raw);
    assert_eq!(extract_fsb4_mp3_fmod(&raw, 2).unwrap(), raw);
}
