use cums_sekiro::audio::vorbis::{
    audio_end, build_ogg_file, generate_comment_header, generate_id_header, get_vorbis_info,
    has_valid_vorbis_packets, plan_stream, read_packets, write_plan, PacketEnd, PlannedPacket,
    VorbisHeaders, VorbisPacketIterator,
};
use ogg::reading::PacketReader;
use std::io::Cursor;

fn raw_stream(packets: &[Vec<u8>]) -> Vec<u8> {
    let mut out = Vec::new();
    for p in packets {
        out.extend_from_slice(&(p.len() as u16).to_le_bytes());
        out.extend_from_slice(p);
    }
    out
}

fn headers() -> VorbisHeaders {
    VorbisHeaders {
        id_header: generate_id_header(44100, 2),
        comment_header: generate_comment_header(),
        setup_header: vec![0x05, b'v', b'o', b'r', b'b', b'i', b's', 1, 2, 3],
    }
}

fn read_back(file: &[u8]) -> Vec<ogg::Packet> {
    let mut reader = PacketReader::new(Cursor::new(file.to_vec()));
    let mut out = Vec::new();
    while let Some(p) = reader.read_packet().unwrap() {
        out.push(p);
    }
    out
}

#[test]
fn id_header_bytes() {
    let h = generate_id_header(48000, 2);
    let mut want = vec![0x01u8];
    want.extend_from_slice(b"vorbis");
    want.extend_from_slice(&[0, 0, 0, 0]);
    want.push(2);
    want.extend_from_slice(&48000u32.to_le_bytes());
    want.extend_from_slice(&[0; 12]);
    want.extend_from_slice(&[0xB8, 0x01]);
    assert_eq!(h, want);
    assert_eq!(h.len(), 30);
}

#[test]
fn comment_header_bytes() {
    let h = generate_comment_header();
    let mut want = vec![0x03u8];
    want.extend_from_slice(b"vorbis");
    want.extend_from_slice(&4u32.to_le_bytes());
    want.extend_from_slice(b"CUMS");
    want.extend_from_slice(&0u32.to_le_bytes());
    want.push(0x01);
    assert_eq!(h, want);
}

#[test]
fn packets_are_length_prefixed() {
    let raw = raw_stream(&[vec![1, 2, 3], vec![4], vec![5, 6]]);
    let mut walk = VorbisPacketIterator::new(&raw);
    assert_eq!(walk.next(), Some(&[1u8, 2, 3][..]));
    assert_eq!(walk.next(), Some(&[4u8][..]));
    assert_eq!(walk.next(), Some(&[5u8, 6][..]));
    assert_eq!(walk.next(), None);
    assert_eq!(read_packets(&raw), vec![vec![1u8, 2, 3], vec![4], vec![5, 6]]);
}

#[test]
fn packets_stop_at_a_length_of_zero() {
    let mut raw = raw_stream(&[vec![1, 2, 3]]);
    raw.extend_from_slice(&[0, 0]);
    raw.extend_from_slice(&raw_stream(&[vec![9]]));
    assert_eq!(read_packets(&raw), vec![vec![1u8, 2, 3]]);
}

#[test]
fn packets_stop_at_a_length_past_the_end() {
    let mut raw = raw_stream(&[vec![1, 2, 3]]);
    raw.extend_from_slice(&[10, 0, 1, 2]);
    assert_eq!(read_packets(&raw), vec![vec![1u8, 2, 3]]);
    assert_eq!(read_packets(&[5, 0, 1]), Vec::<Vec<u8>>::new());
}

#[test]
fn packets_stop_where_the_length_is_cut() {
    let mut raw = raw_stream(&[vec![7; 300]]);
    raw.push(1);
    assert_eq!(read_packets(&raw), vec![vec![7u8; 300]]);
    assert_eq!(read_packets(&[]), Vec::<Vec<u8>>::new());
    assert_eq!(read_packets(&[1]), Vec::<Vec<u8>>::new());
}

#[test]
fn valid_packets_start_with_a_packet() {
    assert!(has_valid_vorbis_packets(&[1, 0, 9]));
    assert!(has_valid_vorbis_packets(&[2, 0, 9, 9, 9]));
    assert!(!has_valid_vorbis_packets(&[2, 0, 9]));
    assert!(!has_valid_vorbis_packets(&[0, 0, 9]));
    assert!(!has_valid_vorbis_packets(&[1]));
    assert!(!has_valid_vorbis_packets(&[]));
}

#[test]
fn no_info_in_a_raw_stream() {
    assert_eq!(get_vorbis_info(&[1, 2, 3]), None);
}

#[test]
fn ends_of_audio_packets() {
    assert_eq!(audio_end(0, 1), PacketEnd::EndStream);
    assert_eq!(audio_end(0, 30), PacketEnd::NormalPacket);
    assert_eq!(audio_end(8, 30), PacketEnd::NormalPacket);
    assert_eq!(audio_end(9, 30), PacketEnd::EndPage);
    assert_eq!(audio_end(10, 30), PacketEnd::NormalPacket);
    assert_eq!(audio_end(19, 30), PacketEnd::EndPage);
    assert_eq!(audio_end(29, 30), PacketEnd::EndStream);
    assert_eq!(audio_end(9, 10), PacketEnd::EndStream);
}

#[test]
fn ogg_file_holds_headers_and_packets() {
    let packets: Vec<Vec<u8>> = (0..25u8).map(|i| vec![i; 3 + i as usize]).collect();
    let raw = raw_stream(&packets);
    let h = headers();
    let file = build_ogg_file(&h, &raw, 0).unwrap();
    assert_eq!(&file[0..4], b"OggS");
    let read = read_back(&file);
    assert_eq!(read.len(), 3 + 25);
    assert_eq!(read[0].data, h.id_header);
    assert_eq!(read[1].data, h.comment_header);
    assert_eq!(read[2].data, h.setup_header);
    for (i, p) in packets.iter().enumerate() {
        assert_eq!(&read[3 + i].data, p);
        assert_eq!(read[3 + i].stream_serial(), 0x1234_5678);
    }
    // the identification header has a page of its own, the setup header ends the second page
    assert!(read[0].first_in_page() && read[0].last_in_page());
    assert!(read[1].first_in_page() && !read[1].last_in_page());
    assert!(read[2].last_in_page());
    // every tenth audio packet ends its page, the last one the stream
    for i in 0..25usize {
        let p = &read[3 + i];
        assert_eq!(p.last_in_page(), i == 9 || i == 19 || i == 24, "packet {}", i);
        assert_eq!(p.last_in_stream(), i == 24, "packet {}", i);
    }
    // a page carries the granule position of its last packet: 1024 for each packet
    assert_eq!(read[3 + 9].absgp_page(), 1024 * 10);
    assert_eq!(read[3 + 19].absgp_page(), 1024 * 20);
    assert_eq!(read[3 + 24].absgp_page(), 1024 * 25);
    assert_eq!(read[2].absgp_page(), 0);
}

#[test]
fn ogg_file_of_one_packet() {
    let raw = raw_stream(&[vec![0xAB; 700]]);
    let file = build_ogg_file(&headers(), &raw, 12345).unwrap();
    let read = read_back(&file);
    assert_eq!(read.len(), 4);
    assert_eq!(read[3].data, vec![0xAB; 700]);
    assert!(read[3].last_in_stream());
    assert_eq!(read[3].absgp_page(), 1024);
}

#[test]
fn ogg_file_without_audio_holds_the_headers() {
    let file = build_ogg_file(&headers(), &[], 0).unwrap();
    assert_eq!(&file[0..4], b"OggS");
    let read = read_back(&file);
    assert_eq!(read.len(), 3);
}

#[test]
fn ogg_file_is_the_same_each_time() {
    let packets: Vec<Vec<u8>> = (0..40u8).map(|i| vec![i; 20]).collect();
    let raw = raw_stream(&packets);
    let a = build_ogg_file(&headers(), &raw, 0).unwrap();
    let b = build_ogg_file(&headers(), &raw, 0).unwrap();
    assert_eq!(a, b);
    assert!(!a.is_empty());
}

#[test]
fn plan_of_a_stream() {
    let packets: Vec<Vec<u8>> = (0..12u8).map(|i| vec![i; 2]).collect();
    let h = headers();
    let plan = plan_stream(&h, &raw_stream(&packets)).unwrap();
    assert_eq!(plan.len(), 15);
    assert_eq!(
        plan[0],
        PlannedPacket { data: h.id_header.clone(), end: PacketEnd::EndPage, granule: 0 }
    );
    assert_eq!(
        plan[1],
        PlannedPacket { data: h.comment_header.clone(), end: PacketEnd::NormalPacket, granule: 0 }
    );
    assert_eq!(
        plan[2],
        PlannedPacket { data: h.setup_header.clone(), end: PacketEnd::EndPage, granule: 0 }
    );
    for i in 0..12usize {
        let end = match i {
            9 => PacketEnd::EndPage,
            11 => PacketEnd::EndStream,
            _ => PacketEnd::NormalPacket,
        };
        assert_eq!(
            plan[3 + i],
            PlannedPacket { data: vec![i as u8; 2], end, granule: 1024 * (i as u64 + 1) }
        );
    }
}

#[test]
fn plan_of_an_empty_stream() {
    let plan = plan_stream(&headers(), &[0, 0, 1, 2]).unwrap();
    assert_eq!(plan.len(), 3);
}

#[test]
fn writing_a_plan_gives_ogg_pages() {
    let plan = vec![
        PlannedPacket { data: vec![1, 2, 3], end: PacketEnd::EndPage, granule: 0 },
        PlannedPacket { data: vec![4; 600], end: PacketEnd::EndStream, granule: 77 },
    ];
    let file = write_plan(&plan);
    assert_eq!(&file[0..4], b"OggS");
    let read = read_back(&file);
    assert_eq!(read.len(), 2);
    assert_eq!(read[0].data, vec![1, 2, 3]);
    assert_eq!(read[1].data, vec![4; 600]);
    assert_eq!(read[1].absgp_page(), 77);
    assert!(read[1].last_in_stream());
    // a packet that ends nothing is held back
    let open = vec![PlannedPacket { data: vec![1], end: PacketEnd::NormalPacket, granule: 0 }];
    assert_eq!(write_plan(&open), Vec::<u8>::new());
    assert_eq!(write_plan(&vec![]), Vec::<u8>::new());
}
