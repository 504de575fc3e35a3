use cums_sekiro::formats::bhd5::{decrypt_aes128_ecb, Bdt, Bhd5, Bhd5Entry};
use cums_sekiro::formats::bnd4::{Bnd4, Bnd4Entry};
use cums_sekiro::formats::dcx::{Dcx, DcxType};
use cums_sekiro::Error;
use std::io::Write;

const AES128_KEY: [u8; 16] = [0, 1, 2, 3, 4, 5, 6, 7, 8, 9, 10, 11, 12, 13, 14, 15];
const AES128_PLAIN: [u8; 16] = [
    0x00, 0x11, 0x22, 0x33, 0x44, 0x55, 0x66, 0x77, 0x88, 0x99, 0xaa, 0xbb, 0xcc, 0xdd, 0xee, 0xff,
];
const AES128_CIPHER: [u8; 16] = [
    0x69, 0xc4, 0xe0, 0xd8, 0x6a, 0x7b, 0x04, 0x30, 0xd8, 0xcd, 0xb7, 0x80, 0x70, 0xb4, 0xc5, 0x5a,
];

fn zlib(data: &[u8]) -> Vec<u8> {
    let mut e = flate2::write::ZlibEncoder::new(Vec::new(), flate2::Compression::default());
    e.write_all(data).unwrap();
    e.finish().unwrap()
}

fn deflate(data: &[u8]) -> Vec<u8> {
    let mut e = flate2::write::DeflateEncoder::new(Vec::new(), flate2::Compression::default());
    e.write_all(data).unwrap();
    e.finish().unwrap()
}

/// A DCX file as the reader takes it: the DCS block at 16, the DCP block at 28.
fn dcx_file(scheme: &[u8; 4], size: u32, payload: &[u8], dca: bool) -> Vec<u8> {
    let mut out = b"DCX\0".to_vec();
    out.extend_from_slice(&[0u8; 12]);
    out.extend_from_slice(b"DCS\0");
    out.extend_from_slice(&size.to_be_bytes());
    out.extend_from_slice(&(payload.len() as u32).to_be_bytes());
    out.extend_from_slice(b"DCP\0");
    out.extend_from_slice(scheme);
    out.extend_from_slice(&[0u8; 16]);
    if scheme == b"DFLT" {
        if dca {
            out.extend_from_slice(b"DCA\0");
            out.extend_from_slice(&8u32.to_be_bytes());
        } else {
            out.extend_from_slice(&[1, 2, 3, 4]);
        }
    }
    out.extend_from_slice(payload);
    out
}

#[test]
fn dcx_magics() {
    assert_eq!(DcxType::from_magic(b"DFLT"), Some(DcxType::Dflt));
    assert_eq!(DcxType::from_magic(b"EDGE"), Some(DcxType::Edge));
    assert_eq!(DcxType::from_magic(b"KRAK"), Some(DcxType::Kraken));
    assert_eq!(DcxType::from_magic(b"ZLIB"), None);
    assert_eq!(DcxType::from_magic(&[0; 4]), None);
    assert_eq!(DcxType::Uncompressed.to_magic(), [0; 4]);
    assert_eq!(&DcxType::Zlib.to_magic(), b"DFLT");
    assert_eq!(&DcxType::Dflt.to_magic(), b"DFLT");
    assert_eq!(&DcxType::Edge.to_magic(), b"EDGE");
    assert_eq!(&DcxType::Kraken.to_magic(), b"KRAK");
}

#[test]
fn dcx_is_recognised_by_its_magic() {
    assert!(Dcx::is_dcx(b"DCX\0"));
    assert!(Dcx::is_dcx(b"DCX\0more"));
    assert!(!Dcx::is_dcx(b"DCX"));
    assert!(!Dcx::is_dcx(b"DCX1"));
    assert!(!Dcx::is_dcx(b""));
}

#[test]
fn dcx_new_keeps_its_parts() {
    let d = Dcx::new(vec![1, 2], DcxType::Edge);
    assert_eq!(d.data, vec![1, 2]);
    assert_eq!(d.compression, DcxType::Edge);
}

#[test]
fn dcx_decompress_inflates_zlib() {
    let plain = b"hello hello hello hello".to_vec();
    for dca in [true, false] {
        let file = dcx_file(b"DFLT", plain.len() as u32, &zlib(&plain), dca);
        let d = Dcx::decompress(&file).unwrap();
        assert_eq!(d.compression, DcxType::Dflt);
        assert_eq!(d.data, plain);
    }
}

#[test]
fn dcx_decompress_falls_back_to_raw_deflate() {
    let plain = vec![7u8; 1000];
    let file = dcx_file(b"DFLT", 1000, &deflate(&plain), true);
    assert_eq!(Dcx::decompress(&file).unwrap().data, plain);
}

#[test]
fn dcx_decompress_takes_the_stored_size_only() {
    let plain = b"abcabcabc".to_vec();
    let mut file = dcx_file(b"DFLT", 9, &zlib(&plain), true);
    file.extend_from_slice(&[0xFF; 10]);
    assert_eq!(Dcx::decompress(&file).unwrap().data, plain);
}

#[test]
fn dcx_decompress_errors() {
    assert_eq!(Dcx::decompress(b"nope").err(), Some(Error::BadMagic));
    assert_eq!(Dcx::decompress(b"DCX\0").err(), Some(Error::Truncated));
    let good = dcx_file(b"DFLT", 3, &zlib(b"abc"), true);
    let mut bad = good.clone();
    bad[16] = b'X';
    assert_eq!(Dcx::decompress(&bad).err(), Some(Error::BadMagic));
    let mut bad = good.clone();
    bad[28] = b'X';
    assert_eq!(Dcx::decompress(&bad).err(), Some(Error::BadMagic));
    assert_eq!(Dcx::decompress(&good[..30]).err(), Some(Error::Truncated));
    assert_eq!(Dcx::decompress(&good[..58]).err(), Some(Error::Truncated));
    assert_eq!(Dcx::decompress(&good[..good.len() - 1]).err(), Some(Error::Truncated));
    let unknown = dcx_file(b"ZSTD", 3, b"abc", false);
    assert_eq!(Dcx::decompress(&unknown).err(), Some(Error::UnknownCompression));
    let kraken = dcx_file(b"KRAK", 3, b"abc", false);
    assert_eq!(Dcx::decompress(&kraken).err(), Some(Error::UnsupportedCompression));
    let edge = dcx_file(b"EDGE", 3, b"abc", false);
    assert_eq!(Dcx::decompress(&edge).err(), Some(Error::UnsupportedCompression));
    let garbage = dcx_file(b"DFLT", 3, &[0xFF, 0xFF, 0xFF, 0xFF, 0xFF], true);
    assert_eq!(Dcx::decompress(&garbage).err(), Some(Error::Inflate));
}

#[test]
fn dcx_compress_without_compression() {
    let out = Dcx::compress(&[9, 8, 7], DcxType::Uncompressed).unwrap();
    let mut want = b"DCX\0".to_vec();
    for v in [0x10000u32, 0x18, 0x24, 0x24, 0x2C] {
        want.extend_from_slice(&v.to_be_bytes());
    }
    want.extend_from_slice(b"DCS\0");
    want.extend_from_slice(&3u32.to_be_bytes());
    want.extend_from_slice(&3u32.to_be_bytes());
    want.extend_from_slice(b"DCP\0");
    want.extend_from_slice(&[0; 4]);
    for v in [0x20u32, 0x09, 0, 0, 0, 0x0001_0100] {
        want.extend_from_slice(&v.to_be_bytes());
    }
    want.extend_from_slice(b"DCA\0");
    want.extend_from_slice(&8u32.to_be_bytes());
    want.extend_from_slice(&[9, 8, 7]);
    assert_eq!(out, want);
}

#[test]
fn dcx_compress_with_zlib() {
    let plain = vec![0x41u8; 5000];
    for scheme in [DcxType::Dflt, DcxType::Zlib] {
        let out = Dcx::compress(&plain, scheme).unwrap();
        assert_eq!(&out[0..4], b"DCX\0");
        assert_eq!(&out[24..28], b"DCS\0");
        assert_eq!(&out[28..32], &5000u32.to_be_bytes());
        assert_eq!(&out[36..40], b"DCP\0");
        assert_eq!(&out[40..44], b"DFLT");
        assert_eq!(&out[68..72], b"DCA\0");
        let packed = u32::from_be_bytes(out[32..36].try_into().unwrap()) as usize;
        assert_eq!(out.len(), 76 + packed);
        assert!(packed < 5000);
        let mut d = flate2::read::ZlibDecoder::new(&out[76..]);
        let mut back = Vec::new();
        std::io::Read::read_to_end(&mut d, &mut back).unwrap();
        assert_eq!(back, plain);
    }
}

#[test]
fn dcx_compress_refuses_edge_and_kraken() {
    assert_eq!(Dcx::compress(&[1], DcxType::Edge), Err(Error::UnsupportedCompression));
    assert_eq!(Dcx::compress(&[1], DcxType::Kraken), Err(Error::UnsupportedCompression));
}

fn push32(out: &mut Vec<u8>, v: u32, be: bool) {
    out.extend_from_slice(&if be { v.to_be_bytes() } else { v.to_le_bytes() });
}

fn push64(out: &mut Vec<u8>, v: u64, be: bool) {
    out.extend_from_slice(&if be { v.to_be_bytes() } else { v.to_le_bytes() });
}

/// An index with two buckets: two entries in the first, one in the second.
fn bhd5_file(version: u32, be: bool) -> Vec<u8> {
    let wide = version >= 0x100;
    let step = if wide { 28 } else { 16 };
    let mut out = b"BHD5".to_vec();
    push32(&mut out, 1, be);
    push32(&mut out, version, be);
    push32(&mut out, 0, be);
    push32(&mut out, 2, be);
    push32(&mut out, 32, be);
    push32(&mut out, 4, be);
    out.extend_from_slice(b"salt");
    assert_eq!(out.len(), 32);
    let entries_at = 32 + 16;
    push32(&mut out, 2, be);
    push32(&mut out, entries_at, be);
    push32(&mut out, 1, be);
    push32(&mut out, entries_at + 2 * step, be);
    let key_at = (entries_at + 3 * step) as u64;
    let entries: [(u32, u32, u64, u32, u64); 3] = [
        (10, 5, 0, 16, 0),
        (12, 20, 16, 32, key_at),
        (11, 7, 48, 16, 0),
    ];
    for (hash, size, offset, padded, key) in entries {
        push32(&mut out, hash, be);
        push32(&mut out, size, be);
        push64(&mut out, offset, be);
        if wide {
            push32(&mut out, padded, be);
            push64(&mut out, key, be);
        }
    }
    if wide {
        out.extend_from_slice(&AES128_KEY);
        push32(&mut out, 2, be);
        push64(&mut out, 0, be);
        push64(&mut out, 16, be);
        push64(&mut out, u64::MAX, be);
        push64(&mut out, 5, be);
    }
    out
}

#[test]
fn bhd5_read_with_keys() {
    for be in [false, true] {
        let index = Bhd5::read(&bhd5_file(0x1FF, be)).unwrap();
        assert_eq!(index.version, 0x1FF);
        assert_eq!(index.big_endian, be);
        assert_eq!(index.salt, b"salt".to_vec());
        assert_eq!(index.buckets.len(), 2);
        assert_eq!(index.buckets[0].entries.len(), 2);
        assert_eq!(index.buckets[1].entries.len(), 1);
        let e = &index.buckets[0].entries[1];
        assert_eq!((e.hash, e.size, e.offset, e.padded_size), (12, 20, 16, 32));
        assert_eq!(e.aes_key, Some(AES128_KEY.to_vec()));
        assert_eq!(e.aes_ranges, vec![(0, 16), (-1, 5)]);
        let e = &index.buckets[0].entries[0];
        assert_eq!((e.hash, e.size, e.offset, e.padded_size), (10, 5, 0, 16));
        assert_eq!(e.aes_key, None);
        assert!(e.aes_ranges.is_empty());
        assert_eq!(index.buckets[1].entries[0].hash, 11);
    }
}

#[test]
fn bhd5_read_of_an_old_version() {
    let index = Bhd5::read(&bhd5_file(0xFF, false)).unwrap();
    let e = &index.buckets[0].entries[1];
    assert_eq!((e.hash, e.size, e.offset, e.padded_size), (12, 20, 16, 20));
    assert_eq!(e.aes_key, None);
    assert_eq!(index.buckets[1].entries[0].offset, 48);
}

#[test]
fn bhd5_read_errors() {
    assert_eq!(Bhd5::read(b"BH").err(), Some(Error::Truncated));
    assert_eq!(Bhd5::read(b"BHD4\0\0\0\0").err(), Some(Error::BadMagic));
    let good = bhd5_file(0x1FF, false);
    assert_eq!(Bhd5::read(&good[..27]).err(), Some(Error::Truncated));
    assert_eq!(Bhd5::read(&good[..30]).err(), Some(Error::Truncated));
    assert_eq!(Bhd5::read(&good[..40]).err(), Some(Error::Truncated));
    assert_eq!(Bhd5::read(&good[..good.len() - 1]).err(), Some(Error::Truncated));
    assert_eq!(Bhd5::read(&good[..100]).err(), Some(Error::Truncated));
}

#[test]
fn bhd5_entries_by_hash() {
    let index = Bhd5::read(&bhd5_file(0x1FF, false)).unwrap();
    assert_eq!(index.get_entry(10).unwrap().size, 5);
    assert_eq!(index.get_entry(12).unwrap().size, 20);
    assert_eq!(index.get_entry(11).unwrap().size, 7);
    assert!(index.get_entry(13).is_none());
    assert!(index.get_entry(14).is_none());
    let all = index.all_entries();
    assert_eq!(all.iter().map(|e| e.hash).collect::<Vec<_>>(), vec![10, 12, 11]);
    let empty = Bhd5 { version: 0, salt: vec![], buckets: vec![], big_endian: false };
    assert!(empty.get_entry(1).is_none());
    assert!(empty.all_entries().is_empty());
}

#[test]
fn bhd5_hash_of_a_path() {
    assert_eq!(Bhd5::hash_path("", b""), 0);
    assert_eq!(Bhd5::hash_path("a", b""), 97);
    assert_eq!(Bhd5::hash_path("/A", b"x"), (92 * 37 + 97) * 37 + 120);
    assert_eq!(Bhd5::hash_path("/Sound/Main.FSB", b""), Bhd5::hash_path("\\sound\\main.fsb", b""));
    let mut want = 0u32;
    for b in "\\sound\\main.fsbsalt".bytes() {
        want = want.wrapping_mul(37).wrapping_add(b as u32);
    }
    assert_eq!(Bhd5::hash_path("/sound/MAIN.fsb", b"salt"), want);
}

fn entry(size: u32, offset: u64, padded: u32, key: Option<Vec<u8>>, ranges: Vec<(i64, i64)>) -> Bhd5Entry {
    Bhd5Entry { hash: 0, size, offset, padded_size: padded, aes_key: key, aes_ranges: ranges }
}

#[test]
fn bdt_reads_plain_entries() {
    let data: Vec<u8> = (0..64u8).collect();
    let bdt = Bdt::new(&data);
    assert_eq!(bdt.read_entry(&entry(5, 10, 16, None, vec![])), Ok(vec![10, 11, 12, 13, 14]));
    assert_eq!(bdt.read_entry(&entry(40, 60, 4, None, vec![])), Ok(vec![60, 61, 62, 63]));
    assert_eq!(bdt.read_entry(&entry(1, 60, 5, None, vec![])), Err(Error::EntryOutOfBounds));
    assert_eq!(bdt.read_entry(&entry(1, u64::MAX, 1, None, vec![])), Err(Error::EntryOutOfBounds));
    assert_eq!(bdt.read_entry(&entry(0, 64, 0, None, vec![])), Ok(vec![]));
}

#[test]
fn bdt_decrypts_entries() {
    let mut data = vec![0xEEu8; 8];
    data.extend_from_slice(&AES128_CIPHER);
    data.extend_from_slice(&AES128_CIPHER);
    data.extend_from_slice(&[1, 2, 3]);
    let bdt = Bdt::new(&data);
    let key = Some(AES128_KEY.to_vec());
    // without ranges every complete block is decrypted
    let mut want = AES128_PLAIN.to_vec();
    want.extend_from_slice(&AES128_PLAIN);
    want.extend_from_slice(&[1, 2]);
    assert_eq!(bdt.read_entry(&entry(34, 8, 35, key.clone(), vec![])), Ok(want));
    // with ranges only the ranges are
    let mut want = AES128_CIPHER.to_vec();
    want.extend_from_slice(&AES128_PLAIN);
    assert_eq!(bdt.read_entry(&entry(32, 8, 35, key.clone(), vec![(16, 1000)])), Ok(want));
    // an empty range and a range that starts behind its end change nothing
    assert_eq!(
        bdt.read_entry(&entry(16, 8, 16, key.clone(), vec![(4, 4), (9, 2), (-1, 16)])),
        Ok(AES128_CIPHER.to_vec())
    );
    assert_eq!(
        bdt.read_entry(&entry(16, 8, 16, Some(vec![0; 15]), vec![])),
        Err(Error::BadKey)
    );
}

#[test]
fn aes128_ranges_in_place() {
    let mut data = AES128_CIPHER.to_vec();
    data.extend_from_slice(&AES128_CIPHER);
    assert_eq!(decrypt_aes128_ecb(&mut data, &AES128_KEY, &[(0, 16), (16, 32)]), Ok(()));
    assert_eq!(&data[..16], &AES128_PLAIN);
    assert_eq!(&data[16..], &AES128_PLAIN);
    assert_eq!(decrypt_aes128_ecb(&mut data, &[0; 17], &[]), Err(Error::BadKey));
}

/// A bundle with two entries, as the reader takes it.
fn bnd4_file(unicode: bool, extended: bool, be: bool) -> Vec<u8> {
    let start = if extended { 60 } else { 52 };
    let stride = if extended { 48 } else { 32 };
    let names_at = start + 2 * stride;
    let names: Vec<Vec<u8>> = ["one.fsb", "zwei.fsb"]
        .iter()
        .map(|n| {
            if unicode {
                let mut b: Vec<u8> = n.encode_utf16().flat_map(|u| u.to_le_bytes()).collect();
                b.extend_from_slice(&[0, 0]);
                b
            } else {
                let mut b = n.as_bytes().to_vec();
                b.push(0);
                b
            }
        })
        .collect();
    let data_at = names_at + names[0].len() + names[1].len();
    let mut out = b"BND4".to_vec();
    out.extend_from_slice(&[if be { 0x01 } else { 0x80 }, 0x74, 0, 0]);
    push32(&mut out, 2, be);
    push64(&mut out, start as u64, be);
    out.extend_from_slice(b"07D7R6\0\0");
    push64(&mut out, stride as u64, be);
    push64(&mut out, data_at as u64, be);
    push32(&mut out, unicode as u32, be);
    out.extend_from_slice(&[if extended { 0x10 } else { 0x04 }, 0, 0, 0]);
    if extended {
        push64(&mut out, 0, be);
    }
    assert_eq!(out.len(), start);
    let datas: [&[u8]; 2] = [&[1, 2, 3], &[4, 5, 6, 7, 8]];
    let mut name_at = names_at;
    let mut at = data_at;
    for i in 0..2 {
        out.extend_from_slice(&[0x40 + i as u8, 0, 0, 0]);
        push32(&mut out, 0xFFFF_FFFF, be);
        if extended {
            push64(&mut out, 0, be);
            push64(&mut out, datas[i].len() as u64, be);
        } else {
            push64(&mut out, datas[i].len() as u64, be);
        }
        push64(&mut out, at as u64, be);
        push32(&mut out, (100 + i) as u32, be);
        push32(&mut out, name_at as u32, be);
        if extended {
            push64(&mut out, 0, be);
        }
        name_at += names[i].len();
        at += datas[i].len();
    }
    out.extend_from_slice(&names[0]);
    out.extend_from_slice(&names[1]);
    out.extend_from_slice(datas[0]);
    out.extend_from_slice(datas[1]);
    out
}

#[test]
fn bnd4_read_two_entries() {
    for (unicode, extended, be) in [
        (false, false, false),
        (true, false, false),
        (false, true, false),
        (true, true, true),
        (false, false, true),
    ] {
        let b = Bnd4::read(&bnd4_file(unicode, extended, be)).unwrap();
        assert_eq!(b.version, "07D7R6");
        assert_eq!(b.flags, 0x74);
        assert_eq!(b.big_endian, be);
        assert_eq!(b.bit_big_endian, !be);
        assert_eq!(b.unicode, unicode);
        assert_eq!(b.extended, if extended { 0x10 } else { 0x04 });
        assert_eq!(b.entries.len(), 2);
        assert_eq!(b.entries[0].name, "one.fsb");
        assert_eq!(b.entries[1].name, "zwei.fsb");
        assert_eq!(b.entries[0].flags, 0x40);
        assert_eq!(b.entries[1].id, 101);
        assert_eq!(b.entries[0].data, vec![1, 2, 3]);
        assert_eq!(b.entries[1].data, vec![4, 5, 6, 7, 8]);
        if extended {
            assert_eq!(b.entries[1].compressed_size, 0);
            assert_eq!(b.entries[1].uncompressed_size, 5);
        } else {
            assert_eq!(b.entries[1].compressed_size, 5);
            assert_eq!(b.entries[1].uncompressed_size, 5);
        }
    }
}

#[test]
fn bnd4_read_errors() {
    assert_eq!(Bnd4::read(b"BN").err(), Some(Error::Truncated));
    assert_eq!(Bnd4::read(b"BND3aaaa").err(), Some(Error::BadMagic));
    let good = bnd4_file(false, false, false);
    assert_eq!(Bnd4::read(&good[..51]).err(), Some(Error::Truncated));
    assert_eq!(Bnd4::read(&good[..60]).err(), Some(Error::Truncated));
    assert_eq!(Bnd4::read(&good[..good.len() - 1]).err(), Some(Error::Truncated));
    let mut negative = good.clone();
    negative[8..12].copy_from_slice(&0xFFFF_FFFFu32.to_le_bytes());
    assert_eq!(Bnd4::read(&negative).err(), Some(Error::TooLarge));
    let wide = bnd4_file(false, true, false);
    assert_eq!(Bnd4::read(&wide[..59]).err(), Some(Error::Truncated));
    // a name without its end
    let mut open = good.clone();
    let len = open.len();
    for b in open[52 + 64..len].iter_mut() {
        *b = b'x';
    }
    assert_eq!(Bnd4::read(&open).err(), Some(Error::Truncated));
}

#[test]
fn bnd4_entries_by_name() {
    let mut b = Bnd4::read(&bnd4_file(false, false, false)).unwrap();
    assert_eq!(b.get_entry("zwei.fsb").unwrap().id, 101);
    assert_eq!(b.get_entry("one.fsb").unwrap().id, 100);
    assert!(b.get_entry("ONE.FSB").is_none());
    assert!(b.get_entry("").is_none());
    assert_eq!(b.find_entry("zwei.fsb"), Some(1));
    b.get_entry_mut("one.fsb").unwrap().data = vec![9; 4];
    assert_eq!(b.entries[0].data, vec![9; 4]);
    assert_eq!(b.entries[1].data, vec![4, 5, 6, 7, 8]);
    assert!(b.get_entry_mut("none").is_none());
    // the first of two entries with one name is found
    b.entries[1].name = "one.fsb".to_string();
    assert_eq!(b.get_entry("one.fsb").unwrap().id, 100);
}

fn bundle(unicode: bool, extended: u8) -> Bnd4 {
    Bnd4 {
        version: "07D7R6".to_string(),
        flags: 0x74,
        big_endian: false,
        bit_big_endian: true,
        unicode,
        extended,
        entries: vec![
            Bnd4Entry {
                flags: 0x40,
                id: 7,
                name: "a".to_string(),
                uncompressed_size: 3,
                compressed_size: 3,
                data: vec![1, 2, 3],
            },
            Bnd4Entry {
                flags: 0x41,
                id: -2,
                name: "bc".to_string(),
                uncompressed_size: 2,
                compressed_size: 2,
                data: vec![4, 5],
            },
        ],
    }
}

#[test]
fn bnd4_write_lays_out_by_its_plan() {
    let out = bundle(false, 0x04).write().unwrap();
    // the header: 52 bytes
    assert_eq!(&out[0..4], b"BND4");
    assert_eq!(&out[4..8], &[0x80, 0x74, 0, 0]);
    assert_eq!(&out[8..12], &2u32.to_le_bytes());
    assert_eq!(&out[12..20], &52u64.to_le_bytes());
    assert_eq!(&out[20..28], b"07D7R6\0\0");
    assert_eq!(&out[28..36], &24u64.to_le_bytes());
    // names are planned behind 2 entries of 24 bytes: 100 and 102; the data starts at 112
    assert_eq!(&out[36..44], &112u64.to_le_bytes());
    assert_eq!(&out[44..48], &0u32.to_le_bytes());
    assert_eq!(&out[48..52], &[0x04, 0, 0, 0]);
    // the first entry of the table: 32 bytes
    assert_eq!(&out[52..56], &[0x40, 0, 0, 0]);
    assert_eq!(&out[56..60], &[0xFF; 4]);
    assert_eq!(&out[60..68], &3u64.to_le_bytes());
    assert_eq!(&out[68..76], &112u64.to_le_bytes());
    assert_eq!(&out[76..80], &7u32.to_le_bytes());
    assert_eq!(&out[80..84], &100u32.to_le_bytes());
    // the second entry: its data stands at the next multiple of 16
    assert_eq!(&out[84 + 16..84 + 24], &128u64.to_le_bytes());
    assert_eq!(&out[84 + 24..84 + 28], &(-2i32).to_le_bytes());
    // the first entry's data is written at 112, over what stands there
    assert_eq!(&out[112..115], &[1, 2, 3]);
    // the names stand behind the table, the second one where the data did not reach
    assert_eq!(&out[116..121], &[b'a', 0, b'b', b'c', 0]);
    assert_eq!(&out[128..130], &[4, 5]);
    assert_eq!(out.len(), 130);
}

#[test]
fn bnd4_write_of_an_empty_bundle() {
    let mut b = bundle(true, 0x10);
    b.entries.clear();
    let out = b.write().unwrap();
    assert_eq!(out.len(), 64);
    assert_eq!(&out[12..20], &60u64.to_le_bytes());
    assert_eq!(&out[28..36], &36u64.to_le_bytes());
    assert_eq!(&out[36..44], &64u64.to_le_bytes());
    assert_eq!(&out[44..48], &1u32.to_le_bytes());
    assert_eq!(&out[60..64], &[0; 4]);
}

#[test]
fn bnd4_write_with_wide_names() {
    let out = bundle(true, 0x10).write().unwrap();
    // names are planned behind 2 entries of 36 bytes, 4 and 6 bytes: the data starts at 144
    assert_eq!(&out[36..44], &144u64.to_le_bytes());
    // the table has 2 entries of 48 bytes; the names stand behind it, in UTF-16
    let names = 60 + 96;
    assert_eq!(&out[names..names + 4], &[b'a', 0, 0, 0]);
    assert_eq!(&out[60 + 16..60 + 24], &3u64.to_le_bytes());
    assert_eq!(&out[60 + 24..60 + 32], &144u64.to_le_bytes());
    assert_eq!(&out[60 + 36..60 + 40], &132u32.to_le_bytes());
    // the first entry's data is written at 144, over the table's second entry
    assert_eq!(&out[60 + 48 + 24..60 + 48 + 32], &160u64.to_le_bytes());
    assert_eq!(&out[60 + 48 + 36..60 + 48 + 40], &[1, 2, 3, 0]);
    // the second entry's data is written at 160, over its own name, and ends the file
    assert_eq!(out.len(), 162);
    assert_eq!(&out[160..162], &[4, 5]);
}

#[test]
fn dcx_frame_puts_the_header_before_the_payload() {
    let out = Dcx::frame(1000, &[5, 6], DcxType::Dflt).unwrap();
    assert_eq!(out.len(), 78);
    assert_eq!(&out[0..4], b"DCX\0");
    assert_eq!(&out[28..32], &1000u32.to_be_bytes());
    assert_eq!(&out[32..36], &2u32.to_be_bytes());
    assert_eq!(&out[40..44], b"DFLT");
    assert_eq!(&out[76..], &[5, 6]);
    assert_eq!(
        Dcx::frame(3, &[9, 8, 7], DcxType::Uncompressed),
        Dcx::compress(&[9, 8, 7], DcxType::Uncompressed)
    );
}
