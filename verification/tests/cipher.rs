use cums_sekiro::crypto::{
    decrypt_aes_block, decrypt_aes_data, decrypt_aes_range, encrypt_aes_block, encrypt_aes_data,
    encrypt_aes_range, fsbdec_byte, fsbenc_byte, fsbext_decrypt, fsbext_encrypt, EncodeTable,
    FSB_KEY,
};

fn fips_key() -> [u8; 32] {
    let mut key = [0u8; 32];
    for (i, k) in key.iter_mut().enumerate() {
        *k = i as u8;
    }
    key
}

const FIPS_PLAIN: [u8; 16] = [
    0x00, 0x11, 0x22, 0x33, 0x44, 0x55, 0x66, 0x77, 0x88, 0x99, 0xaa, 0xbb, 0xcc, 0xdd, 0xee, 0xff,
];

const FIPS_CIPHER: [u8; 16] = [
    0x8e, 0xa2, 0xb7, 0xca, 0x51, 0x67, 0x45, 0xbf, 0xea, 0xfc, 0x49, 0x90, 0x4b, 0x49, 0x60, 0x89,
];

#[test]
fn byte_cipher_encode_undoes_decode() {
    for x in 0u16..256 {
        let x = x as u8;
        assert_eq!(fsbenc_byte(fsbdec_byte(x)), x);
        assert_eq!(fsbdec_byte(fsbenc_byte(x)), x);
    }
}

#[test]
fn byte_cipher_reverses_bits() {
    assert_eq!(fsbdec_byte(0x01), 0x80);
    assert_eq!(fsbdec_byte(0x80), 0x01);
    assert_eq!(fsbdec_byte(0x12), 0x48);
    assert_eq!(fsbdec_byte(0xF0), 0x0F);
    assert_eq!(fsbdec_byte(0x00), 0x00);
    assert_eq!(fsbdec_byte(0xFF), 0xFF);
    for x in 0u16..256 {
        assert_eq!(fsbdec_byte(x as u8), (x as u8).reverse_bits());
    }
}

#[test]
fn encode_table_is_the_inverse() {
    let table = EncodeTable::new();
    for x in 0u16..256 {
        assert_eq!(table.encode(fsbdec_byte(x as u8)), x as u8);
    }
}

#[test]
fn fsb_key_is_the_known_key() {
    assert_eq!(&FSB_KEY, b"G0KTrWjS9syqF7vVD6RaVXlFD91gMgkC");
}

#[test]
fn fsbext_decrypt_permutes_then_xors() {
    let mut data = vec![0x00u8, 0x01, 0xFF];
    fsbext_decrypt(&mut data, &[0x47, 0x30]);
    assert_eq!(data, vec![0x00 ^ 0x47, 0x80 ^ 0x30, 0xFF ^ 0x47]);
}

#[test]
fn fsbext_encrypt_xors_then_permutes() {
    let mut data = vec![0x47u8, 0x31];
    fsbext_encrypt(&mut data, &[0x47, 0x30]);
    assert_eq!(data, vec![0x00, 0x80]);
}

#[test]
fn fsbext_round_trip_with_repeating_key() {
    let plain: Vec<u8> = (0..200u16).map(|i| (i * 7 % 256) as u8).collect();
    let mut data = plain.clone();
    fsbext_encrypt(&mut data, &FSB_KEY);
    assert_ne!(data, plain);
    fsbext_decrypt(&mut data, &FSB_KEY);
    assert_eq!(data, plain);
    fsbext_decrypt(&mut data, &FSB_KEY);
    fsbext_encrypt(&mut data, &FSB_KEY);
    assert_eq!(data, plain);
}

#[test]
fn fsbext_on_empty_data() {
    let mut data: Vec<u8> = Vec::new();
    fsbext_encrypt(&mut data, &FSB_KEY);
    assert!(data.is_empty());
}

#[test]
fn aes_encrypts_the_known_block() {
    let mut data = FIPS_PLAIN.to_vec();
    encrypt_aes_block(&mut data, &fips_key());
    assert_eq!(data, FIPS_CIPHER.to_vec());
}

#[test]
fn aes_decrypts_the_known_block() {
    let mut data = FIPS_CIPHER.to_vec();
    decrypt_aes_block(&mut data, &fips_key());
    assert_eq!(data, FIPS_PLAIN.to_vec());
}

#[test]
fn aes_leaves_the_incomplete_block() {
    let mut data = FIPS_PLAIN.to_vec();
    data.extend_from_slice(&FIPS_PLAIN);
    data.extend_from_slice(&[1, 2, 3, 4, 5]);
    encrypt_aes_data(&mut data, &fips_key());
    assert_eq!(&data[0..16], &FIPS_CIPHER);
    assert_eq!(&data[16..32], &FIPS_CIPHER);
    assert_eq!(&data[32..], &[1, 2, 3, 4, 5]);
    decrypt_aes_data(&mut data, &fips_key());
    assert_eq!(&data[0..16], &FIPS_PLAIN);
    assert_eq!(&data[16..32], &FIPS_PLAIN);
    assert_eq!(&data[32..], &[1, 2, 3, 4, 5]);
}

#[test]
fn aes_short_data_is_unchanged() {
    let mut data = vec![9u8; 15];
    encrypt_aes_block(&mut data, &FSB_KEY);
    assert_eq!(data, vec![9u8; 15]);
}

#[test]
fn aes_range_touches_only_the_range() {
    let mut data = vec![0xAAu8; 3];
    data.extend_from_slice(&FIPS_PLAIN);
    data.extend_from_slice(&[0xBB; 7]);
    encrypt_aes_range(&mut data, 3, 3 + 16 + 4, &fips_key());
    assert_eq!(&data[0..3], &[0xAA; 3]);
    assert_eq!(&data[3..19], &FIPS_CIPHER);
    assert_eq!(&data[19..], &[0xBB; 7]);
    decrypt_aes_range(&mut data, 3, 19, &fips_key());
    assert_eq!(&data[3..19], &FIPS_PLAIN);
}
