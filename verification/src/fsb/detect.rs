//! Finding the version and the cipher of a file, and taking the cipher off
//! and putting it on.

use crate::bytes::push_range;
use crate::crypto::{
    aes256_ecb_decrypt, aes256_ecb_encrypt, blocks_invert, decrypt_aes_block, decrypt_aes_range,
    encrypt_aes_range, fsbext_decrypt, fsbext_encrypt, lemma_ecb_inverse, lemma_fsbext_inverse,
    on_range, spec_fsbext_decrypt, spec_fsbext_encrypt, FSB_KEY,
};
use crate::error::Error;
use crate::fsb::{Encryption, Version};
use vstd::prelude::*;

verus! {

/// The four bytes `FSB4`.
pub open spec fn fsb4_magic() -> Seq<u8> {
    seq![0x46u8, 0x53u8, 0x42u8, 0x34u8]
}

/// The four bytes `FSB5`.
pub open spec fn fsb5_magic() -> Seq<u8> {
    seq![0x46u8, 0x53u8, 0x42u8, 0x35u8]
}

/// Whether `data` starts with the four bytes `magic`.
pub open spec fn starts_with(data: Seq<u8>, magic: Seq<u8>) -> bool {
    data.len() >= 4 && data.subrange(0, 4) == magic
}

/// The version of a file and the cipher that it is under. The probes run in
/// this order: a magic in the clear; the version 5 magic under the block
/// cipher, which needs the 32 bytes that the cipher covers in a header; the
/// version 5 magic under the byte cipher.
pub open spec fn spec_detect(data: Seq<u8>) -> Result<(Version, Encryption), Error> {
    if data.len() < 8 {
        Err(Error::TooSmall)
    } else if starts_with(data, fsb4_magic()) {
        Ok((Version::Fsb4, Encryption::Plain))
    } else if starts_with(data, fsb5_magic()) {
        Ok((Version::Fsb5, Encryption::Plain))
    } else if data.len() >= 32 && starts_with(
        aes256_ecb_decrypt(FSB_KEY@, data.subrange(0, 32)),
        fsb5_magic(),
    ) {
        Ok((Version::Fsb5, Encryption::Aes))
    } else if spec_fsbext_decrypt(data.subrange(0, 4), FSB_KEY@) == fsb5_magic() {
        Ok((Version::Fsb5, Encryption::Fsbext))
    } else {
        Err(Error::UnknownFormat)
    }
}

/// The file with its header in the clear: under the block cipher the first
/// 32 bytes are decrypted, under the byte cipher the whole buffer.
pub open spec fn spec_decrypt_header(data: Seq<u8>, enc: Encryption) -> Seq<u8> {
    match enc {
        Encryption::Plain => data,
        Encryption::Aes => on_range(
            data,
            0,
            32,
            aes256_ecb_decrypt(FSB_KEY@, data.subrange(0, 32)),
        ),
        Encryption::Fsbext => spec_fsbext_decrypt(data, FSB_KEY@),
    }
}

/// The file with the data region from `base` up to `end` in the clear:
/// only the block cipher leaves that for a second step.
pub open spec fn spec_decrypt_data(data: Seq<u8>, enc: Encryption, base: int, end: int) -> Seq<u8> {
    match enc {
        Encryption::Aes => on_range(
            data,
            base,
            end,
            aes256_ecb_decrypt(FSB_KEY@, data.subrange(base, end)),
        ),
        _ => data,
    }
}

/// A serialized version 5 file under the cipher `enc`, its data region
/// running from `base` up to `end`.
pub open spec fn spec_encrypt(data: Seq<u8>, enc: Encryption, base: int, end: int) -> Seq<u8> {
    match enc {
        Encryption::Plain => data,
        Encryption::Aes => {
            let head = on_range(data, 0, 32, aes256_ecb_encrypt(FSB_KEY@, data.subrange(0, 32)));
            on_range(head, base, end, aes256_ecb_encrypt(FSB_KEY@, head.subrange(base, end)))
        },
        Encryption::Fsbext => spec_fsbext_encrypt(data, FSB_KEY@),
    }
}

/// Whether a file that is put under the cipher `enc` is the same file
/// again after the two steps of decryption.
pub open spec fn decrypts_back(plain: Seq<u8>, enc: Encryption, base: int, end: int) -> bool {
    spec_decrypt_data(
        spec_decrypt_header(spec_encrypt(plain, enc, base, end), enc),
        enc,
        base,
        end,
    ) == plain
}

/// A file in the clear and a file under the byte cipher are the same file
/// again after decryption; a file under the block cipher is, where
/// decryption undoes the encryption of its blocks.
pub proof fn lemma_decrypts_back(plain: Seq<u8>, enc: Encryption, base: int, end: int)
    requires
        enc == Encryption::Aes ==> 32 <= base <= end <= plain.len() && blocks_invert(
            FSB_KEY@,
            plain.subrange(0, 32),
        ) && blocks_invert(FSB_KEY@, plain.subrange(base, end)),
    ensures
        decrypts_back(plain, enc, base, end),
        spec_encrypt(plain, enc, base, end).len() == plain.len(),
{
    let key = FSB_KEY@;
    match enc {
        Encryption::Plain => {},
        Encryption::Fsbext => {
            lemma_fsbext_inverse(plain, key);
        },
        Encryption::Aes => {
            let head_part = plain.subrange(0, 32);
            let head = on_range(plain, 0, 32, aes256_ecb_encrypt(key, head_part));
            let data_part = head.subrange(base, end);
            let bytes = on_range(head, base, end, aes256_ecb_encrypt(key, data_part));
            assert(data_part =~= plain.subrange(base, end));
            lemma_ecb_inverse(key, head_part);
            lemma_ecb_inverse(key, data_part);
            assert(bytes.subrange(0, 32) =~= aes256_ecb_encrypt(key, head_part));
            let d1 = on_range(bytes, 0, 32, aes256_ecb_decrypt(key, bytes.subrange(0, 32)));
            assert(d1.subrange(base, end) =~= aes256_ecb_encrypt(key, data_part));
            assert(on_range(d1, base, end, aes256_ecb_decrypt(key, d1.subrange(base, end)))
                =~= plain);
        },
    }
}

/// Whether `data` holds the four bytes `m0` to `m3` at its start.
fn magic_is(data: &[u8], m0: u8, m1: u8, m2: u8, m3: u8) -> (r: bool)
    ensures
        r == starts_with(data@, seq![m0, m1, m2, m3]),
{
    if data.len() < 4 {
        return false;
    }
    let r = data[0] == m0 && data[1] == m1 && data[2] == m2 && data[3] == m3;
    proof {
        let head = data@.subrange(0, 4);
        let magic = seq![m0, m1, m2, m3];
        if r {
            assert(head =~= magic);
        } else {
            assert(head[0] == data@[0] && head[1] == data@[1] && head[2] == data@[2] && head[3]
                == data@[3]);
            assert(magic[0] == m0 && magic[1] == m1 && magic[2] == m2 && magic[3] == m3);
        }
    }
    r
}

/// Finds the version of a file and the cipher that it is under.
pub fn detect(data: &[u8]) -> (r: Result<(Version, Encryption), Error>)
    ensures
        r == spec_detect(data@),
{
    if data.len() < 8 {
        return Err(Error::TooSmall);
    }
    if magic_is(data, 0x46, 0x53, 0x42, 0x34) {
        return Ok((Version::Fsb4, Encryption::Plain));
    }
    if magic_is(data, 0x46, 0x53, 0x42, 0x35) {
        return Ok((Version::Fsb5, Encryption::Plain));
    }
    if data.len() >= 32 {
        let mut probe: Vec<u8> = Vec::new();
        push_range(&mut probe, data, 0, 32);
        assert(probe@ =~= data@.subrange(0, 32));
        decrypt_aes_block(probe.as_mut_slice(), &FSB_KEY);
        if magic_is(probe.as_slice(), 0x46, 0x53, 0x42, 0x35) {
            return Ok((Version::Fsb5, Encryption::Aes));
        }
    }
    let mut probe: Vec<u8> = Vec::new();
    push_range(&mut probe, data, 0, 4);
    assert(probe@ =~= data@.subrange(0, 4));
    fsbext_decrypt(probe.as_mut_slice(), FSB_KEY.as_slice());
    let hit = magic_is(probe.as_slice(), 0x46, 0x53, 0x42, 0x35);
    assert(probe@.subrange(0, 4) =~= probe@);
    if hit {
        Ok((Version::Fsb5, Encryption::Fsbext))
    } else {
        Err(Error::UnknownFormat)
    }
}

/// Puts the header of the file in the clear, in place.
pub fn decrypt_header(data: &mut Vec<u8>, enc: Encryption)
    requires
        enc == Encryption::Aes ==> old(data)@.len() >= 32,
    ensures
        final(data)@ == spec_decrypt_header(old(data)@, enc),
        final(data)@.len() == old(data)@.len(),
{
    match enc {
        Encryption::Plain => {},
        Encryption::Aes => {
            decrypt_aes_range(data.as_mut_slice(), 0, 32, &FSB_KEY);
        },
        Encryption::Fsbext => {
            fsbext_decrypt(data.as_mut_slice(), FSB_KEY.as_slice());
        },
    }
}

/// Puts the data region from `base` up to `end` in the clear, in place.
pub fn decrypt_data(data: &mut Vec<u8>, enc: Encryption, base: usize, end: usize)
    requires
        enc == Encryption::Aes ==> base <= end <= old(data)@.len(),
    ensures
        final(data)@ == spec_decrypt_data(old(data)@, enc, base as int, end as int),
        final(data)@.len() == old(data)@.len(),
{
    match enc {
        Encryption::Aes => {
            decrypt_aes_range(data.as_mut_slice(), base, end, &FSB_KEY);
        },
        _ => {},
    }
}

/// Puts a serialized version 5 file under the cipher `enc`, in place.
pub fn encrypt(data: &mut Vec<u8>, enc: Encryption, base: usize, end: usize)
    requires
        enc == Encryption::Aes ==> 32 <= base <= end <= old(data)@.len(),
    ensures
        final(data)@ == spec_encrypt(old(data)@, enc, base as int, end as int),
        final(data)@.len() == old(data)@.len(),
        decrypts_back(old(data)@, enc, base as int, end as int),
{
    match enc {
        Encryption::Plain => {},
        Encryption::Aes => {
            encrypt_aes_range(data.as_mut_slice(), 0, 32, &FSB_KEY);
            let ghost head = data@;
            encrypt_aes_range(data.as_mut_slice(), base, end, &FSB_KEY);
            assert(head.subrange(base as int, end as int) =~= old(data)@.subrange(
                base as int,
                end as int,
            ));
        },
        Encryption::Fsbext => {
            fsbext_encrypt(data.as_mut_slice(), FSB_KEY.as_slice());
        },
    }
    proof {
        lemma_decrypts_back(old(data)@, enc, base as int, end as int);
    }
}

} // verus!
