//! The two ciphers that sound banks are stored under: AES in ECB mode, and
//! a cipher that reverses the bits of each byte and XORs it with a key.

use crate::bytes::push_zeros;
use aes::cipher::generic_array::GenericArray;
use aes::cipher::{BlockDecrypt, BlockEncrypt, KeyInit};
use vstd::prelude::*;

verus! {

/// The 256-bit key under which sound banks are encrypted.
pub const FSB_KEY: [u8; 32] = [
    0x47, 0x30, 0x4b, 0x54, 0x72, 0x57, 0x6a, 0x53, 0x39, 0x73, 0x79, 0x71, 0x46, 0x37, 0x76, 0x56,
    0x44, 0x36, 0x52, 0x61, 0x56, 0x58, 0x6c, 0x46, 0x44, 0x39, 0x31, 0x67, 0x4d, 0x67, 0x6b, 0x43,
];

/// What AES-256 decryption under `key` makes of the 16-byte `block`.
pub uninterp spec fn aes256_decrypt(key: Seq<u8>, block: Seq<u8>) -> Seq<u8>;

/// What AES-256 encryption under `key` makes of the 16-byte `block`.
pub uninterp spec fn aes256_encrypt(key: Seq<u8>, block: Seq<u8>) -> Seq<u8>;

/// What AES-128 decryption under the 16-byte `key` makes of the 16-byte
/// `block`.
pub uninterp spec fn aes128_decrypt(key: Seq<u8>, block: Seq<u8>) -> Seq<u8>;

/// `aes::Aes256::decrypt_block` under a cipher made by `Aes256::new` from
/// `key`. The result is the block that the cipher maps `block` to; it has 16
/// bytes, and encrypting it under the same key gives `block` back.
#[verifier::external_body]
fn aes256_decrypt_block(key: &[u8], block: &[u8]) -> (out: Vec<u8>)
    requires
        key@.len() == 32,
        block@.len() == 16,
    ensures
        out@ == aes256_decrypt(key@, block@),
        out@.len() == 16,
        aes256_encrypt(key@, out@) == block@,
{
    let cipher = aes::Aes256::new(GenericArray::from_slice(key));
    let mut b = GenericArray::clone_from_slice(block);
    cipher.decrypt_block(&mut b);
    b.to_vec()
}

/// `aes::Aes256::encrypt_block` under a cipher made by `Aes256::new` from
/// `key`. The result is the block that the cipher maps `block` to; it has 16
/// bytes, and decrypting it under the same key gives `block` back.
#[verifier::external_body]
fn aes256_encrypt_block(key: &[u8], block: &[u8]) -> (out: Vec<u8>)
    requires
        key@.len() == 32,
        block@.len() == 16,
    ensures
        out@ == aes256_encrypt(key@, block@),
        out@.len() == 16,
        aes256_decrypt(key@, out@) == block@,
{
    let cipher = aes::Aes256::new(GenericArray::from_slice(key));
    let mut b = GenericArray::clone_from_slice(block);
    cipher.encrypt_block(&mut b);
    b.to_vec()
}

/// `aes::Aes128::decrypt_block` under a cipher made by `Aes128::new` from
/// `key`. The result is the block that the cipher maps `block` to; it has 16
/// bytes.
#[verifier::external_body]
fn aes128_decrypt_block(key: &[u8], block: &[u8]) -> (out: Vec<u8>)
    requires
        key@.len() == 16,
        block@.len() == 16,
    ensures
        out@ == aes128_decrypt(key@, block@),
        out@.len() == 16,
{
    let cipher = aes::Aes128::new(GenericArray::from_slice(key));
    let mut b = GenericArray::clone_from_slice(block);
    cipher.decrypt_block(&mut b);
    b.to_vec()
}

/// What is done to a block.
#[derive(Debug, Clone, Copy, PartialEq, Eq, Structural)]
pub enum BlockOp {
    Decrypt256,
    Encrypt256,
    Decrypt128,
}

impl BlockOp {
    /// The length of the key that the operation takes.
    pub open spec fn key_len(self) -> int {
        match self {
            BlockOp::Decrypt128 => 16,
            _ => 32,
        }
    }

    /// What the operation makes of one block.
    pub open spec fn on_block(self, key: Seq<u8>, block: Seq<u8>) -> Seq<u8> {
        match self {
            BlockOp::Decrypt256 => aes256_decrypt(key, block),
            BlockOp::Encrypt256 => aes256_encrypt(key, block),
            BlockOp::Decrypt128 => aes128_decrypt(key, block),
        }
    }

    /// Where the operation encrypts: decryption undoes it on this block,
    /// and the encrypted block has 16 bytes.
    pub open spec fn undone(self, key: Seq<u8>, block: Seq<u8>) -> bool {
        self == BlockOp::Encrypt256 ==> aes256_encrypt(key, block).len() == 16 && aes256_decrypt(
            key,
            aes256_encrypt(key, block),
        ) == block
    }

    /// Does the operation to one block.
    fn apply(self, key: &[u8], block: &[u8]) -> (out: Vec<u8>)
        requires
            key@.len() == self.key_len(),
            block@.len() == 16,
        ensures
            out@ == self.on_block(key@, block@),
            out@.len() == 16,
            self.undone(key@, block@),
    {
        match self {
            BlockOp::Decrypt256 => aes256_decrypt_block(key, block),
            BlockOp::Encrypt256 => aes256_encrypt_block(key, block),
            BlockOp::Decrypt128 => aes128_decrypt_block(key, block),
        }
    }
}

/// The block of `data` that holds index `j`.
pub open spec fn block_of(data: Seq<u8>, j: int) -> Seq<u8> {
    data.subrange(j / 16 * 16, j / 16 * 16 + 16)
}

/// `data` with `op` done to each complete 16-byte block on its own (ECB);
/// the bytes behind the last complete block stay as they are.
pub open spec fn spec_ecb(op: BlockOp, key: Seq<u8>, data: Seq<u8>) -> Seq<u8> {
    Seq::new(
        data.len(),
        |j: int|
            if j < data.len() / 16 * 16 {
                op.on_block(key, block_of(data, j))[j % 16]
            } else {
                data[j]
            },
    )
}

/// `data` with each complete 16-byte block decrypted with AES-256.
pub open spec fn aes256_ecb_decrypt(key: Seq<u8>, data: Seq<u8>) -> Seq<u8> {
    spec_ecb(BlockOp::Decrypt256, key, data)
}

/// `data` with each complete 16-byte block encrypted with AES-256.
pub open spec fn aes256_ecb_encrypt(key: Seq<u8>, data: Seq<u8>) -> Seq<u8> {
    spec_ecb(BlockOp::Encrypt256, key, data)
}

/// `data` with each complete 16-byte block decrypted with AES-128.
pub open spec fn aes128_ecb_decrypt(key: Seq<u8>, data: Seq<u8>) -> Seq<u8> {
    spec_ecb(BlockOp::Decrypt128, key, data)
}

/// `data` with the part from `start` up to `end` replaced by `part`.
pub open spec fn on_range(data: Seq<u8>, start: int, end: int, part: Seq<u8>) -> Seq<u8> {
    data.subrange(0, start) + part + data.subrange(end, data.len() as int)
}

/// Whether decryption undoes the encryption of each complete block of
/// `data` under `key`, an encrypted block having 16 bytes.
pub open spec fn blocks_invert(key: Seq<u8>, data: Seq<u8>) -> bool {
    forall|q: int|
        0 <= q < data.len() / 16 ==> (#[trigger] aes256_encrypt(
            key,
            data.subrange(16 * q, 16 * q + 16),
        )).len() == 16 && aes256_decrypt(
            key,
            aes256_encrypt(key, data.subrange(16 * q, 16 * q + 16)),
        ) == data.subrange(16 * q, 16 * q + 16)
}

/// Where decryption undoes the encryption of each block, decrypting a
/// buffer block by block undoes encrypting it block by block.
pub proof fn lemma_ecb_inverse(key: Seq<u8>, data: Seq<u8>)
    requires
        blocks_invert(key, data),
    ensures
        aes256_ecb_encrypt(key, data).len() == data.len(),
        aes256_ecb_decrypt(key, aes256_ecb_encrypt(key, data)) == data,
{
    let enc = aes256_ecb_encrypt(key, data);
    let dec = aes256_ecb_decrypt(key, enc);
    assert forall|j: int| 0 <= j < data.len() implies dec[j] == data[j] by {
        if j < data.len() / 16 * 16 {
            let q = j / 16;
            let block = data.subrange(16 * q, 16 * q + 16);
            assert(block == block_of(data, j));
            let out = aes256_encrypt(key, block);
            assert(out.len() == 16);
            assert(block_of(enc, j) =~= out) by {
                assert forall|m: int| 0 <= m < 16 implies block_of(enc, j)[m] == out[m] by {
                    let t = q * 16 + m;
                    assert(t / 16 == q && t % 16 == m);
                    assert(block_of(data, t) == block);
                    assert(enc[t] == aes256_encrypt(key, block_of(data, t))[t % 16]);
                }
            }
            assert(block[j % 16] == data[j]);
        }
    }
    assert(dec =~= data);
}

/// Overwrites the 16 bytes of `data` at `at` with `block`.
fn put_block(data: &mut [u8], at: usize, block: &Vec<u8>)
    requires
        block@.len() == 16,
        at + 16 <= old(data)@.len(),
    ensures
        final(data)@.len() == old(data)@.len(),
        forall|j: int| 0 <= j < at ==> final(data)@[j] == old(data)@[j],
        forall|j: int| at <= j < at + 16 ==> final(data)@[j] == block@[j - at],
        forall|j: int| at + 16 <= j < old(data)@.len() ==> final(data)@[j] == old(data)@[j],
{
    let mut k: usize = 0;
    while k < 16
        invariant
            k <= 16,
            at + 16 <= data.len(),
            data@.len() == old(data)@.len(),
            block@.len() == 16,
            forall|j: int| 0 <= j < at ==> data@[j] == old(data)@[j],
            forall|j: int| at <= j < at + k ==> data@[j] == block@[j - at],
            forall|j: int| at + k <= j < data@.len() ==> data@[j] == old(data)@[j],
        decreases 16 - k,
    {
        data[at + k] = block[k];
        k = k + 1;
    }
}

/// Does `op` in place to the complete 16-byte blocks of
/// `data[start..end]`. Where `op` encrypts, each block that was encrypted
/// is found to be undone by decryption.
pub fn ecb_range(data: &mut [u8], start: usize, end: usize, op: BlockOp, key: &[u8])
    requires
        start <= end <= old(data)@.len(),
        key@.len() == op.key_len(),
    ensures
        final(data)@ == on_range(
            old(data)@,
            start as int,
            end as int,
            spec_ecb(op, key@, old(data)@.subrange(start as int, end as int)),
        ),
        op == BlockOp::Encrypt256 ==> blocks_invert(
            key@,
            old(data)@.subrange(start as int, end as int),
        ),
{
    let block_count: usize = (end - start) / 16;
    let ghost part = data@.subrange(start as int, end as int);
    let ghost want = on_range(data@, start as int, end as int, spec_ecb(op, key@, part));
    let mut i: usize = 0;
    while i < block_count
        invariant
            start <= end <= data.len(),
            key@.len() == op.key_len(),
            data@.len() == old(data)@.len(),
            block_count == (end - start) / 16,
            i <= block_count,
            part == old(data)@.subrange(start as int, end as int),
            want == on_range(old(data)@, start as int, end as int, spec_ecb(op, key@, part)),
            forall|j: int| 0 <= j < start + 16 * i ==> data@[j] == want[j],
            forall|j: int| start + 16 * i <= j < data@.len() ==> data@[j] == old(data)@[j],
            op == BlockOp::Encrypt256 ==> forall|q: int|
                0 <= q < i ==> (#[trigger] aes256_encrypt(
                    key@,
                    part.subrange(16 * q, 16 * q + 16),
                )).len() == 16 && aes256_decrypt(
                    key@,
                    aes256_encrypt(key@, part.subrange(16 * q, 16 * q + 16)),
                ) == part.subrange(16 * q, 16 * q + 16),
        decreases block_count - i,
    {
        let p: usize = start + 16 * i;
        let ghost before = data@;
        let out = op.apply(key, vstd::slice::slice_subrange(&*data, p, p + 16));
        assert(before.subrange(p as int, p + 16) =~= block_of(part, 16 * i)) by {
            assert((16 * i) / 16 * 16 == 16 * i);
        }
        assert(block_of(part, 16 * i) == part.subrange(16 * i, 16 * i + 16)) by {
            assert((16 * i) / 16 * 16 == 16 * i);
        }
        put_block(data, p, &out);
        assert forall|j: int| 0 <= j < start + 16 * (i + 1) implies data@[j] == want[j] by {
            if j >= p {
                let q = j - start;
                assert(q / 16 == i && q % 16 == j - p);
                assert(block_of(part, q) == block_of(part, 16 * i));
                assert(q < part.len() / 16 * 16);
                assert(want[j] == spec_ecb(op, key@, part)[q]);
            }
        }
        i = i + 1;
    }
    assert(data@ =~= want) by {
        assert forall|j: int| 0 <= j < data@.len() implies data@[j] == want[j] by {
            if j >= start + 16 * block_count {
                if j < end {
                    let q = j - start;
                    assert(q >= part.len() / 16 * 16);
                    assert(want[j] == spec_ecb(op, key@, part)[q]);
                    assert(part[q] == old(data)@[j]);
                }
            }
        }
    }
}

/// Decrypts in place the complete 16-byte blocks of `data[start..end]`
/// with AES-256.
pub fn decrypt_aes_range(data: &mut [u8], start: usize, end: usize, key: &[u8; 32])
    requires
        start <= end <= old(data)@.len(),
    ensures
        final(data)@ == on_range(
            old(data)@,
            start as int,
            end as int,
            aes256_ecb_decrypt(key@, old(data)@.subrange(start as int, end as int)),
        ),
{
    ecb_range(data, start, end, BlockOp::Decrypt256, key.as_slice());
}

/// Encrypts in place the complete 16-byte blocks of `data[start..end]`
/// with AES-256. Each block that was encrypted is found to be undone by
/// decryption.
pub fn encrypt_aes_range(data: &mut [u8], start: usize, end: usize, key: &[u8; 32])
    requires
        start <= end <= old(data)@.len(),
    ensures
        final(data)@ == on_range(
            old(data)@,
            start as int,
            end as int,
            aes256_ecb_encrypt(key@, old(data)@.subrange(start as int, end as int)),
        ),
        blocks_invert(key@, old(data)@.subrange(start as int, end as int)),
{
    ecb_range(data, start, end, BlockOp::Encrypt256, key.as_slice());
}

/// Decrypts in place the complete 16-byte blocks of `data[start..end]`
/// with AES-128.
pub fn decrypt_aes128_range(data: &mut [u8], start: usize, end: usize, key: &[u8])
    requires
        start <= end <= old(data)@.len(),
        key@.len() == 16,
    ensures
        final(data)@ == on_range(
            old(data)@,
            start as int,
            end as int,
            aes128_ecb_decrypt(key@, old(data)@.subrange(start as int, end as int)),
        ),
{
    ecb_range(data, start, end, BlockOp::Decrypt128, key);
}

/// Decrypts in place each complete 16-byte block of `data`.
pub fn decrypt_aes_block(data: &mut [u8], key: &[u8; 32])
    ensures
        final(data)@ == aes256_ecb_decrypt(key@, old(data)@),
{
    let n: usize = data.len();
    decrypt_aes_range(data, 0, n, key);
    assert(old(data)@.subrange(0, n as int) =~= old(data)@);
    assert(data@ =~= aes256_ecb_decrypt(key@, old(data)@));
}

/// Encrypts in place each complete 16-byte block of `data`.
pub fn encrypt_aes_block(data: &mut [u8], key: &[u8; 32])
    ensures
        final(data)@ == aes256_ecb_encrypt(key@, old(data)@),
{
    let n: usize = data.len();
    encrypt_aes_range(data, 0, n, key);
    assert(old(data)@.subrange(0, n as int) =~= old(data)@);
    assert(data@ =~= aes256_ecb_encrypt(key@, old(data)@));
}

/// Decrypts in place each complete 16-byte block of `data`.
pub fn decrypt_aes_data(data: &mut [u8], key: &[u8; 32])
    ensures
        final(data)@ == aes256_ecb_decrypt(key@, old(data)@),
{
    decrypt_aes_block(data, key);
}

/// Encrypts in place each complete 16-byte block of `data`.
pub fn encrypt_aes_data(data: &mut [u8], key: &[u8; 32])
    ensures
        final(data)@ == aes256_ecb_encrypt(key@, old(data)@),
{
    encrypt_aes_block(data, key);
}

/// Bit `i` of `t`.
pub open spec fn bit(t: u8, i: u8) -> bool {
    (t >> i) & 1 == 1
}

/// The bit permutation of the byte cipher: the byte with the bits of `t` in
/// reverse order.
pub open spec fn spec_fsbdec_byte(t: u8) -> u8 {
    ((t & 0x01) << 7) | ((t & 0x02) << 5) | ((t & 0x04) << 3) | ((t & 0x08) << 1) | ((t & 0x10)
        >> 1) | ((t & 0x20) >> 3) | ((t & 0x40) >> 5) | ((t & 0x80) >> 7)
}

/// The inverse of the bit permutation: the byte that `spec_fsbdec_byte` maps to `t`.
pub open spec fn spec_fsbenc_byte(t: u8) -> u8 {
    choose|x: u8| spec_fsbdec_byte(x) == t
}

/// Bit `i` of the permuted byte is bit `7 - i` of the byte.
pub proof fn lemma_fsbdec_reverses_bits(t: u8, i: u8)
    requires
        i < 8,
    ensures
        bit(spec_fsbdec_byte(t), i) == bit(t, (7 - i) as u8),
{
    let j: u8 = (7 - i) as u8;
    assert(bit(spec_fsbdec_byte(t), i) == bit(t, j)) by (bit_vector)
        requires
            i < 8,
            j == 7 - i,
    ;
}

/// The bit permutation undoes itself.
pub proof fn lemma_fsbdec_involution(t: u8)
    ensures
        spec_fsbdec_byte(spec_fsbdec_byte(t)) == t,
{
    assert(spec_fsbdec_byte(spec_fsbdec_byte(t)) == t) by (bit_vector);
}

/// The inverse of the bit permutation is the permutation itself.
pub proof fn lemma_fsbenc_is_fsbdec(t: u8)
    ensures
        spec_fsbenc_byte(t) == spec_fsbdec_byte(t),
{
    lemma_fsbdec_involution(t);
    let x = spec_fsbenc_byte(t);
    assert(spec_fsbdec_byte(spec_fsbdec_byte(t)) == t);
    assert(spec_fsbdec_byte(x) == t);
    lemma_fsbdec_involution(x);
}

/// Encoding undoes decoding, for every byte.
pub proof fn lemma_cipher_inverse(x: u8)
    ensures
        spec_fsbenc_byte(spec_fsbdec_byte(x)) == x,
        spec_fsbdec_byte(spec_fsbenc_byte(x)) == x,
{
    lemma_fsbenc_is_fsbdec(x);
    lemma_fsbenc_is_fsbdec(spec_fsbdec_byte(x));
    lemma_fsbdec_involution(x);
}

/// Applies the bit permutation of the byte cipher to one byte.
pub fn fsbdec_byte(t: u8) -> (r: u8)
    ensures
        r == spec_fsbdec_byte(t),
{
    ((t & 0x01) << 7) | ((t & 0x02) << 5) | ((t & 0x04) << 3) | ((t & 0x08) << 1) | ((t & 0x10)
        >> 1) | ((t & 0x20) >> 3) | ((t & 0x40) >> 5) | ((t & 0x80) >> 7)
}

/// The table of the inverse permutation, made by inverting the permutation
/// for all 256 bytes.
pub struct EncodeTable {
    table: Vec<u8>,
}

impl EncodeTable {
    /// The table has an entry for every byte, and each is the inverse's value.
    pub closed spec fn wf(&self) -> bool {
        &&& self.table@.len() == 256
        &&& forall|t: u8| #[trigger] self.table@[t as int] == spec_fsbenc_byte(t)
    }

    /// Derives the table from the permutation.
    pub fn new() -> (r: EncodeTable)
        ensures
            r.wf(),
    {
        let mut table: Vec<u8> = Vec::new();
        push_zeros(&mut table, 256);
        let mut i: usize = 0;
        while i < 256
            invariant
                i <= 256,
                table@.len() == 256,
                forall|j: u8| j < i ==> #[trigger] table@[spec_fsbdec_byte(j) as int] == j,
            decreases 256 - i,
        {
            let b: u8 = i as u8;
            let d: u8 = fsbdec_byte(b);
            proof {
                assert forall|j: u8| j < i implies spec_fsbdec_byte(j) != d by {
                    lemma_fsbdec_involution(j);
                    lemma_fsbdec_involution(b);
                }
            }
            table.set(d as usize, b);
            i = i + 1;
        }
        proof {
            assert forall|t: u8| #[trigger] table@[t as int] == spec_fsbenc_byte(t) by {
                lemma_fsbdec_involution(t);
                lemma_fsbenc_is_fsbdec(t);
                let j = spec_fsbdec_byte(t);
                assert(table@[spec_fsbdec_byte(j) as int] == j);
            }
        }
        EncodeTable { table }
    }

    /// The byte that the permutation maps to `t`.
    pub fn encode(&self, t: u8) -> (r: u8)
        requires
            self.wf(),
        ensures
            r == spec_fsbenc_byte(t),
    {
        self.table[t as usize]
    }
}

/// The inverse of `fsbdec_byte`, looked up in a freshly derived table.
pub fn fsbenc_byte(t: u8) -> (r: u8)
    ensures
        r == spec_fsbenc_byte(t),
        spec_fsbdec_byte(r) == t,
{
    proof {
        lemma_cipher_inverse(t);
    }
    let table = EncodeTable::new();
    table.encode(t)
}

/// `data` under the byte cipher's decryption: each byte permuted, then
/// XORed with the key byte of its position, the key repeating.
pub open spec fn spec_fsbext_decrypt(data: Seq<u8>, key: Seq<u8>) -> Seq<u8> {
    Seq::new(data.len(), |i: int| spec_fsbdec_byte(data[i]) ^ key[i % key.len() as int])
}

/// `data` under the byte cipher's encryption: each byte XORed with the key
/// byte of its position, then mapped through the inverse permutation.
pub open spec fn spec_fsbext_encrypt(data: Seq<u8>, key: Seq<u8>) -> Seq<u8> {
    Seq::new(data.len(), |i: int| spec_fsbenc_byte(data[i] ^ key[i % key.len() as int]))
}

/// Decrypting what was encrypted under the same key gives the data back,
/// and the other way round.
pub proof fn lemma_fsbext_inverse(data: Seq<u8>, key: Seq<u8>)
    ensures
        spec_fsbext_decrypt(spec_fsbext_encrypt(data, key), key) == data,
        spec_fsbext_encrypt(spec_fsbext_decrypt(data, key), key) == data,
{
    assert forall|i: int| 0 <= i < data.len() implies spec_fsbext_decrypt(
        spec_fsbext_encrypt(data, key),
        key,
    )[i] == data[i] by {
        let k = key[i % key.len() as int];
        let x = data[i];
        lemma_cipher_inverse((x ^ k) as u8);
        assert((x ^ k) ^ k == x) by (bit_vector);
    }
    assert forall|i: int| 0 <= i < data.len() implies spec_fsbext_encrypt(
        spec_fsbext_decrypt(data, key),
        key,
    )[i] == data[i] by {
        let k = key[i % key.len() as int];
        let y = spec_fsbdec_byte(data[i]);
        lemma_cipher_inverse(data[i]);
        assert((y ^ k) ^ k == y) by (bit_vector);
    }
    assert(spec_fsbext_decrypt(spec_fsbext_encrypt(data, key), key) =~= data);
    assert(spec_fsbext_encrypt(spec_fsbext_decrypt(data, key), key) =~= data);
}

/// Decrypts `data` in place with the byte cipher.
pub fn fsbext_decrypt(data: &mut [u8], key: &[u8])
    requires
        key@.len() > 0,
    ensures
        final(data)@ == spec_fsbext_decrypt(old(data)@, key@),
{
    let n: usize = data.len();
    let mut i: usize = 0;
    while i < n
        invariant
            i <= n,
            n == data.len(),
            data@.len() == old(data)@.len(),
            key@.len() > 0,
            forall|j: int| 0 <= j < i ==> data@[j] == spec_fsbext_decrypt(old(data)@, key@)[j],
            forall|j: int| i <= j < n ==> data@[j] == old(data)@[j],
        decreases n - i,
    {
        let k: u8 = key[i % key.len()];
        let b: u8 = fsbdec_byte(data[i]) ^ k;
        data[i] = b;
        i = i + 1;
    }
    assert(data@ =~= spec_fsbext_decrypt(old(data)@, key@));
}

/// Encrypts `data` in place with the byte cipher.
pub fn fsbext_encrypt(data: &mut [u8], key: &[u8])
    requires
        key@.len() > 0,
    ensures
        final(data)@ == spec_fsbext_encrypt(old(data)@, key@),
{
    let table = EncodeTable::new();
    let n: usize = data.len();
    let mut i: usize = 0;
    while i < n
        invariant
            i <= n,
            n == data.len(),
            data@.len() == old(data)@.len(),
            key@.len() > 0,
            table.wf(),
            forall|j: int| 0 <= j < i ==> data@[j] == spec_fsbext_encrypt(old(data)@, key@)[j],
            forall|j: int| i <= j < n ==> data@[j] == old(data)@[j],
        decreases n - i,
    {
        let k: u8 = key[i % key.len()];
        let b: u8 = table.encode(data[i] ^ k);
        data[i] = b;
        i = i + 1;
    }
    assert(data@ =~= spec_fsbext_encrypt(old(data)@, key@));
}

} // verus!
