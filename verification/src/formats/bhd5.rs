//! BHD5 indices and the archives that they describe.

use crate::bytes::{le_u32, push_range, read_u32, read_u32_le, read_u64, spec_u32, spec_u64};
use crate::crypto::{aes128_ecb_decrypt, decrypt_aes128_range, on_range};
use crate::error::Error;
use crate::formats::dcx::magic_at;
use vstd::prelude::*;
use vstd::utf8::encode_utf8;

verus! {

/// One file of an archive, as the index describes it.
#[derive(Debug, Clone)]
pub struct Bhd5Entry {
    /// The hash of the file's path.
    pub hash: u32,
    pub size: u32,
    /// Where the file's data starts in the archive.
    pub offset: u64,
    /// The size of the file's data in the archive, padding included.
    pub padded_size: u32,
    pub aes_key: Option<Vec<u8>>,
    /// The ranges of the data that are encrypted, each from a start up to
    /// an end.
    pub aes_ranges: Vec<(i64, i64)>,
}

/// What a `Bhd5Entry` holds, as mathematical values.
pub struct Bhd5EntryView {
    pub hash: u32,
    pub size: u32,
    pub offset: u64,
    pub padded_size: u32,
    pub aes_key: Option<Seq<u8>>,
    pub aes_ranges: Seq<(i64, i64)>,
}

impl View for Bhd5Entry {
    type V = Bhd5EntryView;

    open spec fn view(&self) -> Bhd5EntryView {
        Bhd5EntryView {
            hash: self.hash,
            size: self.size,
            offset: self.offset,
            padded_size: self.padded_size,
            aes_key: match self.aes_key {
                Some(k) => Some(k@),
                None => None,
            },
            aes_ranges: self.aes_ranges@,
        }
    }
}

/// The entries whose hashes fall into one bucket.
#[derive(Debug)]
pub struct Bhd5Bucket {
    pub entries: Vec<Bhd5Entry>,
}

/// The views of the entries of `v`.
pub open spec fn entry_views(v: Seq<Bhd5Entry>) -> Seq<Bhd5EntryView> {
    Seq::new(v.len(), |i: int| v[i]@)
}

impl View for Bhd5Bucket {
    type V = Seq<Bhd5EntryView>;

    open spec fn view(&self) -> Seq<Bhd5EntryView> {
        entry_views(self.entries@)
    }
}

/// The index of an archive: its entries, sorted into buckets by hash.
#[derive(Debug)]
pub struct Bhd5 {
    pub version: u32,
    pub salt: Vec<u8>,
    pub buckets: Vec<Bhd5Bucket>,
    pub big_endian: bool,
}

/// What a `Bhd5` holds, as mathematical values.
pub struct Bhd5View {
    pub version: u32,
    pub salt: Seq<u8>,
    pub buckets: Seq<Seq<Bhd5EntryView>>,
    pub big_endian: bool,
}

/// The views of the buckets of `v`.
pub open spec fn bucket_views(v: Seq<Bhd5Bucket>) -> Seq<Seq<Bhd5EntryView>> {
    Seq::new(v.len(), |i: int| v[i]@)
}

impl View for Bhd5 {
    type V = Bhd5View;

    open spec fn view(&self) -> Bhd5View {
        Bhd5View {
            version: self.version,
            salt: self.salt@,
            buckets: bucket_views(self.buckets@),
            big_endian: self.big_endian,
        }
    }
}

/// The four bytes `BHD5`.
pub open spec fn bhd5_magic() -> Seq<u8> {
    seq![0x42u8, 0x48u8, 0x44u8, 0x35u8]
}

/// The length of an entry in the index: from version 0x100 on an entry
/// also stores its padded size and where its key stands.
pub open spec fn entry_len(version: u32) -> int {
    if version >= 0x100 {
        28
    } else {
        16
    }
}

/// How many ranges a stored count stands for: none where the count, taken
/// as a signed number, is negative.
pub open spec fn range_count(stored: u32) -> int {
    if stored < 0x8000_0000 {
        stored as int
    } else {
        0
    }
}

/// Whether the key block at `at` lies inside the index: 16 bytes of key, a
/// count, and two 64-bit values for each range.
pub open spec fn key_ok(data: Seq<u8>, at: int, be: bool) -> bool {
    at + 20 <= data.len() && at + 20 + 16 * range_count(spec_u32(data, at + 16, be)) <= data.len()
}

/// The ranges of the key block at `at`.
pub open spec fn key_ranges(data: Seq<u8>, at: int, be: bool) -> Seq<(i64, i64)> {
    Seq::new(
        range_count(spec_u32(data, at + 16, be)) as nat,
        |k: int|
            (
                spec_u64(data, at + 20 + 16 * k, be) as i64,
                spec_u64(data, at + 28 + 16 * k, be) as i64,
            ),
    )
}

/// Where the key block of the entry at `at` stands; 0 where it has none.
pub open spec fn key_offset(data: Seq<u8>, at: int, version: u32, be: bool) -> u64 {
    if version >= 0x100 {
        spec_u64(data, at + 20, be)
    } else {
        0
    }
}

/// Whether the entry at `at`, and its key block if it has one, lie inside
/// the index.
pub open spec fn entry_ok(data: Seq<u8>, at: int, version: u32, be: bool) -> bool {
    &&& at + entry_len(version) <= data.len()
    &&& key_offset(data, at, version, be) > 0 ==> key_ok(
        data,
        key_offset(data, at, version, be) as int,
        be,
    )
}

/// The entry at `at`.
pub open spec fn entry_view(data: Seq<u8>, at: int, version: u32, be: bool) -> Bhd5EntryView {
    let key_at = key_offset(data, at, version, be) as int;
    Bhd5EntryView {
        hash: spec_u32(data, at, be),
        size: spec_u32(data, at + 4, be),
        offset: spec_u64(data, at + 8, be),
        padded_size: if version >= 0x100 {
            spec_u32(data, at + 16, be)
        } else {
            spec_u32(data, at + 4, be)
        },
        aes_key: if key_at > 0 {
            Some(data.subrange(key_at, key_at + 16))
        } else {
            None
        },
        aes_ranges: if key_at > 0 {
            key_ranges(data, key_at, be)
        } else {
            Seq::empty()
        },
    }
}

/// Where entry `k` of the bucket at `at` stands.
pub open spec fn bucket_entry_at(data: Seq<u8>, at: int, version: u32, be: bool, k: int) -> int {
    spec_u32(data, at + 4, be) + k * entry_len(version)
}

/// Whether the bucket at `at` and all its entries lie inside the index.
pub open spec fn bucket_ok(data: Seq<u8>, at: int, version: u32, be: bool) -> bool {
    &&& at + 8 <= data.len()
    &&& forall|k: int|
        0 <= k < spec_u32(data, at, be) ==> entry_ok(
            data,
            #[trigger] bucket_entry_at(data, at, version, be, k),
            version,
            be,
        )
}

/// The entries of the bucket at `at`.
pub open spec fn bucket_view(data: Seq<u8>, at: int, version: u32, be: bool) -> Seq<
    Bhd5EntryView,
> {
    Seq::new(
        spec_u32(data, at, be) as nat,
        |k: int| entry_view(data, bucket_entry_at(data, at, version, be, k), version, be),
    )
}

/// Where bucket `j` stands.
pub open spec fn bucket_at(data: Seq<u8>, be: bool, j: int) -> int {
    spec_u32(data, 20, be) + 8 * j
}

/// Whether all buckets of an index lie inside it.
pub open spec fn buckets_ok(data: Seq<u8>, be: bool) -> bool {
    forall|j: int|
        0 <= j < spec_u32(data, 16, be) ==> bucket_ok(
            data,
            #[trigger] bucket_at(data, be, j),
            spec_u32(data, 8, be),
            be,
        )
}

/// Whether an index is stored big-endian: its second field, a 1, reads as
/// 0x01000000 in little-endian.
pub open spec fn is_big_endian(data: Seq<u8>) -> bool {
    le_u32(data, 4) == 0x0100_0000
}

/// The index that `data` holds. It starts with the magic and the mark of
/// its byte order; then come the version, a size, the number of buckets and
/// where they stand, and the salt with its length. Each bucket names its
/// number of entries and where they stand. Whatever is named must lie
/// inside `data`.
pub open spec fn spec_bhd5_read(data: Seq<u8>) -> Result<Bhd5View, Error> {
    let be = is_big_endian(data);
    if data.len() < 4 {
        Err(Error::Truncated)
    } else if !magic_at(data, 0, bhd5_magic()) {
        Err(Error::BadMagic)
    } else if data.len() < 28 || 28 + spec_u32(data, 24, be) > data.len() || !buckets_ok(
        data,
        be,
    ) {
        Err(Error::Truncated)
    } else {
        Ok(
            Bhd5View {
                version: spec_u32(data, 8, be),
                salt: data.subrange(28, 28 + spec_u32(data, 24, be)),
                buckets: Seq::new(
                    spec_u32(data, 16, be) as nat,
                    |j: int| bucket_view(data, bucket_at(data, be, j), spec_u32(data, 8, be), be),
                ),
                big_endian: be,
            },
        )
    }
}

/// Reads the ranges of the key block at `at`.
fn read_ranges(data: &[u8], at: usize, be: bool) -> (r: Option<Vec<(i64, i64)>>)
    requires
        at + 20 <= data@.len(),
    ensures
        match r {
            Some(v) => key_ok(data@, at as int, be) && v@ == key_ranges(data@, at as int, be),
            None => !key_ok(data@, at as int, be),
        },
{
    let len: usize = data.len();
    let stored: u32 = match read_u32(data, at + 16, be) {
        Some(v) => v,
        None => 0,
    };
    let count: usize = if stored < 0x8000_0000 {
        stored as usize
    } else {
        0
    };
    if count > (len - at - 20) / 16 {
        return None;
    }
    let mut ranges: Vec<(i64, i64)> = Vec::new();
    let mut k: usize = 0;
    while k < count
        invariant
            k <= count,
            len == data@.len(),
            at + 20 + 16 * count <= len,
            count == range_count(spec_u32(data@, at + 16, be)),
            ranges@.len() == k,
            forall|i: int| 0 <= i < k ==> ranges@[i] == key_ranges(data@, at as int, be)[i],
        decreases count - k,
    {
        let start: u64 = match read_u64(data, at + 20 + 16 * k, be) {
            Some(v) => v,
            None => 0,
        };
        let end: u64 = match read_u64(data, at + 28 + 16 * k, be) {
            Some(v) => v,
            None => 0,
        };
        ranges.push((start as i64, end as i64));
        k = k + 1;
    }
    assert(ranges@ =~= key_ranges(data@, at as int, be));
    Some(ranges)
}

/// Reads the entry at `at`.
fn read_entry_at(data: &[u8], at: u64, version: u32, be: bool) -> (r: Option<Bhd5Entry>)
    ensures
        match r {
            Some(e) => entry_ok(data@, at as int, version, be) && e@ == entry_view(
                data@,
                at as int,
                version,
                be,
            ),
            None => !entry_ok(data@, at as int, version, be),
        },
{
    let len: usize = data.len();
    let size_of_entry: usize = if version >= 0x100 {
        28
    } else {
        16
    };
    if len < size_of_entry || at > (len - size_of_entry) as u64 {
        return None;
    }
    let p: usize = at as usize;
    let hash: u32 = match read_u32(data, p, be) {
        Some(v) => v,
        None => 0,
    };
    let size: u32 = match read_u32(data, p + 4, be) {
        Some(v) => v,
        None => 0,
    };
    let offset: u64 = match read_u64(data, p + 8, be) {
        Some(v) => v,
        None => 0,
    };
    let padded_size: u32 = if version >= 0x100 {
        match read_u32(data, p + 16, be) {
            Some(v) => v,
            None => 0,
        }
    } else {
        size
    };
    let key_at: u64 = if version >= 0x100 {
        match read_u64(data, p + 20, be) {
            Some(v) => v,
            None => 0,
        }
    } else {
        0
    };
    if key_at == 0 {
        return Some(
            Bhd5Entry {
                hash,
                size,
                offset,
                padded_size,
                aes_key: None,
                aes_ranges: Vec::new(),
            },
        );
    }
    if len < 20 || key_at > (len - 20) as u64 {
        return None;
    }
    let q: usize = key_at as usize;
    let ranges = match read_ranges(data, q, be) {
        Some(v) => v,
        None => {
            return None;
        },
    };
    let mut key: Vec<u8> = Vec::new();
    push_range(&mut key, data, q, q + 16);
    assert(key@ =~= data@.subrange(q as int, q + 16));
    Some(Bhd5Entry { hash, size, offset, padded_size, aes_key: Some(key), aes_ranges: ranges })
}

/// Reads the bucket at `at`.
fn read_bucket(data: &[u8], at: u64, version: u32, be: bool) -> (r: Option<Bhd5Bucket>)
    ensures
        match r {
            Some(b) => bucket_ok(data@, at as int, version, be) && b@ == bucket_view(
                data@,
                at as int,
                version,
                be,
            ),
            None => !bucket_ok(data@, at as int, version, be),
        },
{
    let len: usize = data.len();
    if len < 8 || at > (len - 8) as u64 {
        return None;
    }
    let p: usize = at as usize;
    let count: u32 = match read_u32(data, p, be) {
        Some(v) => v,
        None => 0,
    };
    let first: u64 = match read_u32(data, p + 4, be) {
        Some(v) => v as u64,
        None => 0,
    };
    let step: u64 = if version >= 0x100 {
        28
    } else {
        16
    };
    let mut entries: Vec<Bhd5Entry> = Vec::new();
    let mut k: u32 = 0;
    while k < count
        invariant
            k <= count,
            at + 8 <= data@.len(),
            count == spec_u32(data@, at as int, be),
            first == spec_u32(data@, at + 4, be),
            step == entry_len(version),
            entries@.len() == k,
            forall|i: int|
                0 <= i < k ==> entry_ok(
                    data@,
                    #[trigger] bucket_entry_at(data@, at as int, version, be, i),
                    version,
                    be,
                ),
            forall|i: int|
                0 <= i < k ==> (#[trigger] entries@[i])@ == entry_view(
                    data@,
                    bucket_entry_at(data@, at as int, version, be, i),
                    version,
                    be,
                ),
        decreases count - k,
    {
        assert(bucket_entry_at(data@, at as int, version, be, k as int) == first + k * step);
        assert(k * step <= 0xFFFF_FFFF * 28) by (nonlinear_arith)
            requires
                k <= 0xFFFF_FFFF,
                step <= 28,
        ;
        match read_entry_at(data, first + k as u64 * step, version, be) {
            Some(e) => {
                entries.push(e);
            },
            None => {
                return None;
            },
        }
        k = k + 1;
    }
    let bucket = Bhd5Bucket { entries };
    assert(bucket@ =~= bucket_view(data@, at as int, version, be));
    Some(bucket)
}

/// The multiplier of the path hash.
pub const HASH_PRIME: u64 = 37;

/// The hash after one more byte: 37 times the hash plus the byte, modulo
/// 2^32.
pub open spec fn hash_step(hash: u32, byte: u8) -> u32 {
    ((hash * HASH_PRIME + byte) % 0x1_0000_0000) as u32
}

/// The hash after the first `k` bytes of `bytes`, starting from `start`.
pub open spec fn hash_bytes(start: u32, bytes: Seq<u8>, k: nat) -> u32
    decreases k,
{
    if k == 0 {
        start
    } else {
        hash_step(hash_bytes(start, bytes, (k - 1) as nat), bytes[k - 1])
    }
}

/// `path` with a backslash in the place of each slash.
pub open spec fn backslashes(path: Seq<u8>) -> Seq<u8> {
    Seq::new(
        path.len(),
        |i: int|
            if path[i] == 0x2f {
                0x5cu8
            } else {
                path[i]
            },
    )
}

/// `text` in lower case, as `str::to_lowercase` makes it.
pub uninterp spec fn lowercased(text: Seq<char>) -> Seq<char>;

/// `str::to_lowercase`.
#[verifier::external_body]
fn to_lowercase(text: &str) -> (r: String)
    ensures
        r@ == lowercased(text@),
{
    text.to_lowercase()
}

/// The hash of a path: the hash of the bytes of the path in lower case
/// with backslashes for slashes, and then of the salt.
pub open spec fn spec_hash_path(path: Seq<char>, salt: Seq<u8>) -> u32 {
    let name = backslashes(encode_utf8(lowercased(path)));
    hash_bytes(hash_bytes(0, name, name.len()), salt, salt.len())
}

/// Takes `bytes` into the hash, with a backslash for each slash if `swap`
/// says so.
fn hash_more(start: u32, bytes: &[u8], swap: bool) -> (r: u32)
    ensures
        r == hash_bytes(
            start,
            if swap {
                backslashes(bytes@)
            } else {
                bytes@
            },
            bytes@.len(),
        ),
{
    let ghost taken = if swap {
        backslashes(bytes@)
    } else {
        bytes@
    };
    let n: usize = bytes.len();
    let mut hash: u32 = start;
    let mut i: usize = 0;
    while i < n
        invariant
            i <= n,
            n == bytes@.len(),
            taken == (if swap {
                backslashes(bytes@)
            } else {
                bytes@
            }),
            hash == hash_bytes(start, taken, i as nat),
        decreases n - i,
    {
        let b: u8 = if swap && bytes[i] == 0x2f {
            0x5c
        } else {
            bytes[i]
        };
        hash = ((hash as u64 * HASH_PRIME + b as u64) % 0x1_0000_0000) as u32;
        i = i + 1;
    }
    hash
}

/// The data of an entry as the archive holds it, decrypted: without ranges
/// all of it, block by block; else range by range, each range cut off at
/// the end of the data, and a range that is empty left out.
pub open spec fn spec_decrypt_ranges(key: Seq<u8>, data: Seq<u8>, ranges: Seq<(i64, i64)>, k: nat) -> Seq<
    u8,
>
    decreases k,
{
    if k == 0 {
        data
    } else {
        let before = spec_decrypt_ranges(key, data, ranges, (k - 1) as nat);
        let start = ranges[k - 1].0 as usize;
        let end = if ranges[k - 1].1 as usize <= data.len() {
            ranges[k - 1].1 as usize
        } else {
            data.len() as usize
        };
        if start < end {
            on_range(
                before,
                start as int,
                end as int,
                aes128_ecb_decrypt(key, before.subrange(start as int, end as int)),
            )
        } else {
            before
        }
    }
}

/// The decrypted data of an entry.
pub open spec fn spec_decrypt_entry(key: Seq<u8>, data: Seq<u8>, ranges: Seq<(i64, i64)>) -> Seq<
    u8,
> {
    if ranges.len() == 0 {
        aes128_ecb_decrypt(key, data)
    } else {
        spec_decrypt_ranges(key, data, ranges, ranges.len())
    }
}

/// Decrypts the data of an entry in place with AES-128. The key must have
/// 16 bytes.
pub fn decrypt_aes128_ecb(data: &mut Vec<u8>, key: &[u8], ranges: &[(i64, i64)]) -> (r: Result<
    (),
    Error,
>)
    ensures
        final(data)@.len() == old(data)@.len(),
        match r {
            Ok(()) => key@.len() == 16 && final(data)@ == spec_decrypt_entry(
                key@,
                old(data)@,
                ranges@,
            ),
            Err(e) => e == Error::BadKey && key@.len() != 16 && final(data)@ == old(data)@,
        },
{
    if key.len() != 16 {
        return Err(Error::BadKey);
    }
    let len: usize = data.len();
    if ranges.len() == 0 {
        decrypt_aes128_range(data.as_mut_slice(), 0, len, key);
        assert(old(data)@.subrange(0, len as int) =~= old(data)@);
        assert(data@ =~= aes128_ecb_decrypt(key@, old(data)@));
        return Ok(());
    }
    let n: usize = ranges.len();
    let mut k: usize = 0;
    while k < n
        invariant
            k <= n,
            n == ranges@.len(),
            key@.len() == 16,
            len == data@.len(),
            len == old(data)@.len(),
            data@ == spec_decrypt_ranges(key@, old(data)@, ranges@, k as nat),
        decreases n - k,
    {
        let start: usize = ranges[k].0 as usize;
        let last: usize = ranges[k].1 as usize;
        let end: usize = if last <= len {
            last
        } else {
            len
        };
        if start < end {
            decrypt_aes128_range(data.as_mut_slice(), start, end, key);
        }
        k = k + 1;
    }
    Ok(())
}

/// Whether entry `i` is the first of `entries` with the given hash.
pub open spec fn is_first_with_hash(entries: Seq<Bhd5Entry>, hash: u32, i: int) -> bool {
    &&& 0 <= i < entries.len()
    &&& entries[i].hash == hash
    &&& forall|k: int| 0 <= k < i ==> (#[trigger] entries[k]).hash != hash
}

impl Bhd5 {
    /// Reads the index of an archive.
    pub fn read(data: &[u8]) -> (r: Result<Bhd5, Error>)
        ensures
            match r {
                Ok(b) => spec_bhd5_read(data@) == Ok::<Bhd5View, Error>(b@),
                Err(e) => spec_bhd5_read(data@) == Err::<Bhd5View, Error>(e),
            },
    {
        let len: usize = data.len();
        if len < 4 {
            return Err(Error::Truncated);
        }
        if !(data[0] == 0x42 && data[1] == 0x48 && data[2] == 0x44 && data[3] == 0x35) {
            proof {
                let part = data@.subrange(0, 4);
                assert(part[0] == data@[0] && part[1] == data@[1] && part[2] == data@[2]
                    && part[3] == data@[3]);
            }
            return Err(Error::BadMagic);
        }
        assert(data@.subrange(0, 4) =~= bhd5_magic());
        if len < 28 {
            return Err(Error::Truncated);
        }
        let mark: u32 = match read_u32_le(data, 4) {
            Some(v) => v,
            None => 0,
        };
        let be: bool = mark == 0x0100_0000;
        let version: u32 = match read_u32(data, 8, be) {
            Some(v) => v,
            None => 0,
        };
        let bucket_count: u32 = match read_u32(data, 16, be) {
            Some(v) => v,
            None => 0,
        };
        let buckets_at: u64 = match read_u32(data, 20, be) {
            Some(v) => v as u64,
            None => 0,
        };
        let salt_len: usize = match read_u32(data, 24, be) {
            Some(v) => v as usize,
            None => 0,
        };
        if salt_len > len - 28 {
            return Err(Error::Truncated);
        }
        let mut salt: Vec<u8> = Vec::new();
        push_range(&mut salt, data, 28, 28 + salt_len);
        assert(salt@ =~= data@.subrange(28, 28 + salt_len));
        let mut buckets: Vec<Bhd5Bucket> = Vec::new();
        let mut j: u32 = 0;
        while j < bucket_count
            invariant
                j <= bucket_count,
                28 <= data@.len(),
                magic_at(data@, 0, bhd5_magic()),
                28 + spec_u32(data@, 24, be) <= data@.len(),
                be == is_big_endian(data@),
                version == spec_u32(data@, 8, be),
                bucket_count == spec_u32(data@, 16, be),
                buckets_at == spec_u32(data@, 20, be),
                buckets@.len() == j,
                forall|i: int|
                    0 <= i < j ==> bucket_ok(
                        data@,
                        #[trigger] bucket_at(data@, be, i),
                        version,
                        be,
                    ),
                forall|i: int|
                    0 <= i < j ==> (#[trigger] buckets@[i])@ == bucket_view(
                        data@,
                        bucket_at(data@, be, i),
                        version,
                        be,
                    ),
            decreases bucket_count - j,
        {
            assert(bucket_at(data@, be, j as int) == buckets_at + 8 * j);
            match read_bucket(data, buckets_at + 8 * (j as u64), version, be) {
                Some(b) => {
                    buckets.push(b);
                },
                None => {
                    return Err(Error::Truncated);
                },
            }
            j = j + 1;
        }
        let index = Bhd5 { version, salt, buckets, big_endian: be };
        assert(index@.buckets =~= spec_bhd5_read(data@)->Ok_0.buckets);
        Ok(index)
    }

    /// The bucket that a hash falls into: the hash modulo the number of
    /// buckets. There is none without buckets, nor with more buckets than
    /// 32 bits can count.
    pub open spec fn spec_bucket_of(self, hash: u32) -> Option<int> {
        if self.buckets@.len() == 0 || self.buckets@.len() > u32::MAX {
            None
        } else {
            Some(hash as int % self.buckets@.len() as int)
        }
    }

    /// The entry with the given hash: the first one in the hash's bucket.
    pub fn get_entry(&self, hash: u32) -> (r: Option<&Bhd5Entry>)
        ensures
            match (r, self.spec_bucket_of(hash)) {
                (Some(e), Some(b)) => exists|i: int|
                    #[trigger] is_first_with_hash(self.buckets@[b].entries@, hash, i) && *e
                        == self.buckets@[b].entries@[i],
                (None, Some(b)) => forall|k: int|
                    0 <= k < self.buckets@[b].entries@.len() ==> (
                    #[trigger] self.buckets@[b].entries@[k]).hash != hash,
                (None, None) => true,
                (Some(_), None) => false,
            },
    {
        let count: usize = self.buckets.len();
        if count == 0 || count > 0xFFFF_FFFF {
            return None;
        }
        let b: usize = (hash % (count as u32)) as usize;
        let bucket = &self.buckets[b];
        let n: usize = bucket.entries.len();
        let mut i: usize = 0;
        while i < n
            invariant
                i <= n,
                n == bucket.entries@.len(),
                *bucket == self.buckets@[b as int],
                self.spec_bucket_of(hash) == Some(b as int),
                forall|k: int| 0 <= k < i ==> (#[trigger] bucket.entries@[k]).hash != hash,
            decreases n - i,
        {
            if bucket.entries[i].hash == hash {
                assert(is_first_with_hash(bucket.entries@, hash, i as int));
                return Some(&bucket.entries[i]);
            }
            i = i + 1;
        }
        None
    }

    /// How many entries the first `k` buckets hold together.
    pub open spec fn spec_count_upto(self, k: nat) -> nat
        decreases k,
    {
        if k == 0 {
            0
        } else {
            self.spec_count_upto((k - 1) as nat) + self.buckets@[k - 1].entries@.len()
        }
    }

    /// All entries, bucket by bucket.
    pub fn all_entries(&self) -> (r: Vec<&Bhd5Entry>)
        ensures
            r@.len() == self.spec_count_upto(self.buckets@.len()),
            forall|j: int, i: int|
                0 <= j < self.buckets@.len() && 0 <= i < self.buckets@[j].entries@.len() ==> *r@[
                    self.spec_count_upto(j as nat) + i
                ] == #[trigger] self.buckets@[j].entries@[i],
    {
        let mut out: Vec<&Bhd5Entry> = Vec::new();
        let count: usize = self.buckets.len();
        let mut j: usize = 0;
        while j < count
            invariant
                j <= count,
                count == self.buckets@.len(),
                out@.len() == self.spec_count_upto(j as nat),
                forall|a: int, i: int|
                    0 <= a < j && 0 <= i < self.buckets@[a].entries@.len() ==> *out@[
                        self.spec_count_upto(a as nat) + i
                    ] == #[trigger] self.buckets@[a].entries@[i],
            decreases count - j,
        {
            let bucket = &self.buckets[j];
            let n: usize = bucket.entries.len();
            let ghost base = out@.len();
            let ghost before = out@;
            let mut i: usize = 0;
            while i < n
                invariant
                    i <= n,
                    j < count,
                    count == self.buckets@.len(),
                    *bucket == self.buckets@[j as int],
                    n == bucket.entries@.len(),
                    base == self.spec_count_upto(j as nat),
                    before.len() == base,
                    out@.len() == base + i,
                    forall|m: int| 0 <= m < base ==> out@[m] == before[m],
                    forall|m: int| 0 <= m < i ==> *out@[base + m] == bucket.entries@[m],
                decreases n - i,
            {
                out.push(&bucket.entries[i]);
                i = i + 1;
            }
            proof {
                assert forall|a: int, i: int|
                    0 <= a < j && 0 <= i < self.buckets@[a].entries@.len() implies *out@[
                        self.spec_count_upto(a as nat) + i
                    ] == #[trigger] self.buckets@[a].entries@[i] by {
                    self.lemma_count_grows(a as nat, j as nat);
                    assert(before[self.spec_count_upto(a as nat) + i]
                        == out@[self.spec_count_upto(a as nat) + i]);
                }
            }
            j = j + 1;
        }
        out
    }

    /// The entries of a bucket stand before those of every later bucket.
    pub proof fn lemma_count_grows(self, a: nat, j: nat)
        requires
            a < j <= self.buckets@.len(),
        ensures
            self.spec_count_upto(a) + self.buckets@[a as int].entries@.len()
                <= self.spec_count_upto(j),
        decreases j - a,
    {
        if a + 1 < j {
            self.lemma_count_grows(a, (j - 1) as nat);
        }
    }

    /// The hash under which the index holds a path.
    pub fn hash_path(path: &str, salt: &[u8]) -> (r: u32)
        ensures
            r == spec_hash_path(path@, salt@),
    {
        let lower = to_lowercase(path);
        let name = lower.as_str().as_bytes();
        let hash: u32 = hash_more(0, name, true);
        hash_more(hash, salt, false)
    }
}

/// An archive: the data that an index describes.
pub struct Bdt<'a> {
    data: &'a [u8],
}

/// What reading an entry from an archive gives: the entry's padded data,
/// decrypted if the entry has a key, and cut down to the entry's size. It
/// fails where the data lies outside the archive, and where the key does
/// not have 16 bytes.
pub open spec fn spec_read_entry(data: Seq<u8>, entry: Bhd5EntryView) -> Result<Seq<u8>, Error> {
    if entry.offset + entry.padded_size > data.len() {
        Err(Error::EntryOutOfBounds)
    } else {
        let raw = data.subrange(entry.offset as int, entry.offset + entry.padded_size);
        match entry.aes_key {
            Some(key) => if key.len() != 16 {
                Err(Error::BadKey)
            } else {
                let plain = spec_decrypt_entry(key, raw, entry.aes_ranges);
                Ok(
                    if entry.size <= plain.len() {
                        plain.subrange(0, entry.size as int)
                    } else {
                        plain
                    },
                )
            },
            None => Ok(
                if entry.size <= raw.len() {
                    raw.subrange(0, entry.size as int)
                } else {
                    raw
                },
            ),
        }
    }
}

impl<'a> Bdt<'a> {
    /// The data of the archive.
    pub closed spec fn bytes(&self) -> Seq<u8> {
        self.data@
    }

    /// An archive over `data`.
    pub fn new(data: &'a [u8]) -> (r: Self)
        ensures
            r.bytes() == data@,
    {
        Bdt { data }
    }

    /// Reads the data of an entry.
    pub fn read_entry(&self, entry: &Bhd5Entry) -> (r: Result<Vec<u8>, Error>)
        ensures
            crate::bytes::bytes_result_view(r) == spec_read_entry(self.bytes(), entry@),
    {
        let len: u64 = self.data.len() as u64;
        if entry.offset > len || entry.padded_size as u64 > len - entry.offset {
            return Err(Error::EntryOutOfBounds);
        }
        let start: usize = entry.offset as usize;
        let mut data: Vec<u8> = Vec::new();
        push_range(&mut data, self.data, start, start + entry.padded_size as usize);
        assert(data@ =~= self.data@.subrange(start as int, start + entry.padded_size));
        match &entry.aes_key {
            Some(key) => {
                match decrypt_aes128_ecb(&mut data, key.as_slice(), entry.aes_ranges.as_slice()) {
                    Ok(()) => {},
                    Err(e) => {
                        return Err(e);
                    },
                }
            },
            None => {},
        }
        data.truncate(entry.size as usize);
        Ok(data)
    }
}

} // verus!
