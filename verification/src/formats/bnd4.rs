//! BND4 bundles of named files.

use crate::bytes::{
    le_u16, push_range, push_u16_le, push_u32, push_u64, push_zeros, read_u16_le, read_u32,
    read_u64, spec_u32, spec_u64, u16_le_bytes, u32_bytes, u64_bytes, zeros,
};
use crate::error::Error;
use crate::formats::dcx::magic_at;
use crate::fsb::parse4::{trim_nuls, trimmed_len};
use crate::text::{
    encode_utf16, spec_from_utf8_lossy, str_eq, string_from_utf16_lossy, string_from_utf8_lossy,
    utf16_lossy, utf16_units,
};
use vstd::utf8::encode_utf8;
use vstd::prelude::*;

verus! {

/// One file of a bundle.
#[derive(Debug, Clone)]
pub struct Bnd4Entry {
    pub flags: u8,
    pub id: i32,
    pub name: String,
    pub uncompressed_size: u64,
    pub compressed_size: u64,
    pub data: Vec<u8>,
}

/// What a `Bnd4Entry` holds, as mathematical values.
pub struct Bnd4EntryView {
    pub flags: u8,
    pub id: i32,
    pub name: Seq<char>,
    pub uncompressed_size: u64,
    pub compressed_size: u64,
    pub data: Seq<u8>,
}

impl View for Bnd4Entry {
    type V = Bnd4EntryView;

    open spec fn view(&self) -> Bnd4EntryView {
        Bnd4EntryView {
            flags: self.flags,
            id: self.id,
            name: self.name@,
            uncompressed_size: self.uncompressed_size,
            compressed_size: self.compressed_size,
            data: self.data@,
        }
    }
}

/// A bundle of named files.
#[derive(Debug)]
pub struct Bnd4 {
    pub version: String,
    pub flags: u8,
    pub big_endian: bool,
    pub bit_big_endian: bool,
    /// Whether the names are stored as UTF-16.
    pub unicode: bool,
    /// 0x10 where an entry stores both of its sizes and eight more bytes.
    pub extended: u8,
    pub entries: Vec<Bnd4Entry>,
}

/// What a `Bnd4` holds, as mathematical values.
pub struct Bnd4View {
    pub version: Seq<char>,
    pub flags: u8,
    pub big_endian: bool,
    pub bit_big_endian: bool,
    pub unicode: bool,
    pub extended: u8,
    pub entries: Seq<Bnd4EntryView>,
}

/// The views of the entries of `v`.
pub open spec fn bnd4_entry_views(v: Seq<Bnd4Entry>) -> Seq<Bnd4EntryView> {
    Seq::new(v.len(), |i: int| v[i]@)
}

impl View for Bnd4 {
    type V = Bnd4View;

    open spec fn view(&self) -> Bnd4View {
        Bnd4View {
            version: self.version@,
            flags: self.flags,
            big_endian: self.big_endian,
            bit_big_endian: self.bit_big_endian,
            unicode: self.unicode,
            extended: self.extended,
            entries: bnd4_entry_views(self.entries@),
        }
    }
}

/// The four bytes `BND4`.
pub open spec fn bnd4_magic() -> Seq<u8> {
    seq![0x42u8, 0x4eu8, 0x44u8, 0x34u8]
}

/// The value of `extended` that marks the longer entries.
pub const EXTENDED: u8 = 0x10;

/// Where the entries start: behind the 52 bytes of the header, and behind
/// eight more where the bundle is extended.
pub open spec fn entries_start(extended: u8) -> int {
    if extended == EXTENDED {
        60
    } else {
        52
    }
}

/// The length of an entry in the table of entries.
pub open spec fn entry_stride(extended: u8) -> int {
    if extended == EXTENDED {
        48
    } else {
        32
    }
}

/// The index of the first zero byte of `data` from `from` on, or the
/// length of `data` if there is none.
pub open spec fn zero_from(data: Seq<u8>, from: int) -> int
    decreases data.len() - from,
{
    if from < 0 || from >= data.len() {
        data.len() as int
    } else if data[from] == 0 {
        from
    } else {
        zero_from(data, from + 1)
    }
}

/// The UTF-16 code units that stand in `data` from `from` on, up to a unit
/// of 0; `None` where `data` ends before such a unit.
pub open spec fn wide_units(data: Seq<u8>, from: int) -> Option<Seq<u16>>
    decreases data.len() - from,
{
    if from < 0 || from + 2 > data.len() {
        None
    } else if le_u16(data, from) == 0 {
        Some(Seq::empty())
    } else {
        match wide_units(data, from + 2) {
            Some(rest) => Some(seq![le_u16(data, from)] + rest),
            None => None,
        }
    }
}

/// The name that stands at `at`: UTF-16 code units up to a unit of 0, or
/// bytes up to a zero byte, decoded with replacement characters. `None`
/// where `data` ends before the name does.
pub open spec fn spec_name(data: Seq<u8>, at: int, unicode: bool) -> Option<Seq<char>> {
    if unicode {
        match wide_units(data, at) {
            Some(units) => Some(utf16_lossy(units)),
            None => None,
        }
    } else if zero_from(data, at) >= data.len() {
        None
    } else {
        Some(spec_from_utf8_lossy(data.subrange(at, zero_from(data, at))))
    }
}

/// How many bytes of data an entry has: its compressed size where that
/// lies between 1 and 2^63 - 1, else its uncompressed size.
pub open spec fn stored_len(compressed: u64, uncompressed: u64) -> u64 {
    if 0 < compressed < 0x8000_0000_0000_0000 {
        compressed
    } else {
        uncompressed
    }
}

/// The fields of the entry at `at`: its flags, its two sizes, where its
/// data and its name stand, and its id.
pub struct EntryFields {
    pub flags: u8,
    pub compressed: u64,
    pub uncompressed: u64,
    pub data_at: u64,
    pub id: u32,
    pub name_at: u32,
}

/// The fields of the entry at `at`.
pub open spec fn entry_fields(data: Seq<u8>, at: int, be: bool, extended: u8) -> EntryFields {
    let wide = extended == EXTENDED;
    let shift = if wide {
        8int
    } else {
        0int
    };
    EntryFields {
        flags: data[at],
        compressed: spec_u64(data, at + 8, be),
        uncompressed: if wide {
            spec_u64(data, at + 16, be)
        } else {
            spec_u64(data, at + 8, be)
        },
        data_at: spec_u64(data, at + 16 + shift, be),
        id: spec_u32(data, at + 24 + shift, be),
        name_at: spec_u32(data, at + 28 + shift, be),
    }
}

/// Whether the entry at `at`, its name and its data lie inside the bundle.
pub open spec fn bnd4_entry_ok(data: Seq<u8>, at: int, be: bool, unicode: bool, extended: u8) -> bool {
    let f = entry_fields(data, at, be, extended);
    &&& at + entry_stride(extended) <= data.len()
    &&& spec_name(data, f.name_at as int, unicode) is Some
    &&& f.data_at + stored_len(f.compressed, f.uncompressed) <= data.len()
}

/// The entry at `at`.
pub open spec fn bnd4_entry_view(
    data: Seq<u8>,
    at: int,
    be: bool,
    unicode: bool,
    extended: u8,
) -> Bnd4EntryView {
    let f = entry_fields(data, at, be, extended);
    Bnd4EntryView {
        flags: f.flags,
        id: f.id as i32,
        name: spec_name(data, f.name_at as int, unicode)->Some_0,
        uncompressed_size: f.uncompressed,
        compressed_size: f.compressed,
        data: data.subrange(
            f.data_at as int,
            f.data_at + stored_len(f.compressed, f.uncompressed),
        ),
    }
}

/// Where entry `i` of a bundle stands.
pub open spec fn bnd4_entry_at(extended: u8, i: int) -> int {
    entries_start(extended) + i * entry_stride(extended)
}

/// The bundle that `data` holds. The header names the byte order, the
/// number of entries, the version, whether names are UTF-16 and whether
/// the bundle is extended; the entries follow it. A count that is negative
/// as a signed number is too large; whatever is named must lie inside
/// `data`.
pub open spec fn spec_bnd4_read(data: Seq<u8>) -> Result<Bnd4View, Error> {
    if data.len() < 4 {
        Err(Error::Truncated)
    } else if !magic_at(data, 0, bnd4_magic()) {
        Err(Error::BadMagic)
    } else if data.len() < 52 {
        Err(Error::Truncated)
    } else {
        let be = data[4] & 0x01 != 0;
        let count = spec_u32(data, 8, be);
        let unicode = spec_u32(data, 44, be) == 1;
        let extended = data[48];
        if data.len() < entries_start(extended) {
            Err(Error::Truncated)
        } else if count >= 0x8000_0000 {
            Err(Error::TooLarge)
        } else if !(forall|i: int|
            0 <= i < count ==> bnd4_entry_ok(
                data,
                #[trigger] bnd4_entry_at(extended, i),
                be,
                unicode,
                extended,
            )) {
            Err(Error::Truncated)
        } else {
            Ok(
                Bnd4View {
                    version: spec_from_utf8_lossy(trim_nuls(data.subrange(20, 28))),
                    flags: data[5],
                    big_endian: be,
                    bit_big_endian: data[4] & 0x01 == 0 && data[4] & 0x80 != 0,
                    unicode,
                    extended,
                    entries: Seq::new(
                        count as nat,
                        |i: int|
                            bnd4_entry_view(data, bnd4_entry_at(extended, i), be, unicode, extended),
                    ),
                },
            )
        }
    }
}

/// Reads the bytes of a name up to a zero byte.
fn read_string(data: &[u8], at: usize) -> (r: Option<String>)
    ensures
        match r {
            Some(s) => spec_name(data@, at as int, false) == Some(s@),
            None => spec_name(data@, at as int, false) is None,
        },
{
    let len: usize = data.len();
    let mut j: usize = at;
    while j < len && data[j] != 0
        invariant
            at <= j || j == at,
            len == data@.len(),
            zero_from(data@, at as int) == zero_from(data@, j as int),
        decreases len - j,
    {
        j = j + 1;
    }
    if j >= len {
        return None;
    }
    let part = vstd::slice::slice_subrange(data, at, j);
    Some(string_from_utf8_lossy(part))
}

/// Reads the UTF-16 code units of a name up to a unit of 0.
fn read_wide_string(data: &[u8], at: usize) -> (r: Option<String>)
    ensures
        match r {
            Some(s) => spec_name(data@, at as int, true) == Some(s@),
            None => spec_name(data@, at as int, true) is None,
        },
{
    let len: usize = data.len();
    let mut units: Vec<u16> = Vec::new();
    let mut j: usize = at;
    loop
        invariant
            len == data@.len(),
            wide_units(data@, at as int) == (match wide_units(data@, j as int) {
                Some(rest) => Some(units@ + rest),
                None => None,
            }),
        decreases len - j,
    {
        let unit: u16 = match read_u16_le(data, j) {
            Some(v) => v,
            None => {
                return None;
            },
        };
        if unit == 0 {
            assert(units@ + Seq::<u16>::empty() =~= units@);
            return Some(string_from_utf16_lossy(units.as_slice()));
        }
        let ghost before = units@;
        units.push(unit);
        proof {
            match wide_units(data@, j + 2) {
                Some(rest) => {
                    assert(before + (seq![unit] + rest) =~= units@ + rest);
                },
                None => {},
            }
        }
        j = j + 2;
    }
}

/// Reads the entry at `at`.
fn read_bnd4_entry(data: &[u8], at: usize, be: bool, unicode: bool, extended: u8) -> (r: Option<
    Bnd4Entry,
>)
    ensures
        match r {
            Some(e) => bnd4_entry_ok(data@, at as int, be, unicode, extended) && e@
                == bnd4_entry_view(data@, at as int, be, unicode, extended),
            None => !bnd4_entry_ok(data@, at as int, be, unicode, extended),
        },
{
    let len: usize = data.len();
    let wide: bool = extended == EXTENDED;
    let stride: usize = if wide {
        48
    } else {
        32
    };
    if len < stride || at > len - stride {
        return None;
    }
    let shift: usize = if wide {
        8
    } else {
        0
    };
    let flags: u8 = data[at];
    let compressed: u64 = match read_u64(data, at + 8, be) {
        Some(v) => v,
        None => 0,
    };
    let uncompressed: u64 = if wide {
        match read_u64(data, at + 16, be) {
            Some(v) => v,
            None => 0,
        }
    } else {
        compressed
    };
    let data_at: u64 = match read_u64(data, at + 16 + shift, be) {
        Some(v) => v,
        None => 0,
    };
    let id: u32 = match read_u32(data, at + 24 + shift, be) {
        Some(v) => v,
        None => 0,
    };
    let name_at: u32 = match read_u32(data, at + 28 + shift, be) {
        Some(v) => v,
        None => 0,
    };
    let name = if unicode {
        read_wide_string(data, name_at as usize)
    } else {
        read_string(data, name_at as usize)
    };
    let name = match name {
        Some(n) => n,
        None => {
            return None;
        },
    };
    let stored: u64 = if 0 < compressed && compressed < 0x8000_0000_0000_0000 {
        compressed
    } else {
        uncompressed
    };
    if data_at > len as u64 || stored > len as u64 - data_at {
        return None;
    }
    let mut bytes: Vec<u8> = Vec::new();
    push_range(&mut bytes, data, data_at as usize, (data_at + stored) as usize);
    assert(bytes@ =~= data@.subrange(data_at as int, data_at + stored));
    Some(
        Bnd4Entry {
            flags,
            id: id as i32,
            name,
            uncompressed_size: uncompressed,
            compressed_size: compressed,
            data: bytes,
        },
    )
}

/// The length of the 8-byte version field at 20 without the zero bytes at
/// its end.
fn version_length(data: &[u8]) -> (r: usize)
    requires
        28 <= data@.len(),
    ensures
        r == trimmed_len(data@.subrange(20, 28)),
        r <= 8,
{
    let ghost field = data@.subrange(20, 28);
    let mut k: usize = 8;
    assert(field.subrange(0, 8) =~= field);
    while k > 0 && data[20 + k - 1] == 0
        invariant
            k <= 8,
            28 <= data@.len(),
            field == data@.subrange(20, 28),
            trimmed_len(field) == trimmed_len(field.subrange(0, k as int)),
        decreases k,
    {
        assert(field.subrange(0, k as int).drop_last() =~= field.subrange(0, k - 1));
        k = k - 1;
    }
    assert(trimmed_len(field.subrange(0, k as int)) == k);
    k
}

/// Whether entry `i` of `entries` is the first one with the given name.
pub open spec fn is_first_named(entries: Seq<Bnd4Entry>, name: Seq<char>, i: int) -> bool {
    &&& 0 <= i < entries.len()
    &&& entries[i].name@ == name
    &&& forall|k: int| 0 <= k < i ==> (#[trigger] entries[k]).name@ != name
}

impl Bnd4 {
    /// Reads a bundle.
    pub fn read(data: &[u8]) -> (r: Result<Bnd4, Error>)
        ensures
            match r {
                Ok(b) => spec_bnd4_read(data@) == Ok::<Bnd4View, Error>(b@),
                Err(e) => spec_bnd4_read(data@) == Err::<Bnd4View, Error>(e),
            },
    {
        let len: usize = data.len();
        if len < 4 {
            return Err(Error::Truncated);
        }
        if !(data[0] == 0x42 && data[1] == 0x4e && data[2] == 0x44 && data[3] == 0x34) {
            proof {
                let part = data@.subrange(0, 4);
                assert(part[0] == data@[0] && part[1] == data@[1] && part[2] == data@[2]
                    && part[3] == data@[3]);
            }
            return Err(Error::BadMagic);
        }
        assert(data@.subrange(0, 4) =~= bnd4_magic());
        if len < 52 {
            return Err(Error::Truncated);
        }
        let flag1: u8 = data[4];
        let flags: u8 = data[5];
        let be: bool = flag1 & 0x01 != 0;
        let bit_be: bool = flag1 & 0x01 == 0 && flag1 & 0x80 != 0;
        let count: u32 = match read_u32(data, 8, be) {
            Some(v) => v,
            None => 0,
        };
        let unicode: bool = match read_u32(data, 44, be) {
            Some(v) => v == 1,
            None => false,
        };
        let extended: u8 = data[48];
        let start: usize = if extended == EXTENDED {
            60
        } else {
            52
        };
        let stride: usize = if extended == EXTENDED {
            48
        } else {
            32
        };
        if len < start {
            return Err(Error::Truncated);
        }
        if count >= 0x8000_0000 {
            return Err(Error::TooLarge);
        }
        let version_len: usize = version_length(data);
        let field = vstd::slice::slice_subrange(data, 20, 20 + version_len);
        assert(field@ =~= trim_nuls(data@.subrange(20, 28)));
        let version = string_from_utf8_lossy(field);
        let mut entries: Vec<Bnd4Entry> = Vec::new();
        let mut i: u32 = 0;
        while i < count
            invariant
                i <= count,
                count < 0x8000_0000,
                52 <= data@.len(),
                len == data@.len(),
                start <= len,
                magic_at(data@, 0, bnd4_magic()),
                be == (data@[4] & 0x01 != 0),
                count == spec_u32(data@, 8, be),
                unicode == (spec_u32(data@, 44, be) == 1),
                extended == data@[48],
                start == entries_start(extended),
                stride == entry_stride(extended),
                entries@.len() == i,
                forall|k: int|
                    0 <= k < i ==> bnd4_entry_ok(
                        data@,
                        #[trigger] bnd4_entry_at(extended, k),
                        be,
                        unicode,
                        extended,
                    ),
                forall|k: int|
                    0 <= k < i ==> (#[trigger] entries@[k])@ == bnd4_entry_view(
                        data@,
                        bnd4_entry_at(extended, k),
                        be,
                        unicode,
                        extended,
                    ),
            decreases count - i,
        {
            assert(bnd4_entry_at(extended, i as int) == start + i * stride);
            assert(i * stride <= 0x8000_0000 * 48) by (nonlinear_arith)
                requires
                    i < 0x8000_0000,
                    stride <= 48,
            ;
            let at: u64 = start as u64 + i as u64 * stride as u64;
            if at > len as u64 {
                return Err(Error::Truncated);
            }
            match read_bnd4_entry(data, at as usize, be, unicode, extended) {
                Some(e) => {
                    entries.push(e);
                },
                None => {
                    return Err(Error::Truncated);
                },
            }
            i = i + 1;
        }
        let bundle = Bnd4 {
            version,
            flags,
            big_endian: be,
            bit_big_endian: bit_be,
            unicode,
            extended,
            entries,
        };
        assert(bundle@.entries =~= spec_bnd4_read(data@)->Ok_0.entries);
        Ok(bundle)
    }

    /// The first entry with the given name.
    pub fn get_entry(&self, name: &str) -> (r: Option<&Bnd4Entry>)
        ensures
            match r {
                Some(e) => exists|i: int|
                    #[trigger] is_first_named(self.entries@, name@, i) && *e == self.entries@[i],
                None => forall|k: int|
                    0 <= k < self.entries@.len() ==> (#[trigger] self.entries@[k]).name@ != name@,
            },
    {
        let n: usize = self.entries.len();
        let mut i: usize = 0;
        while i < n
            invariant
                i <= n,
                n == self.entries@.len(),
                forall|k: int| 0 <= k < i ==> (#[trigger] self.entries@[k]).name@ != name@,
            decreases n - i,
        {
            if str_eq(self.entries[i].name.as_str(), name) {
                assert(is_first_named(self.entries@, name@, i as int));
                return Some(&self.entries[i]);
            }
            i = i + 1;
        }
        None
    }

    /// The position of the first entry with the given name.
    pub fn find_entry(&self, name: &str) -> (r: Option<usize>)
        ensures
            match r {
                Some(i) => is_first_named(self.entries@, name@, i as int),
                None => forall|k: int|
                    0 <= k < self.entries@.len() ==> (#[trigger] self.entries@[k]).name@ != name@,
            },
    {
        let n: usize = self.entries.len();
        let mut i: usize = 0;
        while i < n
            invariant
                i <= n,
                n == self.entries@.len(),
                forall|k: int| 0 <= k < i ==> (#[trigger] self.entries@[k]).name@ != name@,
            decreases n - i,
        {
            if str_eq(self.entries[i].name.as_str(), name) {
                return Some(i);
            }
            i = i + 1;
        }
        None
    }

    /// The first entry with the given name, to be changed in place.
    pub fn get_entry_mut(&mut self, name: &str) -> (r: Option<&mut Bnd4Entry>)
        ensures
            match r {
                Some(e) => exists|i: int|
                    #[trigger] is_first_named(old(self).entries@, name@, i) && *e == old(
                        self,
                    ).entries@[i] && final(self).entries@ == old(self).entries@.update(
                        i,
                        *final(e),
                    ) && *final(self) == (Bnd4 { entries: final(self).entries, ..*old(self) }),
                None => *final(self) == *old(self) && forall|k: int|
                    0 <= k < old(self).entries@.len() ==> (#[trigger] old(self).entries@[k]).name@
                        != name@,
            },
    {
        match self.find_entry(name) {
            Some(i) => Some(&mut self.entries[i]),
            None => None,
        }
    }
}


/// `n` rounded up to a multiple of 16.
pub open spec fn align16(n: int) -> int {
    (n + 15) / 16 * 16
}

/// The buffer after `bytes` were written into it at `pos`: what was there
/// is overwritten, and a gap before `pos` is filled with zeros. Writing
/// nothing changes nothing.
pub open spec fn spec_put(buf: Seq<u8>, pos: int, bytes: Seq<u8>) -> Seq<u8> {
    if bytes.len() == 0 {
        buf
    } else {
        Seq::new(
            if buf.len() >= pos + bytes.len() {
                buf.len()
            } else {
                (pos + bytes.len()) as nat
            },
            |i: int|
                if pos <= i < pos + bytes.len() {
                    bytes[i - pos]
                } else if i < buf.len() {
                    buf[i]
                } else {
                    0u8
                },
        )
    }
}

/// The buffer cut down or filled up with zeros to the length `len`.
pub open spec fn spec_resize(buf: Seq<u8>, len: int) -> Seq<u8> {
    Seq::new(
        len as nat,
        |i: int|
            if i < buf.len() {
                buf[i]
            } else {
                0u8
            },
    )
}

/// The bytes of UTF-16 code units, each unit little-endian.
pub open spec fn wide_bytes(units: Seq<u16>) -> Seq<u8> {
    Seq::new(2 * units.len(), |j: int| u16_le_bytes(units[j / 2])[j % 2])
}

impl Bnd4View {
    /// Whether the entries are of the longer kind.
    pub open spec fn wide(self) -> bool {
        self.extended == EXTENDED
    }

    /// The length that the header gives for an entry of the table: 36 for
    /// the longer kind, else 24.
    pub open spec fn stated_entry_len(self) -> int {
        if self.wide() {
            36
        } else {
            24
        }
    }

    /// The room that is planned for the name of entry `i`: the bytes of
    /// the name in UTF-8 and one more, and twice that for UTF-16.
    pub open spec fn planned_name_len(self, i: int) -> int {
        let bytes = encode_utf8(self.entries[i].name).len() as int + 1;
        if self.unicode {
            bytes * 2
        } else {
            bytes
        }
    }

    /// Where the name of entry `i` is said to stand: the names are planned
    /// one after the other behind the table of entries as the header
    /// states its length.
    pub open spec fn name_offset(self, i: nat) -> int
        decreases i,
    {
        if i == 0 {
            entries_start(self.extended) + self.entries.len() * self.stated_entry_len()
        } else {
            self.name_offset((i - 1) as nat) + self.planned_name_len(i - 1)
        }
    }

    /// Where the data starts: behind the planned names, at a multiple of 16.
    pub open spec fn data_start(self) -> int {
        align16(self.name_offset(self.entries.len()))
    }

    /// Where the data of entry `i` stands: behind the data of the entry
    /// before it, at a multiple of 16.
    pub open spec fn data_offset(self, i: nat) -> int
        decreases i,
    {
        if i == 0 {
            self.data_start()
        } else {
            align16(self.data_offset((i - 1) as nat) + self.entries[i - 1].data.len())
        }
    }

    /// The header of the bundle.
    pub open spec fn header_bytes(self) -> Seq<u8> {
        let be = self.big_endian;
        bnd4_magic() + seq![
            (if self.big_endian {
                0x01u8
            } else {
                0x00u8
            }) | (if self.bit_big_endian {
                0x80u8
            } else {
                0x00u8
            }),
            self.flags,
            0u8,
            0u8,
        ] + u32_bytes(self.entries.len() as u32, be) + u64_bytes(
            entries_start(self.extended) as u64,
            be,
        ) + spec_version_field(self.version) + u64_bytes(self.stated_entry_len() as u64, be)
            + u64_bytes(self.data_start() as u64, be) + u32_bytes(
            if self.unicode {
                1
            } else {
                0
            },
            be,
        ) + seq![self.extended, 0u8, 0u8, 0u8] + (if self.wide() {
            u64_bytes(0, be)
        } else {
            Seq::empty()
        })
    }

    /// Entry `i` of the table of entries.
    pub open spec fn entry_bytes(self, i: int) -> Seq<u8> {
        let be = self.big_endian;
        let e = self.entries[i];
        seq![e.flags, 0u8, 0u8, 0u8] + u32_bytes(0xFFFF_FFFF, be) + u64_bytes(e.compressed_size, be)
            + (if self.wide() {
            u64_bytes(e.uncompressed_size, be)
        } else {
            Seq::empty()
        }) + u64_bytes(self.data_offset(i as nat) as u64, be) + u32_bytes(e.id as u32, be)
            + u32_bytes((self.name_offset(i as nat) % 0x1_0000_0000) as u32, be) + (if self.wide() {
            u64_bytes(0, be)
        } else {
            Seq::empty()
        })
    }

    /// The name of entry `i` as it is written: in UTF-16 with a unit of 0
    /// behind it, or in UTF-8 with a zero byte behind it.
    pub open spec fn name_bytes(self, i: int) -> Seq<u8> {
        if self.unicode {
            wide_bytes(utf16_units(self.entries[i].name)) + seq![0u8, 0u8]
        } else {
            encode_utf8(self.entries[i].name) + seq![0u8]
        }
    }

    /// The header followed by the first `k` entries of the table.
    pub open spec fn table_upto(self, k: nat) -> Seq<u8>
        decreases k,
    {
        if k == 0 {
            self.header_bytes()
        } else {
            self.table_upto((k - 1) as nat) + self.entry_bytes(k - 1)
        }
    }

    /// The header and the table followed by the first `k` names.
    pub open spec fn names_upto(self, k: nat) -> Seq<u8>
        decreases k,
    {
        if k == 0 {
            self.table_upto(self.entries.len())
        } else {
            self.names_upto((k - 1) as nat) + self.name_bytes(k - 1)
        }
    }

    /// What stands before the data: the header, the table and the names,
    /// filled up with zeros to the start of the data if they are shorter.
    pub open spec fn front(self) -> Seq<u8> {
        let s = self.names_upto(self.entries.len());
        if s.len() < self.data_start() {
            s + zeros((self.data_start() - s.len()) as nat)
        } else {
            s
        }
    }

    /// The buffer after the data of the first `k` entries was written,
    /// each at its place.
    pub open spec fn data_upto(self, k: nat) -> Seq<u8>
        decreases k,
    {
        if k == 0 {
            self.front()
        } else {
            spec_put(
                self.data_upto((k - 1) as nat),
                self.data_offset((k - 1) as nat),
                self.entries[k - 1].data,
            )
        }
    }

    /// The length of the written bundle: it ends behind the data of the
    /// last entry, or without entries where the data would start.
    pub open spec fn written_len(self) -> int {
        let n = self.entries.len();
        if n == 0 {
            self.front().len() as int
        } else {
            self.data_offset((n - 1) as nat) + self.entries[n - 1].data.len()
        }
    }

    /// The bundle as a file. The names are written behind the table one
    /// after the other, whatever room was planned for them, and the data of
    /// each entry at the place that the table gives it, over whatever
    /// stands there.
    pub open spec fn written(self) -> Seq<u8> {
        spec_resize(self.data_upto(self.entries.len()), self.written_len())
    }
}

/// The 8-byte version field: the first 8 bytes of the version at most,
/// then zeros.
pub open spec fn spec_version_field(version: Seq<char>) -> Seq<u8> {
    let b = encode_utf8(version);
    let k = if b.len() < 8 {
        b.len() as int
    } else {
        8
    };
    b.subrange(0, k) + zeros((8 - k) as nat)
}

/// What writing a bundle gives: the file, unless the bundle has more
/// entries than 31 bits can count, or its data would end behind what the
/// machine can address.
pub open spec fn spec_bnd4_write(b: Bnd4View) -> Result<Seq<u8>, Error> {
    if b.entries.len() >= 0x8000_0000 || b.data_offset(b.entries.len()) > usize::MAX {
        Err(Error::TooLarge)
    } else {
        Ok(b.written())
    }
}

/// Rounding up to a multiple of 16 does not go down.
proof fn lemma_align16(n: int)
    requires
        0 <= n,
    ensures
        n <= align16(n) < n + 16,
        align16(n) % 16 == 0,
{
}

/// The planned places of names and data only move up.
proof fn lemma_offsets_grow(b: Bnd4View, i: nat, k: nat)
    requires
        i <= k <= b.entries.len(),
    ensures
        0 <= b.name_offset(i) <= b.name_offset(k),
        b.name_offset(b.entries.len()) <= b.data_start(),
        b.data_start() <= b.data_offset(i) <= b.data_offset(k),
        i < k ==> b.data_offset(i) + b.entries[i as int].data.len() <= b.data_offset(k),
    decreases k,
{
    lemma_names_grow(b, i, k);
    lemma_names_grow(b, 0, b.entries.len());
    lemma_names_grow(b, k, b.entries.len());
    lemma_align16(b.name_offset(b.entries.len()));
    lemma_data_grow(b, 0, i);
    lemma_data_grow(b, i, k);
}

/// The planned places of names only move up.
proof fn lemma_names_grow(b: Bnd4View, i: nat, k: nat)
    requires
        i <= k <= b.entries.len(),
    ensures
        0 <= b.name_offset(i) <= b.name_offset(k),
    decreases k,
{
    if k > 0 {
        if i < k {
            lemma_names_grow(b, i, (k - 1) as nat);
        } else {
            lemma_names_grow(b, (i - 1) as nat, (k - 1) as nat);
        }
    } else {
        assert(b.entries.len() * b.stated_entry_len() >= 0) by (nonlinear_arith)
            requires
                b.stated_entry_len() >= 0,
        ;
    }
}

/// The places of the data only move up, each by its data at least.
proof fn lemma_data_grow(b: Bnd4View, i: nat, k: nat)
    requires
        i <= k <= b.entries.len(),
    ensures
        b.data_start() <= b.data_offset(i) <= b.data_offset(k),
        i < k ==> b.data_offset(i) + b.entries[i as int].data.len() <= b.data_offset(k),
    decreases k,
{
    lemma_names_grow(b, 0, b.entries.len());
    lemma_align16(b.name_offset(b.entries.len()));
    if k > 0 {
        lemma_data_grow(b, 0, (k - 1) as nat);
        lemma_align16(b.data_offset((k - 1) as nat) + b.entries[k - 1].data.len());
        if i < k {
            lemma_data_grow(b, i, (k - 1) as nat);
        }
    }
}

/// Writes `bytes` into `buf` at `pos`.
fn put(buf: &mut Vec<u8>, pos: usize, bytes: &[u8])
    requires
        pos + bytes@.len() <= usize::MAX,
    ensures
        final(buf)@ == spec_put(old(buf)@, pos as int, bytes@),
{
    let n: usize = bytes.len();
    if n == 0 {
        return ;
    }
    let old_len: usize = buf.len();
    if old_len < pos {
        push_zeros(buf, pos - old_len);
    }
    let ghost padded = buf@;
    assert(padded.len() == (if old_len < pos {
        pos
    } else {
        old_len
    }));
    assert forall|i: int| 0 <= i < padded.len() implies padded[i] == (if i < old_len {
        old(buf)@[i]
    } else {
        0u8
    }) by {
        if old_len < pos {
            assert(padded == old(buf)@ + zeros((pos - old_len) as nat));
        }
    }
    let mut k: usize = 0;
    while k < n
        invariant
            k <= n,
            n == bytes@.len(),
            pos + n <= usize::MAX,
            pos <= padded.len(),
            buf@.len() == (if padded.len() >= pos + k {
                padded.len()
            } else {
                (pos + k) as nat
            }),
            forall|i: int| 0 <= i < pos ==> buf@[i] == padded[i],
            forall|i: int| pos <= i < pos + k ==> buf@[i] == bytes@[i - pos],
            forall|i: int| pos + k <= i < padded.len() ==> buf@[i] == padded[i],
        decreases n - k,
    {
        if pos + k < buf.len() {
            buf.set(pos + k, bytes[k]);
        } else {
            buf.push(bytes[k]);
        }
        k = k + 1;
    }
    let ghost want = spec_put(old(buf)@, pos as int, bytes@);
    assert(buf@.len() == want.len());
    assert forall|i: int| 0 <= i < buf@.len() implies buf@[i] == want[i] by {
        if i < pos {
            assert(buf@[i] == padded[i]);
        } else if i >= pos + n {
            assert(buf@[i] == padded[i]);
        }
    }
    assert(buf@ =~= want);
}

/// Cuts `buf` down, or fills it up with zeros, to the length `len`.
fn resize(buf: &mut Vec<u8>, len: usize)
    ensures
        final(buf)@ == spec_resize(old(buf)@, len as int),
{
    let old_len: usize = buf.len();
    if len <= old_len {
        buf.truncate(len);
    } else {
        push_zeros(buf, len - old_len);
    }
    assert(buf@ =~= spec_resize(old(buf)@, len as int));
}

/// Appends the 8-byte version field.
fn push_version_field(out: &mut Vec<u8>, version: &String)
    ensures
        final(out)@ == old(out)@ + spec_version_field(version@),
{
    let bytes = version.as_str().as_bytes();
    let k: usize = if bytes.len() < 8 {
        bytes.len()
    } else {
        8
    };
    push_range(out, bytes, 0, k);
    push_zeros(out, 8 - k);
    assert(out@ =~= old(out)@ + spec_version_field(version@));
}

/// Appends UTF-16 code units, each little-endian.
fn push_wide(out: &mut Vec<u8>, units: &Vec<u16>)
    ensures
        final(out)@ == old(out)@ + wide_bytes(units@),
{
    let n: usize = units.len();
    let mut k: usize = 0;
    assert(out@ =~= old(out)@ + wide_bytes(units@.subrange(0, 0)));
    while k < n
        invariant
            k <= n,
            n == units@.len(),
            out@ == old(out)@ + wide_bytes(units@.subrange(0, k as int)),
        decreases n - k,
    {
        push_u16_le(out, units[k]);
        k = k + 1;
        assert(out@ =~= old(out)@ + wide_bytes(units@.subrange(0, k as int))) by {
            let a = wide_bytes(units@.subrange(0, k - 1));
            let c = wide_bytes(units@.subrange(0, k as int));
            assert(c =~= a + u16_le_bytes(units@[k - 1])) by {
                assert forall|j: int| 0 <= j < c.len() implies c[j] == (a + u16_le_bytes(
                    units@[k - 1],
                ))[j] by {
                    if j >= 2 * (k - 1) {
                        assert(j / 2 == k - 1 && j % 2 == j - 2 * (k - 1));
                    }
                }
            }
        }
    }
    assert(units@.subrange(0, n as int) =~= units@);
}


/// `n` rounded up to a multiple of 16.
fn align_up(n: u128) -> (r: u128)
    requires
        n <= 0xFFFF_FFFF_FFFF_FFFF_FFFF_FFFF_FFFF,
    ensures
        r == align16(n as int),
{
    (n + 15) / 16 * 16
}

impl Bnd4 {
    /// The room that is planned for the name of entry `i`.
    fn planned_name_len(&self, i: usize) -> (r: u128)
        requires
            i < self.entries@.len(),
        ensures
            r == self@.planned_name_len(i as int),
            0 < r <= 0x2_0000_0000_0000_0000,
    {
        assert(self.entries@[i as int]@ == self@.entries[i as int]);
        let bytes: u128 = self.entries[i].name.as_str().as_bytes().len() as u128 + 1;
        if self.unicode {
            bytes * 2
        } else {
            bytes
        }
    }

    /// Where the names are said to start.
    fn names_start(&self) -> (r: u128)
        requires
            self.entries@.len() < 0x8000_0000,
        ensures
            r == self@.name_offset(0),
            r <= 0x20_0000_0000,
    {
        let n: u128 = self.entries.len() as u128;
        if self.extended == EXTENDED {
            60 + n * 36
        } else {
            52 + n * 24
        }
    }

    /// Where the data starts.
    fn data_start(&self) -> (r: u128)
        requires
            self.entries@.len() < 0x8000_0000,
        ensures
            r == self@.data_start(),
            r <= 0x2_0000_0000_0000_0000_0000_0000,
    {
        let n: usize = self.entries.len();
        let mut cur: u128 = self.names_start();
        let mut i: usize = 0;
        while i < n
            invariant
                i <= n,
                n == self.entries@.len(),
                n < 0x8000_0000,
                cur == self@.name_offset(i as nat),
                cur <= 0x20_0000_0000 + i * 0x2_0000_0000_0000_0000,
            decreases n - i,
        {
            let planned: u128 = self.planned_name_len(i);
            cur = cur + planned;
            i = i + 1;
        }
        align_up(cur)
    }

    /// Where the data of entry `k` stands.
    fn data_offset(&self, k: usize) -> (r: u128)
        requires
            self.entries@.len() < 0x8000_0000,
            k <= self.entries@.len(),
        ensures
            r == self@.data_offset(k as nat),
            r <= 0x4_0000_0000_0000_0000_0000_0000,
    {
        let mut cur: u128 = self.data_start();
        let mut i: usize = 0;
        while i < k
            invariant
                i <= k,
                k <= self.entries@.len(),
                self.entries@.len() < 0x8000_0000,
                cur == self@.data_offset(i as nat),
                cur <= 0x2_0000_0000_0000_0000_0000_0000 + i * 0x2_0000_0000_0000_0000,
            decreases k - i,
        {
            assert(self.entries@[i as int]@ == self@.entries[i as int]);
            cur = align_up(cur + self.entries[i].data.len() as u128);
            i = i + 1;
        }
        cur
    }

    /// Appends the header.
    fn push_header(&self, out: &mut Vec<u8>, data_start: u64)
        requires
            old(out)@.len() == 0,
            self.entries@.len() < 0x8000_0000,
            data_start == self@.data_start(),
        ensures
            final(out)@ == self@.header_bytes(),
    {
        let be = self.big_endian;
        let wide = self.extended == EXTENDED;
        let flag1: u8 = (if self.big_endian {
            0x01u8
        } else {
            0x00u8
        }) | (if self.bit_big_endian {
            0x80u8
        } else {
            0x00u8
        });
        out.push(0x42);
        out.push(0x4e);
        out.push(0x44);
        out.push(0x34);
        out.push(flag1);
        out.push(self.flags);
        out.push(0);
        out.push(0);
        assert(out@ =~= bnd4_magic() + seq![flag1, self.flags, 0u8, 0u8]);
        push_u32(out, self.entries.len() as u32, be);
        push_u64(
            out,
            if wide {
                60
            } else {
                52
            },
            be,
        );
        push_version_field(out, &self.version);
        push_u64(
            out,
            if wide {
                36
            } else {
                24
            },
            be,
        );
        push_u64(out, data_start, be);
        push_u32(
            out,
            if self.unicode {
                1
            } else {
                0
            },
            be,
        );
        let ghost a = out@;
        out.push(self.extended);
        out.push(0);
        out.push(0);
        out.push(0);
        assert(out@ =~= a + seq![self.extended, 0u8, 0u8, 0u8]);
        if wide {
            push_u64(out, 0, be);
        } else {
            assert(out@ =~= out@ + Seq::<u8>::empty());
        }
    }

    /// Appends entry `i` of the table, its name said to stand at
    /// `name_at` and its data standing at `data_at`.
    fn push_entry(&self, out: &mut Vec<u8>, i: usize, name_at: u128, data_at: u64)
        requires
            i < self.entries@.len(),
            name_at == self@.name_offset(i as nat),
            data_at == self@.data_offset(i as nat),
        ensures
            final(out)@ == old(out)@ + self@.entry_bytes(i as int),
    {
        let be = self.big_endian;
        let wide = self.extended == EXTENDED;
        let e = &self.entries[i];
        assert(e@ == self@.entries[i as int]);
        let ghost base = out@;
        out.push(e.flags);
        out.push(0);
        out.push(0);
        out.push(0);
        let ghost a1 = seq![e.flags, 0u8, 0u8, 0u8];
        assert(out@ =~= base + a1);
        push_u32(out, 0xFFFF_FFFF, be);
        let ghost a2 = a1 + u32_bytes(0xFFFF_FFFF, be);
        push_u64(out, e.compressed_size, be);
        let ghost a3 = a2 + u64_bytes(e.compressed_size, be);
        if wide {
            push_u64(out, e.uncompressed_size, be);
        }
        let ghost a4 = a3 + (if wide {
            u64_bytes(e.uncompressed_size, be)
        } else {
            Seq::<u8>::empty()
        });
        push_u64(out, data_at, be);
        let ghost a5 = a4 + u64_bytes(data_at, be);
        push_u32(out, e.id as u32, be);
        let ghost a6 = a5 + u32_bytes(e.id as u32, be);
        let name32: u32 = (name_at % 0x1_0000_0000) as u32;
        push_u32(out, name32, be);
        let ghost a7 = a6 + u32_bytes(name32, be);
        if wide {
            push_u64(out, 0, be);
        }
        let ghost a8 = a7 + (if wide {
            u64_bytes(0, be)
        } else {
            Seq::<u8>::empty()
        });
        assert(out@ =~= base + a8);
    }

    /// Appends the name of entry `i`.
    fn push_name(&self, out: &mut Vec<u8>, i: usize)
        requires
            i < self.entries@.len(),
        ensures
            final(out)@ == old(out)@ + self@.name_bytes(i as int),
    {
        let e = &self.entries[i];
        assert(e@ == self@.entries[i as int]);
        let ghost base = out@;
        if self.unicode {
            let units = encode_utf16(e.name.as_str());
            push_wide(out, &units);
            out.push(0);
            out.push(0);
            assert(out@ =~= base + (wide_bytes(units@) + seq![0u8, 0u8]));
        } else {
            let bytes = e.name.as_str().as_bytes();
            out.extend_from_slice(bytes);
            out.push(0);
            assert(out@ =~= base + (bytes@ + seq![0u8]));
        }
    }

    /// Writes the bundle as a file.
    pub fn write(&self) -> (r: Result<Vec<u8>, Error>)
        ensures
            crate::bytes::bytes_result_view(r) == spec_bnd4_write(self@),
    {
        let n: usize = self.entries.len();
        if n >= 0x8000_0000 {
            return Err(Error::TooLarge);
        }
        let limit: u128 = self.data_offset(n);
        if limit > usize::MAX as u128 {
            return Err(Error::TooLarge);
        }
        proof {
            lemma_offsets_grow(self@, 0, n as nat);
        }
        let data_start: u128 = self.data_start();
        let mut out: Vec<u8> = Vec::new();
        self.push_header(&mut out, data_start as u64);
        let mut name_at: u128 = self.names_start();
        let mut data_at: u128 = data_start;
        let mut i: usize = 0;
        while i < n
            invariant
                i <= n,
                n == self.entries@.len(),
                n < 0x8000_0000,
                self@.data_offset(n as nat) <= usize::MAX,
                name_at == self@.name_offset(i as nat),
                data_at == self@.data_offset(i as nat),
                name_at <= 0x20_0000_0000 + i * 0x2_0000_0000_0000_0000,
                out@ == self@.table_upto(i as nat),
            decreases n - i,
        {
            proof {
                lemma_offsets_grow(self@, i as nat, n as nat);
                lemma_offsets_grow(self@, (i + 1) as nat, n as nat);
            }
            self.push_entry(&mut out, i, name_at, data_at as u64);
            let planned: u128 = self.planned_name_len(i);
            name_at = name_at + planned;
            assert(self.entries@[i as int]@ == self@.entries[i as int]);
            data_at = align_up(data_at + self.entries[i].data.len() as u128);
            i = i + 1;
        }
        let mut k: usize = 0;
        while k < n
            invariant
                k <= n,
                n == self.entries@.len(),
                out@ == self@.names_upto(k as nat),
            decreases n - k,
        {
            self.push_name(&mut out, k);
            k = k + 1;
        }
        if (out.len() as u128) < data_start {
            let gap: usize = (data_start - out.len() as u128) as usize;
            push_zeros(&mut out, gap);
        }
        assert(out@ == self@.front());
        let mut total: usize = out.len();
        let mut at: u128 = data_start;
        let mut m: usize = 0;
        while m < n
            invariant
                m <= n,
                n == self.entries@.len(),
                n < 0x8000_0000,
                self@.data_offset(n as nat) <= usize::MAX,
                at == self@.data_offset(m as nat),
                out@ == self@.data_upto(m as nat),
                total == (if m == 0 {
                    self@.front().len() as int
                } else {
                    self@.data_offset((m - 1) as nat) + self@.entries[m - 1].data.len()
                }),
            decreases n - m,
        {
            proof {
                lemma_offsets_grow(self@, m as nat, n as nat);
                lemma_offsets_grow(self@, (m + 1) as nat, n as nat);
            }
            assert(self.entries@[m as int]@ == self@.entries[m as int]);
            let size: usize = self.entries[m].data.len();
            put(&mut out, at as usize, self.entries[m].data.as_slice());
            total = at as usize + size;
            at = align_up(at + size as u128);
            m = m + 1;
        }
        resize(&mut out, total);
        Ok(out)
    }
}

} // verus!
