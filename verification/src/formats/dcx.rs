//! DCX files: a compressed payload behind a header.

use crate::bytes::{be_u32, bytes_result_view, push_u32_be, read_u32_be, u32_be_bytes};
use crate::error::Error;
use std::io::{Read, Write};
use vstd::prelude::*;

verus! {

/// How the payload of a DCX file is compressed.
#[derive(Debug, Clone, Copy, PartialEq, Eq, Structural)]
pub enum DcxType {
    /// Not at all.
    Uncompressed,
    Zlib,
    Dflt,
    Edge,
    Kraken,
}

/// The four bytes `DCX` and zero, with which a file starts.
pub open spec fn dcx_magic() -> Seq<u8> {
    seq![0x44u8, 0x43u8, 0x58u8, 0x00u8]
}

/// The four bytes `DCS` and zero, which open the block of sizes.
pub open spec fn dcs_magic() -> Seq<u8> {
    seq![0x44u8, 0x43u8, 0x53u8, 0x00u8]
}

/// The four bytes `DCP` and zero, which open the block of parameters.
pub open spec fn dcp_magic() -> Seq<u8> {
    seq![0x44u8, 0x43u8, 0x50u8, 0x00u8]
}

/// The four bytes `DCA` and zero, which open the block before the payload.
pub open spec fn dca_magic() -> Seq<u8> {
    seq![0x44u8, 0x43u8, 0x41u8, 0x00u8]
}

/// The four bytes `DFLT`.
pub open spec fn dflt_magic() -> Seq<u8> {
    seq![0x44u8, 0x46u8, 0x4cu8, 0x54u8]
}

/// The four bytes `EDGE`.
pub open spec fn edge_magic() -> Seq<u8> {
    seq![0x45u8, 0x44u8, 0x47u8, 0x45u8]
}

/// The four bytes `KRAK`.
pub open spec fn krak_magic() -> Seq<u8> {
    seq![0x4bu8, 0x52u8, 0x41u8, 0x4bu8]
}

/// What zlib inflation makes of `data`; `None` where `data` is no zlib
/// stream.
pub uninterp spec fn zlib_inflated(data: Seq<u8>) -> Option<Seq<u8>>;

/// What raw deflate inflation makes of `data`; `None` where `data` is no
/// deflate stream.
pub uninterp spec fn deflate_inflated(data: Seq<u8>) -> Option<Seq<u8>>;

/// The zlib stream that compression at the best level makes of `data`.
pub uninterp spec fn zlib_deflated(data: Seq<u8>) -> Seq<u8>;

/// `flate2::read::ZlibDecoder` over `data`, read to its end.
#[verifier::external_body]
fn zlib_inflate(data: &[u8]) -> (r: Option<Vec<u8>>)
    ensures
        match r {
            Some(v) => zlib_inflated(data@) == Some(v@),
            None => zlib_inflated(data@) is None,
        },
{
    let mut out = Vec::new();
    flate2::read::ZlibDecoder::new(data).read_to_end(&mut out).ok().map(|_| out)
}

/// `flate2::read::DeflateDecoder` over `data`, read to its end.
#[verifier::external_body]
fn deflate_inflate(data: &[u8]) -> (r: Option<Vec<u8>>)
    ensures
        match r {
            Some(v) => deflate_inflated(data@) == Some(v@),
            None => deflate_inflated(data@) is None,
        },
{
    let mut out = Vec::new();
    flate2::read::DeflateDecoder::new(data).read_to_end(&mut out).ok().map(|_| out)
}

/// `flate2::write::ZlibEncoder` at `Compression::best()`, fed all of `data`
/// and finished. `None` where the encoder reports a failure.
#[verifier::external_body]
fn zlib_deflate(data: &[u8]) -> (r: Option<Vec<u8>>)
    ensures
        r matches Some(v) ==> v@ == zlib_deflated(data@),
{
    let mut encoder = flate2::write::ZlibEncoder::new(Vec::new(), flate2::Compression::best());
    encoder.write_all(data).ok()?;
    encoder.finish().ok()
}

/// Whether `data` holds the four bytes `magic` at `at`.
pub open spec fn magic_at(data: Seq<u8>, at: int, magic: Seq<u8>) -> bool {
    at + 4 <= data.len() && data.subrange(at, at + 4) == magic
}

/// Whether `data` holds the four bytes `m0` to `m3` at `at`.
fn has_magic_at(data: &[u8], at: usize, m0: u8, m1: u8, m2: u8, m3: u8) -> (r: bool)
    ensures
        r == magic_at(data@, at as int, seq![m0, m1, m2, m3]),
{
    if data.len() < 4 || at > data.len() - 4 {
        return false;
    }
    let r = data[at] == m0 && data[at + 1] == m1 && data[at + 2] == m2 && data[at + 3] == m3;
    proof {
        let part = data@.subrange(at as int, at + 4);
        let magic = seq![m0, m1, m2, m3];
        if r {
            assert(part =~= magic);
        } else {
            assert(part[0] == data@[at as int] && part[1] == data@[at + 1] && part[2] == data@[at
                + 2] && part[3] == data@[at + 3]);
            assert(magic[0] == m0 && magic[1] == m1 && magic[2] == m2 && magic[3] == m3);
        }
    }
    r
}

impl DcxType {
    /// The scheme that four bytes name.
    pub open spec fn spec_from_magic(magic: Seq<u8>) -> Option<DcxType> {
        if magic == dflt_magic() {
            Some(DcxType::Dflt)
        } else if magic == edge_magic() {
            Some(DcxType::Edge)
        } else if magic == krak_magic() {
            Some(DcxType::Kraken)
        } else {
            None
        }
    }

    /// The four bytes that name the scheme.
    pub open spec fn spec_to_magic(self) -> Seq<u8> {
        match self {
            DcxType::Uncompressed => seq![0u8, 0u8, 0u8, 0u8],
            DcxType::Zlib => dflt_magic(),
            DcxType::Dflt => dflt_magic(),
            DcxType::Edge => edge_magic(),
            DcxType::Kraken => krak_magic(),
        }
    }

    /// The scheme that four bytes name, if they name one.
    pub fn from_magic(magic: &[u8; 4]) -> (r: Option<DcxType>)
        ensures
            r == Self::spec_from_magic(magic@),
    {
        let m = magic.as_slice();
        assert(m@.subrange(0, 4) =~= magic@);
        if has_magic_at(m, 0, 0x44, 0x46, 0x4c, 0x54) {
            Some(DcxType::Dflt)
        } else if has_magic_at(m, 0, 0x45, 0x44, 0x47, 0x45) {
            Some(DcxType::Edge)
        } else if has_magic_at(m, 0, 0x4b, 0x52, 0x41, 0x4b) {
            Some(DcxType::Kraken)
        } else {
            None
        }
    }

    /// The four bytes that name the scheme.
    pub fn to_magic(&self) -> (r: [u8; 4])
        ensures
            r@ == self.spec_to_magic(),
    {
        let r: [u8; 4] = match self {
            DcxType::Uncompressed => [0x00, 0x00, 0x00, 0x00],
            DcxType::Zlib => [0x44, 0x46, 0x4c, 0x54],
            DcxType::Dflt => [0x44, 0x46, 0x4c, 0x54],
            DcxType::Edge => [0x45, 0x44, 0x47, 0x45],
            DcxType::Kraken => [0x4b, 0x52, 0x41, 0x4b],
        };
        assert(r@ =~= self.spec_to_magic());
        r
    }
}

/// A payload and how it was, or is to be, compressed.
#[derive(Debug)]
pub struct Dcx {
    pub compression: DcxType,
    pub data: Vec<u8>,
}

/// Where the payload of a DCX file starts whose scheme is `scheme`: a
/// deflated payload has four more bytes before it, and where those are the
/// DCA magic, another four.
pub open spec fn spec_payload_start(data: Seq<u8>, scheme: DcxType) -> Result<int, Error> {
    if scheme == DcxType::Dflt {
        if data.len() < 56 {
            Err(Error::Truncated)
        } else if magic_at(data, 52, dca_magic()) {
            if data.len() < 60 {
                Err(Error::Truncated)
            } else {
                Ok(60int)
            }
        } else {
            Ok(56int)
        }
    } else {
        Ok(52int)
    }
}

/// What inflating a deflated payload gives: what zlib makes of it, or
/// where it is no zlib stream, what raw deflate makes of it.
pub open spec fn spec_inflate(payload: Seq<u8>) -> Result<Seq<u8>, Error> {
    match zlib_inflated(payload) {
        Some(v) => Ok(v),
        None => match deflate_inflated(payload) {
            Some(v) => Ok(v),
            None => Err(Error::Inflate),
        },
    }
}

/// What a DCX file holds: its scheme and its payload, inflated. The file
/// starts with the DCX magic; the DCS block with the two sizes stands at
/// 16, the DCP block with the scheme at 28; the payload has the stored
/// compressed size. Only deflated payloads can be read.
pub open spec fn spec_decompress(data: Seq<u8>) -> Result<(DcxType, Seq<u8>), Error> {
    if !magic_at(data, 0, dcx_magic()) {
        Err(Error::BadMagic)
    } else if data.len() < 20 {
        Err(Error::Truncated)
    } else if !magic_at(data, 16, dcs_magic()) {
        Err(Error::BadMagic)
    } else if data.len() < 32 {
        Err(Error::Truncated)
    } else if !magic_at(data, 28, dcp_magic()) {
        Err(Error::BadMagic)
    } else if data.len() < 36 {
        Err(Error::Truncated)
    } else {
        match DcxType::spec_from_magic(data.subrange(32, 36)) {
            None => Err(Error::UnknownCompression),
            Some(scheme) => if data.len() < 52 {
                Err(Error::Truncated)
            } else {
                match spec_payload_start(data, scheme) {
                    Err(e) => Err(e),
                    Ok(start) => {
                        let size = be_u32(data, 24) as int;
                        if start + size > data.len() {
                            Err(Error::Truncated)
                        } else if scheme != DcxType::Dflt {
                            Err(Error::UnsupportedCompression)
                        } else {
                            match spec_inflate(data.subrange(start, start + size)) {
                                Err(e) => Err(e),
                                Ok(v) => Ok((scheme, v)),
                            }
                        }
                    },
                }
            },
        }
    }
}

/// The header of a DCX file for a payload of `size` bytes that takes
/// `packed` bytes under `scheme`.
pub open spec fn spec_dcx_header(size: u32, packed: u32, scheme: DcxType) -> Seq<u8> {
    dcx_magic() + u32_be_bytes(0x10000) + u32_be_bytes(0x18) + u32_be_bytes(0x24) + u32_be_bytes(
        0x24,
    ) + u32_be_bytes(0x2C) + dcs_magic() + u32_be_bytes(size) + u32_be_bytes(packed) + dcp_magic()
        + scheme.spec_to_magic() + u32_be_bytes(0x20) + u32_be_bytes(0x09) + u32_be_bytes(0)
        + u32_be_bytes(0) + u32_be_bytes(0) + u32_be_bytes(0x0001_0100) + dca_magic()
        + u32_be_bytes(0x08)
}

/// The DCX file for a payload of `size` bytes whose packed form is
/// `packed`: the header and the packed payload. It fails where one of the
/// two lengths does not fit 32 bits.
pub open spec fn spec_frame(size: int, packed: Seq<u8>, scheme: DcxType) -> Result<Seq<u8>, Error> {
    if size > u32::MAX || packed.len() > u32::MAX {
        Err(Error::TooLarge)
    } else {
        Ok(spec_dcx_header(size as u32, packed.len() as u32, scheme) + packed)
    }
}

/// What compressing a payload into a DCX file may give. Edge and Kraken
/// cannot be written. A payload that is not to be compressed is framed as
/// it is; else, if the compressor does not fail, its zlib stream is framed.
pub open spec fn compress_post(data: Seq<u8>, scheme: DcxType, r: Result<Seq<u8>, Error>) -> bool {
    match scheme {
        DcxType::Kraken | DcxType::Edge => r == Err::<Seq<u8>, Error>(
            Error::UnsupportedCompression,
        ),
        DcxType::Uncompressed => r == spec_frame(data.len() as int, data, scheme),
        _ => r == Err::<Seq<u8>, Error>(Error::Deflate) || r == spec_frame(
            data.len() as int,
            zlib_deflated(data),
            scheme,
        ),
    }
}

/// Appends four bytes.
fn push4(out: &mut Vec<u8>, m0: u8, m1: u8, m2: u8, m3: u8)
    ensures
        final(out)@ == old(out)@ + seq![m0, m1, m2, m3],
{
    out.push(m0);
    out.push(m1);
    out.push(m2);
    out.push(m3);
    assert(out@ =~= old(out)@ + seq![m0, m1, m2, m3]);
}

/// Makes the header of a DCX file.
fn dcx_header(size: u32, packed: u32, scheme: DcxType) -> (r: Vec<u8>)
    ensures
        r@ == spec_dcx_header(size, packed, scheme),
{
    let mut out: Vec<u8> = Vec::new();
    push4(&mut out, 0x44, 0x43, 0x58, 0x00);
    assert(out@ =~= dcx_magic());
    push_u32_be(&mut out, 0x10000);
    push_u32_be(&mut out, 0x18);
    push_u32_be(&mut out, 0x24);
    push_u32_be(&mut out, 0x24);
    push_u32_be(&mut out, 0x2C);
    push4(&mut out, 0x44, 0x43, 0x53, 0x00);
    push_u32_be(&mut out, size);
    push_u32_be(&mut out, packed);
    push4(&mut out, 0x44, 0x43, 0x50, 0x00);
    let magic = scheme.to_magic();
    out.extend_from_slice(magic.as_slice());
    assert(out@ =~= dcx_magic() + u32_be_bytes(0x10000) + u32_be_bytes(0x18) + u32_be_bytes(0x24)
        + u32_be_bytes(0x24) + u32_be_bytes(0x2C) + dcs_magic() + u32_be_bytes(size)
        + u32_be_bytes(packed) + dcp_magic() + scheme.spec_to_magic());
    push_u32_be(&mut out, 0x20);
    push_u32_be(&mut out, 0x09);
    push_u32_be(&mut out, 0);
    push_u32_be(&mut out, 0);
    push_u32_be(&mut out, 0);
    push_u32_be(&mut out, 0x0001_0100);
    push4(&mut out, 0x44, 0x43, 0x41, 0x00);
    push_u32_be(&mut out, 0x08);
    out
}

impl Dcx {
    /// Whether `data` starts with the magic of a DCX file.
    pub fn is_dcx(data: &[u8]) -> (r: bool)
        ensures
            r == magic_at(data@, 0, dcx_magic()),
    {
        has_magic_at(data, 0, 0x44, 0x43, 0x58, 0x00)
    }

    /// Reads a DCX file and inflates its payload.
    pub fn decompress(data: &[u8]) -> (r: Result<Dcx, Error>)
        ensures
            match r {
                Ok(d) => spec_decompress(data@) == Ok::<(DcxType, Seq<u8>), Error>(
                    (d.compression, d.data@),
                ),
                Err(e) => spec_decompress(data@) == Err::<(DcxType, Seq<u8>), Error>(e),
            },
    {
        let len: usize = data.len();
        if !Self::is_dcx(data) {
            return Err(Error::BadMagic);
        }
        if len < 20 {
            return Err(Error::Truncated);
        }
        if !has_magic_at(data, 16, 0x44, 0x43, 0x53, 0x00) {
            return Err(Error::BadMagic);
        }
        if len < 32 {
            return Err(Error::Truncated);
        }
        let packed: usize = match read_u32_be(data, 24) {
            Some(v) => v as usize,
            None => 0,
        };
        if !has_magic_at(data, 28, 0x44, 0x43, 0x50, 0x00) {
            return Err(Error::BadMagic);
        }
        if len < 36 {
            return Err(Error::Truncated);
        }
        let compression = if has_magic_at(data, 32, 0x44, 0x46, 0x4c, 0x54) {
            DcxType::Dflt
        } else if has_magic_at(data, 32, 0x45, 0x44, 0x47, 0x45) {
            DcxType::Edge
        } else if has_magic_at(data, 32, 0x4b, 0x52, 0x41, 0x4b) {
            DcxType::Kraken
        } else {
            return Err(Error::UnknownCompression);
        };
        if len < 52 {
            return Err(Error::Truncated);
        }
        let start: usize = match compression {
            DcxType::Dflt => {
                if len < 56 {
                    return Err(Error::Truncated);
                }
                if has_magic_at(data, 52, 0x44, 0x43, 0x41, 0x00) {
                    if len < 60 {
                        return Err(Error::Truncated);
                    }
                    60
                } else {
                    56
                }
            },
            _ => 52,
        };
        if packed > len - start {
            return Err(Error::Truncated);
        }
        match compression {
            DcxType::Dflt => {},
            _ => {
                return Err(Error::UnsupportedCompression);
            },
        }
        let payload = vstd::slice::slice_subrange(data, start, start + packed);
        let inflated = match zlib_inflate(payload) {
            Some(v) => v,
            None => match deflate_inflate(payload) {
                Some(v) => v,
                None => {
                    return Err(Error::Inflate);
                },
            },
        };
        Ok(Dcx { compression, data: inflated })
    }

    /// Compresses a payload into a DCX file.
    pub fn compress(data: &[u8], compression: DcxType) -> (r: Result<Vec<u8>, Error>)
        ensures
            compress_post(data@, compression, bytes_result_view(r)),
    {
        let packed: Vec<u8> = match compression {
            DcxType::Dflt | DcxType::Zlib => match zlib_deflate(data) {
                Some(v) => v,
                None => {
                    return Err(Error::Deflate);
                },
            },
            DcxType::Uncompressed => vstd::slice::slice_to_vec(data),
            DcxType::Kraken | DcxType::Edge => {
                return Err(Error::UnsupportedCompression);
            },
        };
        Self::frame(data.len(), packed.as_slice(), compression)
    }

    /// Puts the header of a DCX file before a packed payload. `size` is the
    /// length of the payload before it was packed.
    pub fn frame(size: usize, packed: &[u8], compression: DcxType) -> (r: Result<Vec<u8>, Error>)
        ensures
            bytes_result_view(r) == spec_frame(size as int, packed@, compression),
    {
        if size > 0xFFFF_FFFF || packed.len() > 0xFFFF_FFFF {
            return Err(Error::TooLarge);
        }
        let mut out = dcx_header(size as u32, packed.len() as u32, compression);
        let ghost header = out@;
        out.extend_from_slice(packed);
        assert(out@ =~= header + packed@);
        Ok(out)
    }

    /// A payload with the scheme that it is to be compressed with.
    pub fn new(data: Vec<u8>, compression: DcxType) -> (r: Dcx)
        ensures
            r.data == data,
            r.compression == compression,
    {
        Dcx { compression, data }
    }
}

} // verus!
