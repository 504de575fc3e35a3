//! What can go wrong.

use vstd::prelude::*;

verus! {

/// Why an operation of this library failed.
#[derive(Debug, Clone, Copy, PartialEq, Eq, Structural)]
pub enum Error {
    /// The buffer is shorter than the smallest header of its format.
    TooSmall,
    /// No known magic was found, neither in the clear nor under a cipher.
    UnknownFormat,
    /// The codec id is outside the enumeration.
    UnknownCodec,
    /// A header, a chunk or a name runs past the end of the buffer.
    Truncated,
    /// A chunk is too short for what its type must hold.
    MalformedChunk,
    /// A sample's data range lies outside the buffer or the data region.
    SampleOutOfBounds,
    /// A recognized compression scheme that this library does not implement.
    UnsupportedCompression,
    /// A count or a size does not fit the field that stores it.
    TooLarge,
    /// There is no sample or entry at the given index.
    IndexOutOfBounds,
    /// The operation belongs to the other container version.
    WrongVersion,
    /// The bank's codec is not MPEG.
    NotMpeg,
    /// The bank's codec is not Vorbis.
    NotVorbis,
    /// A Vorbis sample that carries no setup checksum.
    MissingChecksum,
    /// The setup dictionary has no entry for this checksum.
    UnknownSetupChecksum(u32),
    /// The encoded replacement holds no sample.
    EmptyReplacement,
    /// The replacement's frequency or channel count differs from the target's.
    FormatMismatch,
    /// The replacement's setup checksum is not in the dictionary.
    UnsupportedSetup(u32),
    /// A magic number or a fixed field does not have the expected value.
    BadMagic,
    /// The compression scheme is none that is known.
    UnknownCompression,
    /// The compressed payload could not be inflated.
    Inflate,
    /// The payload could not be compressed.
    Deflate,
    /// An encryption key of the wrong length.
    BadKey,
    /// An entry's data lies outside the archive.
    EntryOutOfBounds,
}


/// The family that an error belongs to.
#[derive(Debug, Clone, Copy, PartialEq, Eq, Structural)]
pub enum ErrorFamily {
    /// The bytes are not a sound file of a kind that this library reads.
    Format,
    /// A cipher was used in a way that it does not allow.
    Crypto,
    /// A codec's stream could not be rebuilt.
    Codec,
    /// A sample could not be replaced.
    Replacement,
    /// An archive around a bank could not be read or written.
    Archive,
}

impl Error {
    /// The family that the error belongs to.
    pub open spec fn spec_family(self) -> ErrorFamily {
        match self {
            Error::TooSmall
            | Error::UnknownFormat
            | Error::UnknownCodec
            | Error::Truncated
            | Error::MalformedChunk
            | Error::SampleOutOfBounds
            | Error::UnsupportedCompression
            | Error::TooLarge => ErrorFamily::Format,
            Error::BadKey => ErrorFamily::Crypto,
            Error::NotMpeg
            | Error::NotVorbis
            | Error::MissingChecksum
            | Error::UnknownSetupChecksum(_) => ErrorFamily::Codec,
            Error::IndexOutOfBounds
            | Error::WrongVersion
            | Error::EmptyReplacement
            | Error::FormatMismatch
            | Error::UnsupportedSetup(_) => ErrorFamily::Replacement,
            Error::BadMagic
            | Error::UnknownCompression
            | Error::Inflate
            | Error::Deflate
            | Error::EntryOutOfBounds => ErrorFamily::Archive,
        }
    }

    /// The family that the error belongs to.
    pub fn family(&self) -> (r: ErrorFamily)
        ensures
            r == self.spec_family(),
    {
        match self {
            Error::TooSmall
            | Error::UnknownFormat
            | Error::UnknownCodec
            | Error::Truncated
            | Error::MalformedChunk
            | Error::SampleOutOfBounds
            | Error::UnsupportedCompression
            | Error::TooLarge => ErrorFamily::Format,
            Error::BadKey => ErrorFamily::Crypto,
            Error::NotMpeg
            | Error::NotVorbis
            | Error::MissingChecksum
            | Error::UnknownSetupChecksum(_) => ErrorFamily::Codec,
            Error::IndexOutOfBounds
            | Error::WrongVersion
            | Error::EmptyReplacement
            | Error::FormatMismatch
            | Error::UnsupportedSetup(_) => ErrorFamily::Replacement,
            Error::BadMagic
            | Error::UnknownCompression
            | Error::Inflate
            | Error::Deflate
            | Error::EntryOutOfBounds => ErrorFamily::Archive,
        }
    }

    /// The text that says what went wrong.
    pub open spec fn spec_message(self) -> Seq<char> {
        match self {
            Error::TooSmall => "File too small"@,
            Error::UnknownFormat => "Unknown format"@,
            Error::UnknownCodec => "Unknown codec"@,
            Error::Truncated => "Unexpected end of data"@,
            Error::MalformedChunk => "Malformed chunk"@,
            Error::SampleOutOfBounds => "Sample data out of bounds"@,
            Error::UnsupportedCompression => "This compression type is not supported"@,
            Error::TooLarge => "Too large for the format"@,
            Error::IndexOutOfBounds => "Sample index out of bounds"@,
            Error::WrongVersion => "Operation belongs to the other container version"@,
            Error::NotMpeg => "Not MPEG codec"@,
            Error::NotVorbis => "Not Vorbis"@,
            Error::MissingChecksum => "Missing CRC"@,
            Error::UnknownSetupChecksum(_) => "Unknown CRC"@,
            Error::EmptyReplacement => "Encoder produced empty FSB"@,
            Error::FormatMismatch => "Format mismatch - install FFmpeg"@,
            Error::UnsupportedSetup(_) => "Unsupported CRC"@,
            Error::BadMagic => "Invalid magic"@,
            Error::UnknownCompression => "Unknown compression type"@,
            Error::Inflate => "Could not inflate"@,
            Error::Deflate => "Could not deflate"@,
            Error::BadKey => "Invalid AES key length"@,
            Error::EntryOutOfBounds => "Entry data out of bounds"@,
        }
    }

    /// A short text that says what went wrong.
    pub fn message(&self) -> (r: &'static str)
        ensures
            r@ == self.spec_message(),
    {
        match self {
            Error::TooSmall => "File too small",
            Error::UnknownFormat => "Unknown format",
            Error::UnknownCodec => "Unknown codec",
            Error::Truncated => "Unexpected end of data",
            Error::MalformedChunk => "Malformed chunk",
            Error::SampleOutOfBounds => "Sample data out of bounds",
            Error::UnsupportedCompression => "This compression type is not supported",
            Error::TooLarge => "Too large for the format",
            Error::IndexOutOfBounds => "Sample index out of bounds",
            Error::WrongVersion => "Operation belongs to the other container version",
            Error::NotMpeg => "Not MPEG codec",
            Error::NotVorbis => "Not Vorbis",
            Error::MissingChecksum => "Missing CRC",
            Error::UnknownSetupChecksum(_) => "Unknown CRC",
            Error::EmptyReplacement => "Encoder produced empty FSB",
            Error::FormatMismatch => "Format mismatch - install FFmpeg",
            Error::UnsupportedSetup(_) => "Unsupported CRC",
            Error::BadMagic => "Invalid magic",
            Error::UnknownCompression => "Unknown compression type",
            Error::Inflate => "Could not inflate",
            Error::Deflate => "Could not deflate",
            Error::BadKey => "Invalid AES key length",
            Error::EntryOutOfBounds => "Entry data out of bounds",
        }
    }
}

} // verus!
