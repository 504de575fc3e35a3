use cums_sekiro::{Error, ErrorFamily, PendingReplacements};

#[test]
fn one_edit_for_each_sample_at_most() {
    let mut p: PendingReplacements<&str> = PendingReplacements::new();
    assert!(p.is_empty());
    p.set(4, "first");
    p.set(1, "second");
    p.set(4, "third");
    assert_eq!(p.len(), 2);
    assert_eq!(p.get(4), Some(&"third"));
    assert_eq!(p.get(1), Some(&"second"));
    assert_eq!(p.get(2), None);
    assert!(p.contains(1));
    assert!(!p.contains(0));
}

#[test]
fn edits_are_committed_by_ascending_index() {
    let mut p: PendingReplacements<u8> = PendingReplacements::new();
    for (i, v) in [(7usize, 1u8), (2, 2), (9, 3), (0, 4), (2, 5), (8, 6)] {
        p.set(i, v);
    }
    assert_eq!(p.take_all(), vec![(0, 4), (2, 5), (7, 1), (8, 6), (9, 3)]);
    assert!(p.is_empty());
    assert_eq!(p.take_all(), vec![]);
}

#[test]
fn error_families() {
    assert_eq!(Error::TooSmall.family(), ErrorFamily::Format);
    assert_eq!(Error::UnknownFormat.family(), ErrorFamily::Format);
    assert_eq!(Error::UnknownCodec.family(), ErrorFamily::Format);
    assert_eq!(Error::SampleOutOfBounds.family(), ErrorFamily::Format);
    assert_eq!(Error::UnsupportedCompression.family(), ErrorFamily::Format);
    assert_eq!(Error::BadKey.family(), ErrorFamily::Crypto);
    assert_eq!(Error::UnknownSetupChecksum(1).family(), ErrorFamily::Codec);
    assert_eq!(Error::FormatMismatch.family(), ErrorFamily::Replacement);
    assert_eq!(Error::UnsupportedSetup(1).family(), ErrorFamily::Replacement);
    assert_eq!(Error::IndexOutOfBounds.family(), ErrorFamily::Replacement);
    assert_eq!(Error::BadMagic.family(), ErrorFamily::Archive);
}

#[test]
fn error_messages() {
    assert_eq!(Error::TooSmall.message(), "File too small");
    assert_eq!(Error::UnknownFormat.message(), "Unknown format");
    assert_eq!(Error::NotVorbis.message(), "Not Vorbis");
    assert_eq!(Error::SampleOutOfBounds.message(), "Sample data out of bounds");
}
