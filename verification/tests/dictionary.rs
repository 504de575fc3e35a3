use cums_sekiro::dictionary::parse_u32;
use cums_sekiro::{get_vorbis_setup_header, SetupDictionary};

#[test]
fn from_json_reads_checksums_and_headers() {
    let text = r#"{
        "3735928559": { "headerBytes": "AQID", "note": "x" },
        "17": { "headerBytes": "aGVsbG8gd29ybGQ=" },
        "name": { "headerBytes": "AQID" },
        "18": { "other": "AQID" },
        "19": { "headerBytes": 5 },
        "20": { "headerBytes": "not base64!" },
        "4294967296": { "headerBytes": "AQID" },
        "-1": { "headerBytes": "AQID" },
        "21": "AQID"
    }"#;
    let dict = SetupDictionary::from_json(text);
    assert_eq!(dict.lookup(0xDEAD_BEEF), Some(vec![1, 2, 3]));
    assert_eq!(dict.lookup(17), Some(b"hello world".to_vec()));
    for missing in [18, 19, 20, 21, 0, u32::MAX] {
        assert_eq!(dict.lookup(missing), None);
        assert!(!dict.contains(missing));
    }
    assert!(dict.contains(17));
}

#[test]
fn from_json_of_what_is_no_object() {
    for text in ["", "[]", "42", "{", "\"x\"", "null"] {
        let dict = SetupDictionary::from_json(text);
        assert_eq!(dict.lookup(0), None);
        assert_eq!(dict.lookup(42), None);
    }
}

#[test]
fn from_json_of_an_empty_header() {
    let dict = SetupDictionary::from_json(r#"{"5": {"headerBytes": ""}}"#);
    assert_eq!(dict.lookup(5), Some(vec![]));
}

#[test]
fn base64_must_be_padded() {
    let dict = SetupDictionary::from_json(r#"{"5": {"headerBytes": "AQI"}, "6": {"headerBytes": "AQI="}}"#);
    assert_eq!(dict.lookup(5), None);
    assert_eq!(dict.lookup(6), Some(vec![1, 2]));
}

#[test]
fn insert_and_lookup() {
    let mut dict = SetupDictionary::new();
    assert_eq!(dict.lookup(1), None);
    dict.insert(1, vec![9, 8]);
    dict.insert(2, vec![]);
    assert_eq!(dict.lookup(1), Some(vec![9, 8]));
    assert_eq!(dict.lookup(2), Some(vec![]));
    dict.insert(1, vec![7]);
    assert_eq!(dict.lookup(1), Some(vec![7]));
    assert_eq!(get_vorbis_setup_header(&dict, 1), Some(vec![7]));
    assert_eq!(get_vorbis_setup_header(&dict, 3), None);
}

#[test]
fn from_entries_lets_the_later_entry_win() {
    let dict = SetupDictionary::from_entries(vec![(1, vec![1]), (2, vec![2]), (1, vec![3])]);
    assert_eq!(dict.lookup(1), Some(vec![3]));
    assert_eq!(dict.lookup(2), Some(vec![2]));
    assert_eq!(dict.lookup(3), None);
    let empty = SetupDictionary::from_entries(vec![]);
    assert!(!empty.contains(1));
}

#[test]
fn from_json_lets_the_later_key_win() {
    // both keys stand for 1; the object is walked in the order of its keys
    let dict = SetupDictionary::from_json(r#"{"1": {"headerBytes": "AQ=="}, "+1": {"headerBytes": "Ag=="}}"#);
    assert_eq!(dict.lookup(1), Some(vec![1]));
}

#[test]
fn decimal_numbers() {
    assert_eq!(parse_u32("0"), Some(0));
    assert_eq!(parse_u32("7"), Some(7));
    assert_eq!(parse_u32("+7"), Some(7));
    assert_eq!(parse_u32("007"), Some(7));
    assert_eq!(parse_u32("3735928559"), Some(0xDEAD_BEEF));
    assert_eq!(parse_u32("4294967295"), Some(u32::MAX));
    assert_eq!(parse_u32("+0000000004294967295"), Some(u32::MAX));
    assert_eq!(parse_u32("4294967296"), None);
    assert_eq!(parse_u32("99999999999999999999999999"), None);
    for text in ["", "+", "-", "-1", "++1", "1+", " 1", "1 ", "1_000", "0x10", "1.0", "\u{ff11}", "12a"] {
        assert_eq!(parse_u32(text), None, "{:?}", text);
    }
    // the same as the standard library reads
    for text in ["", "+", "-0", "+12", "0012", "4294967295", "4294967296", "12 ", "a"] {
        assert_eq!(parse_u32(text), text.parse::<u32>().ok(), "{:?}", text);
    }
}
