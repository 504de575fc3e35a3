//! The table of Vorbis setup headers, which banks refer to by checksum.

use base64::Engine;
use std::collections::HashMap;
use vstd::prelude::*;
use vstd::utf8::encode_utf8;

verus! {

broadcast use vstd::std_specs::hash::group_hash_axioms;

/// The name of the field that holds a setup header in the dictionary's
/// textual form.
pub const HEADER_FIELD: &'static str = "headerBytes";

/// The entries of the JSON object that `text` holds, in the order in which
/// `serde_json` walks them: each key, and the text of the member `field`
/// of its value where that is a string. `None` where `text` is no JSON
/// object.
pub uninterp spec fn json_string_fields(text: Seq<char>, field: Seq<char>) -> Option<
    Seq<(Seq<char>, Option<Seq<char>>)>,
>;

/// The bytes that `text` stands for in standard base64, with padding.
/// `None` where `text` is not such an encoding.
pub uninterp spec fn base64_decoded(text: Seq<char>) -> Option<Seq<u8>>;

/// What an ASCII digit stands for; 0 for a byte that is none.
pub open spec fn digit(b: u8) -> nat {
    if 0x30 <= b <= 0x39 {
        (b - 0x30) as nat
    } else {
        0
    }
}

/// Whether all bytes of `d` are ASCII digits.
pub open spec fn all_digits(d: Seq<u8>) -> bool {
    forall|i: int| 0 <= i < d.len() ==> 0x30 <= #[trigger] d[i] <= 0x39
}

/// The number that the digits `d` are the decimal form of.
pub open spec fn digits_value(d: Seq<u8>) -> nat
    decreases d.len(),
{
    if d.len() == 0 {
        0
    } else {
        digits_value(d.drop_last()) * 10 + digit(d.last())
    }
}

/// `bytes` without a plus sign at its start.
pub open spec fn unsigned_part(bytes: Seq<u8>) -> Seq<u8> {
    if bytes.len() > 0 && bytes[0] == 0x2b {
        bytes.subrange(1, bytes.len() as int)
    } else {
        bytes
    }
}

/// The number that `text` is the decimal form of: a plus sign or none, then
/// one ASCII digit or more and nothing else, and a value that 32 bits hold.
/// `None` for any other text.
pub open spec fn decimal_u32(text: Seq<char>) -> Option<u32> {
    let d = unsigned_part(encode_utf8(text));
    if d.len() > 0 && all_digits(d) && digits_value(d) <= u32::MAX {
        Some(digits_value(d) as u32)
    } else {
        None
    }
}

/// The value of digits is at least the value of the digits at their start.
pub proof fn lemma_digits_value_grows(d: Seq<u8>, k: int)
    requires
        0 <= k <= d.len(),
    ensures
        digits_value(d.subrange(0, k)) <= digits_value(d),
    decreases d.len() - k,
{
    if k < d.len() {
        let longer = d.subrange(0, k + 1);
        assert(longer.drop_last() =~= d.subrange(0, k));
        assert(digits_value(longer) == digits_value(d.subrange(0, k)) * 10 + digit(longer.last()));
        lemma_digits_value_grows(d, k + 1);
    } else {
        assert(d.subrange(0, k) =~= d);
    }
}

/// The views of the entries of a JSON object.
pub open spec fn fields_view(v: Seq<(String, Option<String>)>) -> Seq<
    (Seq<char>, Option<Seq<char>>),
> {
    Seq::new(
        v.len(),
        |i: int|
            (
                v[i].0@,
                match v[i].1 {
                    Some(t) => Some(t@),
                    None => None,
                },
            ),
    )
}

/// Reads a JSON object with `serde_json`: `serde_json::from_str` parses
/// `text` to a `Value`, `Value::as_object` gives its members, and for each
/// member that `Map::iter` hands out, `Value::get` and `Value::as_str` give
/// the string that the member holds under `field`. These calls have one
/// name between them, since a `Value` has no plain form that a contract
/// could speak of: the contract claims that the result is a function of the
/// two texts, and that it is `None` exactly where that function is.
#[verifier::external_body]
fn json_fields(text: &str, field: &str) -> (r: Option<Vec<(String, Option<String>)>>)
    ensures
        match r {
            Some(v) => json_string_fields(text@, field@) == Some(fields_view(v@)),
            None => json_string_fields(text@, field@) is None,
        },
{
    let value: serde_json::Value = serde_json::from_str(text).ok()?;
    let object = value.as_object()?;
    Some(
        object.iter().map(
            |(k, v)| (k.clone(), v.get(field).and_then(|s| s.as_str()).map(String::from)),
        ).collect(),
    )
}

/// `Engine::decode` of `base64::engine::general_purpose::STANDARD`.
#[verifier::external_body]
fn base64_decode(text: &str) -> (r: Option<Vec<u8>>)
    ensures
        match r {
            Some(v) => base64_decoded(text@) == Some(v@),
            None => base64_decoded(text@) is None,
        },
{
    base64::engine::general_purpose::STANDARD.decode(text).ok()
}

/// Reads a number from its decimal form.
pub fn parse_u32(text: &str) -> (r: Option<u32>)
    ensures
        r == decimal_u32(text@),
{
    let bytes = text.as_bytes();
    let n: usize = bytes.len();
    let start: usize = if n > 0 && bytes[0] == 0x2b {
        1
    } else {
        0
    };
    if start >= n {
        return None;
    }
    let ghost d = unsigned_part(bytes@);
    assert(d =~= bytes@.subrange(start as int, n as int));
    let mut acc: u64 = 0;
    let mut i: usize = start;
    assert(d.subrange(0, 0) =~= Seq::<u8>::empty());
    while i < n
        invariant
            start <= i <= n,
            n == bytes@.len(),
            bytes@ == encode_utf8(text@),
            d == unsigned_part(bytes@),
            d == bytes@.subrange(start as int, n as int),
            all_digits(d.subrange(0, i - start)),
            acc == digits_value(d.subrange(0, i - start)),
            acc <= u32::MAX,
        decreases n - i,
    {
        let b: u8 = bytes[i];
        assert(d[i - start] == b);
        if b < 0x30 || b > 0x39 {
            return None;
        }
        let next: u64 = acc * 10 + (b - 0x30) as u64;
        proof {
            let longer = d.subrange(0, i - start + 1);
            assert(longer.drop_last() =~= d.subrange(0, i - start));
            assert(longer.last() == b);
            assert(next == digits_value(longer));
            assert forall|k: int| 0 <= k < longer.len() implies 0x30 <= #[trigger] longer[k]
                <= 0x39 by {
                if k < i - start {
                    assert(d.subrange(0, i - start)[k] == longer[k]);
                }
            }
        }
        if next > 0xFFFF_FFFF {
            proof {
                lemma_digits_value_grows(d, i - start + 1);
            }
            return None;
        }
        acc = next;
        i = i + 1;
    }
    assert(d.subrange(0, n - start) =~= d);
    Some(acc as u32)
}

/// The table from the checksum of a Vorbis codec setup to the setup header
/// itself. Banks do not store the header: many samples share one of a few.
pub struct SetupDictionary {
    entries: HashMap<u32, Vec<u8>>,
}

impl View for SetupDictionary {
    type V = Map<u32, Seq<u8>>;

    closed spec fn view(&self) -> Map<u32, Seq<u8>> {
        Map::new(|k: u32| self.entries@.contains_key(k), |k: u32| self.entries@[k]@)
    }
}

/// The dictionary after entry `(key, field)` of its textual form: an entry
/// counts where its key is a decimal checksum and its field is base64; a
/// later entry for a checksum replaces an earlier one.
pub open spec fn spec_dictionary_step(
    m: Map<u32, Seq<u8>>,
    key: Seq<char>,
    field: Option<Seq<char>>,
) -> Map<u32, Seq<u8>> {
    match (decimal_u32(key), field) {
        (Some(crc), Some(text)) => match base64_decoded(text) {
            Some(bytes) => m.insert(crc, bytes),
            None => m,
        },
        _ => m,
    }
}

/// The dictionary that the first `k` entries of a textual form give.
pub open spec fn spec_dictionary_upto(
    items: Seq<(Seq<char>, Option<Seq<char>>)>,
    k: nat,
) -> Map<u32, Seq<u8>>
    decreases k,
{
    if k == 0 {
        Map::empty()
    } else {
        spec_dictionary_step(
            spec_dictionary_upto(items, (k - 1) as nat),
            items[k - 1].0,
            items[k - 1].1,
        )
    }
}

/// The dictionary that a textual form gives: empty where the text is no
/// JSON object.
pub open spec fn spec_dictionary_from_json(text: Seq<char>) -> Map<u32, Seq<u8>> {
    match json_string_fields(text, HEADER_FIELD@) {
        Some(items) => spec_dictionary_upto(items, items.len()),
        None => Map::empty(),
    }
}

/// The dictionary that the first `k` pairs of a list give, a later pair for
/// a checksum replacing an earlier one.
pub open spec fn spec_dictionary_of(entries: Seq<(u32, Seq<u8>)>, k: nat) -> Map<u32, Seq<u8>>
    decreases k,
{
    if k == 0 {
        Map::empty()
    } else {
        spec_dictionary_of(entries, (k - 1) as nat).insert(entries[k - 1].0, entries[k - 1].1)
    }
}

impl SetupDictionary {
    /// A dictionary without entries.
    pub fn new() -> (r: SetupDictionary)
        ensures
            r@ == Map::<u32, Seq<u8>>::empty(),
    {
        let r = SetupDictionary { entries: HashMap::new() };
        assert(r@ =~= Map::<u32, Seq<u8>>::empty());
        r
    }

    /// Enters `header` under `crc`, in place of what was there.
    pub fn insert(&mut self, crc: u32, header: Vec<u8>)
        ensures
            final(self)@ == old(self)@.insert(crc, header@),
    {
        self.entries.insert(crc, header);
        assert(self@ =~= old(self)@.insert(crc, header@));
    }

    /// Whether there is a setup header for `crc`.
    pub fn contains(&self, crc: u32) -> (r: bool)
        ensures
            r == self@.contains_key(crc),
    {
        self.entries.contains_key(&crc)
    }

    /// The setup header for `crc`, if there is one.
    pub fn lookup(&self, crc: u32) -> (r: Option<Vec<u8>>)
        ensures
            match r {
                Some(v) => self@.contains_key(crc) && v@ == self@[crc],
                None => !self@.contains_key(crc),
            },
    {
        match self.entries.get(&crc) {
            Some(v) => Some(vstd::slice::slice_to_vec(v.as_slice())),
            None => None,
        }
    }

    /// The dictionary with the given entries, a later one for a checksum
    /// replacing an earlier one.
    pub fn from_entries(entries: Vec<(u32, Vec<u8>)>) -> (r: SetupDictionary)
        ensures
            r@ == spec_dictionary_of(
                Seq::new(entries@.len(), |i: int| (entries@[i].0, entries@[i].1@)),
                entries@.len(),
            ),
    {
        let ghost list = Seq::new(entries@.len(), |i: int| (entries@[i].0, entries@[i].1@));
        let mut dict = SetupDictionary::new();
        let n: usize = entries.len();
        let mut i: usize = 0;
        while i < n
            invariant
                i <= n,
                n == entries@.len(),
                list == Seq::new(entries@.len(), |i: int| (entries@[i].0, entries@[i].1@)),
                dict@ == spec_dictionary_of(list, i as nat),
            decreases n - i,
        {
            let crc: u32 = entries[i].0;
            let header = vstd::slice::slice_to_vec(entries[i].1.as_slice());
            dict.insert(crc, header);
            i = i + 1;
        }
        dict
    }

    /// Reads a dictionary from its textual form: a JSON object whose keys
    /// are checksums in decimal and whose values hold the setup header in
    /// base64 under `headerBytes`. Entries that are not of this form are
    /// passed over.
    pub fn from_json(text: &str) -> (r: SetupDictionary)
        ensures
            r@ == spec_dictionary_from_json(text@),
    {
        let mut dict = SetupDictionary::new();
        let items = match json_fields(text, HEADER_FIELD) {
            Some(v) => v,
            None => {
                return dict;
            },
        };
        let ghost views = fields_view(items@);
        let n: usize = items.len();
        let mut i: usize = 0;
        while i < n
            invariant
                i <= n,
                n == items@.len(),
                views == fields_view(items@),
                dict@ == spec_dictionary_upto(views, i as nat),
            decreases n - i,
        {
            let ghost before = dict@;
            assert(views[i as int].0 == items@[i as int].0@);
            match parse_u32(items[i].0.as_str()) {
                Some(crc) => {
                    match &items[i].1 {
                        Some(text) => {
                            match base64_decode(text.as_str()) {
                                Some(bytes) => {
                                    dict.insert(crc, bytes);
                                },
                                None => {},
                            }
                        },
                        None => {},
                    }
                },
                None => {},
            }
            i = i + 1;
        }
        dict
    }
}

/// The setup header for `crc` in `dict`, if there is one.
pub fn get_vorbis_setup_header(dict: &SetupDictionary, crc: u32) -> (r: Option<Vec<u8>>)
    ensures
        match r {
            Some(v) => dict@.contains_key(crc) && v@ == dict@[crc],
            None => !dict@.contains_key(crc),
        },
{
    dict.lookup(crc)
}

} // verus!
