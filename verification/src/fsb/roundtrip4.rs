//! Why a version 4 bank that was saved is loaded as a bank that is saved
//! as the same file.

use crate::bytes::{le_u32, lemma_le_u32_of_bytes, u32_le_bytes, zeros};
use crate::error::Error;
use crate::fsb::detect::{fsb4_magic, spec_detect};
use crate::fsb::parse4::{
    entry_at, spec_parse_fsb4, spec_v4_codec, spec_v4_entry, spec_v4_offset, spec_v4_samples,
    spec_v4_size, trim_nuls, trimmed_len,
};
use crate::fsb::roundtrip::{lemma_field_of_prefix, lemma_sub_part};
use crate::fsb::write4::{
    lemma_v4_entries_len, spec_entry_tail, spec_header4, spec_name_field, spec_v4_data_upto,
    spec_v4_entries_upto, spec_v4_entry_bytes, spec_v4_loop_end, spec_v4_loop_start,
    spec_v4_mode,
};
use crate::fsb::write5::spec_header_tail;
use crate::fsb::{spec_from_bytes, spec_save, BankView, Encryption, Fsb4Mode, Version};
use crate::text::spec_from_utf8_lossy;
use vstd::prelude::*;
use vstd::utf8::{decode_utf8, decode_utf8_encode_utf8, valid_utf8};

verus! {

/// A buffer is what is left of it without the zero bytes at its end, and
/// those zero bytes.
pub proof fn lemma_trim_nuls(s: Seq<u8>)
    ensures
        0 <= trimmed_len(s) <= s.len(),
        s == trim_nuls(s) + zeros((s.len() - trimmed_len(s)) as nat),
        trimmed_len(s) > 0 ==> s[trimmed_len(s) - 1] != 0,
    decreases s.len(),
{
    if s.len() > 0 && s.last() == 0 {
        lemma_trim_nuls(s.drop_last());
        let t = s.drop_last();
        let len = trimmed_len(t);
        assert(trimmed_len(s) == len);
        assert(trim_nuls(s) =~= trim_nuls(t));
        let z = zeros((s.len() - len) as nat);
        let zt = zeros((t.len() - len) as nat);
        assert(t == trim_nuls(t) + zt);
        assert forall|j: int| 0 <= j < s.len() implies s[j] == (trim_nuls(s) + z)[j] by {
            if j < t.len() {
                assert(s[j] == t[j]);
                assert(t[j] == (trim_nuls(t) + zt)[j]);
            }
        }
        assert(s =~= trim_nuls(s) + z);
    } else {
        assert(s =~= trim_nuls(s) + zeros(0));
    }
}

/// A name survives being written and read back where the written name
/// field, without the zero bytes at its end, is UTF-8.
pub open spec fn name_survives(name: Option<Seq<char>>) -> bool {
    valid_utf8(trim_nuls(spec_name_field(name)))
}

/// The name field of a name that was read back from a name field is that
/// name field, where the name survives.
pub proof fn lemma_name_field_again(name: Option<Seq<char>>)
    requires
        name_survives(name),
    ensures
        spec_name_field(name).len() == 30,
        spec_name_field(Some(spec_from_utf8_lossy(trim_nuls(spec_name_field(name)))))
            == spec_name_field(name),
{
    let f = spec_name_field(name);
    let t = trim_nuls(f);
    lemma_trim_nuls(f);
    assert(f[29] == 0);
    assert(t.len() <= 29) by {
        if trimmed_len(f) == 30 {
            assert(f[trimmed_len(f) - 1] != 0);
        }
    }
    decode_utf8_encode_utf8(t);
    let again = spec_name_field(Some(decode_utf8(t)));
    assert(t.subrange(0, t.len() as int) =~= t);
    assert(again =~= f);
}

/// What the 80 bytes of a written sample header hold.
pub proof fn lemma_entry_fields(b: BankView, i: int)
    requires
        0 <= i < b.samples.len(),
    ensures
        ({
            let e = spec_v4_entry_bytes(b, i);
            let s = b.samples[i];
            &&& e.len() == 80
            &&& e.subrange(2, 32) == spec_name_field(s.name)
            &&& le_u32(e, 32) == s.samples % 0x1_0000_0000
            &&& le_u32(e, 36) == s.data_size % 0x1_0000_0000
            &&& le_u32(e, 40) == spec_v4_loop_start(s)
            &&& le_u32(e, 44) == spec_v4_loop_end(s)
            &&& le_u32(e, 48) == spec_v4_mode(s)
            &&& le_u32(e, 52) == s.frequency
            &&& e.subrange(56, 80) == spec_entry_tail(b, i)
        }),
{
    reveal(spec_v4_entry_bytes);
    let e = spec_v4_entry_bytes(b, i);
    let s = b.samples[i];
    let name = spec_name_field(s.name);
    let tail = spec_entry_tail(b, i);
    assert(name.len() == 30);
    assert(tail.len() == 24);
    assert(e.len() == 80);
    assert(e.subrange(2, 32) =~= name);
    assert(e.subrange(32, 36) =~= u32_le_bytes((s.samples % 0x1_0000_0000) as u32));
    lemma_le_u32_of_bytes(e, 32, (s.samples % 0x1_0000_0000) as u32);
    assert(e.subrange(36, 40) =~= u32_le_bytes((s.data_size % 0x1_0000_0000) as u32));
    lemma_le_u32_of_bytes(e, 36, (s.data_size % 0x1_0000_0000) as u32);
    assert(e.subrange(40, 44) =~= u32_le_bytes(spec_v4_loop_start(s)));
    lemma_le_u32_of_bytes(e, 40, spec_v4_loop_start(s));
    assert(e.subrange(44, 48) =~= u32_le_bytes(spec_v4_loop_end(s)));
    lemma_le_u32_of_bytes(e, 44, spec_v4_loop_end(s));
    assert(e.subrange(48, 52) =~= u32_le_bytes(spec_v4_mode(s)));
    lemma_le_u32_of_bytes(e, 48, spec_v4_mode(s));
    assert(e.subrange(52, 56) =~= u32_le_bytes(s.frequency));
    lemma_le_u32_of_bytes(e, 52, s.frequency);
    assert(e.subrange(56, 80) =~= tail);
}

/// In the block of written sample headers, header `i` stands at 80 times
/// `i`.
pub proof fn lemma_entries_part(b: BankView, i: nat, k: nat)
    requires
        i < k <= b.samples.len(),
    ensures
        spec_v4_entries_upto(b, k).len() == 80 * k,
        spec_v4_entries_upto(b, k).subrange(80 * (i as int), 80 * (i as int) + 80) == spec_v4_entry_bytes(
            b,
            i as int,
        ),
    decreases k,
{
    lemma_v4_entries_len(b, k);
    lemma_v4_entries_len(b, (k - 1) as nat);
    lemma_entry_fields(b, k - 1);
    let prev = spec_v4_entries_upto(b, (k - 1) as nat);
    let last = spec_v4_entry_bytes(b, k - 1);
    if i + 1 == k {
        assert((prev + last).subrange(80 * (i as int), 80 * (i as int) + 80) =~= last);
    } else {
        lemma_entries_part(b, i, (k - 1) as nat);
        assert((prev + last).subrange(80 * (i as int), 80 * (i as int) + 80) =~= prev.subrange(
            80 * (i as int),
            80 * (i as int) + 80,
        ));
    }
}

/// The data of the first `k` samples is as long as their sizes together,
/// and the data of each sample stands in it at its place.
pub proof fn lemma_data_part(b: BankView, i: nat, k: nat)
    requires
        i < k <= b.samples.len(),
        b.samples_in_buffer(),
    ensures
        spec_v4_data_upto(b, (i + 1) as nat).len() == spec_v4_data_upto(b, i).len()
            + b.samples[i as int].data_size,
        spec_v4_data_upto(b, (i + 1) as nat).len() <= spec_v4_data_upto(b, k).len(),
        spec_v4_data_upto(b, k).subrange(
            spec_v4_data_upto(b, i).len() as int,
            spec_v4_data_upto(b, (i + 1) as nat).len() as int,
        ) == b.sample_bytes(i as int),
    decreases k,
{
    let a = spec_v4_data_upto(b, i);
    let one = b.sample_bytes(i as int);
    assert(b.samples[i as int].data_end() <= b.data.len());
    assert(spec_v4_data_upto(b, (i + 1) as nat) == a + one);
    if i + 1 == k {
        assert((a + one).subrange(a.len() as int, (a + one).len() as int) =~= one);
    } else {
        lemma_data_part(b, i, (k - 1) as nat);
        let prev = spec_v4_data_upto(b, (k - 1) as nat);
        let last = b.sample_bytes(k - 1);
        assert(spec_v4_data_upto(b, k) == prev + last);
        assert((prev + last).subrange(a.len() as int, (a + one).len() as int) =~= prev.subrange(
            a.len() as int,
            (a + one).len() as int,
        ));
    }
}

/// What the fixed header of a written version 4 file holds.
pub proof fn lemma_header4_fields(b: BankView)
    ensures
        spec_header4(b).len() == 48,
        spec_header4(b).subrange(0, 4) == fsb4_magic(),
        le_u32(spec_header4(b), 4) == b.samples.len() as u32,
        le_u32(spec_header4(b), 8) == (80 * b.samples.len()) as u32,
        le_u32(spec_header4(b), 12) == spec_v4_data_upto(b, b.samples.len()).len() as u32,
        le_u32(spec_header4(b), 20) == b.flags,
        spec_header4(b).subrange(24, 48) == spec_header_tail(b.data, 24, 48),
{
    reveal(spec_header4);
    let h = spec_header4(b);
    let tail = spec_header_tail(b.data, 24, 48);
    assert(tail.len() == 24);
    assert(h.len() == 48);
    assert(h.subrange(0, 4) =~= fsb4_magic());
    assert(h.subrange(4, 8) =~= u32_le_bytes(b.samples.len() as u32));
    lemma_le_u32_of_bytes(h, 4, b.samples.len() as u32);
    assert(h.subrange(8, 12) =~= u32_le_bytes((80 * b.samples.len()) as u32));
    lemma_le_u32_of_bytes(h, 8, (80 * b.samples.len()) as u32);
    assert(h.subrange(12, 16) =~= u32_le_bytes(
        spec_v4_data_upto(b, b.samples.len()).len() as u32,
    ));
    lemma_le_u32_of_bytes(h, 12, spec_v4_data_upto(b, b.samples.len()).len() as u32);
    assert(h.subrange(20, 24) =~= u32_le_bytes(b.flags));
    lemma_le_u32_of_bytes(h, 20, b.flags);
    assert(h.subrange(24, 48) =~= tail);
}

/// The written file of a version 4 bank.
#[verifier::opaque]
pub open spec fn saved4(b: BankView) -> Seq<u8> {
    spec_header4(b) + spec_v4_entries_upto(b, b.samples.len()) + spec_v4_data_upto(
        b,
        b.samples.len(),
    )
}

/// How a written version 4 file is laid out: the header, the sample
/// headers and the data, one after the other.
pub proof fn lemma_saved4_layout(b: BankView)
    ensures
        ({
            let p = saved4(b);
            let n = b.samples.len() as int;
            &&& p.len() == 48 + 80 * n + spec_v4_data_upto(b, n as nat).len()
            &&& p.subrange(0, 48) == spec_header4(b)
            &&& p.subrange(48, 48 + 80 * n) == spec_v4_entries_upto(b, n as nat)
            &&& p.subrange(48 + 80 * n, p.len() as int) == spec_v4_data_upto(b, n as nat)
        }),
{
    reveal(saved4);
    let p = saved4(b);
    let n = b.samples.len();
    let m = n as int;
    lemma_header4_fields(b);
    lemma_v4_entries_len(b, n);
    assert(p.subrange(0, 48) =~= spec_header4(b));
    assert(p.subrange(48, 48 + 80 * m) =~= spec_v4_entries_upto(b, n));
    assert(p.subrange(48 + 80 * m, p.len() as int) =~= spec_v4_data_upto(b, n));
}

/// In a written file, sample header `i` stands at its place.
pub proof fn lemma_saved4_entry(b: BankView, i: int)
    requires
        0 <= i < b.samples.len(),
    ensures
        entry_at(i) + 80 <= saved4(b).len(),
        saved4(b).subrange(entry_at(i), entry_at(i) + 80) == spec_v4_entry_bytes(b, i),
{
    let n = b.samples.len();
    lemma_saved4_layout(b);
    lemma_entries_part(b, i as nat, n);
    lemma_sub_part(saved4(b), 48, spec_v4_entries_upto(b, n), 80 * i, 80 * i + 80);
}

/// A field of a sample header of a written file is the field of the header
/// alone.
pub proof fn lemma_saved4_field(b: BankView, i: int, at: int)
    requires
        0 <= i < b.samples.len(),
        0 <= at,
        at + 4 <= 80,
    ensures
        le_u32(saved4(b), entry_at(i) + at) == le_u32(spec_v4_entry_bytes(b, i), at),
{
    lemma_saved4_entry(b, i);
    let p = saved4(b);
    let e = p.subrange(entry_at(i), entry_at(i) + 80);
    assert(p[entry_at(i) + at] == e[at]);
    assert(p[entry_at(i) + at + 1] == e[at + 1]);
    assert(p[entry_at(i) + at + 2] == e[at + 2]);
    assert(p[entry_at(i) + at + 3] == e[at + 3]);
}


/// Whether a bank can be written as a version 4 file: its samples lie
/// inside its buffer, and the sample headers and the data are short enough
/// for the 32 bits of their sizes.
pub open spec fn can_save4(b: BankView) -> bool {
    &&& b.samples_in_buffer()
    &&& 80 * b.samples.len() <= u32::MAX
    &&& spec_v4_data_upto(b, b.samples.len()).len() <= u32::MAX
}

/// Where the data starts in a written version 4 file.
pub open spec fn saved4_base(b: BankView) -> int {
    48 + 80 * (b.samples.len() as int)
}

/// The size that is stored for a sample of a written file is the sample's
/// size.
pub proof fn lemma_saved4_size(b: BankView, k: int)
    requires
        can_save4(b),
        0 <= k < b.samples.len(),
    ensures
        spec_v4_size(saved4(b), k) == b.samples[k].data_size,
        b.samples[k].data_size <= u32::MAX,
{
    lemma_data_part(b, k as nat, b.samples.len());
    assert(b.samples[k].data_size <= u32::MAX);
    lemma_saved4_field(b, k, 36);
    lemma_entry_fields(b, k);
    assert(le_u32(spec_v4_entry_bytes(b, k), 36) == b.samples[k].data_size % 0x1_0000_0000);
}

/// In a written file the data of a sample starts where the data before it
/// ends.
pub proof fn lemma_saved4_offsets(b: BankView, k: nat)
    requires
        can_save4(b),
        k <= b.samples.len(),
    ensures
        spec_v4_offset(saved4(b), saved4_base(b), k) == saved4_base(b) + spec_v4_data_upto(
            b,
            k,
        ).len(),
        k < b.samples.len() ==> spec_v4_size(saved4(b), k as int) == b.samples[k as int].data_size,
    decreases k,
{
    if k < b.samples.len() {
        lemma_saved4_size(b, k as int);
    }
    if k > 0 {
        lemma_saved4_offsets(b, (k - 1) as nat);
        lemma_saved4_size(b, k - 1);
        lemma_data_part(b, (k - 1) as nat, b.samples.len());
        assert(spec_v4_offset(saved4(b), saved4_base(b), k) == spec_v4_offset(
            saved4(b),
            saved4_base(b),
            (k - 1) as nat,
        ) + spec_v4_size(saved4(b), k - 1));
    }
}

/// A written version 4 file is read back as a bank.
pub proof fn lemma_parse_saved4(b: BankView)
    requires
        can_save4(b),
    ensures
        spec_detect(saved4(b)) == Ok::<(Version, Encryption), Error>(
            (Version::Fsb4, Encryption::Plain),
        ),
        spec_parse_fsb4(saved4(b)) == Ok::<BankView, Error>(
            BankView {
                version: Version::Fsb4,
                codec: spec_v4_codec(b.flags),
                samples: spec_v4_samples(saved4(b), saved4_base(b), b.samples.len()),
                encryption: Encryption::Plain,
                data: saved4(b),
                header_size: 48,
                sample_headers_size: (80 * b.samples.len()) as u32,
                name_table_size: 0,
                data_size: spec_v4_data_upto(b, b.samples.len()).len() as u32,
                flags: b.flags,
                fsb5_mode: 0,
            },
        ),
{
    let p = saved4(b);
    let h = spec_header4(b);
    let n = b.samples.len();
    lemma_saved4_layout(b);
    lemma_header4_fields(b);
    lemma_field_of_prefix(p, h, 4);
    lemma_field_of_prefix(p, h, 8);
    lemma_field_of_prefix(p, h, 12);
    lemma_field_of_prefix(p, h, 20);
    assert(p.subrange(0, 4) =~= h.subrange(0, 4));
    lemma_saved4_offsets(b, n);
}

/// What a sample that is read back has in common with the sample that was
/// written: all that its header stores, and where its data lies.
pub proof fn lemma_reread4_sample(b: BankView, i: int)
    requires
        can_save4(b),
        0 <= i < b.samples.len(),
        b.samples[i].sound_v4(),
        name_survives(b.samples[i].name),
    ensures
        ({
            let r = spec_v4_samples(saved4(b), saved4_base(b), b.samples.len())[i];
            let s = b.samples[i];
            &&& r.index == i
            &&& spec_name_field(r.name) == spec_name_field(s.name)
            &&& r.samples % 0x1_0000_0000 == s.samples % 0x1_0000_0000
            &&& r.data_size == s.data_size
            &&& r.data_offset == saved4_base(b) + spec_v4_data_upto(b, i as nat).len()
            &&& spec_v4_loop_start(r) == spec_v4_loop_start(s)
            &&& spec_v4_loop_end(r) == spec_v4_loop_end(s)
            &&& spec_v4_mode(r) == spec_v4_mode(s)
            &&& r.frequency == s.frequency
            &&& r.sound_v4()
        }),
{
    let p = saved4(b);
    let s = b.samples[i];
    let e = spec_v4_entry_bytes(b, i);
    let at = entry_at(i);
    lemma_saved4_entry(b, i);
    lemma_entry_fields(b, i);
    lemma_saved4_field(b, i, 32);
    lemma_saved4_field(b, i, 36);
    lemma_saved4_field(b, i, 40);
    lemma_saved4_field(b, i, 44);
    lemma_saved4_field(b, i, 48);
    lemma_saved4_field(b, i, 52);
    lemma_saved4_offsets(b, i as nat);
    lemma_data_part(b, i as nat, b.samples.len());
    lemma_sub_part(p, at, e, 2, 32);
    lemma_name_field_again(s.name);
    let r = spec_v4_entry(p, i, spec_v4_offset(p, saved4_base(b), i as nat));
    assert(r.mode == Some(Fsb4Mode(spec_v4_mode(s))));
    assert(s.mode == Some(Fsb4Mode(spec_v4_mode(s))));
}

/// The bytes of a sample that was read back are the bytes of the sample
/// that was written.
pub proof fn lemma_reread4_bytes(b: BankView, rb: BankView, i: int)
    requires
        can_save4(b),
        spec_parse_fsb4(saved4(b)) == Ok::<BankView, Error>(rb),
        0 <= i < b.samples.len(),
    ensures
        rb.samples[i].data_end() <= rb.data.len(),
        rb.sample_bytes(i) == b.sample_bytes(i),
{
    let p = saved4(b);
    let n = b.samples.len();
    lemma_parse_saved4(b);
    lemma_saved4_layout(b);
    lemma_saved4_offsets(b, i as nat);
    lemma_data_part(b, i as nat, n);
    lemma_sub_part(
        p,
        saved4_base(b),
        spec_v4_data_upto(b, n),
        spec_v4_data_upto(b, i as nat).len() as int,
        spec_v4_data_upto(b, (i + 1) as nat).len() as int,
    );
}

/// The data that is written for the samples that were read back is the
/// data that they were read from.
pub proof fn lemma_reread4_data(b: BankView, rb: BankView, k: nat)
    requires
        can_save4(b),
        spec_parse_fsb4(saved4(b)) == Ok::<BankView, Error>(rb),
        k <= b.samples.len(),
    ensures
        spec_v4_data_upto(rb, k) == spec_v4_data_upto(b, k),
    decreases k,
{
    if k > 0 {
        lemma_reread4_data(b, rb, (k - 1) as nat);
        lemma_reread4_bytes(b, rb, k - 1);
    }
}

/// The sample header that is written for a sample that was read back is
/// the header that it was read from.
pub proof fn lemma_reread4_entry(b: BankView, rb: BankView, i: int)
    requires
        can_save4(b),
        spec_parse_fsb4(saved4(b)) == Ok::<BankView, Error>(rb),
        0 <= i < b.samples.len(),
        b.samples[i].sound_v4(),
        name_survives(b.samples[i].name),
    ensures
        spec_v4_entry_bytes(rb, i) == spec_v4_entry_bytes(b, i),
{
    lemma_parse_saved4(b);
    lemma_reread4_sample(b, i);
    lemma_saved4_entry(b, i);
    lemma_entry_fields(b, i);
    lemma_sub_part(saved4(b), entry_at(i), spec_v4_entry_bytes(b, i), 56, 80);
    assert(spec_entry_tail(rb, i) == spec_entry_tail(b, i));
    reveal(spec_v4_entry_bytes);
}

/// The sample headers that are written for the samples that were read back
/// are the headers that they were read from.
pub proof fn lemma_reread4_entries(b: BankView, rb: BankView, k: nat)
    requires
        can_save4(b),
        spec_parse_fsb4(saved4(b)) == Ok::<BankView, Error>(rb),
        k <= b.samples.len(),
        forall|i: int|
            0 <= i < b.samples.len() ==> (#[trigger] b.samples[i]).sound_v4() && name_survives(
                b.samples[i].name,
            ),
    ensures
        spec_v4_entries_upto(rb, k) == spec_v4_entries_upto(b, k),
    decreases k,
{
    if k > 0 {
        lemma_reread4_entries(b, rb, (k - 1) as nat);
        assert(b.samples[k - 1].sound_v4());
        lemma_reread4_entry(b, rb, k - 1);
    }
}

/// Saving and loading again is a round trip for a version 4 bank: the file
/// that a sound bank is written as is read back as a sound bank, and
/// writing that bank gives the file again, byte for byte. The bank's names
/// must survive: the 30-byte name field holds 29 bytes of a name at most,
/// and where that cuts a character in two the name that is read back is
/// another one.
pub proof fn lemma_roundtrip_fsb4(b: BankView, encrypt: bool)
    requires
        b.version == Version::Fsb4,
        b.wf(),
        spec_save(b, encrypt) is Ok,
        forall|i: int| 0 <= i < b.samples.len() ==> name_survives((#[trigger] b.samples[i]).name),
    ensures
        spec_from_bytes(spec_save(b, encrypt)->Ok_0) is Ok,
        spec_from_bytes(spec_save(b, encrypt)->Ok_0)->Ok_0.version == Version::Fsb4,
        spec_save(spec_from_bytes(spec_save(b, encrypt)->Ok_0)->Ok_0, true) == spec_save(
            b,
            encrypt,
        ),
{
    let p = saved4(b);
    let n = b.samples.len();
    assert(can_save4(b));
    assert(spec_save(b, encrypt) == Ok::<Seq<u8>, Error>(p)) by {
        reveal(saved4);
    }
    lemma_parse_saved4(b);
    let rb = spec_parse_fsb4(p)->Ok_0;
    assert(spec_from_bytes(p) == Ok::<BankView, Error>(rb));
    lemma_saved4_layout(b);
    lemma_header4_fields(b);
    lemma_reread4_data(b, rb, n);
    lemma_reread4_entries(b, rb, n);
    assert forall|i: int| 0 <= i < n implies (#[trigger] rb.samples[i]).data_end()
        <= rb.data.len() by {
        lemma_reread4_bytes(b, rb, i);
    }
    assert(spec_header_tail(rb.data, 24, 48) == spec_header_tail(b.data, 24, 48)) by {
        assert(p.subrange(24, 48) =~= p.subrange(0, 48).subrange(24, 48));
    }
    assert(spec_header4(rb) == spec_header4(b)) by {
        reveal(spec_header4);
    }
    assert(spec_save(rb, true) == Ok::<Seq<u8>, Error>(p)) by {
        reveal(saved4);
    }
}

} // verus!
