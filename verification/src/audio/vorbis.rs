//! Vorbis streams: the packets of a raw stream, the headers that banks do
//! not store, and the Ogg file that holds them all.

use crate::bytes::{bytes_result_view, le_u16, push_u32_le, read_u16_le, u32_le_bytes};
use crate::error::Error;
use ogg::writing::{PacketWriteEndInfo, PacketWriter};
use vstd::prelude::*;

verus! {

/// The three header packets with which a Vorbis stream starts.
#[derive(Debug, Clone)]
pub struct VorbisHeaders {
    pub id_header: Vec<u8>,
    pub comment_header: Vec<u8>,
    pub setup_header: Vec<u8>,
}

/// The serial number of the one logical stream that is written.
pub const OGG_SERIAL: u32 = 0x1234_5678;

/// By how much the granule position grows from packet to packet. It stands
/// for the frames of a packet and is an approximation: the true count
/// depends on the block sizes inside the packet, which are not decoded.
pub const GRANULE_STEP: u64 = 1024;

/// The six bytes `vorbis`.
pub open spec fn vorbis_tag() -> Seq<u8> {
    seq![0x76u8, 0x6fu8, 0x72u8, 0x62u8, 0x69u8, 0x73u8]
}

/// The identification header: packet type 1, the tag, version 0, the
/// channel count, the sample rate, three bitrates of 0, the block size
/// exponents 8 and 11 in one byte, and the framing bit.
pub open spec fn spec_id_header(sample_rate: u32, channels: u8) -> Seq<u8> {
    seq![0x01u8] + vorbis_tag() + u32_le_bytes(0) + seq![channels] + u32_le_bytes(sample_rate)
        + u32_le_bytes(0) + u32_le_bytes(0) + u32_le_bytes(0) + seq![0xB8u8, 0x01u8]
}

/// The comment header: packet type 3, the tag, the vendor string `CUMS`
/// with its length, no comments, and the framing bit.
pub open spec fn spec_comment_header() -> Seq<u8> {
    seq![0x03u8] + vorbis_tag() + u32_le_bytes(4) + seq![0x43u8, 0x55u8, 0x4du8, 0x53u8]
        + u32_le_bytes(0) + seq![0x01u8]
}

/// Appends the six bytes `vorbis`.
fn push_tag(out: &mut Vec<u8>)
    ensures
        final(out)@ == old(out)@ + vorbis_tag(),
{
    out.push(0x76);
    out.push(0x6f);
    out.push(0x72);
    out.push(0x62);
    out.push(0x69);
    out.push(0x73);
    assert(out@ =~= old(out)@ + vorbis_tag());
}

/// Makes the identification header of a stream.
pub fn generate_id_header(sample_rate: u32, channels: u8) -> (r: Vec<u8>)
    ensures
        r@ == spec_id_header(sample_rate, channels),
        r@.len() == 30,
{
    let mut header: Vec<u8> = Vec::new();
    header.push(0x01);
    push_tag(&mut header);
    push_u32_le(&mut header, 0);
    header.push(channels);
    push_u32_le(&mut header, sample_rate);
    push_u32_le(&mut header, 0);
    push_u32_le(&mut header, 0);
    push_u32_le(&mut header, 0);
    header.push(0xB8);
    header.push(0x01);
    assert(header@ =~= spec_id_header(sample_rate, channels));
    header
}

/// Makes the comment header of a stream.
pub fn generate_comment_header() -> (r: Vec<u8>)
    ensures
        r@ == spec_comment_header(),
        r@.len() == 20,
{
    let mut header: Vec<u8> = Vec::new();
    header.push(0x03);
    push_tag(&mut header);
    push_u32_le(&mut header, 4);
    header.push(0x43);
    header.push(0x55);
    header.push(0x4d);
    header.push(0x53);
    push_u32_le(&mut header, 0);
    header.push(0x01);
    assert(header@ =~= spec_comment_header());
    header
}

/// The packets of a raw Vorbis stream from `pos` on: each is two bytes of
/// little-endian length and then that many bytes. The stream ends where
/// fewer than two bytes are left, at a length of 0, and at a length that
/// runs past the end.
pub open spec fn spec_packets(data: Seq<u8>, pos: int) -> Seq<Seq<u8>>
    decreases data.len() - pos,
{
    if pos < 0 || pos + 2 > data.len() {
        Seq::empty()
    } else {
        let size = le_u16(data, pos) as int;
        if size == 0 || pos + 2 + size > data.len() {
            Seq::empty()
        } else {
            seq![data.subrange(pos + 2, pos + 2 + size)] + spec_packets(data, pos + 2 + size)
        }
    }
}

/// Whether `data` starts with a packet.
pub open spec fn spec_has_valid_vorbis_packets(data: Seq<u8>) -> bool {
    data.len() >= 2 && le_u16(data, 0) > 0 && le_u16(data, 0) + 2 <= data.len()
}

/// A walk over the packets of a raw Vorbis stream.
pub struct VorbisPacketIterator<'a> {
    data: &'a [u8],
    position: usize,
}

impl<'a> VorbisPacketIterator<'a> {
    /// The stream that is walked over.
    pub closed spec fn stream(&self) -> Seq<u8> {
        self.data@
    }

    /// Where the walk stands.
    pub closed spec fn position(&self) -> int {
        self.position as int
    }

    /// The walk never leaves the stream.
    pub closed spec fn wf(&self) -> bool {
        self.position <= self.data@.len()
    }

    /// A walk that stands at the start of `data`.
    pub fn new(data: &'a [u8]) -> (r: Self)
        ensures
            r.wf(),
            r.stream() == data@,
            r.position() == 0,
    {
        VorbisPacketIterator { data, position: 0 }
    }

    /// The next packet. Where fewer than two bytes are left the walk stays
    /// where it is; where the length is 0 or runs past the end it has
    /// stepped over the length.
    pub fn next(&mut self) -> (r: Option<&'a [u8]>)
        requires
            old(self).wf(),
        ensures
            final(self).wf(),
            final(self).stream() == old(self).stream(),
            ({
                let data = old(self).stream();
                let pos = old(self).position();
                let size = le_u16(data, pos) as int;
                if pos + 2 > data.len() {
                    r is None && final(self).position() == pos
                } else if size == 0 || pos + 2 + size > data.len() {
                    r is None && final(self).position() == pos + 2
                } else {
                    &&& r is Some
                    &&& r->Some_0@ == data.subrange(pos + 2, pos + 2 + size)
                    &&& final(self).position() == pos + 2 + size
                    &&& spec_packets(data, pos) == seq![r->Some_0@] + spec_packets(
                        data,
                        pos + 2 + size,
                    )
                }
            }),
            r is None ==> spec_packets(old(self).stream(), old(self).position()) == Seq::<
                Seq<u8>,
            >::empty(),
    {
        let len: usize = self.data.len();
        let size: usize = match read_u16_le(self.data, self.position) {
            Some(v) => v as usize,
            None => {
                return None;
            },
        };
        self.position = self.position + 2;
        if size == 0 || size > len - self.position {
            return None;
        }
        let packet = vstd::slice::slice_subrange(self.data, self.position, self.position + size);
        self.position = self.position + size;
        Some(packet)
    }
}

/// The views of the packets of `v`.
pub open spec fn packet_views(v: Seq<Vec<u8>>) -> Seq<Seq<u8>> {
    Seq::new(v.len(), |i: int| v[i]@)
}

/// The packets of a raw Vorbis stream, each copied out.
pub fn read_packets(data: &[u8]) -> (r: Vec<Vec<u8>>)
    ensures
        packet_views(r@) == spec_packets(data@, 0),
{
    let mut walk = VorbisPacketIterator::new(data);
    let mut packets: Vec<Vec<u8>> = Vec::new();
    assert(packet_views(packets@) + spec_packets(data@, 0) =~= spec_packets(data@, 0));
    loop
        invariant
            walk.wf(),
            walk.stream() == data@,
            packet_views(packets@) + spec_packets(data@, walk.position()) == spec_packets(data@, 0),
        decreases data@.len() - walk.position(),
    {
        let ghost before = packet_views(packets@);
        let ghost pos = walk.position();
        match walk.next() {
            Some(p) => {
                let copy = vstd::slice::slice_to_vec(p);
                packets.push(copy);
                proof {
                    let rest = spec_packets(data@, walk.position());
                    assert(packet_views(packets@) =~= before + seq![p@]);
                    assert((before + seq![p@]) + rest =~= before + (seq![p@] + rest));
                }
            },
            None => {
                assert(before + Seq::<Seq<u8>>::empty() =~= before);
                return packets;
            },
        }
    }
}

/// Nothing is known of a raw stream's sample rate and channel count: they
/// are not stored in it.
pub fn get_vorbis_info(_data: &[u8]) -> (r: Option<(u32, u32)>)
    ensures
        r is None,
{
    None
}

/// Whether `data` starts with a packet.
pub fn has_valid_vorbis_packets(data: &[u8]) -> (r: bool)
    ensures
        r == spec_has_valid_vorbis_packets(data@),
{
    match read_u16_le(data, 0) {
        Some(size) => size > 0 && size as usize + 2 <= data.len(),
        None => false,
    }
}


/// What the writing of a packet ends.
#[derive(Debug, Clone, Copy, PartialEq, Eq, Structural)]
pub enum PacketEnd {
    /// Nothing: the page goes on.
    NormalPacket,
    /// The page.
    EndPage,
    /// The page and the stream.
    EndStream,
}

/// One packet as it is handed to the Ogg writer.
pub struct OggPacket {
    pub data: Seq<u8>,
    pub serial: u32,
    pub end: PacketEnd,
    /// The granule position that the packet's page may carry.
    pub granule: u64,
}

/// An `ogg::writing::PacketWriter` that writes into a vector of bytes. It
/// is held behind a struct of its own, which Verus does not look into: the
/// writer's own type has a bound by `io::Write`, with which Verus does not
/// take its declaration.
#[verifier::external_body]
pub struct OggWriter {
    inner: PacketWriter<'static, Vec<u8>>,
}

/// `std::io::Error`, the error type of `PacketWriter::write_packet`.
#[verifier::external_type_specification]
#[verifier::external_body]
pub struct ExIoError(std::io::Error);

/// The packets that were written into an Ogg writer, in their order.
pub uninterp spec fn ogg_written(w: OggWriter) -> Seq<OggPacket>;

/// The bytes that an Ogg writer has put out when the given packets were
/// written into it, one after the other, from its start.
pub uninterp spec fn ogg_pages(packets: Seq<OggPacket>) -> Seq<u8>;

/// The four bytes `OggS` with which every Ogg page starts.
pub open spec fn ogg_capture() -> Seq<u8> {
    seq![0x4fu8, 0x67u8, 0x67u8, 0x53u8]
}

/// Whether `bytes` start with the Ogg capture pattern.
pub open spec fn starts_with_capture(bytes: Seq<u8>) -> bool {
    bytes.len() >= 4 && bytes.subrange(0, 4) == ogg_capture()
}

/// `PacketWriter::new` over an empty vector: a writer into which nothing was
/// written yet.
#[verifier::external_body]
fn ogg_writer_new() -> (w: OggWriter)
    ensures
        ogg_written(w) == Seq::<OggPacket>::empty(),
{
    OggWriter { inner: PacketWriter::new(Vec::new()) }
}

/// `PacketWriter::write_packet`: it succeeds, and the packet is then the
/// last of those that were written into the writer. The only failures that
/// `write_packet` passes on are those of writes into its sink and into the
/// cursor in which it makes a page header; both are vectors of bytes, which
/// grow as needed and do not fail.
#[verifier::external_body]
fn ogg_write_packet(
    w: &mut OggWriter,
    data: Vec<u8>,
    serial: u32,
    end: PacketEnd,
    granule: u64,
) -> (r: Result<(), std::io::Error>)
    ensures
        r is Ok,
        ogg_written(*final(w)) == ogg_written(*old(w)).push(
            OggPacket { data: data@, serial, end, granule },
        ),
{
    let info = match end {
        PacketEnd::NormalPacket => PacketWriteEndInfo::NormalPacket,
        PacketEnd::EndPage => PacketWriteEndInfo::EndPage,
        PacketEnd::EndStream => PacketWriteEndInfo::EndStream,
    };
    w.inner.write_packet(data, serial, info, granule)
}

/// `PacketWriter::into_inner`: the bytes that the writer has put out, which
/// the packets written into it determine. Where the first packet ended its
/// page, a page was put out, and a page starts with the capture pattern.
#[verifier::external_body]
fn ogg_writer_finish(w: OggWriter) -> (out: Vec<u8>)
    ensures
        out@ == ogg_pages(ogg_written(w)),
        ogg_written(w).len() > 0 && ogg_written(w)[0].end != PacketEnd::NormalPacket
            ==> starts_with_capture(out@),
{
    w.inner.into_inner()
}

/// How audio packet `i` of `count` ends: the last one ends the stream,
/// every tenth one its page.
pub open spec fn spec_audio_end(i: int, count: int) -> PacketEnd {
    if i == count - 1 {
        PacketEnd::EndStream
    } else if (i + 1) % 10 == 0 {
        PacketEnd::EndPage
    } else {
        PacketEnd::NormalPacket
    }
}

/// Audio packet `i` of the stream as it is written: its granule position is
/// 1024 for each packet up to and with it.
pub open spec fn spec_audio_packet(packets: Seq<Seq<u8>>, i: int) -> OggPacket {
    OggPacket {
        data: packets[i],
        serial: OGG_SERIAL,
        end: spec_audio_end(i, packets.len() as int),
        granule: (GRANULE_STEP * (i + 1)) as u64,
    }
}

/// The three header packets as they are written: the identification header
/// ends its page, the comment header does not, the setup header does.
pub open spec fn spec_header_packets(id: Seq<u8>, comment: Seq<u8>, setup: Seq<u8>) -> Seq<
    OggPacket,
> {
    seq![
        OggPacket { data: id, serial: OGG_SERIAL, end: PacketEnd::EndPage, granule: 0 },
        OggPacket { data: comment, serial: OGG_SERIAL, end: PacketEnd::NormalPacket, granule: 0 },
        OggPacket { data: setup, serial: OGG_SERIAL, end: PacketEnd::EndPage, granule: 0 },
    ]
}

/// All packets of a stream as they are written: the headers, then the
/// first `k` audio packets.
pub open spec fn spec_stream_upto(
    id: Seq<u8>,
    comment: Seq<u8>,
    setup: Seq<u8>,
    packets: Seq<Seq<u8>>,
    k: int,
) -> Seq<OggPacket> {
    spec_header_packets(id, comment, setup) + Seq::new(
        k as nat,
        |i: int| spec_audio_packet(packets, i),
    )
}

/// All packets of a stream as they are written.
pub open spec fn spec_stream(
    id: Seq<u8>,
    comment: Seq<u8>,
    setup: Seq<u8>,
    packets: Seq<Seq<u8>>,
) -> Seq<OggPacket> {
    spec_stream_upto(id, comment, setup, packets, packets.len() as int)
}

/// How audio packet `i` of `count` ends.
pub fn audio_end(i: usize, count: usize) -> (r: PacketEnd)
    requires
        i < count,
    ensures
        r == spec_audio_end(i as int, count as int),
{
    if i == count - 1 {
        PacketEnd::EndStream
    } else if (i + 1) % 10 == 0 {
        PacketEnd::EndPage
    } else {
        PacketEnd::NormalPacket
    }
}

/// One packet as it is to be handed to the Ogg writer.
#[derive(Debug, Clone, PartialEq, Eq)]
pub struct PlannedPacket {
    pub data: Vec<u8>,
    pub end: PacketEnd,
    pub granule: u64,
}

impl View for PlannedPacket {
    type V = OggPacket;

    open spec fn view(&self) -> OggPacket {
        OggPacket { data: self.data@, serial: OGG_SERIAL, end: self.end, granule: self.granule }
    }
}

/// The views of the packets of `v`.
pub open spec fn plan_views(v: Seq<PlannedPacket>) -> Seq<OggPacket> {
    Seq::new(v.len(), |i: int| v[i]@)
}

/// The packets of the stream that is written for `raw`, or why there is
/// none: more packets than 32 bits can count.
pub open spec fn spec_plan(
    id: Seq<u8>,
    comment: Seq<u8>,
    setup: Seq<u8>,
    raw: Seq<u8>,
) -> Result<Seq<OggPacket>, Error> {
    let packets = spec_packets(raw, 0);
    if packets.len() > u32::MAX {
        Err(Error::TooLarge)
    } else {
        Ok(spec_stream(id, comment, setup, packets))
    }
}

/// A copy of `v`.
fn copy_bytes(v: &Vec<u8>) -> (r: Vec<u8>)
    ensures
        r@ == v@,
{
    vstd::slice::slice_to_vec(v.as_slice())
}

/// Plans the stream of an Ogg file: which packets are written, which of
/// them end a page or the stream, and which granule position each has.
pub fn plan_stream(headers: &VorbisHeaders, raw_data: &[u8]) -> (r: Result<
    Vec<PlannedPacket>,
    Error,
>)
    ensures
        match r {
            Ok(plan) => spec_plan(
                headers.id_header@,
                headers.comment_header@,
                headers.setup_header@,
                raw_data@,
            ) == Ok::<Seq<OggPacket>, Error>(plan_views(plan@)),
            Err(e) => spec_plan(
                headers.id_header@,
                headers.comment_header@,
                headers.setup_header@,
                raw_data@,
            ) == Err::<Seq<OggPacket>, Error>(e),
        },
{
    let packets = read_packets(raw_data);
    let total: usize = packets.len();
    let ghost views = spec_packets(raw_data@, 0);
    assert(packet_views(packets@).len() == packets@.len());
    if total > 0xFFFF_FFFF {
        return Err(Error::TooLarge);
    }
    let ghost id = headers.id_header@;
    let ghost comment = headers.comment_header@;
    let ghost setup = headers.setup_header@;
    let mut plan: Vec<PlannedPacket> = Vec::new();
    plan.push(
        PlannedPacket { data: copy_bytes(&headers.id_header), end: PacketEnd::EndPage, granule: 0 },
    );
    plan.push(
        PlannedPacket {
            data: copy_bytes(&headers.comment_header),
            end: PacketEnd::NormalPacket,
            granule: 0,
        },
    );
    plan.push(
        PlannedPacket {
            data: copy_bytes(&headers.setup_header),
            end: PacketEnd::EndPage,
            granule: 0,
        },
    );
    assert(plan_views(plan@) =~= spec_stream_upto(id, comment, setup, views, 0));
    let mut i: usize = 0;
    while i < total
        invariant
            i <= total,
            total == packets@.len(),
            total <= u32::MAX,
            views == packet_views(packets@),
            views.len() == total,
            plan_views(plan@) == spec_stream_upto(id, comment, setup, views, i as int),
        decreases total - i,
    {
        let granule: u64 = GRANULE_STEP * (i as u64 + 1);
        let end = audio_end(i, total);
        let data = copy_bytes(&packets[i]);
        assert(data@ == views[i as int]);
        let ghost before = plan_views(plan@);
        let next = PlannedPacket { data, end, granule };
        assert(next@ == spec_audio_packet(views, i as int));
        plan.push(next);
        i = i + 1;
        assert(plan_views(plan@) =~= before.push(spec_audio_packet(views, i - 1)));
        assert(before.push(spec_audio_packet(views, i - 1)) =~= spec_stream_upto(
            id,
            comment,
            setup,
            views,
            i as int,
        ));
    }
    Ok(plan)
}

/// What building an Ogg file gives: with more packets than 32 bits can
/// count it fails; else it is the bytes that the Ogg writer puts out for
/// the stream's packets.
pub open spec fn spec_build_ogg(
    id: Seq<u8>,
    comment: Seq<u8>,
    setup: Seq<u8>,
    raw: Seq<u8>,
) -> Result<Seq<u8>, Error> {
    match spec_plan(id, comment, setup, raw) {
        Err(e) => Err(e),
        Ok(plan) => Ok(ogg_pages(plan)),
    }
}

/// Writes planned packets into an Ogg writer, one after the other, and
/// hands out what the writer has put out. Where the first packet ends its
/// page, that starts with the capture pattern.
pub fn write_plan(plan: &Vec<PlannedPacket>) -> (r: Vec<u8>)
    ensures
        r@ == ogg_pages(plan_views(plan@)),
        plan@.len() > 0 && plan@[0].end != PacketEnd::NormalPacket ==> starts_with_capture(r@),
{
    let mut writer = ogg_writer_new();
    let n: usize = plan.len();
    let mut i: usize = 0;
    assert(ogg_written(writer) =~= plan_views(plan@).subrange(0, 0));
    while i < n
        invariant
            i <= n,
            n == plan@.len(),
            ogg_written(writer) == plan_views(plan@).subrange(0, i as int),
        decreases n - i,
    {
        let p = &plan[i];
        assert(p@ == plan_views(plan@)[i as int]);
        match ogg_write_packet(&mut writer, copy_bytes(&p.data), OGG_SERIAL, p.end, p.granule) {
            Ok(()) => {},
            Err(_) => {
                assert(false);
            },
        }
        i = i + 1;
        assert(ogg_written(writer) =~= plan_views(plan@).subrange(0, i as int));
    }
    assert(plan_views(plan@).subrange(0, n as int) =~= plan_views(plan@));
    assert(n > 0 ==> plan_views(plan@)[0] == plan@[0]@);
    ogg_writer_finish(writer)
}

/// Wraps a raw Vorbis stream into an Ogg file: the three headers, then the
/// packets of the stream. The file starts with the capture pattern. The
/// sample count is not used.
pub fn build_ogg_file(headers: &VorbisHeaders, raw_data: &[u8], _sample_count: u64) -> (r: Result<
    Vec<u8>,
    Error,
>)
    ensures
        bytes_result_view(r) == spec_build_ogg(
            headers.id_header@,
            headers.comment_header@,
            headers.setup_header@,
            raw_data@,
        ),
        r matches Ok(v) ==> starts_with_capture(v@),
{
    match plan_stream(headers, raw_data) {
        Ok(plan) => {
            proof {
                let views = plan_views(plan@);
                let stream = spec_stream(
                    headers.id_header@,
                    headers.comment_header@,
                    headers.setup_header@,
                    spec_packets(raw_data@, 0),
                );
                assert(views == stream);
                assert(stream.len() >= 3);
                assert(views.len() == plan@.len());
                assert(views[0] == plan@[0]@);
                assert(stream[0].end == PacketEnd::EndPage);
            }
            Ok(write_plan(&plan))
        },
        Err(e) => Err(e),
    }
}

} // verus!
