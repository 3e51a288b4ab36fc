use vstd::prelude::*;
use vstd::string::StringExecFns;

use crate::bytes::{ByteCursor, u32_le, u64_le};
use crate::OggError;

verus! {

broadcast use crate::bytes::ByteCursor::lemma_wf_bounds;

/// The three flag bits a page header can carry in its type byte.
#[derive(Debug, Clone, Copy, PartialEq, Eq, Hash, Structural)]
pub enum HeaderTypeFlag {
    Continuation,
    Bos,
    Eos,
}

/// The bit each flag occupies in the type byte.
pub open spec fn flag_mask(flag: HeaderTypeFlag) -> u8 {
    match flag {
        HeaderTypeFlag::Continuation => 0x01,
        HeaderTypeFlag::Bos => 0x02,
        HeaderTypeFlag::Eos => 0x04,
    }
}

/// A page header's type byte, read as an order-independent bitmask.
#[derive(Debug, Clone, Copy, PartialEq, Eq, Hash)]
pub struct HeaderType(u8);

impl HeaderType {
    /// The raw type byte.
    pub closed spec fn bits(&self) -> u8 {
        self.0
    }

    pub fn from_byte(b: u8) -> (r: HeaderType)
        ensures
            r.bits() == b,
    {
        HeaderType(b)
    }

    pub fn has_flag(&self, flag: HeaderTypeFlag) -> (r: bool)
        ensures
            r == ((self.bits() & flag_mask(flag)) != 0),
    {
        let mask: u8 = match flag {
            HeaderTypeFlag::Continuation => 0x01,
            HeaderTypeFlag::Bos => 0x02,
            HeaderTypeFlag::Eos => 0x04,
        };
        (self.0 & mask) != 0
    }

    /// Write the set flags out by name, "None" when none is set.
    pub fn describe(&self) -> (r: String)
        ensures
            r@ == spec_flag_names(self.bits()),
    {
        let mut r = String::new();
        if self.has_flag(HeaderTypeFlag::Continuation) {
            r.append("Cont");
        }
        if self.has_flag(HeaderTypeFlag::Bos) {
            r.append("Bos");
        }
        if self.has_flag(HeaderTypeFlag::Eos) {
            r.append("Eos");
        }
        if self.0 == 0 {
            r.append("None");
        }
        proof {
            assert(r@ =~= spec_flag_names(self.bits()));
        }
        r
    }
}

/// The flag names written out in a fixed order: "Cont", "Bos", "Eos" for
/// each flag that is set, or "None" when none is.
pub open spec fn spec_flag_names(bits: u8) -> Seq<char> {
    (if bits & 0x01 != 0 {
        "Cont"@
    } else {
        Seq::<char>::empty()
    }) + (if bits & 0x02 != 0 {
        "Bos"@
    } else {
        Seq::<char>::empty()
    }) + (if bits & 0x04 != 0 {
        "Eos"@
    } else {
        Seq::<char>::empty()
    }) + (if bits == 0 {
        "None"@
    } else {
        Seq::<char>::empty()
    })
}

/// The mathematical content of one parsed page header.
pub ghost struct HeaderV {
    pub flags: u8,
    pub granule_position: u64,
    pub bitstream_serial_number: u32,
    pub page_sequence_number: u32,
    pub segments: Seq<u8>,
}

/// One parsed container page header. The payload it describes follows it in
/// the byte stream, sliced into fragments by the lacing values of
/// `segment_table`.
#[derive(Debug, Clone, PartialEq, Eq)]
pub struct Header {
    pub header_type: HeaderType,
    pub granule_position: u64,
    pub bitstream_serial_number: u32,
    pub page_sequence_number: u32,
    pub segment_table: Vec<u8>,
}

impl View for Header {
    type V = HeaderV;

    open spec fn view(&self) -> HeaderV {
        HeaderV {
            flags: self.header_type.bits(),
            granule_position: self.granule_position,
            bitstream_serial_number: self.bitstream_serial_number,
            page_sequence_number: self.page_sequence_number,
            segments: self.segment_table@,
        }
    }
}

/// The fixed four bytes ("OggS") that open every page header.
pub open spec fn capture_pattern() -> Seq<u8> {
    seq![0x4fu8, 0x67u8, 0x67u8, 0x53u8]
}

/// What parsing one page header at `pos` yields.
pub ghost enum HeaderParse {
    /// The data ends exactly at `pos`: a clean end of the stream, not an
    /// error. Truncation is acceptable only here, at the very first byte of
    /// a would-be header; a partial header is `Fail`.
    Eof,
    /// A malformed or truncated header.
    Fail(OggError),
    /// A complete header; `end` is the position just past its segment table,
    /// where the page's payload begins.
    Parsed { header: HeaderV, end: int },
}

/// One page header, parsed from `data` at `pos`. Byte layout: the four-byte
/// capture pattern, a version byte that must be zero, the type byte, the
/// 64-bit granule position, the 32-bit serial and page sequence numbers, a
/// 32-bit checksum that is read but not verified, the segment count, and that
/// many lacing values.
pub open spec fn spec_parse_header(data: Seq<u8>, pos: int) -> HeaderParse {
    if pos == data.len() {
        HeaderParse::Eof
    } else if pos + 4 > data.len() {
        HeaderParse::Fail(OggError::TruncatedHeader)
    } else if data.subrange(pos, pos + 4) != capture_pattern() {
        HeaderParse::Fail(OggError::BadCapturePattern)
    } else if pos + 5 > data.len() {
        HeaderParse::Fail(OggError::TruncatedHeader)
    } else if data[pos + 4] != 0 {
        HeaderParse::Fail(OggError::BadVersion)
    } else if pos + 27 > data.len() {
        HeaderParse::Fail(OggError::TruncatedHeader)
    } else if pos + 27 + data[pos + 26] > data.len() {
        HeaderParse::Fail(OggError::TruncatedHeader)
    } else {
        HeaderParse::Parsed {
            header: HeaderV {
                flags: data[pos + 5],
                granule_position: u64_le(data.subrange(pos + 6, pos + 14)),
                bitstream_serial_number: u32_le(data.subrange(pos + 14, pos + 18)),
                page_sequence_number: u32_le(data.subrange(pos + 18, pos + 22)),
                segments: data.subrange(pos + 27, pos + 27 + data[pos + 26]),
            },
            end: pos + 27 + data[pos + 26],
        }
    }
}

impl Header {
    /// Parse one page header at the cursor's position, leaving the cursor at
    /// the first payload byte. A clean end of the data is `Ok(None)`; a
    /// malformed or truncated header is an error.
    pub fn from_reader(rdr: &mut ByteCursor) -> (r: Result<Option<Header>, OggError>)
        requires
            old(rdr).wf(),
        ensures
            final(rdr).wf(),
            final(rdr).bytes() == old(rdr).bytes(),
            match spec_parse_header(old(rdr).bytes(), old(rdr).pos()) {
                HeaderParse::Eof => r == Ok::<Option<Header>, OggError>(None) && final(rdr).pos()
                    == old(rdr).pos(),
                HeaderParse::Fail(e) => r == Err::<Option<Header>, OggError>(e),
                HeaderParse::Parsed { header, end } => match r {
                    Ok(Some(h)) => h@ == header && final(rdr).pos() == end,
                    _ => false,
                },
            },
    {
        if rdr.remaining() == 0 {
            return Ok(None);
        }
        let capture = match rdr.read_bytes(4) {
            None => {
                return Err(OggError::TruncatedHeader);
            },
            Some(v) => v,
        };
        if !(capture[0] == 0x4f && capture[1] == 0x67 && capture[2] == 0x67 && capture[3]
            == 0x53) {
            return Err(OggError::BadCapturePattern);
        }
        proof {
            assert(old(rdr).bytes().subrange(old(rdr).pos(), old(rdr).pos() + 4)
                =~= capture_pattern());
        }
        let version = match rdr.read_u8() {
            None => {
                return Err(OggError::TruncatedHeader);
            },
            Some(v) => v,
        };
        if version != 0 {
            return Err(OggError::BadVersion);
        }
        let flags = match rdr.read_u8() {
            None => {
                return Err(OggError::TruncatedHeader);
            },
            Some(v) => v,
        };
        let granule_position = match rdr.read_u64_le() {
            None => {
                return Err(OggError::TruncatedHeader);
            },
            Some(v) => v,
        };
        let bitstream_serial_number = match rdr.read_u32_le() {
            None => {
                return Err(OggError::TruncatedHeader);
            },
            Some(v) => v,
        };
        let page_sequence_number = match rdr.read_u32_le() {
            None => {
                return Err(OggError::TruncatedHeader);
            },
            Some(v) => v,
        };
        let _checksum = match rdr.read_u32_le() {
            None => {
                return Err(OggError::TruncatedHeader);
            },
            Some(v) => v,
        };
        let segments = match rdr.read_u8() {
            None => {
                return Err(OggError::TruncatedHeader);
            },
            Some(v) => v,
        };
        let segment_table = match rdr.read_bytes(segments as usize) {
            None => {
                return Err(OggError::TruncatedHeader);
            },
            Some(v) => v,
        };
        Ok(
            Some(
                Header {
                    header_type: HeaderType::from_byte(flags),
                    granule_position,
                    bitstream_serial_number,
                    page_sequence_number,
                    segment_table,
                },
            ),
        )
    }
}

/// What one `next_packet` call yields, together with the reader state it
/// leaves behind. A lacing value below 255 ends the packet being gathered;
/// 255 continues it, possibly across a page boundary. Data that ends while a
/// packet is still open yields that partial packet; data that ends between
/// packets is a clean end of the stream.
pub ghost enum PacketOutcome {
    Packet { packet: Seq<u8>, pos: int, header: HeaderV, seg_idx: int },
    End,
    Fail(OggError),
}

/// The packet gathered by reading fragments from `pos` on, starting `acc`
/// bytes in, with `seg_idx` lacing values of the current page already
/// consumed.
pub open spec fn spec_next_packet(
    data: Seq<u8>,
    pos: int,
    header: HeaderV,
    seg_idx: int,
    acc: Seq<u8>,
) -> PacketOutcome
    decreases data.len() - pos, header.segments.len() - seg_idx,
{
    if !(0 <= pos <= data.len() && 0 <= seg_idx <= header.segments.len()) {
        PacketOutcome::Fail(OggError::TruncatedPacket)
    } else if seg_idx < header.segments.len() {
        let len = header.segments[seg_idx] as int;
        if pos + len > data.len() {
            PacketOutcome::Fail(OggError::TruncatedPacket)
        } else {
            let acc2 = acc + data.subrange(pos, pos + len);
            if header.segments[seg_idx] == 255 {
                spec_next_packet(data, pos + len, header, seg_idx + 1, acc2)
            } else {
                PacketOutcome::Packet {
                    packet: acc2,
                    pos: pos + len,
                    header,
                    seg_idx: seg_idx + 1,
                }
            }
        }
    } else {
        match spec_parse_header(data, pos) {
            HeaderParse::Eof => if acc.len() == 0 {
                PacketOutcome::End
            } else {
                PacketOutcome::Packet { packet: acc, pos, header, seg_idx }
            },
            HeaderParse::Fail(e) => PacketOutcome::Fail(e),
            HeaderParse::Parsed { header: next, end } => spec_next_packet(data, end, next, 0, acc),
        }
    }
}

/// The total payload length described by a run of lacing values.
pub open spec fn seg_sum(s: Seq<u8>) -> int
    decreases s.len(),
{
    if s.len() == 0 {
        0
    } else {
        seg_sum(s.drop_last()) + s.last()
    }
}

pub proof fn lemma_seg_sum_bounds(s: Seq<u8>)
    ensures
        0 <= seg_sum(s) <= 255 * s.len(),
    decreases s.len(),
{
    if s.len() > 0 {
        lemma_seg_sum_bounds(s.drop_last());
    }
}

pub proof fn lemma_seg_sum_take(s: Seq<u8>, i: int)
    requires
        0 <= i < s.len(),
    ensures
        seg_sum(s.take(i + 1)) == seg_sum(s.take(i)) + s[i],
{
    assert(s.take(i + 1).drop_last() =~= s.take(i));
}


/// The summed byte length of the first `k` lacing values of a segment
/// table: how much payload the fragments they describe occupy.
fn sum_segment_prefix(table: &Vec<u8>, k: usize) -> (r: usize)
    requires
        k <= table@.len(),
        table@.len() <= 255,
    ensures
        r == seg_sum(table@.take(k as int)),
{
    let ghost segs = table@;
    let mut total: usize = 0;
    let mut i: usize = 0;
    while i < k
        invariant
            0 <= i <= k,
            k <= segs.len() <= 255,
            segs == table@,
            total == seg_sum(segs.take(i as int)),
            total <= 255 * i,
        decreases k - i,
    {
        proof {
            lemma_seg_sum_take(segs, i as int);
        }
        total = total + table[i] as usize;
        i = i + 1;
    }
    total
}

/// One past the index of the last lacing value below 255: the number of
/// leading fragments that belong to packets completed within the page. The
/// fragments from this index on (all valued 255) open the page's final,
/// unfinished packet.
pub open spec fn skip_count(s: Seq<u8>) -> int
    decreases s.len(),
{
    if s.len() == 0 {
        0
    } else if s.last() != 255 {
        s.len() as int
    } else {
        skip_count(s.drop_last())
    }
}

/// What a byte-offset seek yields: either the reader state it establishes
/// and the page's granule position, or the error that refused it.
pub ghost enum SeekOutcome {
    Sought { header: HeaderV, pos: int, seg_idx: int, granule: u64 },
    Fail(OggError),
}

/// Seeking parses the header at `header_pos` (clamped to the end of the
/// data), refuses a page that continues a packet from an earlier page, and,
/// when asked, skips past every fragment of the page's completed packets so
/// that the reader stands on the page's final unfinished packet, or on the
/// next page when the last packet closes within the page.
pub open spec fn spec_seek(data: Seq<u8>, header_pos: u64, move_to_last_segment: bool) -> SeekOutcome {
    let start = if header_pos <= data.len() {
        header_pos as int
    } else {
        data.len() as int
    };
    match spec_parse_header(data, start) {
        HeaderParse::Eof => SeekOutcome::Fail(OggError::NoDataLeft),
        HeaderParse::Fail(e) => SeekOutcome::Fail(e),
        HeaderParse::Parsed { header, end } => {
            if header.flags & 0x01 != 0 {
                SeekOutcome::Fail(OggError::SeekToContinuation)
            } else if move_to_last_segment {
                let skip = seg_sum(header.segments.take(skip_count(header.segments)));
                SeekOutcome::Sought {
                    header,
                    pos: if end + skip <= data.len() {
                        end + skip
                    } else {
                        data.len() as int
                    },
                    seg_idx: skip_count(header.segments),
                    granule: header.granule_position,
                }
            } else {
                SeekOutcome::Sought { header, pos: end, seg_idx: 0, granule: header.granule_position }
            }
        },
    }
}

/// What the linear scan for a target granule position finds: the byte offset
/// of the page preceding the first page whose granule position is positive
/// and at or past the target (or offset zero, best effort, when the scan
/// reaches the end of the stream with no page qualifying), or the error
/// that stopped the scan.
pub ghost enum ScanOutcome {
    Found(int),
    Fail(OggError),
}

pub open spec fn spec_scan(data: Seq<u8>, pos: int, target: u64, last: int) -> ScanOutcome
    decreases data.len() - pos,
    via spec_scan_dec
{
    if !(0 <= pos <= data.len()) {
        ScanOutcome::Fail(OggError::TruncatedHeader)
    } else {
        match spec_parse_header(data, pos) {
            HeaderParse::Eof => ScanOutcome::Found(0),
            HeaderParse::Fail(e) => ScanOutcome::Fail(e),
            HeaderParse::Parsed { header, end } => {
                if header.granule_position >= target && header.granule_position > 0 {
                    ScanOutcome::Found(last)
                } else {
                    let next = end + seg_sum(header.segments);
                    spec_scan(
                        data,
                        if next <= data.len() {
                            next
                        } else {
                            data.len() as int
                        },
                        target,
                        pos,
                    )
                }
            },
        }
    }
}

#[via_fn]
proof fn spec_scan_dec(data: Seq<u8>, pos: int, target: u64, last: int) {
    match spec_parse_header(data, pos) {
        HeaderParse::Parsed { header, end } => {
            lemma_seg_sum_bounds(header.segments);
        },
        _ => {},
    }
}

/// What scanning every page header from the start of the data yields: the
/// byte offset and parsed header of each page, in file order, or the error
/// that stopped the scan.
pub ghost enum HeadersOutcome {
    Headers(Seq<(int, HeaderV)>),
    Fail(OggError),
}

pub open spec fn spec_all_headers(data: Seq<u8>, pos: int) -> HeadersOutcome
    decreases data.len() - pos,
    via spec_all_headers_dec
{
    if !(0 <= pos <= data.len()) {
        HeadersOutcome::Fail(OggError::TruncatedHeader)
    } else {
        match spec_parse_header(data, pos) {
            HeaderParse::Eof => HeadersOutcome::Headers(Seq::empty()),
            HeaderParse::Fail(e) => HeadersOutcome::Fail(e),
            HeaderParse::Parsed { header, end } => {
                let next = end + seg_sum(header.segments);
                match spec_all_headers(
                    data,
                    if next <= data.len() {
                        next
                    } else {
                        data.len() as int
                    },
                ) {
                    HeadersOutcome::Fail(e) => HeadersOutcome::Fail(e),
                    HeadersOutcome::Headers(rest) => HeadersOutcome::Headers(
                        seq![(pos, header)] + rest,
                    ),
                }
            },
        }
    }
}

#[via_fn]
proof fn spec_all_headers_dec(data: Seq<u8>, pos: int) {
    match spec_parse_header(data, pos) {
        HeaderParse::Parsed { header, end } => {
            lemma_seg_sum_bounds(header.segments);
        },
        _ => {},
    }
}

/// A stateful demultiplexer that exposes a logical-packet view over the
/// physical pages of an in-memory container. The cursor always stands at the
/// first byte of the fragment named by `segment_idx` within the current page.
#[derive(Debug)]
pub struct PacketReader {
    reader: ByteCursor,
    current_header: Header,
    segment_idx: usize,
}

impl PacketReader {
    /// The whole underlying byte sequence.
    pub closed spec fn bytes(&self) -> Seq<u8> {
        self.reader.bytes()
    }

    /// The cursor position within the data.
    pub closed spec fn pos(&self) -> int {
        self.reader.pos()
    }

    /// The currently parsed page header.
    pub closed spec fn header(&self) -> HeaderV {
        self.current_header@
    }

    /// How many lacing values of the current page are already consumed.
    pub closed spec fn seg_idx(&self) -> int {
        self.segment_idx as int
    }

    pub closed spec fn wf(&self) -> bool {
        self.reader.wf() && self.segment_idx <= self.current_header.segment_table.len()
    }

    /// Bounds that hold of every well-formed reader; stated once so that
    /// callers in other modules, which cannot see the closed definitions, may
    /// rely on them.
    pub broadcast proof fn lemma_wf_bounds(self)
        requires
            self.wf(),
        ensures
            0 <= #[trigger] self.seg_idx() <= self.header().segments.len(),
            0 <= #[trigger] self.pos() <= self.bytes().len(),
    {
    }

    /// Open a reader by parsing the first page header at the cursor's
    /// position. A source with no header at all is refused.
    pub fn new(reader: ByteCursor) -> (r: Result<PacketReader, OggError>)
        requires
            reader.wf(),
        ensures
            match spec_parse_header(reader.bytes(), reader.pos()) {
                HeaderParse::Eof => r matches Err(e) && e == OggError::EmptyFile,
                HeaderParse::Fail(e) => r matches Err(e2) && e2 == e,
                HeaderParse::Parsed { header, end } => r matches Ok(pr) && pr.wf() && pr.bytes()
                    == reader.bytes() && pr.pos() == end && pr.header() == header && pr.seg_idx()
                    == 0,
            },
    {
        let mut reader = reader;
        let current_header = match Header::from_reader(&mut reader) {
            Err(e) => {
                return Err(e);
            },
            Ok(None) => {
                return Err(OggError::EmptyFile);
            },
            Ok(Some(header)) => header,
        };
        Ok(PacketReader { reader, current_header, segment_idx: 0 })
    }

    /// Gather and return the next logical packet, reading further page
    /// headers as fragments demand; `Ok(None)` is the clean end of the
    /// stream.
    #[verifier::loop_isolation(false)]
    pub fn next_packet(&mut self) -> (r: Result<Option<Vec<u8>>, OggError>)
        requires
            old(self).wf(),
        ensures
            final(self).wf(),
            final(self).bytes() == old(self).bytes(),
            match spec_next_packet(
                old(self).bytes(),
                old(self).pos(),
                old(self).header(),
                old(self).seg_idx(),
                Seq::<u8>::empty(),
            ) {
                PacketOutcome::Packet { packet, pos, header, seg_idx } => {
                    &&& r matches Ok(p)
                    &&& p matches Some(v)
                    &&& v@ == packet
                    &&& final(self).pos() == pos
                    &&& final(self).header() == header
                    &&& final(self).seg_idx() == seg_idx
                },
                PacketOutcome::End => r matches Ok(p) && p is None,
                PacketOutcome::Fail(e) => r matches Err(e2) && e2 == e,
            },
    {
        let ghost target = spec_next_packet(
            self.bytes(),
            self.pos(),
            self.header(),
            self.seg_idx(),
            Seq::<u8>::empty(),
        );
        let mut packet_data: Vec<u8> = Vec::new();
        loop
            invariant
                self.wf(),
                self.bytes() == old(self).bytes(),
                spec_next_packet(
                    self.bytes(),
                    self.pos(),
                    self.header(),
                    self.seg_idx(),
                    packet_data@,
                ) == target,
            decreases self.bytes().len() - self.pos(), self.header().segments.len()
                - self.seg_idx(),
        {
            if self.segment_idx < self.current_header.segment_table.len() {
                let len = self.current_header.segment_table[self.segment_idx];
                self.segment_idx = self.segment_idx + 1;
                if len != 0 {
                    let mut data = match self.reader.read_bytes(len as usize) {
                        None => {
                            return Err(OggError::TruncatedPacket);
                        },
                        Some(v) => v,
                    };
                    packet_data.append(&mut data);
                } else {
                    proof {
                        assert(packet_data@ + self.bytes().subrange(self.pos(), self.pos())
                            =~= packet_data@);
                    }
                }
                if len != 255 {
                    return Ok(Some(packet_data));
                }
            } else {
                match Header::from_reader(&mut self.reader) {
                    Err(e) => {
                        return Err(e);
                    },
                    Ok(None) => {
                        if packet_data.len() == 0 {
                            return Ok(None);
                        }
                        return Ok(Some(packet_data));
                    },
                    Ok(Some(header)) => {
                        self.segment_idx = 0;
                        self.current_header = header;
                    },
                }
            }
        }
    }

    /// Reposition to the page header at the given byte offset. A page that
    /// continues a packet from an earlier page is refused: without that
    /// page's partial data the packet boundary cannot be resynchronized.
    /// With `move_to_last_segment`, skip past the page's completed packets so
    /// that reading resumes at its final unfinished packet (or at the next
    /// page). Returns the page's granule position.
    #[verifier::loop_isolation(false)]
    pub fn seek(&mut self, header_pos: u64, move_to_last_segment: bool) -> (r: Result<
        u64,
        OggError,
    >)
        requires
            old(self).wf(),
        ensures
            final(self).wf(),
            final(self).bytes() == old(self).bytes(),
            match spec_seek(old(self).bytes(), header_pos, move_to_last_segment) {
                SeekOutcome::Sought { header, pos, seg_idx, granule } => {
                    &&& r matches Ok(g)
                    &&& g == granule
                    &&& final(self).header() == header
                    &&& final(self).pos() == pos
                    &&& final(self).seg_idx() == seg_idx
                },
                SeekOutcome::Fail(e) => r matches Err(e2) && e2 == e,
            },
    {
        self.reader.seek_to(header_pos);
        let header = match Header::from_reader(&mut self.reader) {
            Err(e) => {
                return Err(e);
            },
            Ok(None) => {
                return Err(OggError::NoDataLeft);
            },
            Ok(Some(h)) => h,
        };
        self.current_header = header;
        self.segment_idx = 0;
        if self.current_header.header_type.has_flag(HeaderTypeFlag::Continuation) {
            return Err(OggError::SeekToContinuation);
        }
        if move_to_last_segment {
            // Walk back over the trailing run of 255-valued lacing values;
            // everything before that run belongs to packets completed within
            // this page and is skipped in the underlying byte source.
            let ghost segs = self.current_header.segment_table@;
            let segs_len = self.current_header.segment_table.len();
            let mut k: usize = segs_len;
            proof {
                assert(segs.take(segs_len as int) =~= segs);
            }
            while k > 0 && self.current_header.segment_table[k - 1] == 255
                invariant
                    0 <= k <= segs_len,
                    skip_count(segs.take(k as int)) == skip_count(segs),
                decreases k,
            {
                proof {
                    assert(segs.take(k as int).drop_last() =~= segs.take(k - 1));
                }
                k = k - 1;
            }
            proof {
                if k > 0 {
                    assert(segs.take(k as int).last() == segs[k - 1]);
                }
                assert(k == skip_count(segs));
            }
            assert(segs_len <= 255);
            let to_skip = sum_segment_prefix(&self.current_header.segment_table, k);
            self.segment_idx = k;
            self.reader.skip(to_skip);
        }
        Ok(self.current_header.granule_position)
    }

    /// Linear fallback seek: scan every page header from the start of the
    /// data, skipping payloads, until one carries a positive granule
    /// position at or past the target; then seek to the page before it,
    /// with the same `move_to_last_segment` handling as `seek`. A scan that
    /// reaches the end of the stream seeks to offset zero, best effort.
    pub fn seek_granule_position(
        &mut self,
        target_granule_pos: u64,
        move_to_last_segment: bool,
    ) -> (r: Result<u64, OggError>)
        requires
            old(self).wf(),
        ensures
            final(self).wf(),
            final(self).bytes() == old(self).bytes(),
            match spec_scan(old(self).bytes(), 0, target_granule_pos, 0) {
                ScanOutcome::Fail(e) => r matches Err(e2) && e2 == e,
                ScanOutcome::Found(p) => match spec_seek(
                    old(self).bytes(),
                    p as u64,
                    move_to_last_segment,
                ) {
                    SeekOutcome::Sought { header, pos, seg_idx, granule } => {
                        &&& r matches Ok(g)
                        &&& g == granule
                        &&& final(self).header() == header
                        &&& final(self).pos() == pos
                        &&& final(self).seg_idx() == seg_idx
                    },
                    SeekOutcome::Fail(e) => r matches Err(e2) && e2 == e,
                },
            },
    {
        self.reader.seek_to(0);
        let ghost goal = spec_scan(self.bytes(), 0, target_granule_pos, 0);
        let mut last_header_pos: u64 = 0;
        loop
            invariant_except_break
                self.wf(),
                self.bytes() == old(self).bytes(),
                goal == spec_scan(old(self).bytes(), 0, target_granule_pos, 0),
                last_header_pos <= self.bytes().len(),
                spec_scan(self.bytes(), self.pos(), target_granule_pos, last_header_pos as int)
                    == goal,
            ensures
                self.wf(),
                self.bytes() == old(self).bytes(),
                goal == spec_scan(old(self).bytes(), 0, target_granule_pos, 0),
                goal == ScanOutcome::Found(last_header_pos as int),
            decreases self.bytes().len() - self.pos(),
        {
            let header_pos = self.reader.stream_position();
            match Header::from_reader(&mut self.reader) {
                Err(e) => {
                    return Err(e);
                },
                Ok(None) => {
                    last_header_pos = 0;
                    break;
                },
                Ok(Some(header)) => {
                    if header.granule_position >= target_granule_pos && header.granule_position
                        > 0 {
                        proof {
                            assert(goal == ScanOutcome::Found(last_header_pos as int));
                        }
                        break;
                    }
                    last_header_pos = header_pos;
                    let n = header.segment_table.len();
                    assert(n <= 255);
                    let to_skip = sum_segment_prefix(&header.segment_table, n);
                    proof {
                        assert(header.segment_table@.take(n as int) =~= header.segment_table@);
                    }
                    self.reader.skip(to_skip);
                },
            }
        }
        self.seek(last_header_pos, move_to_last_segment)
    }

    /// Give the underlying byte source back.
    pub fn into_inner(self) -> (r: ByteCursor)
        ensures
            r.bytes() == self.bytes(),
            r.pos() == self.pos(),
            self.wf() ==> r.wf(),
    {
        self.reader
    }
}

/// The byte-offset/header pairs of an exec scan result, as the mathematical
/// sequence `spec_all_headers` speaks of.
pub open spec fn headers_view(v: Seq<(u64, Header)>) -> Seq<(int, HeaderV)> {
    v.map(|i: int, p: (u64, Header)| (p.0 as int, p.1@))
}

/// Scan the whole container from the start, returning the byte offset and
/// parsed header of every page in file order; payload bytes are skipped, not
/// read.
pub fn all_headers(rdr: &mut ByteCursor) -> (r: Result<Vec<(u64, Header)>, OggError>)
    requires
        old(rdr).wf(),
    ensures
        final(rdr).wf(),
        final(rdr).bytes() == old(rdr).bytes(),
        match spec_all_headers(old(rdr).bytes(), 0) {
            HeadersOutcome::Fail(e) => r matches Err(e2) && e2 == e,
            HeadersOutcome::Headers(s) => r matches Ok(v) && headers_view(v@) == s,
        },
{
    rdr.seek_to(0);
    let ghost goal = spec_all_headers(rdr.bytes(), 0);
    let mut headers: Vec<(u64, Header)> = Vec::new();
    loop
        invariant_except_break
            rdr.wf(),
            rdr.bytes() == old(rdr).bytes(),
            goal == spec_all_headers(old(rdr).bytes(), 0),
            match spec_all_headers(rdr.bytes(), rdr.pos()) {
                HeadersOutcome::Fail(e) => goal == HeadersOutcome::Fail(e),
                HeadersOutcome::Headers(rest) => goal == HeadersOutcome::Headers(
                    headers_view(headers@) + rest,
                ),
            },
        ensures
            rdr.wf(),
            rdr.bytes() == old(rdr).bytes(),
            goal == spec_all_headers(old(rdr).bytes(), 0),
            goal == HeadersOutcome::Headers(headers_view(headers@)),
        decreases rdr.bytes().len() - rdr.pos(),
    {
        let header_pos = rdr.stream_position();
        match Header::from_reader(rdr) {
            Err(e) => {
                return Err(e);
            },
            Ok(None) => {
                proof {
                    assert(headers_view(headers@) + Seq::<(int, HeaderV)>::empty()
                        =~= headers_view(headers@));
                }
                break;
            },
            Ok(Some(header)) => {
                let ghost headers_before = headers@;
                let n = header.segment_table.len();
                assert(n <= 255);
                let to_skip = sum_segment_prefix(&header.segment_table, n);
                proof {
                    assert(header.segment_table@.take(n as int) =~= header.segment_table@);
                }
                let ghost hv = header@;
                headers.push((header_pos, header));
                rdr.skip(to_skip);
                proof {
                    assert(headers_view(headers@) =~= headers_view(headers_before) + seq![
                        (header_pos as int, hv),
                    ]);
                    match spec_all_headers(rdr.bytes(), rdr.pos()) {
                        HeadersOutcome::Fail(e) => {},
                        HeadersOutcome::Headers(rest) => {
                            assert((headers_view(headers_before) + seq![(header_pos as int, hv)])
                                + rest =~= headers_view(headers_before) + (seq![
                                (header_pos as int, hv),
                            ] + rest));
                        },
                    }
                }
            },
        }
    }
    Ok(headers)
}


proof fn lemma_next_packet_all_255(data: Seq<u8>, pos: int, h: HeaderV, i: int, acc: Seq<u8>)
    requires
        0 <= i <= h.segments.len(),
        forall|j: int| i <= j < h.segments.len() ==> (#[trigger] h.segments[j]) == 255,
        0 <= pos,
        pos + 255 * (h.segments.len() - i) <= data.len(),
    ensures
        spec_next_packet(data, pos, h, i, acc) == spec_next_packet(
            data,
            pos + 255 * (h.segments.len() - i),
            h,
            h.segments.len() as int,
            acc + data.subrange(pos, pos + 255 * (h.segments.len() - i)),
        ),
    decreases h.segments.len() - i,
{
    if i == h.segments.len() {
        assert(acc + data.subrange(pos, pos) =~= acc);
    } else {
        assert(h.segments[i] == 255);
        assert(255 + 255 * (h.segments.len() - i - 1) == 255 * (h.segments.len() - i));
        lemma_next_packet_all_255(
            data,
            pos + 255,
            h,
            i + 1,
            acc + data.subrange(pos, pos + 255),
        );
        assert(acc + data.subrange(pos, pos + 255) + data.subrange(
            pos + 255,
            pos + 255 * (h.segments.len() - i),
        ) =~= acc + data.subrange(pos, pos + 255 * (h.segments.len() - i)));
    }
}

/// A packet that spans exactly three pages reassembles to the exact
/// concatenation of its fragment bytes across the three pages, in order:
/// when every remaining lacing value of the current page is 255 (the packet
/// stays open past the page), the following page's lacing values are all
/// 255 as well, and the page after that opens with a lacing value below 255
/// (terminating the packet), then the gathered packet is the current page's
/// remaining payload, then the second page's whole payload, then the third
/// page's first fragment.
pub proof fn lemma_packet_spans_three_pages(
    data: Seq<u8>,
    pos: int,
    h1: HeaderV,
    i1: int,
    acc: Seq<u8>,
    h2: HeaderV,
    e2: int,
    h3: HeaderV,
    e3: int,
)
    requires
        0 <= i1 <= h1.segments.len(),
        forall|j: int| i1 <= j < h1.segments.len() ==> (#[trigger] h1.segments[j]) == 255,
        0 <= pos,
        pos + 255 * (h1.segments.len() - i1) <= data.len(),
        spec_parse_header(data, pos + 255 * (h1.segments.len() - i1)) == (HeaderParse::Parsed {
            header: h2,
            end: e2,
        }),
        forall|j: int| 0 <= j < h2.segments.len() ==> (#[trigger] h2.segments[j]) == 255,
        e2 + 255 * h2.segments.len() <= data.len(),
        spec_parse_header(data, e2 + 255 * h2.segments.len()) == (HeaderParse::Parsed {
            header: h3,
            end: e3,
        }),
        h3.segments.len() > 0,
        h3.segments[0] < 255,
        e3 + h3.segments[0] <= data.len(),
    ensures
        spec_next_packet(data, pos, h1, i1, acc) == (PacketOutcome::Packet {
            packet: acc + data.subrange(pos, pos + 255 * (h1.segments.len() - i1))
                + data.subrange(e2, e2 + 255 * h2.segments.len()) + data.subrange(
                e3,
                e3 + h3.segments[0],
            ),
            pos: e3 + h3.segments[0],
            header: h3,
            seg_idx: 1,
        }),
{
    let sum1 = 255 * (h1.segments.len() - i1);
    let p1 = pos + sum1;
    lemma_next_packet_all_255(data, pos, h1, i1, acc);
    let acc1 = acc + data.subrange(pos, p1);
    assert(spec_next_packet(data, p1, h1, h1.segments.len() as int, acc1) == spec_next_packet(
        data,
        e2,
        h2,
        0,
        acc1,
    ));
    let sum2 = 255 * h2.segments.len();
    assert(0 <= e2 && e2 + sum2 <= data.len());
    lemma_next_packet_all_255(data, e2, h2, 0, acc1);
    let acc2 = acc1 + data.subrange(e2, e2 + sum2);
    assert(spec_next_packet(data, e2 + sum2, h2, h2.segments.len() as int, acc2)
        == spec_next_packet(data, e3, h3, 0, acc2));
    let v = h3.segments[0] as int;
    assert(spec_next_packet(data, e3, h3, 0, acc2) == (PacketOutcome::Packet {
        packet: acc2 + data.subrange(e3, e3 + v),
        pos: e3 + v,
        header: h3,
        seg_idx: 1,
    }));
}

/// What a granule-position seek yields: the linear scan composed with the
/// byte-offset seek on the page it finds.
pub open spec fn spec_seek_granule(data: Seq<u8>, target: u64, move_to_last_segment: bool) -> SeekOutcome {
    match spec_scan(data, 0, target, 0) {
        ScanOutcome::Fail(e) => SeekOutcome::Fail(e),
        ScanOutcome::Found(p) => spec_seek(data, p as u64, move_to_last_segment),
    }
}

/// Seek idempotence: the reader state a granule-position seek establishes
/// is a function of the data and the target alone, independent of whatever
/// state the reader was in before. Seeking, reading packets (which only
/// advances the reader), and then seeking to the same target again
/// therefore re-establishes the identical state, and since `next_packet`'s
/// outcome is a function of that state and the data, the packets read after
/// the two seeks are bit-identical.
pub proof fn lemma_seek_idempotent(
    data: Seq<u8>,
    target: u64,
    move_to_last_segment: bool,
    first: SeekOutcome,
    second: SeekOutcome,
)
    requires
        first == spec_seek_granule(data, target, move_to_last_segment),
        second == spec_seek_granule(data, target, move_to_last_segment),
    ensures
        first == second,
        first matches SeekOutcome::Sought { header, pos, seg_idx, granule } ==> spec_next_packet(
            data,
            pos,
            header,
            seg_idx,
            Seq::<u8>::empty(),
        ) == spec_next_packet(
            data,
            second->Sought_pos,
            second->Sought_header,
            second->Sought_seg_idx,
            Seq::<u8>::empty(),
        ),
{
}

} // verus!
