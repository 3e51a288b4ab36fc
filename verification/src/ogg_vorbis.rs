use vstd::prelude::*;

use crate::bytes::{ByteCursor, copy_vec};
use crate::ogg::{
    HeaderParse, HeaderV, PacketOutcome, PacketReader, ScanOutcome, SeekOutcome, spec_next_packet,
    spec_parse_header, spec_scan, spec_seek, spec_seek_granule,
};
use crate::vorbis::{IdentParse, IdentificationHeader, spec_parse_ident};
use crate::{OggError, TableOfContent, is_sorted_by_granule, spec_last_entry_before};

verus! {

broadcast use crate::bytes::ByteCursor::lemma_wf_bounds, crate::ogg::PacketReader::lemma_wf_bounds;

/// What opening a stream yields: the parsed identification record, the raw
/// bytes that initialize the external codec (identification packet followed
/// by setup packet), and the reader state after the three header packets;
/// or the error that refused the stream.
pub ghost enum InitOutcome {
    Ready {
        ident: IdentificationHeader,
        codec_data: Seq<u8>,
        pos: int,
        header: HeaderV,
        seg_idx: int,
    },
    Fail(OggError),
}

/// Opening a stream at `pos` parses the first page header, then consumes
/// three whole packets: the identification packet (parsed), the comment
/// packet (only its existence is checked), and the setup packet (kept
/// opaque). Missing any of the three is fatal.
pub open spec fn spec_stream_init(data: Seq<u8>, pos: int) -> InitOutcome {
    match spec_parse_header(data, pos) {
        HeaderParse::Eof => InitOutcome::Fail(OggError::EmptyFile),
        HeaderParse::Fail(e) => InitOutcome::Fail(e),
        HeaderParse::Parsed { header, end } => match spec_next_packet(
            data,
            end,
            header,
            0,
            Seq::<u8>::empty(),
        ) {
            PacketOutcome::Fail(e) => InitOutcome::Fail(e),
            PacketOutcome::End => InitOutcome::Fail(OggError::MissingIdentHeader),
            PacketOutcome::Packet { packet: p1, pos: pos1, header: h1, seg_idx: i1 } => match
                spec_parse_ident(p1, 0) {
                IdentParse::Fail(e) => InitOutcome::Fail(e),
                IdentParse::Parsed(ident) => match spec_next_packet(
                    data,
                    pos1,
                    h1,
                    i1,
                    Seq::<u8>::empty(),
                ) {
                    PacketOutcome::Fail(e) => InitOutcome::Fail(e),
                    PacketOutcome::End => InitOutcome::Fail(OggError::MissingCommentHeader),
                    PacketOutcome::Packet { packet: p2, pos: pos2, header: h2, seg_idx: i2 } =>
                        match spec_next_packet(data, pos2, h2, i2, Seq::<u8>::empty()) {
                        PacketOutcome::Fail(e) => InitOutcome::Fail(e),
                        PacketOutcome::End => InitOutcome::Fail(OggError::MissingSetupHeader),
                        PacketOutcome::Packet {
                            packet: p3,
                            pos: pos3,
                            header: h3,
                            seg_idx: i3,
                        } => InitOutcome::Ready {
                            ident,
                            codec_data: p1 + p3,
                            pos: pos3,
                            header: h3,
                            seg_idx: i3,
                        },
                    },
                },
            },
        },
    }
}

/// A demultiplexed audio stream: the packet reader positioned after the
/// three header packets, the parsed identification record, and the raw
/// codec setup bytes. Decoding the packets it yields is the external
/// codec's job; this type owns everything the container contributes.
#[derive(Debug)]
pub struct VorbisStream {
    packet_reader: PacketReader,
    ident: IdentificationHeader,
    codec_data: Vec<u8>,
}

impl VorbisStream {
    /// The whole underlying byte sequence.
    pub closed spec fn bytes(&self) -> Seq<u8> {
        self.packet_reader.bytes()
    }

    pub closed spec fn pos(&self) -> int {
        self.packet_reader.pos()
    }

    pub closed spec fn header(&self) -> HeaderV {
        self.packet_reader.header()
    }

    pub closed spec fn seg_idx(&self) -> int {
        self.packet_reader.seg_idx()
    }

    pub closed spec fn ident(&self) -> IdentificationHeader {
        self.ident
    }

    pub closed spec fn codec_data_view(&self) -> Seq<u8> {
        self.codec_data@
    }

    pub closed spec fn wf(&self) -> bool {
        self.packet_reader.wf()
    }

    /// Open a stream over the given source: parse the first page header and
    /// consume the identification, comment and setup packets.
    pub fn new(reader: ByteCursor) -> (r: Result<VorbisStream, OggError>)
        requires
            reader.wf(),
        ensures
            match spec_stream_init(reader.bytes(), reader.pos()) {
                InitOutcome::Fail(e) => r matches Err(e2) && e2 == e,
                InitOutcome::Ready { ident, codec_data, pos, header, seg_idx } => {
                    &&& r matches Ok(vs)
                    &&& vs.wf()
                    &&& vs.bytes() == reader.bytes()
                    &&& vs.pos() == pos
                    &&& vs.header() == header
                    &&& vs.seg_idx() == seg_idx
                    &&& vs.ident() == ident
                    &&& vs.codec_data_view() == codec_data
                },
            },
    {
        let mut packet_reader = match PacketReader::new(reader) {
            Err(e) => {
                return Err(e);
            },
            Ok(pr) => pr,
        };
        let ident_packet = match packet_reader.next_packet() {
            Err(e) => {
                return Err(e);
            },
            Ok(None) => {
                return Err(OggError::MissingIdentHeader);
            },
            Ok(Some(p)) => p,
        };
        let mut ident_cursor = ByteCursor::new(copy_vec(&ident_packet));
        let ident = match IdentificationHeader::from_reader(&mut ident_cursor) {
            Err(e) => {
                return Err(e);
            },
            Ok(h) => h,
        };
        match packet_reader.next_packet() {
            Err(e) => {
                return Err(e);
            },
            Ok(None) => {
                return Err(OggError::MissingCommentHeader);
            },
            Ok(Some(_p)) => {},
        }
        let mut setup_packet = match packet_reader.next_packet() {
            Err(e) => {
                return Err(e);
            },
            Ok(None) => {
                return Err(OggError::MissingSetupHeader);
            },
            Ok(Some(p)) => p,
        };
        let mut codec_data = ident_packet;
        codec_data.append(&mut setup_packet);
        Ok(VorbisStream { packet_reader, ident, codec_data })
    }

    /// The channel count from the identification record.
    pub fn channels(&self) -> (r: u8)
        ensures
            r == self.ident().audio_channels,
    {
        self.ident.audio_channels
    }

    /// The sample rate from the identification record.
    pub fn sample_rate(&self) -> (r: u32)
        ensures
            r == self.ident().audio_sample_rate,
    {
        self.ident.audio_sample_rate
    }

    /// The raw bytes that initialize the external codec: the identification
    /// packet followed by the setup packet.
    pub fn codec_data(&self) -> (r: &Vec<u8>)
        ensures
            r@ == self.codec_data_view(),
    {
        &self.codec_data
    }

    /// The parsed identification record.
    pub fn ident_header(&self) -> (r: &IdentificationHeader)
        ensures
            *r == self.ident(),
    {
        &self.ident
    }

    /// Gather the next logical packet; `Ok(None)` is the clean end of the
    /// stream.
    pub fn next_packet(&mut self) -> (r: Result<Option<Vec<u8>>, OggError>)
        requires
            old(self).wf(),
        ensures
            final(self).wf(),
            final(self).bytes() == old(self).bytes(),
            final(self).ident() == old(self).ident(),
            final(self).codec_data_view() == old(self).codec_data_view(),
            match spec_next_packet(
                old(self).bytes(),
                old(self).pos(),
                old(self).header(),
                old(self).seg_idx(),
                Seq::<u8>::empty(),
            ) {
                PacketOutcome::Packet { packet, pos, header, seg_idx } => {
                    &&& r matches Ok(p)
                    &&& p matches Some(v)
                    &&& v@ == packet
                    &&& final(self).pos() == pos
                    &&& final(self).header() == header
                    &&& final(self).seg_idx() == seg_idx
                },
                PacketOutcome::End => r matches Ok(p) && p is None,
                PacketOutcome::Fail(e) => r matches Err(e2) && e2 == e,
            },
    {
        self.packet_reader.next_packet()
    }

    /// Seek to an absolute byte offset in the underlying data; see
    /// `PacketReader::seek`.
    pub fn seek(&mut self, header_bytes_pos: u64, move_to_last_segment: bool) -> (r: Result<
        u64,
        OggError,
    >)
        requires
            old(self).wf(),
        ensures
            final(self).wf(),
            final(self).bytes() == old(self).bytes(),
            final(self).ident() == old(self).ident(),
            final(self).codec_data_view() == old(self).codec_data_view(),
            match spec_seek(old(self).bytes(), header_bytes_pos, move_to_last_segment) {
                SeekOutcome::Sought { header, pos, seg_idx, granule } => {
                    &&& r matches Ok(g)
                    &&& g == granule
                    &&& final(self).header() == header
                    &&& final(self).pos() == pos
                    &&& final(self).seg_idx() == seg_idx
                },
                SeekOutcome::Fail(e) => r matches Err(e2) && e2 == e,
            },
    {
        self.packet_reader.seek(header_bytes_pos, move_to_last_segment)
    }

    /// Seek to a target granule position by the linear header scan; see
    /// `PacketReader::seek_granule_position`.
    pub fn seek_granule_position(
        &mut self,
        target_granule_pos: u64,
        move_to_last_segment: bool,
    ) -> (r: Result<u64, OggError>)
        requires
            old(self).wf(),
        ensures
            final(self).wf(),
            final(self).bytes() == old(self).bytes(),
            final(self).ident() == old(self).ident(),
            final(self).codec_data_view() == old(self).codec_data_view(),
            match spec_scan(old(self).bytes(), 0, target_granule_pos, 0) {
                ScanOutcome::Fail(e) => r matches Err(e2) && e2 == e,
                ScanOutcome::Found(p) => match spec_seek(
                    old(self).bytes(),
                    p as u64,
                    move_to_last_segment,
                ) {
                    SeekOutcome::Sought { header, pos, seg_idx, granule } => {
                        &&& r matches Ok(g)
                        &&& g == granule
                        &&& final(self).header() == header
                        &&& final(self).pos() == pos
                        &&& final(self).seg_idx() == seg_idx
                    },
                    SeekOutcome::Fail(e) => r matches Err(e2) && e2 == e,
                },
            },
    {
        self.packet_reader.seek_granule_position(target_granule_pos, move_to_last_segment)
    }
}

/// The hard cap on per-channel pre-allocation, bounding memory on absurd
/// or malformed requests.
pub const SAMPLE_CAP: usize = 200000000;

/// Gathers decoded samples channel by channel, carried as the 32-bit bit
/// patterns the codec produced: the first `to_skip` samples fed across the
/// whole stream are dropped, and accumulation stops growing at exactly
/// `target_len` kept samples per channel. The ghost `seen` sequence records
/// every sample ever fed, so the well-formedness invariant pins the held
/// samples to an exact slice of the decoded stream.
pub struct SampleAccumulator {
    channels: Vec<Vec<u32>>,
    to_skip: usize,
    target_len: usize,
    seen: Ghost<Seq<Seq<u32>>>,
    seen_len: Ghost<int>,
    init_skip: Ghost<int>,
}

impl SampleAccumulator {
    pub closed spec fn n_channels(&self) -> int {
        self.channels@.len() as int
    }

    /// Every sample fed so far, per channel, in order.
    pub closed spec fn seen(&self) -> Seq<Seq<u32>> {
        self.seen@
    }

    /// How many samples have been fed so far (per channel).
    pub closed spec fn seen_total(&self) -> int {
        self.seen_len@
    }

    /// The number of leading samples of the stream that are discarded.
    pub closed spec fn requested_skip(&self) -> int {
        self.init_skip@
    }

    /// The number of samples per channel to keep.
    pub closed spec fn target(&self) -> int {
        self.target_len as int
    }

    /// Where the kept slice starts: the requested skip, or everything seen
    /// so far while still short of it. Open, so that callers can compute it
    /// from the fed counts alone.
    pub open spec fn skip_lo(&self) -> int {
        if self.requested_skip() <= self.seen_total() {
            self.requested_skip()
        } else {
            self.seen_total()
        }
    }

    /// How many samples per channel are held: what has been seen past the
    /// skip point, capped at the target length. Open, so that callers can
    /// compute it from the fed counts alone — also for a stream that ended
    /// before the skip or the target was reached.
    pub open spec fn stored_len(&self) -> int {
        if self.seen_total() - self.skip_lo() <= self.target() {
            self.seen_total() - self.skip_lo()
        } else {
            self.target()
        }
    }

    pub closed spec fn wf(&self) -> bool {
        &&& self.channels@.len() >= 1
        &&& self.seen@.len() == self.channels@.len()
        &&& 0 <= self.init_skip@
        &&& 0 <= self.seen_len@
        &&& forall|c: int| 0 <= c < self.seen@.len() ==> (#[trigger] self.seen@[c]).len()
            == self.seen_len@
        &&& self.to_skip == self.init_skip@ - self.skip_lo()
        &&& forall|c: int|
            0 <= c < self.channels@.len() ==> (#[trigger] self.channels@[c])@ == self.seen@[
                c
            ].subrange(self.skip_lo(), self.skip_lo() + self.stored_len())
    }

    /// A fresh accumulator that will drop the first `to_skip` samples and
    /// keep the next `target_len`; per-channel pre-allocation is capped.
    pub fn new(n_channels: usize, to_skip: usize, target_len: usize) -> (r: SampleAccumulator)
        requires
            n_channels >= 1,
        ensures
            r.wf(),
            r.n_channels() == n_channels,
            r.requested_skip() == to_skip,
            r.target() == target_len,
            r.seen_total() == 0,
            forall|c: int| 0 <= c < n_channels ==> r.seen()[c] == Seq::<u32>::empty(),
    {
        let cap = if target_len < SAMPLE_CAP {
            target_len
        } else {
            SAMPLE_CAP
        };
        let mut channels: Vec<Vec<u32>> = Vec::new();
        let mut i: usize = 0;
        while i < n_channels
            invariant
                0 <= i <= n_channels,
                channels@.len() == i,
                forall|c: int| 0 <= c < i ==> (#[trigger] channels@[c])@ == Seq::<u32>::empty(),
            decreases n_channels - i,
        {
            channels.push(Vec::with_capacity(cap));
            i = i + 1;
        }
        let r = SampleAccumulator {
            channels,
            to_skip,
            target_len,
            seen: Ghost(Seq::new(n_channels as nat, |c: int| Seq::<u32>::empty())),
            seen_len: Ghost(0),
            init_skip: Ghost(to_skip as int),
        };
        proof {
            assert forall|c: int| 0 <= c < r.channels@.len() implies (
            #[trigger] r.channels@[c])@ == r.seen@[c].subrange(
                r.skip_lo(),
                r.skip_lo() + r.stored_len(),
            ) by {
                assert(r.seen@[c].subrange(0, 0) =~= Seq::<u32>::empty());
            }
        }
        r
    }

    /// Whether the target length has been reached, so that no further
    /// packet need be decoded.
    pub fn is_done(&self) -> (r: bool)
        requires
            self.wf(),
        ensures
            r == (self.stored_len() == self.target()),
    {
        self.channels[0].len() >= self.target_len
    }

    /// Feed the per-channel samples one decoded packet produced. Leading
    /// samples still owed to the skip are dropped; what remains is appended,
    /// and every channel is cut back to the target length once it is
    /// reached.
    #[verifier::loop_isolation(false)]
    pub fn push_packet(&mut self, planes: &Vec<Vec<u32>>)
        requires
            old(self).wf(),
            planes@.len() == old(self).n_channels(),
            forall|c: int|
                0 <= c < planes@.len() ==> (#[trigger] planes@[c])@.len() == planes@[0]@.len(),
        ensures
            final(self).wf(),
            final(self).n_channels() == old(self).n_channels(),
            final(self).requested_skip() == old(self).requested_skip(),
            final(self).target() == old(self).target(),
            final(self).seen_total() == old(self).seen_total() + planes@[0]@.len(),
            forall|c: int|
                0 <= c < planes@.len() ==> final(self).seen()[c] == old(self).seen()[c]
                    + planes@[c]@,
    {
        let ghost seen0 = self.seen@;
        let ghost slen0 = self.seen_len@;
        let ghost skip0 = self.init_skip@;
        let data_len = planes[0].len();
        proof {
            self.seen@ = Seq::new(seen0.len() as nat, |c: int| seen0[c] + planes@[c]@);
            self.seen_len@ = slen0 + data_len;
        }
        if data_len <= self.to_skip {
            self.to_skip = self.to_skip - data_len;
            proof {
                assert forall|c: int| 0 <= c < self.channels@.len() implies (
                #[trigger] self.channels@[c])@ == self.seen@[c].subrange(
                    self.skip_lo(),
                    self.skip_lo() + self.stored_len(),
                ) by {
                    assert(seen0[c].subrange(slen0, slen0) =~= Seq::<u32>::empty());
                    assert(self.seen@[c].subrange(self.skip_lo(), self.skip_lo())
                        =~= Seq::<u32>::empty());
                }
            }
            return ;
        }
        let start = self.to_skip;
        self.to_skip = 0;
        let ghost ch0 = self.channels@;
        let n = self.channels.len();
        let mut c: usize = 0;
        while c < n
            invariant
                0 <= c <= n,
                self.channels@.len() == n,
                forall|k: int|
                    0 <= k < c ==> (#[trigger] self.channels@[k])@ == ch0[k]@
                        + planes@[k]@.skip(start as int),
                forall|k: int| c <= k < n ==> (#[trigger] self.channels@[k])@ == ch0[k]@,
                self.to_skip == 0,
                self.target_len == old(self).target_len,
                self.seen@ == Seq::new(seen0.len() as nat, |k: int| seen0[k] + planes@[k]@),
                self.seen_len@ == slen0 + data_len,
                self.init_skip@ == skip0,
            decreases n - c,
        {
            let mut j: usize = start;
            let plen = planes[c].len();
            while j < plen
                invariant
                    start <= j <= plen,
                    0 <= c < n,
                    self.channels@.len() == n,
                    plen == planes@[c as int]@.len(),
                    (#[trigger] self.channels@[c as int])@ == ch0[c as int]@ + planes@[
                        c as int
                    ]@.subrange(start as int, j as int),
                    forall|k: int|
                        0 <= k < c ==> (#[trigger] self.channels@[k])@ == ch0[k]@
                            + planes@[k]@.skip(start as int),
                    forall|k: int| c < k < n ==> (#[trigger] self.channels@[k])@ == ch0[k]@,
                    self.to_skip == 0,
                    self.target_len == old(self).target_len,
                    self.seen@ == Seq::new(seen0.len() as nat, |k: int| seen0[k] + planes@[k]@),
                    self.seen_len@ == slen0 + data_len,
                    self.init_skip@ == skip0,
                decreases plen - j,
            {
                let x = planes[c][j];
                self.channels[c].push(x);
                proof {
                    assert(ch0[c as int]@ + planes@[c as int]@.subrange(start as int, j + 1)
                        =~= (ch0[c as int]@ + planes@[c as int]@.subrange(
                        start as int,
                        j as int,
                    )).push(x));
                }
                j = j + 1;
            }
            proof {
                assert(planes@[c as int]@.subrange(start as int, plen as int) =~= planes@[
                    c as int
                ]@.skip(start as int));
            }
            c = c + 1;
        }
        let ghost t = old(self).target();
        let ghost slen1 = slen0 + data_len;
        let ghost was_full = slen0 > skip0 && slen0 - skip0 > t;
        proof {
            if was_full {
                // The target had already been reached: the kept slice stays
                // in front and the whole new packet lands after it, to be
                // cut away again below.
                assert(old(self).stored_len() == t);
                assert forall|k: int| 0 <= k < n implies (#[trigger] self.channels@[k])@
                    == self.seen@[k].subrange(skip0, skip0 + t) + planes@[k]@ by {
                    assert(self.seen@[k] == seen0[k] + planes@[k]@);
                    assert(ch0[k]@ == seen0[k].subrange(skip0, skip0 + t));
                    assert(seen0[k].subrange(skip0, skip0 + t) =~= self.seen@[k].subrange(
                        skip0,
                        skip0 + t,
                    ));
                    assert(planes@[k]@.skip(0) =~= planes@[k]@);
                }
            } else {
                assert forall|k: int| 0 <= k < n implies (#[trigger] self.channels@[k])@
                    == self.seen@[k].subrange(skip0, slen1) by {
                    assert(self.seen@[k] == seen0[k] + planes@[k]@);
                    assert(ch0[k]@ == seen0[k].subrange(
                        old(self).skip_lo(),
                        old(self).skip_lo() + old(self).stored_len(),
                    ));
                    if slen0 <= skip0 {
                        assert(ch0[k]@ =~= Seq::<u32>::empty());
                        assert(start == skip0 - slen0);
                        assert(self.channels@[k]@ =~= self.seen@[k].subrange(skip0, slen1));
                    } else {
                        assert(start == 0);
                        assert(old(self).stored_len() == slen0 - skip0);
                        assert(self.channels@[k]@ =~= self.seen@[k].subrange(skip0, slen1));
                    }
                }
            }
            assert forall|k: int| 0 <= k < n implies (#[trigger] self.channels@[k])@.len()
                == self.channels@[0]@.len() by {}
        }
        if self.channels[0].len() >= self.target_len {
            let ghost ch1 = self.channels@;
            let mut c2: usize = 0;
            while c2 < n
                invariant
                    0 <= c2 <= n,
                    self.channels@.len() == n,
                    ch1[0]@.len() >= self.target_len,
                    forall|k: int|
                        0 <= k < c2 ==> (#[trigger] self.channels@[k])@ == ch1[k]@.subrange(
                            0,
                            self.target_len as int,
                        ),
                    forall|k: int| c2 <= k < n ==> (#[trigger] self.channels@[k])@ == ch1[k]@,
                    forall|k: int| 0 <= k < n ==> (#[trigger] ch1[k])@.len() >= self.target_len,
                    self.to_skip == 0,
                    self.target_len == old(self).target_len,
                    self.seen@ == Seq::new(seen0.len() as nat, |k: int| seen0[k] + planes@[k]@),
                    self.seen_len@ == slen0 + data_len,
                    self.init_skip@ == skip0,
            decreases n - c2,
            {
                self.channels[c2].truncate(self.target_len);
                c2 = c2 + 1;
            }
            proof {
                assert(self.skip_lo() == skip0);
                assert(self.stored_len() == t);
                assert forall|k: int| 0 <= k < n implies (#[trigger] self.channels@[k])@
                    == self.seen@[k].subrange(
                    self.skip_lo(),
                    self.skip_lo() + self.stored_len(),
                ) by {
                    if was_full {
                        assert(ch1[k]@ == self.seen@[k].subrange(skip0, skip0 + t) + planes@[k]@);
                        assert(self.channels@[k]@ =~= self.seen@[k].subrange(skip0, skip0 + t));
                    } else {
                        assert(ch1[k]@ == self.seen@[k].subrange(skip0, slen1));
                        assert(self.channels@[k]@ =~= self.seen@[k].subrange(skip0, skip0 + t));
                    }
                }
            }
        } else {
            proof {
                assert(!was_full);
                assert(self.channels@[0]@.len() == slen1 - skip0);
                assert(self.skip_lo() == skip0);
                assert(self.stored_len() == slen1 - skip0);
            }
        }
    }

    /// Hand the gathered channels out: each holds exactly the slice of the
    /// decoded stream from the skip point, at most the target length long.
    /// Also for a stream that ended early, every channel has the same
    /// length, `stored_len()`: what was seen past the skip, capped at the
    /// target.
    pub fn into_channels(self) -> (r: Vec<Vec<u32>>)
        requires
            self.wf(),
        ensures
            r@.len() == self.n_channels(),
            forall|c: int|
                0 <= c < r@.len() ==> (#[trigger] r@[c])@ == self.seen()[c].subrange(
                    self.skip_lo(),
                    self.skip_lo() + self.stored_len(),
                ),
            forall|c: int| 0 <= c < r@.len() ==> (#[trigger] r@[c])@.len() == self.stored_len(),
    {
        proof {
            assert forall|c: int| 0 <= c < self.channels@.len() implies (
            #[trigger] self.channels@[c])@.len() == self.stored_len() by {
                assert(self.seen@[c].len() == self.seen_total());
                assert(0 <= self.skip_lo() <= self.skip_lo() + self.stored_len()
                    <= self.seen_total());
            }
        }
        self.channels
    }
}

/// Once at least `to_skip + target` samples have been fed, every channel
/// holds exactly the samples numbered `to_skip` up to `to_skip + target` of
/// the decoded stream: never one of the skipped samples, and never more nor
/// fewer than the target length.
pub proof fn lemma_exact_slice(acc: SampleAccumulator)
    requires
        acc.wf(),
        acc.seen_total() >= acc.requested_skip() + acc.target(),
    ensures
        acc.skip_lo() == acc.requested_skip(),
        acc.stored_len() == acc.target(),
        forall|c: int|
            0 <= c < acc.n_channels() ==> acc.seen()[c].subrange(
                acc.skip_lo(),
                acc.skip_lo() + acc.stored_len(),
            ).len() == acc.target(),
{
}

/// Position the stream for decoding from the granule position `target`:
/// with a seek index present, look up the last usable entry before the
/// target and seek to its byte offset; without one, fall back to the linear
/// header scan. Both paths skip to the sought page's final unfinished
/// packet. Returns how many leading samples the caller must drop once
/// decoding resumes, so that output starts exactly at `target`: the sought
/// page's granule position `g` satisfies `g + result == target` whenever
/// `g <= target`.
pub fn seek_sample_start(stream: &mut VorbisStream, toc: Option<&TableOfContent>, target: u64) -> (r:
    Result<u64, OggError>)
    requires
        old(stream).wf(),
    ensures
        final(stream).wf(),
        final(stream).bytes() == old(stream).bytes(),
        final(stream).ident() == old(stream).ident(),
        final(stream).codec_data_view() == old(stream).codec_data_view(),
        r matches Ok(k) ==> k <= target,
        toc is None ==> match spec_seek_granule(old(stream).bytes(), target, true) {
            SeekOutcome::Sought { header, pos, seg_idx, granule } => {
                &&& r matches Ok(k)
                &&& k == if granule <= target {
                    target - granule
                } else {
                    0
                }
                &&& final(stream).header() == header
                &&& final(stream).pos() == pos
                &&& final(stream).seg_idx() == seg_idx
            },
            SeekOutcome::Fail(e) => r matches Err(e2) && e2 == e,
        },
        toc matches Some(t) ==> is_sorted_by_granule(t.entries@) ==> match spec_last_entry_before(
            t.entries@,
            target,
        ) {
            None => r matches Err(e) && e == OggError::InsufficientData,
            Some(entry) => match spec_seek(old(stream).bytes(), entry.file_pos, true) {
                SeekOutcome::Sought { header, pos, seg_idx, granule } => {
                    &&& r matches Ok(k)
                    &&& k == if granule <= target {
                        target - granule
                    } else {
                        0
                    }
                    &&& final(stream).header() == header
                    &&& final(stream).pos() == pos
                    &&& final(stream).seg_idx() == seg_idx
                },
                SeekOutcome::Fail(e) => r matches Err(e2) && e2 == e,
            },
        },
{
    let granule = match toc {
        None => {
            match stream.seek_granule_position(target, true) {
                Err(e) => {
                    return Err(e);
                },
                Ok(g) => g,
            }
        },
        Some(t) => {
            let entry = match t.last_entry_before(target) {
                None => {
                    return Err(OggError::InsufficientData);
                },
                Some(e) => e,
            };
            let file_pos = entry.file_pos;
            match stream.seek(file_pos, true) {
                Err(e) => {
                    return Err(e);
                },
                Ok(g) => g,
            }
        },
    };
    if granule >= target {
        Ok(0)
    } else {
        Ok(target - granule)
    }
}

} // verus!
