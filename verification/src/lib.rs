use vstd::prelude::*;

pub mod bytes;
pub mod ogg;
pub mod ogg_vorbis;
pub mod vorbis;

verus! {

broadcast use crate::bytes::ByteCursor::lemma_wf_bounds;

/// Everything that can go wrong while reading a container, its seek index, or
/// the codec setup record. All of these are fatal for the operation in
/// progress; a clean end of the data is reported as `None`, never as an error.
#[derive(Debug, Clone, Copy, PartialEq, Eq, Structural)]
pub enum OggError {
    /// A page began with something other than the fixed capture pattern.
    BadCapturePattern,
    /// A page header's version byte was not zero.
    BadVersion,
    /// The data ended in the middle of a page header or its segment table.
    TruncatedHeader,
    /// The data ended in the middle of a packet fragment.
    TruncatedPacket,
    /// A seek landed at or past the end of the data.
    NoDataLeft,
    /// A seek landed on a page that continues a packet from an earlier page.
    SeekToContinuation,
    /// The source held no page header at all.
    EmptyFile,
    /// The stream ended before its identification packet.
    MissingIdentHeader,
    /// The stream ended before its comment packet.
    MissingCommentHeader,
    /// The stream ended before its setup packet.
    MissingSetupHeader,
    /// The identification packet's type byte was not 1.
    BadIdentPacketType,
    /// The identification packet's magic string was wrong.
    BadIdentMagic,
    /// The identification packet's format version was not zero.
    BadIdentVersion,
    /// The identification packet ended before its last field.
    TruncatedIdent,
    /// The seek index held no usable entry for the requested position.
    InsufficientData,
}

/// One seek-index record: the byte offset of a page header in the container
/// and that page's granule position (sample count reached by the end of the
/// page's last completed packet).
#[derive(Debug, Clone, Copy, PartialEq, Eq, Structural)]
pub struct Entry {
    pub file_pos: u64,
    pub granule_position: u64,
}

/// The sidecar index records parsed from `data`: back-to-back pairs of
/// 64-bit little-endian byte offset and granule position. Parsing stops at
/// the first record that is not complete, so a truncated file still yields
/// its whole prefix; there is no header, footer or count field.
pub open spec fn spec_toc_records(data: Seq<u8>) -> Seq<Entry>
    decreases data.len(),
{
    if data.len() < 16 {
        Seq::empty()
    } else {
        seq![
            Entry {
                file_pos: crate::bytes::u64_le(data.subrange(0, 8)),
                granule_position: crate::bytes::u64_le(data.subrange(8, 16)),
            },
        ] + spec_toc_records(data.skip(16))
    }
}

/// The serialized form of an index: sixteen bytes per entry, in order.
pub open spec fn spec_toc_bytes(s: Seq<Entry>) -> Seq<u8>
    decreases s.len(),
{
    if s.len() == 0 {
        Seq::empty()
    } else {
        crate::bytes::u64_le_bytes(s[0].file_pos) + crate::bytes::u64_le_bytes(
            s[0].granule_position,
        ) + spec_toc_bytes(s.skip(1))
    }
}

proof fn lemma_toc_bytes_push(s: Seq<Entry>, e: Entry)
    ensures
        spec_toc_bytes(s.push(e)) == spec_toc_bytes(s) + crate::bytes::u64_le_bytes(e.file_pos)
            + crate::bytes::u64_le_bytes(e.granule_position),
    decreases s.len(),
{
    if s.len() == 0 {
        assert(s.push(e).len() == 1);
        assert(s.push(e)[0] == e);
        assert(s.push(e).skip(1) =~= Seq::<Entry>::empty());
        assert(spec_toc_bytes(s.push(e)) == crate::bytes::u64_le_bytes(e.file_pos)
            + crate::bytes::u64_le_bytes(e.granule_position) + spec_toc_bytes(s.push(e).skip(1)));
        assert(spec_toc_bytes(s.push(e).skip(1)) == Seq::<u8>::empty());
        assert(spec_toc_bytes(s.push(e)) =~= spec_toc_bytes(s) + crate::bytes::u64_le_bytes(
            e.file_pos,
        ) + crate::bytes::u64_le_bytes(e.granule_position));
    } else {
        assert(s.push(e).skip(1) =~= s.skip(1).push(e));
        lemma_toc_bytes_push(s.skip(1), e);
        assert(spec_toc_bytes(s.push(e)) =~= spec_toc_bytes(s) + crate::bytes::u64_le_bytes(
            e.file_pos,
        ) + crate::bytes::u64_le_bytes(e.granule_position));
    }
}

/// Serializing an index and parsing the bytes back yields the identical
/// ordered sequence of entries.
pub proof fn lemma_toc_round_trip(s: Seq<Entry>)
    ensures
        spec_toc_records(spec_toc_bytes(s)) == s,
    decreases s.len(),
{
    if s.len() == 0 {
        assert(spec_toc_records(spec_toc_bytes(s)) =~= s);
    } else {
        let b = spec_toc_bytes(s);
        crate::bytes::lemma_u64_le_round_trip(s[0].file_pos);
        crate::bytes::lemma_u64_le_round_trip(s[0].granule_position);
        assert(b.subrange(0, 8) =~= crate::bytes::u64_le_bytes(s[0].file_pos));
        assert(b.subrange(8, 16) =~= crate::bytes::u64_le_bytes(s[0].granule_position));
        assert(b.skip(16) =~= spec_toc_bytes(s.skip(1)));
        lemma_toc_round_trip(s.skip(1));
        assert(spec_toc_records(b) =~= s);
    }
}

/// Entries ordered by non-decreasing granule position, as an index built
/// from a well-formed container is.
pub open spec fn is_sorted_by_granule(s: Seq<Entry>) -> bool {
    forall|i: int, j: int|
        0 <= i <= j < s.len() ==> s[i].granule_position <= s[j].granule_position
}

/// The number of entries whose granule position lies strictly below `t`,
/// for a sorted sequence: the index of the first entry at or past `t`.
pub open spec fn spec_partition_point(s: Seq<Entry>, t: u64) -> int
    decreases s.len(),
{
    if s.len() == 0 {
        0
    } else if s.last().granule_position < t {
        s.len() as int
    } else {
        spec_partition_point(s.drop_last(), t)
    }
}

pub proof fn lemma_partition_point_bounds(s: Seq<Entry>, t: u64)
    ensures
        0 <= spec_partition_point(s, t) <= s.len(),
    decreases s.len(),
{
    if s.len() > 0 && !(s.last().granule_position < t) {
        lemma_partition_point_bounds(s.drop_last(), t);
    }
}

pub proof fn lemma_partition_point_sorted(s: Seq<Entry>, t: u64)
    requires
        is_sorted_by_granule(s),
    ensures
        0 <= spec_partition_point(s, t) <= s.len(),
        forall|j: int|
            0 <= j < spec_partition_point(s, t) ==> (#[trigger] s[j]).granule_position < t,
        forall|j: int|
            spec_partition_point(s, t) <= j < s.len() ==> (#[trigger] s[j]).granule_position >= t,
    decreases s.len(),
{
    if s.len() > 0 {
        if s.last().granule_position < t {
            assert(forall|j: int|
                0 <= j < s.len() ==> (#[trigger] s[j]).granule_position
                    <= s[s.len() - 1].granule_position);
        } else {
            assert(is_sorted_by_granule(s.drop_last()));
            lemma_partition_point_sorted(s.drop_last(), t);
            assert(forall|j: int|
                0 <= j < s.len() - 1 ==> (#[trigger] s[j]) == s.drop_last()[j]);
        }
    }
}

/// The first index at or after `i` whose entry has a non-zero granule
/// position (or the length, when the rest are all zero).
pub open spec fn zero_run_end(s: Seq<Entry>, i: int) -> int
    decreases s.len() - i when 0 <= i <= s.len()
{
    if i < s.len() && s[i].granule_position == 0 {
        zero_run_end(s, i + 1)
    } else {
        i
    }
}

pub proof fn lemma_zero_run_end(s: Seq<Entry>, i: int)
    requires
        0 <= i <= s.len(),
    ensures
        i <= zero_run_end(s, i) <= s.len(),
        zero_run_end(s, i) < s.len() ==> s[zero_run_end(s, i)].granule_position != 0,
    decreases s.len() - i,
{
    if i < s.len() && s[i].granule_position == 0 {
        lemma_zero_run_end(s, i + 1);
    }
}

/// What `last_entry_before` returns on a sorted index: when no entry's
/// granule position lies strictly below the target there is no usable
/// resume point and the answer is the no-entry signal; otherwise step one
/// entry back from the first entry at or past the target, then move forward
/// past any run of zero-granule header pages.
pub open spec fn spec_last_entry_before(s: Seq<Entry>, t: u64) -> Option<Entry> {
    let pp = spec_partition_point(s, t);
    if pp == 0 {
        None
    } else {
        let i = zero_run_end(s, pp - 1);
        if i < s.len() {
            Some(s[i])
        } else {
            None
        }
    }
}

/// The seek index: one entry per container page, in file order, built by a
/// full scan of the page headers and either kept in memory or serialized to
/// a sidecar file.
#[derive(Debug, Clone)]
pub struct TableOfContent {
    pub entries: Vec<Entry>,
}

impl TableOfContent {
    /// Build a table of content from the page headers of a container,
    /// scanning from the start of the data.
    pub fn from_ogg_reader(rdr: &mut bytes::ByteCursor) -> (r: Result<TableOfContent, OggError>)
        requires
            old(rdr).wf(),
        ensures
            final(rdr).wf(),
            final(rdr).bytes() == old(rdr).bytes(),
            match ogg::spec_all_headers(old(rdr).bytes(), 0) {
                ogg::HeadersOutcome::Fail(e) => r matches Err(e2) && e2 == e,
                ogg::HeadersOutcome::Headers(s) => {
                    &&& r matches Ok(t)
                    &&& t.entries@.len() == s.len()
                    &&& forall|i: int|
                        0 <= i < s.len() ==> (#[trigger] t.entries@[i]).file_pos as int == s[i].0
                            && t.entries@[i].granule_position == s[i].1.granule_position
                },
            },
    {
        let all = match ogg::all_headers(rdr) {
            Err(e) => {
                return Err(e);
            },
            Ok(v) => v,
        };
        let mut entries: Vec<Entry> = Vec::new();
        let mut i: usize = 0;
        let n = all.len();
        while i < n
            invariant
                0 <= i <= n,
                n == all@.len(),
                entries@.len() == i,
                forall|j: int|
                    0 <= j < i ==> (#[trigger] entries@[j]).file_pos == all@[j].0
                        && entries@[j].granule_position == all@[j].1@.granule_position,
            decreases n - i,
        {
            let pair = &all[i];
            entries.push(
                Entry { file_pos: pair.0, granule_position: pair.1.granule_position },
            );
            i = i + 1;
        }
        Ok(TableOfContent { entries })
    }

    /// Read a table of content from its serialized form, taking every
    /// complete sixteen-byte record from the cursor's position to the end;
    /// an incomplete trailing record ends the index, it is not an error.
    pub fn from_reader(rdr: &mut bytes::ByteCursor) -> (r: Result<TableOfContent, OggError>)
        requires
            old(rdr).wf(),
        ensures
            final(rdr).wf(),
            final(rdr).bytes() == old(rdr).bytes(),
            r matches Ok(t) && t.entries@ == spec_toc_records(
                old(rdr).bytes().skip(old(rdr).pos()),
            ),
            final(rdr).pos() == old(rdr).pos() + 16 * spec_toc_records(
                old(rdr).bytes().skip(old(rdr).pos()),
            ).len(),
    {
        let ghost full = spec_toc_records(old(rdr).bytes().skip(old(rdr).pos()));
        let mut entries: Vec<Entry> = Vec::new();
        loop
            invariant_except_break
                rdr.wf(),
                rdr.bytes() == old(rdr).bytes(),
                old(rdr).pos() <= rdr.pos(),
                full == spec_toc_records(old(rdr).bytes().skip(old(rdr).pos())),
                rdr.pos() == old(rdr).pos() + 16 * entries@.len(),
                full == entries@ + spec_toc_records(rdr.bytes().skip(rdr.pos())),
            ensures
                rdr.wf(),
                rdr.bytes() == old(rdr).bytes(),
                rdr.pos() == old(rdr).pos() + 16 * entries@.len(),
                full == spec_toc_records(old(rdr).bytes().skip(old(rdr).pos())),
                full == entries@,
            decreases rdr.bytes().len() - rdr.pos(),
        {
            let rem = rdr.remaining();
            if rem < 16 {
                proof {
                    assert(spec_toc_records(rdr.bytes().skip(rdr.pos())) =~= Seq::<
                        Entry,
                    >::empty());
                    assert(entries@ + Seq::<Entry>::empty() =~= entries@);
                }
                break;
            }
            let ghost tail = rdr.bytes().skip(rdr.pos());
            let file_pos = match rdr.read_u64_le() {
                None => {
                    return Err(OggError::TruncatedHeader);
                },
                Some(v) => v,
            };
            let granule_position = match rdr.read_u64_le() {
                None => {
                    return Err(OggError::TruncatedHeader);
                },
                Some(v) => v,
            };
            let ghost entries_before = entries@;
            entries.push(Entry { file_pos, granule_position });
            proof {
                assert(tail.subrange(0, 8) =~= old(rdr).bytes().subrange(
                    rdr.pos() - 16,
                    rdr.pos() - 8,
                ));
                assert(tail.subrange(8, 16) =~= old(rdr).bytes().subrange(
                    rdr.pos() - 8,
                    rdr.pos(),
                ));
                assert(tail.skip(16) =~= rdr.bytes().skip(rdr.pos()));
                assert(spec_toc_records(tail) == seq![
                    Entry { file_pos, granule_position },
                ] + spec_toc_records(rdr.bytes().skip(rdr.pos())));
                assert(entries_before + spec_toc_records(tail) =~= entries@
                    + spec_toc_records(rdr.bytes().skip(rdr.pos())));
            }
        }
        Ok(TableOfContent { entries })
    }

    /// Serialize the index: sixteen bytes per entry appended to `w`, in
    /// order, with no header, footer or count field.
    pub fn write(&self, w: &mut Vec<u8>)
        ensures
            final(w)@ == old(w)@ + spec_toc_bytes(self.entries@),
    {
        let ghost w0 = w@;
        let mut i: usize = 0;
        let n = self.entries.len();
        while i < n
            invariant
                0 <= i <= n,
                n == self.entries@.len(),
                w@ == w0 + spec_toc_bytes(self.entries@.take(i as int)),
            decreases n - i,
        {
            let e = &self.entries[i];
            bytes::write_u64_le(w, e.file_pos);
            bytes::write_u64_le(w, e.granule_position);
            proof {
                lemma_toc_bytes_push(self.entries@.take(i as int), self.entries@[i as int]);
                assert(self.entries@.take(i as int).push(self.entries@[i as int])
                    =~= self.entries@.take(i + 1));
                assert(w@ =~= w0 + spec_toc_bytes(self.entries@.take(i + 1)));
            }
            i = i + 1;
        }
        proof {
            assert(self.entries@.take(n as int) =~= self.entries@);
        }
    }

    /// Find the entry to resume decoding from for a target granule position:
    /// on a sorted index, the entry just before the first one at or past the
    /// target, advanced past any leading run of zero-granule header pages.
    /// `None` means the index holds no usable resume point: no entry's
    /// granule position lies strictly below the target, or only zero-granule
    /// header pages follow the step-back point.
    pub fn last_entry_before(&self, start_pos: u64) -> (r: Option<&Entry>)
        ensures
            is_sorted_by_granule(self.entries@) ==> match spec_last_entry_before(
                self.entries@,
                start_pos,
            ) {
                Some(e) => r matches Some(re) && *re == e,
                None => r is None,
            },
            r matches Some(re) ==> re.granule_position != 0 && exists|i: int|
                0 <= i < self.entries@.len() && self.entries@[i] == *re,
    {
        let ghost s = self.entries@;
        let n = self.entries.len();
        let mut lo: usize = 0;
        let mut hi: usize = n;
        while lo < hi
            invariant
                0 <= lo <= hi <= n,
                n == s.len(),
                s == self.entries@,
                is_sorted_by_granule(s) ==> forall|j: int|
                    0 <= j < lo ==> (#[trigger] s[j]).granule_position < start_pos,
                is_sorted_by_granule(s) ==> forall|j: int|
                    hi <= j < n ==> (#[trigger] s[j]).granule_position >= start_pos,
            decreases hi - lo,
        {
            let mid = lo + (hi - lo) / 2;
            if self.entries[mid].granule_position < start_pos {
                lo = mid + 1;
            } else {
                hi = mid;
            }
        }
        proof {
            if is_sorted_by_granule(s) {
                lemma_partition_point_sorted(s, start_pos);
                let pp = spec_partition_point(s, start_pos);
                if pp < lo {
                    assert(s[pp].granule_position < start_pos);
                }
                if lo < pp {
                    assert(s[lo as int].granule_position < start_pos);
                }
                assert(lo == pp);
            }
        }
        if lo == 0 {
            return None;
        }
        let mut idx: usize = lo - 1;
        let ghost start = idx as int;
        while idx < n && self.entries[idx].granule_position == 0
            invariant
                0 <= start <= idx <= n,
                n == s.len(),
                s == self.entries@,
                zero_run_end(s, idx as int) == zero_run_end(s, start),
            decreases n - idx,
        {
            idx = idx + 1;
        }
        proof {
            lemma_zero_run_end(s, start);
            assert(idx as int == zero_run_end(s, start));
        }
        if idx < n {
            Some(&self.entries[idx])
        } else {
            None
        }
    }
}

/// On an index whose granule positions increase strictly and are never
/// zero, the lookup returns the entry with the greatest granule position
/// strictly below the target whenever any entry lies below it.
pub proof fn lemma_last_entry_before_greatest(s: Seq<Entry>, t: u64)
    requires
        forall|i: int, j: int|
            0 <= i < j < s.len() ==> (#[trigger] s[i]).granule_position < (
            #[trigger] s[j]).granule_position,
        forall|i: int| 0 <= i < s.len() ==> (#[trigger] s[i]).granule_position != 0,
        exists|i: int| 0 <= i < s.len() && (#[trigger] s[i]).granule_position < t,
    ensures
        spec_last_entry_before(s, t) matches Some(e) && e.granule_position < t && forall|i: int|
            0 <= i < s.len() && (#[trigger] s[i]).granule_position < t ==> s[i].granule_position
                <= e.granule_position,
{
    assert(is_sorted_by_granule(s)) by {
        assert(forall|i: int, j: int|
            0 <= i <= j < s.len() ==> (#[trigger] s[i]).granule_position <= (
            #[trigger] s[j]).granule_position);
    }
    lemma_partition_point_sorted(s, t);
    let pp = spec_partition_point(s, t);
    let w = choose|i: int| 0 <= i < s.len() && (#[trigger] s[i]).granule_position < t;
    assert(w < pp);
    assert(pp >= 1);
    assert(s[pp - 1].granule_position != 0);
    assert(zero_run_end(s, pp - 1) == pp - 1);
    assert(spec_last_entry_before(s, t) == Some(s[pp - 1]));
    assert(forall|i: int|
        0 <= i < s.len() && (#[trigger] s[i]).granule_position < t ==> i < pp);
    assert(forall|i: int|
        0 <= i < s.len() && (#[trigger] s[i]).granule_position < t ==> s[i].granule_position
            <= s[pp - 1].granule_position);
}

/// On a sorted index, the lookup returns the no-entry signal whenever no
/// entry's granule position lies strictly below the target — in particular
/// whenever the target is at or below every entry's granule position.
pub proof fn lemma_last_entry_before_none(s: Seq<Entry>, t: u64)
    requires
        is_sorted_by_granule(s),
        forall|i: int| 0 <= i < s.len() ==> (#[trigger] s[i]).granule_position >= t,
    ensures
        spec_last_entry_before(s, t) is None,
{
    lemma_partition_point_sorted(s, t);
    let pp = spec_partition_point(s, t);
    if pp != 0 {
        assert(s[pp - 1].granule_position < t);
        assert(s[pp - 1].granule_position >= t);
    }
}

/// Whatever the index holds, an entry the lookup returns never has granule
/// position zero: zero-granule entries mark header pages with no completed
/// audio and are useless as decode-resume points.
pub proof fn lemma_last_entry_before_nonzero(s: Seq<Entry>, t: u64)
    ensures
        spec_last_entry_before(s, t) matches Some(e) ==> e.granule_position != 0,
{
    lemma_partition_point_bounds(s, t);
    let pp = spec_partition_point(s, t);
    let start: int = if pp == 0 {
        0
    } else {
        pp - 1
    };
    if s.len() > 0 {
        lemma_zero_run_end(s, start);
    }
}

} // verus!
