use ogg_sample::bytes::ByteCursor;
use ogg_sample::ogg_vorbis::{SampleAccumulator, VorbisStream, seek_sample_start};
use ogg_sample::vorbis::IdentificationHeader;
use ogg_sample::{Entry, OggError, TableOfContent};

fn page(flags: u8, granule: u64, segments: &[u8], payload: &[u8]) -> Vec<u8> {
    assert_eq!(segments.iter().map(|v| *v as usize).sum::<usize>(), payload.len());
    let mut v = Vec::new();
    v.extend_from_slice(b"OggS");
    v.push(0);
    v.push(flags);
    v.extend_from_slice(&granule.to_le_bytes());
    v.extend_from_slice(&7u32.to_le_bytes());
    v.extend_from_slice(&0u32.to_le_bytes());
    v.extend_from_slice(&0u32.to_le_bytes());
    v.push(segments.len() as u8);
    v.extend_from_slice(segments);
    v.extend_from_slice(payload);
    v
}

fn ident_packet(channels: u8, rate: u32) -> Vec<u8> {
    let mut v = vec![1u8];
    v.extend_from_slice(b"vorbis");
    v.extend_from_slice(&0u32.to_le_bytes());
    v.push(channels);
    v.extend_from_slice(&rate.to_le_bytes());
    v.extend_from_slice(&0u32.to_le_bytes());
    v.extend_from_slice(&160000u32.to_le_bytes());
    v.extend_from_slice(&0u32.to_le_bytes());
    v.push(0xb8);
    v
}

fn entries(pairs: &[(u64, u64)]) -> Vec<Entry> {
    pairs.iter().map(|&(f, g)| Entry { file_pos: f, granule_position: g }).collect()
}

#[test]
fn toc_round_trip_identical() {
    let toc = TableOfContent {
        entries: entries(&[(0, 0), (58, 0), (116, 4096), (200, 70000), (999, u64::MAX)]),
    };
    let mut buf = Vec::new();
    toc.write(&mut buf);
    assert_eq!(buf.len(), 16 * toc.entries.len());
    let mut rdr = ByteCursor::new(buf);
    let back = TableOfContent::from_reader(&mut rdr).unwrap();
    assert_eq!(back.entries, toc.entries);
}

#[test]
fn toc_deserialize_stops_at_short_record() {
    let toc = TableOfContent { entries: entries(&[(1, 2), (3, 4)]) };
    let mut buf = Vec::new();
    toc.write(&mut buf);
    buf.extend_from_slice(&[0xaa; 9]); // an incomplete trailing record
    let mut rdr = ByteCursor::new(buf);
    let back = TableOfContent::from_reader(&mut rdr).unwrap();
    assert_eq!(back.entries, toc.entries);
}

#[test]
fn toc_serialized_layout_is_little_endian_pairs() {
    let toc = TableOfContent { entries: entries(&[(0x0102030405060708, 0x1122334455667788)]) };
    let mut buf = Vec::new();
    toc.write(&mut buf);
    assert_eq!(buf[..8], 0x0102030405060708u64.to_le_bytes());
    assert_eq!(buf[8..16], 0x1122334455667788u64.to_le_bytes());
}

#[test]
fn last_entry_before_returns_greatest_below_target() {
    let toc = TableOfContent { entries: entries(&[(10, 100), (20, 200), (30, 300)]) };
    let e = toc.last_entry_before(250).unwrap();
    assert_eq!((e.file_pos, e.granule_position), (20, 200));
    let e = toc.last_entry_before(201).unwrap();
    assert_eq!((e.file_pos, e.granule_position), (20, 200));
    let e = toc.last_entry_before(200).unwrap();
    assert_eq!((e.file_pos, e.granule_position), (10, 100));
}

#[test]
fn last_entry_before_low_target_is_none() {
    let toc = TableOfContent { entries: entries(&[(10, 100), (20, 200)]) };
    // No entry lies strictly below the target: there is no usable resume
    // point, and the lookup says so.
    assert!(toc.last_entry_before(50).is_none());
    assert!(toc.last_entry_before(100).is_none());
    assert!(toc.last_entry_before(101).is_some());
}

#[test]
fn last_entry_before_skips_zero_granule_prefix() {
    let toc = TableOfContent {
        entries: entries(&[(0, 0), (58, 0), (116, 4096), (200, 8192)]),
    };
    let e = toc.last_entry_before(50).unwrap();
    // The two header pages carry no audio; the first qualifying entry is the
    // one with granule 4096, and the result is never zero.
    assert_eq!((e.file_pos, e.granule_position), (116, 4096));
    let e = toc.last_entry_before(5000).unwrap();
    assert_eq!((e.file_pos, e.granule_position), (116, 4096));
}

#[test]
fn last_entry_before_all_zero_entries_is_none() {
    let toc = TableOfContent { entries: entries(&[(0, 0), (58, 0)]) };
    assert!(toc.last_entry_before(0).is_none());
    assert!(toc.last_entry_before(100).is_none());
}

#[test]
fn last_entry_before_empty_index_is_none() {
    let toc = TableOfContent { entries: Vec::new() };
    assert!(toc.last_entry_before(0).is_none());
    assert!(toc.last_entry_before(12345).is_none());
}

#[test]
fn toc_from_container_records_every_page() {
    let p0 = page(0x02, 0, &[2], &[1, 1]);
    let off1 = p0.len() as u64;
    let mut data = p0;
    data.extend_from_slice(&page(0x04, 100, &[1], &[2]));
    let mut rdr = ByteCursor::new(data);
    let toc = TableOfContent::from_ogg_reader(&mut rdr).unwrap();
    assert_eq!(toc.entries.len(), 2);
    assert_eq!((toc.entries[0].file_pos, toc.entries[0].granule_position), (0, 0));
    assert_eq!((toc.entries[1].file_pos, toc.entries[1].granule_position), (off1, 100));
}

#[test]
fn ident_header_parses_fixed_layout() {
    let mut rdr = ByteCursor::new(ident_packet(2, 44100));
    let h = IdentificationHeader::from_reader(&mut rdr).unwrap();
    assert_eq!(h.audio_channels, 2);
    assert_eq!(h.audio_sample_rate, 44100);
    assert_eq!(h.bitrate_maximum, 0);
    assert_eq!(h.bitrate_nominal, 160000);
    assert_eq!(h.bitrate_minimum, 0);
    assert_eq!(h.blocksizes, 0xb8);
}

#[test]
fn ident_header_bad_packet_type() {
    let mut p = ident_packet(2, 44100);
    p[0] = 3;
    let mut rdr = ByteCursor::new(p);
    assert_eq!(
        IdentificationHeader::from_reader(&mut rdr).unwrap_err(),
        OggError::BadIdentPacketType
    );
}

#[test]
fn ident_header_bad_magic() {
    let mut p = ident_packet(2, 44100);
    p[3] = b'x';
    let mut rdr = ByteCursor::new(p);
    assert_eq!(IdentificationHeader::from_reader(&mut rdr).unwrap_err(), OggError::BadIdentMagic);
}

#[test]
fn ident_header_bad_version() {
    let mut p = ident_packet(2, 44100);
    p[7] = 9;
    let mut rdr = ByteCursor::new(p);
    assert_eq!(
        IdentificationHeader::from_reader(&mut rdr).unwrap_err(),
        OggError::BadIdentVersion
    );
}

#[test]
fn ident_header_truncated() {
    let p = ident_packet(2, 44100);
    let mut rdr = ByteCursor::new(p[..20].to_vec());
    assert_eq!(IdentificationHeader::from_reader(&mut rdr).unwrap_err(), OggError::TruncatedIdent);
}

fn stream_container(rate: u32) -> Vec<u8> {
    // Page 0: identification packet; page 1: comment and setup packets;
    // pages 2..: audio packets with growing granule positions.
    let ident = ident_packet(2, rate);
    let mut data = page(0x02, 0, &[ident.len() as u8], &ident);
    data.extend_from_slice(&page(0, 0, &[3, 4], &[9, 9, 9, 8, 8, 8, 8]));
    data.extend_from_slice(&page(0, 480000, &[2], &[1, 2]));
    data.extend_from_slice(&page(0, 480100, &[2], &[3, 4]));
    data.extend_from_slice(&page(0x04, 480200, &[2], &[5, 6]));
    data
}

#[test]
fn vorbis_stream_reads_three_header_packets() {
    let data = stream_container(48000);
    let mut vs = VorbisStream::new(ByteCursor::new(data)).unwrap();
    assert_eq!(vs.channels(), 2);
    assert_eq!(vs.sample_rate(), 48000);
    let mut expected = ident_packet(2, 48000);
    expected.extend_from_slice(&[8, 8, 8, 8]);
    assert_eq!(vs.codec_data().as_slice(), expected.as_slice());
    assert_eq!(vs.ident_header().audio_sample_rate, 48000);
    // The next packet is the first audio packet.
    assert_eq!(vs.next_packet().unwrap(), Some(vec![1, 2]));
}

#[test]
fn vorbis_stream_missing_packets() {
    let ident = ident_packet(2, 48000);
    // Only the identification packet: the comment packet is missing.
    let one = page(0x02, 0, &[ident.len() as u8], &ident);
    assert_eq!(
        VorbisStream::new(ByteCursor::new(one.clone())).unwrap_err(),
        OggError::MissingCommentHeader
    );
    // Identification and comment, but no setup packet.
    let mut two = one.clone();
    two.extend_from_slice(&page(0, 0, &[3], &[9, 9, 9]));
    assert_eq!(
        VorbisStream::new(ByteCursor::new(two)).unwrap_err(),
        OggError::MissingSetupHeader
    );
    // A page with no packets at all: the identification packet is missing.
    let empty_page = page(0x02, 0, &[], &[]);
    assert_eq!(
        VorbisStream::new(ByteCursor::new(empty_page)).unwrap_err(),
        OggError::MissingIdentHeader
    );
    assert_eq!(
        VorbisStream::new(ByteCursor::new(Vec::new())).unwrap_err(),
        OggError::EmptyFile
    );
}

#[test]
fn seek_sample_start_aligns_both_paths() {
    // Target timestamp 480000 at 48000 Hz (10.0 seconds): with and without
    // the sidecar index, the resumed granule plus the returned skip count
    // must land exactly on the target.
    let data = stream_container(48000);
    let target = 480000u64;

    let mut rdr = ByteCursor::new(data.clone());
    let toc = TableOfContent::from_ogg_reader(&mut rdr).unwrap();

    let mut with_index = VorbisStream::new(ByteCursor::new(data.clone())).unwrap();
    let skip_idx = seek_sample_start(&mut with_index, Some(&toc), target).unwrap();
    let mut packets_idx = Vec::new();
    while let Some(p) = with_index.next_packet().unwrap() {
        packets_idx.push(p);
    }

    let mut without_index = VorbisStream::new(ByteCursor::new(data)).unwrap();
    let skip_scan = seek_sample_start(&mut without_index, None, target).unwrap();
    let mut packets_scan = Vec::new();
    while let Some(p) = without_index.next_packet().unwrap() {
        packets_scan.push(p);
    }

    assert!(skip_idx <= target);
    assert!(skip_scan <= target);
    // Both paths resume early enough that dropping the skip count lands on
    // the target; the packets the scan path yields start at or before those
    // of the index path.
    assert!(packets_scan.len() >= packets_idx.len());
    assert_eq!(packets_scan[packets_scan.len() - packets_idx.len()..], packets_idx[..]);
}

#[test]
fn seek_sample_start_empty_index_is_fatal() {
    let data = stream_container(48000);
    let mut vs = VorbisStream::new(ByteCursor::new(data)).unwrap();
    let toc = TableOfContent { entries: Vec::new() };
    assert_eq!(
        seek_sample_start(&mut vs, Some(&toc), 480000).unwrap_err(),
        OggError::InsufficientData
    );
}

#[test]
fn accumulator_skips_then_keeps_exactly_target() {
    // Stream of three packets of 4 samples each; skip 5, keep 6: the output
    // must be samples 5..11 of the concatenated stream, exactly.
    let mut acc = SampleAccumulator::new(2, 5, 6);
    let stream: Vec<u32> = (0..12).collect();
    for chunk in stream.chunks(4) {
        assert!(!acc.is_done());
        let planes = vec![chunk.to_vec(), chunk.iter().map(|x| x + 100).collect()];
        acc.push_packet(&planes);
    }
    assert!(acc.is_done());
    let out = acc.into_channels();
    assert_eq!(out.len(), 2);
    assert_eq!(out[0], vec![5, 6, 7, 8, 9, 10]);
    assert_eq!(out[1], vec![105, 106, 107, 108, 109, 110]);
}

#[test]
fn accumulator_short_stream_yields_what_there_is() {
    let mut acc = SampleAccumulator::new(1, 2, 100);
    acc.push_packet(&vec![vec![1, 2, 3, 4]]);
    assert!(!acc.is_done());
    let out = acc.into_channels();
    assert_eq!(out, vec![vec![3, 4]]);
}

#[test]
fn accumulator_skip_larger_than_stream_yields_nothing() {
    let mut acc = SampleAccumulator::new(1, 10, 4);
    acc.push_packet(&vec![vec![1, 2, 3]]);
    acc.push_packet(&vec![vec![4, 5]]);
    let out = acc.into_channels();
    assert_eq!(out, vec![Vec::<u32>::new()]);
}

#[test]
fn accumulator_zero_target_is_done_at_once() {
    let mut acc = SampleAccumulator::new(1, 0, 0);
    assert!(acc.is_done());
    acc.push_packet(&vec![vec![1, 2, 3]]);
    let out = acc.into_channels();
    assert_eq!(out, vec![Vec::<u32>::new()]);
}

#[test]
fn accumulator_truncates_mid_packet() {
    let mut acc = SampleAccumulator::new(1, 1, 3);
    acc.push_packet(&vec![vec![10, 11, 12, 13, 14, 15]]);
    assert!(acc.is_done());
    let out = acc.into_channels();
    assert_eq!(out, vec![vec![11, 12, 13]]);
}
