use ogg_sample::bytes::ByteCursor;
use ogg_sample::ogg::{Header, HeaderTypeFlag, PacketReader, all_headers};
use ogg_sample::OggError;

fn page(flags: u8, granule: u64, segments: &[u8], payload: &[u8]) -> Vec<u8> {
    assert_eq!(segments.iter().map(|v| *v as usize).sum::<usize>(), payload.len());
    let mut v = Vec::new();
    v.extend_from_slice(b"OggS");
    v.push(0); // version
    v.push(flags);
    v.extend_from_slice(&granule.to_le_bytes());
    v.extend_from_slice(&7u32.to_le_bytes()); // stream serial
    v.extend_from_slice(&0u32.to_le_bytes()); // page sequence number
    v.extend_from_slice(&0u32.to_le_bytes()); // checksum (unverified)
    v.push(segments.len() as u8);
    v.extend_from_slice(segments);
    v.extend_from_slice(payload);
    v
}

#[test]
fn parse_single_header_fields() {
    let data = page(0x02, 1234, &[3, 0], &[9, 8, 7]);
    let mut rdr = ByteCursor::new(data);
    let h = Header::from_reader(&mut rdr).unwrap().unwrap();
    assert!(h.header_type.has_flag(HeaderTypeFlag::Bos));
    assert!(!h.header_type.has_flag(HeaderTypeFlag::Continuation));
    assert!(!h.header_type.has_flag(HeaderTypeFlag::Eos));
    assert_eq!(h.granule_position, 1234);
    assert_eq!(h.bitstream_serial_number, 7);
    assert_eq!(h.page_sequence_number, 0);
    assert_eq!(h.segment_table, vec![3, 0]);
}

#[test]
fn header_type_describe_names_flags() {
    let data = page(0x06, 0, &[1], &[5]);
    let mut rdr = ByteCursor::new(data);
    let h = Header::from_reader(&mut rdr).unwrap().unwrap();
    assert_eq!(h.header_type.describe(), "BosEos");
    let data = page(0x00, 0, &[1], &[5]);
    let mut rdr = ByteCursor::new(data);
    let h = Header::from_reader(&mut rdr).unwrap().unwrap();
    assert_eq!(h.header_type.describe(), "None");
    let data = page(0x01, 0, &[1], &[5]);
    let mut rdr = ByteCursor::new(data);
    let h = Header::from_reader(&mut rdr).unwrap().unwrap();
    assert_eq!(h.header_type.describe(), "Cont");
}

#[test]
fn eof_at_page_boundary_is_clean() {
    let mut rdr = ByteCursor::new(Vec::new());
    assert!(Header::from_reader(&mut rdr).unwrap().is_none());
}

#[test]
fn corrupt_capture_pattern_fails_fast() {
    let mut data = page(0, 0, &[1], &[5]);
    data[0] = b'X';
    data[1] = b'X';
    data[2] = b'X';
    data[3] = b'X';
    let mut rdr = ByteCursor::new(data.clone());
    assert_eq!(Header::from_reader(&mut rdr).unwrap_err(), OggError::BadCapturePattern);
    // The same corruption refuses the whole scan: no partial output.
    let mut rdr = ByteCursor::new(data.clone());
    assert_eq!(all_headers(&mut rdr).unwrap_err(), OggError::BadCapturePattern);
    let rdr = ByteCursor::new(data);
    assert_eq!(PacketReader::new(rdr).unwrap_err(), OggError::BadCapturePattern);
}

#[test]
fn bad_version_fails() {
    let mut data = page(0, 0, &[1], &[5]);
    data[4] = 1;
    let mut rdr = ByteCursor::new(data);
    assert_eq!(Header::from_reader(&mut rdr).unwrap_err(), OggError::BadVersion);
}

#[test]
fn truncated_header_fails() {
    let data = page(0, 0, &[1], &[5]);
    let mut rdr = ByteCursor::new(data[..20].to_vec());
    assert_eq!(Header::from_reader(&mut rdr).unwrap_err(), OggError::TruncatedHeader);
    // Truncation is acceptable only at the very first byte of a header:
    // one to three trailing bytes are a malformed container, not a clean
    // end of the stream.
    for cut in 1..4 {
        let mut rdr = ByteCursor::new(data[..cut].to_vec());
        assert_eq!(Header::from_reader(&mut rdr).unwrap_err(), OggError::TruncatedHeader);
    }
    // Cut inside the segment table.
    let data2 = page(0, 0, &[1, 2, 3], &[5, 6, 6, 7, 7, 7]);
    let mut rdr2 = ByteCursor::new(data2[..28].to_vec());
    assert_eq!(Header::from_reader(&mut rdr2).unwrap_err(), OggError::TruncatedHeader);
}

#[test]
fn empty_source_refused_by_packet_reader() {
    assert_eq!(PacketReader::new(ByteCursor::new(Vec::new())).unwrap_err(), OggError::EmptyFile);
}

#[test]
fn packets_within_one_page() {
    let data = page(0, 100, &[2, 0, 3], &[1, 2, 3, 4, 5]);
    let mut pr = PacketReader::new(ByteCursor::new(data)).unwrap();
    assert_eq!(pr.next_packet().unwrap(), Some(vec![1, 2]));
    assert_eq!(pr.next_packet().unwrap(), Some(vec![]));
    assert_eq!(pr.next_packet().unwrap(), Some(vec![3, 4, 5]));
    assert_eq!(pr.next_packet().unwrap(), None);
}

#[test]
fn packet_spanning_three_pages() {
    // One logical packet of 255 + 255 + 10 bytes: the first two pages end
    // their segment tables with lacing value 255, the third terminates with
    // a value below 255.
    let part1: Vec<u8> = (0..255).map(|i| (i % 256) as u8).collect();
    let part2: Vec<u8> = (0..255).map(|i| ((i + 13) % 256) as u8).collect();
    let part3: Vec<u8> = (0..10).map(|i| (200 + i) as u8).collect();
    let mut data = page(0x02, 0, &[255], &part1);
    data.extend_from_slice(&page(0x01, 0, &[255], &part2));
    data.extend_from_slice(&page(0x01, 300, &[10], &part3));
    let mut pr = PacketReader::new(ByteCursor::new(data)).unwrap();
    let got = pr.next_packet().unwrap().unwrap();
    let mut expected = part1.clone();
    expected.extend_from_slice(&part2);
    expected.extend_from_slice(&part3);
    assert_eq!(got, expected);
    assert_eq!(pr.next_packet().unwrap(), None);
}

#[test]
fn trailing_partial_packet_is_returned() {
    // The stream ends while a packet is still open (lacing 255 with no
    // following page): the partial data comes back as a final packet.
    let part: Vec<u8> = vec![9; 255];
    let data = page(0, 0, &[255], &part);
    let mut pr = PacketReader::new(ByteCursor::new(data)).unwrap();
    assert_eq!(pr.next_packet().unwrap(), Some(part));
    assert_eq!(pr.next_packet().unwrap(), None);
}

#[test]
fn truncated_fragment_fails() {
    let mut data = page(0, 0, &[5], &[1, 2, 3, 4, 5]);
    data.truncate(data.len() - 2);
    let mut pr = PacketReader::new(ByteCursor::new(data)).unwrap();
    assert_eq!(pr.next_packet().unwrap_err(), OggError::TruncatedPacket);
}

#[test]
fn stray_bytes_after_last_page_fail() {
    // A complete page followed by two stray bytes: the packet of the page
    // comes out, but the dangling partial header is an error, not a clean
    // end of the stream.
    let mut data = page(0, 0, &[1], &[5]);
    data.extend_from_slice(&[0x4f, 0x67]);
    let mut pr = PacketReader::new(ByteCursor::new(data)).unwrap();
    assert_eq!(pr.next_packet().unwrap(), Some(vec![5]));
    assert_eq!(pr.next_packet().unwrap_err(), OggError::TruncatedHeader);
}

#[test]
fn seek_granule_position_exhausted_scan_rewinds_to_start() {
    // No page has a positive granule position at or past the target: the
    // scan reaches the end of the stream and seeks to offset 0, best
    // effort, so reading resumes from the first page.
    let p0 = page(0x02, 10, &[1], &[1]);
    let p1 = page(0x04, 20, &[1], &[2]);
    let mut data = p0;
    data.extend_from_slice(&p1);
    let mut pr = PacketReader::new(ByteCursor::new(data)).unwrap();
    let granule = pr.seek_granule_position(10_000, false).unwrap();
    assert_eq!(granule, 10);
    assert_eq!(pr.next_packet().unwrap(), Some(vec![1]));
    assert_eq!(pr.next_packet().unwrap(), Some(vec![2]));
    assert_eq!(pr.next_packet().unwrap(), None);
}

#[test]
fn seek_to_continuation_page_refused() {
    let data = page(0x01, 50, &[1], &[5]);
    let mut pr = PacketReader::new(ByteCursor::new(data)).unwrap();
    assert_eq!(pr.seek(0, true).unwrap_err(), OggError::SeekToContinuation);
}

#[test]
fn seek_past_end_refused() {
    let data = page(0, 50, &[1], &[5]);
    let len = data.len() as u64;
    let mut pr = PacketReader::new(ByteCursor::new(data)).unwrap();
    assert_eq!(pr.seek(len, true).unwrap_err(), OggError::NoDataLeft);
    assert_eq!(pr.seek(len + 100, false).unwrap_err(), OggError::NoDataLeft);
}

#[test]
fn seek_skips_completed_packets() {
    // Page 0: two whole packets. Page 1: one packet that closes in the page
    // and one that stays open; seeking there with the reposition flag must
    // resume at the open packet and reassemble it with page 2.
    let p0 = page(0x02, 10, &[1, 1], &[1, 2]);
    let page1_pos = p0.len() as u64;
    let mut data = p0;
    data.extend_from_slice(&page(0, 20, &[2, 255], &{
        let mut v = vec![3, 4];
        v.extend_from_slice(&[7; 255]);
        v
    }));
    data.extend_from_slice(&page(0x05, 30, &[4], &[8, 8, 8, 8]));
    let mut pr = PacketReader::new(ByteCursor::new(data)).unwrap();
    let granule = pr.seek(page1_pos, true).unwrap();
    assert_eq!(granule, 20);
    let mut expected = vec![7; 255];
    expected.extend_from_slice(&[8, 8, 8, 8]);
    assert_eq!(pr.next_packet().unwrap(), Some(expected));
    assert_eq!(pr.next_packet().unwrap(), None);
}

#[test]
fn seek_whole_page_skipped_when_last_packet_closes() {
    // Every packet of the sought page terminates inside it: the cursor must
    // land exactly on the next page's header.
    let p0 = page(0x02, 10, &[1, 1], &[1, 2]);
    let page0_len = p0.len() as u64;
    let mut data = p0;
    data.extend_from_slice(&page(0, 20, &[3], &[4, 5, 6]));
    let mut pr = PacketReader::new(ByteCursor::new(data)).unwrap();
    let granule = pr.seek(0, true).unwrap();
    assert_eq!(granule, 10);
    assert_eq!(pr.next_packet().unwrap(), Some(vec![4, 5, 6]));
    // And the cursor really stood at the next header: a fresh seek there
    // parses the second page.
    let granule2 = pr.seek(page0_len, false).unwrap();
    assert_eq!(granule2, 20);
}

#[test]
fn seek_granule_position_lands_before_target() {
    let p0 = page(0x02, 0, &[1], &[1]);
    let p1 = page(0, 100, &[1], &[2]);
    let p2 = page(0, 200, &[1], &[3]);
    let p3 = page(0x04, 300, &[1], &[4]);
    let mut data = p0.clone();
    data.extend_from_slice(&p1);
    data.extend_from_slice(&p2);
    data.extend_from_slice(&p3);
    let mut pr = PacketReader::new(ByteCursor::new(data)).unwrap();
    // First page with granule >= 250 (and > 0) is p3; the scan resumes at
    // the page before it.
    let granule = pr.seek_granule_position(250, false).unwrap();
    assert_eq!(granule, 200);
    assert_eq!(pr.next_packet().unwrap(), Some(vec![3]));
}

#[test]
fn seek_granule_position_is_idempotent() {
    // Seek, decode (read packets), seek again: the packets after the second
    // seek are bit-identical to those after the first.
    let p0 = page(0x02, 0, &[1], &[1]);
    let p1 = page(0, 100, &[2, 3], &[2, 2, 3, 3, 3]);
    let p2 = page(0x04, 200, &[1], &[4]);
    let mut data = p0.clone();
    data.extend_from_slice(&p1);
    data.extend_from_slice(&p2);
    let mut pr = PacketReader::new(ByteCursor::new(data)).unwrap();
    pr.seek_granule_position(150, true).unwrap();
    let mut first = Vec::new();
    while let Some(p) = pr.next_packet().unwrap() {
        first.push(p);
    }
    pr.seek_granule_position(150, true).unwrap();
    let mut second = Vec::new();
    while let Some(p) = pr.next_packet().unwrap() {
        second.push(p);
    }
    assert_eq!(first, second);
}

#[test]
fn all_headers_records_every_page_offset() {
    let p0 = page(0x02, 0, &[2], &[1, 1]);
    let p1 = page(0, 100, &[1], &[2]);
    let off1 = p0.len() as u64;
    let mut data = p0;
    data.extend_from_slice(&p1);
    let off_end = data.len();
    let mut rdr = ByteCursor::new(data);
    let headers = all_headers(&mut rdr).unwrap();
    assert_eq!(headers.len(), 2);
    assert_eq!(headers[0].0, 0);
    assert_eq!(headers[0].1.granule_position, 0);
    assert_eq!(headers[1].0, off1);
    assert_eq!(headers[1].1.granule_position, 100);
    assert!(off_end > 0);
}

#[test]
fn into_inner_returns_the_source() {
    let data = page(0, 0, &[1], &[5]);
    let expected = data.clone();
    let pr = PacketReader::new(ByteCursor::new(data)).unwrap();
    let cursor = pr.into_inner();
    assert_eq!(cursor.into_vec(), expected);
}
