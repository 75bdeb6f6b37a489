use log_indexer::grabber::{
    identify_byte_range, identify_end_slot_simple, identify_start_slot,
    identify_start_slot_simple, metadata_is_valid, split_lines, FilePart, GrabError,
    GrabMetadata, Grabber, Slot,
};
use log_indexer::range::{ByteRange, LineRange};
use log_indexer::text_source::{count_lines_up_to_last_newline, SlotBuilder, TextFileSource};

fn metadata_of(content: &[u8], refill: usize) -> GrabMetadata {
    let mut b = SlotBuilder::new();
    let mut pos = 0;
    while pos < content.len() {
        let end = std::cmp::min(pos + refill, content.len());
        let consumed = b.feed(&content[pos..end]);
        pos += consumed;
    }
    b.finish()
}

fn grab(content: &[u8], md: GrabMetadata, a: u64, b: u64) -> Result<Vec<String>, GrabError> {
    let mut g = Grabber::lazy("src".to_string(), content.len() as u64)?;
    g.inject_metadata(md)?;
    let part = g.file_part(&LineRange::from(a..=b))?;
    let start = part.offset_in_file as usize;
    let region = &content[start..start + part.length];
    let c = g.grab_from_region(region, &part);
    Ok(c.grabbed_elements.into_iter().map(|e| e.content).collect())
}

#[test]
fn text_grab_scenario() {
    let content = b"a\nbb\nccc\nd\n";
    assert_eq!(content.len(), 11);
    let md = metadata_of(content, 1024);
    assert_eq!(md.line_count, 4);
    assert_eq!(grab(content, md.clone(), 1, 2).unwrap(), vec!["bb", "ccc"]);
    assert_eq!(grab(content, md.clone(), 0, 3).unwrap(), vec!["a", "bb", "ccc", "d"]);
    assert_eq!(grab(content, md, 3, 3).unwrap(), vec!["d"]);
}

#[test]
fn text_grab_over_many_slots() {
    let content = b"l0\nline1\nl2\nlonger line 3\nl4\nl5\n";
    let md = metadata_of(content, 16);
    assert!(md.slots.len() > 1);
    let lines: Vec<&str> = std::str::from_utf8(content).unwrap().lines().collect();
    for a in 0..lines.len() {
        for b in a..lines.len() {
            let got = grab(content, md.clone(), a as u64, b as u64).unwrap();
            assert_eq!(got.len(), b - a + 1);
            for k in 0..got.len() {
                assert_eq!(got[k], lines[a + k]);
            }
        }
    }
}

#[test]
fn long_line_slots() {
    let mib = 1024 * 1024;
    let mut content = vec![b'x'; 2 * mib];
    content.push(b'\n');
    let mut b = SlotBuilder::new();
    assert_eq!(b.feed(&content[0..mib]), mib);
    assert_eq!(b.feed(&content[mib..2 * mib]), mib);
    assert_eq!(b.feed(&content[2 * mib..]), 1);
    let md = b.finish();
    assert_eq!(md.line_count, 1);
    for s in &md.slots {
        assert_eq!((s.lines.start, s.lines.end), (0, 0));
    }
    assert_eq!(md.slots.last().unwrap().bytes.end, 2 * mib as u64);
    assert!(metadata_is_valid(&md));
}

#[test]
fn grab_across_long_line_and_missing_last_newline() {
    let long = "y".repeat(40);
    let text = format!("short\n{}\nend", long);
    let content = text.as_bytes();
    let md = metadata_of(content, 16);
    assert_eq!(md.line_count, 3);
    assert_eq!(grab(content, md.clone(), 0, 2).unwrap(), vec!["short", long.as_str(), "end"]);
    assert_eq!(grab(content, md.clone(), 1, 1).unwrap(), vec![long.as_str()]);
    assert_eq!(grab(content, md, 2, 2).unwrap(), vec!["end"]);
}

#[test]
fn slot_tiling_and_line_accounting() {
    let content = b"first\nsecond\nthird without newline";
    let md = metadata_of(content, 64);
    assert_eq!(md.slots[0].bytes.start, 0);
    assert_eq!(md.slots[0].lines.start, 0);
    for w in md.slots.windows(2) {
        assert_eq!(w[1].bytes.start, w[0].bytes.end + 1);
        assert_eq!(w[1].lines.start, w[0].lines.end + 1);
    }
    assert_eq!(md.slots.last().unwrap().bytes.end, content.len() as u64 - 1);
    let sum: u64 = md.slots.iter().map(|s| s.line_count()).sum();
    assert_eq!(sum, md.line_count as u64);
    assert_eq!(md.slots.last().unwrap().lines.end + 1, md.line_count as u64);
    assert_eq!(md.line_count, 3);
    assert!(metadata_is_valid(&md));
}

#[test]
fn empty_file_is_rejected() {
    match Grabber::lazy("src".to_string(), 0) {
        Err(GrabError::Config(m)) => assert_eq!(m, "Cannot grab empty file"),
        other => panic!("unexpected {:?}", other),
    }
}

#[test]
fn grab_without_metadata() {
    let g = Grabber::lazy("src".to_string(), 5).unwrap();
    assert_eq!(g.file_part(&LineRange::from(0..=0)), Err(GrabError::NotInitialize));
    assert_eq!(g.log_entry_count(), None);
}

#[test]
fn grab_invalid_ranges() {
    let content = b"a\nb\n";
    let md = metadata_of(content, 100);
    let mut g = Grabber::lazy("src".to_string(), 4).unwrap();
    g.inject_metadata(md).unwrap();
    assert_eq!(g.log_entry_count(), Some(2));
    match g.file_part(&LineRange::from(1..=0)) {
        Err(GrabError::InvalidRange { range, .. }) => assert_eq!(range, LineRange::from(1..=0)),
        other => panic!("unexpected {:?}", other),
    }
    match g.file_part(&LineRange::from(1..=2)) {
        Err(GrabError::InvalidRange { range, .. }) => assert_eq!(range, LineRange::from(1..=2)),
        other => panic!("unexpected {:?}", other),
    }
    g.drop_metadata();
    assert!(g.get_metadata().is_none());
}

#[test]
fn bad_metadata_is_refused() {
    let md = GrabMetadata {
        slots: vec![
            Slot { bytes: ByteRange::new(0, 9), lines: LineRange::new(0, 1) },
            Slot { bytes: ByteRange::new(11, 20), lines: LineRange::new(2, 3) },
        ],
        line_count: 4,
    };
    assert!(!metadata_is_valid(&md));
    let mut g = Grabber::lazy("src".to_string(), 21).unwrap();
    assert!(matches!(g.inject_metadata(md), Err(GrabError::Config(_))));
    let ok = GrabMetadata {
        slots: vec![
            Slot { bytes: ByteRange::new(0, 9), lines: LineRange::new(0, 1) },
            Slot { bytes: ByteRange::new(10, 20), lines: LineRange::new(2, 3) },
        ],
        line_count: 4,
    };
    assert!(g.inject_metadata(ok).is_ok());
}

fn sample_slots() -> Vec<Slot> {
    vec![
        Slot { bytes: ByteRange::new(0, 99), lines: LineRange::new(0, 9) },
        Slot { bytes: ByteRange::new(100, 199), lines: LineRange::new(10, 10) },
        Slot { bytes: ByteRange::new(200, 299), lines: LineRange::new(11, 19) },
        Slot { bytes: ByteRange::new(300, 349), lines: LineRange::new(20, 29) },
    ]
}

#[test]
fn start_and_end_slots_agree_with_binary_search() {
    let slots = sample_slots();
    for l in 0..32u64 {
        let a = identify_start_slot_simple(&slots, l).map(|x| x.1);
        let b = identify_start_slot(&slots, l).map(|x| x.1);
        let c = identify_end_slot_simple(&slots, l).map(|x| x.1);
        assert_eq!(a, b);
        assert_eq!(a, c);
    }
    assert_eq!(identify_start_slot(&slots, 10).unwrap().1, 1);
    assert_eq!(identify_start_slot(&slots, 30), None);
    assert_eq!(identify_start_slot(&[], 0), None);
}

#[test]
fn byte_range_of_lines() {
    let slots = sample_slots();
    let p = identify_byte_range(&slots, &LineRange::from(5..=12)).unwrap();
    assert_eq!(
        p,
        FilePart { offset_in_file: 0, length: 300, total_lines: 20, lines_to_skip: 5, lines_to_drop: 7 }
    );
    assert_eq!(identify_byte_range(&slots, &LineRange::from(3..=2)), None);
    assert_eq!(identify_byte_range(&slots, &LineRange::from(25..=40)), None);
}

#[test]
fn range_sizes() {
    let r = ByteRange::from(3..=7);
    assert_eq!(r.size(), 5);
    assert_eq!(r.start(), 3);
    assert_eq!(r.end(), 7);
    assert!(!r.is_empty());
    assert_eq!(LineRange::from(4..=3).size(), 0);
    assert!(LineRange::from(4..=3).is_empty());
    let s = LineRange::single_line(9);
    assert_eq!((s.start(), s.end(), s.size()), (9, 9, 1));
    let slot = Slot { bytes: ByteRange::new(10, 19), lines: LineRange::new(2, 4) };
    assert_eq!(slot.byte_count(), 10);
    assert_eq!(slot.line_count(), 3);
}

#[test]
fn newlines_up_to_last() {
    assert_eq!(count_lines_up_to_last_newline(b"ab\ncd\nef"), (2, 5));
    assert_eq!(count_lines_up_to_last_newline(b"abc"), (0, 0));
    assert_eq!(count_lines_up_to_last_newline(b""), (0, 0));
    assert_eq!(count_lines_up_to_last_newline(b"\n"), (1, 0));
}

#[test]
fn split_keeps_empty_pieces() {
    let p = split_lines(b"a\n\nb\n");
    assert_eq!(p, vec![b"a".to_vec(), vec![], b"b".to_vec(), vec![]]);
}

#[test]
fn invalid_utf8_is_replaced() {
    let content = b"ok\n\xff\xfe\n";
    let md = metadata_of(content, 100);
    let got = grab(content, md, 1, 1).unwrap();
    assert_eq!(got, vec!["\u{fffd}\u{fffd}"]);
}

#[test]
fn text_source_keeps_id() {
    let s = TextFileSource::new("/tmp/x.log", "abc");
    assert_eq!(s.source_id(), "abc");
    assert_eq!(s.path, "/tmp/x.log");
}
