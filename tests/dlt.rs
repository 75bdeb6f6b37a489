use log_indexer::chunks::{Chunk, ChunkFactory};
use log_indexer::dlt_file::{
    tagged_line, DecodeResult, DltIndexer, FileMessageProducer, IndexAction, MessageKind,
    ProduceError, DLT_PATTERN_SIZE, PLUGIN_ID_SENTINEL,
};
use log_indexer::partition::{get_parts, FilePart, IndexSection, SectionConfig};
use log_indexer::progress::{ProgressReporter, Severity};
use dlt_core::dlt::LogLevel;
use dlt_core::statistics::StatisticRowInfo;
use log_indexer::dlt_file::MessageCounter;
use log_indexer::partition::message_length;
use log_indexer::statistics::{add_for_level, stop_check_due, LevelDistribution, ScanStep, StatisticInfo};

/// A control message with storage header, ECU "ECU", app "APP", context "CON".
const SAMPLE: [u8; 47] = [
    0x44, 0x4C, 0x54, 0x01, 0x26, 0x2C, 0xC9, 0x4D, 0xD8, 0xA2, 0x0C, 0x00, 0x45, 0x43, 0x55, 0x00,
    0x35, 0x00, 0x00, 0x1F, 0x45, 0x43, 0x55, 0x00, 0x3F, 0x88, 0x62, 0x3A, 0x16, 0x01, 0x41, 0x50,
    0x50, 0x00, 0x43, 0x4F, 0x4E, 0x00, 0x11, 0x00, 0x00, 0x00, 0x04, 0x72, 0x65, 0x6D, 0x6F,
];

/// Runs the indexer over decoded results, each message `msg_len` bytes of
/// input; returns the output bytes, the chunks, and the indexer.
fn run(
    decoded: Vec<DecodeResult>,
    chunk_size: usize,
    stop_after_first_chunk: bool,
) -> (Vec<u8>, Vec<Chunk>, Vec<String>, DltIndexer) {
    let mut producer = FileMessageProducer::new(true);
    let mut ix = DltIndexer::new("T".to_string(), chunk_size, 1_000_000, 0, 0);
    let mut out = Vec::new();
    let mut chunks = Vec::new();
    let mut errors = Vec::new();
    let mut it = decoded.into_iter();
    loop {
        if ix.stopped {
            break;
        }
        let (available, d) = match it.next() {
            Some(d) => (1000, d),
            None => (0, DecodeResult::IncompleteParse),
        };
        let (consumed, outcome) = producer.produce_next_message(available, d);
        let (action, _ticks) = ix.on_produced(consumed, &outcome);
        match action {
            IndexAction::Stop => break,
            IndexAction::Skip => {}
            IndexAction::Fail(n) => {
                errors.push(n.content);
                break;
            }
            IndexAction::WriteItem => {
                let nr = ix.line_nr;
                let (line, chunk) = ix.write_item(&format!("message {}", nr));
                out.extend_from_slice(&line);
                if let Some(c) = chunk {
                    ix.set_stopped(stop_after_first_chunk);
                    chunks.push(c);
                }
            }
        }
    }
    if let Some(c) = ix.last_chunk() {
        chunks.push(c);
    }
    (out, chunks, errors, ix)
}

fn item(len: usize) -> DecodeResult {
    DecodeResult::Parsed { rest_len: 1000 - len, kind: MessageKind::Item }
}

fn assert_tiles(out: &[u8], chunks: &[Chunk]) {
    assert_eq!(chunks[0].b.0, 0);
    assert_eq!(chunks[0].r.0, 0);
    for w in chunks.windows(2) {
        assert_eq!(w[1].b.0, w[0].b.1);
        assert_eq!(w[1].r.0, w[0].r.1 + 1);
        assert!(w[1].r.0 > w[0].r.0);
    }
    assert_eq!(chunks.last().unwrap().b.1, out.len());
}

#[test]
fn dlt_indexing_tiling() {
    let n = 1234;
    let (out, chunks, errors, ix) = run((0..n).map(|_| item(100)).collect(), 500, false);
    assert!(errors.is_empty());
    assert_eq!(chunks.len(), 3);
    assert_tiles(&out, &chunks);
    assert_eq!(ix.check_output(out.len()), None);
    let text = String::from_utf8(out).unwrap();
    let lines: Vec<&str> = text.split_terminator('\n').collect();
    assert_eq!(lines.len(), n);
    for (i, l) in lines.iter().enumerate() {
        assert!(l.starts_with(&format!("T\u{3}{}\u{3}", i)));
    }
}

#[test]
fn dlt_resync_after_garbled_message() {
    let mut decoded = Vec::new();
    for i in 0..10 {
        if i == 4 {
            for _ in 0..25 {
                decoded.push(DecodeResult::ParsingHickup("noise".to_string()));
            }
        } else {
            decoded.push(item(400));
        }
    }
    let (out, chunks, errors, _) = run(decoded, 3, false);
    assert!(errors.is_empty());
    let text = String::from_utf8(out.clone()).unwrap();
    assert_eq!(text.lines().count(), 9);
    assert_tiles(&out, &chunks);
}

#[test]
fn cancellation_stops_after_chunk() {
    let (out, chunks, _, ix) = run((0..5000).map(|_| item(10)).collect(), 1000, true);
    assert!(ix.stopped);
    assert_eq!(chunks.len(), 1);
    assert_eq!(chunks.last().unwrap().b.1, out.len());
}

#[test]
fn unrecoverable_error_is_reported() {
    let decoded = vec![item(10), DecodeResult::Unrecoverable("broken".to_string()), item(10)];
    let (out, chunks, errors, _) = run(decoded, 10, false);
    assert_eq!(errors, vec!["broken".to_string()]);
    assert_eq!(chunks.len(), 1);
    assert_eq!(chunks[0].b, (0, out.len()));
}

#[test]
fn empty_input_gives_marker_chunk() {
    let (out, chunks, _, _) = run(vec![], 10, false);
    assert!(out.is_empty());
    assert_eq!(chunks, vec![Chunk { r: (0, 0), b: (0, 0) }]);
}

#[test]
fn output_size_mismatch_is_an_error() {
    let (out, _, _, ix) = run(vec![item(10)], 10, false);
    let n = ix.check_output(out.len() + 1).unwrap();
    assert_eq!(n.severity, Severity::ERROR);
    assert_eq!(n.line, Some(1));
}

#[test]
fn producer_outcomes() {
    let mut p = FileMessageProducer::new(true);
    assert_eq!(p.produce_next_message(0, item(5)), (0, Ok(None)));
    assert_eq!(p.produce_next_message(1000, item(30)), (30, Ok(Some(MessageKind::Item))));
    assert_eq!(
        p.produce_next_message(50, DecodeResult::Parsed { rest_len: 10, kind: MessageKind::FilteredOut(3) }),
        (40, Ok(Some(MessageKind::FilteredOut(3))))
    );
    assert_eq!(
        p.produce_next_message(50, DecodeResult::ParsingHickup("x".to_string())),
        (DLT_PATTERN_SIZE, Err(ProduceError::ParsingHickup("x".to_string())))
    );
    assert!(matches!(
        p.produce_next_message(50, DecodeResult::IncompleteParse),
        (0, Err(ProduceError::Unrecoverable(_)))
    ));
    assert_eq!(
        p.produce_next_message(50, DecodeResult::ReadFailed("io".to_string())),
        (0, Err(ProduceError::Unrecoverable("io".to_string())))
    );
    assert_eq!(p.stats.parsed, 2);
    assert_eq!(p.stats.no_parse, 2);
}

#[test]
fn tagged_line_format() {
    let l = tagged_line("tag", 1203, "hello");
    let mut want = b"tag".to_vec();
    want.push(PLUGIN_ID_SENTINEL);
    want.extend_from_slice(b"1203");
    want.push(PLUGIN_ID_SENTINEL);
    want.extend_from_slice(b"hello\n");
    assert_eq!(l, want);
    assert_eq!(tagged_line("", 0, ""), vec![3, b'0', 3, b'\n']);
}

#[test]
fn chunk_factory_thresholds() {
    let mut f = ChunkFactory::new(2, 100);
    assert_eq!(f.add_bytes(1, 10), None);
    assert_eq!(f.add_bytes(2, 20), Some(Chunk { r: (0, 1), b: (100, 130) }));
    assert_eq!(f.add_bytes(3, 5), None);
    assert_eq!(f.create_last_chunk(3, false), Some(Chunk { r: (2, 2), b: (130, 135) }));
    assert_eq!(f.create_last_chunk(3, false), None);
}

#[test]
fn progress_ticks_once_per_percent() {
    let mut p = ProgressReporter::new(1000);
    assert_eq!(p.make_progress(5), None);
    assert_eq!(p.make_progress(5), Some((10, 1000)));
    assert_eq!(p.make_progress(3), None);
    assert_eq!(p.make_progress(500), Some((513, 1000)));
    let mut z = ProgressReporter::new(0);
    assert_eq!(z.make_progress(10), None);
}

#[test]
fn export_sections() {
    let lens: Vec<u64> = (0..1000u64).map(|i| 16 + (i % 7) * 3).collect();
    let config = SectionConfig {
        sections: vec![
            IndexSection { first_line: 10, last_line: 19 },
            IndexSection { first_line: 100, last_line: 100 },
        ],
    };
    let parts = get_parts(&lens, &config, lens.iter().sum());
    let off10: u64 = lens[..10].iter().sum();
    let len10: u64 = lens[10..20].iter().sum();
    let off100: u64 = lens[..100].iter().sum();
    assert_eq!(
        parts,
        vec![FilePart { offset: off10, length: len10 }, FilePart { offset: off100, length: lens[100] }]
    );
    let total: u64 = parts.iter().map(|p| p.length).sum();
    assert_eq!(total, len10 + lens[100]);
}

#[test]
fn export_whole_file_and_bad_sections() {
    let lens = vec![10u64, 20, 30];
    let all = get_parts(&lens, &SectionConfig { sections: vec![] }, 60);
    assert_eq!(all, vec![FilePart { offset: 0, length: 60 }]);
    let beyond = SectionConfig { sections: vec![IndexSection { first_line: 1, last_line: 5 }] };
    assert_eq!(get_parts(&lens, &beyond, 60), vec![]);
    let back = SectionConfig {
        sections: vec![
            IndexSection { first_line: 1, last_line: 2 },
            IndexSection { first_line: 0, last_line: 0 },
        ],
    };
    assert_eq!(get_parts(&lens, &back, 60), vec![FilePart { offset: 10, length: 50 }]);
    let passed = SectionConfig {
        sections: vec![
            IndexSection { first_line: 1, last_line: 1 },
            IndexSection { first_line: 0, last_line: 2 },
            IndexSection { first_line: 2, last_line: 2 },
        ],
    };
    assert_eq!(
        get_parts(&lens, &passed, 60),
        vec![
            FilePart { offset: 10, length: 20 },
            FilePart { offset: 10, length: 0 },
            FilePart { offset: 30, length: 30 },
        ]
    );
}

#[test]
fn level_histograms() {
    let mut ids = Vec::new();
    add_for_level(Some(LogLevel::Info), &mut ids, "APP".to_string());
    add_for_level(Some(LogLevel::Info), &mut ids, "APP".to_string());
    add_for_level(None, &mut ids, "APP".to_string());
    add_for_level(Some(LogLevel::Invalid(9)), &mut ids, "OTHER".to_string());
    assert_eq!(ids.len(), 2);
    assert_eq!(ids[0].1.log_info, 2);
    assert_eq!(ids[0].1.non_log, 1);
    assert_eq!(ids[1].1.log_invalid, 1);
    assert_eq!(LevelDistribution::new(Some(LogLevel::Fatal)).log_fatal, 1);
}

#[test]
fn statistics_rows() {
    let mut info = StatisticInfo::new();
    info.add_row(StatisticRowInfo {
        app_id_context_id: Some(("APP".to_string(), "CTX".to_string())),
        ecu_id: None,
        level: Some(LogLevel::Warn),
        verbose: true,
    });
    info.add_row(StatisticRowInfo { app_id_context_id: None, ecu_id: Some("ECU".to_string()), level: None, verbose: false });
    assert!(info.contained_non_verbose);
    let app: Vec<&str> = info.app_ids.iter().map(|x| x.0.as_str()).collect();
    assert_eq!(app, vec!["APP", "NONE"]);
    let ecu: Vec<&str> = info.ecu_ids.iter().map(|x| x.0.as_str()).collect();
    assert_eq!(ecu, vec!["NONE", "ECU"]);
    assert_eq!(info.context_ids[0].1.log_warning, 1);
    assert_eq!(info.context_ids[1].1.non_log, 1);
}

#[test]
fn decode_real_message() {
    let mut content = SAMPLE.to_vec();
    content.extend_from_slice(&SAMPLE);
    let mut p = FileMessageProducer::new(true);
    let (consumed, outcome, msg) = p.decode_next(&content, None);
    assert_eq!(consumed, 47);
    assert_eq!(outcome, Ok(Some(MessageKind::Item)));
    assert!(msg.is_some());
    let (consumed, outcome, msg) = p.decode_next(&[], None);
    assert_eq!((consumed, outcome), (0, Ok(None)));
    assert!(msg.is_none());
}

#[test]
fn decode_garbage_resyncs() {
    let mut content = vec![0xAB; 10];
    content.extend_from_slice(&SAMPLE);
    let mut p = FileMessageProducer::new(true);
    let (consumed, outcome, msg) = p.decode_next(&content, None);
    assert_eq!(consumed, 57);
    assert_eq!(outcome, Ok(Some(MessageKind::Item)));
    assert!(msg.is_some());
}

#[test]
fn message_length_of_storage_messages() {
    let mut content = SAMPLE.to_vec();
    content.extend_from_slice(&SAMPLE);
    assert_eq!(message_length(&content), Some(47));
    assert_eq!(message_length(&SAMPLE), Some(47));
    assert_eq!(message_length(&SAMPLE[1..]), None);
    assert_eq!(message_length(&SAMPLE[..10]), None);
}

#[test]
fn counting_messages() {
    let mut content = SAMPLE.to_vec();
    content.extend_from_slice(&SAMPLE);
    let mut c = MessageCounter::new();
    let mut pos = 0;
    while let Some(n) = c.on_refill(&content[pos..]) {
        pos += n as usize;
    }
    assert_eq!(c.count, 2);
    assert_eq!(pos, 94);
}

#[test]
fn statistics_of_real_message() {
    let mut info = StatisticInfo::new();
    assert_eq!(info.scan_next(&SAMPLE, true), ScanStep::Counted(47));
    assert_eq!(info.scan_next(&[], true), ScanStep::Done);
    assert_eq!(info.app_ids[0].0, "APP");
    assert_eq!(info.context_ids[0].0, "CON");
    assert_eq!(info.ecu_ids[0].0, "ECU");
    assert!(info.contained_non_verbose);
    assert!(stop_check_due(250_000));
    assert!(!stop_check_due(250_001));
}

#[test]
fn appending_run_continues_offsets_and_numbers() {
    let mut ix = DltIndexer::new("A".to_string(), 2, 100, 500, 7);
    let ok: Result<Option<MessageKind>, ProduceError> = Ok(Some(MessageKind::Item));
    assert_eq!(ix.on_produced(10, &ok).0, IndexAction::WriteItem);
    let (l1, c1) = ix.write_item("x");
    assert!(c1.is_none());
    assert_eq!(l1, vec![b'A', 3, b'7', 3, b'x', b'\n']);
    let (l2, c2) = ix.write_item("y");
    assert_eq!(c2, Some(Chunk { r: (7, 8), b: (500, 500 + l1.len() + l2.len()) }));
    let filtered: Result<Option<MessageKind>, ProduceError> = Ok(Some(MessageKind::FilteredOut(2)));
    assert_eq!(ix.on_produced(10, &filtered).0, IndexAction::Skip);
    assert_eq!(ix.skipped, 1);
    assert_eq!(ix.last_chunk(), None);
    assert_eq!(ix.check_output(500 + l1.len() + l2.len()), None);
}

#[test]
fn garbled_message_leaves_others_unchanged() {
    let clean: Vec<DecodeResult> = (0..6).map(|_| item(50)).collect();
    let mut garbled: Vec<DecodeResult> = (0..3).map(|_| item(50)).collect();
    for _ in 0..12 {
        garbled.push(DecodeResult::ParsingHickup("noise".to_string()));
    }
    garbled.extend((0..3).map(|_| item(50)));
    let (out_a, chunks_a, _, _) = run(clean, 4, false);
    let (out_b, chunks_b, _, _) = run(garbled, 4, false);
    assert_eq!(out_a, out_b);
    assert_eq!(chunks_a, chunks_b);
}

#[test]
fn short_payload_is_skipped_not_decoded() {
    let mut content = SAMPLE[..16].to_vec();
    content.extend_from_slice(&[0x00, 0x00, 0x00, 0x04]);
    content.extend_from_slice(&[0x11; 12]);
    let mut p = FileMessageProducer::new(true);
    let (consumed, outcome, msg) = p.decode_next(&content, None);
    assert_eq!(consumed, DLT_PATTERN_SIZE);
    assert!(matches!(outcome, Err(ProduceError::ParsingHickup(_))));
    assert!(msg.is_none());
    assert_eq!(p.stats.no_parse, 1);
    assert_eq!(p.stats.parsed, 0);
}

#[test]
fn decoder_stats_follow_outcomes() {
    let mut p = FileMessageProducer::new(true);
    let _ = p.decode_next(&SAMPLE, None);
    assert_eq!((p.stats.parsed, p.stats.no_parse), (1, 0));
    let _ = p.decode_next(&[], None);
    assert_eq!((p.stats.parsed, p.stats.no_parse), (1, 0));
}
