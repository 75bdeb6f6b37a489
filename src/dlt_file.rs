//! The decisions of the DLT message producer and indexer.
//!
//! Reading the file, decoding messages and writing the output are done by the
//! caller; these functions take their results as plain values.
use vstd::prelude::*;
use vstd::string::StringSliceAdditionalSpecFns;
use crate::chunks::{Chunk, ChunkFactory};
use crate::progress::{Notification, ProgressReporter, Severity};
use crate::dlt_decoder::{consume_len_of, decoded_of, decoder_safe, dlt_consume_msg, dlt_message, is_decode_error, is_decoder_safe};
use dlt_core::dlt::Message;
use dlt_core::filtering::ProcessedDltFilterConfig;
use dlt_core::parse::ParsedMessage;

verus! {

/// Bytes skipped after a garbled message: the length of the DLT pattern.
pub const DLT_PATTERN_SIZE: usize = 4;

/// Messages between two checks for cancellation in the statistics scan.
pub const STOP_CHECK_LINE_THRESHOLD: usize = 250000;

/// Capacity of the reader that feeds the DLT producer.
pub const DLT_READER_CAPACITY: usize = 10485760;

/// Minimum number of bytes each refill of that reader holds before end of file.
pub const DLT_MIN_BUFFER_SPACE: usize = 10240;

/// Separates the tag, the line number and the message of an output line.
pub const PLUGIN_ID_SENTINEL: u8 = 3;

/// What the DLT decoder made of the bytes at the head of the reader.
#[derive(Debug, Clone, PartialEq, Eq)]
pub enum DecodeResult {
    /// A message was recognised; `rest_len` bytes of the refill follow it.
    Parsed { rest_len: usize, kind: MessageKind },
    /// The refill ended in the middle of a message.
    IncompleteParse,
    /// The message was garbled; scanning can go on after the DLT pattern.
    ParsingHickup(String),
    /// Scanning cannot go on.
    Unrecoverable(String),
    /// Reading the next refill failed.
    ReadFailed(String),
}

/// A recognised message: to be shown, filtered out, or invalid.
#[derive(Debug, Clone, Copy, PartialEq, Eq)]
pub enum MessageKind {
    Item,
    FilteredOut(usize),
    Invalid,
}

/// An error of the producer.
#[derive(Debug, Clone, PartialEq, Eq)]
pub enum ProduceError {
    ParsingHickup(String),
    Unrecoverable(String),
}

/// How many messages were decoded and how many were not.
#[derive(Debug, Clone, Copy, PartialEq, Eq)]
pub struct MessageStats {
    pub parsed: usize,
    pub no_parse: usize,
}

/// The producer's state across the messages of one file.
#[derive(Debug, Clone, Copy, PartialEq, Eq)]
pub struct FileMessageProducer {
    pub stats: MessageStats,
    pub with_storage_header: bool,
}

/// What `produce_next_message` returns for a refill of `available` bytes and
/// the decoder's result on it: the bytes to consume and the outcome. An
/// incomplete parse is unrecoverable, with a message of its own.
pub open spec fn produced(available: int, d: DecodeResult, r: (usize, Result<Option<MessageKind>, ProduceError>)) -> bool {
    if available == 0 {
        r == (0usize, Ok::<Option<MessageKind>, ProduceError>(None))
    } else {
        match d {
            DecodeResult::Parsed { rest_len, kind } => r.0 == available - rest_len && r.1 == Ok::<Option<MessageKind>, ProduceError>(Some(kind)),
            DecodeResult::ParsingHickup(m) => r.0 == DLT_PATTERN_SIZE && r.1 == Err::<Option<MessageKind>, ProduceError>(ProduceError::ParsingHickup(m)),
            DecodeResult::IncompleteParse => r.0 == 0 && r.1 matches Err(ProduceError::Unrecoverable(_)),
            DecodeResult::Unrecoverable(m) => r.0 == 0 && r.1 == Err::<Option<MessageKind>, ProduceError>(ProduceError::Unrecoverable(m)),
            DecodeResult::ReadFailed(m) => r.0 == 0 && r.1 == Err::<Option<MessageKind>, ProduceError>(ProduceError::Unrecoverable(m)),
        }
    }
}

/// The bytes the producer consumes for a refill, and its outcome but for the
/// text of an incomplete parse, are fixed by the refill's length and the
/// decoder's result on it: the messages before it play no part. A garbled
/// message costs the bytes of the DLT pattern.
pub proof fn lemma_produced_deterministic(
    available: int,
    d: DecodeResult,
    r1: (usize, Result<Option<MessageKind>, ProduceError>),
    r2: (usize, Result<Option<MessageKind>, ProduceError>),
)
    requires
        produced(available, d, r1),
        produced(available, d, r2),
    ensures
        r1.0 == r2.0,
        !(d matches DecodeResult::IncompleteParse) ==> r1.1 == r2.1,
        (available > 0 && (d matches DecodeResult::ParsingHickup(_))) ==> r1.0 == DLT_PATTERN_SIZE,
{
}

/// The producer's counters after a refill of `available` bytes on which the
/// decoder gave `d`: a decoded message counts as parsed, a decoder error as
/// not parsed; the end of input and a failed read count as neither.
pub open spec fn stats_after(s: MessageStats, available: int, d: DecodeResult) -> MessageStats {
    if available == 0 {
        s
    } else {
        match d {
            DecodeResult::Parsed { .. } => MessageStats { parsed: (s.parsed + 1) as usize, ..s },
            DecodeResult::ReadFailed(_) => s,
            _ => MessageStats { no_parse: (s.no_parse + 1) as usize, ..s },
        }
    }
}

/// The decoder's named outcome as a `DecodeResult`.
pub open spec fn decode_result_of(x: Result<(usize, MessageKind), DecodeResult>) -> DecodeResult {
    match x {
        Ok((rest_len, kind)) => DecodeResult::Parsed { rest_len, kind },
        Err(e) => e,
    }
}

impl FileMessageProducer {
    pub fn new(with_storage_header: bool) -> (r: Self)
        ensures
            r.stats == (MessageStats { parsed: 0, no_parse: 0 }),
            r.with_storage_header == with_storage_header,
    {
        FileMessageProducer { stats: MessageStats { parsed: 0, no_parse: 0 }, with_storage_header }
    }

    /// Classifies the decoder's result on a refill of `available` bytes
    /// (0 at end of file). The caller consumes exactly the returned count.
    pub fn produce_next_message(&mut self, available: usize, decoded: DecodeResult) -> (r: (usize, Result<Option<MessageKind>, ProduceError>))
        requires
            decoded matches DecodeResult::Parsed { rest_len, .. } ==> rest_len <= available,
            old(self).stats.parsed < usize::MAX,
            old(self).stats.no_parse < usize::MAX,
        ensures
            produced(available as int, decoded, r),
            final(self).stats == stats_after(old(self).stats, available as int, decoded),
            final(self).with_storage_header == old(self).with_storage_header,
    {
        if available == 0 {
            return (0, Ok(None));
        }
        match decoded {
            DecodeResult::Parsed { rest_len, kind } => {
                self.stats.parsed = self.stats.parsed + 1;
                (available - rest_len, Ok(Some(kind)))
            },
            DecodeResult::ParsingHickup(m) => {
                self.stats.no_parse = self.stats.no_parse + 1;
                (DLT_PATTERN_SIZE, Err(ProduceError::ParsingHickup(m)))
            },
            DecodeResult::IncompleteParse => {
                self.stats.no_parse = self.stats.no_parse + 1;
                (0, Err(ProduceError::Unrecoverable("incomplete parsing error for dlt messages".to_owned())))
            },
            DecodeResult::Unrecoverable(m) => {
                self.stats.no_parse = self.stats.no_parse + 1;
                (0, Err(ProduceError::Unrecoverable(m)))
            },
            DecodeResult::ReadFailed(m) => (0, Err(ProduceError::Unrecoverable(m))),
        }
    }
}

/// The kind of a decoded message, and the message when it is to be shown.
pub fn split_parsed(p: ParsedMessage) -> (r: (MessageKind, Option<Message>))
    ensures
        match p {
            ParsedMessage::Item(m) => r == (MessageKind::Item, Some(m)),
            ParsedMessage::FilteredOut(n) => r == (MessageKind::FilteredOut(n), None::<Message>),
            ParsedMessage::Invalid => r == (MessageKind::Invalid, None::<Message>),
        },
{
    match p {
        ParsedMessage::Item(m) => (MessageKind::Item, Some(m)),
        ParsedMessage::FilteredOut(n) => (MessageKind::FilteredOut(n), None),
        ParsedMessage::Invalid => (MessageKind::Invalid, None),
    }
}

impl FileMessageProducer {
    /// Decodes the message at the head of the refill `content` (empty at end
    /// of file) and classifies it as `produce_next_message` does; also hands
    /// out the message when it is to be shown. A message whose payload is too
    /// short for a message id is not handed to the decoder: it is a garbled
    /// message, skipped like one.
    pub fn decode_next(&mut self, content: &[u8], filter: Option<&ProcessedDltFilterConfig>) -> (r: (usize, Result<Option<MessageKind>, ProduceError>, Option<Message>))
        requires
            old(self).stats.parsed < usize::MAX,
            old(self).stats.no_parse < usize::MAX,
        ensures
            content@.len() == 0 ==> r.0 == 0 && r.1 == Ok::<Option<MessageKind>, ProduceError>(None) && r.2.is_none()
                && final(self).stats == old(self).stats,
            (content@.len() > 0 && !decoder_safe(content@, old(self).with_storage_header)) ==> {
                &&& r.0 == DLT_PATTERN_SIZE
                &&& r.1 matches Err(ProduceError::ParsingHickup(_))
                &&& r.2.is_none()
                &&& final(self).stats == (MessageStats { no_parse: (old(self).stats.no_parse + 1) as usize, ..old(self).stats })
            },
            (content@.len() > 0 && decoder_safe(content@, old(self).with_storage_header) && filter.is_none()) ==> {
                let d = decode_result_of(decoded_of(content@, old(self).with_storage_header));
                &&& produced(content@.len() as int, d, (r.0, r.1))
                &&& final(self).stats == stats_after(old(self).stats, content@.len() as int, d)
            },
            exists|d: DecodeResult| produced(content@.len() as int, d, (r.0, r.1)) && (d matches DecodeResult::Parsed { rest_len, .. } ==> rest_len <= content@.len()),
            r.2.is_some() ==> r.1 == Ok::<Option<MessageKind>, ProduceError>(Some(MessageKind::Item)),
            r.0 <= content@.len() || r.0 == DLT_PATTERN_SIZE,
            final(self).with_storage_header == old(self).with_storage_header,
    {
        let len = content.len();
        if len == 0 {
            let r = self.produce_next_message(0, DecodeResult::IncompleteParse);
            return (r.0, r.1, None);
        }
        let (decoded, msg) = if !is_decoder_safe(content, self.with_storage_header) {
            (DecodeResult::ParsingHickup("payload too short for a message id".to_owned()), None)
        } else {
            match dlt_message(content, filter, self.with_storage_header) {
                Ok((rest_len, p)) => {
                    let (kind, msg) = split_parsed(p);
                    (DecodeResult::Parsed { rest_len, kind }, msg)
                },
                Err(e) => (e, None),
            }
        };
        let ghost d = decoded;
        let (consumed, outcome) = self.produce_next_message(len, decoded);
        assert(produced(len as int, d, (consumed, outcome)));
        (consumed, outcome, msg)
    }
}

/// Counts the messages of a file from its successive refills.
#[derive(Debug, Clone, Copy, PartialEq, Eq)]
pub struct MessageCounter {
    pub count: u64,
}

impl MessageCounter {
    pub fn new() -> (r: Self)
        ensures
            r.count == 0,
    {
        MessageCounter { count: 0 }
    }

    /// Takes one refill; returns the size of the whole message at its head,
    /// which is counted, or `None` when there is none (end of the count).
    pub fn on_refill(&mut self, content: &[u8]) -> (consumed: Option<u64>)
        requires
            old(self).count < u64::MAX,
        ensures
            consumed == match consume_len_of(content@) { Some(n) => Some(n as u64), None => None::<u64> },
            final(self).count == old(self).count + if consumed.is_some() { 1int } else { 0int },
    {
        let c = dlt_consume_msg(content);
        if c.is_some() {
            self.count = self.count + 1;
        }
        c
    }
}

/// Decimal ASCII digits of `n`, most significant first.
pub open spec fn decimal(n: nat) -> Seq<u8>
    decreases n,
{
    if n < 10 {
        seq![(48 + n) as u8]
    } else {
        decimal(n / 10).push((48 + n % 10) as u8)
    }
}

/// The output line `<tag> SEP <line_nr> SEP <message> \n`.
pub open spec fn tagged(tag: Seq<u8>, line_nr: nat, msg: Seq<u8>) -> Seq<u8> {
    tag + seq![PLUGIN_ID_SENTINEL] + decimal(line_nr) + seq![PLUGIN_ID_SENTINEL] + msg + seq![10u8]
}

fn push_decimal(out: &mut Vec<u8>, n: usize)
    ensures
        final(out)@ == old(out)@ + decimal(n as nat),
    decreases n,
{
    if n >= 10 {
        push_decimal(out, n / 10);
    }
    let d: u8 = (n % 10) as u8;
    out.push(48 + d);
    proof {
        if n < 10 {
            assert(decimal(n as nat) =~= seq![(48 + n) as u8]);
        }
    }
    assert(final(out)@ =~= old(out)@ + decimal(n as nat));
}

fn push_bytes(out: &mut Vec<u8>, b: &[u8])
    ensures
        final(out)@ == old(out)@ + b@,
{
    let mut i: usize = 0;
    while i < b.len()
        invariant
            i <= b@.len(),
            out@ == old(out)@ + b@.subrange(0, i as int),
        decreases b@.len() - i,
    {
        out.push(b[i]);
        i = i + 1;
        assert(out@ =~= old(out)@ + b@.subrange(0, i as int));
    }
    assert(b@.subrange(0, b@.len() as int) =~= b@);
}

/// The bytes of the output line for message `formatted` as line `line_nr`.
pub fn tagged_line(tag: &str, line_nr: usize, formatted: &str) -> (line: Vec<u8>)
    ensures
        line@ == tagged(tag.spec_bytes(), line_nr as nat, formatted.spec_bytes()),
{
    let mut out: Vec<u8> = Vec::new();
    push_bytes(&mut out, tag.as_bytes());
    out.push(PLUGIN_ID_SENTINEL);
    push_decimal(&mut out, line_nr);
    out.push(PLUGIN_ID_SENTINEL);
    push_bytes(&mut out, formatted.as_bytes());
    out.push(10);
    assert(out@ =~= tagged(tag.spec_bytes(), line_nr as nat, formatted.spec_bytes()));
    out
}

/// What the indexing loop does with the producer's outcome.
#[derive(Debug, Clone, PartialEq, Eq)]
pub enum IndexAction {
    /// End of input: stop reading.
    Stop,
    /// A message to format and hand to `write_item`.
    WriteItem,
    /// Nothing to write; read on.
    Skip,
    /// Report this error and stop reading.
    Fail(Notification),
}

/// The state of one DLT indexing run.
#[derive(Debug, Clone, PartialEq, Eq)]
pub struct DltIndexer {
    pub tag: String,
    pub chunk_factory: ChunkFactory,
    pub progress: ProgressReporter,
    /// Number of the next output line.
    pub line_nr: usize,
    /// Size of the output file with everything written so far.
    pub bytes_written: usize,
    pub chunk_count: usize,
    pub last_byte_index: usize,
    pub stopped: bool,
    pub skipped: usize,
}

impl DltIndexer {
    /// The pending chunk ends where the output ends.
    pub open spec fn wf(&self) -> bool {
        &&& self.chunk_factory.lines_in_chunk <= self.line_nr
        &&& self.chunk_factory.current_byte_index + self.chunk_factory.bytes_in_chunk == self.bytes_written
        &&& self.chunk_count > 0 ==> self.last_byte_index == self.chunk_factory.current_byte_index
    }

    /// A run that writes to an output of `out_size` bytes whose next line is
    /// `first_line_nr` (both 0 unless appending).
    pub fn new(tag: String, chunk_size: usize, source_file_size: u64, out_size: usize, first_line_nr: usize) -> (r: Self)
        ensures
            r.wf(),
            r.tag == tag,
            r.chunk_factory == ChunkFactory::new_spec(chunk_size, out_size),
            r.progress.source_file_size == source_file_size,
            r.progress.processed_bytes == 0,
            r.line_nr == first_line_nr,
            r.bytes_written == out_size,
            r.chunk_count == 0,
            r.last_byte_index == 0,
            r.skipped == 0,
            r.progress == ProgressReporter::new_spec(source_file_size),
            !r.stopped,
    {
        DltIndexer {
            tag,
            chunk_factory: ChunkFactory::new(chunk_size, out_size),
            progress: ProgressReporter::new(source_file_size),
            line_nr: first_line_nr,
            bytes_written: out_size,
            chunk_count: 0,
            last_byte_index: 0,
            stopped: false,
            skipped: 0,
        }
    }

    /// Decides on the producer's outcome after `consumed` bytes; also returns
    /// the progress ticks to report, if any.
    pub fn on_produced(&mut self, consumed: usize, outcome: &Result<Option<MessageKind>, ProduceError>) -> (r: (IndexAction, Option<(u64, u64)>))
        requires
            old(self).progress.processed_bytes + consumed <= u64::MAX,
            old(self).skipped < usize::MAX,
        ensures
            final(self).wf() == old(self).wf(),
            final(self).line_nr == old(self).line_nr,
            final(self).chunk_factory == old(self).chunk_factory,
            final(self).bytes_written == old(self).bytes_written,
            final(self).chunk_count == old(self).chunk_count,
            final(self).tag == old(self).tag,
            (consumed == 0 || (outcome matches Err(ProduceError::Unrecoverable(_)))) ==> r.1.is_none() && final(self).progress == old(self).progress,
            (consumed > 0 && !(outcome matches Err(ProduceError::Unrecoverable(_)))) ==> final(self).progress.processed_bytes == old(self).progress.processed_bytes + consumed,
            r.0 == match outcome {
                Ok(Some(MessageKind::Item)) => if consumed == 0 { IndexAction::Stop } else { IndexAction::WriteItem },
                Ok(Some(_)) => if consumed == 0 { IndexAction::Stop } else { IndexAction::Skip },
                Ok(None) => IndexAction::Stop,
                Err(ProduceError::ParsingHickup(_)) => if consumed == 0 { IndexAction::Stop } else { IndexAction::Skip },
                Err(ProduceError::Unrecoverable(m)) => IndexAction::Fail(Notification { severity: Severity::ERROR, content: *m, line: None }),
            },
    {
        if let Err(ProduceError::Unrecoverable(m)) = outcome {
            let n = Notification { severity: Severity::ERROR, content: m.clone(), line: None };
            return (IndexAction::Fail(n), None);
        }
        if consumed == 0 {
            return (IndexAction::Stop, None);
        }
        let ticks = self.progress.make_progress(consumed as u64);
        let action = match outcome {
            Ok(Some(MessageKind::Item)) => IndexAction::WriteItem,
            Ok(Some(MessageKind::FilteredOut(_))) => {
                self.skipped = self.skipped + 1;
                IndexAction::Skip
            },
            Ok(Some(MessageKind::Invalid)) => IndexAction::Skip,
            Ok(None) => IndexAction::Stop,
            Err(_) => IndexAction::Skip,
        };
        (action, ticks)
    }

    /// Builds the output line of the next message and records it; returns the
    /// line to write and the chunk that it closed, if any.
    pub fn write_item(&mut self, formatted: &str) -> (r: (Vec<u8>, Option<Chunk>))
        requires
            old(self).wf(),
            old(self).line_nr < usize::MAX,
            old(self).chunk_count < usize::MAX,
            old(self).bytes_written + tagged(vstd::utf8::encode_utf8(old(self).tag@), old(self).line_nr as nat, formatted.spec_bytes()).len() <= usize::MAX,
        ensures
            final(self).wf(),
            r.0@ == tagged(vstd::utf8::encode_utf8(old(self).tag@), old(self).line_nr as nat, formatted.spec_bytes()),
            final(self).line_nr == old(self).line_nr + 1,
            final(self).bytes_written == old(self).bytes_written + r.0@.len(),
            final(self).tag == old(self).tag,
            old(self).chunk_factory.lines_in_chunk + 1 >= old(self).chunk_factory.chunk_size ==> {
                &&& r.1 == Some(Chunk {
                    r: ((old(self).line_nr - old(self).chunk_factory.lines_in_chunk) as usize, old(self).line_nr),
                    b: (old(self).chunk_factory.current_byte_index, final(self).bytes_written),
                })
                &&& final(self).chunk_factory.current_byte_index == final(self).bytes_written
                &&& final(self).chunk_factory.lines_in_chunk == 0
                &&& final(self).chunk_count == old(self).chunk_count + 1
            },
            old(self).chunk_factory.lines_in_chunk + 1 < old(self).chunk_factory.chunk_size ==> {
                &&& r.1.is_none()
                &&& final(self).chunk_factory.current_byte_index == old(self).chunk_factory.current_byte_index
                &&& final(self).chunk_factory.lines_in_chunk == old(self).chunk_factory.lines_in_chunk + 1
                &&& final(self).chunk_count == old(self).chunk_count
            },
    {
        let line = tagged_line(self.tag.as_str(), self.line_nr, formatted);
        let len = line.len();
        self.line_nr = self.line_nr + 1;
        self.bytes_written = self.bytes_written + len;
        let chunk = self.chunk_factory.add_bytes(self.line_nr, len);
        if let Some(c) = chunk {
            self.chunk_count = self.chunk_count + 1;
            self.last_byte_index = c.b.1;
        }
        (line, chunk)
    }

    /// Records whether cancellation was requested at a chunk boundary.
    pub fn set_stopped(&mut self, requested: bool)
        ensures
            final(self).stopped == (old(self).stopped || requested),
            final(self).wf() == old(self).wf(),
            final(self).line_nr == old(self).line_nr,
            final(self).bytes_written == old(self).bytes_written,
            final(self).chunk_factory == old(self).chunk_factory,
            final(self).chunk_count == old(self).chunk_count,
            final(self).tag == old(self).tag,
    {
        self.stopped = self.stopped || requested;
    }

    /// The last chunk of the run: the lines not yet in a chunk, or an empty
    /// chunk when the run emitted none.
    pub fn last_chunk(&mut self) -> (c: Option<Chunk>)
        requires
            old(self).wf(),
            old(self).chunk_count < usize::MAX,
        ensures
            final(self).wf(),
            final(self).bytes_written == old(self).bytes_written,
            final(self).line_nr == old(self).line_nr,
            old(self).chunk_factory.lines_in_chunk > 0 || old(self).chunk_count == 0 ==> {
                &&& c == Some(Chunk {
                    r: ((old(self).line_nr - old(self).chunk_factory.lines_in_chunk) as usize,
                        if old(self).line_nr == 0 { 0usize } else { (old(self).line_nr - 1) as usize }),
                    b: (old(self).chunk_factory.current_byte_index, old(self).bytes_written),
                })
                &&& final(self).chunk_count == old(self).chunk_count + 1
                &&& final(self).last_byte_index == old(self).bytes_written
            },
            !(old(self).chunk_factory.lines_in_chunk > 0 || old(self).chunk_count == 0) ==> c.is_none() && *final(self) == *old(self),
    {
        let c = self.chunk_factory.create_last_chunk(self.line_nr, self.chunk_count == 0);
        if let Some(chunk) = c {
            self.chunk_count = self.chunk_count + 1;
            self.last_byte_index = chunk.b.1;
        }
        c
    }

    /// The error to report when the chunks do not end where the output file
    /// of `out_len` bytes ends.
    pub fn check_output(&self, out_len: usize) -> (n: Option<Notification>)
        ensures
            n.is_some() <==> self.chunk_count > 0 && out_len != self.last_byte_index,
            n matches Some(x) ==> x.severity == Severity::ERROR && x.line == Some(self.line_nr),
    {
        if self.chunk_count > 0 && out_len != self.last_byte_index {
            Some(Notification {
                severity: Severity::ERROR,
                content: "error in computation! last byte in chunks does not match the output size".to_owned(),
                line: Some(self.line_nr),
            })
        } else {
            None
        }
    }
}

/// Chunks tile the output: once the last chunk is taken, the chunks end
/// exactly where the output ends, and no line is left outside a chunk.
pub proof fn lemma_last_chunk_ends_output(ix: DltIndexer)
    requires
        ix.wf(),
        ix.chunk_count > 0,
        ix.chunk_factory.lines_in_chunk == 0,
        ix.chunk_factory.bytes_in_chunk == 0,
    ensures
        ix.last_byte_index == ix.bytes_written,
{
}

} // verus!
