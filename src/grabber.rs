//! The slot map of a file and the lookup of line ranges in it.
use vstd::prelude::*;
use crate::range::{ByteRange, LineRange};

verus! {

pub const NEWLINE: u8 = 10;

/// Why a grab failed.
#[derive(Debug, Clone, PartialEq, Eq)]
pub enum GrabError {
    Config(String),
    Communication(String),
    IoOperation(String),
    InvalidRange { range: LineRange, context: String },
    Interrupted,
    NotInitialize,
}

/// One line of grabbed content.
#[derive(Debug, Clone, PartialEq, Eq)]
pub struct GrabbedElement {
    pub source_id: String,
    pub content: String,
    pub row: Option<usize>,
    pub pos: Option<usize>,
}

/// The result of a grab: one element per requested line.
#[derive(Debug, Clone, PartialEq, Eq)]
pub struct GrabbedContent {
    pub grabbed_elements: Vec<GrabbedElement>,
}

/// One unit of the index: a byte range and the lines that it holds.
#[derive(Debug, Clone, Copy, PartialEq, Eq)]
pub struct Slot {
    pub bytes: ByteRange,
    pub lines: LineRange,
}

impl Slot {
    pub fn byte_count(&self) -> (n: u64)
        requires
            self.bytes.spec_size() <= u64::MAX,
        ensures
            n == self.bytes.spec_size(),
    {
        self.bytes.size()
    }

    pub fn line_count(&self) -> (n: u64)
        requires
            self.lines.spec_size() <= u64::MAX,
        ensures
            n == self.lines.spec_size(),
    {
        self.lines.size()
    }
}

/// The slots of one file tile its bytes and its lines from 0 on, each slot
/// holding at least one byte and one line.
pub open spec fn slots_tile(slots: Seq<Slot>) -> bool {
    &&& forall|i: int| 0 <= i < slots.len() ==> {
        &&& (#[trigger] slots[i]).lines.start <= slots[i].lines.end
        &&& slots[i].bytes.start <= slots[i].bytes.end
        &&& slots[i].lines.end < u64::MAX
        &&& slots[i].bytes.end < u64::MAX
    }
    &&& slots.len() > 0 ==> slots[0].lines.start == 0 && slots[0].bytes.start == 0
    &&& forall|i: int| 0 <= i < slots.len() - 1 ==> {
        &&& (#[trigger] slots[i + 1]).lines.start == slots[i].lines.end + 1
        &&& slots[i + 1].bytes.start == slots[i].bytes.end + 1
    }
}

/// Lines covered by the first `n` slots.
pub open spec fn lines_in(slots: Seq<Slot>, n: int) -> int
    decreases n,
{
    if n <= 0 { 0 } else { lines_in(slots, n - 1) + slots[n - 1].lines.spec_size() }
}

/// Bytes covered by the first `n` slots.
pub open spec fn bytes_in(slots: Seq<Slot>, n: int) -> int
    decreases n,
{
    if n <= 0 { 0 } else { bytes_in(slots, n - 1) + slots[n - 1].bytes.spec_size() }
}

/// Appending a slot keeps the totals of the slots before it.
pub proof fn lemma_totals_prefix(s: Seq<Slot>, x: Slot, n: int)
    requires
        0 <= n <= s.len(),
    ensures
        lines_in(s.push(x), n) == lines_in(s, n),
        bytes_in(s.push(x), n) == bytes_in(s, n),
    decreases n,
{
    if n > 0 {
        lemma_totals_prefix(s, x, n - 1);
        assert(s.push(x)[n - 1] == s[n - 1]);
    }
}

/// Appending a slot adds its lines and bytes to the totals.
pub proof fn lemma_totals_push(s: Seq<Slot>, x: Slot)
    ensures
        lines_in(s.push(x), s.len() as int + 1) == lines_in(s, s.len() as int) + x.lines.spec_size(),
        bytes_in(s.push(x), s.len() as int + 1) == bytes_in(s, s.len() as int) + x.bytes.spec_size(),
{
    lemma_totals_prefix(s, x, s.len() as int);
    assert(s.push(x)[s.len() as int] == x);
}

/// The index of a file: its slots and how many lines it has.
#[derive(Debug, Clone, PartialEq, Eq)]
pub struct GrabMetadata {
    pub slots: Vec<Slot>,
    pub line_count: usize,
}

impl GrabMetadata {
    /// The slots tile the file and the line count is the sum of their lines,
    /// which is one past the last slot's last line.
    pub open spec fn wf(&self) -> bool {
        &&& slots_tile(self.slots@)
        &&& self.line_count == lines_in(self.slots@, self.slots@.len() as int)
        &&& self.slots@.len() > 0 ==> self.line_count == self.slots@.last().lines.end + 1
    }
}

/// The byte region that holds a line range, and how to trim its lines.
#[derive(Debug, Clone, Copy, PartialEq, Eq)]
pub struct FilePart {
    pub offset_in_file: u64,
    pub length: usize,
    pub total_lines: usize,
    pub lines_to_skip: usize,
    pub lines_to_drop: usize,
}

/// Index of the first slot that holds `line_index`, with the slot.
pub fn identify_start_slot_simple(slots: &[Slot], line_index: u64) -> (r: Option<(Slot, usize)>)
    ensures
        match r {
            Some((s, i)) => {
                &&& i < slots@.len()
                &&& s == slots@[i as int]
                &&& s.lines.contains(line_index as int)
                &&& forall|j: int| 0 <= j < i ==> !(#[trigger] slots@[j]).lines.contains(line_index as int)
            },
            None => forall|j: int| 0 <= j < slots@.len() ==> !(#[trigger] slots@[j]).lines.contains(line_index as int),
        },
{
    let mut i: usize = 0;
    while i < slots.len()
        invariant
            i <= slots@.len(),
            forall|j: int| 0 <= j < i ==> !(#[trigger] slots@[j]).lines.contains(line_index as int),
        decreases slots@.len() - i,
    {
        if slots[i].lines.contains_index(line_index) {
            return Some((slots[i], i));
        }
        i = i + 1;
    }
    None
}

/// Index of the last slot that holds `line_index`, with the slot.
pub fn identify_end_slot_simple(slots: &[Slot], line_index: u64) -> (r: Option<(Slot, usize)>)
    ensures
        match r {
            Some((s, i)) => {
                &&& i < slots@.len()
                &&& s == slots@[i as int]
                &&& s.lines.contains(line_index as int)
                &&& forall|j: int| i < j < slots@.len() ==> !(#[trigger] slots@[j]).lines.contains(line_index as int)
            },
            None => forall|j: int| 0 <= j < slots@.len() ==> !(#[trigger] slots@[j]).lines.contains(line_index as int),
        },
{
    let mut i: usize = slots.len();
    while i > 0
        invariant
            i <= slots@.len(),
            forall|j: int| i <= j < slots@.len() ==> !(#[trigger] slots@[j]).lines.contains(line_index as int),
        decreases i,
    {
        i = i - 1;
        if slots[i].lines.contains_index(line_index) {
            return Some((slots[i], i));
        }
    }
    None
}

/// In tiled slots, a slot that holds `line` lies before every later slot's lines.
pub proof fn lemma_tile_order(slots: Seq<Slot>, i: int, j: int)
    requires
        slots_tile(slots),
        0 <= i < j < slots.len(),
    ensures
        slots[i].lines.end < slots[j].lines.start,
        slots[i].bytes.end < slots[j].bytes.start,
    decreases j - i,
{
    let k = j - 1;
    assert(slots[k + 1].lines.start == slots[k].lines.end + 1);
    assert(slots[k].lines.start <= slots[k].lines.end);
    if k > i {
        lemma_tile_order(slots, i, k);
    }
}

/// Binary search for the slot that holds `line_index` in tiled slots.
pub fn identify_start_slot(slots: &[Slot], line_index: u64) -> (r: Option<(Slot, usize)>)
    requires
        slots_tile(slots@),
    ensures
        match r {
            Some((s, i)) => {
                &&& i < slots@.len()
                &&& s == slots@[i as int]
                &&& s.lines.contains(line_index as int)
            },
            None => forall|j: int| 0 <= j < slots@.len() ==> !(#[trigger] slots@[j]).lines.contains(line_index as int),
        },
{
    if slots.len() == 0 {
        return None;
    }
    let mut lo: usize = 0;
    let mut hi: usize = slots.len();
    while lo < hi
        invariant
            0 <= lo <= hi <= slots@.len(),
            slots_tile(slots@),
            forall|j: int| 0 <= j < lo ==> !(#[trigger] slots@[j]).lines.contains(line_index as int),
            forall|j: int| hi <= j < slots@.len() ==> !(#[trigger] slots@[j]).lines.contains(line_index as int),
        decreases hi - lo,
    {
        let mid = lo + (hi - lo) / 2;
        let slot = slots[mid];
        if slot.lines.contains_index(line_index) {
            return Some((slot, mid));
        }
        if line_index < slot.lines.start {
            assert forall|j: int| mid <= j < slots@.len() implies !(#[trigger] slots@[j]).lines.contains(line_index as int) by {
                if j > mid {
                    lemma_tile_order(slots@, mid as int, j);
                }
            }
            hi = mid;
        } else {
            assert forall|j: int| 0 <= j <= mid implies !(#[trigger] slots@[j]).lines.contains(line_index as int) by {
                if j < mid {
                    lemma_tile_order(slots@, j, mid as int);
                }
            }
            lo = mid + 1;
        }
    }
    None
}

/// The `FilePart` that spans slot `i` to slot `j` for the lines `[a, b]`.
pub open spec fn part_of(slots: Seq<Slot>, i: int, j: int, a: int, b: int) -> FilePart {
    FilePart {
        offset_in_file: slots[i].bytes.start,
        length: (slots[j].bytes.end - slots[i].bytes.start + 1) as usize,
        total_lines: (slots[j].lines.end - slots[i].lines.start + 1) as usize,
        lines_to_skip: (a - slots[i].lines.start) as usize,
        lines_to_drop: (slots[j].lines.end - b) as usize,
    }
}

/// Whether some slot holds line `l`.
pub open spec fn covered(slots: Seq<Slot>, l: int) -> bool {
    exists|i: int| 0 <= i < slots.len() && (#[trigger] slots[i]).lines.contains(l)
}

/// Resolves the line range to the byte region of the slots that touch it.
/// It is `None` when the range is empty or a bound of it lies in no slot.
pub fn identify_byte_range(slots: &[Slot], lines: &LineRange) -> (r: Option<FilePart>)
    requires
        slots_tile(slots@),
    ensures
        r.is_some() <==> !lines.spec_is_empty() && covered(slots@, lines.start as int) && covered(slots@, lines.end as int),
        r.is_some() ==> exists|i: int, j: int|
            0 <= i <= j < slots@.len()
            && (#[trigger] slots@[i]).lines.contains(lines.start as int)
            && (#[trigger] slots@[j]).lines.contains(lines.end as int)
            && r == Some(part_of(slots@, i, j, lines.start as int, lines.end as int)),
{
    if lines.is_empty() {
        return None;
    }
    let start_line_index = lines.start();
    let last_line_index = lines.end();
    let maybe_start = identify_start_slot_simple(slots, start_line_index);
    let maybe_end = identify_end_slot_simple(slots, last_line_index);
    match (maybe_start, maybe_end) {
        (Some((start_slot, i)), Some((end_slot, j))) => {
            proof {
                if j < i {
                    lemma_tile_order(slots@, j as int, i as int);
                }
                if i < j {
                    lemma_tile_order(slots@, i as int, j as int);
                }
                assert(slots@[j as int].bytes.start <= slots@[j as int].bytes.end);
            }
            let lines_to_skip = start_line_index - start_slot.lines.start;
            let lines_to_drop = end_slot.lines.end - last_line_index;
            let total_lines = end_slot.lines.end - start_slot.lines.start + 1;
            let length = end_slot.bytes.end - start_slot.bytes.start + 1;
            Some(FilePart {
                offset_in_file: start_slot.bytes.start,
                length: length as usize,
                total_lines: total_lines as usize,
                lines_to_skip: lines_to_skip as usize,
                lines_to_drop: lines_to_drop as usize,
            })
        },
        _ => None,
    }
}

/// The pieces of `s` between newlines: one more than it has newlines.
pub open spec fn split_nl(s: Seq<u8>) -> Seq<Seq<u8>>
    decreases s.len(),
{
    if s.len() == 0 {
        seq![Seq::empty()]
    } else {
        let p = split_nl(s.drop_last());
        if s.last() == NEWLINE {
            p.push(Seq::empty())
        } else {
            p.update(p.len() - 1, p.last().push(s.last()))
        }
    }
}

pub proof fn lemma_split_nonempty(s: Seq<u8>)
    ensures
        split_nl(s).len() >= 1,
    decreases s.len(),
{
    if s.len() > 0 {
        lemma_split_nonempty(s.drop_last());
    }
}

/// Splitting a concatenation whose first part ends in a newline splits the
/// parts apart.
pub proof fn lemma_split_concat(x: Seq<u8>, y: Seq<u8>)
    requires
        x.len() > 0,
        x.last() == NEWLINE,
    ensures
        split_nl(x + y) == split_nl(x).drop_last() + split_nl(y),
    decreases y.len(),
{
    lemma_split_nonempty(x);
    if y.len() == 0 {
        assert(x + y =~= x);
        assert(split_nl(x) == split_nl(x.drop_last()).push(Seq::empty()));
        assert(split_nl(x).drop_last() + split_nl(y) =~= split_nl(x));
    } else {
        lemma_split_concat(x, y.drop_last());
        assert((x + y).drop_last() =~= x + y.drop_last());
        lemma_split_nonempty(y.drop_last());
        let p = split_nl(y.drop_last());
        let q = split_nl(x).drop_last();
        if y.last() == NEWLINE {
            assert(split_nl(x + y) =~= (q + p).push(Seq::empty()));
            assert((q + p).push(Seq::empty()) =~= q + p.push(Seq::empty()));
        } else {
            assert((q + p).update((q + p).len() - 1, (q + p).last().push(y.last())) =~= q + p.update(p.len() - 1, p.last().push(y.last())));
        }
    }
}

/// There is one more piece than newlines.
pub proof fn lemma_split_len(s: Seq<u8>)
    ensures
        split_nl(s).len() == crate::text_source::count_nl(s) + 1,
    decreases s.len(),
{
    if s.len() > 0 {
        lemma_split_len(s.drop_last());
    }
}

/// Splits `buf` at each newline, dropping the newlines.
pub fn split_lines(buf: &[u8]) -> (pieces: Vec<Vec<u8>>)
    ensures
        pieces@.len() == split_nl(buf@).len(),
        forall|k: int| 0 <= k < pieces@.len() ==> (#[trigger] pieces@[k])@ == split_nl(buf@)[k],
{
    let mut pieces: Vec<Vec<u8>> = Vec::new();
    let mut cur: Vec<u8> = Vec::new();
    let mut i: usize = 0;
    proof {
        assert(buf@.subrange(0, 0) =~= Seq::<u8>::empty());
    }
    while i < buf.len()
        invariant
            i <= buf@.len(),
            pieces@.len() + 1 == split_nl(buf@.subrange(0, i as int)).len(),
            forall|k: int| 0 <= k < pieces@.len() ==> (#[trigger] pieces@[k])@ == split_nl(buf@.subrange(0, i as int))[k],
            cur@ == split_nl(buf@.subrange(0, i as int)).last(),
        decreases buf@.len() - i,
    {
        let ghost prev = buf@.subrange(0, i as int);
        proof {
            assert(buf@.subrange(0, i + 1).drop_last() =~= prev);
            lemma_split_nonempty(prev);
        }
        if buf[i] == NEWLINE {
            let done = cur;
            cur = Vec::new();
            pieces.push(done);
        } else {
            cur.push(buf[i]);
        }
        i = i + 1;
    }
    proof {
        assert(buf@.subrange(0, buf@.len() as int) =~= buf@);
    }
    pieces.push(cur);
    pieces
}

/// The text of some bytes as decoded by the standard library, invalid
/// sequences replaced.
pub uninterp spec fn text_of(b: Seq<u8>) -> Seq<char>;

/// Relies on `String::from_utf8_lossy`: the text depends on the bytes alone,
/// and valid UTF-8 is decoded unchanged.
#[verifier::external_body]
fn lossy_text(b: &[u8]) -> (s: String)
    ensures
        s@ == text_of(b@),
        vstd::utf8::valid_utf8(b@) ==> vstd::utf8::encode_utf8(s@) == b@,
{
    String::from_utf8_lossy(b).into_owned()
}

/// Lines `part.lines_to_skip .. part.total_lines - part.lines_to_drop` of the
/// region read for `part`, as far as the region has them.
pub open spec fn kept_lines(region: Seq<u8>, part: FilePart) -> Seq<Seq<u8>> {
    let pieces = split_nl(region);
    let end = if part.total_lines - part.lines_to_drop < pieces.len() {
        part.total_lines - part.lines_to_drop
    } else {
        pieces.len() as int
    };
    if part.lines_to_skip < end {
        pieces.subrange(part.lines_to_skip as int, end)
    } else {
        Seq::empty()
    }
}

/// Serves line ranges of one source from its slot map.
#[derive(Debug, Clone, PartialEq, Eq)]
pub struct Grabber {
    pub source_id: String,
    pub metadata: Option<GrabMetadata>,
    pub input_file_size: u64,
}

/// Whether the metadata is well formed, checked slot by slot.
pub fn metadata_is_valid(md: &GrabMetadata) -> (b: bool)
    ensures
        b == md.wf(),
{
    let slots = &md.slots;
    let mut lines: u64 = 0;
    let mut i: usize = 0;
    while i < slots.len()
        invariant
            i <= slots@.len(),
            slots@ == md.slots@,
            lines == lines_in(slots@, i as int),
            slots_tile(slots@.subrange(0, i as int)),
            i > 0 ==> lines == slots@[i - 1].lines.end + 1,
        decreases slots@.len() - i,
    {
        let s = slots[i];
        let ghost before = slots@.subrange(0, i as int);
        if !(s.lines.start <= s.lines.end && s.bytes.start <= s.bytes.end && s.lines.end < u64::MAX && s.bytes.end < u64::MAX) {
            assert(md.slots@[i as int] == s);
            assert(!slots_tile(md.slots@));
            assert(!md.wf());
            return false;
        }
        if i == 0 {
            if s.lines.start != 0 || s.bytes.start != 0 {
                assert(slots@[0] == s);
                assert(!md.wf());
                return false;
            }
        } else {
            let p = slots[i - 1];
            assert(before[i - 1] == p);
            if s.lines.start != p.lines.end + 1 || s.bytes.start != p.bytes.end + 1 {
                assert(slots@[(i - 1) as int + 1] == s);
                assert(slots@[i - 1] == p);
                assert(!md.wf());
                return false;
            }
        }
        lines = s.lines.end + 1;
        i = i + 1;
        proof {
            let now = slots@.subrange(0, i as int);
            assert(now.drop_last() =~= before);
            assert forall|j: int| 0 <= j < now.len() - 1 implies {
                &&& (#[trigger] now[j + 1]).lines.start == now[j].lines.end + 1
                &&& now[j + 1].bytes.start == now[j].bytes.end + 1
            } by {
                if j + 1 < before.len() {
                    assert(before[j + 1] == now[j + 1]);
                }
            }
            assert(lines_in(slots@, i as int) == lines_in(slots@, i - 1) + s.lines.spec_size());
        }
    }
    proof {
        assert(slots@.subrange(0, slots@.len() as int) =~= slots@);
    }
    if slots.len() == 0 {
        md.line_count == 0
    } else {
        md.line_count as u64 == lines
    }
}

impl Grabber {
    /// A grabber without metadata yet; an empty source cannot be grabbed.
    pub fn lazy(source_id: String, input_file_size: u64) -> (r: Result<Grabber, GrabError>)
        ensures
            input_file_size == 0 <==> r matches Err(GrabError::Config(_)),
            r matches Err(GrabError::Config(m)) ==> m@ == "Cannot grab empty file"@,
            r matches Ok(g) ==> g.source_id == source_id && g.metadata.is_none() && g.input_file_size == input_file_size,
    {
        if input_file_size == 0 {
            return Err(GrabError::Config("Cannot grab empty file".to_owned()));
        }
        Ok(Grabber { source_id, metadata: None, input_file_size })
    }

    /// Installs metadata, refusing metadata that is not well formed.
    pub fn inject_metadata(&mut self, metadata: GrabMetadata) -> (r: Result<(), GrabError>)
        ensures
            r.is_ok() <==> metadata.wf(),
            r.is_ok() ==> final(self).metadata == Some(metadata),
            r is Err ==> (r matches Err(GrabError::Config(_))) && *final(self) == *old(self),
            final(self).source_id == old(self).source_id,
            final(self).input_file_size == old(self).input_file_size,
    {
        if !metadata_is_valid(&metadata) {
            return Err(GrabError::Config("Invalid metadata".to_owned()));
        }
        self.metadata = Some(metadata);
        Ok(())
    }

    pub fn get_metadata(&self) -> (r: Option<&GrabMetadata>)
        ensures
            r == match self.metadata { Some(ref m) => Some(m), None => None },
    {
        match &self.metadata {
            Some(m) => Some(m),
            None => None,
        }
    }

    pub fn drop_metadata(&mut self)
        ensures
            final(self).metadata.is_none(),
            final(self).source_id == old(self).source_id,
            final(self).input_file_size == old(self).input_file_size,
    {
        self.metadata = None;
    }

    /// The number of lines, once the metadata exists.
    pub fn log_entry_count(&self) -> (r: Option<usize>)
        ensures
            r == match self.metadata { Some(m) => Some(m.line_count), None => None },
    {
        match &self.metadata {
            Some(md) => Some(md.line_count),
            None => None,
        }
    }

    /// The byte region to read for `line_range`.
    pub fn file_part(&self, line_range: &LineRange) -> (r: Result<FilePart, GrabError>)
        requires
            self.metadata matches Some(m) ==> m.wf(),
        ensures
            self.metadata.is_none() <==> r == Err::<FilePart, GrabError>(GrabError::NotInitialize),
            self.metadata matches Some(m) ==> {
                &&& (line_range.spec_is_empty() || !covered(m.slots@, line_range.start as int) || !covered(m.slots@, line_range.end as int))
                    <==> (r matches Err(GrabError::InvalidRange { .. }))
                &&& (r matches Err(GrabError::InvalidRange { range, .. }) ==> range == *line_range)
                &&& (r is Ok ==> exists|i: int, j: int|
                    0 <= i <= j < m.slots@.len()
                    && (#[trigger] m.slots@[i]).lines.contains(line_range.start as int)
                    && (#[trigger] m.slots@[j]).lines.contains(line_range.end as int)
                    && r == Ok::<FilePart, GrabError>(part_of(m.slots@, i, j, line_range.start as int, line_range.end as int)))
            },
    {
        match &self.metadata {
            None => Err(GrabError::NotInitialize),
            Some(md) => {
                if line_range.is_empty() {
                    return Err(GrabError::InvalidRange {
                        range: *line_range,
                        context: "Cannot get entries of empty range".to_owned(),
                    });
                }
                match identify_byte_range(md.slots.as_slice(), line_range) {
                    Some(p) => Ok(p),
                    None => Err(GrabError::InvalidRange {
                        range: *line_range,
                        context: "Error identifying byte range".to_owned(),
                    }),
                }
            },
        }
    }

    /// The requested lines out of the region read for `part`: its pieces
    /// between newlines, trimmed by the part's counts.
    pub fn grab_from_region(&self, region: &[u8], part: &FilePart) -> (c: GrabbedContent)
        ensures
            c.grabbed_elements@.len() == kept_lines(region@, *part).len(),
            forall|k: int| 0 <= k < c.grabbed_elements@.len() ==> {
                &&& (#[trigger] c.grabbed_elements@[k]).content@ == text_of(kept_lines(region@, *part)[k])
                &&& vstd::utf8::valid_utf8(kept_lines(region@, *part)[k]) ==> vstd::utf8::encode_utf8(c.grabbed_elements@[k].content@) == kept_lines(region@, *part)[k]
                &&& c.grabbed_elements@[k].source_id@ == self.source_id@
                &&& c.grabbed_elements@[k].row.is_none()
                &&& c.grabbed_elements@[k].pos.is_none()
            },
    {
        let pieces = split_lines(region);
        let end: usize = if part.total_lines >= part.lines_to_drop && part.total_lines - part.lines_to_drop < pieces.len() {
            part.total_lines - part.lines_to_drop
        } else if part.total_lines < part.lines_to_drop {
            0
        } else {
            pieces.len()
        };
        let mut out: Vec<GrabbedElement> = Vec::new();
        let mut k: usize = part.lines_to_skip;
        let ghost kept = kept_lines(region@, *part);
        while k < end
            invariant
                part.lines_to_skip <= k <= end || end <= part.lines_to_skip,
                end <= pieces@.len(),
                pieces@.len() == split_nl(region@).len(),
                forall|x: int| 0 <= x < pieces@.len() ==> (#[trigger] pieces@[x])@ == split_nl(region@)[x],
                k >= part.lines_to_skip,
                out@.len() == k - part.lines_to_skip,
                kept == kept_lines(region@, *part),
                part.lines_to_skip < end ==> kept == split_nl(region@).subrange(part.lines_to_skip as int, end as int),
                end <= part.lines_to_skip ==> kept.len() == 0 && k == part.lines_to_skip,
                forall|x: int| 0 <= x < out@.len() ==> {
                    &&& (#[trigger] out@[x]).content@ == text_of(kept[x])
                    &&& vstd::utf8::valid_utf8(kept[x]) ==> vstd::utf8::encode_utf8(out@[x].content@) == kept[x]
                    &&& out@[x].source_id@ == self.source_id@
                    &&& out@[x].row.is_none()
                    &&& out@[x].pos.is_none()
                },
            decreases end - k,
        {
            let content = lossy_text(pieces[k].as_slice());
            out.push(GrabbedElement { source_id: self.source_id.clone(), content, row: None, pos: None });
            k = k + 1;
        }
        proof {
            if part.lines_to_skip < end {
                assert(k == end);
            }
        }
        GrabbedContent { grabbed_elements: out }
    }
}

/// Grabbing lines `[a, b]` keeps exactly `b - a + 1` pieces of the region
/// read for them, piece `k` being line `a + k` counted from the first slot's
/// first line, provided the region holds at least the lines of its slots.
pub proof fn lemma_grab_round_trip(slots: Seq<Slot>, i: int, j: int, a: int, b: int, region: Seq<u8>)
    requires
        slots_tile(slots),
        0 <= i <= j < slots.len(),
        slots[i].lines.contains(a),
        slots[j].lines.contains(b),
        a <= b,
        split_nl(region).len() >= slots[j].lines.end - slots[i].lines.start + 1,
        slots[j].lines.end - slots[i].lines.start + 1 <= usize::MAX,
    ensures
        ({
            let part = part_of(slots, i, j, a, b);
            &&& kept_lines(region, part).len() == b - a + 1
            &&& forall|k: int| 0 <= k <= b - a ==> #[trigger] kept_lines(region, part)[k] == split_nl(region)[a - slots[i].lines.start + k]
        }),
{
    let part = part_of(slots, i, j, a, b);
    let s0 = slots[i].lines.start as int;
    let e1 = slots[j].lines.end as int;
    assert(part.total_lines == e1 - s0 + 1);
    assert(part.lines_to_drop == e1 - b);
    assert(part.lines_to_skip == a - s0);
    assert(part.total_lines - part.lines_to_drop == b - s0 + 1);
}

/// The metadata side of a grabber: what it serves queries from.
pub trait GrabTrait {
    spec fn grab_metadata(&self) -> Option<GrabMetadata>;

    /// Installs metadata, refusing metadata that is not well formed.
    fn inject_metadata(&mut self, metadata: GrabMetadata) -> (r: Result<(), GrabError>)
        ensures
            r.is_ok() <==> metadata.wf(),
            r.is_ok() ==> final(self).grab_metadata() == Some(metadata),
            r.is_err() ==> final(self).grab_metadata() == old(self).grab_metadata(),
    ;

    fn get_metadata(&self) -> (r: Option<&GrabMetadata>)
        ensures
            r == match self.grab_metadata() { Some(ref m) => Some(m), None => None },
    ;

    fn drop_metadata(&mut self)
        ensures
            final(self).grab_metadata().is_none(),
    ;
}

/// A grabber that can be shared between threads.
pub trait AsyncGrabTrait: GrabTrait + Sync + Send + std::fmt::Debug {}

impl GrabTrait for Grabber {
    open spec fn grab_metadata(&self) -> Option<GrabMetadata> {
        self.metadata
    }

    fn inject_metadata(&mut self, metadata: GrabMetadata) -> (r: Result<(), GrabError>) {
        Grabber::inject_metadata(self, metadata)
    }

    fn get_metadata(&self) -> (r: Option<&GrabMetadata>) {
        Grabber::get_metadata(self)
    }

    fn drop_metadata(&mut self) {
        Grabber::drop_metadata(self)
    }
}

impl AsyncGrabTrait for Grabber {}

/// Something that names the source of a log item.
pub trait LogItem {
    spec fn spec_id(&self) -> Seq<char>;

    fn id(&self) -> (r: String)
        ensures
            r@ == self.spec_id(),
    ;
}

impl LogItem for String {
    open spec fn spec_id(&self) -> Seq<char> {
        self@
    }

    fn id(&self) -> (r: String) {
        self.clone()
    }
}

} // verus!
