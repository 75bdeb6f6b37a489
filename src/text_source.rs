//! Slot index of a plain text file, and extraction of lines from a region.
use vstd::prelude::*;
use crate::grabber::{
    bytes_in, kept_lines, lemma_grab_round_trip, lemma_split_concat, lemma_split_len,
    lemma_tile_order, lines_in, part_of, slots_tile, split_nl, GrabMetadata, Slot, NEWLINE,
};
use crate::range::{ByteIdentifier, ByteRange, GrabRange, LineIdentifier, LineRange};

verus! {

/// Capacity of the reader that feeds the slot builder.
pub const REDUX_READER_CAPACITY: usize = 1048576;

/// Minimum number of bytes each refill of that reader holds before end of file.
pub const REDUX_MIN_BUFFER_SPACE: usize = 10240;

/// Number of newline bytes in `s`.
pub open spec fn count_nl(s: Seq<u8>) -> nat
    decreases s.len(),
{
    if s.len() == 0 {
        0
    } else {
        count_nl(s.drop_last()) + if s.last() == NEWLINE { 1nat } else { 0nat }
    }
}

/// Relies on `bytecount::count`: the number of bytes of `b` equal to a newline.
#[verifier::external_body]
fn count_newlines(b: &[u8]) -> (n: usize)
    ensures
        n == count_nl(b@),
{
    bytecount::count(b, NEWLINE)
}

/// A text file to be indexed, named by a source id.
#[derive(Debug, Clone, PartialEq, Eq)]
pub struct TextFileSource {
    pub source_id: String,
    pub path: String,
}

impl TextFileSource {
    pub fn new(p: &str, id: &str) -> (r: Self)
        ensures
            r.source_id@ == id@,
            r.path@ == p@,
    {
        TextFileSource { source_id: id.to_string(), path: p.to_string() }
    }

    pub fn source_id(&self) -> (r: String)
        ensures
            r@ == self.source_id@,
    {
        self.source_id.clone()
    }
}

/// Newlines in `buffer` and the offset of the last one, or `(0, 0)` when it
/// holds none.
pub fn count_lines_up_to_last_newline(buffer: &[u8]) -> (r: (u64, usize))
    ensures
        count_nl(buffer@) == 0 ==> r == (0u64, 0usize),
        count_nl(buffer@) > 0 ==> {
            &&& r.0 == count_nl(buffer@)
            &&& r.1 < buffer@.len()
            &&& buffer@[r.1 as int] == NEWLINE
            &&& forall|k: int| r.1 < k < buffer@.len() ==> buffer@[k] != NEWLINE
        },
{
    let mut i: usize = buffer.len();
    while i > 0
        invariant
            i <= buffer@.len(),
            forall|k: int| i <= k < buffer@.len() ==> buffer@[k] != NEWLINE,
        decreases i,
    {
        if buffer[i - 1] == NEWLINE {
            proof {
                lemma_has_newline(buffer@, i - 1);
            }
            let n = count_newlines(buffer);
            return (n as u64, i - 1);
        }
        i = i - 1;
    }
    proof {
        lemma_no_newline(buffer@);
    }
    (0, 0)
}

/// A sequence without a newline byte counts none.
pub proof fn lemma_no_newline(s: Seq<u8>)
    requires
        forall|k: int| 0 <= k < s.len() ==> s[k] != NEWLINE,
    ensures
        count_nl(s) == 0,
    decreases s.len(),
{
    if s.len() > 0 {
        lemma_no_newline(s.drop_last());
    }
}

/// A sequence with a newline byte counts at least one.
pub proof fn lemma_has_newline(s: Seq<u8>, k: int)
    requires
        0 <= k < s.len(),
        s[k] == NEWLINE,
    ensures
        count_nl(s) > 0,
    decreases s.len(),
{
    if k < s.len() - 1 {
        lemma_has_newline(s.drop_last(), k);
    }
}

/// Newlines of a prefix never exceed those of the whole.
pub proof fn lemma_count_prefix(s: Seq<u8>, n: int)
    requires
        0 <= n <= s.len(),
    ensures
        count_nl(s.subrange(0, n)) <= count_nl(s),
        count_nl(s) <= s.len(),
    decreases s.len(),
{
    if s.len() > 0 {
        if n == s.len() {
            assert(s.subrange(0, n) =~= s);
            lemma_count_prefix(s.drop_last(), n - 1);
        } else {
            assert(s.subrange(0, n) =~= s.drop_last().subrange(0, n));
            lemma_count_prefix(s.drop_last(), n);
        }
    }
}

/// A sequence has as many newlines as its prefix up to and including its
/// last newline.
pub proof fn lemma_count_up_to_last(s: Seq<u8>, o: int)
    requires
        0 <= o < s.len(),
        forall|k: int| o < k < s.len() ==> s[k] != NEWLINE,
    ensures
        count_nl(s.subrange(0, o + 1)) == count_nl(s),
    decreases s.len(),
{
    if s.len() == o + 1 {
        assert(s.subrange(0, o + 1) =~= s);
    } else {
        assert(s.drop_last().subrange(0, o + 1) =~= s.subrange(0, o + 1));
        lemma_count_up_to_last(s.drop_last(), o);
    }
}

/// Newlines of a concatenation are those of its parts.
pub proof fn lemma_count_concat(a: Seq<u8>, b: Seq<u8>)
    ensures
        count_nl(a + b) == count_nl(a) + count_nl(b),
    decreases b.len(),
{
    if b.len() > 0 {
        assert((a + b).drop_last() =~= a + b.drop_last());
        lemma_count_concat(a, b.drop_last());
    } else {
        assert(a + b =~= a);
    }
}

/// Each slot ends in a newline of `fed`, and the newlines up to it number
/// one past its last line.
pub open spec fn slots_end_lines(slots: Seq<Slot>, fed: Seq<u8>) -> bool {
    forall|i: int| 0 <= i < slots.len() ==> {
        &&& (#[trigger] slots[i]).bytes.end < fed.len()
        &&& fed[slots[i].bytes.end as int] == NEWLINE
        &&& count_nl(fed.subrange(0, slots[i].bytes.end + 1)) == slots[i].lines.end + 1
    }
}

/// Builds the slot map of a text file from its successive refills.
///
/// A slot ends at a newline. A line longer than a refill stays open across
/// refills and gets one slot when its newline comes; a last line without a
/// newline gets its slot from `finish`.
pub struct SlotBuilder {
    pub slots: Vec<Slot>,
    /// Bytes consumed so far.
    pub byte_index: u64,
    /// Newlines consumed so far: the lines closed so far.
    pub line_index: u64,
    /// Where the slots end: the first byte of the line still open, if any.
    pub slot_end: u64,
    /// Whether bytes after the last newline were consumed.
    pub pending: bool,
    /// The bytes consumed so far.
    pub fed: Ghost<Seq<u8>>,
}

/// A sequence with no newline counts none, and the converse.
pub proof fn lemma_count_zero(s: Seq<u8>)
    ensures
        count_nl(s) == 0 <==> forall|k: int| 0 <= k < s.len() ==> s[k] != NEWLINE,
{
    if forall|k: int| 0 <= k < s.len() ==> s[k] != NEWLINE {
        lemma_no_newline(s);
    } else {
        let k = choose|k: int| 0 <= k < s.len() && s[k] == NEWLINE;
        lemma_has_newline(s, k);
    }
}

impl SlotBuilder {
    /// The slots tile `[0, slot_end)` and `[0, line_index)`, each ending in a
    /// newline; the bytes after `slot_end` hold none.
    pub open spec fn wf(&self) -> bool {
        &&& slots_tile(self.slots@)
        &&& lines_in(self.slots@, self.slots@.len() as int) == self.line_index
        &&& bytes_in(self.slots@, self.slots@.len() as int) == self.slot_end
        &&& self.slots@.len() == 0 ==> self.slot_end == 0 && self.line_index == 0
        &&& self.slots@.len() > 0 ==> {
            &&& self.slots@.last().bytes.end + 1 == self.slot_end
            &&& self.slots@.last().lines.end + 1 == self.line_index
        }
        &&& self.fed@.len() == self.byte_index
        &&& self.byte_index < u64::MAX
        &&& self.line_index == count_nl(self.fed@)
        &&& self.slot_end <= self.byte_index
        &&& self.pending <==> self.slot_end < self.byte_index
        &&& forall|k: int| self.slot_end <= k < self.byte_index ==> self.fed@[k] != NEWLINE
        &&& slots_end_lines(self.slots@, self.fed@)
    }

    /// The slot of the line still open.
    pub open spec fn closing_slot(&self) -> Slot {
        Slot {
            bytes: GrabRange { start: self.slot_end, end: (self.byte_index - 1) as u64, kind: ByteIdentifier },
            lines: GrabRange { start: self.line_index, end: self.line_index, kind: LineIdentifier },
        }
    }

    /// The slots once the input ends.
    pub open spec fn finished(&self) -> Seq<Slot> {
        if self.pending { self.slots@.push(self.closing_slot()) } else { self.slots@ }
    }

    /// The line count once the input ends.
    pub open spec fn finished_count(&self) -> int {
        self.line_index + if self.pending { 1int } else { 0int }
    }

    pub fn new() -> (r: Self)
        ensures
            r.wf(),
            r.slots@.len() == 0,
            r.byte_index == 0,
            r.line_index == 0,
            r.fed@.len() == 0,
    {
        SlotBuilder { slots: Vec::new(), byte_index: 0, line_index: 0, slot_end: 0, pending: false, fed: Ghost(Seq::empty()) }
    }

    /// Takes one refill and returns how many of its bytes it consumed. A
    /// refill with a newline is consumed up to and including its last one and
    /// closes one slot, from the end of the last slot, with one line per
    /// newline; one without is consumed whole and keeps its line open.
    pub fn feed(&mut self, content: &[u8]) -> (consumed: usize)
        requires
            old(self).wf(),
            content@.len() > 0,
            old(self).byte_index + content@.len() < u64::MAX,
        ensures
            final(self).wf(),
            0 < consumed <= content@.len(),
            final(self).fed@ == old(self).fed@ + content@.subrange(0, consumed as int),
            final(self).byte_index == old(self).byte_index + consumed,
            count_nl(content@) == 0 ==> {
                &&& consumed == content@.len()
                &&& final(self).slots@ == old(self).slots@
                &&& final(self).line_index == old(self).line_index
                &&& final(self).pending
            },
            count_nl(content@) > 0 ==> {
                &&& content@[consumed - 1] == NEWLINE
                &&& forall|k: int| consumed <= k < content@.len() ==> content@[k] != NEWLINE
                &&& final(self).line_index == old(self).line_index + count_nl(content@)
                &&& final(self).slots@ == old(self).slots@.push(final(self).slots@.last())
                &&& final(self).slots@.last().bytes.start == old(self).slot_end
                &&& final(self).slots@.last().bytes.end + 1 == final(self).byte_index
                &&& final(self).slots@.last().lines.start == old(self).line_index
                &&& final(self).slots@.last().lines.end + 1 == final(self).line_index
                &&& !final(self).pending
            },
    {
        let len: usize = content.len();
        let (nl, offset_last_newline) = count_lines_up_to_last_newline(content);
        proof {
            lemma_count_prefix(content@, content@.len() as int);
            lemma_count_prefix(self.fed@, 0);
        }
        if nl == 0 {
            proof {
                lemma_count_zero(content@);
                assert(content@.subrange(0, len as int) =~= content@);
                lemma_count_concat(self.fed@, content@);
                let old_fed = self.fed@;
                self.fed@ = self.fed@ + content@;
                assert forall|i: int| 0 <= i < self.slots@.len() implies {
                    &&& (#[trigger] self.slots@[i]).bytes.end < self.fed@.len()
                    &&& self.fed@[self.slots@[i].bytes.end as int] == NEWLINE
                    &&& count_nl(self.fed@.subrange(0, self.slots@[i].bytes.end + 1)) == self.slots@[i].lines.end + 1
                } by {
                    assert(self.fed@.subrange(0, self.slots@[i].bytes.end + 1) =~= old_fed.subrange(0, self.slots@[i].bytes.end + 1));
                }
            }
            self.byte_index = self.byte_index + len as u64;
            self.pending = true;
            return len;
        }
        proof {
            assert(count_nl(content@) > 0);
            assert(offset_last_newline < len);
        }
        let consumed: usize = offset_last_newline + 1;
        let new_end: u64 = self.byte_index + consumed as u64;
        let slot = Slot {
            bytes: ByteRange::new(self.slot_end, new_end - 1),
            lines: LineRange::new(self.line_index, self.line_index + nl - 1),
        };
        let ghost old_slots = self.slots@;
        self.slots.push(slot);
        proof {
            crate::grabber::lemma_totals_push(old_slots, slot);
            assert(self.slots@.drop_last() =~= old_slots);
            assert(self.slots@[self.slots@.len() - 1] == slot);
            if old_slots.len() > 0 {
                assert(self.slots@[old_slots.len() - 1] == old_slots.last());
            }
            assert forall|i: int| 0 <= i < self.slots@.len() - 1 implies {
                &&& (#[trigger] self.slots@[i + 1]).lines.start == self.slots@[i].lines.end + 1
                &&& self.slots@[i + 1].bytes.start == self.slots@[i].bytes.end + 1
            } by {
                if i + 1 < old_slots.len() {
                    assert(old_slots[i + 1] == self.slots@[i + 1]);
                }
            }
            let part = content@.subrange(0, consumed as int);
            lemma_count_concat(self.fed@, part);
            lemma_count_up_to_last(content@, offset_last_newline as int);
            let old_fed = self.fed@;
            self.fed@ = self.fed@ + part;
            let nf = self.fed@;
            assert forall|i: int| 0 <= i < self.slots@.len() implies {
                &&& (#[trigger] self.slots@[i]).bytes.end < nf.len()
                &&& nf[self.slots@[i].bytes.end as int] == NEWLINE
                &&& count_nl(nf.subrange(0, self.slots@[i].bytes.end + 1)) == self.slots@[i].lines.end + 1
            } by {
                if i < old_slots.len() {
                    assert(self.slots@[i] == old_slots[i]);
                    assert(old_slots[i].bytes.end < old_fed.len());
                    assert(nf.subrange(0, old_slots[i].bytes.end + 1) =~= old_fed.subrange(0, old_slots[i].bytes.end + 1));
                } else {
                    assert(self.slots@[i] == slot);
                    assert(nf.subrange(0, slot.bytes.end + 1) =~= nf);
                    assert(nf[slot.bytes.end as int] == content@[consumed - 1]);
                }
            }
        }
        self.byte_index = new_end;
        self.slot_end = new_end;
        self.line_index = self.line_index + nl;
        self.pending = false;
        consumed
    }

    /// The metadata of the whole input: the line still open, if any, closes
    /// as the last line.
    pub fn finish(self) -> (md: GrabMetadata)
        requires
            self.wf(),
            self.line_index < usize::MAX,
        ensures
            md.wf(),
            md.slots@ == self.finished(),
            md.line_count == self.finished_count(),
    {
        let mut slots = self.slots;
        let mut count = self.line_index;
        if self.pending {
            proof {
                lemma_count_prefix(self.fed@, 0);
            }
            let slot = Slot {
                bytes: GrabRange { start: self.slot_end, end: self.byte_index - 1, kind: ByteIdentifier },
                lines: GrabRange { start: self.line_index, end: self.line_index, kind: LineIdentifier },
            };
            slots.push(slot);
            count = count + 1;
        }
        proof {
            lemma_finished_tiles(self);
        }
        GrabMetadata { slots, line_count: count as usize }
    }
}

/// The finished slots tile the input and its lines, and the line count is
/// the sum of their lines and one past the last one's last line.
pub proof fn lemma_finished_tiles(b: SlotBuilder)
    requires
        b.wf(),
    ensures
        slots_tile(b.finished()),
        lines_in(b.finished(), b.finished().len() as int) == b.finished_count(),
        bytes_in(b.finished(), b.finished().len() as int) == b.byte_index,
        b.finished().len() > 0 ==> b.finished().last().lines.end + 1 == b.finished_count(),
        b.finished().len() > 0 ==> b.finished().last().bytes.end + 1 == b.byte_index,
        b.finished().len() == 0 ==> b.byte_index == 0 && b.finished_count() == 0,
{
    lemma_count_prefix(b.fed@, 0);
    if b.pending {
        let old_slots = b.slots@;
        let slot = b.closing_slot();
        let f = b.finished();
        crate::grabber::lemma_totals_push(old_slots, slot);
        assert(f[f.len() - 1] == slot);
        if old_slots.len() > 0 {
            assert(f[old_slots.len() - 1] == old_slots.last());
        }
        assert forall|i: int| 0 <= i < f.len() - 1 implies {
            &&& (#[trigger] f[i + 1]).lines.start == f[i].lines.end + 1
            &&& f[i + 1].bytes.start == f[i].bytes.end + 1
        } by {
            if i + 1 < old_slots.len() {
                assert(old_slots[i + 1] == f[i + 1]);
            }
        }
        assert forall|i: int| 0 <= i < f.len() implies {
            &&& (#[trigger] f[i]).lines.start <= f[i].lines.end
            &&& f[i].bytes.start <= f[i].bytes.end
            &&& f[i].lines.end < u64::MAX
            &&& f[i].bytes.end < u64::MAX
        } by {
            if i < old_slots.len() {
                assert(old_slots[i] == f[i]);
            }
        }
    }
}

/// The slots of a non-empty input start at byte 0 and line 0, each starts
/// right after the one before, and the last ends at the input's last byte.
pub proof fn lemma_slot_tiling(b: SlotBuilder)
    requires
        b.wf(),
        b.byte_index > 0,
    ensures
        b.finished().len() > 0,
        b.finished()[0].bytes.start == 0,
        b.finished()[0].lines.start == 0,
        forall|i: int| 0 <= i < b.finished().len() - 1 ==> {
            &&& (#[trigger] b.finished()[i + 1]).bytes.start == b.finished()[i].bytes.end + 1
            &&& b.finished()[i + 1].lines.start == b.finished()[i].lines.end + 1
        },
        b.finished().last().bytes.end == b.byte_index - 1,
{
    lemma_finished_tiles(b);
}

/// The line count is the sum of the slots' lines, one past the last slot's
/// last line, and the number of newlines of the input plus one when the
/// input does not end in a newline.
pub proof fn lemma_line_accounting(b: SlotBuilder)
    requires
        b.wf(),
        b.byte_index > 0,
    ensures
        b.finished_count() == lines_in(b.finished(), b.finished().len() as int),
        b.finished_count() == b.finished().last().lines.end + 1,
        b.finished_count() == count_nl(b.fed@) + if b.fed@.last() != NEWLINE { 1int } else { 0int },
{
    lemma_finished_tiles(b);
    if !b.pending {
        if b.slots@.len() > 0 {
            let l = b.slots@.len() - 1;
            assert(b.slots@[l] == b.slots@.last());
            assert(b.fed@[b.slots@[l].bytes.end as int] == NEWLINE);
        }
    }
}

/// Grabbing lines `[a, z]` from the finished slots of an input: the region
/// of the slots that hold them yields exactly `z - a + 1` pieces, the `k`-th
/// being line `a + k` of the input (its bytes without the newline).
pub proof fn lemma_text_round_trip(b: SlotBuilder, i: int, j: int, a: int, z: int)
    requires
        b.wf(),
        0 <= i <= j < b.finished().len(),
        b.finished()[i].lines.contains(a),
        b.finished()[j].lines.contains(z),
        a <= z,
        b.finished()[j].lines.end - b.finished()[i].lines.start + 1 <= usize::MAX,
    ensures
        ({
            let slots = b.finished();
            let region = b.fed@.subrange(slots[i].bytes.start as int, slots[j].bytes.end + 1);
            let part = part_of(slots, i, j, a, z);
            &&& kept_lines(region, part).len() == z - a + 1
            &&& forall|k: int| 0 <= k <= z - a ==> #[trigger] kept_lines(region, part)[k] == split_nl(b.fed@)[a + k]
        }),
{
    lemma_finished_tiles(b);
    let slots = b.finished();
    let n = b.slots@.len() as int;
    let fed = b.fed@;
    assert forall|x: int| 0 <= x < n implies slots[x] == b.slots@[x] by {}
    let si = slots[i].bytes.start as int;
    let ej = slots[j].bytes.end as int;
    let ls = slots[i].lines.start as int;
    let le = slots[j].lines.end as int;
    if i < j {
        lemma_tile_order(slots, i, j);
    }
    let pre = fed.subrange(0, si);
    let region = fed.subrange(si, ej + 1);
    let post = fed.subrange(ej + 1, fed.len() as int);
    if i > 0 {
        let h = i - 1;
        assert(slots[h + 1].bytes.start == slots[h].bytes.end + 1);
        assert(slots[h + 1].lines.start == slots[h].lines.end + 1);
        assert(slots[h] == b.slots@[h]);
        assert(b.slots@[h].bytes.end < fed.len());
        assert(pre =~= fed.subrange(0, slots[h].bytes.end + 1));
        assert(count_nl(pre) == ls);
        assert(pre.last() == fed[slots[h].bytes.end as int]);
    } else {
        assert(pre =~= Seq::<u8>::empty());
        assert(count_nl(pre) == 0);
    }
    if j < n {
        assert(slots[j] == b.slots@[j]);
        assert(b.slots@[j].bytes.end < fed.len());
        assert(pre + region =~= fed.subrange(0, ej + 1));
        lemma_count_concat(pre, region);
        assert(count_nl(region) == le + 1 - ls);
        assert(region.last() == fed[ej]);
        lemma_split_concat(region, post);
    } else {
        assert(b.pending);
        assert(ej + 1 == fed.len());
        assert(pre + region =~= fed);
        assert(post =~= Seq::<u8>::empty());
        assert(region + post =~= region);
        lemma_count_concat(pre, region);
        assert(count_nl(region) == le - ls);
    }
    lemma_split_len(region);
    if i > 0 {
        assert(pre + (region + post) =~= fed);
        lemma_split_concat(pre, region + post);
        lemma_split_len(pre);
    } else {
        assert(region + post =~= fed);
    }
    lemma_grab_round_trip(slots, i, j, a, z, region);
    assert forall|k: int| 0 <= k <= z - a implies #[trigger] kept_lines(region, part_of(slots, i, j, a, z))[k] == split_nl(fed)[a + k] by {
        assert(split_nl(fed)[a + k] == split_nl(region)[a - ls + k]);
    }
}

} // verus!
