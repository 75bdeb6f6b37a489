//! Byte regions of a DLT file that hold chosen ranges of its messages.
use vstd::prelude::*;
use crate::dlt_decoder::{forward_to_next_storage_header, pattern_at, skip_storage_header};

verus! {

/// Messages `first_line ..= last_line` of a file (one message is one line).
#[derive(Debug, Clone, Copy, PartialEq, Eq)]
pub struct IndexSection {
    pub first_line: usize,
    pub last_line: usize,
}

/// The sections to export, in the order they are copied.
#[derive(Debug, Clone, PartialEq, Eq)]
pub struct SectionConfig {
    pub sections: Vec<IndexSection>,
}

/// `length` bytes of the file from `offset` on.
#[derive(Debug, Clone, Copy, PartialEq, Eq)]
pub struct FilePart {
    pub offset: u64,
    pub length: u64,
}

/// Bytes of the first `k` messages.
pub open spec fn prefix(lens: Seq<u64>, k: int) -> int
    decreases k,
{
    if k <= 0 { 0 } else { prefix(lens, k - 1) + lens[k - 1] }
}

/// The parts for sections `k..` when the scan stands at message `cursor`
/// and the last section entered began at byte `soff`. A section found from
/// the cursor on, not reversed and ending inside the file gives its bytes; one
/// that began before the cursor but ends at or after it gives an empty part
/// at `soff`; any other ends the scan.
pub open spec fn parts_from(lens: Seq<u64>, secs: Seq<IndexSection>, k: int, cursor: int, soff: u64) -> Seq<FilePart>
    decreases secs.len() - k,
{
    if k < 0 || k >= secs.len() {
        Seq::empty()
    } else {
        let s = secs[k];
        if cursor <= s.first_line && s.first_line <= s.last_line && s.last_line < lens.len() {
            let off = prefix(lens, s.first_line as int) as u64;
            seq![FilePart {
                offset: off,
                length: (prefix(lens, s.last_line + 1) - prefix(lens, s.first_line as int)) as u64,
            }] + parts_from(lens, secs, k + 1, s.last_line as int, off)
        } else if s.first_line < cursor && cursor <= s.last_line && s.last_line < lens.len() {
            seq![FilePart { offset: soff, length: 0 }] + parts_from(lens, secs, k + 1, s.last_line as int, soff)
        } else {
            Seq::empty()
        }
    }
}

/// Prefix sums grow with `k`.
pub proof fn lemma_prefix_mono(lens: Seq<u64>, i: int, j: int)
    requires
        0 <= i <= j <= lens.len(),
    ensures
        0 <= prefix(lens, i) <= prefix(lens, j),
    decreases j,
{
    if i < j {
        lemma_prefix_mono(lens, i, j - 1);
    } else if j > 0 {
        lemma_prefix_mono(lens, j - 1, j - 1);
    }
}

/// Sum of `lens[from..to]`, given that the whole sum fits.
fn sum_range(lens: &Vec<u64>, from: usize, to: usize) -> (s: u64)
    requires
        from <= to <= lens@.len(),
        prefix(lens@, lens@.len() as int) <= u64::MAX,
    ensures
        s == prefix(lens@, to as int) - prefix(lens@, from as int),
{
    let mut s: u64 = 0;
    let mut j: usize = from;
    while j < to
        invariant
            from <= j <= to <= lens@.len(),
            prefix(lens@, lens@.len() as int) <= u64::MAX,
            s == prefix(lens@, j as int) - prefix(lens@, from as int),
        decreases to - j,
    {
        proof {
            lemma_prefix_mono(lens@, from as int, j as int + 1);
            lemma_prefix_mono(lens@, j as int + 1, lens@.len() as int);
        }
        s = s + lens[j];
        j = j + 1;
    }
    s
}

/// The byte regions of the sections, given the byte length of each message
/// of the file in order. No sections means the whole file.
pub fn get_parts(lens: &Vec<u64>, config: &SectionConfig, file_size: u64) -> (parts: Vec<FilePart>)
    requires
        prefix(lens@, lens@.len() as int) <= u64::MAX,
    ensures
        config.sections@.len() == 0 ==> parts@ == seq![FilePart { offset: 0, length: file_size }],
        config.sections@.len() > 0 ==> parts@ == parts_from(lens@, config.sections@, 0, 0, 0),
{
    if config.sections.len() == 0 {
        return vec![FilePart { offset: 0, length: file_size }];
    }
    let secs = &config.sections;
    let mut parts: Vec<FilePart> = Vec::new();
    let mut cursor: usize = 0;
    let mut soff: u64 = 0;
    let mut k: usize = 0;
    while k < secs.len()
        invariant
            k <= secs@.len(),
            cursor <= lens@.len(),
            prefix(lens@, lens@.len() as int) <= u64::MAX,
            parts@ + parts_from(lens@, secs@, k as int, cursor as int, soff) == parts_from(lens@, secs@, 0, 0, 0),
        ensures
            parts@ == parts_from(lens@, secs@, 0, 0, 0),
        decreases secs@.len() - k,
    {
        let s = secs[k];
        let found = cursor <= s.first_line && s.first_line <= s.last_line && s.last_line < lens.len();
        let passed = s.first_line < cursor && cursor <= s.last_line && s.last_line < lens.len();
        if !found && !passed {
            assert(parts_from(lens@, secs@, k as int, cursor as int, soff) =~= Seq::empty());
            assert(parts@ + Seq::<FilePart>::empty() =~= parts@);
            break;
        }
        let ghost soff0 = soff;
        let part = if found {
            let offset = sum_range(lens, 0, s.first_line);
            let length = sum_range(lens, s.first_line, s.last_line + 1);
            soff = offset;
            FilePart { offset, length }
        } else {
            FilePart { offset: soff, length: 0 }
        };
        let ghost rest = parts_from(lens@, secs@, k as int + 1, s.last_line as int, soff);
        let ghost before = parts@;
        assert(parts_from(lens@, secs@, k as int, cursor as int, soff0) == seq![part] + rest);
        parts.push(part);
        assert(parts@ + rest =~= before + (seq![part] + rest));
        cursor = s.last_line;
        k = k + 1;
        proof {
            if k == secs@.len() {
                assert(parts_from(lens@, secs@, k as int, cursor as int, soff) =~= Seq::empty());
                assert(parts@ + Seq::<FilePart>::empty() =~= parts@);
            }
        }
    }
    parts
}

/// Bytes from the start of the message at the head of `content` to the next
/// DLT pattern after its storage header, or to the end of `content`; `None`
/// when `content` does not start with a storage header.
pub fn message_length(content: &[u8]) -> (r: Option<u64>)
    ensures
        r.is_some() <==> (content@.len() >= 16 && pattern_at(content@, 0)),
        r matches Some(n) ==> {
            let rest = content@.subrange(16, content@.len() as int);
            &&& 16 <= n <= content@.len()
            &&& (n == content@.len() && forall|j: int| 0 <= j < rest.len() ==> !pattern_at(rest, j))
                || (pattern_at(rest, n - 16) && forall|j: int| 0 <= j < n - 16 ==> !pattern_at(rest, j))
        },
{
    match skip_storage_header(content) {
        None => None,
        Some(skipped) => {
            let len = content.len();
            let rest = vstd::slice::slice_subrange(content, 16, len);
            match forward_to_next_storage_header(rest) {
                Some(dropped) => {
                    proof {
                        assert(rest@ == content@.subrange(16, len as int));
                    }
                    Some(skipped + dropped)
                },
                None => Some(len as u64),
            }
        },
    }
}

} // verus!
