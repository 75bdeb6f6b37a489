//! What an indexing run reports, and the debouncing of its progress.
use vstd::prelude::*;

verus! {

/// How serious a notification is.
#[allow(non_camel_case_types)]
#[derive(Debug, Clone, Copy, PartialEq, Eq)]
pub enum Severity {
    WARNING,
    ERROR,
    NOTE,
}

/// A warning or error of a run, optionally tied to a line.
#[derive(Debug, Clone, PartialEq, Eq)]
pub struct Notification {
    pub severity: Severity,
    pub content: String,
    pub line: Option<usize>,
}

/// A message of a run on its results channel.
#[derive(Debug, PartialEq, Eq)]
pub enum IndexingProgress<T> {
    Progress { ticks: (u64, u64) },
    GotItem { item: T },
    Finished,
    Stopped,
}

/// Turns consumed byte counts into progress ticks, at most one per percent
/// of the source.
#[derive(Debug, Clone, PartialEq, Eq)]
pub struct ProgressReporter {
    pub source_file_size: u64,
    pub processed_bytes: u64,
    pub progress_percentage: u128,
}

/// Percent of `total` that `done` is, rounded down.
pub open spec fn percent(done: int, total: int) -> int {
    if total == 0 { 0 } else { done * 100 / total }
}

impl ProgressReporter {
    pub open spec fn new_spec(source_file_size: u64) -> Self {
        ProgressReporter { source_file_size, processed_bytes: 0, progress_percentage: 0 }
    }

    pub fn new(source_file_size: u64) -> (r: Self)
        ensures
            r == Self::new_spec(source_file_size),
    {
        ProgressReporter { source_file_size, processed_bytes: 0, progress_percentage: 0 }
    }

    /// Adds `consumed` bytes; returns the ticks `(processed, source size)` to
    /// report when the percentage changed, else `None`.
    pub fn make_progress(&mut self, consumed: u64) -> (ticks: Option<(u64, u64)>)
        requires
            old(self).processed_bytes + consumed <= u64::MAX,
        ensures
            final(self).processed_bytes == old(self).processed_bytes + consumed,
            final(self).source_file_size == old(self).source_file_size,
            final(self).progress_percentage == if percent(final(self).processed_bytes as int, old(self).source_file_size as int) != old(self).progress_percentage {
                percent(final(self).processed_bytes as int, old(self).source_file_size as int)
            } else {
                old(self).progress_percentage as int
            },
            ticks == if percent(final(self).processed_bytes as int, old(self).source_file_size as int) != old(self).progress_percentage {
                Some((final(self).processed_bytes, old(self).source_file_size))
            } else {
                None::<(u64, u64)>
            },
    {
        self.processed_bytes = self.processed_bytes + consumed;
        let pct: u128 = if self.source_file_size == 0 {
            0
        } else {
            (self.processed_bytes as u128) * 100 / (self.source_file_size as u128)
        };
        if pct != self.progress_percentage {
            self.progress_percentage = pct;
            Some((self.processed_bytes, self.source_file_size))
        } else {
            None
        }
    }
}

} // verus!
