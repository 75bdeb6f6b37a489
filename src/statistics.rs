//! Per-id histograms of the log levels of a DLT file.
use vstd::prelude::*;
use dlt_core::dlt::LogLevel;
use dlt_core::statistics::StatisticRowInfo;
use crate::dlt_decoder::{dlt_statistic_row_info, row_info_of};
use crate::dlt_file::{DecodeResult, DLT_PATTERN_SIZE, STOP_CHECK_LINE_THRESHOLD};
use crate::progress::{Notification, Severity};

verus! {

/// How many messages of one id had each level; `non_log` counts messages
/// without a level.
#[derive(Debug, Clone, Copy, PartialEq, Eq)]
pub struct LevelDistribution {
    pub log_fatal: usize,
    pub log_error: usize,
    pub log_warning: usize,
    pub log_info: usize,
    pub log_debug: usize,
    pub log_verbose: usize,
    pub log_invalid: usize,
    pub non_log: usize,
}

/// `d` with the counter of `level` raised by one.
pub open spec fn bumped(d: LevelDistribution, level: Option<LogLevel>) -> LevelDistribution {
    match level {
        Some(LogLevel::Fatal) => LevelDistribution { log_fatal: (d.log_fatal + 1) as usize, ..d },
        Some(LogLevel::Error) => LevelDistribution { log_error: (d.log_error + 1) as usize, ..d },
        Some(LogLevel::Warn) => LevelDistribution { log_warning: (d.log_warning + 1) as usize, ..d },
        Some(LogLevel::Info) => LevelDistribution { log_info: (d.log_info + 1) as usize, ..d },
        Some(LogLevel::Debug) => LevelDistribution { log_debug: (d.log_debug + 1) as usize, ..d },
        Some(LogLevel::Verbose) => LevelDistribution { log_verbose: (d.log_verbose + 1) as usize, ..d },
        Some(LogLevel::Invalid(_)) => LevelDistribution { log_invalid: (d.log_invalid + 1) as usize, ..d },
        None => LevelDistribution { non_log: (d.non_log + 1) as usize, ..d },
    }
}

/// No counter is at its maximum.
pub open spec fn has_room(d: LevelDistribution) -> bool {
    &&& d.log_fatal < usize::MAX
    &&& d.log_error < usize::MAX
    &&& d.log_warning < usize::MAX
    &&& d.log_info < usize::MAX
    &&& d.log_debug < usize::MAX
    &&& d.log_verbose < usize::MAX
    &&& d.log_invalid < usize::MAX
    &&& d.non_log < usize::MAX
}

pub open spec fn zero() -> LevelDistribution {
    LevelDistribution {
        log_fatal: 0,
        log_error: 0,
        log_warning: 0,
        log_info: 0,
        log_debug: 0,
        log_verbose: 0,
        log_invalid: 0,
        non_log: 0,
    }
}

impl LevelDistribution {
    /// The distribution of one message of `level`.
    pub fn new(level: Option<LogLevel>) -> (d: Self)
        ensures
            d == bumped(zero(), level),
    {
        let z = LevelDistribution {
            log_fatal: 0,
            log_error: 0,
            log_warning: 0,
            log_info: 0,
            log_debug: 0,
            log_verbose: 0,
            log_invalid: 0,
            non_log: 0,
        };
        z.bump(level)
    }

    /// This distribution with one more message of `level`.
    pub fn bump(self, level: Option<LogLevel>) -> (d: Self)
        requires
            has_room(self),
        ensures
            d == bumped(self, level),
    {
        match level {
            Some(LogLevel::Fatal) => LevelDistribution { log_fatal: self.log_fatal + 1, ..self },
            Some(LogLevel::Error) => LevelDistribution { log_error: self.log_error + 1, ..self },
            Some(LogLevel::Warn) => LevelDistribution { log_warning: self.log_warning + 1, ..self },
            Some(LogLevel::Info) => LevelDistribution { log_info: self.log_info + 1, ..self },
            Some(LogLevel::Debug) => LevelDistribution { log_debug: self.log_debug + 1, ..self },
            Some(LogLevel::Verbose) => LevelDistribution { log_verbose: self.log_verbose + 1, ..self },
            Some(LogLevel::Invalid(_)) => LevelDistribution { log_invalid: self.log_invalid + 1, ..self },
            None => LevelDistribution { non_log: self.non_log + 1, ..self },
        }
    }
}

/// Whether `ids` holds an entry for `id` at index `k`, and none before it.
pub open spec fn first_entry(ids: Seq<(String, LevelDistribution)>, id: Seq<char>, k: int) -> bool {
    &&& 0 <= k < ids.len()
    &&& ids[k].0@ == id
    &&& forall|j: int| 0 <= j < k ==> (#[trigger] ids[j]).0@ != id
}

/// `after` is `before` with one message of `level` counted for `id`: its
/// first entry raised, or a new entry appended.
pub open spec fn counted(before: Seq<(String, LevelDistribution)>, id: Seq<char>, level: Option<LogLevel>, after: Seq<(String, LevelDistribution)>) -> bool {
    &&& forall|k: int| first_entry(before, id, k) ==> after == before.update(k, (before[k].0, bumped(before[k].1, level)))
    &&& (forall|j: int| 0 <= j < before.len() ==> (#[trigger] before[j]).0@ != id) ==> {
        &&& after.len() == before.len() + 1
        &&& after.drop_last() == before
        &&& after.last().0@ == id
        &&& after.last().1 == bumped(zero(), level)
    }
}

pub open spec fn all_room(ids: Seq<(String, LevelDistribution)>) -> bool {
    forall|j: int| 0 <= j < ids.len() ==> has_room(#[trigger] ids[j].1)
}

/// Counts one message of `level` for `id`: its entry is raised, or a new
/// entry is appended.
pub fn add_for_level(level: Option<LogLevel>, ids: &mut Vec<(String, LevelDistribution)>, id: String)
    requires
        all_room(old(ids)@),
    ensures
        counted(old(ids)@, id@, level, final(ids)@),
        unique_ids(old(ids)@) ==> unique_ids(final(ids)@),
{
    let mut i: usize = 0;
    while i < ids.len()
        invariant
            i <= ids@.len(),
            ids@ == old(ids)@,
            forall|j: int| 0 <= j < old(ids)@.len() ==> has_room(#[trigger] old(ids)@[j].1),
            forall|j: int| 0 <= j < i ==> (#[trigger] ids@[j]).0@ != id@,
        decreases ids@.len() - i,
    {
        if ids[i].0 == id {
            let name = ids[i].0.clone();
            let d = ids[i].1.bump(level);
            ids.set(i, (name, d));
            proof {
                if unique_ids(old(ids)@) {
                    assert forall|a: int, b: int| 0 <= a < b < ids@.len() implies (#[trigger] ids@[a]).0@ != (#[trigger] ids@[b]).0@ by {
                        assert(old(ids)@[a].0@ != old(ids)@[b].0@);
                    }
                }
            }
            return;
        }
        i = i + 1;
    }
    ids.push((id, LevelDistribution::new(level)));
    assert(ids@.drop_last() =~= old(ids)@);
    proof {
        if unique_ids(old(ids)@) {
            assert forall|a: int, b: int| 0 <= a < b < ids@.len() implies (#[trigger] ids@[a]).0@ != (#[trigger] ids@[b]).0@ by {
                if b < old(ids)@.len() {
                    assert(old(ids)@[a].0@ != old(ids)@[b].0@);
                } else {
                    assert(ids@[a] == old(ids)@[a]);
                }
            }
        }
    }
}

/// No id has two entries.
pub open spec fn unique_ids(ids: Seq<(String, LevelDistribution)>) -> bool {
    forall|a: int, b: int| 0 <= a < b < ids.len() ==> (#[trigger] ids[a]).0@ != (#[trigger] ids[b]).0@
}

/// The histograms of a scanned file.
#[derive(Debug, Clone, PartialEq, Eq)]
pub struct StatisticInfo {
    pub app_ids: Vec<(String, LevelDistribution)>,
    pub context_ids: Vec<(String, LevelDistribution)>,
    pub ecu_ids: Vec<(String, LevelDistribution)>,
    pub contained_non_verbose: bool,
}

/// The id counted for a message that lacks one.
pub open spec fn none_id() -> Seq<char> {
    seq!['N', 'O', 'N', 'E']
}

pub open spec fn app_of(row: StatisticRowInfo) -> Seq<char> {
    match row.app_id_context_id {
        Some(p) => p.0@,
        None => none_id(),
    }
}

pub open spec fn context_of(row: StatisticRowInfo) -> Seq<char> {
    match row.app_id_context_id {
        Some(p) => p.1@,
        None => none_id(),
    }
}

pub open spec fn ecu_of(row: StatisticRowInfo) -> Seq<char> {
    match row.ecu_id {
        Some(e) => e@,
        None => none_id(),
    }
}

impl StatisticInfo {
    /// Each histogram has one entry per id.
    pub open spec fn wf(&self) -> bool {
        &&& unique_ids(self.app_ids@)
        &&& unique_ids(self.context_ids@)
        &&& unique_ids(self.ecu_ids@)
    }

    pub fn new() -> (r: Self)
        ensures
            r.wf(),
            r.app_ids@.len() == 0,
            r.context_ids@.len() == 0,
            r.ecu_ids@.len() == 0,
            !r.contained_non_verbose,
    {
        StatisticInfo { app_ids: Vec::new(), context_ids: Vec::new(), ecu_ids: Vec::new(), contained_non_verbose: false }
    }

    /// Counts one message: its level under its app id, context id and ECU id,
    /// `"NONE"` standing for an id it lacks.
    pub fn add_row(&mut self, row: StatisticRowInfo)
        requires
            all_room(old(self).app_ids@),
            all_room(old(self).context_ids@),
            all_room(old(self).ecu_ids@),
        ensures
            old(self).wf() ==> final(self).wf(),
            final(self).contained_non_verbose == (old(self).contained_non_verbose || !row.verbose),
            counted(old(self).app_ids@, app_of(row), row.level, final(self).app_ids@),
            counted(old(self).context_ids@, context_of(row), row.level, final(self).context_ids@),
            counted(old(self).ecu_ids@, ecu_of(row), row.level, final(self).ecu_ids@),
    {
        proof {
            reveal_strlit("NONE");
        }
        assert("NONE"@ =~= none_id());
        self.contained_non_verbose = self.contained_non_verbose || !row.verbose;
        let ghost want_app = app_of(row);
        let ghost want_context = context_of(row);
        let (app_id, context_id) = match row.app_id_context_id {
            Some(pair) => pair,
            None => ("NONE".to_owned(), "NONE".to_owned()),
        };
        assert(app_id@ == want_app);
        assert(context_id@ == want_context);
        let ecu = match row.ecu_id {
            Some(e) => e,
            None => "NONE".to_owned(),
        };
        add_for_level(row.level, &mut self.app_ids, app_id);
        add_for_level(row.level, &mut self.context_ids, context_id);
        add_for_level(row.level, &mut self.ecu_ids, ecu);
    }
}

/// What the statistics scan does after one refill.
#[derive(Debug, Clone, PartialEq, Eq)]
pub enum ScanStep {
    /// A message of this many bytes was counted.
    Counted(usize),
    /// A garbled message: skip this many bytes and go on.
    Skip(usize),
    /// End of input.
    Done,
    /// Report this error and end the scan.
    Fail(Notification),
}

impl StatisticInfo {
    /// Reads the message at the head of the refill `content` (empty at end of
    /// file) and counts it.
    pub fn scan_next(&mut self, content: &[u8], with_storage_header: bool) -> (r: ScanStep)
        requires
            all_room(old(self).app_ids@),
            all_room(old(self).context_ids@),
            all_room(old(self).ecu_ids@),
        ensures
            old(self).wf() ==> final(self).wf(),
            content@.len() == 0 <==> r == ScanStep::Done,
            r matches ScanStep::Counted(n) ==> n <= content@.len(),
            r matches ScanStep::Fail(x) ==> x.severity == Severity::ERROR && x.line.is_none(),
            !(r matches ScanStep::Counted(_)) ==> *final(self) == *old(self),
            content@.len() > 0 ==> match row_info_of(content@, with_storage_header) {
                Ok((rest_len, row)) => {
                    &&& r == ScanStep::Counted((content@.len() - rest_len) as usize)
                    &&& final(self).contained_non_verbose == (old(self).contained_non_verbose || !row.verbose)
                    &&& counted(old(self).app_ids@, app_of(row), row.level, final(self).app_ids@)
                    &&& counted(old(self).context_ids@, context_of(row), row.level, final(self).context_ids@)
                    &&& counted(old(self).ecu_ids@, ecu_of(row), row.level, final(self).ecu_ids@)
                },
                Err(DecodeResult::ParsingHickup(_)) => r == ScanStep::Skip(DLT_PATTERN_SIZE),
                Err(_) => r matches ScanStep::Fail(_),
            },
    {
        let len = content.len();
        if len == 0 {
            return ScanStep::Done;
        }
        match dlt_statistic_row_info(content, with_storage_header) {
            Ok((rest_len, row)) => {
                self.add_row(row);
                ScanStep::Counted(len - rest_len)
            },
            Err(DecodeResult::ParsingHickup(_)) => ScanStep::Skip(DLT_PATTERN_SIZE),
            Err(DecodeResult::Unrecoverable(m)) => ScanStep::Fail(Notification { severity: Severity::ERROR, content: m, line: None }),
            Err(_) => ScanStep::Fail(Notification {
                severity: Severity::ERROR,
                content: "parse was incomplete".to_owned(),
                line: None,
            }),
        }
    }
}

/// Whether the scan checks for cancellation and reports progress after its
/// `index`-th message.
pub fn stop_check_due(index: usize) -> (b: bool)
    ensures
        b == (index % STOP_CHECK_LINE_THRESHOLD == 0),
{
    index % STOP_CHECK_LINE_THRESHOLD == 0
}

} // verus!
