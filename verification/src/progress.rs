//! Progress reporting data: the stages of a scan and comparison, snapshots
//! of progress, and the counters that workers advance.

use vstd::prelude::*;

verus! {

/// Current stage of a scan/compare operation.
#[derive(Debug, Clone, Copy, PartialEq, Eq, Structural)]
pub enum ScanStage {
    /// Collecting file entries from the left source.
    ScanningLeft,
    /// Collecting file entries from the right source.
    ScanningRight,
    /// Comparing file metadata (sizes, timestamps).
    Comparing,
    /// Computing content hashes for verification.
    Hashing,
    /// Running specialized diffs (text, image, CSV, ...).
    DiffingFiles,
    /// Persisting hash cache to disk.
    SavingCache,
    /// Operation complete.
    Done,
}

/// How a stage is shown to the user.
pub open spec fn stage_label(s: ScanStage) -> Seq<char> {
    match s {
        ScanStage::ScanningLeft => LABEL_SCANNING_LEFT@,
        ScanStage::ScanningRight => LABEL_SCANNING_RIGHT@,
        ScanStage::Comparing => LABEL_COMPARING@,
        ScanStage::Hashing => LABEL_HASHING@,
        ScanStage::DiffingFiles => LABEL_DIFFING@,
        ScanStage::SavingCache => LABEL_SAVING@,
        ScanStage::Done => LABEL_DONE@,
    }
}

pub const LABEL_SCANNING_LEFT: &'static str = "Scanning left";
pub const LABEL_SCANNING_RIGHT: &'static str = "Scanning right";
pub const LABEL_COMPARING: &'static str = "Comparing";
pub const LABEL_HASHING: &'static str = "Hashing";
pub const LABEL_DIFFING: &'static str = "Diffing files";
pub const LABEL_SAVING: &'static str = "Saving cache";
pub const LABEL_DONE: &'static str = "Done";

impl ScanStage {
    /// The stage as shown to the user.
    pub fn label(&self) -> (res: String)
        ensures
            res@ == stage_label(*self),
    {
        let t = match self {
            ScanStage::ScanningLeft => LABEL_SCANNING_LEFT,
            ScanStage::ScanningRight => LABEL_SCANNING_RIGHT,
            ScanStage::Comparing => LABEL_COMPARING,
            ScanStage::Hashing => LABEL_HASHING,
            ScanStage::DiffingFiles => LABEL_DIFFING,
            ScanStage::SavingCache => LABEL_SAVING,
            ScanStage::Done => LABEL_DONE,
        };
        t.to_owned()
    }
}

/// A snapshot of progress.
#[derive(Debug, Clone, Copy)]
pub struct ProgressData {
    /// Current operation stage.
    pub stage: ScanStage,
    /// Index of the current stage (0-based).
    pub stage_index: u8,
    /// Total number of stages.
    pub stage_count: u8,
    /// Entries processed so far in this stage.
    pub entries_done: usize,
    /// Total entries expected in this stage (0 if unknown).
    pub entries_total: usize,
    /// Bytes processed so far in this stage.
    pub bytes_done: u64,
    /// Total bytes expected in this stage (0 if unknown).
    pub bytes_total: u64,
}

/// The whole percentage that `done` of `total` is, rounded down, capped at
/// 100; 0 when the total is unknown (zero).
pub open spec fn percent_of(done: int, total: int) -> int {
    if total > 0 {
        if done * 100 / total >= 100 { 100 } else { done * 100 / total }
    } else {
        0
    }
}

impl ProgressData {
    /// Percentage of the stage's entries done (0 to 100, rounded down);
    /// 0 when the total is unknown.
    pub fn percent(&self) -> (res: u8)
        ensures
            res == percent_of(self.entries_done as int, self.entries_total as int),
    {
        if self.entries_total > 0 {
            let scaled = self.entries_done as u128 * 100;
            let p = scaled / self.entries_total as u128;
            if p >= 100 { 100 } else { p as u8 }
        } else {
            0
        }
    }
}

/// Counters that workers advance while a stage runs.
#[derive(Debug, Clone, Copy)]
pub struct ProgressCounters {
    pub entries_done: usize,
    pub entries_total: usize,
    pub bytes_done: u64,
    pub bytes_total: u64,
}

impl Default for ProgressCounters {
    fn default() -> (res: Self)
        ensures
            res.entries_done == 0 && res.entries_total == 0 && res.bytes_done == 0 && res.bytes_total == 0,
    {
        ProgressCounters { entries_done: 0, entries_total: 0, bytes_done: 0, bytes_total: 0 }
    }
}

impl ProgressCounters {
    /// Resets all counters to zero.
    pub fn reset(&mut self)
        ensures
            final(self).entries_done == 0,
            final(self).entries_total == 0,
            final(self).bytes_done == 0,
            final(self).bytes_total == 0,
    {
        self.entries_done = 0;
        self.entries_total = 0;
        self.bytes_done = 0;
        self.bytes_total = 0;
    }

    /// A snapshot of the counters at a stage.
    pub fn snapshot(&self, stage: ScanStage, stage_index: u8, stage_count: u8) -> (res: ProgressData)
        ensures
            res.stage == stage,
            res.stage_index == stage_index,
            res.stage_count == stage_count,
            res.entries_done == self.entries_done,
            res.entries_total == self.entries_total,
            res.bytes_done == self.bytes_done,
            res.bytes_total == self.bytes_total,
    {
        ProgressData {
            stage,
            stage_index,
            stage_count,
            entries_done: self.entries_done,
            entries_total: self.entries_total,
            bytes_done: self.bytes_done,
            bytes_total: self.bytes_total,
        }
    }
}

} // verus!
