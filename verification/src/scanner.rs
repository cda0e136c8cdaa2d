//! What a directory scan does with each thing its walk reports: a
//! cancellation stops it; a walk, path or metadata error stops a strict
//! scan and is otherwise kept as a warning while the scan goes on; the
//! root itself is skipped; every other entry is kept. The walk itself (and
//! the ignore rules applied while walking) belongs to the caller.

use crate::error::RCompareError;
use crate::text::{concat_str, push_str};
use crate::types::{AppConfig, FileEntry, FileEntryModel, ScanOutcome, ScanWarning};
use vstd::prelude::*;

verus! {

/// One thing the walk of a scan reports.
pub enum WalkEvent {
    /// The scan was asked to stop.
    Cancelled,
    /// The walk could not read an entry.
    WalkError { path: String, message: String },
    /// An entry's path is not under the scanned root.
    PathError { path: String, message: String },
    /// The scanned root itself.
    Root,
    /// An entry's metadata could not be read.
    MetadataError { path: String, message: String },
    /// An entry, with its path relative to the root.
    Entry(FileEntry),
}

/// What the scan does with a walk event.
pub enum ScanStep {
    /// End the scan with this error.
    Stop(RCompareError),
    /// Keep this warning and go on.
    Warn(ScanWarning),
    /// Go on without keeping anything.
    Skip,
    /// Keep this entry and go on.
    Keep(FileEntry),
}

pub const CANCELLED: &'static str = "Scan cancelled";
pub const STRICT_WALK: &'static str = "Walk error: ";
pub const STRICT_METADATA: &'static str = "Metadata error: ";
pub const WARN_WALK: &'static str = "walk error: ";
pub const WARN_PATH: &'static str = "path error: ";
pub const WARN_METADATA: &'static str = "metadata error (likely a race, file may have vanished): ";

/// A walk event with its texts as character sequences.
pub enum EventModel {
    Cancelled,
    WalkError(Seq<char>, Seq<char>),
    PathError(Seq<char>, Seq<char>),
    Root,
    MetadataError(Seq<char>, Seq<char>),
    Entry(FileEntryModel),
}

/// A scan step with its texts as character sequences.
pub enum StepModel {
    /// The error's kind (by `error_kind`) and message.
    Stop(int, Seq<char>),
    /// The warning's path and message.
    Warn(Seq<char>, Seq<char>),
    Skip,
    Keep(FileEntryModel),
}

/// The kind of an error, as a number (its variant's position), and its
/// message.
pub open spec fn error_model(e: RCompareError) -> (int, Seq<char>) {
    match e {
        RCompareError::Io(m) => (0, m@),
        RCompareError::Vfs(m) => (1, m@),
        RCompareError::Path(m) => (2, m@),
        RCompareError::Config(m) => (3, m@),
        RCompareError::Cache(m) => (4, m@),
        RCompareError::Serialization(m) => (5, m@),
        RCompareError::Comparison(m) => (6, m@),
        RCompareError::PatchParse(m) => (7, m@),
    }
}

impl View for WalkEvent {
    type V = EventModel;

    open spec fn view(&self) -> EventModel {
        match self {
            WalkEvent::Cancelled => EventModel::Cancelled,
            WalkEvent::WalkError { path, message } => EventModel::WalkError(path@, message@),
            WalkEvent::PathError { path, message } => EventModel::PathError(path@, message@),
            WalkEvent::Root => EventModel::Root,
            WalkEvent::MetadataError { path, message } => EventModel::MetadataError(path@, message@),
            WalkEvent::Entry(e) => EventModel::Entry(e@),
        }
    }
}

impl View for ScanStep {
    type V = StepModel;

    open spec fn view(&self) -> StepModel {
        match self {
            ScanStep::Stop(e) => StepModel::Stop(error_model(*e).0, error_model(*e).1),
            ScanStep::Warn(w) => StepModel::Warn(w.path@, w.message@),
            ScanStep::Skip => StepModel::Skip,
            ScanStep::Keep(e) => StepModel::Keep(e@),
        }
    }
}

/// What a scan, strict or not, does with a walk event.
pub open spec fn step_for(strict: bool, ev: EventModel) -> StepModel {
    match ev {
        EventModel::Cancelled => StepModel::Stop(6, CANCELLED@),
        EventModel::WalkError(p, m) => if strict {
            StepModel::Stop(0, STRICT_WALK@ + m)
        } else {
            StepModel::Warn(p, WARN_WALK@ + m)
        },
        EventModel::PathError(p, m) => if strict {
            StepModel::Stop(2, m)
        } else {
            StepModel::Warn(p, WARN_PATH@ + m)
        },
        EventModel::Root => StepModel::Skip,
        EventModel::MetadataError(p, m) => if strict {
            StepModel::Stop(0, STRICT_METADATA@ + m)
        } else {
            StepModel::Warn(p, WARN_METADATA@ + m)
        },
        EventModel::Entry(e) => StepModel::Keep(e),
    }
}

/// The models of a list of entries.
pub open spec fn entries_model(v: Seq<FileEntry>) -> Seq<FileEntryModel> {
    v.map_values(|e: FileEntry| e@)
}

/// The models of a list of warnings.
pub open spec fn warnings_model(v: Seq<ScanWarning>) -> Seq<(Seq<char>, Seq<char>)> {
    v.map_values(|w: ScanWarning| (w.path@, w.message@))
}

/// Parallel folder scanner settings: the configuration (ignore patterns,
/// symlink following) and whether errors stop the scan.
pub struct FolderScanner {
    pub config: AppConfig,
    pub strict: bool,
}

impl FolderScanner {
    pub fn new(config: AppConfig) -> (res: Self)
        ensures
            res.config == config,
            !res.strict,
    {
        FolderScanner { config, strict: false }
    }

    /// Fail fast on file system races and permission errors instead of
    /// keeping them as warnings and going on.
    pub fn with_strict(self, strict: bool) -> (res: Self)
        ensures
            res.config == self.config,
            res.strict == strict,
    {
        FolderScanner { strict, ..self }
    }

    /// What the scan does with a walk event.
    pub fn scan_step(&self, event: WalkEvent) -> (res: ScanStep)
        ensures
            res@ == step_for(self.strict, event@),
    {
        match event {
            WalkEvent::Cancelled => ScanStep::Stop(RCompareError::Comparison(CANCELLED.to_owned())),
            WalkEvent::WalkError { path, message } => if self.strict {
                ScanStep::Stop(RCompareError::Io(concat_str(STRICT_WALK, message.as_str())))
            } else {
                ScanStep::Warn(ScanWarning { path, message: concat_str(WARN_WALK, message.as_str()) })
            },
            WalkEvent::PathError { path, message } => if self.strict {
                ScanStep::Stop(RCompareError::Path(message))
            } else {
                ScanStep::Warn(ScanWarning { path, message: concat_str(WARN_PATH, message.as_str()) })
            },
            WalkEvent::Root => ScanStep::Skip,
            WalkEvent::MetadataError { path, message } => if self.strict {
                ScanStep::Stop(RCompareError::Io(concat_str(STRICT_METADATA, message.as_str())))
            } else {
                ScanStep::Warn(ScanWarning { path, message: concat_str(WARN_METADATA, message.as_str()) })
            },
            WalkEvent::Entry(e) => ScanStep::Keep(e),
        }
    }

    /// Takes a step into the outcome: a warning or an entry is appended, a
    /// skip leaves it as it is, and a stop is handed back as the error.
    pub fn record(outcome: &mut ScanOutcome, step: ScanStep) -> (res: Option<RCompareError>)
        ensures
            match step@ {
                StepModel::Stop(k, m) => (res matches Some(e) && error_model(e) == (k, m))
                    && entries_model(final(outcome).entries@) == entries_model(old(outcome).entries@)
                    && warnings_model(final(outcome).warnings@) == warnings_model(old(outcome).warnings@),
                StepModel::Warn(p, m) => res is None
                    && entries_model(final(outcome).entries@) == entries_model(old(outcome).entries@)
                    && warnings_model(final(outcome).warnings@) == warnings_model(old(outcome).warnings@).push((p, m)),
                StepModel::Skip => res is None
                    && entries_model(final(outcome).entries@) == entries_model(old(outcome).entries@)
                    && warnings_model(final(outcome).warnings@) == warnings_model(old(outcome).warnings@),
                StepModel::Keep(e) => res is None
                    && entries_model(final(outcome).entries@) == entries_model(old(outcome).entries@).push(e)
                    && warnings_model(final(outcome).warnings@) == warnings_model(old(outcome).warnings@),
            },
    {
        match step {
            ScanStep::Stop(e) => Some(e),
            ScanStep::Warn(w) => {
                outcome.warnings.push(w);
                assert(warnings_model(outcome.warnings@) =~= warnings_model(old(outcome).warnings@).push((outcome.warnings@.last().path@, outcome.warnings@.last().message@)));
                assert(entries_model(outcome.entries@) =~= entries_model(old(outcome).entries@));
                None
            },
            ScanStep::Skip => None,
            ScanStep::Keep(e) => {
                outcome.entries.push(e);
                assert(entries_model(outcome.entries@) =~= entries_model(old(outcome).entries@).push(outcome.entries@.last()@));
                assert(warnings_model(outcome.warnings@) =~= warnings_model(old(outcome).warnings@));
                None
            },
        }
    }
}

/// A scan that is not strict stops only when it is cancelled: every walk,
/// path or metadata error becomes a warning; and a strict scan stops on
/// every error. Entries are always kept and the root always skipped.
pub proof fn lemma_lenient_scan_stops_only_when_cancelled(strict: bool, ev: EventModel)
    ensures
        step_for(strict, ev) is Stop <==> (ev is Cancelled || (strict && (ev is WalkError || ev is PathError
            || ev is MetadataError))),
        ev is Entry ==> step_for(strict, ev) == StepModel::Keep(ev->Entry_0),
        ev is Root ==> step_for(strict, ev) is Skip,
{
}

} // verus!
