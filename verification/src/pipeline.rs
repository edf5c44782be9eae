//! The processing of a claimed download job, as steps: the outside work
//! (downloading, checking, hashing, moving files, reading the queue) is done
//! by the caller, which reports each outcome and receives the next action.

use vstd::prelude::*;
use crate::domain::{AppLogLevel, DownloadJobRecord};
use crate::clock::{instant_text, instant_text_of};
use crate::queue::FailureDecision;
use crate::text::push_str;
use crate::media::{
    final_file_name, final_name_text, path_join, path_join_of, path_strip_prefix_of,
    relative_storage_path, storage_path_text,
};

verus! {

/// Where the processing of a claimed job stands.
#[derive(Clone, Debug)]
pub enum JobPhase {
    Downloading,
    Validating,
    Hashing,
    CheckingDuplicate { sha256: String },
    ResolvingFolder { sha256: String },
    CheckingDestination { sha256: String, final_path: String, relative_path: String },
    Moving { sha256: String, final_path: String, relative_path: String },
    ReadingOrigin { sha256: String, final_path: String, relative_path: String },
    Finished,
}

/// The outcome of the outside work last asked for.
#[derive(Clone, Debug)]
pub enum JobEvent {
    DownloadFailed { description: String },
    Downloaded,
    Validated,
    Hashed { sha256: String },
    DuplicateFound { saved_relative_path: Option<String> },
    NoDuplicate,
    FolderResolved { folder: String },
    DestinationChecked { exists: bool },
    Moved,
    OriginRead { origin_timestamp: Option<i64> },
    StepFailed { description: String },
}

/// What the caller does next.
#[derive(Clone, Debug)]
pub enum JobAction {
    /// Record the failed download on the job (cool down, or give up).
    RecordFailure { description: String },
    /// Check the downloaded file.
    Validate,
    /// Hash the downloaded file.
    Hash,
    /// Look for a stored file of the same room, category and hash.
    FindDuplicate { sha256: String },
    /// Find the folder the job's room and category store into.
    ResolveFolder,
    /// Check whether the destination exists.
    CheckDestination { final_path: String },
    /// Move the downloaded file to its destination.
    MoveInto { final_path: String },
    /// Look up when the attachment was first seen.
    ReadOrigin,
    /// Record the job as a duplicate of a stored file.
    MarkDuplicate { sha256: String, saved_relative_path: Option<String> },
    /// Stamp the file with the origin time, if known, and record the job as done.
    Complete { sha256: String, final_path: String, relative_path: String, origin_timestamp: Option<i64> },
    /// Remove the downloaded file and report the error.
    Abandon { description: String },
    /// The outcome does not belong to this phase: nothing to do.
    Ignore,
}

/// A job's name in logs and progress: its file name, else its event ID.
pub open spec fn job_display_name_text(job: DownloadJobRecord) -> Seq<char> {
    match job.original_filename.deep_view() {
        Some(f) => f,
        None => job.event_id@,
    }
}

pub fn job_display_name(job: &DownloadJobRecord) -> (r: String)
    ensures
        r@ == job_display_name_text(*job),
{
    match &job.original_filename {
        Some(f) => f.clone(),
        None => job.event_id.clone(),
    }
}

/// The destination of a file: the hash-named file in the folder.
pub open spec fn destination_path(folder: Seq<char>, sha256: Seq<char>, extension: Option<Seq<char>>) -> Seq<
    char,
> {
    path_join_of(folder, final_name_text(sha256, extension))
}

/// How a stored path is recorded, relative to the destination root.
pub open spec fn recorded_path(root: Seq<char>, path: Seq<char>) -> Seq<char> {
    storage_path_text(
        match path_strip_prefix_of(path, root) {
            Some(p) => p,
            None => path,
        },
    )
}

pub open spec fn mid_phase(p: JobPhase) -> bool {
    !(p is Downloading) && !(p is Finished)
}

fn copy_phase(p: &JobPhase) -> (r: JobPhase)
    ensures
        r == *p,
{
    match p {
        JobPhase::Downloading => JobPhase::Downloading,
        JobPhase::Validating => JobPhase::Validating,
        JobPhase::Hashing => JobPhase::Hashing,
        JobPhase::CheckingDuplicate { sha256 } => JobPhase::CheckingDuplicate { sha256: sha256.clone() },
        JobPhase::ResolvingFolder { sha256 } => JobPhase::ResolvingFolder { sha256: sha256.clone() },
        JobPhase::CheckingDestination { sha256, final_path, relative_path } => JobPhase::CheckingDestination {
            sha256: sha256.clone(),
            final_path: final_path.clone(),
            relative_path: relative_path.clone(),
        },
        JobPhase::Moving { sha256, final_path, relative_path } => JobPhase::Moving {
            sha256: sha256.clone(),
            final_path: final_path.clone(),
            relative_path: relative_path.clone(),
        },
        JobPhase::ReadingOrigin { sha256, final_path, relative_path } => JobPhase::ReadingOrigin {
            sha256: sha256.clone(),
            final_path: final_path.clone(),
            relative_path: relative_path.clone(),
        },
        JobPhase::Finished => JobPhase::Finished,
    }
}

/// The next phase and action for an outcome. A failed download is recorded
/// on the job; a failure after the download abandons the file; a duplicate
/// (by hash, or an existing destination) is recorded as such; otherwise the
/// file is moved to `<folder>/<sha256>[.<extension>]` and the job completed
/// with its path relative to `destination_root`.
pub fn job_step(
    phase: &JobPhase,
    event: &JobEvent,
    destination_root: &str,
    extension: Option<&str>,
) -> (r: (JobPhase, JobAction))
    ensures
        match (*phase, *event) {
            (JobPhase::Downloading, JobEvent::DownloadFailed { description }) => r.0 is Finished
                && (r.1 matches JobAction::RecordFailure { description: d } && d == description),
            (JobPhase::Downloading, JobEvent::Downloaded) => r.0 is Validating && r.1 is Validate,
            (JobPhase::Validating, JobEvent::Validated) => r.0 is Hashing && r.1 is Hash,
            (JobPhase::Hashing, JobEvent::Hashed { sha256 }) => (r.0 matches JobPhase::CheckingDuplicate {
                sha256: s,
            } && s == sha256) && (r.1 matches JobAction::FindDuplicate { sha256: s } && s == sha256),
            (
                JobPhase::CheckingDuplicate { sha256 },
                JobEvent::DuplicateFound { saved_relative_path },
            ) => r.0 is Finished && (r.1 matches JobAction::MarkDuplicate {
                sha256: s,
                saved_relative_path: p,
            } && s == sha256 && p == saved_relative_path),
            (JobPhase::CheckingDuplicate { sha256 }, JobEvent::NoDuplicate) => (r.0 matches JobPhase::ResolvingFolder {
                sha256: s,
            } && s == sha256) && r.1 is ResolveFolder,
            (JobPhase::ResolvingFolder { sha256 }, JobEvent::FolderResolved { folder }) => (r.0 matches JobPhase::CheckingDestination {
                sha256: s,
                final_path: f,
                relative_path: p,
            } && s == sha256 && f@ == destination_path(folder@, sha256@, extension.deep_view())
                && p@ == recorded_path(destination_root@, f@)) && (r.1 matches JobAction::CheckDestination {
                final_path: f2,
            } && f2@ == destination_path(folder@, sha256@, extension.deep_view())),
            (
                JobPhase::CheckingDestination { sha256, final_path, relative_path },
                JobEvent::DestinationChecked { exists },
            ) => if exists {
                r.0 is Finished && (r.1 matches JobAction::MarkDuplicate {
                    sha256: s,
                    saved_relative_path: Some(p),
                } && s == sha256 && p == relative_path)
            } else {
                r.0 == JobPhase::Moving { sha256, final_path, relative_path } && (r.1 matches JobAction::MoveInto {
                    final_path: f,
                } && f == final_path)
            },
            (JobPhase::Moving { sha256, final_path, relative_path }, JobEvent::Moved) => r.0
                == JobPhase::ReadingOrigin { sha256, final_path, relative_path } && r.1 is ReadOrigin,
            (
                JobPhase::ReadingOrigin { sha256, final_path, relative_path },
                JobEvent::OriginRead { origin_timestamp },
            ) => r.0 is Finished && r.1 == JobAction::Complete {
                sha256,
                final_path,
                relative_path,
                origin_timestamp,
            },
            (p, JobEvent::StepFailed { description }) => if mid_phase(p) {
                r.0 is Finished && (r.1 matches JobAction::Abandon { description: d } && d == description)
            } else {
                r.0 == p && r.1 is Ignore
            },
            (p, _) => r.0 == p && r.1 is Ignore,
        },
{
    match (phase, event) {
        (JobPhase::Downloading, JobEvent::DownloadFailed { description }) => (
            JobPhase::Finished,
            JobAction::RecordFailure { description: description.clone() },
        ),
        (JobPhase::Downloading, JobEvent::Downloaded) => (JobPhase::Validating, JobAction::Validate),
        (JobPhase::Validating, JobEvent::Validated) => (JobPhase::Hashing, JobAction::Hash),
        (JobPhase::Hashing, JobEvent::Hashed { sha256 }) => (
            JobPhase::CheckingDuplicate { sha256: sha256.clone() },
            JobAction::FindDuplicate { sha256: sha256.clone() },
        ),
        (JobPhase::CheckingDuplicate { sha256 }, JobEvent::DuplicateFound { saved_relative_path }) => (
            JobPhase::Finished,
            JobAction::MarkDuplicate {
                sha256: sha256.clone(),
                saved_relative_path: match saved_relative_path {
                    Some(p) => Some(p.clone()),
                    None => None,
                },
            },
        ),
        (JobPhase::CheckingDuplicate { sha256 }, JobEvent::NoDuplicate) => (
            JobPhase::ResolvingFolder { sha256: sha256.clone() },
            JobAction::ResolveFolder,
        ),
        (JobPhase::ResolvingFolder { sha256 }, JobEvent::FolderResolved { folder }) => {
            let name = final_file_name(sha256.as_str(), extension);
            let final_path = path_join(folder.as_str(), name.as_str());
            let relative_path = relative_storage_path(destination_root, final_path.as_str());
            (
                JobPhase::CheckingDestination {
                    sha256: sha256.clone(),
                    final_path: final_path.clone(),
                    relative_path,
                },
                JobAction::CheckDestination { final_path },
            )
        },
        (
            JobPhase::CheckingDestination { sha256, final_path, relative_path },
            JobEvent::DestinationChecked { exists },
        ) => {
            if *exists {
                (
                    JobPhase::Finished,
                    JobAction::MarkDuplicate {
                        sha256: sha256.clone(),
                        saved_relative_path: Some(relative_path.clone()),
                    },
                )
            } else {
                (
                    JobPhase::Moving {
                        sha256: sha256.clone(),
                        final_path: final_path.clone(),
                        relative_path: relative_path.clone(),
                    },
                    JobAction::MoveInto { final_path: final_path.clone() },
                )
            }
        },
        (JobPhase::Moving { sha256, final_path, relative_path }, JobEvent::Moved) => (
            JobPhase::ReadingOrigin {
                sha256: sha256.clone(),
                final_path: final_path.clone(),
                relative_path: relative_path.clone(),
            },
            JobAction::ReadOrigin,
        ),
        (
            JobPhase::ReadingOrigin { sha256, final_path, relative_path },
            JobEvent::OriginRead { origin_timestamp },
        ) => (
            JobPhase::Finished,
            JobAction::Complete {
                sha256: sha256.clone(),
                final_path: final_path.clone(),
                relative_path: relative_path.clone(),
                origin_timestamp: *origin_timestamp,
            },
        ),
        (p, JobEvent::StepFailed { description }) => {
            match p {
                JobPhase::Downloading => (JobPhase::Downloading, JobAction::Ignore),
                JobPhase::Finished => (JobPhase::Finished, JobAction::Ignore),
                _ => (JobPhase::Finished, JobAction::Abandon { description: description.clone() }),
            }
        },
        (p, _) => (copy_phase(p), JobAction::Ignore),
    }
}

/// The log line for a failed download: a job waiting for keys, a job that
/// failed for good, or one cooling down (`until` is the time it is due).
pub open spec fn failure_log_text(
    decision: FailureDecision,
    name: Seq<char>,
    description: Seq<char>,
    until: Seq<char>,
) -> (AppLogLevel, Seq<char>) {
    match decision {
        FailureDecision::Undecryptable { .. } => (
            AppLogLevel::Warning,
            "Marked "@ + name + " as undecryptable pending keys until "@ + until + "."@,
        ),
        FailureDecision::CoolDown { permanently_failed, .. } => if permanently_failed {
            (AppLogLevel::Error, name + " failed permanently: "@ + description)
        } else {
            (AppLogLevel::Warning, name + " failed. Cooling down until "@ + until + ": "@ + description)
        },
    }
}

pub fn failure_log(decision: &FailureDecision, name: &str, description: &str, until: &str) -> (r: (
    AppLogLevel,
    String,
))
    ensures
        r.0 == failure_log_text(*decision, name@, description@, until@).0,
        r.1@ == failure_log_text(*decision, name@, description@, until@).1,
{
    let mut text = String::new();
    match decision {
        FailureDecision::Undecryptable { .. } => {
            push_str(&mut text, "Marked ");
            push_str(&mut text, name);
            push_str(&mut text, " as undecryptable pending keys until ");
            push_str(&mut text, until);
            push_str(&mut text, ".");
            (AppLogLevel::Warning, text)
        },
        FailureDecision::CoolDown { permanently_failed, .. } => {
            push_str(&mut text, name);
            if *permanently_failed {
                push_str(&mut text, " failed permanently: ");
                push_str(&mut text, description);
                (AppLogLevel::Error, text)
            } else {
                push_str(&mut text, " failed. Cooling down until ");
                push_str(&mut text, until);
                push_str(&mut text, ": ");
                push_str(&mut text, description);
                (AppLogLevel::Warning, text)
            }
        },
    }
}

/// When a failed job may be tried again, as its log line gives it: in
/// RFC 3339 with whole seconds while it waits for keys, as `chrono` displays
/// the time while it cools down.
pub open spec fn failure_until_text(decision: FailureDecision) -> Seq<char> {
    match decision {
        FailureDecision::Undecryptable { next_eligible_at } => instant_text_of(next_eligible_at, true),
        FailureDecision::CoolDown { next_eligible_at, .. } => instant_text_of(next_eligible_at, false),
    }
}

pub fn failure_until(decision: &FailureDecision) -> (r: String)
    ensures
        r@ == failure_until_text(*decision),
{
    match decision {
        FailureDecision::Undecryptable { next_eligible_at } => instant_text(*next_eligible_at, true),
        FailureDecision::CoolDown { next_eligible_at, .. } => instant_text(*next_eligible_at, false),
    }
}

/// The log line for a job skipped as a duplicate.
pub fn duplicate_log(name: &str) -> (r: String)
    ensures
        r@ == "Skipped duplicate "@ + name@,
{
    let mut text = String::new();
    push_str(&mut text, "Skipped duplicate ");
    push_str(&mut text, name);
    text
}

/// The log line for a stored download.
pub fn completion_log(name: &str, relative_path: &str) -> (r: String)
    ensures
        r@ == "Downloaded "@ + name@ + " -> "@ + relative_path@,
{
    let mut text = String::new();
    push_str(&mut text, "Downloaded ");
    push_str(&mut text, name);
    push_str(&mut text, " -> ");
    push_str(&mut text, relative_path);
    text
}

} // verus!
