//! The protocol that replaces a history file without losing it: read it,
//! move it to a backup beside it, write the new content, then remove the backup
//! or, where the write failed, move the backup back.
//!
//! The library decides; the caller performs each step on the filesystem and
//! reports whether it succeeded.

use vstd::prelude::*;

verus! {

/// How a filter operation failed.
#[derive(Clone, Copy, Debug, PartialEq, Eq, Structural)]
pub enum HistFileError {
    /// The history file could not be read; nothing was written.
    ReadFailed,
    /// The history file could not be moved to its backup; it is untouched.
    NoWritableBackup,
    /// The new content could not be written; the backup was moved back.
    WriteFailed,
    /// The new content is in place, but the backup could not be removed.
    CleanupFailed,
    /// Neither the new content nor the backup could be put in place: the
    /// original content is only in the backup.
    Unrecoverable,
}

/// A filesystem step of the protocol.
#[derive(Clone, Copy, Debug, PartialEq, Eq, Structural)]
pub enum Step {
    /// Read the history file and compute its new content.
    Read,
    /// Rename the history file to its backup.
    Backup,
    /// Create the history file with the new content.
    Write,
    /// Remove the backup.
    Cleanup,
    /// Rename the backup to the history file.
    Rollback,
}

/// Where a rewrite of the history file stands.
#[derive(Clone, Copy, Debug, PartialEq, Eq, Structural)]
pub enum Phase {
    Unread,
    ReadFailed,
    Start,
    BackedUp,
    Written,
    WriteFailed,
    BackupFailed,
    Cleaned,
    CleanupFailed,
    RolledBack,
    Unrecoverable,
}

/// The step to perform in phase `p`; none once the protocol has ended.
pub open spec fn step_of(p: Phase) -> Option<Step> {
    match p {
        Phase::Unread => Some(Step::Read),
        Phase::Start => Some(Step::Backup),
        Phase::BackedUp => Some(Step::Write),
        Phase::Written => Some(Step::Cleanup),
        Phase::WriteFailed => Some(Step::Rollback),
        _ => None,
    }
}

/// The phase after the step of phase `p` succeeded (`ok`) or failed.
pub open spec fn next_phase(p: Phase, ok: bool) -> Option<Phase> {
    match p {
        Phase::Unread => Some(if ok { Phase::Start } else { Phase::ReadFailed }),
        Phase::Start => Some(if ok { Phase::BackedUp } else { Phase::BackupFailed }),
        Phase::BackedUp => Some(if ok { Phase::Written } else { Phase::WriteFailed }),
        Phase::Written => Some(if ok { Phase::Cleaned } else { Phase::CleanupFailed }),
        Phase::WriteFailed => Some(if ok { Phase::RolledBack } else { Phase::Unrecoverable }),
        _ => None,
    }
}

/// What the operation reports once it has ended in phase `p`.
pub open spec fn result_of(p: Phase) -> Option<Result<(), HistFileError>> {
    match p {
        Phase::Cleaned => Some(Ok(())),
        Phase::ReadFailed => Some(Err(HistFileError::ReadFailed)),
        Phase::BackupFailed => Some(Err(HistFileError::NoWritableBackup)),
        Phase::CleanupFailed => Some(Err(HistFileError::CleanupFailed)),
        Phase::RolledBack => Some(Err(HistFileError::WriteFailed)),
        Phase::Unrecoverable => Some(Err(HistFileError::Unrecoverable)),
        _ => None,
    }
}

/// The step to perform next, or `None` once the protocol has ended.
pub fn next_step(phase: Phase) -> (r: Option<Step>)
    ensures
        r == step_of(phase),
{
    match phase {
        Phase::Unread => Some(Step::Read),
        Phase::Start => Some(Step::Backup),
        Phase::BackedUp => Some(Step::Write),
        Phase::Written => Some(Step::Cleanup),
        Phase::WriteFailed => Some(Step::Rollback),
        _ => None,
    }
}

/// The phase after the step of `phase` succeeded or failed.
pub fn advance(phase: Phase, succeeded: bool) -> (r: Phase)
    requires
        step_of(phase) is Some,
    ensures
        next_phase(phase, succeeded) == Some(r),
{
    match phase {
        Phase::Unread => if succeeded { Phase::Start } else { Phase::ReadFailed },
        Phase::Start => if succeeded { Phase::BackedUp } else { Phase::BackupFailed },
        Phase::BackedUp => if succeeded { Phase::Written } else { Phase::WriteFailed },
        Phase::Written => if succeeded { Phase::Cleaned } else { Phase::CleanupFailed },
        _ => if succeeded { Phase::RolledBack } else { Phase::Unrecoverable },
    }
}

/// What the operation reports, once it has ended.
pub fn outcome(phase: Phase) -> (r: Option<Result<(), HistFileError>>)
    ensures
        r == result_of(phase),
{
    match phase {
        Phase::Cleaned => Some(Ok(())),
        Phase::ReadFailed => Some(Err(HistFileError::ReadFailed)),
        Phase::BackupFailed => Some(Err(HistFileError::NoWritableBackup)),
        Phase::CleanupFailed => Some(Err(HistFileError::CleanupFailed)),
        Phase::RolledBack => Some(Err(HistFileError::WriteFailed)),
        Phase::Unrecoverable => Some(Err(HistFileError::Unrecoverable)),
        _ => None,
    }
}

/// The two files the protocol touches, each absent or holding bytes.
pub struct Files {
    pub history: Option<Seq<u8>>,
    pub backup: Option<Seq<u8>>,
}

/// What a step that succeeded (`ok`) or failed may do to the files, where
/// `data` is the new content. Reading changes nothing; a failed rename changes nothing; a failed write
/// may leave anything at the history path, but leaves the backup alone.
pub open spec fn step_effect(st: Step, ok: bool, before: Files, after: Files, data: Seq<u8>) -> bool {
    match st {
        Step::Read => after == before,
        Step::Backup => if ok {
            before.history is Some && after == (Files { history: None, backup: before.history })
        } else {
            after == before
        },
        Step::Write => if ok {
            after == (Files { history: Some(data), backup: before.backup })
        } else {
            after.backup == before.backup
        },
        Step::Cleanup => if ok {
            after == (Files { history: before.history, backup: None })
        } else {
            after == before
        },
        Step::Rollback => if ok {
            before.backup is Some && after == (Files { history: before.backup, backup: None })
        } else {
            after == before
        },
    }
}

/// The phase that a run of the protocol reaches, where `outcomes[k]` tells
/// whether its `k`-th step succeeded and `files[k]` is the state of the files
/// before that step; `None` where the states do not fit the steps.
pub open spec fn reaches(outcomes: Seq<bool>, files: Seq<Files>, data: Seq<u8>) -> Option<Phase>
    decreases outcomes.len(),
{
    if files.len() != outcomes.len() + 1 {
        None
    } else if outcomes.len() == 0 {
        Some(Phase::Unread)
    } else {
        match reaches(outcomes.drop_last(), files.drop_last(), data) {
            Some(p) => match step_of(p) {
                Some(st) => if step_effect(
                    st,
                    outcomes.last(),
                    files[files.len() - 2],
                    files.last(),
                    data,
                ) {
                    next_phase(p, outcomes.last())
                } else {
                    None
                },
                None => None,
            },
            None => None,
        }
    }
}

/// What holds of the files in phase `p`, from the state `first` they were in
/// before the protocol began.
pub open spec fn phase_inv(p: Phase, first: Files, now: Files, data: Seq<u8>) -> bool {
    match p {
        Phase::Unread => now == first,
        Phase::ReadFailed => now == first,
        Phase::Start => now == first,
        Phase::BackedUp => first.history is Some && now == (Files {
            history: None,
            backup: first.history,
        }),
        Phase::BackupFailed => now == first,
        Phase::Written => now == (Files { history: Some(data), backup: first.history }),
        Phase::WriteFailed => first.history is Some && now.backup == first.history,
        Phase::Cleaned => now == (Files { history: Some(data), backup: None }),
        Phase::CleanupFailed => now == (Files { history: Some(data), backup: first.history }),
        Phase::RolledBack => now == (Files { history: first.history, backup: None }),
        Phase::Unrecoverable => now.backup == first.history,
    }
}

proof fn lemma_reaches_inv(outcomes: Seq<bool>, files: Seq<Files>, data: Seq<u8>)
    requires
        reaches(outcomes, files, data) is Some,
    ensures
        phase_inv(reaches(outcomes, files, data)->0, files[0], files.last(), data),
        reaches(outcomes, files, data) == Some(Phase::Unread) ==> outcomes.len() == 0,
        reaches(outcomes, files, data) == Some(Phase::ReadFailed) ==> outcomes.len() == 1,
    decreases outcomes.len(),
{
    if outcomes.len() > 0 {
        let before = files.drop_last();
        lemma_reaches_inv(outcomes.drop_last(), before, data);
        assert(before[0] == files[0]);
        assert(before.last() == files[files.len() - 2]);
    }
}

/// When the history file cannot be read, its read is the only step taken:
/// no backup is made, nothing is written, and the files are as they were.
pub proof fn lemma_failed_read_touches_nothing(
    outcomes: Seq<bool>,
    files: Seq<Files>,
    data: Seq<u8>,
)
    requires
        reaches(outcomes, files, data) == Some(Phase::ReadFailed),
    ensures
        outcomes.len() == 1,
        files.last() == files[0],
        result_of(Phase::ReadFailed) == Some(Err::<(), HistFileError>(HistFileError::ReadFailed)),
{
    lemma_reaches_inv(outcomes, files, data);
}

/// When the new content cannot be written, nothing is lost: after the
/// rollback the history file holds exactly the bytes it held before, and if
/// the rollback fails too, the backup holds them. Where the backup itself
/// could not be made, the files are as they were.
pub proof fn lemma_failed_write_loses_nothing(
    outcomes: Seq<bool>,
    files: Seq<Files>,
    data: Seq<u8>,
)
    requires
        reaches(outcomes, files, data) is Some,
    ensures
        reaches(outcomes, files, data) == Some(Phase::RolledBack) ==> files.last().history
            == files[0].history && files.last().backup is None,
        reaches(outcomes, files, data) == Some(Phase::Unrecoverable) ==> files.last().backup
            == files[0].history,
        reaches(outcomes, files, data) == Some(Phase::BackupFailed) ==> files.last() == files[0],
{
    lemma_reaches_inv(outcomes, files, data);
}

/// Once the protocol has succeeded no backup remains and the history file
/// holds the new content; the one case that leaves the backup behind is
/// reported as its own error.
pub proof fn lemma_success_leaves_no_backup(outcomes: Seq<bool>, files: Seq<Files>, data: Seq<u8>)
    requires
        reaches(outcomes, files, data) is Some,
    ensures
        reaches(outcomes, files, data) == Some(Phase::Cleaned) ==> files.last() == (Files {
            history: Some(data),
            backup: None,
        }) && result_of(Phase::Cleaned) == Some(Ok::<(), HistFileError>(())),
        reaches(outcomes, files, data) == Some(Phase::CleanupFailed) ==> files.last().history
            == Some(data) && result_of(Phase::CleanupFailed) == Some(
            Err::<(), HistFileError>(HistFileError::CleanupFailed),
        ),
{
    lemma_reaches_inv(outcomes, files, data);
}

} // verus!
