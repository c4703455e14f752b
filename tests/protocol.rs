use clean_history::lines::filtered_content;
use clean_history::protocol::{advance, next_step, outcome, HistFileError, Phase, Step};

/// The history file and its backup, in memory, and the steps made to fail.
struct Disk {
    history: Option<Vec<u8>>,
    backup: Option<Vec<u8>>,
    failing: Vec<Step>,
    steps: Vec<Step>,
}

impl Disk {
    fn perform(&mut self, step: Step, data: &mut Vec<u8>) -> bool {
        self.steps.push(step);
        if self.failing.contains(&step) {
            if step == Step::Write {
                self.history = Some(Vec::new());
            }
            return false;
        }
        match step {
            Step::Read => match &self.history {
                Some(h) => {
                    *data = filtered_content(h, None);
                    true
                }
                None => false,
            },
            Step::Backup => match self.history.take() {
                Some(h) => {
                    self.backup = Some(h);
                    true
                }
                None => false,
            },
            Step::Write => {
                self.history = Some(data.clone());
                true
            }
            Step::Cleanup => self.backup.take().is_some(),
            Step::Rollback => match self.backup.take() {
                Some(b) => {
                    self.history = Some(b);
                    true
                }
                None => false,
            },
        }
    }
}

fn run(disk: &mut Disk) -> Result<(), HistFileError> {
    let mut data = Vec::new();
    let mut phase = Phase::Unread;
    while let Some(step) = next_step(phase) {
        let ok = disk.perform(step, &mut data);
        phase = advance(phase, ok);
    }
    outcome(phase).unwrap()
}

fn disk(history: Option<&[u8]>, failing: Vec<Step>) -> Disk {
    Disk { history: history.map(|h| h.to_vec()), backup: None, failing, steps: Vec::new() }
}

#[test]
fn success_leaves_no_backup() {
    let mut d = disk(Some(b"a\nb\na\nc\n"), vec![]);
    assert_eq!(run(&mut d), Ok(()));
    assert_eq!(d.history, Some(b"a\nb\nc\n".to_vec()));
    assert_eq!(d.backup, None);
    assert_eq!(d.steps, vec![Step::Read, Step::Backup, Step::Write, Step::Cleanup]);
}

#[test]
fn empty_history_succeeds_empty() {
    let mut d = disk(Some(b""), vec![]);
    assert_eq!(run(&mut d), Ok(()));
    assert_eq!(d.history, Some(Vec::new()));
    assert_eq!(d.backup, None);
}

#[test]
fn missing_history_is_never_written() {
    let mut d = disk(None, vec![]);
    assert_eq!(run(&mut d), Err(HistFileError::ReadFailed));
    assert_eq!(d.history, None);
    assert_eq!(d.backup, None);
    assert_eq!(d.steps, vec![Step::Read]);
}

#[test]
fn failed_write_is_rolled_back() {
    let mut d = disk(Some(b"old\nold\n"), vec![Step::Write]);
    assert_eq!(run(&mut d), Err(HistFileError::WriteFailed));
    assert_eq!(d.history, Some(b"old\nold\n".to_vec()));
    assert_eq!(d.backup, None);
}

#[test]
fn failed_backup_touches_nothing() {
    let mut d = disk(Some(b"x\nx\n"), vec![Step::Backup]);
    assert_eq!(run(&mut d), Err(HistFileError::NoWritableBackup));
    assert_eq!(d.history, Some(b"x\nx\n".to_vec()));
    assert_eq!(d.steps, vec![Step::Read, Step::Backup]);
}

#[test]
fn failed_cleanup_is_reported() {
    let mut d = disk(Some(b"x\nx\n"), vec![Step::Cleanup]);
    assert_eq!(run(&mut d), Err(HistFileError::CleanupFailed));
    assert_eq!(d.history, Some(b"x\n".to_vec()));
    assert_eq!(d.backup, Some(b"x\nx\n".to_vec()));
}

#[test]
fn failed_rollback_is_unrecoverable() {
    let mut d = disk(Some(b"x\n"), vec![Step::Write, Step::Rollback]);
    assert_eq!(run(&mut d), Err(HistFileError::Unrecoverable));
    assert_eq!(d.backup, Some(b"x\n".to_vec()));
}

#[test]
fn phases_step_by_step() {
    assert_eq!(next_step(Phase::Unread), Some(Step::Read));
    assert_eq!(advance(Phase::Unread, false), Phase::ReadFailed);
    assert_eq!(outcome(Phase::ReadFailed), Some(Err(HistFileError::ReadFailed)));
    assert_eq!(advance(Phase::Unread, true), Phase::Start);
    assert_eq!(next_step(Phase::Start), Some(Step::Backup));
    assert_eq!(advance(Phase::Start, true), Phase::BackedUp);
    assert_eq!(advance(Phase::BackedUp, false), Phase::WriteFailed);
    assert_eq!(next_step(Phase::WriteFailed), Some(Step::Rollback));
    assert_eq!(advance(Phase::WriteFailed, true), Phase::RolledBack);
    assert_eq!(next_step(Phase::RolledBack), None);
    assert_eq!(outcome(Phase::Written), None);
    assert_eq!(outcome(Phase::Cleaned), Some(Ok(())));
}
