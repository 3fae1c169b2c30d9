//! Which of a file and its recovery copy holds the state.
use vstd::prelude::*;

verus! {

/// The name of a file that stands beside another.
pub fn sidecar(name: &str, suffix: &str) -> (s: String)
    ensures
        s@ == name@ + "."@ + suffix@,
{
    let mut s: String = name.to_owned();
    s.append(".");
    s.append(suffix);
    s
}

/// What reading a file gave.
#[derive(Debug)]
pub enum FileState<T> {
    Valid(T),
    /// It was read and cannot be understood.
    Invalid,
    Missing,
    Unreadable,
}

/// Why no state could be read.
#[derive(Clone, Copy, Debug, PartialEq, Eq, Structural)]
pub enum ReadError {
    /// The file is invalid, and its recovery copy cannot be read.
    NoReadableBackup,
    /// Both are invalid.
    BothInvalid,
    /// The file is missing, and its recovery copy is invalid.
    BackupInvalid,
    /// The file is missing, and its recovery copy cannot be read.
    BackupUnreadable,
    /// The file cannot be read.
    Unreadable,
}

/// The state that a file and its recovery copy hold.
pub open spec fn recovered<T>(primary: FileState<T>, backup: FileState<T>) -> Result<
    Option<T>,
    ReadError,
> {
    match primary {
        FileState::Valid(value) => Ok(Some(value)),
        FileState::Invalid => match backup {
            FileState::Valid(value) => Ok(Some(value)),
            FileState::Invalid => Err(ReadError::BothInvalid),
            _ => Err(ReadError::NoReadableBackup),
        },
        FileState::Missing => match backup {
            FileState::Valid(value) => Ok(Some(value)),
            FileState::Invalid => Err(ReadError::BackupInvalid),
            FileState::Missing => Ok(None),
            FileState::Unreadable => Err(ReadError::BackupUnreadable),
        },
        FileState::Unreadable => Err(ReadError::Unreadable),
    }
}

/// Whether the recovery copy has to be read at all.
pub fn needs_backup<T>(primary: &FileState<T>) -> (r: bool)
    ensures
        r == !(primary is Valid || primary is Unreadable),
{
    match primary {
        FileState::Valid(_) => false,
        FileState::Unreadable => false,
        FileState::Invalid => true,
        FileState::Missing => true,
    }
}

/// Picks the state that a file and its recovery copy hold; nothing where neither is there.
pub fn read_json<T>(primary: FileState<T>, backup: FileState<T>) -> (r: Result<Option<T>, ReadError>)
    ensures
        r == recovered(primary, backup),
{
    match primary {
        FileState::Valid(value) => Ok(Some(value)),
        FileState::Invalid => match backup {
            FileState::Valid(value) => Ok(Some(value)),
            FileState::Invalid => Err(ReadError::BothInvalid),
            FileState::Missing => Err(ReadError::NoReadableBackup),
            FileState::Unreadable => Err(ReadError::NoReadableBackup),
        },
        FileState::Missing => match backup {
            FileState::Valid(value) => Ok(Some(value)),
            FileState::Invalid => Err(ReadError::BackupInvalid),
            FileState::Missing => Ok(None),
            FileState::Unreadable => Err(ReadError::BackupUnreadable),
        },
        FileState::Unreadable => Err(ReadError::Unreadable),
    }
}

// ---------------------------------------------------------------------------
// Writing
// ---------------------------------------------------------------------------

/// The files that a write goes through.
pub struct Files<T> {
    pub primary: FileState<T>,
    pub backup: FileState<T>,
    pub temporary: FileState<T>,
}

/// A step of a write.
#[derive(Clone, Copy, Debug, PartialEq, Eq, Structural)]
pub enum WriteStep {
    /// Write the value to a temporary file and flush it.
    WriteTemporary,
    /// Put the temporary file in the place of the file, in one step.
    Replace,
    /// Copy the file over its recovery copy. That it fails is no failure of the write.
    RefreshBackup,
    Done,
}

/// What follows a step that worked.
pub fn next_write(step: WriteStep) -> (next: WriteStep)
    ensures
        next == match step {
            WriteStep::WriteTemporary => WriteStep::Replace,
            WriteStep::Replace => WriteStep::RefreshBackup,
            WriteStep::RefreshBackup => WriteStep::Done,
            WriteStep::Done => WriteStep::Done,
        },
{
    match step {
        WriteStep::WriteTemporary => WriteStep::Replace,
        WriteStep::Replace => WriteStep::RefreshBackup,
        WriteStep::RefreshBackup => WriteStep::Done,
        WriteStep::Done => WriteStep::Done,
    }
}

/// Whether a write fails where a step fails: not once the file has been replaced.
pub fn failure_counts(step: WriteStep) -> (r: bool)
    ensures
        r == (step == WriteStep::WriteTemporary || step == WriteStep::Replace),
{
    match step {
        WriteStep::WriteTemporary => true,
        WriteStep::Replace => true,
        WriteStep::RefreshBackup => false,
        WriteStep::Done => false,
    }
}

/// The files while a step runs that may be cut short: the file that it writes may be torn.
pub open spec fn torn<T>(files: Files<T>, step: WriteStep) -> Files<T> {
    match step {
        WriteStep::WriteTemporary => Files { temporary: FileState::Invalid, ..files },
        WriteStep::RefreshBackup => Files { backup: FileState::Invalid, ..files },
        _ => files,
    }
}

/// The files after a step that worked.
pub open spec fn stepped<T>(files: Files<T>, step: WriteStep, value: T) -> Files<T> {
    match step {
        WriteStep::WriteTemporary => Files { temporary: FileState::Valid(value), ..files },
        WriteStep::Replace => Files {
            primary: files.temporary,
            temporary: FileState::Missing,
            ..files
        },
        WriteStep::RefreshBackup => Files { backup: files.primary, ..files },
        WriteStep::Done => files,
    }
}

/// The files after the first `steps` steps of a write.
pub open spec fn written<T>(files: Files<T>, value: T, steps: nat) -> Files<T> {
    let first = stepped(files, WriteStep::WriteTemporary, value);
    let second = stepped(first, WriteStep::Replace, value);
    if steps == 0 {
        files
    } else if steps == 1 {
        first
    } else if steps == 2 {
        second
    } else {
        stepped(second, WriteStep::RefreshBackup, value)
    }
}

/// The step that comes after the first `steps` steps.
pub open spec fn step_at(steps: nat) -> WriteStep {
    if steps == 0 {
        WriteStep::WriteTemporary
    } else if steps == 1 {
        WriteStep::Replace
    } else if steps == 2 {
        WriteStep::RefreshBackup
    } else {
        WriteStep::Done
    }
}

/// What was written is read back, also from the recovery copy where the file is torn afterwards
/// or is gone.
pub proof fn law_written_state_is_read_back<T>(files: Files<T>, value: T)
    ensures
        recovered(written(files, value, 3).primary, written(files, value, 3).backup) == Ok::<
            Option<T>,
            ReadError,
        >(Some(value)),
        recovered(FileState::Invalid, written(files, value, 3).backup) == Ok::<
            Option<T>,
            ReadError,
        >(Some(value)),
        recovered(FileState::Missing, written(files, value, 3).backup) == Ok::<
            Option<T>,
            ReadError,
        >(Some(value)),
{
}

/// A write that is cut short anywhere leaves the state as it was or as it was to be.
pub proof fn law_interrupted_write_loses_nothing<T>(files: Files<T>, value: T, steps: nat)
    ensures
        ({
            let left = torn(written(files, value, steps), step_at(steps));
            ||| recovered(left.primary, left.backup) == recovered(files.primary, files.backup)
            ||| recovered(left.primary, left.backup) == Ok::<Option<T>, ReadError>(Some(value))
        }),
{
}

/// A state that was never written differs from every state that was.
pub proof fn law_missing_differs_from_written<T>(files: Files<T>, value: T)
    ensures
        recovered::<T>(FileState::Missing, FileState::Missing) == Ok::<Option<T>, ReadError>(None),
        recovered(written(files, value, 3).primary, written(files, value, 3).backup)
            != recovered::<T>(FileState::Missing, FileState::Missing),
{
}

/// The file counts before its recovery copy: what it holds is the state, whatever the copy holds.
/// So a write holds as soon as the file was replaced.
pub proof fn law_file_counts_before_its_copy<T>(files: Files<T>, value: T, backup: FileState<T>)
    ensures
        recovered(FileState::Valid(value), backup) == Ok::<Option<T>, ReadError>(Some(value)),
        recovered(written(files, value, 2).primary, written(files, value, 2).backup) == Ok::<
            Option<T>,
            ReadError,
        >(Some(value)),
        written(files, value, 1).primary == files.primary,
        written(files, value, 1).backup == files.backup,
{
}

/// What cannot be read is never taken for a state that was not there, nor the other way round.
pub proof fn law_lost_state_is_an_error<T>(primary: FileState<T>, backup: FileState<T>)
    ensures
        recovered(primary, backup) == Ok::<Option<T>, ReadError>(None) <==> primary is Missing
            && backup is Missing,
        recovered(primary, backup) is Err <==> primary is Unreadable || (primary is Invalid
            && !(backup is Valid)) || (primary is Missing && (backup is Invalid || backup
            is Unreadable)),
{
}

/// A file is written aside, put in place and copied, in this order and then no further; each step
/// goes on from what the one before it left.
pub proof fn law_files_are_written_step_by_step<T>(files: Files<T>, value: T, steps: nat)
    ensures
        step_at(0) == WriteStep::WriteTemporary,
        step_at(1) == WriteStep::Replace,
        step_at(2) == WriteStep::RefreshBackup,
        steps >= 3 ==> step_at(steps) == WriteStep::Done,
        written(files, value, 0) == files,
        steps < 3 ==> written(files, value, steps + 1) == stepped(
            written(files, value, steps),
            step_at(steps),
            value,
        ),
        steps >= 3 ==> written(files, value, steps) == written(files, value, 3),
{
}

} // verus!
