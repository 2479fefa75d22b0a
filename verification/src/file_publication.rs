//! How a managed file is created, replaced or deleted so that a reader finds
//! the old contents or the new ones, and a failure leaves the old ones behind.
//!
//! The steps are decided here one at a time. Whoever carries them out reports
//! how each one went.

use vstd::prelude::*;

verus! {

/// What is to become of the file.
#[derive(Clone, Copy, Debug, PartialEq, Eq, Structural)]
pub enum FileChange {
    /// The file comes into being. `undo` says whether it is taken back when
    /// the directory cannot be synced.
    Create { undo: bool },
    /// The file gets other contents.
    Replace,
    /// The file goes away.
    Delete,
}

/// The next step of a change, with the error that it will end with where that
/// is decided.
pub enum PublicationPhase<E> {
    /// Write the new contents to a temporary file.
    WriteTemp,
    /// Link the temporary file under the file's name, which must be free.
    LinkTemp,
    /// Remove the temporary file after it was linked.
    DropLinkedTemp,
    /// Remove the temporary file after a failure.
    DropFailedTemp(E),
    /// Move the file aside.
    BackUp,
    /// Move the temporary file to the file's name.
    PublishTemp,
    /// Move the old file back after the new one could not be published.
    RestoreUnpublished(E),
    /// Sync the directory that shows the change.
    SyncPublished,
    /// Remove the file that was created.
    UndoCreate(E),
    /// Move the old file back after the change could not be synced.
    RestoreUnsynced(E),
    /// Sync the directory that shows the old state again.
    SyncUndone(E),
    /// Remove the file that was moved aside.
    DropBackup,
    /// Sync the directory once more.
    SyncFinal,
    /// The change has been made or has failed.
    Done(Result<(), E>),
}

/// What to do in a step.
#[derive(Clone, Copy, Debug, PartialEq, Eq, Structural)]
pub enum FileOperation {
    WriteTemp,
    LinkTempToTarget,
    RemoveTemp,
    MoveTargetToBackup,
    MoveTempToTarget,
    MoveBackupToTarget,
    RemoveTarget,
    RemoveBackup,
    SyncDirectory,
    Nothing,
}

pub open spec fn operation_of<E>(phase: PublicationPhase<E>) -> FileOperation {
    match phase {
        PublicationPhase::WriteTemp => FileOperation::WriteTemp,
        PublicationPhase::LinkTemp => FileOperation::LinkTempToTarget,
        PublicationPhase::DropLinkedTemp => FileOperation::RemoveTemp,
        PublicationPhase::DropFailedTemp(_) => FileOperation::RemoveTemp,
        PublicationPhase::BackUp => FileOperation::MoveTargetToBackup,
        PublicationPhase::PublishTemp => FileOperation::MoveTempToTarget,
        PublicationPhase::RestoreUnpublished(_) => FileOperation::MoveBackupToTarget,
        PublicationPhase::SyncPublished => FileOperation::SyncDirectory,
        PublicationPhase::UndoCreate(_) => FileOperation::RemoveTarget,
        PublicationPhase::RestoreUnsynced(_) => FileOperation::MoveBackupToTarget,
        PublicationPhase::SyncUndone(_) => FileOperation::SyncDirectory,
        PublicationPhase::DropBackup => FileOperation::RemoveBackup,
        PublicationPhase::SyncFinal => FileOperation::SyncDirectory,
        PublicationPhase::Done(_) => FileOperation::Nothing,
    }
}

/// The step with which a change starts.
pub open spec fn first_phase<E>(change: FileChange) -> PublicationPhase<E> {
    match change {
        FileChange::Delete => PublicationPhase::BackUp,
        _ => PublicationPhase::WriteTemp,
    }
}

/// The step that follows, given how the last one went.
pub open spec fn next_phase<E>(
    change: FileChange,
    phase: PublicationPhase<E>,
    outcome: Result<(), E>,
) -> PublicationPhase<E> {
    match phase {
        PublicationPhase::WriteTemp => match outcome {
            Ok(_) => match change {
                FileChange::Create { .. } => PublicationPhase::LinkTemp,
                _ => PublicationPhase::BackUp,
            },
            Err(e) => PublicationPhase::Done(Err(e)),
        },
        PublicationPhase::LinkTemp => match outcome {
            Ok(_) => PublicationPhase::DropLinkedTemp,
            Err(e) => PublicationPhase::DropFailedTemp(e),
        },
        PublicationPhase::DropLinkedTemp => PublicationPhase::SyncPublished,
        PublicationPhase::DropFailedTemp(e) => PublicationPhase::Done(Err(e)),
        PublicationPhase::BackUp => match outcome {
            Ok(_) => match change {
                FileChange::Delete => PublicationPhase::SyncPublished,
                _ => PublicationPhase::PublishTemp,
            },
            Err(e) => match change {
                FileChange::Delete => PublicationPhase::Done(Err(e)),
                _ => PublicationPhase::DropFailedTemp(e),
            },
        },
        PublicationPhase::PublishTemp => match outcome {
            Ok(_) => PublicationPhase::SyncPublished,
            Err(e) => PublicationPhase::RestoreUnpublished(e),
        },
        PublicationPhase::RestoreUnpublished(e) => PublicationPhase::DropFailedTemp(e),
        PublicationPhase::SyncPublished => match outcome {
            Ok(_) => match change {
                FileChange::Create { undo } => if undo {
                    PublicationPhase::SyncFinal
                } else {
                    PublicationPhase::Done(Ok(()))
                },
                _ => PublicationPhase::DropBackup,
            },
            Err(e) => match change {
                FileChange::Create { undo } => if undo {
                    PublicationPhase::UndoCreate(e)
                } else {
                    PublicationPhase::Done(Err(e))
                },
                _ => PublicationPhase::RestoreUnsynced(e),
            },
        },
        PublicationPhase::UndoCreate(e) => match outcome {
            Ok(_) => PublicationPhase::SyncUndone(e),
            Err(_) => PublicationPhase::Done(Ok(())),
        },
        PublicationPhase::RestoreUnsynced(e) => match outcome {
            Ok(_) => PublicationPhase::SyncUndone(e),
            Err(_) => PublicationPhase::Done(Ok(())),
        },
        PublicationPhase::SyncUndone(e) => PublicationPhase::Done(Err(e)),
        PublicationPhase::DropBackup => PublicationPhase::SyncFinal,
        PublicationPhase::SyncFinal => PublicationPhase::Done(Ok(())),
        PublicationPhase::Done(r) => PublicationPhase::Done(r),
    }
}

/// A change under way.
pub struct Publication<E> {
    pub change: FileChange,
    pub phase: PublicationPhase<E>,
}

impl<E> Publication<E> {
    pub fn new(change: FileChange) -> (r: Self)
        ensures
            r.change == change,
            r.phase == first_phase::<E>(change),
    {
        let phase = match change {
            FileChange::Delete => PublicationPhase::BackUp,
            _ => PublicationPhase::WriteTemp,
        };
        Publication { change, phase }
    }

    /// What to do next.
    pub fn operation(&self) -> (r: FileOperation)
        ensures
            r == operation_of(self.phase),
    {
        match &self.phase {
            PublicationPhase::WriteTemp => FileOperation::WriteTemp,
            PublicationPhase::LinkTemp => FileOperation::LinkTempToTarget,
            PublicationPhase::DropLinkedTemp => FileOperation::RemoveTemp,
            PublicationPhase::DropFailedTemp(_) => FileOperation::RemoveTemp,
            PublicationPhase::BackUp => FileOperation::MoveTargetToBackup,
            PublicationPhase::PublishTemp => FileOperation::MoveTempToTarget,
            PublicationPhase::RestoreUnpublished(_) => FileOperation::MoveBackupToTarget,
            PublicationPhase::SyncPublished => FileOperation::SyncDirectory,
            PublicationPhase::UndoCreate(_) => FileOperation::RemoveTarget,
            PublicationPhase::RestoreUnsynced(_) => FileOperation::MoveBackupToTarget,
            PublicationPhase::SyncUndone(_) => FileOperation::SyncDirectory,
            PublicationPhase::DropBackup => FileOperation::RemoveBackup,
            PublicationPhase::SyncFinal => FileOperation::SyncDirectory,
            PublicationPhase::Done(_) => FileOperation::Nothing,
        }
    }

    /// Takes in how the last operation went.
    pub fn advance(self, outcome: Result<(), E>) -> (r: Self)
        ensures
            r.change == self.change,
            r.phase == next_phase(self.change, self.phase, outcome),
    {
        let change = self.change;
        let phase = match self.phase {
            PublicationPhase::WriteTemp => match outcome {
                Ok(_) => match change {
                    FileChange::Create { .. } => PublicationPhase::LinkTemp,
                    _ => PublicationPhase::BackUp,
                },
                Err(e) => PublicationPhase::Done(Err(e)),
            },
            PublicationPhase::LinkTemp => match outcome {
                Ok(_) => PublicationPhase::DropLinkedTemp,
                Err(e) => PublicationPhase::DropFailedTemp(e),
            },
            PublicationPhase::DropLinkedTemp => PublicationPhase::SyncPublished,
            PublicationPhase::DropFailedTemp(e) => PublicationPhase::Done(Err(e)),
            PublicationPhase::BackUp => match outcome {
                Ok(_) => match change {
                    FileChange::Delete => PublicationPhase::SyncPublished,
                    _ => PublicationPhase::PublishTemp,
                },
                Err(e) => match change {
                    FileChange::Delete => PublicationPhase::Done(Err(e)),
                    _ => PublicationPhase::DropFailedTemp(e),
                },
            },
            PublicationPhase::PublishTemp => match outcome {
                Ok(_) => PublicationPhase::SyncPublished,
                Err(e) => PublicationPhase::RestoreUnpublished(e),
            },
            PublicationPhase::RestoreUnpublished(e) => PublicationPhase::DropFailedTemp(e),
            PublicationPhase::SyncPublished => match outcome {
                Ok(_) => match change {
                    FileChange::Create { undo } => if undo {
                        PublicationPhase::SyncFinal
                    } else {
                        PublicationPhase::Done(Ok(()))
                    },
                    _ => PublicationPhase::DropBackup,
                },
                Err(e) => match change {
                    FileChange::Create { undo } => if undo {
                        PublicationPhase::UndoCreate(e)
                    } else {
                        PublicationPhase::Done(Err(e))
                    },
                    _ => PublicationPhase::RestoreUnsynced(e),
                },
            },
            PublicationPhase::UndoCreate(e) => match outcome {
                Ok(_) => PublicationPhase::SyncUndone(e),
                Err(_) => PublicationPhase::Done(Ok(())),
            },
            PublicationPhase::RestoreUnsynced(e) => match outcome {
                Ok(_) => PublicationPhase::SyncUndone(e),
                Err(_) => PublicationPhase::Done(Ok(())),
            },
            PublicationPhase::SyncUndone(e) => PublicationPhase::Done(Err(e)),
            PublicationPhase::DropBackup => PublicationPhase::SyncFinal,
            PublicationPhase::SyncFinal => PublicationPhase::Done(Ok(())),
            PublicationPhase::Done(r) => PublicationPhase::Done(r),
        };
        Publication { change, phase }
    }

    /// The end of the change, once there is nothing left to do.
    pub fn finish(self) -> (r: Option<Result<(), E>>)
        ensures
            match self.phase {
                PublicationPhase::Done(result) => r == Some(result),
                _ => r is None,
            },
    {
        match self.phase {
            PublicationPhase::Done(result) => Some(result),
            _ => None,
        }
    }
}

// ---------------------------------------------------------------------------
// Laws.

/// What the directory holds under the three names of a change.
#[verifier::ext_equal]
pub struct Files<C> {
    pub target: Option<C>,
    pub temp: Option<C>,
    pub backup: Option<C>,
}

/// The directory after an operation on it. One that fails changes nothing,
/// except that a temporary file that could not be written may be there in
/// part.
pub open spec fn after_operation<C>(
    operation: FileOperation,
    done: bool,
    files: Files<C>,
    new: C,
    rest: Option<C>,
) -> Files<C> {
    if !done {
        if operation is WriteTemp {
            Files { temp: rest, ..files }
        } else {
            files
        }
    } else {
        match operation {
            FileOperation::WriteTemp => Files { temp: Some(new), ..files },
            FileOperation::LinkTempToTarget => Files { target: files.temp, ..files },
            FileOperation::RemoveTemp => Files { temp: None, ..files },
            FileOperation::MoveTargetToBackup => Files {
                backup: files.target,
                target: None,
                ..files
            },
            FileOperation::MoveTempToTarget => Files { target: files.temp, temp: None, ..files },
            FileOperation::MoveBackupToTarget => Files {
                target: files.backup,
                backup: None,
                ..files
            },
            FileOperation::RemoveTarget => Files { target: None, ..files },
            FileOperation::RemoveBackup => Files { backup: None, ..files },
            FileOperation::SyncDirectory => files,
            FileOperation::Nothing => files,
        }
    }
}

/// Whether the operation can succeed at all: a link needs a free name.
pub open spec fn can_succeed<C>(operation: FileOperation, files: Files<C>) -> bool {
    operation is LinkTempToTarget ==> files.target is None
}

/// What the file holds once the change is made.
pub open spec fn goal<C>(change: FileChange, new: C) -> Option<C> {
    match change {
        FileChange::Delete => None,
        _ => Some(new),
    }
}

/// Whether the old contents are still there, under the file's own name or
/// beside it.
pub open spec fn old_is_kept<C>(files: Files<C>, old: Option<C>) -> bool {
    files.target == old || (files.target is None && files.backup == old)
}

/// What the directory holds in each phase of a change of a file that held
/// `old`.
pub open spec fn in_phase<C, E>(
    change: FileChange,
    phase: PublicationPhase<E>,
    files: Files<C>,
    old: Option<C>,
    new: C,
) -> bool {
    match phase {
        PublicationPhase::WriteTemp => files.target == old && !(change is Delete),
        PublicationPhase::LinkTemp => files.target == old && files.temp == Some(new)
            && change is Create,
        PublicationPhase::DropLinkedTemp => change is Create && old is None && files.target
            == Some(new),
        PublicationPhase::DropFailedTemp(_) => old_is_kept(files, old),
        PublicationPhase::BackUp => files.target == old && !(change is Create) && (change is Replace
            ==> files.temp == Some(new)),
        PublicationPhase::PublishTemp => change is Replace && files.target is None && files.backup
            == old && files.temp == Some(new),
        PublicationPhase::RestoreUnpublished(_) => change is Replace && files.target is None
            && files.backup == old,
        PublicationPhase::SyncPublished => files.target == goal(change, new) && (if change is Create {
            old is None
        } else {
            files.backup == old
        }),
        PublicationPhase::UndoCreate(_) => old is None && files.target == Some(new)
            && change is Create,
        PublicationPhase::RestoreUnsynced(_) => files.backup == old && files.target == goal(
            change,
            new,
        ),
        PublicationPhase::SyncUndone(_) => files.target == old,
        PublicationPhase::DropBackup => files.target == goal(change, new),
        PublicationPhase::SyncFinal => files.target == goal(change, new),
        PublicationPhase::Done(Ok(_)) => files.target == goal(change, new),
        PublicationPhase::Done(Err(_)) => old_is_kept(files, old) || (change
            == (FileChange::Create { undo: false }) && files.target == Some(new)),
    }
}

/// Each step of a change, whether it succeeds or fails, leads to a phase whose
/// description fits the directory. So a change that ends well has made the file
/// hold its new contents or removed it; one that fails has kept the old
/// contents, under the file's name or, where even moving them back failed,
/// beside it. The one exception is a creation without undoing, which may also
/// leave the new file.
pub proof fn law_changes_are_atomic<C, E>(
    change: FileChange,
    phase: PublicationPhase<E>,
    outcome: Result<(), E>,
    files: Files<C>,
    rest: Option<C>,
    old: Option<C>,
    new: C,
)
    requires
        in_phase(change, phase, files, old, new),
        outcome is Ok ==> can_succeed(operation_of(phase), files),
    ensures
        in_phase(
            change,
            next_phase(change, phase, outcome),
            after_operation(operation_of(phase), outcome is Ok, files, new, rest),
            old,
            new,
        ),
{
}

/// A change starts in a phase that fits a directory in which the file holds
/// its old contents.
pub proof fn law_changes_start_from_the_old_file<C, E>(
    change: FileChange,
    files: Files<C>,
    new: C,
)
    ensures
        in_phase(change, first_phase::<E>(change), files, files.target, new),
{
}

/// A change and its directory after steps that went so. Each step comes with
/// what it left of a temporary file that could not be written.
pub open spec fn played<C, E>(
    change: FileChange,
    phase: PublicationPhase<E>,
    files: Files<C>,
    new: C,
    steps: Seq<(Result<(), E>, Option<C>)>,
) -> (PublicationPhase<E>, Files<C>)
    decreases steps.len(),
{
    if steps.len() == 0 {
        (phase, files)
    } else {
        played(
            change,
            next_phase(change, phase, steps[0].0),
            after_operation(operation_of(phase), steps[0].0 is Ok, files, new, steps[0].1),
            new,
            steps.subrange(1, steps.len() as int),
        )
    }
}

/// Whether steps can go so.
pub open spec fn possible<C, E>(
    change: FileChange,
    phase: PublicationPhase<E>,
    files: Files<C>,
    new: C,
    steps: Seq<(Result<(), E>, Option<C>)>,
) -> bool
    decreases steps.len(),
{
    if steps.len() == 0 {
        true
    } else {
        &&& steps[0].0 is Ok ==> can_succeed(operation_of(phase), files)
        &&& possible(
            change,
            next_phase(change, phase, steps[0].0),
            after_operation(operation_of(phase), steps[0].0 is Ok, files, new, steps[0].1),
            new,
            steps.subrange(1, steps.len() as int),
        )
    }
}

proof fn lemma_played<C, E>(
    change: FileChange,
    phase: PublicationPhase<E>,
    files: Files<C>,
    old: Option<C>,
    new: C,
    steps: Seq<(Result<(), E>, Option<C>)>,
)
    requires
        in_phase(change, phase, files, old, new),
        possible(change, phase, files, new, steps),
    ensures
        in_phase(
            change,
            played(change, phase, files, new, steps).0,
            played(change, phase, files, new, steps).1,
            old,
            new,
        ),
    decreases steps.len(),
{
    if steps.len() > 0 {
        law_changes_are_atomic(change, phase, steps[0].0, files, steps[0].1, old, new);
        lemma_played(
            change,
            next_phase(change, phase, steps[0].0),
            after_operation(operation_of(phase), steps[0].0 is Ok, files, new, steps[0].1),
            old,
            new,
            steps.subrange(1, steps.len() as int),
        );
    }
}

/// However its steps go, a replacement that ends well leaves the new file under
/// the name, and one that fails keeps the old one, there or beside it.
pub proof fn law_replacement_is_all_or_nothing<C, E>(
    files: Files<C>,
    new: C,
    steps: Seq<(Result<(), E>, Option<C>)>,
)
    requires
        possible(
            FileChange::Replace,
            first_phase::<E>(FileChange::Replace),
            files,
            new,
            steps,
        ),
    ensures
        ({
            let (phase, after) = played(
                FileChange::Replace,
                first_phase::<E>(FileChange::Replace),
                files,
                new,
                steps,
            );
            &&& phase matches PublicationPhase::Done(Ok(_)) ==> after.target == Some(new)
            &&& phase matches PublicationPhase::Done(Err(_)) ==> old_is_kept(after, files.target)
        }),
{
    lemma_played(
        FileChange::Replace,
        first_phase::<E>(FileChange::Replace),
        files,
        files.target,
        new,
        steps,
    );
}

/// How many steps are left at most.
pub open spec fn steps_left<E>(phase: PublicationPhase<E>) -> nat {
    match phase {
        PublicationPhase::WriteTemp => 8,
        PublicationPhase::LinkTemp => 7,
        PublicationPhase::BackUp => 7,
        PublicationPhase::DropLinkedTemp => 6,
        PublicationPhase::PublishTemp => 6,
        PublicationPhase::SyncPublished => 5,
        PublicationPhase::RestoreUnpublished(_) => 4,
        PublicationPhase::DropFailedTemp(_) => 1,
        PublicationPhase::UndoCreate(_) => 2,
        PublicationPhase::RestoreUnsynced(_) => 2,
        PublicationPhase::SyncUndone(_) => 1,
        PublicationPhase::DropBackup => 2,
        PublicationPhase::SyncFinal => 1,
        PublicationPhase::Done(_) => 0,
    }
}

/// Every change comes to an end.
pub proof fn law_changes_end<E>(
    change: FileChange,
    phase: PublicationPhase<E>,
    outcome: Result<(), E>,
)
    requires
        !(phase is Done),
    ensures
        steps_left(next_phase(change, phase, outcome)) < steps_left(phase),
{
}

} // verus!
