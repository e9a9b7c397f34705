//! Replacing a file so that a crash at any moment leaves the old or the new
//! contents.
//!
//! The new contents go to a temporary file beside the target. The target is
//! then moved to a backup, and the temporary file to the target. A target that
//! is missing while there is a backup is recovered from it.

use vstd::prelude::*;

verus! {

/// The steps of a write.
#[derive(Clone, Copy)]
pub enum WriteStep {
    /// Create the directory of the target.
    CreateDirectory,
    /// Look whether there is a temporary file.
    ProbeTemporary,
    /// Remove the temporary file.
    RemoveTemporary,
    /// Look whether there is a backup.
    ProbeBackup,
    /// Remove the backup.
    RemoveBackup,
    /// Create the temporary file with the new contents, and bring them to disk.
    WriteTemporary,
    /// Look whether there is a target.
    ProbeTarget,
    /// Move the target to the backup.
    BackUp,
    /// Move the temporary file to the target; the flag tells whether the old
    /// target was moved to the backup.
    Commit(bool),
    /// Move the backup back to the target.
    Restore,
    /// Remove the backup.
    DropBackup,
    /// Bring the directory to disk.
    SyncDirectory,
    /// The file is written.
    Written,
    /// The file is not written.
    Failed,
}

/// The step that follows. Of a step that looks, `outcome` tells whether there is
/// such a file; of another, whether it succeeded.
pub open spec fn following(step: WriteStep, outcome: bool) -> WriteStep {
    match step {
        WriteStep::CreateDirectory => if outcome {
            WriteStep::ProbeTemporary
        } else {
            WriteStep::Failed
        },
        WriteStep::ProbeTemporary => if outcome {
            WriteStep::RemoveTemporary
        } else {
            WriteStep::ProbeBackup
        },
        WriteStep::RemoveTemporary => if outcome {
            WriteStep::ProbeBackup
        } else {
            WriteStep::Failed
        },
        WriteStep::ProbeBackup => if outcome {
            WriteStep::RemoveBackup
        } else {
            WriteStep::WriteTemporary
        },
        WriteStep::RemoveBackup => if outcome {
            WriteStep::WriteTemporary
        } else {
            WriteStep::Failed
        },
        WriteStep::WriteTemporary => if outcome {
            WriteStep::ProbeTarget
        } else {
            WriteStep::Failed
        },
        WriteStep::ProbeTarget => if outcome {
            WriteStep::BackUp
        } else {
            WriteStep::Commit(false)
        },
        WriteStep::BackUp => if outcome {
            WriteStep::Commit(true)
        } else {
            WriteStep::Failed
        },
        WriteStep::Commit(had_original) => if outcome {
            if had_original {
                WriteStep::DropBackup
            } else {
                WriteStep::SyncDirectory
            }
        } else if had_original {
            WriteStep::Restore
        } else {
            WriteStep::Failed
        },
        WriteStep::Restore => WriteStep::Failed,
        WriteStep::DropBackup => WriteStep::SyncDirectory,
        WriteStep::SyncDirectory => WriteStep::Written,
        WriteStep::Written => WriteStep::Written,
        WriteStep::Failed => WriteStep::Failed,
    }
}

/// The step that follows.
pub fn following_step(step: WriteStep, outcome: bool) -> (next: WriteStep)
    ensures
        next == following(step, outcome),
{
    match step {
        WriteStep::CreateDirectory => if outcome {
            WriteStep::ProbeTemporary
        } else {
            WriteStep::Failed
        },
        WriteStep::ProbeTemporary => if outcome {
            WriteStep::RemoveTemporary
        } else {
            WriteStep::ProbeBackup
        },
        WriteStep::RemoveTemporary => if outcome {
            WriteStep::ProbeBackup
        } else {
            WriteStep::Failed
        },
        WriteStep::ProbeBackup => if outcome {
            WriteStep::RemoveBackup
        } else {
            WriteStep::WriteTemporary
        },
        WriteStep::RemoveBackup => if outcome {
            WriteStep::WriteTemporary
        } else {
            WriteStep::Failed
        },
        WriteStep::WriteTemporary => if outcome {
            WriteStep::ProbeTarget
        } else {
            WriteStep::Failed
        },
        WriteStep::ProbeTarget => if outcome {
            WriteStep::BackUp
        } else {
            WriteStep::Commit(false)
        },
        WriteStep::BackUp => if outcome {
            WriteStep::Commit(true)
        } else {
            WriteStep::Failed
        },
        WriteStep::Commit(had_original) => if !outcome {
            if had_original {
                WriteStep::Restore
            } else {
                WriteStep::Failed
            }
        } else if had_original {
            WriteStep::DropBackup
        } else {
            WriteStep::SyncDirectory
        },
        WriteStep::Restore => WriteStep::Failed,
        WriteStep::DropBackup => WriteStep::SyncDirectory,
        WriteStep::SyncDirectory => WriteStep::Written,
        WriteStep::Written => WriteStep::Written,
        WriteStep::Failed => WriteStep::Failed,
    }
}

/// Whether the target has to be recovered from the backup.
pub fn needs_recovery(target_exists: bool, backup_exists: bool) -> (needed: bool)
    ensures
        needed == (!target_exists && backup_exists),
{
    !target_exists && backup_exists
}

/// The contents of the three files, where they exist.
pub struct FileTrio {
    pub target: Option<Seq<u8>>,
    pub temporary: Option<Seq<u8>>,
    pub backup: Option<Seq<u8>>,
}

/// The files after recovery.
pub open spec fn recovered(files: FileTrio) -> FileTrio {
    if files.target is None && files.backup is Some {
        FileTrio { target: files.backup, backup: None, ..files }
    } else {
        files
    }
}

/// The files may turn from `files` into `after` in a step. A step that fails
/// changes nothing, but writing the temporary file may leave any of it behind.
pub open spec fn performed(
    files: FileTrio,
    after: FileTrio,
    step: WriteStep,
    outcome: bool,
    bytes: Seq<u8>,
) -> bool {
    match step {
        WriteStep::ProbeTemporary => after == files && outcome == (files.temporary is Some),
        WriteStep::ProbeBackup => after == files && outcome == (files.backup is Some),
        WriteStep::ProbeTarget => after == files && outcome == (files.target is Some),
        WriteStep::WriteTemporary => after == (FileTrio { temporary: after.temporary, ..files })
            && (outcome ==> after.temporary == Some(bytes)),
        WriteStep::RemoveTemporary => after == if outcome {
            FileTrio { temporary: None, ..files }
        } else {
            files
        },
        WriteStep::RemoveBackup => after == if outcome {
            FileTrio { backup: None, ..files }
        } else {
            files
        },
        WriteStep::DropBackup => after == if outcome {
            FileTrio { backup: None, ..files }
        } else {
            files
        },
        WriteStep::BackUp => after == if outcome {
            FileTrio { target: None, backup: files.target, ..files }
        } else {
            files
        },
        WriteStep::Commit(_) => after == if outcome {
            FileTrio { target: files.temporary, temporary: None, ..files }
        } else {
            files
        },
        WriteStep::Restore => after == if outcome {
            FileTrio { target: files.backup, backup: None, ..files }
        } else {
            files
        },
        _ => after == files,
    }
}

/// What the files look like before each step, where `old` are the contents from
/// before the write.
pub open spec fn write_invariant(
    step: WriteStep,
    files: FileTrio,
    old: Option<Seq<u8>>,
    bytes: Seq<u8>,
) -> bool {
    match step {
        WriteStep::CreateDirectory | WriteStep::ProbeTemporary | WriteStep::RemoveTemporary
        | WriteStep::ProbeBackup => files.target == old && (old is None ==> files.backup is None),
        WriteStep::RemoveBackup => files.target == old && old is Some,
        WriteStep::WriteTemporary => files.target == old && files.backup is None,
        WriteStep::ProbeTarget => files.target == old && files.backup is None && files.temporary
            == Some(bytes),
        WriteStep::BackUp => files.target == old && old is Some && files.backup is None
            && files.temporary == Some(bytes),
        WriteStep::Commit(had_original) => files.target is None && files.backup == old
            && had_original == (old is Some) && files.temporary == Some(bytes),
        WriteStep::Restore => files.target is None && files.backup == old && old is Some,
        WriteStep::DropBackup | WriteStep::SyncDirectory | WriteStep::Written => files.target
            == Some(bytes),
        WriteStep::Failed => recovered(files).target == old,
    }
}

/// From files that need no recovery, each step leads to what the next one
/// relies on.
pub proof fn law_write_steps_fit_together(
    step: WriteStep,
    outcome: bool,
    files: FileTrio,
    after: FileTrio,
    old: Option<Seq<u8>>,
    bytes: Seq<u8>,
)
    requires
        write_invariant(step, files, old, bytes),
        performed(files, after, step, outcome, bytes),
    ensures
        write_invariant(following(step, outcome), after, old, bytes),
{
}

/// A write can begin on files that were recovered.
pub proof fn law_recovered_files_can_be_written(files: FileTrio, bytes: Seq<u8>)
    ensures
        write_invariant(
            WriteStep::CreateDirectory,
            recovered(files),
            recovered(files).target,
            bytes,
        ),
{
}

/// Wherever a write is interrupted, recovery gives the old contents or the new
/// ones: the new ones once they were committed, the old ones before. A write
/// that is reported as done holds the new contents, and one that is reported as
/// failed the old ones.
pub proof fn law_interrupted_write_is_recovered(
    step: WriteStep,
    files: FileTrio,
    old: Option<Seq<u8>>,
    bytes: Seq<u8>,
)
    requires
        write_invariant(step, files, old, bytes),
    ensures
        recovered(files).target == old || recovered(files).target == Some(bytes),
        step is Written ==> files.target == Some(bytes),
        step is Failed ==> recovered(files).target == old,
        !(step is DropBackup || step is SyncDirectory || step is Written) ==> recovered(
            files,
        ).target == old,
{
}

/// A step that looks whether there is a file.
pub open spec fn looks(step: WriteStep) -> bool {
    step is ProbeTemporary || step is ProbeBackup || step is ProbeTarget
}

/// A write is given up only where a step fails: as long as they succeed it goes on
/// until the file is written. What fails once the new contents are in place does
/// not matter any more.
pub proof fn law_write_goes_on_unless_a_step_fails(step: WriteStep, outcome: bool)
    ensures
        !(step is Restore || step is Failed) && (outcome || looks(step)) ==> !(following(
            step,
            outcome,
        ) is Restore || following(step, outcome) is Failed),
        step is DropBackup || step is SyncDirectory || step is Written ==> !(following(step, outcome)
            is Restore || following(step, outcome) is Failed),
        step is Restore || step is Failed ==> following(step, outcome) is Failed,
        !(step is Written) && following(step, outcome) is Written ==> step is SyncDirectory,
        following(step, outcome) is SyncDirectory ==> step is DropBackup || step == WriteStep::Commit(
            false,
        ),
{
}

/// Where every step succeeds, neither the temporary file nor the backup is left
/// behind: from the steps that clear them on they are gone.
pub open spec fn tidy(step: WriteStep, files: FileTrio) -> bool {
    match step {
        WriteStep::ProbeBackup | WriteStep::RemoveBackup => files.temporary is None,
        WriteStep::WriteTemporary => files.temporary is None && files.backup is None,
        WriteStep::ProbeTarget | WriteStep::BackUp | WriteStep::Commit(false) => files.backup
            is None,
        WriteStep::DropBackup => files.temporary is None,
        WriteStep::SyncDirectory | WriteStep::Written => files.temporary is None && files.backup
            is None,
        _ => true,
    }
}

/// A write whose steps all succeed leaves only the target behind.
pub proof fn law_successful_write_leaves_only_the_target(
    step: WriteStep,
    outcome: bool,
    files: FileTrio,
    after: FileTrio,
    old: Option<Seq<u8>>,
    bytes: Seq<u8>,
)
    requires
        tidy(step, files),
        write_invariant(step, files, old, bytes),
        performed(files, after, step, outcome, bytes),
        outcome || looks(step),
        !(step is Restore || step is Failed),
    ensures
        tidy(WriteStep::CreateDirectory, files),
        tidy(following(step, outcome), after),
{
}

/// How many steps a write can still take.
pub open spec fn steps_left(step: WriteStep) -> nat {
    match step {
        WriteStep::CreateDirectory => 11,
        WriteStep::ProbeTemporary => 10,
        WriteStep::RemoveTemporary => 9,
        WriteStep::ProbeBackup => 8,
        WriteStep::RemoveBackup => 7,
        WriteStep::WriteTemporary => 6,
        WriteStep::ProbeTarget => 5,
        WriteStep::BackUp => 4,
        WriteStep::Commit(_) => 3,
        WriteStep::Restore => 1,
        WriteStep::DropBackup => 2,
        WriteStep::SyncDirectory => 1,
        WriteStep::Written => 0,
        WriteStep::Failed => 0,
    }
}

/// A write comes to its end.
pub proof fn law_write_ends(step: WriteStep, outcome: bool)
    requires
        steps_left(step) > 0,
    ensures
        steps_left(following(step, outcome)) < steps_left(step),
{
}

} // verus!
