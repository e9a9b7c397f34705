//! Deleting a workspace: the steps on disk, and how they are undone when one
//! fails.
//!
//! The directory of the workspace is moved aside first. Then the settings and
//! the registry are written. Only when both are written is the directory
//! removed for good.

use vstd::prelude::*;
use vstd::string::StringExecFns;

use crate::clock;
use crate::decimal;
use crate::text;

verus! {

/// The steps of a deletion.
#[derive(Clone, Copy)]
pub enum DeletionStep {
    /// Move the directory aside.
    StageDirectory,
    /// Write the settings without the workspace.
    WriteSettings,
    /// Write the registry without the workspace.
    WriteRegistry,
    /// Write the settings as they were.
    RestoreSettings,
    /// Move the directory back.
    RestoreDirectory,
    /// Remove the directory that was moved aside.
    RemoveStaged,
    /// The workspace is deleted.
    Deleted,
    /// The workspace is not deleted.
    Kept,
}

/// What a deletion has to deal with.
#[derive(Clone, Copy)]
pub struct DeletionPlan {
    /// The workspace has a directory.
    pub has_directory: bool,
    /// The settings change.
    pub settings_changed: bool,
}

/// The first step that writes.
pub open spec fn first_write(plan: DeletionPlan) -> DeletionStep {
    if plan.settings_changed {
        DeletionStep::WriteSettings
    } else {
        DeletionStep::WriteRegistry
    }
}

/// The first step.
pub open spec fn opening(plan: DeletionPlan) -> DeletionStep {
    if plan.has_directory {
        DeletionStep::StageDirectory
    } else {
        first_write(plan)
    }
}

/// The first step that undoes.
pub open spec fn first_undo(plan: DeletionPlan) -> DeletionStep {
    if plan.settings_changed {
        DeletionStep::RestoreSettings
    } else if plan.has_directory {
        DeletionStep::RestoreDirectory
    } else {
        DeletionStep::Kept
    }
}

/// The step that follows one that succeeded, or did not.
pub open spec fn following(plan: DeletionPlan, step: DeletionStep, succeeded: bool) -> DeletionStep {
    match step {
        DeletionStep::StageDirectory => if succeeded {
            first_write(plan)
        } else {
            DeletionStep::Kept
        },
        DeletionStep::WriteSettings => if succeeded {
            DeletionStep::WriteRegistry
        } else {
            first_undo(plan)
        },
        DeletionStep::WriteRegistry => if succeeded {
            if plan.has_directory {
                DeletionStep::RemoveStaged
            } else {
                DeletionStep::Deleted
            }
        } else {
            first_undo(plan)
        },
        DeletionStep::RestoreSettings => if plan.has_directory {
            DeletionStep::RestoreDirectory
        } else {
            DeletionStep::Kept
        },
        DeletionStep::RestoreDirectory => DeletionStep::Kept,
        DeletionStep::RemoveStaged => DeletionStep::Deleted,
        DeletionStep::Deleted => DeletionStep::Deleted,
        DeletionStep::Kept => DeletionStep::Kept,
    }
}

/// The first step that writes.
fn writing_step(plan: DeletionPlan) -> (step: DeletionStep)
    ensures
        step == first_write(plan),
{
    if plan.settings_changed {
        DeletionStep::WriteSettings
    } else {
        DeletionStep::WriteRegistry
    }
}

/// The first step.
pub fn opening_step(plan: DeletionPlan) -> (step: DeletionStep)
    ensures
        step == opening(plan),
{
    if plan.has_directory {
        DeletionStep::StageDirectory
    } else {
        writing_step(plan)
    }
}

/// The first step that undoes.
fn undoing_step(plan: DeletionPlan) -> (step: DeletionStep)
    ensures
        step == first_undo(plan),
{
    if plan.settings_changed {
        DeletionStep::RestoreSettings
    } else if plan.has_directory {
        DeletionStep::RestoreDirectory
    } else {
        DeletionStep::Kept
    }
}

/// The step that follows one that succeeded, or did not.
pub fn following_step(plan: DeletionPlan, step: DeletionStep, succeeded: bool) -> (next:
    DeletionStep)
    ensures
        next == following(plan, step, succeeded),
{
    match step {
        DeletionStep::StageDirectory => if succeeded {
            writing_step(plan)
        } else {
            DeletionStep::Kept
        },
        DeletionStep::WriteSettings => if succeeded {
            DeletionStep::WriteRegistry
        } else {
            undoing_step(plan)
        },
        DeletionStep::WriteRegistry => if !succeeded {
            undoing_step(plan)
        } else if plan.has_directory {
            DeletionStep::RemoveStaged
        } else {
            DeletionStep::Deleted
        },
        DeletionStep::RestoreSettings => if plan.has_directory {
            DeletionStep::RestoreDirectory
        } else {
            DeletionStep::Kept
        },
        DeletionStep::RestoreDirectory => DeletionStep::Kept,
        DeletionStep::RemoveStaged => DeletionStep::Deleted,
        DeletionStep::Deleted => DeletionStep::Deleted,
        DeletionStep::Kept => DeletionStep::Kept,
    }
}

/// Where the directory of the workspace is.
pub enum DirectoryPlace {
    /// In its place.
    Home,
    /// Moved aside.
    Aside,
    /// Nowhere.
    Nowhere,
}

/// What a deletion touches on disk.
pub struct DeletionDisk {
    pub directory: DirectoryPlace,
    /// The settings are written without the workspace.
    pub settings_updated: bool,
    /// The registry is written without the workspace.
    pub registry_updated: bool,
}

/// The disk before a deletion.
pub open spec fn untouched(plan: DeletionPlan) -> DeletionDisk {
    DeletionDisk {
        directory: if plan.has_directory {
            DirectoryPlace::Home
        } else {
            DirectoryPlace::Nowhere
        },
        settings_updated: false,
        registry_updated: false,
    }
}

/// The disk after a step; a step that fails changes nothing.
pub open spec fn touched(disk: DeletionDisk, step: DeletionStep, succeeded: bool) -> DeletionDisk {
    if !succeeded {
        disk
    } else {
        match step {
            DeletionStep::StageDirectory => DeletionDisk {
                directory: DirectoryPlace::Aside,
                ..disk
            },
            DeletionStep::WriteSettings => DeletionDisk { settings_updated: true, ..disk },
            DeletionStep::WriteRegistry => DeletionDisk { registry_updated: true, ..disk },
            DeletionStep::RestoreSettings => DeletionDisk { settings_updated: false, ..disk },
            DeletionStep::RestoreDirectory => DeletionDisk {
                directory: DirectoryPlace::Home,
                ..disk
            },
            DeletionStep::RemoveStaged => DeletionDisk {
                directory: DirectoryPlace::Nowhere,
                ..disk
            },
            DeletionStep::Deleted => disk,
            DeletionStep::Kept => disk,
        }
    }
}

/// What the disk looks like before each step.
pub open spec fn deletion_invariant(
    plan: DeletionPlan,
    step: DeletionStep,
    disk: DeletionDisk,
) -> bool {
    let aside = if plan.has_directory {
        DirectoryPlace::Aside
    } else {
        DirectoryPlace::Nowhere
    };
    match step {
        DeletionStep::StageDirectory => plan.has_directory && disk == untouched(plan),
        DeletionStep::WriteSettings => plan.settings_changed && disk == (DeletionDisk {
            directory: aside,
            ..untouched(plan)
        }),
        DeletionStep::WriteRegistry => disk == (DeletionDisk {
            directory: aside,
            settings_updated: plan.settings_changed,
            registry_updated: false,
        }),
        DeletionStep::RestoreSettings => plan.settings_changed && disk.directory == aside
            && !disk.registry_updated,
        DeletionStep::RestoreDirectory => plan.has_directory && disk == (DeletionDisk {
            directory: aside,
            ..untouched(plan)
        }),
        DeletionStep::RemoveStaged => plan.has_directory && disk == (DeletionDisk {
            directory: aside,
            settings_updated: plan.settings_changed,
            registry_updated: true,
        }),
        DeletionStep::Deleted => !(disk.directory is Home) && disk.settings_updated
            == plan.settings_changed && disk.registry_updated,
        DeletionStep::Kept => disk == untouched(plan),
    }
}

/// Whatever fails on the way, a deletion ends with the workspace deleted from
/// settings and registry and its directory out of its place, or with everything
/// as it was. Of the steps that undo it is required that they succeed.
pub proof fn law_deletion_is_all_or_nothing(
    plan: DeletionPlan,
    step: DeletionStep,
    disk: DeletionDisk,
    succeeded: bool,
)
    requires
        deletion_invariant(plan, step, disk),
        step is RestoreSettings || step is RestoreDirectory ==> succeeded,
    ensures
        deletion_invariant(plan, opening(plan), untouched(plan)),
        deletion_invariant(
            plan,
            following(plan, step, succeeded),
            touched(disk, step, succeeded),
        ),
{
}

/// What the disk looks like before each step where the steps that undo may fail
/// too.
pub open spec fn nothing_is_lost(
    plan: DeletionPlan,
    step: DeletionStep,
    disk: DeletionDisk,
) -> bool {
    match step {
        DeletionStep::RestoreDirectory => plan.has_directory && disk.directory is Aside && (
        disk.settings_updated ==> plan.settings_changed) && !disk.registry_updated,
        DeletionStep::Kept => (if plan.has_directory {
            disk.directory is Home || disk.directory is Aside
        } else {
            disk.directory is Nowhere
        }) && (disk.settings_updated ==> plan.settings_changed) && !disk.registry_updated,
        _ => deletion_invariant(plan, step, disk),
    }
}

/// Whatever fails, the steps that undo among it, a workspace that is not deleted
/// is still in the registry, and its directory is in its place or aside, never
/// removed.
pub proof fn law_kept_workspace_is_not_lost(
    plan: DeletionPlan,
    step: DeletionStep,
    disk: DeletionDisk,
    succeeded: bool,
)
    requires
        nothing_is_lost(plan, step, disk),
    ensures
        nothing_is_lost(plan, opening(plan), untouched(plan)),
        nothing_is_lost(plan, following(plan, step, succeeded), touched(disk, step, succeeded)),
{
}

/// A step on the way to the deletion.
pub open spec fn leads_to_deletion(step: DeletionStep) -> bool {
    step is StageDirectory || step is WriteSettings || step is WriteRegistry || step is RemoveStaged
        || step is Deleted
}

/// A deletion begins on the way to its end, and stays on it as long as its steps
/// succeed: nothing is given up without a failure. A failure before the registry
/// is written leads to the workspace being kept, and none after.
pub proof fn law_deletion_goes_on_unless_a_step_fails(
    plan: DeletionPlan,
    step: DeletionStep,
    succeeded: bool,
)
    ensures
        leads_to_deletion(opening(plan)),
        leads_to_deletion(step) && succeeded ==> leads_to_deletion(
            following(plan, step, succeeded),
        ),
        (step is StageDirectory || step is WriteSettings || step is WriteRegistry) && !succeeded
            ==> !leads_to_deletion(following(plan, step, succeeded)),
        step is RemoveStaged || step is Deleted ==> following(plan, step, succeeded) is Deleted,
        !leads_to_deletion(step) ==> !leads_to_deletion(following(plan, step, succeeded)),
{
}

/// The directory is moved aside first and removed last, and nothing is undone
/// that was not done.
pub proof fn law_directory_goes_first_and_last(
    plan: DeletionPlan,
    step: DeletionStep,
    succeeded: bool,
)
    ensures
        plan.has_directory <==> opening(plan) is StageDirectory,
        following(plan, step, succeeded) is Deleted && !(step is Deleted) ==> (if plan.has_directory {
            step is RemoveStaged
        } else {
            step is WriteRegistry || step is RemoveStaged
        }),
        following(plan, step, succeeded) is RemoveStaged ==> plan.has_directory && step
            is WriteRegistry && succeeded,
        following(plan, step, succeeded) is RestoreDirectory ==> plan.has_directory,
        following(plan, step, succeeded) is RestoreSettings ==> plan.settings_changed,
        following(plan, step, succeeded) is WriteSettings ==> plan.settings_changed && step
            is StageDirectory,
        following(plan, step, succeeded) is WriteRegistry && plan.settings_changed ==> step
            is WriteSettings,
{
}

/// How many steps a deletion can still take.
pub open spec fn steps_left(step: DeletionStep) -> nat {
    match step {
        DeletionStep::StageDirectory => 5,
        DeletionStep::WriteSettings => 4,
        DeletionStep::WriteRegistry => 3,
        DeletionStep::RestoreSettings => 2,
        DeletionStep::RestoreDirectory => 1,
        DeletionStep::RemoveStaged => 1,
        DeletionStep::Deleted => 0,
        DeletionStep::Kept => 0,
    }
}

/// A deletion comes to its end.
pub proof fn law_deletion_ends(plan: DeletionPlan, step: DeletionStep, succeeded: bool)
    requires
        steps_left(step) > 0,
    ensures
        steps_left(following(plan, step, succeeded)) < steps_left(step),
{
}

/// The name of the directory that a workspace is moved to.
pub fn staged_name_at(workspace_id: &str, millis: i64) -> (name: String)
    ensures
        name@ == ".deleting-"@ + workspace_id@ + "-"@ + decimal::signed_decimal(millis as int),
{
    let mut name: String = text::joined(".deleting-", workspace_id);
    name.append("-");
    name.append(decimal::signed_number_text(millis).as_str());
    name
}

/// The name of the directory that a workspace is moved to now.
pub fn staged_name(workspace_id: &str) -> (name: String)
    ensures
        exists|millis: i64|
            name@ == ".deleting-"@ + workspace_id@ + "-"@ + #[trigger] decimal::signed_decimal(
                millis as int,
            ),
{
    let millis: i64 = clock::now_millis();
    staged_name_at(workspace_id, millis)
}

/// The line that tells that a deleted workspace left a directory behind.
pub fn leftover_line(error: &str) -> (line: String)
    ensures
        line@ == "工作区已删除，但暂存目录清理失败："@ + error@,
{
    text::joined("工作区已删除，但暂存目录清理失败：", error)
}

} // verus!
