//! The registry of workspaces: finding, selecting, adding, renaming and
//! removing them.

use vstd::prelude::*;

use crate::clock;
use crate::decimal;
use crate::error::AppError;
use crate::settings::AppSettings;
use crate::settings::SettingsView;
use crate::text;
use crate::text_map::TextMap;

verus! {

/// The id of the workspace that exists from the start.
pub const DEFAULT_WORKSPACE_ID: &'static str = "default";

/// A workspace.
pub struct WorkspaceRecord {
    pub id: String,
    pub name: String,
}

impl Clone for WorkspaceRecord {
    fn clone(&self) -> (copy: Self)
        ensures
            copy == *self,
    {
        WorkspaceRecord { id: self.id.clone(), name: self.name.clone() }
    }
}

/// The workspaces, in the order in which they were added.
pub struct WorkspaceRegistry {
    pub workspaces: Vec<WorkspaceRecord>,
}

/// A workspace with the number of its running services.
pub struct WorkspaceInfo {
    pub id: String,
    pub name: String,
    pub running_count: usize,
}

/// One of the workspaces has this id.
pub open spec fn has_id(workspaces: Seq<WorkspaceRecord>, id: Seq<char>) -> bool {
    exists|i: int| 0 <= i < workspaces.len() && (#[trigger] workspaces[i]).id@ == id
}

/// The first workspace with this id stands at `k`.
pub open spec fn first_at(workspaces: Seq<WorkspaceRecord>, id: Seq<char>, k: int) -> bool {
    &&& 0 <= k < workspaces.len()
    &&& workspaces[k].id@ == id
    &&& forall|j: int| 0 <= j < k ==> (#[trigger] workspaces[j]).id@ != id
}

/// One of the workspaces has this name.
pub open spec fn has_name(workspaces: Seq<WorkspaceRecord>, name: Seq<char>) -> bool {
    exists|i: int| 0 <= i < workspaces.len() && (#[trigger] workspaces[i]).name@ == name
}

/// A workspace with another id has this name, but for the case of ASCII letters.
pub open spec fn name_taken_by_other(
    workspaces: Seq<WorkspaceRecord>,
    id: Seq<char>,
    name: Seq<char>,
) -> bool {
    exists|i: int|
        0 <= i < workspaces.len() && (#[trigger] workspaces[i]).id@ != id && text::lower(
            workspaces[i].name@,
        ) == text::lower(name)
}

/// No two workspaces share an id, nor a name but for the case of ASCII letters.
pub open spec fn distinct(workspaces: Seq<WorkspaceRecord>) -> bool {
    forall|i: int, j: int|
        0 <= i < j < workspaces.len() ==> (#[trigger] workspaces[i]).id@ != (
        #[trigger] workspaces[j]).id@ && text::lower(workspaces[i].name@) != text::lower(
            workspaces[j].name@,
        )
}

/// The index of the first workspace with an id.
fn position(workspaces: &Vec<WorkspaceRecord>, id: &str) -> (found: Option<usize>)
    ensures
        match found {
            Some(k) => first_at(workspaces@, id@, k as int) && has_id(workspaces@, id@),
            None => !has_id(workspaces@, id@),
        },
{
    let mut i: usize = 0;
    while i < workspaces.len()
        invariant
            i <= workspaces@.len(),
            forall|j: int| 0 <= j < i ==> (#[trigger] workspaces@[j]).id@ != id@,
        decreases workspaces@.len() - i,
    {
        if text::same_text(workspaces[i].id.as_str(), id) {
            return Some(i);
        }
        i = i + 1;
    }
    None
}

/// The workspace with an id.
pub fn ensure_workspace_exists(registry: &WorkspaceRegistry, workspace_id: &str) -> (found: Result<
    WorkspaceRecord,
    AppError,
>)
    ensures
        match found {
            Ok(record) => exists|k: int| #[trigger]
                first_at(registry.workspaces@, workspace_id@, k) && record
                    == registry.workspaces@[k],
            Err(e) => !has_id(registry.workspaces@, workspace_id@) && (
            e matches AppError::WorkspaceNotFound(id) && id@ == workspace_id@),
        },
{
    match position(&registry.workspaces, workspace_id) {
        Some(k) => Ok(registry.workspaces[k].clone()),
        None => Err(AppError::WorkspaceNotFound(workspace_id.to_owned())),
    }
}

/// The workspaces with the numbers of their running services.
pub fn workspace_infos(registry: &WorkspaceRegistry, running_counts: &TextMap<usize>) -> (infos: Vec<
    WorkspaceInfo,
>)
    requires
        running_counts.wf(),
    ensures
        infos@.len() == registry.workspaces@.len(),
        forall|i: int|
            0 <= i < infos@.len() ==> (#[trigger] infos@[i]).id@ == registry.workspaces@[i].id@
                && infos@[i].name@ == registry.workspaces@[i].name@ && infos@[i].running_count
                == if running_counts@.contains_key(registry.workspaces@[i].id@) {
                running_counts@[registry.workspaces@[i].id@]
            } else {
                0
            },
{
    let mut infos: Vec<WorkspaceInfo> = Vec::new();
    let mut i: usize = 0;
    while i < registry.workspaces.len()
        invariant
            running_counts.wf(),
            i <= registry.workspaces@.len(),
            infos@.len() == i,
            forall|j: int|
                0 <= j < i ==> (#[trigger] infos@[j]).id@ == registry.workspaces@[j].id@
                    && infos@[j].name@ == registry.workspaces@[j].name@ && infos@[j].running_count
                    == if running_counts@.contains_key(registry.workspaces@[j].id@) {
                    running_counts@[registry.workspaces@[j].id@]
                } else {
                    0
                },
        decreases registry.workspaces@.len() - i,
    {
        let record = &registry.workspaces[i];
        let running_count: usize = match running_counts.get(record.id.as_str()) {
            Some(n) => *n,
            None => 0,
        };
        infos.push(
            WorkspaceInfo { id: record.id.clone(), name: record.name.clone(), running_count },
        );
        i = i + 1;
    }
    infos
}

/// The index of the neighbour that takes the place of the entry removed at `k`
/// from a list of `len` entries.
pub open spec fn neighbour(k: int, len: int) -> int {
    if k < len - 1 {
        k
    } else {
        len - 2
    }
}

/// Removes a workspace and gives the neighbour that takes its place.
pub fn remove_workspace_record(registry: &mut WorkspaceRegistry, workspace_id: &str) -> (next:
    Result<WorkspaceRecord, AppError>)
    ensures
        match next {
            Ok(record) => {
                let before = old(registry).workspaces@;
                let after = final(registry).workspaces@;
                &&& before.len() > 1
                &&& exists|k: int| #[trigger]
                    first_at(before, workspace_id@, k) && after == before.remove(k) && record
                        == after[neighbour(k, before.len() as int)]
            },
            Err(e) => {
                &&& final(registry).workspaces@ == old(registry).workspaces@
                &&& if old(registry).workspaces@.len() <= 1 {
                    e == AppError::LastWorkspace
                } else {
                    !has_id(old(registry).workspaces@, workspace_id@) && (
                    e matches AppError::WorkspaceNotFound(id) && id@ == workspace_id@)
                }
            },
        },
{
    if registry.workspaces.len() <= 1 {
        return Err(AppError::LastWorkspace);
    }
    match position(&registry.workspaces, workspace_id) {
        Some(k) => {
            let ghost before = registry.workspaces@;
            registry.workspaces.remove(k);
            let last: usize = registry.workspaces.len() - 1;
            let next: usize = if k < last {
                k
            } else {
                last
            };
            assert(first_at(before, workspace_id@, k as int));
            assert(next == neighbour(k as int, before.len() as int));
            Ok(registry.workspaces[next].clone())
        },
        None => Err(AppError::WorkspaceNotFound(workspace_id.to_owned())),
    }
}

/// The workspace that follows a removed one takes its place, and the one before
/// it where it was the last.
pub proof fn law_neighbour_takes_the_place(before: Seq<WorkspaceRecord>, k: int)
    requires
        before.len() > 1,
        0 <= k < before.len(),
    ensures
        k + 1 < before.len() ==> before.remove(k)[neighbour(k, before.len() as int)] == before[k
            + 1],
        k + 1 == before.len() ==> before.remove(k)[neighbour(k, before.len() as int)] == before[k
            - 1],
{
}

/// The longest name that a workspace can have.
pub const MAX_NAME_CHARS: usize = 32;

/// Why a workspace cannot be renamed, if it cannot.
pub open spec fn rename_fault(
    workspaces: Seq<WorkspaceRecord>,
    id: Seq<char>,
    name: Seq<char>,
    fault: AppError,
) -> bool {
    let wanted = text::trimmed(name);
    if wanted.len() == 0 {
        fault == AppError::EmptyWorkspaceName
    } else if wanted.len() > MAX_NAME_CHARS {
        fault == AppError::LongWorkspaceName
    } else if name_taken_by_other(workspaces, id, wanted) {
        fault matches AppError::DuplicateWorkspaceName(n) && n@ == wanted
    } else if !has_id(workspaces, id) {
        fault matches AppError::WorkspaceNotFound(i) && i@ == id
    } else {
        false
    }
}

/// A workspace can be renamed.
pub open spec fn can_rename(
    workspaces: Seq<WorkspaceRecord>,
    id: Seq<char>,
    name: Seq<char>,
) -> bool {
    let wanted = text::trimmed(name);
    &&& 0 < wanted.len() <= MAX_NAME_CHARS
    &&& !name_taken_by_other(workspaces, id, wanted)
    &&& has_id(workspaces, id)
}

/// The workspaces are the same but for the name of the first one with an id.
pub open spec fn renamed(
    before: Seq<WorkspaceRecord>,
    after: Seq<WorkspaceRecord>,
    id: Seq<char>,
    name: Seq<char>,
) -> bool {
    exists|k: int| #[trigger]
        first_at(before, id, k) && after.len() == before.len() && after == before.update(k, after[k])
            && after[k].id == before[k].id && after[k].name@ == name
}

/// A workspace can be renamed exactly where it is registered, the name without
/// surrounding white space has 1 to 32 characters, and no other workspace has it
/// but for the case of ASCII letters.
pub proof fn law_free_names_can_be_given(
    workspaces: Seq<WorkspaceRecord>,
    id: Seq<char>,
    name: Seq<char>,
)
    ensures
        can_rename(workspaces, id, name) <==> 1 <= text::trimmed(name).len() <= 32 && (exists|i: int|
            0 <= i < workspaces.len() && (#[trigger] workspaces[i]).id@ == id) && forall|i: int|
            0 <= i < workspaces.len() && (#[trigger] workspaces[i]).id@ != id ==> text::lower(
                workspaces[i].name@,
            ) != text::lower(text::trimmed(name)),
{
}

/// A name that cannot be given is refused for the first of its faults: it is
/// blank, it is too long, another workspace has it, the workspace is not
/// registered. There is a fault exactly where the workspace cannot be renamed.
pub proof fn law_refused_names_have_a_fault(
    workspaces: Seq<WorkspaceRecord>,
    id: Seq<char>,
    name: Seq<char>,
    fault: AppError,
)
    requires
        rename_fault(workspaces, id, name, fault),
    ensures
        !can_rename(workspaces, id, name),
        text::trimmed(name).len() == 0 <==> fault == AppError::EmptyWorkspaceName,
        text::trimmed(name).len() > 32 <==> fault == AppError::LongWorkspaceName,
        fault is DuplicateWorkspaceName <==> 1 <= text::trimmed(name).len() <= 32 && exists|i: int|
            0 <= i < workspaces.len() && (#[trigger] workspaces[i]).id@ != id && text::lower(
                workspaces[i].name@,
            ) == text::lower(text::trimmed(name)),
        fault matches AppError::DuplicateWorkspaceName(shown) ==> shown@ == text::trimmed(name),
        fault is WorkspaceNotFound ==> !has_id(workspaces, id),
        fault matches AppError::WorkspaceNotFound(shown) ==> shown@ == id,
        fault is EmptyWorkspaceName || fault is LongWorkspaceName || fault is DuplicateWorkspaceName
            || fault is WorkspaceNotFound,
{
}

/// Renaming gives the workspace the name and leaves every other one, and all ids,
/// as they are.
pub proof fn law_renaming_changes_one_name(
    before: Seq<WorkspaceRecord>,
    after: Seq<WorkspaceRecord>,
    id: Seq<char>,
    name: Seq<char>,
    i: int,
)
    requires
        renamed(before, after, id, name),
        0 <= i < before.len(),
    ensures
        after.len() == before.len(),
        after[i].id@ == before[i].id@,
        before[i].id@ != id ==> after[i] == before[i],
        before[i].id@ == id && (forall|j: int| 0 <= j < i ==> (#[trigger] before[j]).id@ != id)
            ==> after[i].name@ == name,
{
    let k = choose|k: int| #[trigger]
        first_at(before, id, k) && after.len() == before.len() && after == before.update(k, after[k])
            && after[k].id == before[k].id && after[k].name@ == name;
    assert(after[i] == before.update(k, after[k])[i]);
}

/// Gives a workspace another name, without surrounding white space.
pub fn rename_workspace_record(registry: &mut WorkspaceRegistry, workspace_id: &str, name: &str) -> (
result: Result<WorkspaceRecord, AppError>)
    ensures
        match result {
            Ok(record) => {
                &&& can_rename(old(registry).workspaces@, workspace_id@, name@)
                &&& renamed(
                    old(registry).workspaces@,
                    final(registry).workspaces@,
                    workspace_id@,
                    text::trimmed(name@),
                )
                &&& record.id@ == workspace_id@
                &&& record.name@ == text::trimmed(name@)
            },
            Err(e) => {
                &&& rename_fault(old(registry).workspaces@, workspace_id@, name@, e)
                &&& final(registry).workspaces@ == old(registry).workspaces@
            },
        },
{
    let wanted = text::trim_text(name);
    let length: usize = text::chars_of(wanted.as_str()).len();
    if length == 0 {
        return Err(AppError::EmptyWorkspaceName);
    }
    if length > MAX_NAME_CHARS {
        return Err(AppError::LongWorkspaceName);
    }
    let ghost before = registry.workspaces@;
    let mut i: usize = 0;
    while i < registry.workspaces.len()
        invariant
            i <= registry.workspaces@.len(),
            registry.workspaces@ == before,
            before == old(registry).workspaces@,
            wanted@ == text::trimmed(name@),
            0 < wanted@.len() <= MAX_NAME_CHARS,
            forall|j: int|
                0 <= j < i ==> (#[trigger] before[j]).id@ == workspace_id@ || text::lower(
                    before[j].name@,
                ) != text::lower(wanted@),
        decreases registry.workspaces@.len() - i,
    {
        let record = &registry.workspaces[i];
        if !text::same_text(record.id.as_str(), workspace_id) && text::same_ignoring_case(
            record.name.as_str(),
            wanted.as_str(),
        ) {
            assert(name_taken_by_other(before, workspace_id@, wanted@));
            return Err(AppError::DuplicateWorkspaceName(wanted));
        }
        i = i + 1;
    }
    assert(!name_taken_by_other(before, workspace_id@, wanted@));
    match position(&registry.workspaces, workspace_id) {
        Some(k) => {
            let record = WorkspaceRecord { id: registry.workspaces[k].id.clone(), name: wanted };
            let result = record.clone();
            registry.workspaces.set(k, record);
            assert(first_at(before, workspace_id@, k as int));
            Ok(result)
        },
        None => Err(AppError::WorkspaceNotFound(workspace_id.to_owned())),
    }
}

/// Removing keeps ids and names distinct, and a workspace that was removed is
/// gone.
pub proof fn law_removed_workspace_is_gone(before: Seq<WorkspaceRecord>, id: Seq<char>, k: int)
    requires
        distinct(before),
        before.len() > 1,
        first_at(before, id, k),
    ensures
        before.remove(k).len() >= 1,
        !has_id(before.remove(k), id),
        distinct(before.remove(k)),
{
    let after = before.remove(k);
    assert forall|i: int| 0 <= i < after.len() implies (#[trigger] after[i]).id@ != id by {
        if i < k {
            assert(after[i] == before[i]);
        } else {
            assert(after[i] == before[i + 1]);
        }
    }
    assert forall|i: int, j: int| 0 <= i < j < after.len() implies (#[trigger] after[i]).id@ != (
    #[trigger] after[j]).id@ && text::lower(after[i].name@) != text::lower(after[j].name@) by {
        let x = if i < k { i } else { i + 1 };
        let y = if j < k { j } else { j + 1 };
        assert(before[x].id@ != before[y].id@);
    }
}

/// Renaming keeps ids and names distinct.
pub proof fn law_rename_keeps_names_distinct(
    before: Seq<WorkspaceRecord>,
    after: Seq<WorkspaceRecord>,
    id: Seq<char>,
    name: Seq<char>,
)
    requires
        distinct(before),
        can_rename(before, id, name),
        renamed(before, after, id, text::trimmed(name)),
    ensures
        distinct(after),
        after.len() == before.len(),
        forall|i: int| 0 <= i < after.len() ==> (#[trigger] after[i]).id@ == before[i].id@,
{
    let wanted = text::trimmed(name);
    let k = choose|k: int| #[trigger]
        first_at(before, id, k) && after.len() == before.len() && after == before.update(k, after[k])
            && after[k].id == before[k].id && after[k].name@ == wanted;
    assert forall|i: int, j: int| 0 <= i < j < after.len() implies (#[trigger] after[i]).id@ != (
    #[trigger] after[j]).id@ && text::lower(after[i].name@) != text::lower(after[j].name@) by {
        assert(before[i].id@ != before[j].id@);
        if i == k {
            assert(before[j].id@ != id);
        }
        if j == k {
            assert(before[i].id@ != id);
        }
    }
}

/// The workspace at `k` is the one to be shown: the one asked for, else the
/// current one, else the first.
pub open spec fn selected(
    workspaces: Seq<WorkspaceRecord>,
    current: Option<Seq<char>>,
    requested: Option<Seq<char>>,
    k: int,
) -> bool {
    let wanted = match requested {
        Some(id) => Some(id),
        None => current,
    };
    match wanted {
        Some(id) => if has_id(workspaces, id) {
            first_at(workspaces, id, k)
        } else {
            k == 0 && workspaces.len() > 0
        },
        None => k == 0 && workspaces.len() > 0,
    }
}

/// Looking for a workspace finds the first one with the id, if there is one.
pub proof fn law_workspace_is_found_by_its_id(
    workspaces: Seq<WorkspaceRecord>,
    id: Seq<char>,
    k: int,
)
    ensures
        has_id(workspaces, id) <==> workspaces.map_values(|w: WorkspaceRecord| w.id@).contains(id),
        first_at(workspaces, id, k) <==> 0 <= k < workspaces.len() && workspaces[k].id@ == id
            && !workspaces.take(k).map_values(|w: WorkspaceRecord| w.id@).contains(id),
{
    let ids = workspaces.map_values(|w: WorkspaceRecord| w.id@);
    if has_id(workspaces, id) {
        let i = choose|i: int| 0 <= i < workspaces.len() && (#[trigger] workspaces[i]).id@ == id;
        assert(ids[i] == id);
    }
    if ids.contains(id) {
        let i = ids.index_of(id);
        assert(workspaces[i].id@ == id);
    }
    if 0 <= k < workspaces.len() {
        let earlier = workspaces.take(k).map_values(|w: WorkspaceRecord| w.id@);
        if earlier.contains(id) {
            let i = earlier.index_of(id);
            assert(workspaces[i].id@ == id);
        } else {
            assert forall|j: int| 0 <= j < k implies (#[trigger] workspaces[j]).id@ != id by {
                assert(earlier[j] == workspaces[j].id@);
            }
        }
    }
}

/// The workspace that was asked for is shown where it is registered. Without a
/// request it is the current one. In every other case it is the first, and there
/// is one unless none is registered.
pub proof fn law_requested_workspace_is_shown(
    workspaces: Seq<WorkspaceRecord>,
    current: Option<Seq<char>>,
    requested: Option<Seq<char>>,
    k: int,
)
    ensures
        requested is Some && has_id(workspaces, requested->0) ==> (selected(
            workspaces,
            current,
            requested,
            k,
        ) <==> first_at(workspaces, requested->0, k)),
        requested is None && current is Some && has_id(workspaces, current->0) ==> (selected(
            workspaces,
            current,
            requested,
            k,
        ) <==> first_at(workspaces, current->0, k)),
        (requested is Some && !has_id(workspaces, requested->0)) || (requested is None && (
        current is None || !has_id(workspaces, current->0))) ==> (selected(
            workspaces,
            current,
            requested,
            k,
        ) <==> k == 0 && workspaces.len() > 0),
{
}

/// The settings with another current workspace.
pub open spec fn with_current(settings: SettingsView, id: Seq<char>) -> SettingsView {
    SettingsView { current_workspace: Some(id), ..settings }
}

/// Another current workspace leaves the rest of the settings as it is.
pub proof fn law_current_workspace_is_set(settings: SettingsView, id: Seq<char>)
    ensures
        with_current(settings, id).current_workspace == Some(id),
        with_current(settings, id).current_runtime == settings.current_runtime,
        with_current(settings, id).intervals == settings.intervals,
{
}

/// Selects the workspace to be shown and makes it the current one. The flag
/// tells whether the settings changed.
pub fn select_workspace(
    registry: &WorkspaceRegistry,
    settings: &mut AppSettings,
    requested_workspace_id: Option<&str>,
) -> (result: Result<(WorkspaceRecord, bool), AppError>)
    requires
        old(settings).wf(),
    ensures
        final(settings).wf(),
        match result {
            Ok((record, changed)) => {
                &&& exists|k: int| #[trigger]
                    selected(
                        registry.workspaces@,
                        old(settings)@.current_workspace,
                        text::borrowed_option(requested_workspace_id),
                        k,
                    ) && record == registry.workspaces@[k]
                &&& final(settings)@ == with_current(old(settings)@, record.id@)
                &&& changed == (old(settings)@.current_workspace != Some(record.id@))
            },
            Err(e) => registry.workspaces@.len() == 0 && e == AppError::NoWorkspace
                && final(settings)@ == old(settings)@,
        },
{
    let found: Option<usize> = match requested_workspace_id {
        Some(id) => position(&registry.workspaces, id),
        None => match &settings.current_workspace_id {
            Some(id) => position(&registry.workspaces, id.as_str()),
            None => None,
        },
    };
    let k: usize = match found {
        Some(k) => k,
        None => {
            if registry.workspaces.len() == 0 {
                return Err(AppError::NoWorkspace);
            }
            0
        },
    };
    assert(selected(
        registry.workspaces@,
        old(settings)@.current_workspace,
        text::borrowed_option(requested_workspace_id),
        k as int,
    ));
    let record = registry.workspaces[k].clone();
    let changed = !text::holds_text(&settings.current_workspace_id, record.id.as_str());
    if changed {
        settings.current_workspace_id = Some(record.id.clone());
    }
    Ok((record, changed))
}

/// Registers the default workspace where none is registered. The flag tells
/// whether the registry changed.
pub fn ensure_default_workspace(registry: &mut WorkspaceRegistry) -> (changed: bool)
    ensures
        changed == (old(registry).workspaces@.len() == 0),
        !changed ==> final(registry).workspaces@ == old(registry).workspaces@,
        changed ==> final(registry).workspaces@.len() == 1
            && final(registry).workspaces@[0].id@ == DEFAULT_WORKSPACE_ID@
            && final(registry).workspaces@[0].name@ == numbered_name(1),
        changed ==> final(registry).workspaces@[0].id@ == "default"@,
        final(registry).workspaces@.len() > 0,
{
    if registry.workspaces.len() == 0 {
        registry.workspaces.push(
            WorkspaceRecord { id: DEFAULT_WORKSPACE_ID.to_owned(), name: numbered_name_text(1) },
        );
        true
    } else {
        false
    }
}

/// The settings of a first run, with the first workspace as the current one.
pub fn initial_settings(registry: &WorkspaceRegistry) -> (settings: AppSettings)
    requires
        registry.workspaces@.len() > 0,
    ensures
        settings.wf(),
        settings@ == with_current(crate::settings::no_settings(), registry.workspaces@[0].id@),
{
    let mut settings = AppSettings::default();
    settings.current_workspace_id = Some(registry.workspaces[0].id.clone());
    settings
}

/// The current workspace is registered.
pub open spec fn current_exists(
    workspaces: Seq<WorkspaceRecord>,
    current: Option<Seq<char>>,
) -> bool {
    match current {
        Some(id) => has_id(workspaces, id),
        None => false,
    }
}

/// Makes the first workspace the current one where the current one is not
/// registered. The flag tells whether the settings changed.
pub fn ensure_current_workspace(settings: &mut AppSettings, registry: &WorkspaceRegistry) -> (changed:
    bool)
    requires
        old(settings).wf(),
        registry.workspaces@.len() > 0,
    ensures
        final(settings).wf(),
        changed == !current_exists(registry.workspaces@, old(settings)@.current_workspace),
        final(settings)@ == if changed {
            with_current(old(settings)@, registry.workspaces@[0].id@)
        } else {
            old(settings)@
        },
        current_exists(registry.workspaces@, final(settings)@.current_workspace),
{
    let found: Option<usize> = match &settings.current_workspace_id {
        Some(id) => position(&registry.workspaces, id.as_str()),
        None => None,
    };
    match found {
        Some(_) => false,
        None => {
            settings.current_workspace_id = Some(registry.workspaces[0].id.clone());
            assert(registry.workspaces@[0].id@ == final(settings)@.current_workspace->0);
            true
        },
    }
}

/// Where the configuration of a workspace comes from.
pub enum ConfigSource {
    /// It exists and stays.
    Existing,
    /// It is copied from the place that earlier versions used.
    Legacy,
    /// It is written anew.
    Default,
}

/// Where the configuration of a workspace comes from: an existing one stays;
/// the default workspace takes over the one that earlier versions left.
pub fn config_source(workspace_id: &str, config_exists: bool, legacy_exists: bool) -> (source:
    ConfigSource)
    ensures
        source == if config_exists {
            ConfigSource::Existing
        } else if workspace_id@ == DEFAULT_WORKSPACE_ID@ && legacy_exists {
            ConfigSource::Legacy
        } else {
            ConfigSource::Default
        },
        source is Existing <==> config_exists,
        source is Legacy <==> !config_exists && legacy_exists && workspace_id@ == "default"@,
{
    if config_exists {
        ConfigSource::Existing
    } else if legacy_exists && text::same_text(workspace_id, DEFAULT_WORKSPACE_ID) {
        ConfigSource::Legacy
    } else {
        ConfigSource::Default
    }
}

/// The name of the n-th workspace.
pub open spec fn numbered_name(n: nat) -> Seq<char> {
    "工作区 "@ + decimal::decimal(n)
}

/// The name of a workspace tells its number, and different numbers have different
/// names.
pub proof fn law_names_tell_their_number(n: nat, m: nat)
    ensures
        text::begins(numbered_name(n), "工作区 "@),
        decimal::number_of(numbered_name(n).skip("工作区 "@.len() as int)) == n,
        numbered_name(n) == numbered_name(m) ==> n == m,
{
    let p = "工作区 "@;
    assert(numbered_name(n).take(p.len() as int) =~= p);
    assert(numbered_name(n).skip(p.len() as int) =~= decimal::decimal(n));
    assert(numbered_name(m).skip(p.len() as int) =~= decimal::decimal(m));
    decimal::lemma_number_of_decimal(n);
    decimal::lemma_number_of_decimal(m);
}

fn numbered_name_text(n: u64) -> (out: String)
    ensures
        out@ == numbered_name(n as nat),
{
    text::joined("工作区 ", decimal::number_text(n).as_str())
}

fn name_exists(workspaces: &Vec<WorkspaceRecord>, name: &str) -> (found: bool)
    ensures
        found == has_name(workspaces@, name@),
{
    let mut i: usize = 0;
    while i < workspaces.len()
        invariant
            i <= workspaces@.len(),
            forall|j: int| 0 <= j < i ==> (#[trigger] workspaces@[j]).name@ != name@,
        decreases workspaces@.len() - i,
    {
        if text::same_text(workspaces[i].name.as_str(), name) {
            return true;
        }
        i = i + 1;
    }
    false
}

/// A name is in use where a workspace has exactly this name.
pub proof fn law_name_in_use_is_a_workspace_name(workspaces: Seq<WorkspaceRecord>, name: Seq<char>)
    ensures
        has_name(workspaces, name) <==> workspaces.map_values(
            |w: WorkspaceRecord| w.name@,
        ).contains(name),
{
    let names = workspaces.map_values(|w: WorkspaceRecord| w.name@);
    if has_name(workspaces, name) {
        let i = choose|i: int|
            0 <= i < workspaces.len() && (#[trigger] workspaces[i]).name@ == name;
        assert(names[i] == name);
    }
    if names.contains(name) {
        let i = names.index_of(name);
        assert(workspaces[i].name@ == name);
    }
}

/// Where `taken` lists different texts, all among `pool`, it is no longer.
proof fn lemma_pigeonhole(taken: Seq<Seq<char>>, pool: Seq<Seq<char>>)
    requires
        taken.no_duplicates(),
        forall|i: int| 0 <= i < taken.len() ==> pool.contains(#[trigger] taken[i]),
    ensures
        taken.len() <= pool.len(),
{
    taken.unique_seq_to_set();
    pool.lemma_cardinality_of_set();
    assert(taken.to_set().subset_of(pool.to_set()));
    vstd::set_lib::lemma_len_subset(taken.to_set(), pool.to_set());
}

/// The names of the workspaces.
spec fn names_of(workspaces: Seq<WorkspaceRecord>) -> Seq<Seq<char>> {
    workspaces.map_values(|w: WorkspaceRecord| w.name@)
}

/// The ids of the workspaces.
spec fn ids_of(workspaces: Seq<WorkspaceRecord>) -> Seq<Seq<char>> {
    workspaces.map_values(|w: WorkspaceRecord| w.id@)
}

proof fn lemma_numbered_names_taken(workspaces: Seq<WorkspaceRecord>, n: nat)
    requires
        forall|m: nat| 1 <= m <= n ==> has_name(workspaces, #[trigger] numbered_name(m)),
    ensures
        n <= workspaces.len(),
{
    let taken = Seq::new(n, |i: int| numbered_name((i + 1) as nat));
    let pool = names_of(workspaces);
    assert forall|i: int, j: int| 0 <= i < taken.len() && 0 <= j < taken.len() && i != j implies taken[i]
        != taken[j] by {
        if taken[i] == taken[j] {
            lemma_numbered_name_injective((i + 1) as nat, (j + 1) as nat);
        }
    }
    assert forall|i: int| 0 <= i < taken.len() implies pool.contains(#[trigger] taken[i]) by {
        assert(has_name(workspaces, numbered_name((i + 1) as nat)));
        let k = choose|k: int|
            0 <= k < workspaces.len() && (#[trigger] workspaces[k]).name@ == taken[i];
        assert(pool[k] == taken[i]);
    }
    lemma_pigeonhole(taken, pool);
}

proof fn lemma_numbered_name_injective(a: nat, b: nat)
    requires
        numbered_name(a) == numbered_name(b),
    ensures
        a == b,
{
    let p = "工作区 "@;
    assert(decimal::decimal(a) =~= numbered_name(a).skip(p.len() as int));
    assert(decimal::decimal(b) =~= numbered_name(b).skip(p.len() as int));
    decimal::lemma_decimal_injective(a, b);
}

/// The number of the next workspace: the least one whose name is free.
pub fn next_workspace_number(registry: &WorkspaceRegistry) -> (n: u64)
    requires
        registry.workspaces@.len() < usize::MAX,
    ensures
        n >= 1,
        !has_name(registry.workspaces@, numbered_name(n as nat)),
        forall|m: nat| 1 <= m < n ==> has_name(registry.workspaces@, #[trigger] numbered_name(m)),
{
    let mut n: u64 = 1;
    while name_exists(&registry.workspaces, numbered_name_text(n).as_str())
        invariant
            registry.workspaces@.len() < usize::MAX,
            1 <= n <= registry.workspaces@.len() + 1,
            forall|m: nat|
                1 <= m < n ==> has_name(registry.workspaces@, #[trigger] numbered_name(m)),
        decreases registry.workspaces@.len() + 1 - n,
    {
        proof {
            lemma_numbered_names_taken(registry.workspaces@, n as nat);
        }
        n = n + 1;
    }
    n
}

/// The id of a workspace made at a time: the plain one, or one with a suffix
/// where ids collide.
pub open spec fn workspace_id_text(millis: int, attempt: nat) -> Seq<char> {
    let plain = "workspace-"@ + decimal::signed_decimal(millis);
    if attempt <= 1 {
        plain
    } else {
        plain + seq!['-'] + decimal::decimal(attempt)
    }
}

/// The id of a workspace made at a time, at the given attempt.
pub fn workspace_id_at(millis: i64, attempt: u64) -> (out: String)
    ensures
        out@ == workspace_id_text(millis as int, attempt as nat),
{
    let mut out: String = text::joined("workspace-", decimal::signed_number_text(millis).as_str());
    if attempt > 1 {
        out.push('-');
        decimal::append_number(&mut out, attempt);
        assert(("workspace-"@ + decimal::signed_decimal(millis as int)).push('-') =~= "workspace-"@
            + decimal::signed_decimal(millis as int) + seq!['-']);
    }
    out
}

/// The id of a workspace tells the time at which it was made, and from the second
/// attempt on the number of the attempt.
pub proof fn law_ids_tell_their_time(millis: int, attempt: nat)
    ensures
        attempt <= 1 ==> workspace_id_text(millis, attempt) == "workspace-"@
            + decimal::signed_decimal(millis),
        attempt > 1 ==> workspace_id_text(millis, attempt) == "workspace-"@
            + decimal::signed_decimal(millis) + seq!['-'] + decimal::decimal(attempt),
{
}

proof fn lemma_attempts_differ(m: int, i: nat, n: int, j: nat)
    requires
        1 <= i < j,
    ensures
        workspace_id_text(m, i) != workspace_id_text(n, j),
{
    let left = workspace_id_text(m, i);
    let right = workspace_id_text(n, j);
    let p = "workspace-"@;
    decimal::lemma_decimal_digits(i);
    decimal::lemma_decimal_digits(j);
    if left == right {
        let b = p + decimal::signed_decimal(n);
        assert(right =~= b.push('-') + decimal::decimal(j));
        if i > 1 {
            let a = p + decimal::signed_decimal(m);
            assert(left =~= a.push('-') + decimal::decimal(i));
            text::lemma_last_separator(
                a,
                decimal::decimal(i),
                b,
                decimal::decimal(j),
                '-',
            );
            decimal::lemma_decimal_injective(i, j);
        } else {
            let d = decimal::signed_decimal(m);
            let e = decimal::signed_decimal(n);
            let at = p.len() + e.len();
            decimal::lemma_decimal_digits(if n < 0 { (-n) as nat } else { n as nat });
            decimal::lemma_decimal_digits(if m < 0 { (-m) as nat } else { m as nat });
            assert(e.len() >= 1);
            assert(right[at as int] == '-');
            assert(left[at as int] == d[e.len() as int]);
            if m < 0 {
                assert(d[e.len() as int] == decimal::decimal((-m) as nat)[e.len() - 1]);
            } else {
                assert(d[e.len() as int] == decimal::decimal(m as nat)[e.len() as int]);
            }
        }
    }
}

/// `id` is the first one that is free, where the clock reads `times` at the
/// attempts.
pub open spec fn first_free_id(
    workspaces: Seq<WorkspaceRecord>,
    times: Seq<i64>,
    id: Seq<char>,
) -> bool {
    &&& times.len() >= 1
    &&& id == workspace_id_text(times.last() as int, times.len())
    &&& !has_id(workspaces, id)
    &&& forall|i: int|
        0 <= i < times.len() - 1 ==> has_id(
            workspaces,
            workspace_id_text(#[trigger] times[i] as int, (i + 1) as nat),
        )
}

proof fn lemma_taken_ids(workspaces: Seq<WorkspaceRecord>, times: Seq<i64>)
    requires
        forall|i: int|
            0 <= i < times.len() ==> has_id(
                workspaces,
                workspace_id_text(#[trigger] times[i] as int, (i + 1) as nat),
            ),
    ensures
        times.len() <= workspaces.len(),
{
    let taken = Seq::new(times.len(), |i: int| workspace_id_text(times[i] as int, (i + 1) as nat));
    let pool = ids_of(workspaces);
    assert forall|i: int, j: int| 0 <= i < taken.len() && 0 <= j < taken.len() && i != j implies taken[i]
        != taken[j] by {
        if i < j {
            lemma_attempts_differ(times[i] as int, (i + 1) as nat, times[j] as int, (j + 1) as nat);
        } else {
            lemma_attempts_differ(times[j] as int, (j + 1) as nat, times[i] as int, (i + 1) as nat);
        }
    }
    assert forall|i: int| 0 <= i < taken.len() implies pool.contains(#[trigger] taken[i]) by {
        assert(has_id(workspaces, workspace_id_text(times[i] as int, (i + 1) as nat)));
        let k = choose|k: int|
            0 <= k < workspaces.len() && (#[trigger] workspaces[k]).id@ == taken[i];
        assert(pool[k] == taken[i]);
    }
    lemma_pigeonhole(taken, pool);
}

/// An id for a new workspace, made from the time: the first one that is free.
fn fresh_workspace_id(registry: &WorkspaceRegistry) -> (id: String)
    requires
        registry.workspaces@.len() < usize::MAX,
    ensures
        exists|times: Seq<i64>| first_free_id(registry.workspaces@, times, id@),
{
    let mut attempt: u64 = 1;
    let mut millis: i64 = clock::now_millis();
    let mut id: String = workspace_id_at(millis, attempt);
    let ghost mut times: Seq<i64> = seq![millis];
    loop
        invariant
            registry.workspaces@.len() < usize::MAX,
            times.len() == attempt,
            times.last() == millis,
            id@ == workspace_id_text(millis as int, attempt as nat),
            1 <= attempt <= registry.workspaces@.len() + 1,
            forall|i: int|
                0 <= i < times.len() - 1 ==> has_id(
                    registry.workspaces@,
                    workspace_id_text(#[trigger] times[i] as int, (i + 1) as nat),
                ),
        ensures
            first_free_id(registry.workspaces@, times, id@),
        decreases registry.workspaces@.len() + 1 - attempt,
    {
        if position(&registry.workspaces, id.as_str()).is_none() {
            break;
        }
        proof {
            lemma_taken_ids(registry.workspaces@, times);
        }
        attempt = attempt + 1;
        millis = clock::now_millis();
        id = workspace_id_at(millis, attempt);
        proof {
            times = times.push(millis);
        }
    }
    id
}

/// The record of a copy of a workspace, to be registered once its files exist:
/// a name with the least free number and an id that is not in use.
pub fn plan_workspace_copy(registry: &WorkspaceRegistry, source_workspace_id: &str) -> (plan: Result<
    WorkspaceRecord,
    AppError,
>)
    requires
        registry.workspaces@.len() < usize::MAX,
    ensures
        match plan {
            Ok(record) => {
                &&& has_id(registry.workspaces@, source_workspace_id@)
                &&& exists|times: Seq<i64>| first_free_id(registry.workspaces@, times, record.id@)
                &&& exists|n: nat|
                    n >= 1 && record.name@ == #[trigger] numbered_name(n) && !has_name(
                        registry.workspaces@,
                        numbered_name(n),
                    ) && forall|m: nat|
                        1 <= m < n ==> has_name(registry.workspaces@, #[trigger] numbered_name(m))
            },
            Err(e) => !has_id(registry.workspaces@, source_workspace_id@) && (
            e matches AppError::WorkspaceNotFound(id) && id@ == source_workspace_id@),
        },
{
    match ensure_workspace_exists(registry, source_workspace_id) {
        Err(e) => Err(e),
        Ok(_) => {
            let n: u64 = next_workspace_number(registry);
            let id = fresh_workspace_id(registry);
            let ghost times = choose|times: Seq<i64>|
                first_free_id(registry.workspaces@, times, id@);
            let record = WorkspaceRecord { id, name: numbered_name_text(n) };
            assert(first_free_id(registry.workspaces@, times, record.id@));
            assert(record.name@ == numbered_name(n as nat));
            Ok(record)
        },
    }
}

/// The settings after a copy of a workspace was made: the copy is the current
/// workspace and takes over the cleanup interval.
pub open spec fn with_copy(settings: SettingsView, source: Seq<char>, id: Seq<char>) -> SettingsView {
    SettingsView {
        current_workspace: Some(id),
        intervals: if settings.intervals.contains_key(source) {
            settings.intervals.insert(id, settings.intervals[source])
        } else {
            settings.intervals
        },
        ..settings
    }
}

/// A copy becomes the current workspace and has the cleanup interval of its
/// source. Nothing else in the settings changes.
pub proof fn law_copy_takes_over_the_interval(
    settings: SettingsView,
    source: Seq<char>,
    id: Seq<char>,
    other: Seq<char>,
)
    ensures
        ({
            let after = with_copy(settings, source, id);
            &&& after.current_workspace == Some(id)
            &&& after.current_runtime == settings.current_runtime
            &&& settings.intervals.contains_key(source) ==> after.intervals.contains_key(id)
                && after.intervals[id] == settings.intervals[source]
            &&& !settings.intervals.contains_key(source) ==> after.intervals
                == settings.intervals
            &&& other != id ==> after.intervals.contains_key(other)
                == settings.intervals.contains_key(other)
            &&& other != id && settings.intervals.contains_key(other) ==> after.intervals[other]
                == settings.intervals[other]
        }),
{
}

/// The id of a new workspace is one that no workspace has.
pub proof fn law_new_ids_are_free(
    workspaces: Seq<WorkspaceRecord>,
    times: Seq<i64>,
    id: Seq<char>,
    i: int,
)
    requires
        first_free_id(workspaces, times, id),
        0 <= i < workspaces.len(),
    ensures
        workspaces[i].id@ != id,
        text::begins(id, "workspace-"@),
{
    let head = "workspace-"@;
    assert(id.take(head.len() as int) =~= head);
}

/// Registers a copy of a workspace.
pub fn register_workspace(registry: &mut WorkspaceRegistry, record: &WorkspaceRecord)
    ensures
        final(registry).workspaces@ == old(registry).workspaces@.push(*record),
{
    registry.workspaces.push(record.clone());
}

/// Brings the settings up to date after a copy of a workspace was made.
pub fn adopt_workspace_copy(
    settings: &mut AppSettings,
    source_workspace_id: &str,
    record: &WorkspaceRecord,
)
    requires
        old(settings).wf(),
    ensures
        final(settings).wf(),
        final(settings)@ == with_copy(old(settings)@, source_workspace_id@, record.id@),
{
    let inherited: Option<u64> = match settings.log_cleanup_intervals.get(source_workspace_id) {
        Some(minutes) => Some(*minutes),
        None => None,
    };
    match inherited {
        Some(minutes) => {
            settings.log_cleanup_intervals.insert(record.id.clone(), minutes);
        },
        None => {},
    }
    settings.current_workspace_id = Some(record.id.clone());
}

proof fn lemma_caseless(s: Seq<char>, t: Seq<char>)
    requires
        text::lower(s) == t,
        forall|i: int| 0 <= i < t.len() ==> !('a' <= #[trigger] t[i] && t[i] <= 'z'),
    ensures
        s == t,
{
    assert(s.len() == t.len());
    assert forall|i: int| 0 <= i < s.len() implies s[i] == t[i] by {
        assert(t[i] == text::lower_char(s[i]));
    }
    assert(s =~= t);
}

/// Adding a planned copy keeps ids and names distinct.
pub proof fn law_copy_keeps_names_distinct(
    before: Seq<WorkspaceRecord>,
    record: WorkspaceRecord,
    n: nat,
)
    requires
        distinct(before),
        !has_id(before, record.id@),
        record.name@ == numbered_name(n),
        !has_name(before, numbered_name(n)),
    ensures
        distinct(before.push(record)),
{
    let after = before.push(record);
    let name = numbered_name(n);
    reveal_strlit("工作区 ");
    decimal::lemma_decimal_digits(n);
    assert forall|i: int| 0 <= i < name.len() implies !('a' <= #[trigger] name[i] && name[i] <= 'z')
        && !('A' <= name[i] && name[i] <= 'Z') by {
        if i >= "工作区 "@.len() {
            assert(name[i] == decimal::decimal(n)[i - "工作区 "@.len()]);
        }
    }
    assert(text::lower(name) =~= name);
    assert forall|i: int, j: int| 0 <= i < j < after.len() implies (#[trigger] after[i]).id@ != (
    #[trigger] after[j]).id@ && text::lower(after[i].name@) != text::lower(after[j].name@) by {
        if j == before.len() {
            assert(after[i] == before[i]);
            if text::lower(before[i].name@) == name {
                lemma_caseless(before[i].name@, name);
            }
        } else {
            assert(after[i] == before[i] && after[j] == before[j]);
        }
    }
}

/// The settings after a workspace was removed: its neighbour is the current
/// workspace if it was, and it has no cleanup interval.
pub open spec fn without_workspace(
    settings: SettingsView,
    id: Seq<char>,
    next: Seq<char>,
) -> SettingsView {
    SettingsView {
        current_workspace: if settings.current_workspace == Some(id) {
            Some(next)
        } else {
            settings.current_workspace
        },
        intervals: settings.intervals.remove(id),
        ..settings
    }
}

/// Removing a workspace takes its cleanup interval out of the settings, and makes
/// its neighbour the current workspace where it was the current one. Nothing else
/// in the settings changes.
pub proof fn law_removal_changes_nothing_else(
    settings: SettingsView,
    id: Seq<char>,
    next: Seq<char>,
    other: Seq<char>,
)
    ensures
        ({
            let after = without_workspace(settings, id, next);
            &&& settings.current_workspace == Some(id) ==> after.current_workspace == Some(next)
            &&& settings.current_workspace != Some(id) ==> after.current_workspace
                == settings.current_workspace
            &&& after.current_runtime == settings.current_runtime
            &&& !after.intervals.contains_key(id)
            &&& other != id ==> after.intervals.contains_key(other)
                == settings.intervals.contains_key(other)
            &&& other != id && settings.intervals.contains_key(other) ==> after.intervals[other]
                == settings.intervals[other]
        }),
{
}

/// The current workspace is registered exactly where the settings name one that
/// a workspace has as its id.
pub proof fn law_current_workspace_is_registered(
    workspaces: Seq<WorkspaceRecord>,
    current: Option<Seq<char>>,
)
    ensures
        current_exists(workspaces, current) <==> current is Some && exists|i: int|
            0 <= i < workspaces.len() && (#[trigger] workspaces[i]).id@ == current->0,
{
}

/// Brings the settings up to date after a workspace was removed. The flag tells
/// whether they changed.
pub fn forget_workspace(settings: &mut AppSettings, workspace_id: &str, next_workspace_id: &str) -> (
changed: bool)
    requires
        old(settings).wf(),
    ensures
        final(settings).wf(),
        final(settings)@ == without_workspace(old(settings)@, workspace_id@, next_workspace_id@),
        changed == (old(settings)@.current_workspace == Some(workspace_id@)
            || old(settings)@.intervals.contains_key(workspace_id@)),
{
    let was_current = text::holds_text(&settings.current_workspace_id, workspace_id);
    if was_current {
        settings.current_workspace_id = Some(next_workspace_id.to_owned());
    }
    let had_interval = settings.log_cleanup_intervals.remove(workspace_id).is_some();
    was_current || had_interval
}

/// After a workspace was removed, the settings name a registered workspace if
/// they did before, and speak of the removed one nowhere.
pub proof fn law_settings_follow_removal(
    before: Seq<WorkspaceRecord>,
    settings: SettingsView,
    id: Seq<char>,
    k: int,
)
    requires
        distinct(before),
        before.len() > 1,
        first_at(before, id, k),
        current_exists(before, settings.current_workspace),
    ensures
        ({
            let after = before.remove(k);
            let next = after[neighbour(k, before.len() as int)].id@;
            let now = without_workspace(settings, id, next);
            &&& current_exists(after, now.current_workspace)
            &&& now.current_workspace != Some(id)
            &&& !now.intervals.contains_key(id)
        }),
{
    let after = before.remove(k);
    let n = neighbour(k, before.len() as int);
    let next = after[n].id@;
    law_removed_workspace_is_gone(before, id, k);
    assert(has_id(after, next));
    assert(next != id);
    if settings.current_workspace != Some(id) {
        let current = settings.current_workspace->0;
        let i = choose|i: int| 0 <= i < before.len() && (#[trigger] before[i]).id@ == current;
        let j = if i < k { i } else { i - 1 };
        assert(after[j].id@ == current);
    }
}

} // verus!
