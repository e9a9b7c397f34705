//! What the main window shows.

use vstd::prelude::*;

use crate::config;
use crate::config::parse_config_summary;
use crate::config::ConfigSummary;
use crate::release::ReleaseInfo;
use crate::runtime;
use crate::runtime::select_current_runtime;
use crate::runtime::RuntimeInfo;
use crate::settings;
use crate::settings::AppSettings;
use crate::status::ServiceStatus;
use crate::text;
use crate::workspace::workspace_infos;
use crate::workspace::WorkspaceInfo;
use crate::workspace::WorkspaceRecord;
use crate::workspace::WorkspaceRegistry;

verus! {

/// The places that the application uses.
pub struct PathInfo {
    pub app_data_dir: String,
    pub workspace_dir: String,
    pub config_path: String,
    pub runtimes_dir: String,
    /// The executable of the runtime to be used.
    pub current_binary: Option<String>,
}

/// What the main window shows.
pub struct DashboardState {
    pub workspaces: Vec<WorkspaceInfo>,
    pub current_workspace: WorkspaceRecord,
    pub paths: PathInfo,
    pub current_platform: String,
    pub config_text: String,
    pub config_summary: ConfigSummary,
    pub runtimes: Vec<RuntimeInfo>,
    pub current_runtime: Option<RuntimeInfo>,
    pub service: ServiceStatus,
    pub log_cleanup_interval_minutes: u64,
    /// The latest release, once it was asked for.
    pub latest_release: Option<ReleaseInfo>,
}

/// The places that the application uses, with the executable of the runtime to
/// be used.
pub fn path_info(
    app_data_dir: String,
    workspace_dir: String,
    config_path: String,
    runtimes_dir: String,
    runtime: &Option<RuntimeInfo>,
) -> (info: PathInfo)
    ensures
        info.app_data_dir@ == app_data_dir@,
        info.workspace_dir@ == workspace_dir@,
        info.config_path@ == config_path@,
        info.runtimes_dir@ == runtimes_dir@,
        text::text_option(info.current_binary) == match *runtime {
            Some(r) => Some(r.binary_path@),
            None => None,
        },
{
    let current_binary = match runtime {
        Some(r) => Some(r.binary_path.clone()),
        None => None,
    };
    PathInfo { app_data_dir, workspace_dir, config_path, runtimes_dir, current_binary }
}

/// The runtime is the one to be used, or there is none.
pub open spec fn runtime_in_charge(
    chosen: Option<RuntimeInfo>,
    runtimes: Seq<RuntimeInfo>,
    current: Option<Seq<char>>,
) -> bool {
    match chosen {
        Some(r) => exists|k: int| #[trigger]
            runtime::in_charge(runtimes, current, k) && r == runtimes[k],
        None => runtimes.len() == 0,
    }
}

/// Puts together what the main window shows of a workspace. The places are
/// given without the executable, which follows from the runtimes.
pub fn dashboard_state(
    registry: &WorkspaceRegistry,
    current_workspace: WorkspaceRecord,
    places: PathInfo,
    current_platform: String,
    config_text: String,
    runtimes: Vec<RuntimeInfo>,
    settings: &AppSettings,
    service: ServiceStatus,
) -> (state: DashboardState)
    requires
        settings.wf(),
        service.workspace_running_counts.wf(),
    ensures
        state.workspaces@.len() == registry.workspaces@.len(),
        forall|i: int|
            0 <= i < state.workspaces@.len() ==> (#[trigger] state.workspaces@[i]).id@
                == registry.workspaces@[i].id@ && state.workspaces@[i].name@
                == registry.workspaces@[i].name@ && state.workspaces@[i].running_count
                == if service.workspace_running_counts@.contains_key(
                registry.workspaces@[i].id@,
            ) {
                service.workspace_running_counts@[registry.workspaces@[i].id@]
            } else {
                0
            },
        state.current_workspace == current_workspace,
        state.paths.app_data_dir@ == places.app_data_dir@,
        state.paths.workspace_dir@ == places.workspace_dir@,
        state.paths.config_path@ == places.config_path@,
        state.paths.runtimes_dir@ == places.runtimes_dir@,
        text::text_option(state.paths.current_binary) == match state.current_runtime {
            Some(r) => Some(r.binary_path@),
            None => None,
        },
        state.current_platform@ == current_platform@,
        state.config_text@ == config_text@,
        state.config_summary@ == config::summary_of(config::document_of(config_text@)),
        state.runtimes@ == runtimes@,
        runtime_in_charge(state.current_runtime, runtimes@, settings@.current_runtime),
        state.service == service,
        state.log_cleanup_interval_minutes == settings::interval_in_force(
            settings@,
            current_workspace.id@,
        ),
        state.latest_release is None,
{
    let workspaces = workspace_infos(registry, &service.workspace_running_counts);
    let config_summary = parse_config_summary(config_text.as_str());
    let current_runtime = select_current_runtime(runtimes.as_slice(), settings);
    let log_cleanup_interval_minutes: u64 = settings.log_cleanup_interval(
        current_workspace.id.as_str(),
    );
    let paths = path_info(
        places.app_data_dir,
        places.workspace_dir,
        places.config_path,
        places.runtimes_dir,
        &current_runtime,
    );
    DashboardState {
        workspaces,
        current_workspace,
        paths,
        current_platform,
        config_text,
        config_summary,
        runtimes,
        current_runtime,
        service,
        log_cleanup_interval_minutes,
        latest_release: None,
    }
}

/// The runtime that the main window shows is the chosen one where it is among the
/// installed ones, else the first of them, and none only where none is installed.
pub proof fn law_window_shows_the_runtime_to_be_used(
    chosen: Option<RuntimeInfo>,
    runtimes: Seq<RuntimeInfo>,
    current: Option<Seq<char>>,
)
    requires
        runtime_in_charge(chosen, runtimes, current),
    ensures
        chosen is None <==> runtimes.len() == 0,
        chosen is Some ==> runtimes.contains(chosen->0),
        chosen is Some && current is Some && (exists|i: int|
            0 <= i < runtimes.len() && (#[trigger] runtimes[i]).id@ == current->0)
            ==> chosen->0.id@ == current->0,
        chosen is Some && (current is None || (forall|i: int|
            0 <= i < runtimes.len() ==> (#[trigger] runtimes[i]).id@ != current->0)) ==> chosen->0
            == runtimes[0],
{
    if chosen is Some {
        let k = choose|k: int| #[trigger]
            runtime::in_charge(runtimes, current, k) && chosen->0 == runtimes[k];
        runtime::law_chosen_runtime_is_used(runtimes, current, k);
        assert(runtimes[k] == chosen->0);
    }
}

} // verus!
