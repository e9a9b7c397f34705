//! The settings that are kept between runs of the application.

use vstd::prelude::*;

use crate::error::AppError;
use crate::text;
use crate::text_map::TextMap;

verus! {

/// The settings.
pub struct AppSettings {
    pub current_runtime_id: Option<String>,
    pub current_workspace_id: Option<String>,
    /// For each workspace whose log is cleared regularly, the minutes between
    /// two cleanups.
    pub log_cleanup_intervals: TextMap<u64>,
}

/// The settings, by their texts.
pub struct SettingsView {
    pub current_runtime: Option<Seq<char>>,
    pub current_workspace: Option<Seq<char>>,
    pub intervals: Map<Seq<char>, u64>,
}

impl View for AppSettings {
    type V = SettingsView;

    open spec fn view(&self) -> SettingsView {
        SettingsView {
            current_runtime: text::text_option(self.current_runtime_id),
            current_workspace: text::text_option(self.current_workspace_id),
            intervals: self.log_cleanup_intervals@,
        }
    }
}

/// The settings are seen with the texts of their own fields.
pub proof fn law_settings_are_seen_as_they_are(settings: AppSettings)
    ensures
        settings@.current_runtime is Some <==> settings.current_runtime_id is Some,
        settings.current_runtime_id is Some ==> settings@.current_runtime->0
            == settings.current_runtime_id->0@,
        settings@.current_workspace is Some <==> settings.current_workspace_id is Some,
        settings.current_workspace_id is Some ==> settings@.current_workspace->0
            == settings.current_workspace_id->0@,
        settings@.intervals == settings.log_cleanup_intervals@,
{
}

/// The settings of a first run.
pub open spec fn no_settings() -> SettingsView {
    SettingsView { current_runtime: None, current_workspace: None, intervals: Map::empty() }
}

impl Default for AppSettings {
    fn default() -> (settings: Self)
        ensures
            settings.wf(),
            settings@ == no_settings(),
    {
        AppSettings {
            current_runtime_id: None,
            current_workspace_id: None,
            log_cleanup_intervals: TextMap::new(),
        }
    }
}

/// The intervals that can be chosen; 0 stands for no cleanup.
pub open spec fn supported_interval(minutes: u64) -> bool {
    minutes == 0 || minutes == 15 || minutes == 30 || minutes == 60 || minutes == 360 || minutes
        == 720 || minutes == 1440
}

/// Whether an interval can be chosen.
pub fn is_valid_log_cleanup_interval(interval_minutes: u64) -> (valid: bool)
    ensures
        valid == supported_interval(interval_minutes),
{
    matches!(interval_minutes, 0 | 15 | 30 | 60 | 360 | 720 | 1440)
}

/// The interval in force for a workspace; one that cannot be chosen counts as
/// none.
pub open spec fn interval_in_force(settings: SettingsView, workspace_id: Seq<char>) -> u64 {
    if settings.intervals.contains_key(workspace_id) && supported_interval(
        settings.intervals[workspace_id],
    ) {
        settings.intervals[workspace_id]
    } else {
        0
    }
}

/// The settings with another interval for a workspace; 0 takes it out.
pub open spec fn with_interval(
    settings: SettingsView,
    workspace_id: Seq<char>,
    minutes: u64,
) -> SettingsView {
    SettingsView {
        intervals: if minutes == 0 {
            settings.intervals.remove(workspace_id)
        } else {
            settings.intervals.insert(workspace_id, minutes)
        },
        ..settings
    }
}

impl AppSettings {
    /// The intervals form a map.
    pub open spec fn wf(&self) -> bool {
        self.log_cleanup_intervals.wf()
    }

    /// A second copy of the settings.
    pub fn duplicate(&self) -> (copy: Self)
        requires
            self.wf(),
        ensures
            copy.wf(),
            copy@ == self@,
    {
        AppSettings {
            current_runtime_id: self.current_runtime_id.clone(),
            current_workspace_id: self.current_workspace_id.clone(),
            log_cleanup_intervals: self.log_cleanup_intervals.duplicate(),
        }
    }

    /// The interval in force for a workspace.
    pub fn log_cleanup_interval(&self, workspace_id: &str) -> (minutes: u64)
        requires
            self.wf(),
        ensures
            minutes == interval_in_force(self@, workspace_id@),
    {
        match self.log_cleanup_intervals.get(workspace_id) {
            Some(minutes) => {
                if is_valid_log_cleanup_interval(*minutes) {
                    *minutes
                } else {
                    0
                }
            },
            None => 0,
        }
    }

    /// Chooses the interval for a workspace.
    pub fn set_log_cleanup_interval(&mut self, workspace_id: &str, interval_minutes: u64) -> (done:
        Result<(), AppError>)
        requires
            old(self).wf(),
        ensures
            final(self).wf(),
            match done {
                Ok(_) => supported_interval(interval_minutes) && final(self)@ == with_interval(
                    old(self)@,
                    workspace_id@,
                    interval_minutes,
                ),
                Err(e) => !supported_interval(interval_minutes) && e
                    == AppError::UnsupportedCleanupInterval && *final(self) == *old(self),
            },
    {
        if !is_valid_log_cleanup_interval(interval_minutes) {
            return Err(AppError::UnsupportedCleanupInterval);
        }
        if interval_minutes == 0 {
            self.log_cleanup_intervals.remove(workspace_id);
        } else {
            self.log_cleanup_intervals.insert(workspace_id.to_owned(), interval_minutes);
        }
        Ok(())
    }
}

/// None, a quarter, a half, one, six, twelve and twenty-four hours can be chosen.
pub proof fn law_seven_intervals_can_be_chosen(minutes: u64)
    ensures
        supported_interval(minutes) <==> seq![0u64, 15, 30, 60, 360, 720, 1440].contains(minutes),
{
    let all = seq![0u64, 15, 30, 60, 360, 720, 1440];
    assert(all[0] == 0 && all[1] == 15 && all[2] == 30 && all[3] == 60 && all[4] == 360 && all[5]
        == 720 && all[6] == 1440);
}

/// The interval in force is the recorded one where it can be chosen, else none.
pub proof fn law_recorded_interval_is_in_force(settings: SettingsView, workspace_id: Seq<char>)
    ensures
        settings.intervals.contains_key(workspace_id) && supported_interval(
            settings.intervals[workspace_id],
        ) ==> interval_in_force(settings, workspace_id) == settings.intervals[workspace_id],
        !settings.intervals.contains_key(workspace_id) || !supported_interval(
            settings.intervals[workspace_id],
        ) ==> interval_in_force(settings, workspace_id) == 0,
{
}

/// Choosing an interval records it, and takes the record out for none. Everything
/// else in the settings stays.
pub proof fn law_choosing_an_interval_changes_nothing_else(
    settings: SettingsView,
    workspace_id: Seq<char>,
    minutes: u64,
    other_id: Seq<char>,
)
    ensures
        ({
            let after = with_interval(settings, workspace_id, minutes);
            &&& after.current_runtime == settings.current_runtime
            &&& after.current_workspace == settings.current_workspace
            &&& after.intervals.contains_key(workspace_id) <==> minutes != 0
            &&& minutes != 0 ==> after.intervals[workspace_id] == minutes
            &&& other_id != workspace_id ==> after.intervals.contains_key(other_id)
                == settings.intervals.contains_key(other_id)
            &&& other_id != workspace_id && settings.intervals.contains_key(other_id)
                ==> after.intervals[other_id] == settings.intervals[other_id]
        }),
{
}

/// The settings of a first run name nothing.
pub proof fn law_first_run_has_no_settings()
    ensures
        no_settings().current_runtime is None,
        no_settings().current_workspace is None,
        no_settings().intervals == Map::<Seq<char>, u64>::empty(),
{
}

/// The interval that was chosen for a workspace is in force, and the other
/// workspaces keep theirs.
pub proof fn law_chosen_interval_is_in_force(
    settings: SettingsView,
    workspace_id: Seq<char>,
    minutes: u64,
    other_id: Seq<char>,
)
    requires
        supported_interval(minutes),
    ensures
        interval_in_force(with_interval(settings, workspace_id, minutes), workspace_id) == minutes,
        other_id != workspace_id ==> interval_in_force(
            with_interval(settings, workspace_id, minutes),
            other_id,
        ) == interval_in_force(settings, other_id),
{
}

} // verus!
