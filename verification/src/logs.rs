//! The log lines of the workspaces, and the schedule on which they are cleared.
//!
//! Points in time are nanoseconds since the start of the process.

use vstd::prelude::*;

use crate::settings;
use crate::settings::is_valid_log_cleanup_interval;
use crate::text;
use crate::text_map;
use crate::text_map::TextMap;

verus! {

/// The number of lines that are kept for a workspace.
pub const MAX_LOG_LINES: usize = 240;

/// How often the log of a workspace is cleared, and when next.
#[derive(Clone, Copy)]
pub struct LogCleanupPolicy {
    pub interval_minutes: u64,
    pub next_cleanup_at: u128,
}

/// The logs of the workspaces, and their cleanup policies.
pub struct LogBook {
    pub logs: TextMap<Vec<String>>,
    pub policies: TextMap<LogCleanupPolicy>,
}

/// The logs by their texts, and the cleanup policies.
pub struct LogBookView {
    pub logs: Map<Seq<char>, Seq<Seq<char>>>,
    pub policies: Map<Seq<char>, LogCleanupPolicy>,
}

impl View for LogBook {
    type V = LogBookView;

    open spec fn view(&self) -> LogBookView {
        LogBookView {
            logs: self.logs@.map_values(|lines: Vec<String>| text::texts(lines@)),
            policies: self.policies@,
        }
    }
}

/// A log book is seen with the texts of its own lines and with its own policies.
pub proof fn law_log_books_are_seen_as_they_are(book: LogBook, id: Seq<char>, i: int)
    ensures
        book@.policies == book.policies@,
        book@.logs.dom() == book.logs@.dom(),
        book.logs@.contains_key(id) ==> book@.logs[id].len() == book.logs@[id]@.len(),
        book.logs@.contains_key(id) && 0 <= i < book.logs@[id]@.len() ==> book@.logs[id][i]
            == book.logs@[id]@[i]@,
{
    assert(book@.logs.dom() =~= book.logs@.dom());
}

/// A number of minutes whose seconds fit into 64 bits.
pub open spec fn schedulable(minutes: u64) -> bool {
    minutes * 60 <= u64::MAX
}

/// The point in time after a number of minutes.
pub open spec fn minutes_after(now: u64, minutes: u64) -> int {
    now + minutes * 60 * 1_000_000_000
}

/// The policy of a cleanup every so many minutes, counted from now.
pub open spec fn policy_from(now: u64, minutes: u64) -> LogCleanupPolicy {
    LogCleanupPolicy {
        interval_minutes: minutes,
        next_cleanup_at: minutes_after(now, minutes) as u128,
    }
}

/// The lines of a workspace.
pub open spec fn lines_of(book: LogBookView, workspace_id: Seq<char>) -> Seq<Seq<char>> {
    if book.logs.contains_key(workspace_id) {
        book.logs[workspace_id]
    } else {
        Seq::empty()
    }
}

/// The log of a workspace is due to be cleared.
pub open spec fn due(book: LogBookView, workspace_id: Seq<char>, now: u64) -> bool {
    book.policies.contains_key(workspace_id) && now >= book.policies[workspace_id].next_cleanup_at
}

/// The log book with the policy of a workspace, if it has one, counted from now.
pub open spec fn rescheduled(book: LogBookView, workspace_id: Seq<char>, now: u64) -> LogBookView {
    if book.policies.contains_key(workspace_id) {
        LogBookView {
            policies: book.policies.insert(
                workspace_id,
                policy_from(now, book.policies[workspace_id].interval_minutes),
            ),
            ..book
        }
    } else {
        book
    }
}

/// The log book without the lines of a workspace, whose schedule starts anew.
pub open spec fn cleared(book: LogBookView, workspace_id: Seq<char>, now: u64) -> LogBookView {
    LogBookView {
        logs: book.logs.remove(workspace_id),
        ..rescheduled(book, workspace_id, now)
    }
}

/// The log book, cleared for a workspace where that is due.
pub open spec fn cleared_if_due(
    book: LogBookView,
    workspace_id: Seq<char>,
    now: u64,
) -> LogBookView {
    if due(book, workspace_id, now) {
        cleared(book, workspace_id, now)
    } else {
        book
    }
}

/// The last lines, as many as are kept.
pub open spec fn kept_lines(lines: Seq<Seq<char>>) -> Seq<Seq<char>> {
    if lines.len() > MAX_LOG_LINES {
        lines.skip(lines.len() - MAX_LOG_LINES)
    } else {
        lines
    }
}

/// The log book with one more line for a workspace.
pub open spec fn appended(
    book: LogBookView,
    workspace_id: Seq<char>,
    line: Seq<char>,
    now: u64,
) -> LogBookView {
    let book = cleared_if_due(book, workspace_id, now);
    LogBookView {
        logs: book.logs.insert(workspace_id, kept_lines(lines_of(book, workspace_id).push(line))),
        ..book
    }
}

/// The log book with another cleanup interval for a workspace; 0 turns the
/// cleanup off, and an interval that is in force keeps its schedule.
pub open spec fn configured(
    book: LogBookView,
    workspace_id: Seq<char>,
    minutes: u64,
    now: u64,
) -> LogBookView {
    if minutes == 0 {
        LogBookView { policies: book.policies.remove(workspace_id), ..book }
    } else if book.policies.contains_key(workspace_id)
        && book.policies[workspace_id].interval_minutes == minutes {
        book
    } else {
        LogBookView {
            policies: book.policies.insert(workspace_id, policy_from(now, minutes)),
            ..book
        }
    }
}

/// The settings ask for a regular cleanup of a workspace's log.
pub open spec fn wanted(intervals: Map<Seq<char>, u64>, workspace_id: Seq<char>) -> bool {
    intervals.contains_key(workspace_id) && intervals[workspace_id] > 0
        && settings::supported_interval(intervals[workspace_id])
}

/// The log book with the policies that the settings ask for; those in force
/// keep their schedules.
pub open spec fn synced(
    book: LogBookView,
    intervals: Map<Seq<char>, u64>,
    now: u64,
) -> LogBookView {
    LogBookView {
        policies: Map::new(
            |id: Seq<char>| wanted(intervals, id),
            |id: Seq<char>|
                if book.policies.contains_key(id) && book.policies[id].interval_minutes
                    == intervals[id] {
                    book.policies[id]
                } else {
                    policy_from(now, intervals[id])
                },
        ),
        ..book
    }
}

/// No workspace has more lines than are kept.
pub open spec fn bounded(book: LogBookView) -> bool {
    forall|id: Seq<char>| #[trigger]
        book.logs.contains_key(id) ==> book.logs[id].len() <= MAX_LOG_LINES
}

/// The point in time after a number of minutes.
pub fn next_log_cleanup_at(now: u64, interval_minutes: u64) -> (at: u128)
    requires
        schedulable(interval_minutes),
    ensures
        at == minutes_after(now, interval_minutes),
        at == now + interval_minutes * 60_000_000_000,
{
    now as u128 + (interval_minutes * 60) as u128 * 1_000_000_000
}

fn new_policy(now: u64, interval_minutes: u64) -> (policy: LogCleanupPolicy)
    requires
        schedulable(interval_minutes),
    ensures
        policy == policy_from(now, interval_minutes),
{
    LogCleanupPolicy {
        interval_minutes,
        next_cleanup_at: next_log_cleanup_at(now, interval_minutes),
    }
}

impl LogBook {
    /// Logs and policies are maps, and the policies can be scheduled.
    pub open spec fn wf(&self) -> bool {
        &&& self.logs.wf()
        &&& self.policies.wf()
        &&& forall|id: Seq<char>| #[trigger]
            self.policies@.contains_key(id) ==> schedulable(self.policies@[id].interval_minutes)
    }

    /// The log book without lines and policies.
    pub fn new() -> (book: Self)
        ensures
            book.wf(),
            book@ == (LogBookView { logs: Map::empty(), policies: Map::empty() }),
    {
        let book = LogBook { logs: TextMap::new(), policies: TextMap::new() };
        assert(book@.logs =~= Map::<Seq<char>, Seq<Seq<char>>>::empty());
        book
    }

    /// Clears the log of a workspace if that is due.
    pub fn clear_workspace_logs_if_due(&mut self, workspace_id: &str, now: u64)
        requires
            old(self).wf(),
        ensures
            final(self).wf(),
            final(self)@ == cleared_if_due(old(self)@, workspace_id@, now),
    {
        let policy: LogCleanupPolicy = match self.policies.get(workspace_id) {
            Some(policy) => *policy,
            None => {
                return;
            },
        };
        if (now as u128) < policy.next_cleanup_at {
            return;
        }
        self.clear_workspace_log_buffer(workspace_id, now);
    }

    /// Clears the log of a workspace and starts its schedule anew.
    pub fn clear_workspace_log_buffer(&mut self, workspace_id: &str, now: u64)
        requires
            old(self).wf(),
        ensures
            final(self).wf(),
            final(self)@ == cleared(old(self)@, workspace_id@, now),
    {
        let interval: Option<u64> = match self.policies.get(workspace_id) {
            Some(policy) => Some(policy.interval_minutes),
            None => None,
        };
        match interval {
            Some(minutes) => {
                self.policies.insert(workspace_id.to_owned(), new_policy(now, minutes));
            },
            None => {},
        }
        self.logs.remove(workspace_id);
        assert(self@.logs =~= old(self)@.logs.remove(workspace_id@));
    }

    /// Adds a line to the log of a workspace.
    pub fn append_log(&mut self, workspace_id: &str, line: String, now: u64)
        requires
            old(self).wf(),
        ensures
            final(self).wf(),
            final(self)@ == appended(old(self)@, workspace_id@, line@, now),
    {
        self.clear_workspace_logs_if_due(workspace_id, now);
        let ghost before = self@;
        let ghost held = self.logs@;
        let mut lines: Vec<String> = match self.logs.remove(workspace_id) {
            Some(lines) => lines,
            None => Vec::new(),
        };
        assert(text::texts(lines@) =~= lines_of(before, workspace_id@));
        lines.push(line);
        let ghost all = lines@;
        assert(text::texts(all) =~= lines_of(before, workspace_id@).push(line@));
        let ghost mut dropped: int = 0;
        assert(all.skip(0) =~= all);
        while lines.len() > MAX_LOG_LINES
            invariant
                0 <= dropped <= all.len(),
                lines@ == all.skip(dropped),
                dropped > 0 ==> lines@.len() >= MAX_LOG_LINES,
            decreases lines@.len(),
        {
            lines.remove(0);
            proof {
                assert(all.skip(dropped).remove(0) =~= all.skip(dropped + 1));
                dropped = dropped + 1;
            }
        }
        assert(text::texts(lines@) =~= kept_lines(text::texts(all)));
        self.logs.insert(workspace_id.to_owned(), lines);
        assert(self.logs@ =~= held.insert(workspace_id@, lines));
        assert(self@.logs =~= before.logs.insert(
            workspace_id@,
            kept_lines(lines_of(before, workspace_id@).push(line@)),
        ));
    }

    /// Sets the cleanup interval of a workspace.
    pub fn configure_log_cleanup_policy(
        &mut self,
        workspace_id: &str,
        interval_minutes: u64,
        now: u64,
    )
        requires
            old(self).wf(),
            schedulable(interval_minutes),
        ensures
            final(self).wf(),
            final(self)@ == configured(old(self)@, workspace_id@, interval_minutes, now),
    {
        if interval_minutes == 0 {
            self.policies.remove(workspace_id);
            return;
        }
        match self.policies.get(workspace_id) {
            Some(policy) => {
                if policy.interval_minutes == interval_minutes {
                    return;
                }
            },
            None => {},
        }
        self.policies.insert(workspace_id.to_owned(), new_policy(now, interval_minutes));
    }

    /// Takes over the cleanup intervals from the settings.
    pub fn sync_log_cleanup_policies(&mut self, intervals: &TextMap<u64>, now: u64)
        requires
            old(self).wf(),
            intervals.wf(),
        ensures
            final(self).wf(),
            final(self)@ == synced(old(self)@, intervals@, now),
    {
        self.retain_wanted(intervals);
        let ghost kept = self.policies@;
        proof {
            text_map::lemma_map_of(intervals.keys(), intervals.values());
        }
        let mut i: usize = 0;
        while i < intervals.len()
            invariant
                i <= intervals.keys().len(),
                intervals.wf(),
                self.wf(),
                self.logs == old(self).logs,
                forall|j: int|
                    0 <= j < intervals.keys().len() ==> intervals@.contains_key(
                        #[trigger] intervals.keys()[j],
                    ) && intervals@[intervals.keys()[j]] == intervals.values()[j],
                forall|id: Seq<char>| #[trigger]
                    kept.contains_key(id) <==> wanted(intervals@, id) && old(
                        self,
                    )@.policies.contains_key(id) && old(self)@.policies[id].interval_minutes
                        == intervals@[id],
                forall|id: Seq<char>| #[trigger]
                    kept.contains_key(id) ==> kept[id] == old(self)@.policies[id],
                forall|id: Seq<char>| #[trigger]
                    self.policies@.contains_key(id) ==> wanted(intervals@, id) && self.policies@[id]
                        == if kept.contains_key(id) {
                        kept[id]
                    } else {
                        policy_from(now, intervals@[id])
                    },
                forall|id: Seq<char>| #[trigger]
                    kept.contains_key(id) ==> self.policies@.contains_key(id),
                forall|j: int|
                    0 <= j < i && wanted(intervals@, #[trigger] intervals.keys()[j])
                        ==> self.policies@.contains_key(intervals.keys()[j]),
            decreases intervals.keys().len() - i,
        {
            let minutes: u64 = *intervals.value_at(i);
            let id = intervals.key_at(i);
            if minutes > 0 && is_valid_log_cleanup_interval(minutes) && !self.policies.contains_key(
                id,
            ) {
                self.policies.insert(id.to_owned(), new_policy(now, minutes));
            }
            i = i + 1;
        }
        proof {
            text_map::lemma_map_of(intervals.keys(), intervals.values());
            assert forall|id: Seq<char>| wanted(intervals@, id) implies #[trigger] self.policies@.contains_key(id) by {
                let j = choose|j: int|
                    0 <= j < intervals.keys().len() && #[trigger] intervals.keys()[j] == id;
                assert(wanted(intervals@, intervals.keys()[j]));
            }
            assert(self.policies@ =~= synced(old(self)@, intervals@, now).policies);
        }
    }

    /// Drops the policies that the settings do not ask for.
    fn retain_wanted(&mut self, intervals: &TextMap<u64>)
        requires
            old(self).wf(),
            intervals.wf(),
        ensures
            final(self).wf(),
            final(self).logs == old(self).logs,
            forall|id: Seq<char>| #[trigger]
                final(self).policies@.contains_key(id) <==> wanted(intervals@, id) && old(
                    self,
                ).policies@.contains_key(id) && old(self).policies@[id].interval_minutes
                    == intervals@[id],
            forall|id: Seq<char>| #[trigger]
                final(self).policies@.contains_key(id) ==> final(self).policies@[id] == old(
                    self,
                ).policies@[id],
    {
        let ghost keys = self.policies.keys();
        let ghost values = self.policies.values();
        let mut dropped: Vec<bool> = Vec::new();
        let mut i: usize = 0;
        while i < self.policies.len()
            invariant
                i <= keys.len(),
                dropped@.len() == i,
                intervals.wf(),
                self.wf(),
                *self == *old(self),
                keys == self.policies.keys(),
                values == self.policies.values(),
                forall|j: int|
                    0 <= j < i ==> (#[trigger] dropped@[j] <==> !(wanted(intervals@, keys[j])
                        && values[j].interval_minutes == intervals@[keys[j]])),
            decreases keys.len() - i,
        {
            let minutes: u64 = self.policies.value_at(i).interval_minutes;
            let kept = match intervals.get(self.policies.key_at(i)) {
                Some(interval) => *interval == minutes && is_valid_log_cleanup_interval(minutes)
                    && minutes > 0,
                None => false,
            };
            dropped.push(!kept);
            i = i + 1;
        }
        self.policies.extract(&dropped);
        proof {
            text_map::lemma_map_of(keys, values);
            text_map::lemma_picked_map(keys, values, dropped@, false);
            let now = self.policies@;
            assert(now.submap_of(old(self).policies@));
            assert forall|id: Seq<char>| #[trigger] now.contains_key(id) implies wanted(
                intervals@,
                id,
            ) && old(self).policies@.contains_key(id) && old(self).policies@[id].interval_minutes
                == intervals@[id] && now[id] == old(self).policies@[id] by {
                assert(old(self).policies@.contains_key(id));
                let j = choose|j: int| 0 <= j < keys.len() && #[trigger] keys[j] == id;
                assert(now.contains_key(keys[j]));
                assert(!dropped@[j]);
            }
            assert forall|id: Seq<char>|
                wanted(intervals@, id) && old(self).policies@.contains_key(id) && old(
                    self,
                ).policies@[id].interval_minutes == intervals@[id] implies #[trigger] now.contains_key(id) by {
                let j = choose|j: int| 0 <= j < keys.len() && #[trigger] keys[j] == id;
                assert(!dropped@[j]);
            }
        }
    }

    /// A copy of the lines of a workspace.
    pub fn lines(&self, workspace_id: &str) -> (lines: Vec<String>)
        requires
            self.wf(),
        ensures
            text::texts(lines@) == lines_of(self@, workspace_id@),
    {
        let mut out: Vec<String> = Vec::new();
        match self.logs.get(workspace_id) {
            Some(lines) => {
                let mut i: usize = 0;
                while i < lines.len()
                    invariant
                        i <= lines@.len(),
                        out@.len() == i,
                        forall|j: int| 0 <= j < i ==> (#[trigger] out@[j])@ == lines@[j]@,
                    decreases lines@.len() - i,
                {
                    out.push(lines[i].clone());
                    i = i + 1;
                }
            },
            None => {},
        }
        assert(text::texts(out@) =~= lines_of(self@, workspace_id@));
        out
    }

    /// Forgets the lines and the policy of a workspace.
    pub fn forget_workspace(&mut self, workspace_id: &str)
        requires
            old(self).wf(),
        ensures
            final(self).wf(),
            final(self)@ == (LogBookView {
                logs: old(self)@.logs.remove(workspace_id@),
                policies: old(self)@.policies.remove(workspace_id@),
            }),
    {
        self.logs.remove(workspace_id);
        self.policies.remove(workspace_id);
        assert(self@.logs =~= old(self)@.logs.remove(workspace_id@));
    }
}

/// A line that was added is the last one, and no log grows beyond the limit.
pub proof fn law_log_is_bounded(
    book: LogBookView,
    workspace_id: Seq<char>,
    line: Seq<char>,
    now: u64,
)
    requires
        bounded(book),
    ensures
        bounded(appended(book, workspace_id, line, now)),
        lines_of(appended(book, workspace_id, line, now), workspace_id).last() == line,
{
    let after = appended(book, workspace_id, line, now);
    assert forall|id: Seq<char>| #[trigger] after.logs.contains_key(id) implies after.logs[id].len()
        <= MAX_LOG_LINES by {
        if id != workspace_id {
            assert(book.logs.contains_key(id));
        }
    }
}

/// Where no cleanup is due, a line is added behind the ones that are there. Of
/// more than 240 lines the first ones go, and the schedule stays.
pub proof fn law_line_follows_the_earlier_ones(
    book: LogBookView,
    workspace_id: Seq<char>,
    line: Seq<char>,
    now: u64,
)
    requires
        !due(book, workspace_id, now),
    ensures
        ({
            let before = lines_of(book, workspace_id);
            let after = lines_of(appended(book, workspace_id, line, now), workspace_id);
            &&& before.len() < 240 ==> after == before.push(line)
            &&& before.len() >= 240 ==> after.len() == 240 && after == before.push(line).skip(
                before.len() - 239,
            )
        }),
        appended(book, workspace_id, line, now).policies == book.policies,
{
}

/// Where a cleanup is due, a line is the first of a cleared log.
pub proof fn law_line_after_a_cleanup_is_the_first(
    book: LogBookView,
    workspace_id: Seq<char>,
    line: Seq<char>,
    now: u64,
)
    requires
        due(book, workspace_id, now),
    ensures
        lines_of(appended(book, workspace_id, line, now), workspace_id) == seq![line],
        appended(book, workspace_id, line, now).policies == cleared(
            book,
            workspace_id,
            now,
        ).policies,
        appended(book, workspace_id, line, now).logs.remove(workspace_id) == book.logs.remove(
            workspace_id,
        ),
{
    let after = appended(book, workspace_id, line, now);
    assert(lines_of(after, workspace_id) =~= seq![line]);
    assert(after.logs.remove(workspace_id) =~= book.logs.remove(workspace_id));
}

/// The lines of a workspace are the ones under its id, and none where there is
/// no log.
pub proof fn law_lines_are_those_of_the_workspace(book: LogBookView, workspace_id: Seq<char>)
    ensures
        book.logs.contains_key(workspace_id) ==> lines_of(book, workspace_id)
            == book.logs[workspace_id],
        !book.logs.contains_key(workspace_id) ==> lines_of(book, workspace_id).len() == 0,
{
}

/// A cleanup is due once the time of the workspace's schedule has come, and never
/// without a schedule.
pub proof fn law_cleanup_is_due_at_its_time(book: LogBookView, workspace_id: Seq<char>, now: u64)
    ensures
        due(book, workspace_id, now) <==> book.policies.contains_key(workspace_id)
            && book.policies[workspace_id].next_cleanup_at <= now,
{
}

/// Clearing removes the lines of the workspace and no others, and its schedule,
/// where it has one, starts anew with the same interval.
pub proof fn law_clearing_starts_the_schedule_anew(
    book: LogBookView,
    workspace_id: Seq<char>,
    now: u64,
)
    ensures
        ({
            let after = cleared(book, workspace_id, now);
            &&& lines_of(after, workspace_id).len() == 0
            &&& after.policies.dom() == book.policies.dom()
            &&& book.policies.contains_key(workspace_id) && schedulable(
                book.policies[workspace_id].interval_minutes,
            ) ==> after.policies[workspace_id].interval_minutes
                == book.policies[workspace_id].interval_minutes
                && after.policies[workspace_id].next_cleanup_at == now
                + book.policies[workspace_id].interval_minutes * 60_000_000_000
            &&& forall|id: Seq<char>|
                id != workspace_id && book.policies.contains_key(id)
                    ==> #[trigger] after.policies[id] == book.policies[id]
            &&& forall|id: Seq<char>| id != workspace_id ==> #[trigger] lines_of(after, id) == lines_of(book, id)
        }),
        due(book, workspace_id, now) ==> cleared_if_due(book, workspace_id, now) == cleared(
            book,
            workspace_id,
            now,
        ),
        !due(book, workspace_id, now) ==> cleared_if_due(book, workspace_id, now) == book,
{
    let after = cleared(book, workspace_id, now);
    assert(after.policies.dom() =~= book.policies.dom());
}

/// An interval is counted from now where it is new, keeps its schedule where it
/// is in force already, and 0 ends the schedule. No line is lost.
pub proof fn law_interval_is_configured(
    book: LogBookView,
    workspace_id: Seq<char>,
    minutes: u64,
    now: u64,
)
    requires
        schedulable(minutes),
    ensures
        ({
            let after = configured(book, workspace_id, minutes, now);
            &&& after.logs == book.logs
            &&& after.policies.contains_key(workspace_id) <==> minutes > 0
            &&& minutes > 0 ==> after.policies[workspace_id].interval_minutes == minutes
            &&& minutes > 0 && book.policies.contains_key(workspace_id)
                && book.policies[workspace_id].interval_minutes == minutes
                ==> after.policies[workspace_id] == book.policies[workspace_id]
            &&& minutes > 0 && !(book.policies.contains_key(workspace_id)
                && book.policies[workspace_id].interval_minutes == minutes)
                ==> after.policies[workspace_id].next_cleanup_at == now + minutes * 60_000_000_000
        }),
{
}

/// Taking over the settings gives a schedule exactly to the workspaces whose
/// interval can be chosen and is not 0. A schedule with the same interval goes
/// on, and a new one is counted from now. No line is lost.
pub proof fn law_settings_are_taken_over(
    book: LogBookView,
    intervals: Map<Seq<char>, u64>,
    now: u64,
    id: Seq<char>,
)
    ensures
        ({
            let after = synced(book, intervals, now);
            let minutes = intervals[id];
            &&& after.logs == book.logs
            &&& after.policies.contains_key(id) <==> intervals.contains_key(id) && (minutes == 15
                || minutes == 30 || minutes == 60 || minutes == 360 || minutes == 720 || minutes
                == 1440)
            &&& after.policies.contains_key(id) ==> after.policies[id].interval_minutes == minutes
            &&& after.policies.contains_key(id) && book.policies.contains_key(id)
                && book.policies[id].interval_minutes == minutes ==> after.policies[id]
                == book.policies[id]
            &&& after.policies.contains_key(id) && !(book.policies.contains_key(id)
                && book.policies[id].interval_minutes == minutes)
                ==> after.policies[id].next_cleanup_at == now + minutes * 60_000_000_000
        }),
{
}

/// Adding a line to one workspace's log, clearing it or changing its interval
/// leaves the logs and the policies of the others as they are.
pub proof fn law_logs_are_isolated(
    book: LogBookView,
    workspace_id: Seq<char>,
    other_id: Seq<char>,
    line: Seq<char>,
    minutes: u64,
    now: u64,
)
    requires
        other_id != workspace_id,
    ensures
        ({
            let a = appended(book, workspace_id, line, now);
            let b = cleared(book, workspace_id, now);
            let c = configured(book, workspace_id, minutes, now);
            &&& lines_of(a, other_id) == lines_of(book, other_id)
            &&& lines_of(b, other_id) == lines_of(book, other_id)
            &&& lines_of(c, other_id) == lines_of(book, other_id)
            &&& a.policies.contains_key(other_id) == book.policies.contains_key(other_id)
            &&& b.policies.contains_key(other_id) == book.policies.contains_key(other_id)
            &&& c.policies.contains_key(other_id) == book.policies.contains_key(other_id)
            &&& a.policies[other_id] == book.policies[other_id]
            &&& b.policies[other_id] == book.policies[other_id]
            &&& c.policies[other_id] == book.policies[other_id]
        }),
{
}

/// Where a cleanup is due, the next line is the only one, and the cleanup is
/// not due again before its interval has passed.
pub proof fn law_due_log_is_cleared(
    book: LogBookView,
    workspace_id: Seq<char>,
    line: Seq<char>,
    now: u64,
    later: u64,
)
    requires
        due(book, workspace_id, now),
        schedulable(book.policies[workspace_id].interval_minutes),
        later < minutes_after(now, book.policies[workspace_id].interval_minutes),
    ensures
        lines_of(appended(book, workspace_id, line, now), workspace_id) == seq![line],
        !due(appended(book, workspace_id, line, now), workspace_id, later),
{
    let after = appended(book, workspace_id, line, now);
    assert(lines_of(after, workspace_id) =~= seq![line]);
}

/// Once the settings were taken over, taking them over again changes nothing.
pub proof fn law_sync_settles(
    book: LogBookView,
    intervals: Map<Seq<char>, u64>,
    now: u64,
    later: u64,
)
    ensures
        synced(synced(book, intervals, now), intervals, later) == synced(book, intervals, now),
{
    let once = synced(book, intervals, now);
    assert(synced(once, intervals, later).policies =~= once.policies);
}

} // verus!
