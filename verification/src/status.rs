//! What is shown of the services of a workspace, and the lines that are logged
//! when a service starts, ends or is stopped.

use vstd::prelude::*;
use vstd::string::StringExecFns;

use crate::decimal;
use crate::logs;
use crate::logs::LogBook;
use crate::logs::LogBookView;
use crate::service;
use crate::service::ManagedService;
use crate::service::ServiceTable;
use crate::text;
use crate::text_map;
use crate::text_map::TextMap;

verus! {

/// What was found out about the process of a service.
pub enum ChildPoll {
    /// It runs; its process id, where it has one.
    Running(Option<u32>),
    /// It ended; how.
    Exited(String),
    /// Its state could not be read; why.
    Failed(String),
}

/// A running service as it is shown.
pub struct ProxyServiceStatus {
    pub proxy_index: usize,
    pub proxy_name: String,
    pub running: bool,
    pub pid: Option<u32>,
}

/// A running service as it is shown, by its texts.
pub struct ProxyStatusView {
    pub proxy_index: usize,
    pub proxy_name: Seq<char>,
    pub running: bool,
    pub pid: Option<u32>,
}

impl View for ProxyServiceStatus {
    type V = ProxyStatusView;

    open spec fn view(&self) -> ProxyStatusView {
        ProxyStatusView {
            proxy_index: self.proxy_index,
            proxy_name: self.proxy_name@,
            running: self.running,
            pid: self.pid,
        }
    }
}

/// What is shown of the services of a workspace.
pub struct ServiceStatus {
    pub running: bool,
    pub pid: Option<u32>,
    pub running_count: usize,
    pub services: Vec<ProxyServiceStatus>,
    pub logs: Vec<String>,
    pub workspace_running_counts: TextMap<usize>,
}

/// The services as they are shown, by their texts.
pub open spec fn status_views(services: Seq<ProxyServiceStatus>) -> Seq<ProxyStatusView> {
    services.map_values(|s: ProxyServiceStatus| s@)
}

/// The services are seen with the values of their own fields, in their order.
pub proof fn law_statuses_are_seen_as_they_are(services: Seq<ProxyServiceStatus>, i: int)
    ensures
        status_views(services).len() == services.len(),
        0 <= i < services.len() ==> status_views(services)[i].proxy_index == services[i].proxy_index
            && status_views(services)[i].proxy_name == services[i].proxy_name@ && status_views(
            services,
        )[i].running == services[i].running && status_views(services)[i].pid == services[i].pid,
{
}

/// How a service is called in the log.
pub open spec fn label(proxy_name: Seq<char>) -> Seq<char> {
    seq!['['] + proxy_name + seq![']']
}

/// The line that tells of the end of a service.
pub open spec fn end_line(proxy_name: Seq<char>, poll: ChildPoll) -> Seq<char> {
    match poll {
        ChildPoll::Running(_) => Seq::empty(),
        ChildPoll::Exited(status) => label(proxy_name) + " frpc 已退出："@ + status@,
        ChildPoll::Failed(error) => label(proxy_name) + " 读取 frpc 状态失败："@ + error@,
    }
}

/// For each service whether it is gone.
pub open spec fn gone(polls: Seq<ChildPoll>) -> Seq<bool> {
    polls.map_values(|poll: ChildPoll| !(poll is Running))
}

/// The workspaces and lines to be logged for the services that are gone.
pub open spec fn end_entries<C>(
    services: Seq<ManagedService<C>>,
    polls: Seq<ChildPoll>,
) -> Seq<(Seq<char>, Seq<char>)>
    decreases services.len(),
{
    if services.len() == 0 {
        Seq::empty()
    } else {
        let init = end_entries(services.drop_last(), polls.drop_last());
        let service = services.last();
        match polls.last() {
            ChildPoll::Running(_) => init,
            poll => init.push((service.workspace_id@, end_line(service.proxy_name@, poll))),
        }
    }
}

/// The log book with more lines.
pub open spec fn logged(
    book: LogBookView,
    entries: Seq<(Seq<char>, Seq<char>)>,
    now: u64,
) -> LogBookView
    decreases entries.len(),
{
    if entries.len() == 0 {
        book
    } else {
        logs::appended(
            logged(book, entries.drop_last(), now),
            entries.last().0,
            entries.last().1,
            now,
        )
    }
}

/// The running services of a workspace as they are shown.
pub open spec fn shown<C>(
    services: Seq<ManagedService<C>>,
    polls: Seq<ChildPoll>,
    workspace_id: Seq<char>,
) -> Seq<ProxyStatusView>
    decreases services.len(),
{
    if services.len() == 0 {
        Seq::empty()
    } else {
        let init = shown(services.drop_last(), polls.drop_last(), workspace_id);
        let service = services.last();
        match polls.last() {
            ChildPoll::Running(pid) => if service.workspace_id@ == workspace_id {
                init.push(
                    ProxyStatusView {
                        proxy_index: service.proxy_index,
                        proxy_name: service.proxy_name@,
                        running: true,
                        pid,
                    },
                )
            } else {
                init
            },
            _ => init,
        }
    }
}

/// `seen` are the services at the places `at`, which increase: each runs, belongs
/// to the workspace and is shown with its own proxy and the process id of its own
/// poll, and no running service of the workspace is left out.
pub open spec fn seen_at<C>(
    seen: Seq<ProxyStatusView>,
    services: Seq<ManagedService<C>>,
    polls: Seq<ChildPoll>,
    workspace_id: Seq<char>,
    at: Seq<int>,
) -> bool {
    &&& at.len() == seen.len()
    &&& forall|j: int| 0 <= j < at.len() ==> 0 <= #[trigger] at[j] < services.len()
    &&& forall|j: int, k: int| 0 <= j < k < at.len() ==> #[trigger] at[j] < #[trigger] at[k]
    &&& forall|j: int|
        0 <= j < at.len() ==> services[#[trigger] at[j]].workspace_id@ == workspace_id
            && polls[at[j]] == ChildPoll::Running(seen[j].pid) && seen[j].running
            && seen[j].proxy_index == services[at[j]].proxy_index && seen[j].proxy_name
            == services[at[j]].proxy_name@
    &&& forall|n: int|
        0 <= n < services.len() && #[trigger] services[n].workspace_id@ == workspace_id
            && polls[n] is Running ==> at.contains(n)
}

/// Exactly the running services of a workspace are shown, in their order, each
/// with its own proxy and the process id of its own poll.
pub proof fn law_running_services_are_shown<C>(
    services: Seq<ManagedService<C>>,
    polls: Seq<ChildPoll>,
    workspace_id: Seq<char>,
)
    requires
        services.len() == polls.len(),
    ensures
        exists|at: Seq<int>| #[trigger]
            seen_at(shown(services, polls, workspace_id), services, polls, workspace_id, at),
    decreases services.len(),
{
    let seen = shown(services, polls, workspace_id);
    if services.len() == 0 {
        assert(seen_at(seen, services, polls, workspace_id, Seq::<int>::empty()));
    } else {
        let s0 = services.drop_last();
        let p0 = polls.drop_last();
        law_running_services_are_shown(s0, p0, workspace_id);
        let before = shown(s0, p0, workspace_id);
        let at = choose|at: Seq<int>| #[trigger] seen_at(before, s0, p0, workspace_id, at);
        let last = services.len() - 1;
        let more = at.push(last);
        if services.last().workspace_id@ == workspace_id && polls.last() is Running {
            assert forall|n: int|
                0 <= n < services.len() && #[trigger] services[n].workspace_id@ == workspace_id
                    && polls[n] is Running implies more.contains(n) by {
                if n < last {
                    assert(s0[n] == services[n] && p0[n] == polls[n]);
                    let k = at.index_of(n);
                    assert(more[k] == n);
                } else {
                    assert(more[at.len() as int] == last);
                }
            }
            assert(seen_at(seen, services, polls, workspace_id, more));
        } else {
            assert forall|n: int|
                0 <= n < services.len() && #[trigger] services[n].workspace_id@ == workspace_id
                    && polls[n] is Running implies at.contains(n) by {
                if n < last {
                    assert(s0[n] == services[n] && p0[n] == polls[n]);
                }
            }
            assert(seen_at(seen, services, polls, workspace_id, at));
        }
    }
}

/// A running service of the workspace is shown with the process id that its own
/// poll found.
pub proof fn law_shown_process_id_is_the_polled_one<C>(
    services: Seq<ManagedService<C>>,
    polls: Seq<ChildPoll>,
    workspace_id: Seq<char>,
    n: int,
    pid: Option<u32>,
)
    requires
        services.len() == polls.len(),
        0 <= n < services.len(),
        services[n].workspace_id@ == workspace_id,
        polls[n] == ChildPoll::Running(pid),
    ensures
        exists|j: int|
            0 <= j < shown(services, polls, workspace_id).len() && #[trigger] shown(
                services,
                polls,
                workspace_id,
            )[j] == (ProxyStatusView {
                proxy_index: services[n].proxy_index,
                proxy_name: services[n].proxy_name@,
                running: true,
                pid,
            }),
{
    law_running_services_are_shown(services, polls, workspace_id);
    let seen = shown(services, polls, workspace_id);
    let at = choose|at: Seq<int>| #[trigger] seen_at(seen, services, polls, workspace_id, at);
    let j = at.index_of(n);
    assert(at[j] == n);
    assert(seen[j] == (ProxyStatusView {
        proxy_index: services[n].proxy_index,
        proxy_name: services[n].proxy_name@,
        running: true,
        pid,
    }));
}

/// A workspace that has one service in all, which runs, shows it and nothing
/// else.
pub proof fn law_only_running_service_is_shown<C>(
    services: Seq<ManagedService<C>>,
    polls: Seq<ChildPoll>,
    workspace_id: Seq<char>,
    n: int,
)
    requires
        services.len() == polls.len(),
        0 <= n < services.len(),
        polls[n] is Running,
        forall|k: int|
            0 <= k < services.len() ==> (#[trigger] services[k].workspace_id@ == workspace_id
                && polls[k] is Running <==> k == n),
    ensures
        shown(services, polls, workspace_id).len() == 1,
        polls[n] == ChildPoll::Running(shown(services, polls, workspace_id)[0].pid),
{
    law_running_services_are_shown(services, polls, workspace_id);
    let seen = shown(services, polls, workspace_id);
    let at = choose|at: Seq<int>| #[trigger] seen_at(seen, services, polls, workspace_id, at);
    assert(services[n].workspace_id@ == workspace_id);
    assert(at.contains(n));
    assert forall|j: int| 0 <= j < at.len() implies #[trigger] at[j] == n by {
        assert(services[at[j]].workspace_id@ == workspace_id);
    }
    if at.len() > 1 {
        assert(at[0] < at[1]);
    }
}

/// How a service is called in the log.
pub fn log_label(proxy_name: &str) -> (out: String)
    ensures
        out@ == label(proxy_name@),
{
    let mut out: String = String::new();
    out.push('[');
    out.append(proxy_name);
    out.push(']');
    assert(out@ =~= label(proxy_name@));
    out
}

fn labelled(proxy_name: &str, middle: &str, tail: &str) -> (out: String)
    ensures
        out@ == label(proxy_name@) + middle@ + tail@,
{
    let mut out: String = log_label(proxy_name);
    out.append(middle);
    out.append(tail);
    out
}

/// A line of a service's output as it is logged.
pub fn output_line(label: &str, line: &str) -> (out: String)
    ensures
        out@ == label@ + seq![' '] + line@,
{
    let mut out: String = label.to_owned();
    out.push(' ');
    out.append(line);
    assert(out@ =~= label@ + seq![' '] + line@);
    out
}

/// A process id, or a dash where there is none.
pub open spec fn pid_text(pid: Option<u32>) -> Seq<char> {
    match pid {
        Some(pid) => decimal::decimal(pid as nat),
        None => seq!['-'],
    }
}

/// The line that tells of the start of a service.
pub fn started_line(proxy_name: &str, pid: Option<u32>) -> (out: String)
    ensures
        out@ == label(proxy_name@) + " 已启动，PID "@ + pid_text(pid),
{
    match pid {
        Some(pid) => labelled(
            proxy_name,
            " 已启动，PID ",
            decimal::number_text(pid as u64).as_str(),
        ),
        None => {
            proof {
                reveal_strlit("-");
                assert("-"@ =~= seq!['-']);
            }
            labelled(proxy_name, " 已启动，PID ", "-")
        },
    }
}

/// The line that tells that a service was stopped.
pub fn stopped_line(proxy_name: &str, pid: Option<u32>) -> (out: String)
    ensures
        out@ == match pid {
            Some(pid) => label(proxy_name@) + " frpc 已停止，PID "@ + decimal::decimal(pid as nat),
            None => label(proxy_name@) + " frpc 已停止"@,
        },
{
    match pid {
        Some(pid) => labelled(
            proxy_name,
            " frpc 已停止，PID ",
            decimal::number_text(pid as u64).as_str(),
        ),
        None => {
            proof {
                reveal_strlit("");
                assert(label(proxy_name@) + " frpc 已停止"@ + ""@ =~= label(proxy_name@)
                    + " frpc 已停止"@);
            }
            labelled(proxy_name, " frpc 已停止", "")
        },
    }
}

/// The line that tells that a service could not be stopped.
pub fn stop_failure_line(proxy_name: &str, error: &str) -> (out: String)
    ensures
        out@ == label(proxy_name@) + " 停止 frpc 失败："@ + error@,
{
    labelled(proxy_name, " 停止 frpc 失败：", error)
}

/// One more running service of a workspace.
fn count_one(counts: &mut TextMap<usize>, workspace_id: &str)
    requires
        old(counts).wf(),
        old(counts)@.contains_key(workspace_id@) ==> old(counts)@[workspace_id@] < usize::MAX,
    ensures
        final(counts).wf(),
        final(counts)@ == old(counts)@.insert(
            workspace_id@,
            if old(counts)@.contains_key(workspace_id@) {
                (old(counts)@[workspace_id@] + 1) as usize
            } else {
                1
            },
        ),
{
    let n: usize = match counts.get(workspace_id) {
        Some(n) => *n + 1,
        None => 1,
    };
    counts.insert(workspace_id.to_owned(), n);
}

proof fn lemma_shown_len<C>(
    services: Seq<ManagedService<C>>,
    polls: Seq<ChildPoll>,
    workspace_id: Seq<char>,
)
    ensures
        shown(services, polls, workspace_id).len() <= services.len(),
    decreases services.len(),
{
    if services.len() > 0 {
        lemma_shown_len(services.drop_last(), polls.drop_last(), workspace_id);
    }
}

/// Brings table and log up to date with what was found out about the processes,
/// one poll for each service in the order of their keys, and gives what is shown
/// of a workspace.
pub fn service_status<C>(
    table: &mut ServiceTable<C>,
    book: &mut LogBook,
    polls: &Vec<ChildPoll>,
    workspace_id: &str,
    now: u64,
) -> (status: ServiceStatus)
    requires
        old(table).wf(),
        old(book).wf(),
        polls@.len() == old(table).services.keys().len(),
    ensures
        final(table).wf(),
        final(book).wf(),
        final(table).services.keys() == text_map::picked(
            old(table).services.keys(),
            gone(polls@),
            false,
        ),
        final(table).services.values() == text_map::picked(
            old(table).services.values(),
            gone(polls@),
            false,
        ),
        final(book)@ == logs::cleared_if_due(
            logged(old(book)@, end_entries(old(table).services.values(), polls@), now),
            workspace_id@,
            now,
        ),
        status_views(status.services@) == shown(
            old(table).services.values(),
            polls@,
            workspace_id@,
        ),
        exists|at: Seq<int>| #[trigger]
            seen_at(
                status_views(status.services@),
                old(table).services.values(),
                polls@,
                workspace_id@,
                at,
            ),
        status.running_count == status.services@.len(),
        status.running == (status.services@.len() > 0),
        status.pid == if status.services@.len() == 1 {
            status.services@[0].pid
        } else {
            None
        },
        text::texts(status.logs@) == logs::lines_of(final(book)@, workspace_id@),
        status.workspace_running_counts.wf(),
        forall|id: Seq<char>| #[trigger]
            status.workspace_running_counts@.contains_key(id) <==> shown(
                old(table).services.values(),
                polls@,
                id,
            ).len() > 0,
        forall|id: Seq<char>| #[trigger]
            status.workspace_running_counts@.contains_key(id)
                ==> status.workspace_running_counts@[id] == shown(
                old(table).services.values(),
                polls@,
                id,
            ).len(),
{
    let ghost values = table.services.values();
    let ghost before = book@;
    let mut flags: Vec<bool> = Vec::new();
    let mut services: Vec<ProxyServiceStatus> = Vec::new();
    let mut counts: TextMap<usize> = TextMap::new();
    let mut i: usize = 0;
    assert(polls@.take(0) =~= Seq::<ChildPoll>::empty());
    while i < polls.len()
        invariant
            i <= polls@.len(),
            polls@.len() == values.len(),
            *table == *old(table),
            table.wf(),
            table.services.values() == values,
            before == old(book)@,
            book.wf(),
            counts.wf(),
            flags@ == gone(polls@.take(i as int)),
            book@ == logged(
                before,
                end_entries(values.take(i as int), polls@.take(i as int)),
                now,
            ),
            status_views(services@) == shown(
                values.take(i as int),
                polls@.take(i as int),
                workspace_id@,
            ),
            forall|id: Seq<char>| #[trigger]
                counts@.contains_key(id) <==> shown(
                    values.take(i as int),
                    polls@.take(i as int),
                    id,
                ).len() > 0,
            forall|id: Seq<char>| #[trigger]
                counts@.contains_key(id) ==> counts@[id] == shown(
                    values.take(i as int),
                    polls@.take(i as int),
                    id,
                ).len(),
        decreases polls@.len() - i,
    {
        let service = table.services.value_at(i);
        let ghost v0 = values.take(i as int);
        let ghost p0 = polls@.take(i as int);
        let ghost v1 = values.take(i + 1);
        let ghost p1 = polls@.take(i + 1);
        let ghost views = status_views(services@);
        let ghost counted = counts@;
        assert(v1.drop_last() =~= v0);
        assert(p1.drop_last() =~= p0);
        assert(v1.last() == *service);
        assert(p1.last() == polls@[i as int]);
        proof {
            assert(p1 =~= p0.push(polls@[i as int]));
            assert forall|id: Seq<char>| #[trigger] shown(v0, p0, id).len() <= i by {
                lemma_shown_len(v0, p0, id);
            }
        }
        match &polls[i] {
            ChildPoll::Running(pid) => {
                count_one(&mut counts, service.workspace_id.as_str());
                if text::same_text(service.workspace_id.as_str(), workspace_id) {
                    services.push(
                        ProxyServiceStatus {
                            proxy_index: service.proxy_index,
                            proxy_name: service.proxy_name.clone(),
                            running: true,
                            pid: *pid,
                        },
                    );
                    assert(status_views(services@) =~= views.push(services@.last()@));
                }
                flags.push(false);
                assert(end_entries(v1, p1) == end_entries(v0, p0));
            },
            ChildPoll::Exited(status) => {
                let line = labelled(
                    service.proxy_name.as_str(),
                    " frpc 已退出：",
                    status.as_str(),
                );
                let ghost entries = end_entries(v1, p1);
                assert(entries.drop_last() =~= end_entries(v0, p0));
                book.append_log(service.workspace_id.as_str(), line, now);
                flags.push(true);
            },
            ChildPoll::Failed(error) => {
                let line = labelled(
                    service.proxy_name.as_str(),
                    " 读取 frpc 状态失败：",
                    error.as_str(),
                );
                let ghost entries = end_entries(v1, p1);
                assert(entries.drop_last() =~= end_entries(v0, p0));
                book.append_log(service.workspace_id.as_str(), line, now);
                flags.push(true);
            },
        }
        assert(flags@ =~= gone(p1));
        i = i + 1;
    }
    assert(polls@.take(i as int) =~= polls@);
    assert(values.take(i as int) =~= values);
    proof {
        law_running_services_are_shown(values, polls@, workspace_id@);
        let at = choose|at: Seq<int>| #[trigger]
            seen_at(shown(values, polls@, workspace_id@), values, polls@, workspace_id@, at);
        assert(status_views(services@) == shown(values, polls@, workspace_id@));
        assert(seen_at(status_views(services@), values, polls@, workspace_id@, at));
    }
    table.take_flagged(&flags);
    book.clear_workspace_logs_if_due(workspace_id, now);
    let logs = book.lines(workspace_id);
    let running_count: usize = services.len();
    let pid: Option<u32> = if running_count == 1 {
        services[0].pid
    } else {
        None
    };
    ServiceStatus {
        running: running_count > 0,
        pid,
        running_count,
        services,
        logs,
        workspace_running_counts: counts,
    }
}

/// The lines that tell of a service begin with its name in brackets. They tell
/// how its process ended, or why that could not be found out.
pub proof fn law_lines_tell_of_their_service(proxy_name: Seq<char>, status: String, pid: u32)
    ensures
        label(proxy_name) == seq!['['] + proxy_name + seq![']'],
        end_line(proxy_name, ChildPoll::Exited(status)) == seq!['['] + proxy_name + seq![']']
            + " frpc 已退出："@ + status@,
        end_line(proxy_name, ChildPoll::Failed(status)) == seq!['['] + proxy_name + seq![']']
            + " 读取 frpc 状态失败："@ + status@,
        decimal::number_of(pid_text(Some(pid))) == pid,
        pid_text(Some(pid)) == decimal::decimal(pid as nat),
        pid_text(None) == seq!['-'],
{
    decimal::lemma_number_of_decimal(pid as nat);
}

/// `left` are the services at the places `at`, which increase, and those are the
/// places of the services that run.
pub open spec fn stays_at<C>(
    left: Seq<ManagedService<C>>,
    services: Seq<ManagedService<C>>,
    polls: Seq<ChildPoll>,
    at: Seq<int>,
) -> bool {
    &&& at.len() == left.len()
    &&& forall|j: int| 0 <= j < at.len() ==> 0 <= #[trigger] at[j] < services.len()
    &&& forall|j: int, k: int| 0 <= j < k < at.len() ==> #[trigger] at[j] < #[trigger] at[k]
    &&& forall|j: int|
        0 <= j < at.len() ==> polls[#[trigger] at[j]] is Running && left[j] == services[at[j]]
    &&& forall|n: int|
        0 <= n < services.len() && (#[trigger] polls[n]) is Running ==> at.contains(n)
}

/// Exactly the services that run stay in the table, as they are and in their
/// order.
pub proof fn law_ended_services_leave_the_table<C>(
    services: Seq<ManagedService<C>>,
    polls: Seq<ChildPoll>,
)
    requires
        services.len() == polls.len(),
    ensures
        exists|at: Seq<int>| #[trigger]
            stays_at(text_map::picked(services, gone(polls), false), services, polls, at),
    decreases services.len(),
{
    let left = text_map::picked(services, gone(polls), false);
    if services.len() == 0 {
        assert(stays_at(left, services, polls, Seq::<int>::empty()));
    } else {
        let s0 = services.drop_last();
        let p0 = polls.drop_last();
        law_ended_services_leave_the_table(s0, p0);
        assert(gone(polls).drop_last() =~= gone(p0));
        let before = text_map::picked(s0, gone(p0), false);
        let at = choose|at: Seq<int>| #[trigger] stays_at(before, s0, p0, at);
        let last = services.len() - 1;
        let more = at.push(last);
        if polls.last() is Running {
            assert(!gone(polls)[last]);
            assert forall|n: int|
                0 <= n < services.len() && (#[trigger] polls[n]) is Running implies more.contains(
                n,
            ) by {
                if n < last {
                    assert(p0[n] == polls[n]);
                    let k = at.index_of(n);
                    assert(more[k] == n);
                } else {
                    assert(more[at.len() as int] == last);
                }
            }
            assert(stays_at(left, services, polls, more));
        } else {
            assert(gone(polls)[last]);
            assert forall|n: int|
                0 <= n < services.len() && (#[trigger] polls[n]) is Running implies at.contains(
                n,
            ) by {
                if n < last {
                    assert(p0[n] == polls[n]);
                }
            }
            assert(stays_at(left, services, polls, at));
        }
    }
}

/// `entries` are for the services at the places `at`, which increase, and those
/// are the places of the services that are gone: each is for its own workspace,
/// and tells the end of its own process.
pub open spec fn ended_at<C>(
    entries: Seq<(Seq<char>, Seq<char>)>,
    services: Seq<ManagedService<C>>,
    polls: Seq<ChildPoll>,
    at: Seq<int>,
) -> bool {
    &&& at.len() == entries.len()
    &&& forall|j: int| 0 <= j < at.len() ==> 0 <= #[trigger] at[j] < services.len()
    &&& forall|j: int, k: int| 0 <= j < k < at.len() ==> #[trigger] at[j] < #[trigger] at[k]
    &&& forall|j: int|
        0 <= j < at.len() ==> !(polls[#[trigger] at[j]] is Running) && entries[j].0
            == services[at[j]].workspace_id@ && entries[j].1 == end_line(
            services[at[j]].proxy_name@,
            polls[at[j]],
        )
    &&& forall|n: int|
        0 <= n < services.len() && !((#[trigger] polls[n]) is Running) ==> at.contains(n)
}

/// The end of each service that is gone is logged once, for its own workspace.
pub proof fn law_ends_are_logged<C>(services: Seq<ManagedService<C>>, polls: Seq<ChildPoll>)
    requires
        services.len() == polls.len(),
    ensures
        exists|at: Seq<int>| #[trigger]
            ended_at(end_entries(services, polls), services, polls, at),
    decreases services.len(),
{
    let entries = end_entries(services, polls);
    if services.len() == 0 {
        assert(ended_at(entries, services, polls, Seq::<int>::empty()));
    } else {
        let s0 = services.drop_last();
        let p0 = polls.drop_last();
        law_ends_are_logged(s0, p0);
        let before = end_entries(s0, p0);
        let at = choose|at: Seq<int>| #[trigger] ended_at(before, s0, p0, at);
        let last = services.len() - 1;
        let more = at.push(last);
        if polls.last() is Running {
            assert forall|n: int|
                0 <= n < services.len() && !((#[trigger] polls[n]) is Running) implies at.contains(
                n,
            ) by {
                if n < last {
                    assert(p0[n] == polls[n]);
                }
            }
            assert(ended_at(entries, services, polls, at));
        } else {
            assert forall|n: int|
                0 <= n < services.len() && !((#[trigger] polls[n]) is Running) implies more.contains(
                n,
            ) by {
                if n < last {
                    assert(p0[n] == polls[n]);
                    let k = at.index_of(n);
                    assert(more[k] == n);
                } else {
                    assert(more[at.len() as int] == last);
                }
            }
            assert(ended_at(entries, services, polls, more));
        }
    }
}

/// Entries are logged one after the other, each for its own workspace.
pub proof fn law_entries_are_logged_in_turn(
    book: LogBookView,
    entries: Seq<(Seq<char>, Seq<char>)>,
    workspace_id: Seq<char>,
    line: Seq<char>,
    now: u64,
)
    ensures
        logged(book, Seq::empty(), now) == book,
        logged(book, entries.push((workspace_id, line)), now) == logs::appended(
            logged(book, entries, now),
            workspace_id,
            line,
            now,
        ),
{
    assert(entries.push((workspace_id, line)).drop_last() =~= entries);
}

/// The lines among the entries that are for a workspace.
pub open spec fn lines_for(
    entries: Seq<(Seq<char>, Seq<char>)>,
    workspace_id: Seq<char>,
) -> Seq<Seq<char>> {
    entries.filter(|entry: (Seq<char>, Seq<char>)| entry.0 == workspace_id).map_values(
        |entry: (Seq<char>, Seq<char>)| entry.1,
    )
}

/// Several lines are added behind the ones of their workspace, in their order,
/// where no cleanup is due, and its last 240 are kept.
pub proof fn law_logged_lines_follow_the_earlier_ones(
    book: LogBookView,
    entries: Seq<(Seq<char>, Seq<char>)>,
    now: u64,
    workspace_id: Seq<char>,
)
    requires
        !logs::due(book, workspace_id, now),
        logs::lines_of(book, workspace_id).len() <= 240,
    ensures
        ({
            let all = logs::lines_of(book, workspace_id) + lines_for(entries, workspace_id);
            let after = logs::lines_of(logged(book, entries, now), workspace_id);
            &&& all.len() <= 240 ==> after == all
            &&& all.len() > 240 ==> after == all.skip(all.len() - 240)
        }),
        !logs::due(logged(book, entries, now), workspace_id, now),
    decreases entries.len(),
{
    reveal(Seq::filter);
    if entries.len() == 0 {
        assert(logs::lines_of(book, workspace_id) + lines_for(entries, workspace_id)
            =~= logs::lines_of(book, workspace_id));
    } else {
        let init = entries.drop_last();
        let (id, line) = entries.last();
        law_logged_lines_follow_the_earlier_ones(book, init, now, workspace_id);
        let before = logged(book, init, now);
        let all0 = logs::lines_of(book, workspace_id) + lines_for(init, workspace_id);
        let all = logs::lines_of(book, workspace_id) + lines_for(entries, workspace_id);
        let after = logs::lines_of(logged(book, entries, now), workspace_id);
        if id == workspace_id {
            logs::law_line_follows_the_earlier_ones(before, id, line, now);
            assert(lines_for(entries, workspace_id) =~= lines_for(init, workspace_id).push(line));
            assert(all =~= all0.push(line));
            if all.len() > 240 {
                assert(after =~= all.skip(all.len() - 240));
            } else {
                assert(after =~= all);
            }
        } else {
            assert(lines_for(entries, workspace_id) =~= lines_for(init, workspace_id));
            logs::law_logs_are_isolated(before, id, workspace_id, line, 0, now);
        }
    }
}

/// The services that are shown of a workspace are the ones that stay in the
/// table for it, in the same order.
pub proof fn law_shown_services_stay<C>(
    services: Seq<ManagedService<C>>,
    polls: Seq<ChildPoll>,
    workspace_id: Seq<char>,
)
    requires
        services.len() == polls.len(),
    ensures
        ({
            let seen = shown(services, polls, workspace_id);
            let stay = text_map::picked(services, gone(polls), false).filter(
                service::in_workspace(workspace_id),
            );
            &&& seen.len() == stay.len()
            &&& forall|i: int|
                0 <= i < seen.len() ==> (#[trigger] seen[i]).proxy_index == stay[i].proxy_index
                    && seen[i].proxy_name == stay[i].proxy_name@ && seen[i].running
        }),
    decreases services.len(),
{
    reveal(Seq::filter);
    let f = service::in_workspace::<C>(workspace_id);
    let left = text_map::picked(services, gone(polls), false);
    if services.len() == 0 {
        assert(left.filter(f).len() == 0);
    } else {
        let s0 = services.drop_last();
        let p0 = polls.drop_last();
        law_shown_services_stay(s0, p0, workspace_id);
        assert(gone(polls).drop_last() =~= gone(p0));
        let left0 = text_map::picked(s0, gone(p0), false);
        if polls.last() is Running {
            assert(!gone(polls)[services.len() - 1]);
            assert(left == left0.push(services.last()));
            assert(left.drop_last() =~= left0);
            assert(left.last() == services.last());
        } else {
            assert(gone(polls)[services.len() - 1]);
            assert(left == left0);
        }
    }
}

} // verus!
