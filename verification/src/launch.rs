//! Starting services: what has to be prepared, what is recorded, and the order
//! in which all services of a workspace are started or, when one fails, stopped
//! again.

use vstd::prelude::*;
use vstd::string::StringExecFns;

use crate::config;
use crate::config::parse_config_summary;
use crate::config::render_single_proxy_config;
use crate::decimal;
use crate::error::AppError;
use crate::logs;
use crate::logs::LogBook;
use crate::runtime;
use crate::runtime::current_runtime;
use crate::runtime::RuntimeInfo;
use crate::service;
use crate::service::ManagedService;
use crate::service::ServiceTable;
use crate::settings::AppSettings;
use crate::status;
use crate::status::started_line;
use crate::text;
use crate::toml_doc;

verus! {

/// A character that can stand in a file name everywhere.
pub open spec fn safe_char(ch: char) -> bool {
    ('a' <= ch && ch <= 'z') || ('A' <= ch && ch <= 'Z') || ('0' <= ch && ch <= '9') || ch == '-'
        || ch == '_'
}

/// A text with dashes in place of the characters that are not safe.
pub open spec fn dashed(s: Seq<char>) -> Seq<char> {
    s.map_values(
        |ch: char|
            if safe_char(ch) {
                ch
            } else {
                '-'
            },
    )
}

/// A text without surrounding dashes.
pub open spec fn undashed(s: Seq<char>) -> Seq<char> {
    text::trimmed_end(text::trimmed_start(s, |c: char| c == '-'), |c: char| c == '-')
}

/// A name as part of a file name.
pub open spec fn file_segment(s: Seq<char>) -> Seq<char> {
    let trimmed = undashed(dashed(s));
    if trimmed.len() == 0 {
        "proxy"@
    } else {
        trimmed
    }
}

fn is_safe_char(ch: char) -> (safe: bool)
    ensures
        safe == safe_char(ch),
{
    ('a' <= ch && ch <= 'z') || ('A' <= ch && ch <= 'Z') || ('0' <= ch && ch <= '9') || ch == '-'
        || ch == '_'
}

/// A name as part of a file name.
pub fn sanitize_file_segment(value: &str) -> (out: String)
    ensures
        out@ == file_segment(value@),
{
    let mut safe: String = String::new();
    for ch in it: value.chars()
        invariant
            it.seq() == value@,
            safe@ == dashed(value@.take(it.index() as int)),
    {
        let ghost before = value@.take(it.index() as int);
        let ghost after = value@.take(it.index() + 1);
        assert(after =~= before.push(ch));
        if is_safe_char(ch) {
            safe.push(ch);
        } else {
            safe.push('-');
        }
        assert(safe@ =~= dashed(after));
    }
    assert(value@.take(value@.len() as int) =~= value@);
    let front = text::trim_start_char(safe.as_str(), '-');
    let trimmed = text::trim_end_char(front.as_str(), '-');
    if text::chars_of(trimmed.as_str()).len() == 0 {
        "proxy".to_owned()
    } else {
        trimmed
    }
}

proof fn lemma_trimmed_start_range(s: Seq<char>, p: spec_fn(char) -> bool)
    ensures
        exists|k: int|
            0 <= k <= s.len() && #[trigger] s.skip(k) == text::trimmed_start(s, p) && (k < s.len()
                ==> !p(s[k])),
    decreases s.len(),
{
    if s.len() > 0 && p(s[0]) {
        let t = s.drop_first();
        lemma_trimmed_start_range(t, p);
        let k = choose|k: int|
            0 <= k <= t.len() && #[trigger] t.skip(k) == text::trimmed_start(t, p) && (k < t.len()
                ==> !p(t[k]));
        assert(s.skip(k + 1) =~= t.skip(k));
    } else {
        assert(s.skip(0) =~= s);
    }
}

proof fn lemma_trimmed_end_range(s: Seq<char>, p: spec_fn(char) -> bool)
    ensures
        exists|k: int|
            0 <= k <= s.len() && #[trigger] s.take(k) == text::trimmed_end(s, p) && (k > 0 ==> !p(
                s[k - 1],
            )),
    decreases s.len(),
{
    if s.len() > 0 && p(s.last()) {
        let t = s.drop_last();
        lemma_trimmed_end_range(t, p);
        let k = choose|k: int|
            0 <= k <= t.len() && #[trigger] t.take(k) == text::trimmed_end(t, p) && (k > 0 ==> !p(
                t[k - 1],
            ));
        assert(s.take(k) =~= t.take(k));
    } else {
        assert(s.take(s.len() as int) =~= s);
    }
}

/// A name as part of a file name is never empty, holds safe characters alone,
/// neither begins nor ends with a dash, and is its own file segment.
pub proof fn law_file_segments_are_safe(s: Seq<char>)
    ensures
        ({
            let out = file_segment(s);
            &&& out.len() > 0
            &&& forall|i: int| 0 <= i < out.len() ==> safe_char(#[trigger] out[i])
            &&& out[0] != '-'
            &&& out.last() != '-'
            &&& file_segment(out) == out
        }),
{
    let p = |c: char| c == '-';
    let d = dashed(s);
    reveal_strlit("proxy");
    lemma_trimmed_start_range(d, p);
    let i = choose|k: int|
        0 <= k <= d.len() && #[trigger] d.skip(k) == text::trimmed_start(d, p) && (k < d.len()
            ==> !p(d[k]));
    let front = d.skip(i);
    lemma_trimmed_end_range(front, p);
    let j = choose|k: int|
        0 <= k <= front.len() && #[trigger] front.take(k) == text::trimmed_end(front, p) && (k > 0
            ==> !p(front[k - 1]));
    let out = file_segment(s);
    assert forall|n: int| 0 <= n < out.len() implies safe_char(#[trigger] out[n]) by {
        if j > 0 {
            assert(out[n] == d[i + n]);
        }
    }
    assert(out[0] != '-');
    assert(out.last() != '-');
    assert(dashed(out) =~= out);
    assert(text::trimmed_start(out, p) == out);
    assert(text::trimmed_end(out, p) == out);
}

/// A name becomes part of a file name with a dash for each character that cannot
/// stand in one, without the dashes around it, and nothing else of it is lost. A
/// name of which nothing is left is called `proxy`.
pub proof fn law_file_segments_keep_the_name(s: Seq<char>)
    ensures
        exists|from: int, to: int|
            0 <= from <= to <= s.len() && #[trigger] segment_of(s, from, to, file_segment(s)),
{
    let p = |c: char| c == '-';
    let d = dashed(s);
    let front = text::trimmed_start(d, p);
    let kept = text::trimmed_end(front, p);
    text::law_start_is_trimmed(d, p);
    text::law_end_is_trimmed(front, p);
    let from = d.len() - front.len();
    let to = from + kept.len();
    assert(d.skip(from) =~= front);
    assert(d.subrange(from, to) =~= kept);
    assert forall|i: int| 0 <= i < from || to <= i < s.len() implies (s[i] == '-' || !safe_char(
        #[trigger] s[i],
    )) by {
        if i < from {
            assert(p(d[i]));
        } else {
            assert(front[i - from] == d[i]);
            assert(p(front[i - from]));
        }
    }
    assert forall|i: int| from <= i < to implies kept[i - from] == (if safe_char(#[trigger] s[i]) {
        s[i]
    } else {
        '-'
    }) by {
        assert(d.subrange(from, to)[i - from] == d[i]);
    }
    assert(segment_of(s, from, to, file_segment(s)));
}

/// `out` stands for the characters of `s` between two places, outside of which
/// only dashes and characters that are not safe stand.
pub open spec fn segment_of(s: Seq<char>, from: int, to: int, out: Seq<char>) -> bool {
    &&& forall|i: int|
        0 <= i < from || to <= i < s.len() ==> s[i] == '-' || !safe_char(#[trigger] s[i])
    &&& from == to ==> out == "proxy"@
    &&& from < to ==> out.len() == to - from && out[0] != '-' && out.last() != '-'
    &&& from < to ==> forall|i: int|
        from <= i < to ==> out[i - from] == (if safe_char(#[trigger] s[i]) {
            s[i]
        } else {
            '-'
        })
}

/// Letters and digits of ASCII, the dash and the underscore are safe, and nothing
/// else.
pub proof fn law_safe_characters(ch: char)
    ensures
        safe_char(ch) <==> ('a' <= ch && ch <= 'z') || ('A' <= ch && ch <= 'Z') || ('0' <= ch && ch
            <= '9') || ch == '-' || ch == '_',
{
}

/// A name of safe characters, without dashes around it, is kept as it is.
pub proof fn law_safe_names_are_kept(s: Seq<char>)
    requires
        s.len() > 0,
        forall|i: int| 0 <= i < s.len() ==> safe_char(#[trigger] s[i]),
        s[0] != '-',
        s.last() != '-',
    ensures
        file_segment(s) == s,
{
    law_file_segments_keep_the_name(s);
    let (from, to) = choose|from: int, to: int|
        0 <= from <= to <= s.len() && #[trigger] segment_of(s, from, to, file_segment(s));
    if from > 0 {
        assert(s[0] == '-' || !safe_char(s[0]));
    }
    if to < s.len() {
        assert(s[s.len() - 1] == '-' || !safe_char(s[s.len() - 1]));
    }
    assert(file_segment(s) =~= s) by {
        assert forall|i: int| 0 <= i < s.len() implies file_segment(s)[i] == s[i] by {
            assert(safe_char(s[i]));
            assert(file_segment(s)[i - from] == s[i]);
        }
    }
}

/// The name of the configuration file of a service.
pub open spec fn config_file_name(proxy_index: nat, proxy_name: Seq<char>) -> Seq<char> {
    decimal::zero_padded(decimal::decimal(proxy_index + 1), 3) + "-"@ + file_segment(proxy_name)
        + ".toml"@
}

/// The name of the configuration file of a service.
pub fn service_config_file_name(proxy_index: usize, proxy_name: &str) -> (out: String)
    requires
        proxy_index < usize::MAX,
    ensures
        out@ == config_file_name(proxy_index as nat, proxy_name@),
{
    let mut out: String = decimal::three_digit_text(proxy_index as u64 + 1);
    out.append("-");
    out.append(sanitize_file_segment(proxy_name).as_str());
    out.append(".toml");
    out
}

/// The configuration file of a service is called by the number of its proxy, with
/// at least three digits, and by its name.
pub proof fn law_config_files_tell_number_and_name(proxy_index: nat, proxy_name: Seq<char>)
    ensures
        exists|digits: Seq<char>| #[trigger]
            config_file_parts(
                config_file_name(proxy_index, proxy_name),
                digits,
                proxy_index,
                proxy_name,
            ),
{
    let plain = decimal::decimal(proxy_index + 1);
    let digits = decimal::zero_padded(plain, 3);
    decimal::lemma_decimal_digits(proxy_index + 1);
    decimal::lemma_number_of_decimal(proxy_index + 1);
    decimal::lemma_zero_padded(plain, 3);
    decimal::law_padding_puts_zeros_before(plain, 3);
    if digits.len() > 3 {
        decimal::law_decimal_notation_stands_for_the_number(proxy_index + 1);
    }
    reveal_strlit("-");
    assert("-"@ =~= seq!['-']);
    assert(config_file_parts(
        config_file_name(proxy_index, proxy_name),
        digits,
        proxy_index,
        proxy_name,
    ));
}

/// A file name of these digits, which stand for the number of the proxy counted
/// from one, and the name of the proxy.
pub open spec fn config_file_parts(
    file_name: Seq<char>,
    digits: Seq<char>,
    proxy_index: nat,
    proxy_name: Seq<char>,
) -> bool {
    &&& file_name == digits + seq!['-'] + file_segment(proxy_name) + ".toml"@
    &&& digits.len() >= 3
    &&& digits.len() > 3 ==> digits[0] != '0'
    &&& forall|i: int| 0 <= i < digits.len() ==> decimal::is_digit(#[trigger] digits[i])
    &&& decimal::number_of(digits) == proxy_index + 1
}

/// The services of a workspace have different configuration files.
pub proof fn law_config_files_differ(i: nat, a: Seq<char>, j: nat, b: Seq<char>)
    requires
        config_file_name(i, a) == config_file_name(j, b),
    ensures
        i == j,
{
    let x = decimal::zero_padded(decimal::decimal(i + 1), 3);
    let y = decimal::zero_padded(decimal::decimal(j + 1), 3);
    let left = config_file_name(i, a);
    let right = config_file_name(j, b);
    decimal::lemma_decimal_digits(i + 1);
    decimal::lemma_decimal_digits(j + 1);
    decimal::lemma_zero_padded(decimal::decimal(i + 1), 3);
    decimal::lemma_zero_padded(decimal::decimal(j + 1), 3);
    decimal::lemma_number_of_decimal(i + 1);
    decimal::lemma_number_of_decimal(j + 1);
    reveal_strlit("-");
    assert(left[x.len() as int] == '-');
    assert(right[y.len() as int] == '-');
    if x.len() < y.len() {
        assert(right[x.len() as int] == y[x.len() as int]);
    } else if y.len() < x.len() {
        assert(left[y.len() as int] == x[y.len() as int]);
    }
    assert(x =~= left.take(x.len() as int));
    assert(y =~= right.take(x.len() as int));
}

/// A proxy whose service does not run and is to be started.
pub struct StartRequest {
    pub workspace_id: String,
    pub proxy_index: usize,
}

/// A service to be started with a runtime.
pub struct StartWithRuntime {
    pub workspace_id: String,
    pub proxy_index: usize,
    pub runtime: RuntimeInfo,
}

/// A service to be started with a runtime whose executable is there.
pub struct StartWithBinary {
    pub workspace_id: String,
    pub proxy_index: usize,
    pub runtime: RuntimeInfo,
}

/// Begins to start the service of a proxy; one that runs is left alone.
pub fn begin_start<C>(table: &ServiceTable<C>, workspace_id: &str, proxy_index: usize) -> (request:
    Option<StartRequest>)
    requires
        table.wf(),
    ensures
        match request {
            Some(r) => !table@.contains_key(
                service::service_key(workspace_id@, proxy_index as nat),
            ) && r.workspace_id@ == workspace_id@ && r.proxy_index == proxy_index,
            None => table@.contains_key(service::service_key(workspace_id@, proxy_index as nat)),
        },
{
    if table.is_running(workspace_id, proxy_index) {
        None
    } else {
        Some(StartRequest { workspace_id: workspace_id.to_owned(), proxy_index })
    }
}

impl StartRequest {
    /// Settles the runtime.
    pub fn with_runtime(self, runtimes: &[RuntimeInfo], settings: &AppSettings) -> (next: Result<
        StartWithRuntime,
        AppError,
    >)
        ensures
            match next {
                Ok(n) => n.workspace_id@ == self.workspace_id@ && n.proxy_index == self.proxy_index
                    && exists|k: int| #[trigger]
                    runtime::in_charge(runtimes@, settings@.current_runtime, k) && n.runtime
                        == runtimes@[k],
                Err(e) => runtimes@.len() == 0 && e == AppError::NoRuntime,
            },
    {
        match current_runtime(runtimes, settings) {
            Ok(runtime) => Ok(
                StartWithRuntime {
                    workspace_id: self.workspace_id,
                    proxy_index: self.proxy_index,
                    runtime,
                },
            ),
            Err(e) => Err(e),
        }
    }
}

impl StartWithRuntime {
    /// Makes sure that the runtime's executable is there.
    pub fn with_binary(self, binary_exists: bool) -> (next: Result<StartWithBinary, AppError>)
        ensures
            match next {
                Ok(n) => binary_exists && n.workspace_id@ == self.workspace_id@ && n.proxy_index
                    == self.proxy_index && n.runtime == self.runtime,
                Err(e) => !binary_exists && (e matches AppError::BinaryMissing(path) && path@
                    == self.runtime.binary_path@),
            },
    {
        if binary_exists {
            Ok(
                StartWithBinary {
                    workspace_id: self.workspace_id,
                    proxy_index: self.proxy_index,
                    runtime: self.runtime,
                },
            )
        } else {
            Err(AppError::BinaryMissing(self.runtime.binary_path))
        }
    }
}

impl StartWithBinary {
    /// Settles the configuration and the file that it goes into.
    pub fn with_config(self, config_text: &str) -> (next: Result<PreparedService, AppError>)
        requires
            self.proxy_index < usize::MAX,
        ensures
            match next {
                Ok(p) => prepared_from(
                    p,
                    self.workspace_id@,
                    self.runtime.id@,
                    config_text@,
                    self.proxy_index,
                ),
                Err(e) => config::single_proxy_fault(config_text@, self.proxy_index, e),
            },
            next matches Ok(p) ==> p.workspace_id@ == self.workspace_id@ && p.runtime_id@
                == self.runtime.id@ && p.proxy_index == self.proxy_index && service::asks_for(
                config_text@,
                self.proxy_index as nat,
                p.config_text@,
            ) && p.file_name@ == config_file_name(self.proxy_index as nat, p.proxy_name@),
    {
        match render_single_proxy_config(config_text, self.proxy_index) {
            Ok((single, proxy_name)) => {
                proof {
                    config::law_only_listed_proxies_are_found(
                        toml_doc::parsed(config_text@)->0,
                        self.proxy_index as nat,
                    );
                }
                let file_name = service_config_file_name(self.proxy_index, proxy_name.as_str());
                Ok(
                    PreparedService {
                        workspace_id: self.workspace_id,
                        runtime_id: self.runtime.id,
                        proxy_index: self.proxy_index,
                        proxy_name,
                        config_text: single,
                        file_name,
                    },
                )
            },
            Err(e) => Err(e),
        }
    }
}

/// A service that is about to be started.
pub struct PreparedService {
    pub workspace_id: String,
    pub runtime_id: String,
    pub proxy_index: usize,
    pub proxy_name: String,
    /// The configuration of its proxy alone.
    pub config_text: String,
    /// The name of the file that the configuration goes into.
    pub file_name: String,
}

/// The service was prepared from a configuration.
pub open spec fn prepared_from(
    prepared: PreparedService,
    workspace_id: Seq<char>,
    runtime_id: Seq<char>,
    config_text: Seq<char>,
    proxy_index: usize,
) -> bool {
    &&& prepared.workspace_id@ == workspace_id
    &&& prepared.runtime_id@ == runtime_id
    &&& prepared.proxy_index == proxy_index
    &&& config::single_proxy_text(config_text, proxy_index as nat) == Some(
        (prepared.config_text@, prepared.proxy_name@),
    )
    &&& prepared.file_name@ == config_file_name(proxy_index as nat, prepared.proxy_name@)
}

/// The service is the one that was prepared, with the handle of its process.
pub open spec fn launched<C>(
    service: ManagedService<C>,
    prepared: PreparedService,
    child: C,
) -> bool {
    &&& service.workspace_id@ == prepared.workspace_id@
    &&& service.runtime_id@ == prepared.runtime_id@
    &&& service.proxy_index == prepared.proxy_index
    &&& service.proxy_name@ == prepared.proxy_name@
    &&& service.config_text@ == prepared.config_text@
    &&& service.child == child
}

/// Records a service whose process was started.
pub fn record_start<C>(
    table: &mut ServiceTable<C>,
    book: &mut LogBook,
    prepared: PreparedService,
    child: C,
    pid: Option<u32>,
    now: u64,
)
    requires
        old(table).wf(),
        old(book).wf(),
        prepared.proxy_index < usize::MAX,
    ensures
        final(table).wf(),
        final(book).wf(),
        ({
            let key = service::service_key(
                prepared.workspace_id@,
                prepared.proxy_index as nat,
            );
            &&& final(table)@ == old(table)@.insert(key, final(table)@[key])
            &&& launched(final(table)@[key], prepared, child)
            &&& final(table)@[key].workspace_id@ == prepared.workspace_id@
            &&& final(table)@[key].runtime_id@ == prepared.runtime_id@
            &&& final(table)@[key].proxy_index == prepared.proxy_index
            &&& final(table)@[key].proxy_name@ == prepared.proxy_name@
            &&& final(table)@[key].config_text@ == prepared.config_text@
            &&& final(table)@[key].child == child
        }),
        final(book)@ == logs::appended(
            old(book)@,
            prepared.workspace_id@,
            status::label(prepared.proxy_name@) + " 已启动，PID "@ + status::pid_text(pid),
            now,
        ),
{
    book.append_log(
        prepared.workspace_id.as_str(),
        started_line(prepared.proxy_name.as_str(), pid),
        now,
    );
    table.insert(
        ManagedService {
            workspace_id: prepared.workspace_id,
            runtime_id: prepared.runtime_id,
            proxy_index: prepared.proxy_index,
            proxy_name: prepared.proxy_name,
            config_text: prepared.config_text,
            child,
        },
    );
}

/// A service is not stale under the configuration that it was started from.
pub proof fn law_started_service_matches<C>(
    service: ManagedService<C>,
    prepared: PreparedService,
    child: C,
    workspace_id: Seq<char>,
    runtime_id: Seq<char>,
    config_text: Seq<char>,
    proxy_index: usize,
)
    requires
        prepared_from(prepared, workspace_id, runtime_id, config_text, proxy_index),
        launched(service, prepared, child),
    ensures
        service::matches_config(service, config_text),
        !service::stale(workspace_id, config_text)(service),
{
}

/// Starting all services of a workspace, one after the other.
pub struct BatchStart {
    pub proxy_count: usize,
    /// The proxy whose service comes next.
    pub next: usize,
    /// The proxies whose services were started and not stopped again.
    pub started: Vec<usize>,
    /// A service could not be started.
    pub failed: bool,
}

/// What has to be done next.
pub enum BatchAction {
    /// Start the service of a proxy.
    Start(usize),
    /// Stop the service of a proxy.
    Stop(usize),
    /// Nothing: all services run.
    Finished,
    /// Nothing: the services that were started are stopped again.
    RolledBack,
}

impl BatchStart {
    /// The proxies that were started come before the next one, in their order.
    pub open spec fn wf(&self) -> bool {
        &&& self.next <= self.proxy_count
        &&& forall|i: int| 0 <= i < self.started@.len() ==> #[trigger] self.started@[i] < self.next
        &&& forall|i: int, j: int|
            0 <= i < j < self.started@.len() ==> #[trigger] self.started@[i]
                < #[trigger] self.started@[j]
    }

    /// What has to be done next.
    pub open spec fn next_action(&self) -> BatchAction {
        if !self.failed {
            if self.next < self.proxy_count {
                BatchAction::Start(self.next)
            } else {
                BatchAction::Finished
            }
        } else if self.started@.len() > 0 {
            BatchAction::Stop(self.started@.last())
        } else {
            BatchAction::RolledBack
        }
    }

    /// Begins to start the services of a configuration's proxies.
    pub fn begin(config_text: &str) -> (batch: Result<Self, AppError>)
        ensures
            match batch {
                Ok(b) => b.wf() && b.proxy_count > 0 && b.proxy_count == config::proxy_items(
                    config::document_of(config_text@),
                ).len() && b.next == 0 && b.started@.len() == 0 && !b.failed,
                Err(e) => config::proxy_items(config::document_of(config_text@)).len() == 0 && e
                    == AppError::NoProxies,
            },
            toml_doc::parsed(config_text@) is None ==> batch is Err,
            toml_doc::parsed(config_text@) matches Some(t) ==> (match batch {
                Ok(b) => t is Table && t->Table_0.contains_key("proxies"@)
                    && t->Table_0["proxies"@] is Array && b.proxy_count
                    == t->Table_0["proxies"@]->Array_0.len(),
                Err(_) => !(t is Table && t->Table_0.contains_key("proxies"@)
                    && t->Table_0["proxies"@] is Array && t->Table_0["proxies"@]->Array_0.len()
                    > 0),
            }),
    {
        let summary = parse_config_summary(config_text);
        let proxy_count: usize = summary.proxies.len();
        assert(summary@.proxies.len() == proxy_count);
        if proxy_count == 0 {
            Err(AppError::NoProxies)
        } else {
            Ok(BatchStart { proxy_count, next: 0, started: Vec::new(), failed: false })
        }
    }

    /// What has to be done next.
    pub fn action(&self) -> (action: BatchAction)
        ensures
            action == self.next_action(),
    {
        if !self.failed {
            if self.next < self.proxy_count {
                BatchAction::Start(self.next)
            } else {
                BatchAction::Finished
            }
        } else if self.started.len() > 0 {
            BatchAction::Stop(self.started[self.started.len() - 1])
        } else {
            BatchAction::RolledBack
        }
    }

    /// The service runs; it was started now, or ran before.
    pub fn runs(&mut self, newly_started: bool)
        requires
            old(self).wf(),
            old(self).next_action() is Start,
        ensures
            final(self).wf(),
            batch_step(
                *old(self),
                *final(self),
                if newly_started {
                    BatchEvent::Started
                } else {
                    BatchEvent::RanBefore
                },
            ),
    {
        if newly_started {
            self.started.push(self.next);
        }
        self.next = self.next + 1;
    }

    /// The service could not be started.
    pub fn start_failed(&mut self)
        requires
            old(self).wf(),
            old(self).next_action() is Start,
        ensures
            final(self).wf(),
            batch_step(*old(self), *final(self), BatchEvent::StartFailed),
    {
        self.failed = true;
    }

    /// The service was stopped.
    pub fn stopped(&mut self)
        requires
            old(self).wf(),
            old(self).next_action() is Stop,
        ensures
            final(self).wf(),
            batch_step(*old(self), *final(self), BatchEvent::Stopped),
    {
        self.started.pop();
    }
}

/// `running` are the proxies whose services run, where `before` ran before the
/// batch.
pub open spec fn batch_invariant(batch: BatchStart, before: Set<usize>, running: Set<usize>) -> bool {
    &&& batch.wf()
    &&& forall|i: usize| #[trigger]
        running.contains(i) <==> before.contains(i) || batch.started@.contains(i)
    &&& forall|i: usize| #[trigger] batch.started@.contains(i) ==> !before.contains(i)
    &&& !batch.failed ==> forall|i: usize| i < batch.next ==> #[trigger] running.contains(i)
}

/// What happened in a step of a batch.
pub enum BatchEvent {
    Started,
    RanBefore,
    StartFailed,
    Stopped,
}

/// The step from `batch` to `after`.
pub open spec fn batch_step(batch: BatchStart, after: BatchStart, event: BatchEvent) -> bool {
    &&& after.proxy_count == batch.proxy_count
    &&& match event {
        BatchEvent::Started => batch.next_action() is Start && after.next == batch.next + 1
            && after.started@ == batch.started@.push(batch.next) && after.failed == batch.failed,
        BatchEvent::RanBefore => batch.next_action() is Start && after.next == batch.next + 1
            && after.started@ == batch.started@ && after.failed == batch.failed,
        BatchEvent::StartFailed => batch.next_action() is Start && after.next == batch.next
            && after.started@ == batch.started@ && after.failed,
        BatchEvent::Stopped => batch.next_action() is Stop && after.next == batch.next
            && after.started@ == batch.started@.drop_last() && after.failed == batch.failed,
    }
}

/// The proxies whose services run after a step.
pub open spec fn running_after(
    batch: BatchStart,
    event: BatchEvent,
    running: Set<usize>,
) -> Set<usize> {
    match event {
        BatchEvent::Started => running.insert(batch.next),
        BatchEvent::RanBefore => running,
        BatchEvent::StartFailed => running,
        BatchEvent::Stopped => running.remove(batch.started@.last()),
    }
}

/// A batch goes on to the next proxy until it reached the last one. Once a start
/// failed, it stops what it started, the last one first, and only that.
pub proof fn law_batch_goes_on(batch: BatchStart)
    requires
        batch.wf(),
    ensures
        !batch.failed && batch.next < batch.proxy_count ==> batch.next_action()
            == BatchAction::Start(batch.next),
        !batch.failed && batch.next == batch.proxy_count ==> batch.next_action()
            == BatchAction::Finished,
        batch.failed && batch.started@.len() > 0 ==> batch.next_action() == BatchAction::Stop(
            batch.started@[batch.started@.len() - 1],
        ),
        batch.failed && batch.started@.len() == 0 ==> batch.next_action()
            == BatchAction::RolledBack,
{
}

/// Each step brings a batch on: a service that runs leads to the next proxy, a
/// start that failed to the way back, and a service that was stopped is off the
/// list.
pub proof fn law_batch_steps_lead_on(batch: BatchStart, after: BatchStart, event: BatchEvent)
    requires
        batch_step(batch, after, event),
    ensures
        after.proxy_count == batch.proxy_count,
        event is Started ==> after.next == batch.next + 1 && after.started@ == batch.started@.push(
            batch.next,
        ) && !after.failed,
        event is RanBefore ==> after.next == batch.next + 1 && after.started@ == batch.started@
            && !after.failed,
        event is StartFailed ==> after.next == batch.next && after.started@ == batch.started@
            && after.failed,
        event is Stopped ==> after.next == batch.next && after.started@
            == batch.started@.drop_last() && after.failed,
{
}

/// Each step of a batch keeps account of the services that it started.
pub proof fn law_batch_keeps_account(
    batch: BatchStart,
    after: BatchStart,
    event: BatchEvent,
    before: Set<usize>,
    running: Set<usize>,
)
    requires
        batch_invariant(batch, before, running),
        after.wf(),
        batch_step(batch, after, event),
        event is Started ==> !running.contains(batch.next),
        event is RanBefore ==> running.contains(batch.next),
    ensures
        batch_invariant(after, before, running_after(batch, event, running)),
{
    let s = batch.started@;
    let t = after.started@;
    let n = batch.next;
    match event {
        BatchEvent::Started => {
            assert(t[s.len() as int] == n);
            assert forall|i: usize| #[trigger] t.contains(i) <==> s.contains(i) || i == n by {
                if s.contains(i) {
                    let k = s.index_of(i);
                    assert(t[k] == i);
                }
                if t.contains(i) {
                    let k = t.index_of(i);
                    if k < s.len() {
                        assert(s[k] == i);
                    }
                }
            }
        },
        BatchEvent::Stopped => {
            let last = s.last();
            assert(s[s.len() - 1] == last);
            assert(s.contains(last));
            assert forall|i: usize| #[trigger] t.contains(i) <==> s.contains(i) && i != last by {
                if s.contains(i) && i != last {
                    let k = s.index_of(i);
                    assert(t[k] == i);
                }
                if t.contains(i) {
                    let k = t.index_of(i);
                    assert(s[k] == i);
                }
            }
        },
        _ => {},
    }
}

/// A batch that finished leaves every service running; one that was rolled back
/// leaves running what ran before it.
pub proof fn law_batch_starts_all_or_nothing(
    batch: BatchStart,
    before: Set<usize>,
    running: Set<usize>,
)
    requires
        batch_invariant(batch, before, running),
    ensures
        batch.next_action() is Finished ==> forall|i: usize|
            i < batch.proxy_count ==> #[trigger] running.contains(i),
        batch.next_action() is Finished ==> before.subset_of(running),
        batch.next_action() is RolledBack ==> running == before,
{
    if batch.next_action() is RolledBack {
        assert(running =~= before);
    }
}

} // verus!
