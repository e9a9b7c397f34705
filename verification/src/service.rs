//! The services that run for the proxies of the workspaces.
//!
//! The handle of a service's process is of any type: the rules here neither
//! read nor change it.

use vstd::prelude::*;

use crate::config;
use crate::config::render_single_proxy_config;
use crate::decimal;
use crate::error::AppError;
use crate::text;
use crate::text_map;
use crate::text_map::TextMap;
use crate::toml_doc;
use crate::toml_doc::Toml;

verus! {

/// A service, with the handle of its process.
pub struct ManagedService<C> {
    pub workspace_id: String,
    pub runtime_id: String,
    pub proxy_index: usize,
    pub proxy_name: String,
    /// The configuration that the service was started with.
    pub config_text: String,
    pub child: C,
}

/// The running services, by their keys.
pub struct ServiceTable<C> {
    pub services: TextMap<ManagedService<C>>,
}

impl<C> View for ServiceTable<C> {
    type V = Map<Seq<char>, ManagedService<C>>;

    open spec fn view(&self) -> Map<Seq<char>, ManagedService<C>> {
        self.services@
    }
}

/// The key of a service: its workspace and the index of its proxy.
pub open spec fn service_key(workspace_id: Seq<char>, proxy_index: nat) -> Seq<char> {
    workspace_id + seq![':'] + decimal::decimal(proxy_index)
}

/// The key belongs to the service.
pub open spec fn keyed<C>(key: Seq<char>, service: ManagedService<C>) -> bool {
    key == service_key(service.workspace_id@, service.proxy_index as nat) && service.proxy_index
        < usize::MAX
}

/// The service belongs to a workspace.
pub open spec fn in_workspace<C>(workspace_id: Seq<char>) -> spec_fn(ManagedService<C>) -> bool {
    |service: ManagedService<C>| service.workspace_id@ == workspace_id
}

/// The service belongs to another workspace.
pub open spec fn outside_workspace<C>(workspace_id: Seq<char>) -> spec_fn(
    ManagedService<C>,
) -> bool {
    |service: ManagedService<C>| service.workspace_id@ != workspace_id
}

/// A configuration still asks for what a service was started with.
pub open spec fn matches_config<C>(
    service: ManagedService<C>,
    config_text: Seq<char>,
) -> bool {
    match config::single_proxy_text(config_text, service.proxy_index as nat) {
        Some((single, _)) => single == service.config_text@,
        None => false,
    }
}

/// The service belongs to a workspace whose configuration asks for something
/// else.
pub open spec fn stale<C>(workspace_id: Seq<char>, config_text: Seq<char>) -> spec_fn(
    ManagedService<C>,
) -> bool {
    |service: ManagedService<C>|
        service.workspace_id@ == workspace_id && !matches_config(service, config_text)
}

/// The service is not stale.
pub open spec fn not_stale<C>(workspace_id: Seq<char>, config_text: Seq<char>) -> spec_fn(
    ManagedService<C>,
) -> bool {
    |service: ManagedService<C>| !stale(workspace_id, config_text)(service)
}

/// A configuration, narrowed to the proxy at an index, is written as the text.
pub open spec fn asks_for(config_text: Seq<char>, proxy_index: nat, single: Seq<char>) -> bool {
    &&& toml_doc::parsed(config_text) matches Some(Toml::Table(m))
    &&& m.contains_key("proxies"@)
    &&& m["proxies"@] matches Toml::Array(items)
    &&& proxy_index < items.len()
    &&& toml_doc::rendered(
        Toml::Table(m.insert("proxies"@, Toml::Array(seq![items[proxy_index as int]]))),
    ) == Some(single)
}

/// The text is read as a configuration narrowed to the proxy at an index.
pub open spec fn reads_as_narrowed(
    config_text: Seq<char>,
    proxy_index: nat,
    single: Seq<char>,
) -> bool {
    &&& toml_doc::parsed(config_text) matches Some(Toml::Table(m))
    &&& m.contains_key("proxies"@)
    &&& m["proxies"@] matches Toml::Array(items)
    &&& proxy_index < items.len()
    &&& toml_doc::parsed(single) == Some(
        Toml::Table(m.insert("proxies"@, Toml::Array(seq![items[proxy_index as int]]))),
    )
}

/// A service matches a configuration exactly where the configuration, narrowed
/// to the service's proxy, is written as the text that the service was started
/// with.
pub proof fn law_service_matches_what_it_was_started_with<C>(
    service: ManagedService<C>,
    config_text: Seq<char>,
)
    ensures
        matches_config(service, config_text) <==> asks_for(
            config_text,
            service.proxy_index as nat,
            service.config_text@,
        ),
{
    if toml_doc::parsed(config_text) is Some {
        let t = toml_doc::parsed(config_text)->0;
        config::law_only_listed_proxies_are_found(t, service.proxy_index as nat);
        if config::single_proxy(t, service.proxy_index as nat) is Some {
            let m = t->Table_0;
            let items = m["proxies"@]->Array_0;
            config::law_narrowing_keeps_the_rest(m, items, service.proxy_index as nat);
            let (single, _) = config::single_proxy(t, service.proxy_index as nat)->0;
            assert(single->Table_0 =~= m.insert(
                "proxies"@,
                Toml::Array(seq![items[service.proxy_index as int]]),
            ));
        }
    }
}

/// A service is stopped once the configuration asks for anything else than what
/// it was started with, be it in an entry of the document or of its proxy.
/// `running` is what the service's own configuration is read as, and `single` is
/// the text of the narrowed one, which is read back as it was written.
pub proof fn law_changed_configuration_stops_the_service<C>(
    service: ManagedService<C>,
    config_text: Seq<char>,
    m: Map<Seq<char>, Toml>,
    items: Seq<Toml>,
    running: Map<Seq<char>, Toml>,
    single: Seq<char>,
    k: Seq<char>,
)
    requires
        toml_doc::parsed(config_text) == Some(Toml::Table(m)),
        m.contains_key("proxies"@),
        m["proxies"@] == Toml::Array(items),
        service.proxy_index < items.len(),
        toml_doc::parsed(service.config_text@) == Some(Toml::Table(running)),
        toml_doc::rendered(
            Toml::Table(
                m.insert("proxies"@, Toml::Array(seq![items[service.proxy_index as int]])),
            ),
        ) == Some(single),
        toml_doc::parsed(single) == Some(
            Toml::Table(
                m.insert("proxies"@, Toml::Array(seq![items[service.proxy_index as int]])),
            ),
        ),
        if k == "proxies"@ {
            !running.contains_key(k) || running[k] != Toml::Array(
                seq![items[service.proxy_index as int]],
            )
        } else {
            running.contains_key(k) != m.contains_key(k) || (m.contains_key(k) && running[k]
                != m[k])
        },
    ensures
        stale(service.workspace_id@, config_text)(service),
        !not_stale(service.workspace_id@, config_text)(service),
{
    law_service_matches_what_it_was_started_with(service, config_text);
    let narrow = m.insert("proxies"@, Toml::Array(seq![items[service.proxy_index as int]]));
    if matches_config(service, config_text) {
        assert(service.config_text@ == single);
        assert(running == narrow);
    }
}

/// A service whose proxy is gone, or whose configuration is no document any more,
/// is stopped.
pub proof fn law_missing_proxy_stops_the_service<C>(
    service: ManagedService<C>,
    config_text: Seq<char>,
)
    requires
        match toml_doc::parsed(config_text) {
            Some(Toml::Table(m)) => !m.contains_key("proxies"@) || !(m["proxies"@] is Array)
                || service.proxy_index >= m["proxies"@]->Array_0.len(),
            _ => true,
        },
    ensures
        stale(service.workspace_id@, config_text)(service),
{
    law_service_matches_what_it_was_started_with(service, config_text);
}

proof fn lemma_stale_split<C>(
    services: Seq<ManagedService<C>>,
    workspace_id: Seq<char>,
    config_text: Seq<char>,
)
    ensures
        forall|i: int|
            0 <= i < services.filter(stale(workspace_id, config_text)).len() ==> (
            #[trigger] services.filter(stale(workspace_id, config_text))[i]).workspace_id@
                == workspace_id && !asks_for(
                config_text,
                services.filter(stale(workspace_id, config_text))[i].proxy_index as nat,
                services.filter(stale(workspace_id, config_text))[i].config_text@,
            ),
        forall|i: int|
            0 <= i < services.filter(not_stale(workspace_id, config_text)).len() && (
            #[trigger] services.filter(not_stale(workspace_id, config_text))[i]).workspace_id@
                == workspace_id ==> asks_for(
                config_text,
                services.filter(not_stale(workspace_id, config_text))[i].proxy_index as nat,
                services.filter(not_stale(workspace_id, config_text))[i].config_text@,
            ),
{
    broadcast use vstd::seq_lib::group_filter_ensures;

    let gone = services.filter(stale(workspace_id, config_text));
    let left = services.filter(not_stale(workspace_id, config_text));
    assert forall|i: int| 0 <= i < gone.len() implies (#[trigger] gone[i]).workspace_id@
        == workspace_id && !asks_for(
        config_text,
        gone[i].proxy_index as nat,
        gone[i].config_text@,
    ) by {
        assert(stale(workspace_id, config_text)(gone[i]));
        law_service_matches_what_it_was_started_with(gone[i], config_text);
    }
    assert forall|i: int|
        0 <= i < left.len() && (#[trigger] left[i]).workspace_id@ == workspace_id implies asks_for(
        config_text,
        left[i].proxy_index as nat,
        left[i].config_text@,
    ) by {
        assert(not_stale(workspace_id, config_text)(left[i]));
        law_service_matches_what_it_was_started_with(left[i], config_text);
    }
}

/// Of the services of a workspace, those are stopped that its configuration does
/// not ask for; the others, and those of other workspaces, go on.
pub proof fn law_stale_services_are_stopped<C>(
    services: Seq<ManagedService<C>>,
    workspace_id: Seq<char>,
    config_text: Seq<char>,
    i: int,
)
    requires
        0 <= i < services.len(),
    ensures
        services.filter(stale(workspace_id, config_text)).contains(services[i])
            <==> services[i].workspace_id@ == workspace_id && !asks_for(
            config_text,
            services[i].proxy_index as nat,
            services[i].config_text@,
        ),
        services.filter(not_stale(workspace_id, config_text)).contains(services[i])
            <==> services[i].workspace_id@ != workspace_id || asks_for(
            config_text,
            services[i].proxy_index as nat,
            services[i].config_text@,
        ),
{
    broadcast use vstd::seq_lib::group_filter_ensures;

    law_service_matches_what_it_was_started_with(services[i], config_text);
    let gone = services.filter(stale(workspace_id, config_text));
    let left = services.filter(not_stale(workspace_id, config_text));
    if gone.contains(services[i]) {
        let k = gone.index_of(services[i]);
        assert(stale(workspace_id, config_text)(gone[k]));
    }
    if left.contains(services[i]) {
        let k = left.index_of(services[i]);
        assert(not_stale(workspace_id, config_text)(left[k]));
    }
}

/// One of the services runs with a runtime.
pub open spec fn runtime_used<C>(
    services: Seq<ManagedService<C>>,
    runtime_id: Seq<char>,
) -> bool {
    exists|i: int| 0 <= i < services.len() && (#[trigger] services[i]).runtime_id@ == runtime_id
}

/// A runtime is in use exactly where it is the one of some service.
pub proof fn law_runtime_of_a_service_is_in_use<C>(
    services: Seq<ManagedService<C>>,
    runtime_id: Seq<char>,
)
    ensures
        runtime_used(services, runtime_id) <==> services.map_values(
            |service: ManagedService<C>| service.runtime_id@,
        ).contains(runtime_id),
{
    let ids = services.map_values(|service: ManagedService<C>| service.runtime_id@);
    if runtime_used(services, runtime_id) {
        let i = choose|i: int|
            0 <= i < services.len() && (#[trigger] services[i]).runtime_id@ == runtime_id;
        assert(ids[i] == runtime_id);
    }
    if ids.contains(runtime_id) {
        let i = ids.index_of(runtime_id);
        assert(services[i].runtime_id@ == runtime_id);
    }
}

/// The key of a service.
pub fn proxy_service_key(workspace_id: &str, proxy_index: usize) -> (key: String)
    ensures
        key@ == service_key(workspace_id@, proxy_index as nat),
        key@ == workspace_id@ + seq![':'] + decimal::decimal(proxy_index as nat),
{
    let mut key: String = workspace_id.to_owned();
    key.push(':');
    decimal::append_number(&mut key, proxy_index as u64);
    assert(workspace_id@.push(':') =~= workspace_id@ + seq![':']);
    key
}

/// Different proxies, and proxies of different workspaces, have different keys.
pub proof fn law_service_keys_differ(a: Seq<char>, i: nat, b: Seq<char>, j: nat)
    requires
        service_key(a, i) == service_key(b, j),
    ensures
        a == b,
        i == j,
{
    decimal::lemma_decimal_digits(i);
    decimal::lemma_decimal_digits(j);
    assert(service_key(a, i) =~= a.push(':') + decimal::decimal(i));
    assert(service_key(b, j) =~= b.push(':') + decimal::decimal(j));
    text::lemma_last_separator(a, decimal::decimal(i), b, decimal::decimal(j), ':');
    decimal::lemma_decimal_injective(i, j);
}

proof fn lemma_picked_keyed<C>(
    keys: Seq<Seq<char>>,
    values: Seq<ManagedService<C>>,
    flags: Seq<bool>,
    want: bool,
)
    requires
        keys.len() == values.len() == flags.len(),
        forall|i: int| 0 <= i < keys.len() ==> keyed(#[trigger] keys[i], values[i]),
    ensures
        forall|i: int|
            0 <= i < text_map::picked(keys, flags, want).len() ==> keyed(
                #[trigger] text_map::picked(keys, flags, want)[i],
                text_map::picked(values, flags, want)[i],
            ),
{
    text_map::lemma_picked_together(keys, values, flags, want);
    let at = choose|at: Seq<int>|
        text_map::picked_at(keys, flags, want, at) && text_map::picked_at(values, flags, want, at);
    let pk = text_map::picked(keys, flags, want);
    assert forall|i: int| 0 <= i < pk.len() implies keyed(
        #[trigger] pk[i],
        text_map::picked(values, flags, want)[i],
    ) by {
        assert(pk[i] == keys[at[i]]);
    }
}

impl<C> ServiceTable<C> {
    /// The services form a map, each under its own key.
    pub open spec fn wf(&self) -> bool {
        &&& self.services.wf()
        &&& forall|i: int|
            0 <= i < self.services.keys().len() ==> keyed(
                #[trigger] self.services.keys()[i],
                self.services.values()[i],
            )
    }

    /// The table without services.
    pub fn new() -> (table: Self)
        ensures
            table.wf(),
            table@ == Map::<Seq<char>, ManagedService<C>>::empty(),
    {
        ServiceTable { services: TextMap::new() }
    }

    /// The handle of the i-th service's process.
    pub fn child_mut(&mut self, i: usize) -> (child: &mut C)
        requires
            i < old(self).services.values().len(),
        ensures
            *child == old(self).services.values()[i as int].child,
            final(self).services.keys() == old(self).services.keys(),
            final(self).services.values() == old(self).services.values().update(
                i as int,
                (ManagedService { child: *final(child), ..old(self).services.values()[i as int] }),
            ),
    {
        let service = self.services.value_at_mut(i);
        &mut service.child
    }

    /// Whether the service of a proxy is running.
    pub fn is_running(&self, workspace_id: &str, proxy_index: usize) -> (running: bool)
        requires
            self.wf(),
        ensures
            running == self@.contains_key(service_key(workspace_id@, proxy_index as nat)),
    {
        self.services.contains_key(proxy_service_key(workspace_id, proxy_index).as_str())
    }

    /// Adds a service.
    pub fn insert(&mut self, service: ManagedService<C>) -> (replaced: Option<ManagedService<C>>)
        requires
            old(self).wf(),
            service.proxy_index < usize::MAX,
        ensures
            final(self).wf(),
            final(self)@ == old(self)@.insert(
                service_key(service.workspace_id@, service.proxy_index as nat),
                service,
            ),
            match replaced {
                Some(s) => old(self)@.contains_key(
                    service_key(service.workspace_id@, service.proxy_index as nat),
                ) && s == old(self)@[service_key(
                    service.workspace_id@,
                    service.proxy_index as nat,
                )],
                None => !old(self)@.contains_key(
                    service_key(service.workspace_id@, service.proxy_index as nat),
                ),
            },
    {
        let key = proxy_service_key(service.workspace_id.as_str(), service.proxy_index);
        let ghost before = self.services@;
        let ghost keys = self.services.keys();
        let ghost values = self.services.values();
        proof {
            text_map::lemma_map_of(keys, values);
        }
        let replaced = self.services.insert(key, service);
        proof {
            self.lemma_keyed(before, key@, service, keys, values);
        }
        replaced
    }

    proof fn lemma_keyed(
        &self,
        before: Map<Seq<char>, ManagedService<C>>,
        key: Seq<char>,
        service: ManagedService<C>,
        keys: Seq<Seq<char>>,
        values: Seq<ManagedService<C>>,
    )
        requires
            self.services.wf(),
            before == text_map::map_of(keys, values),
            text_map::increasing(keys),
            keys.len() == values.len(),
            forall|i: int| 0 <= i < keys.len() ==> keyed(#[trigger] keys[i], values[i]),
            keyed(key, service),
            forall|k: Seq<char>| #[trigger]
                self.services@.contains_key(k) ==> if k == key {
                    self.services@[k] == service
                } else {
                    before.contains_key(k) && self.services@[k] == before[k]
                },
        ensures
            self.wf(),
    {
        let now = self.services.keys();
        text_map::lemma_map_of(keys, values);
        text_map::lemma_map_of(now, self.services.values());
        assert forall|i: int| 0 <= i < now.len() implies keyed(
            #[trigger] now[i],
            self.services.values()[i],
        ) by {
            assert(self.services@.contains_key(now[i]));
            assert(self.services@[now[i]] == self.services.values()[i]);
            if now[i] != key {
                assert(before.contains_key(now[i]));
                let j = choose|j: int| 0 <= j < keys.len() && #[trigger] keys[j] == now[i];
                assert(before[keys[j]] == values[j]);
            }
        }
    }

    /// Takes the service of a proxy out of the table, to be stopped.
    pub fn take_proxy_service(&mut self, workspace_id: &str, proxy_index: usize) -> (taken: Option<
        ManagedService<C>,
    >)
        requires
            old(self).wf(),
        ensures
            final(self).wf(),
            final(self)@ == old(self)@.remove(service_key(workspace_id@, proxy_index as nat)),
            match taken {
                Some(service) => old(self)@.contains_key(
                    service_key(workspace_id@, proxy_index as nat),
                ) && service == old(self)@[service_key(workspace_id@, proxy_index as nat)]
                    && service.workspace_id@ == workspace_id@ && service.proxy_index
                    == proxy_index,
                None => !old(self)@.contains_key(service_key(workspace_id@, proxy_index as nat)),
            },
    {
        let key = proxy_service_key(workspace_id, proxy_index);
        let ghost before = self.services@;
        let ghost keys = self.services.keys();
        let ghost values = self.services.values();
        let taken = self.services.remove(key.as_str());
        proof {
            text_map::lemma_map_of(keys, values);
            if before.contains_key(key@) {
                let j = choose|j: int| 0 <= j < keys.len() && #[trigger] keys[j] == key@;
                let service = before[keys[j]];
                assert(keyed(key@, service));
                law_service_keys_differ(
                    workspace_id@,
                    proxy_index as nat,
                    service.workspace_id@,
                    service.proxy_index as nat,
                );
                self.lemma_keyed(before, key@, service, keys, values);
            }
        }
        taken
    }

    /// Takes the services whose flag is set out of the table.
    pub(crate) fn take_flagged(&mut self, flags: &Vec<bool>) -> (taken: Vec<ManagedService<C>>)
        requires
            old(self).wf(),
            flags@.len() == old(self).services.keys().len(),
        ensures
            final(self).wf(),
            final(self).services.keys() == text_map::picked(
                old(self).services.keys(),
                flags@,
                false,
            ),
            final(self).services.values() == text_map::picked(
                old(self).services.values(),
                flags@,
                false,
            ),
            taken@ == text_map::picked(old(self).services.values(), flags@, true),
    {
        proof {
            lemma_picked_keyed(self.services.keys(), self.services.values(), flags@, false);
        }
        self.services.extract(flags)
    }

    /// Takes the services of a workspace out of the table, to be stopped in the
    /// order of their keys.
    pub fn take_workspace_services(&mut self, workspace_id: &str) -> (taken: Vec<ManagedService<C>>)
        requires
            old(self).wf(),
        ensures
            final(self).wf(),
            taken@ == old(self).services.values().filter(in_workspace(workspace_id@)),
            final(self).services.values() == old(self).services.values().filter(
                outside_workspace(workspace_id@),
            ),
    {
        let ghost values = self.services.values();
        let mut flags: Vec<bool> = Vec::new();
        let mut i: usize = 0;
        while i < self.services.len()
            invariant
                i <= values.len(),
                flags@.len() == i,
                *self == *old(self),
                self.wf(),
                values == self.services.values(),
                forall|j: int|
                    0 <= j < i ==> #[trigger] flags@[j] == (values[j].workspace_id@
                        == workspace_id@),
            decreases values.len() - i,
        {
            flags.push(
                text::same_text(self.services.value_at(i).workspace_id.as_str(), workspace_id),
            );
            i = i + 1;
        }
        proof {
            text_map::lemma_picked_filter(values, flags@, true, in_workspace(workspace_id@));
            text_map::lemma_picked_filter(values, flags@, false, outside_workspace(workspace_id@));
        }
        self.take_flagged(&flags)
    }

    /// Takes all services out of the table, to be stopped in the order of their
    /// keys.
    pub fn take_all_services(&mut self) -> (taken: Vec<ManagedService<C>>)
        requires
            old(self).wf(),
        ensures
            final(self).wf(),
            taken@ == old(self).services.values(),
            final(self)@ == Map::<Seq<char>, ManagedService<C>>::empty(),
    {
        let ghost values = self.services.values();
        let mut flags: Vec<bool> = Vec::new();
        let mut i: usize = 0;
        while i < self.services.len()
            invariant
                i <= values.len(),
                flags@.len() == i,
                *self == *old(self),
                self.wf(),
                values == self.services.values(),
                forall|j: int| 0 <= j < i ==> #[trigger] flags@[j],
            decreases values.len() - i,
        {
            flags.push(true);
            i = i + 1;
        }
        let ghost keys = self.services.keys();
        proof {
            lemma_all_picked(values, flags@);
            lemma_all_picked(keys, flags@);
        }
        let taken = self.take_flagged(&flags);
        assert(self@ =~= Map::<Seq<char>, ManagedService<C>>::empty());
        taken
    }

    /// Takes the services of a workspace that no longer match its configuration
    /// out of the table, to be stopped in the order of their keys.
    pub fn take_stale_services(&mut self, workspace_id: &str, config_text: &str) -> (taken: Vec<
        ManagedService<C>,
    >)
        requires
            old(self).wf(),
        ensures
            final(self).wf(),
            taken@ == old(self).services.values().filter(stale(workspace_id@, config_text@)),
            final(self).services.values() == old(self).services.values().filter(
                not_stale(workspace_id@, config_text@),
            ),
            forall|i: int|
                0 <= i < taken@.len() ==> (#[trigger] taken@[i]).workspace_id@ == workspace_id@
                    && !asks_for(
                    config_text@,
                    taken@[i].proxy_index as nat,
                    taken@[i].config_text@,
                ),
            forall|i: int|
                0 <= i < final(self).services.values().len() && (
                #[trigger] final(self).services.values()[i]).workspace_id@ == workspace_id@
                    ==> asks_for(
                    config_text@,
                    final(self).services.values()[i].proxy_index as nat,
                    final(self).services.values()[i].config_text@,
                ),
            toml_doc::plain_document(config::document_of(config_text@)) ==> forall|i: int|
                0 <= i < final(self).services.values().len() && (
                #[trigger] final(self).services.values()[i]).workspace_id@ == workspace_id@
                    ==> reads_as_narrowed(
                    config_text@,
                    final(self).services.values()[i].proxy_index as nat,
                    final(self).services.values()[i].config_text@,
                ),
    {
        let ghost values = self.services.values();
        let mut flags: Vec<bool> = Vec::new();
        let mut i: usize = 0;
        while i < self.services.len()
            invariant
                i <= values.len(),
                flags@.len() == i,
                *self == *old(self),
                self.wf(),
                values == self.services.values(),
                forall|j: int|
                    0 <= j < i ==> #[trigger] flags@[j] == stale(workspace_id@, config_text@)(
                        values[j],
                    ),
                toml_doc::plain_document(config::document_of(config_text@)) ==> forall|j: int|
                    0 <= j < i && !(#[trigger] flags@[j]) && values[j].workspace_id@
                        == workspace_id@ ==> reads_as_narrowed(
                        config_text@,
                        values[j].proxy_index as nat,
                        values[j].config_text@,
                    ),
            decreases values.len() - i,
        {
            let service = self.services.value_at(i);
            assert(keyed(self.services.keys()[i as int], *service));
            let flag = if !text::same_text(service.workspace_id.as_str(), workspace_id) {
                false
            } else {
                match render_single_proxy_config(config_text, service.proxy_index) {
                    Ok((single, _)) => !text::same_text(
                        single.as_str(),
                        service.config_text.as_str(),
                    ),
                    Err(_) => true,
                }
            };
            flags.push(flag);
            i = i + 1;
        }
        proof {
            text_map::lemma_picked_filter(values, flags@, true, stale(workspace_id@, config_text@));
            text_map::lemma_picked_filter(
                values,
                flags@,
                false,
                not_stale(workspace_id@, config_text@),
            );
            lemma_stale_split(values, workspace_id@, config_text@);
            text_map::lemma_picked(values, flags@, false);
            let at = choose|at: Seq<int>| text_map::picked_at(values, flags@, false, at);
            let left = text_map::picked(values, flags@, false);
            assert forall|i: int| 0 <= i < left.len() implies #[trigger] left[i] == values[at[i]]
                && !flags@[at[i]] by {}
        }
        self.take_flagged(&flags)
    }

    /// Whether a runtime can be replaced: no service runs with it.
    pub fn ensure_runtime_not_in_use(&self, runtime_id: &str) -> (free: Result<(), AppError>)
        requires
            self.wf(),
        ensures
            match free {
                Ok(_) => !runtime_used(self.services.values(), runtime_id@),
                Err(e) => runtime_used(self.services.values(), runtime_id@) && e
                    == AppError::RuntimeInUse,
            },
    {
        let mut i: usize = 0;
        while i < self.services.len()
            invariant
                self.wf(),
                i <= self.services.values().len(),
                forall|j: int|
                    0 <= j < i ==> (#[trigger] self.services.values()[j]).runtime_id@
                        != runtime_id@,
            decreases self.services.values().len() - i,
        {
            if text::same_text(self.services.value_at(i).runtime_id.as_str(), runtime_id) {
                return Err(AppError::RuntimeInUse);
            }
            i = i + 1;
        }
        Ok(())
    }

    /// The runtimes that services run with.
    pub fn active_runtime_ids(&self) -> (ids: TextMap<()>)
        requires
            self.wf(),
        ensures
            ids.wf(),
            forall|id: Seq<char>| #[trigger]
                ids@.contains_key(id) <==> runtime_used(self.services.values(), id),
    {
        let mut ids: TextMap<()> = TextMap::new();
        let mut i: usize = 0;
        while i < self.services.len()
            invariant
                self.wf(),
                ids.wf(),
                i <= self.services.values().len(),
                forall|id: Seq<char>| #[trigger]
                    ids@.contains_key(id) <==> runtime_used(
                        self.services.values().take(i as int),
                        id,
                    ),
            decreases self.services.values().len() - i,
        {
            let ghost before = self.services.values().take(i as int);
            let ghost after = self.services.values().take(i + 1);
            let ghost held = ids@;
            ids.insert(self.services.value_at(i).runtime_id.clone(), ());
            proof {
                assert(after =~= before.push(self.services.values()[i as int]));
                assert forall|id: Seq<char>| #[trigger] ids@.contains_key(id) <==> runtime_used(
                    after,
                    id,
                ) by {
                    if held.contains_key(id) {
                        let j = choose|j: int|
                            0 <= j < before.len() && (#[trigger] before[j]).runtime_id@ == id;
                        assert(after[j].runtime_id@ == id);
                    }
                    if id == self.services.values()[i as int].runtime_id@ {
                        assert(after[i as int].runtime_id@ == id);
                    }
                    if runtime_used(after, id) {
                        let j = choose|j: int|
                            0 <= j < after.len() && (#[trigger] after[j]).runtime_id@ == id;
                        if j < i {
                            assert(before[j].runtime_id@ == id);
                        }
                    }
                }
            }
            i = i + 1;
        }
        assert(self.services.values().take(i as int) =~= self.services.values());
        ids
    }
}

proof fn lemma_all_picked<T>(s: Seq<T>, flags: Seq<bool>)
    requires
        s.len() == flags.len(),
        forall|i: int| 0 <= i < flags.len() ==> #[trigger] flags[i],
    ensures
        text_map::picked(s, flags, true) == s,
        text_map::picked(s, flags, false) == Seq::<T>::empty(),
    decreases s.len(),
{
    if s.len() > 0 {
        lemma_all_picked(s.drop_last(), flags.drop_last());
        assert(s.drop_last().push(s.last()) =~= s);
        assert(flags[s.len() - 1]);
    } else {
        assert(text_map::picked(s, flags, true) =~= s);
    }
}

/// Stopping the service of one proxy spares every other service, the ones of the
/// same proxy number in other workspaces among them.
pub proof fn law_one_service_is_stopped<C>(
    services: Map<Seq<char>, ManagedService<C>>,
    a: Seq<char>,
    i: nat,
    b: Seq<char>,
    j: nat,
)
    requires
        a != b || i != j,
    ensures
        ({
            let after = services.remove(service_key(a, i));
            &&& !after.contains_key(service_key(a, i))
            &&& after.contains_key(service_key(b, j)) == services.contains_key(service_key(b, j))
            &&& after[service_key(b, j)] == services[service_key(b, j)]
        }),
{
    if service_key(a, i) == service_key(b, j) {
        law_service_keys_differ(a, i, b, j);
    }
}

/// Stopping the services of a workspace stops all of them and no other.
pub proof fn law_one_workspace_is_stopped<C>(
    services: Seq<ManagedService<C>>,
    workspace_id: Seq<char>,
    i: int,
)
    requires
        0 <= i < services.len(),
    ensures
        services.filter(in_workspace(workspace_id)).contains(services[i]) <==> services[i].workspace_id@
            == workspace_id,
        services.filter(outside_workspace(workspace_id)).contains(services[i])
            <==> services[i].workspace_id@ != workspace_id,
{
    broadcast use vstd::seq_lib::group_filter_ensures;

    let taken = services.filter(in_workspace(workspace_id));
    let left = services.filter(outside_workspace(workspace_id));
    if taken.contains(services[i]) {
        let k = taken.index_of(services[i]);
        assert(in_workspace(workspace_id)(taken[k]));
    }
    if left.contains(services[i]) {
        let k = left.index_of(services[i]);
        assert(outside_workspace(workspace_id)(left[k]));
    }
}

/// Where two configurations differ in other proxies alone, a service matches
/// both or none: only the services of proxies that changed are stopped.
pub proof fn law_unchanged_proxy_keeps_its_service<C>(
    service: ManagedService<C>,
    old_text: Seq<char>,
    new_text: Seq<char>,
    old_document: Toml,
    new_document: Toml,
)
    requires
        toml_doc::parsed(old_text) == Some(old_document),
        toml_doc::parsed(new_text) == Some(new_document),
        old_document is Table,
        new_document is Table,
        old_document->Table_0.remove("proxies"@) == new_document->Table_0.remove("proxies"@),
        service.proxy_index < config::proxy_items(old_document).len(),
        service.proxy_index < config::proxy_items(new_document).len(),
        config::proxy_items(old_document)[service.proxy_index as int] == config::proxy_items(
            new_document,
        )[service.proxy_index as int],
    ensures
        matches_config(service, old_text) == matches_config(service, new_text),
{
    let proxy = config::proxy_items(old_document)[service.proxy_index as int];
    let m = old_document->Table_0;
    let n = new_document->Table_0;
    let only = Toml::Array(seq![proxy]);
    assert(m.insert("proxies"@, only) =~= m.remove("proxies"@).insert("proxies"@, only));
    assert(n.insert("proxies"@, only) =~= n.remove("proxies"@).insert("proxies"@, only));
}

} // verus!
