//! The engine: one owned object that holds the engine state, the captured
//! configuration, the stores and the dispatcher.
//!
//! Every operation is specified by a transition of [`GleanModel`]. What needs
//! the outside world comes in as a value: the caller prepares the data
//! directory and hands over what came of it, and either performs the uploads
//! itself, step by step, or lets the engine call the uploader that the
//! configuration carries.

use vstd::prelude::*;
use crate::dispatcher::{Dispatcher, DispatcherState, GLOBAL_DISPATCHER_LIMIT};
use crate::encoding::{make_path, spec_payload_bytes};
use crate::metrics::{
    clone_opt_string,
    opt_string_view,
    records_to_map,
    strings_view,
    CommonMetricData,
    Lifetime,
    Metric,
    MetricKey,
    MetricStore,
    MetricValue,
    Record,
};
use crate::model::{
    add_in_stores,
    client_info_id,
    distinct_identifiers,
    overflow_meta,
    record_in_stores,
    spec_next_id,
    spec_with_client_info,
    stored,
    upload_failure_meta,
    ClientInfoView,
    ConfigurationView,
    CoreModel,
    DataDirectoryView,
    EngineState,
    GleanModel,
    TaskView,
};
use crate::net::{PingUploader, UploadResult};
use crate::ping::{PingRegistry, PingType};
use crate::upload::{
    build_request,
    is_default_headers,
    is_first_match,
    views_of,
    PingRequest,
    PingStore,
    QueuedPing,
    UploadOutcome,
};

verus! {

/// What the engine is initialized with. It is captured by the first
/// initialization that finds its data directory and is not changed
/// afterwards.
pub struct Configuration {
    /// Where the engine keeps its data.
    pub data_path: String,
    /// The identifier of the application.
    pub application_id: String,
    /// Whether the engine has consent when it starts.
    pub upload_enabled: bool,
    /// The number of events that are kept before they are sent.
    pub max_events: Option<usize>,
    /// Whether the writing of ping-lifetime data is put off.
    pub delay_ping_lifetime_io: bool,
    /// The release channel of the application.
    pub channel: Option<String>,
    /// The server that pings go to, in place of the default one.
    pub server_endpoint: Option<String>,
    /// The uploader that delivers pings.
    pub uploader: Option<Box<dyn PingUploader>>,
}

impl View for Configuration {
    type V = ConfigurationView;

    open spec fn view(&self) -> ConfigurationView {
        ConfigurationView {
            data_path: self.data_path@,
            application_id: self.application_id@,
            upload_enabled: self.upload_enabled,
            max_events: self.max_events,
            delay_ping_lifetime_io: self.delay_ping_lifetime_io,
            channel: opt_string_view(self.channel),
            server_endpoint: opt_string_view(self.server_endpoint),
            has_uploader: self.uploader is Some,
        }
    }
}

/// The client's description of itself.
#[derive(Clone, Debug)]
pub struct ClientInfoMetrics {
    /// The build identifier of the application.
    pub app_build: String,
    /// The version of the application as the user sees it.
    pub app_display_version: String,
}

impl View for ClientInfoMetrics {
    type V = ClientInfoView;

    open spec fn view(&self) -> ClientInfoView {
        ClientInfoView {
            app_build: self.app_build@,
            app_display_version: self.app_display_version@,
        }
    }
}

impl ClientInfoMetrics {
    /// The description of a client of which nothing is known.
    pub fn unknown() -> (info: ClientInfoMetrics)
        ensures
            info.app_build@ == "Unknown"@,
            info.app_display_version@ == "Unknown"@,
    {
        ClientInfoMetrics {
            app_build: "Unknown".to_owned(),
            app_display_version: "Unknown".to_owned(),
        }
    }
}

/// One operation on the engine, as the dispatcher orders it.
#[derive(Debug)]
pub enum Task {
    /// Store a boolean.
    SetBoolean { meta: CommonMetricData, value: bool },
    /// Store a string.
    SetString { meta: CommonMetricData, text: String },
    /// Add to a counter.
    AddCounter { meta: CommonMetricData, amount: u64 },
    /// Register a ping definition.
    RegisterPing { ping: PingType },
    /// Assemble a ping and hand it to the ping store.
    SubmitPing { name: String, reason: Option<String> },
    /// Give or withdraw consent.
    SetUploadEnabled { enabled: bool },
}

impl View for Task {
    type V = TaskView;

    open spec fn view(&self) -> TaskView {
        match self {
            Task::SetBoolean { meta, value } => TaskView::Record {
                meta: meta@,
                value: MetricValue::Boolean(*value),
            },
            Task::SetString { meta, text } => TaskView::Record {
                meta: meta@,
                value: MetricValue::Text(text@),
            },
            Task::AddCounter { meta, amount } => TaskView::AddCounter {
                meta: meta@,
                amount: *amount as nat,
            },
            Task::RegisterPing { ping } => TaskView::RegisterPing { ping: ping@ },
            Task::SubmitPing { name, reason } => TaskView::SubmitPing {
                name: name@,
                reason: opt_string_view(*reason),
            },
            Task::SetUploadEnabled { enabled } => TaskView::SetUploadEnabled { enabled: *enabled },
        }
    }
}

/// What a data directory held when it was prepared.
#[derive(Debug)]
pub struct PersistedState {
    /// The recorded values.
    pub records: Vec<Record>,
    /// The pings that awaited delivery, the oldest first.
    pub pending: Vec<QueuedPing>,
    /// The identifier that the next ping was to get.
    pub next_document_id: u64,
}

impl PersistedState {
    /// What a new data directory holds: nothing.
    pub fn empty() -> (state: PersistedState)
        ensures
            state.records@.len() == 0,
            state.pending@.len() == 0,
            state.next_document_id == 0,
    {
        PersistedState { records: Vec::new(), pending: Vec::new(), next_document_id: 0 }
    }
}

/// What the preparation of the data directory came to.
#[derive(Debug)]
pub enum DataDirectory {
    /// The directory could not be prepared.
    Unavailable,
    /// The directory is there, and this is what it held.
    Prepared(PersistedState),
}

impl View for DataDirectory {
    type V = DataDirectoryView;

    open spec fn view(&self) -> DataDirectoryView {
        match self {
            DataDirectory::Unavailable => DataDirectoryView::Unavailable,
            DataDirectory::Prepared(state) => DataDirectoryView::Prepared {
                metrics: records_to_map(state.records@),
                pending: views_of(state.pending@),
                next_document_id: state.next_document_id as nat,
            },
        }
    }
}

/// Decides whether the identifiers of `pending` differ from one another.
pub fn has_distinct_identifiers(pending: &Vec<QueuedPing>) -> (distinct: bool)
    ensures
        distinct == distinct_identifiers(views_of(pending@)),
{
    let ghost views = views_of(pending@);
    let mut b: usize = 0;
    while b < pending.len()
        invariant
            b <= pending@.len(),
            views == views_of(pending@),
            forall|x: int, y: int|
                0 <= x < y < b ==> (#[trigger] views[x]).document_id != (
                #[trigger] views[y]).document_id,
        decreases pending@.len() - b,
    {
        let mut a: usize = 0;
        while a < b
            invariant
                a <= b < pending@.len(),
                views == views_of(pending@),
                forall|x: int|
                    0 <= x < a ==> (#[trigger] views[x]).document_id != views[b as int].document_id,
            decreases b - a,
        {
            if pending[a].document_id == pending[b].document_id {
                assert(views[a as int].document_id == views[b as int].document_id);
                return false;
            }
            a = a + 1;
        }
        b = b + 1;
    }
    true
}

impl DataDirectory {
    /// Decides whether the directory is in order: the identifiers of the
    /// pings found in it differ from one another.
    pub fn is_in_order(&self) -> (b: bool)
        ensures
            b == self@.wf(),
    {
        match self {
            DataDirectory::Unavailable => true,
            DataDirectory::Prepared(state) => has_distinct_identifiers(&state.pending),
        }
    }
}

/// The views of a sequence of tasks.
pub open spec fn task_views(tasks: Seq<Task>) -> Seq<TaskView> {
    tasks.map_values(|t: Task| t@)
}

/// The state of a dispatcher of tasks, with each task taken by its view.
pub open spec fn dispatcher_view(d: DispatcherState<Task>) -> DispatcherState<TaskView> {
    DispatcherState {
        preinit: task_views(d.preinit),
        live: task_views(d.live),
        flushed: d.flushed,
        capacity: d.capacity,
        overflow: d.overflow,
    }
}

/// Copies the declaration of a metric.
pub fn clone_metric_data(meta: &CommonMetricData) -> (copy: CommonMetricData)
    ensures
        copy@ == meta@,
{
    CommonMetricData {
        name: meta.name.clone(),
        category: meta.category.clone(),
        send_in_pings: crate::ping::clone_strings(&meta.send_in_pings),
        lifetime: meta.lifetime,
        disabled: meta.disabled,
        dynamic_label: clone_opt_string(&meta.dynamic_label),
    }
}

/// The declaration of the counter of tasks dropped before the engine was
/// ready.
pub fn overflow_metric() -> (meta: CommonMetricData)
    ensures
        meta@ == overflow_meta(),
{
    let mut pings: Vec<String> = Vec::new();
    pings.push("metrics".to_owned());
    let meta = CommonMetricData {
        name: "preinit_tasks_overflow".to_owned(),
        category: "glean.error".to_owned(),
        send_in_pings: pings,
        lifetime: Lifetime::Ping,
        disabled: false,
        dynamic_label: None,
    };
    assert(meta@.send_in_pings =~= seq!["metrics"@]);
    meta
}

/// The declaration of the counter of pings dropped after a failed upload,
/// under the label `label`.
pub fn upload_failure_metric(label: &str) -> (meta: CommonMetricData)
    ensures
        meta@ == upload_failure_meta(label@),
{
    let mut pings: Vec<String> = Vec::new();
    pings.push("metrics".to_owned());
    let meta = CommonMetricData {
        name: "ping_upload_failure".to_owned(),
        category: "glean.upload".to_owned(),
        send_in_pings: pings,
        lifetime: Lifetime::Ping,
        disabled: false,
        dynamic_label: Some(label.to_owned()),
    };
    assert(meta@.send_in_pings =~= seq!["metrics"@]);
    meta
}

/// Stores `value` for the metric `meta` in each store that the metric is
/// sent in.
pub fn record_in(metrics: &mut MetricStore, meta: &CommonMetricData, value: &Metric)
    ensures
        final(metrics)@ == record_in_stores(old(metrics)@, meta@, meta@.send_in_pings, value@),
{
    let ghost stores = meta@.send_in_pings;
    let mut i: usize = 0;
    while i < meta.send_in_pings.len()
        invariant
            i <= meta.send_in_pings@.len(),
            stores == strings_view(meta.send_in_pings@),
            metrics@ == record_in_stores(old(metrics)@, meta@, stores.take(i as int), value@),
        decreases meta.send_in_pings@.len() - i,
    {
        let key = MetricKey::for_store(meta, &meta.send_in_pings[i]);
        proof {
            assert(stores.take(i as int + 1).drop_last() =~= stores.take(i as int));
            assert(stores.take(i as int + 1).last() == meta.send_in_pings@[i as int]@);
        }
        metrics.insert(key, value.duplicate());
        i = i + 1;
    }
    assert(stores.take(i as int) =~= stores);
}

/// Adds `amount` to the counter `meta` in each store that the metric is sent
/// in.
pub fn add_in(metrics: &mut MetricStore, meta: &CommonMetricData, amount: u64)
    ensures
        final(metrics)@ == add_in_stores(old(metrics)@, meta@, meta@.send_in_pings, amount as nat),
{
    let ghost stores = meta@.send_in_pings;
    let mut i: usize = 0;
    while i < meta.send_in_pings.len()
        invariant
            i <= meta.send_in_pings@.len(),
            stores == strings_view(meta.send_in_pings@),
            metrics@ == add_in_stores(old(metrics)@, meta@, stores.take(i as int), amount as nat),
        decreases meta.send_in_pings@.len() - i,
    {
        let key = MetricKey::for_store(meta, &meta.send_in_pings[i]);
        proof {
            assert(stores.take(i as int + 1).drop_last() =~= stores.take(i as int));
            assert(stores.take(i as int + 1).last() == meta.send_in_pings@[i as int]@);
        }
        metrics.add_counter(key, amount);
        i = i + 1;
    }
    assert(stores.take(i as int) =~= stores);
}

/// The key of the entry `name` of the client's description.
pub fn client_info_key(name: &str) -> (key: MetricKey)
    ensures
        key@ == client_info_id(name@),
{
    MetricKey {
        lifetime: Lifetime::Application,
        store: "glean_client_info".to_owned(),
        category: String::new(),
        name: name.to_owned(),
        label: None,
    }
}

/// The view of an optional description of the client.
pub open spec fn opt_info_view(info: Option<ClientInfoMetrics>) -> Option<ClientInfoView> {
    match info {
        Some(i) => Some(i@),
        None => None,
    }
}

/// The view of an optional configuration.
pub open spec fn opt_config_view(config: Option<Configuration>) -> Option<ConfigurationView> {
    match config {
        Some(c) => Some(c@),
        None => None,
    }
}

/// Writes the client's description into the store.
pub fn write_client_info(
    metrics: &mut MetricStore,
    info: &Option<ClientInfoMetrics>,
    channel: &Option<String>,
)
    ensures
        final(metrics)@ == spec_with_client_info(
            old(metrics)@,
            opt_info_view(*info),
            opt_string_view(*channel),
        ),
{
    match info {
        Some(i) => {
            metrics.insert(client_info_key("app_build"), Metric::Text(i.app_build.clone()));
            metrics.insert(
                client_info_key("app_display_version"),
                Metric::Text(i.app_display_version.clone()),
            );
        },
        None => {},
    }
    match channel {
        Some(c) => {
            metrics.insert(client_info_key("app_channel"), Metric::Text(c.clone()));
        },
        None => {},
    }
}

/// The identifier that the next ping gets, given the pings found in the data
/// directory and the identifier recorded there.
pub fn next_id_after(pending: &Vec<QueuedPing>, floor: u64) -> (next: u64)
    ensures
        next == spec_next_id(views_of(pending@), floor as nat),
{
    let ghost views = views_of(pending@);
    let mut next: u64 = floor;
    let mut i: usize = 0;
    while i < pending.len()
        invariant
            i <= pending@.len(),
            views == views_of(pending@),
            next == spec_next_id(views.take(i as int), floor as nat),
        decreases pending@.len() - i,
    {
        proof {
            assert(views.take(i as int + 1).drop_last() =~= views.take(i as int));
            assert(views.take(i as int + 1).last() == pending@[i as int]@);
        }
        let id = pending[i].document_id;
        let after: u64 = if id >= u64::MAX {
            u64::MAX
        } else {
            id + 1
        };
        if after > next {
            next = after;
        }
        i = i + 1;
    }
    assert(views.take(i as int) =~= views);
    next
}

/// The engine.
pub struct Glean {
    state: EngineState,
    config: Option<Configuration>,
    client_info: Option<ClientInfoMetrics>,
    upload_enabled: bool,
    metrics: MetricStore,
    registry: PingRegistry,
    pings: PingStore,
    next_document_id: u64,
    dispatcher: Dispatcher<Task>,
    test_mode: bool,
}

impl View for Glean {
    type V = GleanModel;

    closed spec fn view(&self) -> GleanModel {
        GleanModel {
            core: CoreModel {
                state: self.state,
                config: opt_config_view(self.config),
                client_info: opt_info_view(self.client_info),
                upload_enabled: self.upload_enabled,
                metrics: self.metrics@,
                registry: self.registry@,
                pending: self.pings@,
                next_document_id: self.next_document_id as nat,
            },
            dispatcher: dispatcher_view(self.dispatcher@),
            test_mode: self.test_mode,
        }
    }
}

impl Glean {
    /// An engine that nobody has initialized.
    pub fn new() -> (glean: Glean)
        ensures
            glean@ == GleanModel::initial(),
            glean@.wf(),
    {
        Glean::with_dispatcher_limit(GLOBAL_DISPATCHER_LIMIT)
    }

    /// An engine that nobody has initialized, whose dispatcher buffers up to
    /// `limit` tasks before the engine is ready.
    pub fn with_dispatcher_limit(limit: usize) -> (glean: Glean)
        ensures
            glean@ == GleanModel::with_limit(limit as nat),
            glean@.wf(),
    {
        let glean = Glean {
            state: EngineState::Uninitialized,
            config: None,
            client_info: None,
            upload_enabled: false,
            metrics: MetricStore::new(),
            registry: PingRegistry::new(),
            pings: PingStore::new(),
            next_document_id: 0,
            dispatcher: Dispatcher::new(limit),
            test_mode: false,
        };
        assert(glean@.dispatcher =~= DispatcherState::<TaskView>::initial(limit as nat));
        assert(glean@ =~= GleanModel::with_limit(limit as nat));
        glean
    }

    /// Where the engine stands in its life.
    pub fn state(&self) -> (state: EngineState)
        ensures
            state == self@.core.state,
    {
        self.state
    }

    /// Whether the engine is ready.
    pub fn is_initialized(&self) -> (b: bool)
        ensures
            b == (self@.core.state == EngineState::Ready),
    {
        self.state == EngineState::Ready
    }

    /// Whether the engine has consent.
    pub fn is_upload_enabled(&self) -> (b: bool)
        ensures
            b == self@.core.upload_enabled,
    {
        self.upload_enabled
    }

    /// Whether launched tasks run at once.
    pub fn is_test_mode(&self) -> (b: bool)
        ensures
            b == self@.test_mode,
    {
        self.test_mode
    }

    /// The application identifier in effect, once a configuration has been
    /// captured.
    pub fn application_id(&self) -> (id: Option<String>)
        ensures
            match id {
                Some(text) => self@.core.config is Some && text@ == self@.core.application_id(),
                None => self@.core.config is None,
            },
    {
        match &self.config {
            Some(c) => Some(c.application_id.clone()),
            None => None,
        }
    }

    /// The number of pings that await delivery.
    pub fn pending_ping_count(&self) -> (n: usize)
        ensures
            n == self@.core.pending.len(),
    {
        self.pings.len()
    }

    /// The pings that await delivery, the oldest first.
    pub fn pending_pings(&self) -> (pings: &Vec<QueuedPing>)
        ensures
            views_of(pings@) == self@.core.pending,
    {
        self.pings.pings()
    }

    /// The records of the metric store.
    pub fn stored_records(&self) -> (records: &Vec<Record>)
        ensures
            records_to_map(records@) == self@.core.metrics,
    {
        self.metrics.records()
    }

    /// The number of tasks that wait in the buffer for the engine to become
    /// ready.
    pub fn buffered_task_count(&self) -> (n: usize)
        ensures
            n == self@.dispatcher.preinit.len(),
    {
        self.dispatcher.preinit_len()
    }

    /// The number of tasks that wait for the worker.
    pub fn waiting_task_count(&self) -> (n: usize)
        ensures
            n == self@.dispatcher.live.len(),
    {
        self.dispatcher.pending_len()
    }

    /// The number of tasks dropped because the buffer was full.
    pub fn dropped_task_count(&self) -> (n: usize)
        ensures
            n == self@.dispatcher.overflow,
    {
        self.dispatcher.overflow_count()
    }

    /// The value stored under `key`, if there is one.
    pub fn get_metric(&self, key: &MetricKey) -> (value: Option<Metric>)
        ensures
            match value {
                Some(v) => stored(self@.core.metrics, key@) == Some(v@),
                None => stored(self@.core.metrics, key@) is None,
            },
    {
        self.metrics.get(key)
    }

    /// Stores `value` for the metric `meta`, where the engine records and the
    /// metric is enabled.
    fn record(&mut self, meta: &CommonMetricData, value: &Metric)
        ensures
            final(self)@.core == old(self)@.core.record(meta@, value@),
            final(self)@.dispatcher == old(self)@.dispatcher,
            final(self)@.test_mode == old(self)@.test_mode,
            final(self).dispatcher@ == old(self).dispatcher@,
    {
        if self.state == EngineState::Ready && self.upload_enabled && !meta.disabled {
            record_in(&mut self.metrics, meta, value);
        }
    }

    /// Adds `amount` to the counter `meta`, where the engine records, the
    /// metric is enabled and the amount is positive.
    fn add_counter(&mut self, meta: &CommonMetricData, amount: u64)
        ensures
            final(self)@.core == old(self)@.core.add_counter(meta@, amount as nat),
            final(self)@.dispatcher == old(self)@.dispatcher,
            final(self)@.test_mode == old(self)@.test_mode,
            final(self).dispatcher@ == old(self).dispatcher@,
    {
        if self.state == EngineState::Ready && self.upload_enabled && !meta.disabled && amount
            > 0 {
            add_in(&mut self.metrics, meta, amount);
        }
    }

    /// The application identifier in effect, or the empty text where no
    /// configuration has been captured.
    fn application_id_or_empty(&self) -> (id: String)
        ensures
            id@ == self@.core.application_id(),
    {
        match &self.config {
            Some(c) => c.application_id.clone(),
            None => String::new(),
        }
    }

    /// Assembles the ping `name` now.
    fn assemble(&self, name: &String, reason: Option<String>, include_client_id: bool) -> (ping:
        QueuedPing)
        ensures
            ping@ == self@.core.assemble(name@, opt_string_view(reason), include_client_id),
    {
        let application_id = self.application_id_or_empty();
        QueuedPing {
            document_id: self.next_document_id,
            name: name.clone(),
            path: make_path(&application_id, name, self.next_document_id),
            reason,
            payload: self.metrics.snapshot_for_ping(name, include_client_id),
            attempts: 0,
        }
    }

    /// Submits the ping `name`: where it is registered and is to be sent, it
    /// is assembled and joins the pings that await delivery.
    fn submit_ping(&mut self, name: &String, reason: &Option<String>)
        ensures
            final(self)@.core == old(self)@.core.submit_ping(name@, opt_string_view(*reason)),
            final(self)@.dispatcher == old(self)@.dispatcher,
            final(self)@.test_mode == old(self)@.test_mode,
            final(self).dispatcher@ == old(self).dispatcher@,
    {
        let (include_client_id, send_if_empty, checked) = match self.registry.lookup(name) {
            Some(definition) => {
                assert(definition@.name == name@);
                (
                    definition.include_client_id,
                    definition.send_if_empty,
                    definition.checked_reason(reason),
                )
            },
            None => {
                return ;
            },
        };
        if self.state == EngineState::Ready && self.upload_enabled && self.next_document_id
            < u64::MAX {
            let own = self.metrics.snapshot_for_ping(name, false);
            if send_if_empty || !own.is_empty() {
                let ping = self.assemble(name, checked, include_client_id);
                self.pings.enqueue(ping);
                self.next_document_id = self.next_document_id + 1;
                self.metrics.clear_ping_lifetime(name);
            }
        }
    }

    /// Gives or withdraws consent.
    fn apply_upload_enabled(&mut self, enabled: bool)
        ensures
            final(self)@.core == old(self)@.core.set_upload_enabled(enabled),
            final(self)@.dispatcher == old(self)@.dispatcher,
            final(self)@.test_mode == old(self)@.test_mode,
            final(self).dispatcher@ == old(self).dispatcher@,
    {
        if self.state != EngineState::Ready || enabled == self.upload_enabled {
            return ;
        }
        if enabled {
            self.upload_enabled = true;
            let channel = match &self.config {
                Some(c) => clone_opt_string(&c.channel),
                None => None,
            };
            write_client_info(&mut self.metrics, &self.client_info, &channel);
        } else {
            self.pings.clear();
            if self.next_document_id < u64::MAX {
                let name = "deletion-request".to_owned();
                let ping = self.assemble(&name, None, true);
                self.pings.enqueue(ping);
                self.next_document_id = self.next_document_id + 1;
                assert(self.pings@ =~= seq![ping@]);
            }
            self.metrics.clear_non_exempt();
            self.upload_enabled = false;
        }
    }

    /// Runs `task`.
    fn execute(&mut self, task: Task)
        ensures
            final(self)@.core == old(self)@.core.apply(task@),
            final(self)@.dispatcher == old(self)@.dispatcher,
            final(self)@.test_mode == old(self)@.test_mode,
            final(self).dispatcher@ == old(self).dispatcher@,
    {
        match task {
            Task::SetBoolean { meta, value } => {
                self.record(&meta, &Metric::Boolean(value));
            },
            Task::SetString { meta, text } => {
                self.record(&meta, &Metric::Text(text));
            },
            Task::AddCounter { meta, amount } => {
                self.add_counter(&meta, amount);
            },
            Task::RegisterPing { ping } => {
                let _ = self.registry.register(ping);
            },
            Task::SubmitPing { name, reason } => {
                self.submit_ping(&name, &reason);
            },
            Task::SetUploadEnabled { enabled } => {
                self.apply_upload_enabled(enabled);
            },
        }
    }

    /// Lets the worker run the oldest waiting task. Returns whether there
    /// was one.
    pub fn run_next(&mut self) -> (ran: bool)
        ensures
            final(self)@ == old(self)@.run_next(),
            ran == (old(self)@.dispatcher.live.len() > 0),
            old(self)@.wf() ==> final(self)@.wf(),
    {
        match self.dispatcher.next_task() {
            Some(task) => {
                assert(task_views(old(self).dispatcher@.live)[0] == task@);
                assert(task_views(old(self).dispatcher@.live).drop_first() =~= task_views(
                    old(self).dispatcher@.live.drop_first(),
                ));
                proof {
                    crate::model::lemma_apply_keeps_identity(old(self)@.core, task@);
                    if old(self)@.wf() {
                        crate::model::lemma_apply_keeps_identifiers(old(self)@.core, task@);
                    }
                }
                self.execute(task);
                true
            },
            None => false,
        }
    }

    /// Runs every waiting task, the oldest first, and returns when none is
    /// left.
    pub fn block_on_queue(&mut self)
        ensures
            final(self)@ == old(self)@.run_all(),
            old(self)@.with_mode(false).wf() ==> final(self)@.wf(),
    {
        loop
            invariant
                self@.run_all() == old(self)@.run_all(),
            ensures
                self@.dispatcher.live.len() == 0,
                self@.run_all() == old(self)@.run_all(),
            decreases self@.dispatcher.live.len(),
        {
            let ghost before = self@;
            let ran = self.run_next();
            if !ran {
                break ;
            }
            proof {
                let live = before.dispatcher.live;
                assert(before.run_next().dispatcher.live =~= live.drop_first());
                assert(before.run_next().run_all() =~= before.run_all());
            }
        }
        proof {
            assert(self@.run_all() =~= self@);
            if old(self)@.with_mode(false).wf() {
                crate::model::lemma_run_all_wf(old(self)@);
            }
        }
    }

    /// Runs what waits before the process ends, so that nothing that was
    /// launched is lost.
    pub fn shutdown(&mut self)
        ensures
            final(self)@ == old(self)@.run_all(),
            old(self)@.with_mode(false).wf() ==> final(self)@.wf(),
    {
        self.block_on_queue();
    }

    /// Launches `task`. The task is buffered until the engine is ready,
    /// dropped and counted where the buffer is full, and put in the live
    /// queue once the engine is ready; in test mode it runs before the call
    /// returns. The caller learns of no failure.
    pub fn launch(&mut self, task: Task)
        ensures
            final(self)@ == old(self)@.launch(task@),
            old(self)@.wf() ==> final(self)@.wf(),
    {
        let ghost before = self.dispatcher@;
        let _ = self.dispatcher.launch(task);
        proof {
            assert(dispatcher_view(before.launch(task)) =~= dispatcher_view(before).launch(task@));
            if old(self)@.wf() {
                crate::model::lemma_launch_wf(old(self)@, task@);
            }
        }
        if self.test_mode {
            self.block_on_queue();
        }
    }

    /// Asks for an initialization. Where none is under way or done, the call
    /// captures the configuration and returns the path of the data directory
    /// that the caller is to prepare; otherwise it changes nothing and
    /// returns nothing.
    pub fn begin_initialize(
        &mut self,
        config: Configuration,
        client_info: ClientInfoMetrics,
        test_mode: bool,
    ) -> (data_path: Option<String>)
        ensures
            final(self)@ == old(self)@.begin_initialize(config@, client_info@, test_mode),
            match data_path {
                Some(path) => old(self)@.starts_initialization() && path@ == config.data_path@,
                None => !old(self)@.starts_initialization(),
            },
            old(self)@.wf() ==> final(self)@.wf(),
    {
        if self.state == EngineState::Uninitialized || self.state == EngineState::InitFailed {
            let path = config.data_path.clone();
            self.upload_enabled = config.upload_enabled;
            self.config = Some(config);
            self.client_info = Some(client_info);
            self.test_mode = test_mode;
            self.state = EngineState::Initializing;
            assert(self@ =~= old(self)@.begin_initialize(config@, client_info@, test_mode));
            Some(path)
        } else {
            None
        }
    }

    /// Completes the initialization once the caller has prepared the data
    /// directory, or failed to. Where the directory is there and in order,
    /// the engine becomes ready and the buffered tasks are flushed to the
    /// live queue; where it is not, the engine goes on in the failed state.
    /// Where no initialization waits for the directory, the call changes
    /// nothing.
    pub fn finish_initialize(&mut self, directory: DataDirectory)
        ensures
            final(self)@ == old(self)@.finish_initialize(directory@),
            old(self)@.wf() ==> final(self)@.wf(),
    {
        proof {
            if old(self)@.wf() {
                crate::model::lemma_initialize_wf(
                    old(self)@,
                    arbitrary::<ConfigurationView>(),
                    arbitrary::<ClientInfoView>(),
                    true,
                    directory@,
                );
            }
        }
        if self.state != EngineState::Initializing {
            return ;
        }
        if !directory.is_in_order() {
            self.state = EngineState::InitFailed;
            return ;
        }
        match directory {
            DataDirectory::Unavailable => {
                self.state = EngineState::InitFailed;
            },
            DataDirectory::Prepared(persisted) => {
                let PersistedState { records, pending, next_document_id } = persisted;
                let next = next_id_after(&pending, next_document_id);
                let mut metrics = MetricStore::from_records(records);
                if self.upload_enabled {
                    let channel = match &self.config {
                        Some(c) => clone_opt_string(&c.channel),
                        None => None,
                    };
                    write_client_info(&mut metrics, &self.client_info, &channel);
                } else {
                    metrics.clear_non_exempt();
                }
                self.metrics = metrics;
                self.pings = PingStore::from_pings(pending);
                self.next_document_id = next;
                self.state = EngineState::Ready;
                let dropped = self.dispatcher.overflow_count();
                let ghost before = self.dispatcher@;
                let _ = self.dispatcher.flush_init();
                proof {
                    assert(dispatcher_view(before.flush_init()) =~= dispatcher_view(
                        before,
                    ).flush_init());
                }
                if dropped > 0 {
                    let ghost flushed = self.dispatcher@;
                    let task = Task::AddCounter { meta: overflow_metric(), amount: dropped as u64 };
                    let _ = self.dispatcher.launch(task);
                    proof {
                        assert(dispatcher_view(flushed.launch(task)) =~= dispatcher_view(
                            flushed,
                        ).launch(task@));
                    }
                }
                if self.test_mode {
                    self.block_on_queue();
                }
            },
        }
    }

    /// Initializes the engine, given what the preparation of the data
    /// directory came to. Where an initialization is under way or done, the
    /// call changes nothing.
    pub fn initialize(
        &mut self,
        config: Configuration,
        client_info: ClientInfoMetrics,
        test_mode: bool,
        directory: DataDirectory,
    )
        ensures
            final(self)@ == if old(self)@.starts_initialization() {
                old(self)@.begin_initialize(config@, client_info@, test_mode).finish_initialize(
                    directory@,
                )
            } else {
                old(self)@
            },
            old(self)@.wf() ==> final(self)@.wf(),
    {
        match self.begin_initialize(config, client_info, test_mode) {
            Some(_) => {
                self.finish_initialize(directory);
            },
            None => {},
        }
    }

    /// Gives or withdraws consent, as a task that the dispatcher orders with
    /// the others.
    pub fn set_upload_enabled(&mut self, enabled: bool)
        ensures
            final(self)@ == old(self)@.launch(TaskView::SetUploadEnabled { enabled }),
            old(self)@.wf() ==> final(self)@.wf(),
    {
        self.launch(Task::SetUploadEnabled { enabled });
    }

    /// Registers the ping definition `ping`, as a task that the dispatcher
    /// orders with the others.
    pub fn register_ping_type(&mut self, ping: &PingType)
        ensures
            final(self)@ == old(self)@.launch(TaskView::RegisterPing { ping: ping@ }),
            old(self)@.wf() ==> final(self)@.wf(),
    {
        self.launch(Task::RegisterPing { ping: ping.duplicate() });
    }

    /// Submits the ping `name`, as a task that the dispatcher orders with the
    /// others.
    pub fn submit_ping_by_name(&mut self, name: &str, reason: Option<&str>)
        ensures
            final(self)@ == old(self)@.launch(
                TaskView::SubmitPing {
                    name: name@,
                    reason: match reason {
                        Some(r) => Some(r@),
                        None => None,
                    },
                },
            ),
            old(self)@.wf() ==> final(self)@.wf(),
    {
        let reason = match reason {
            Some(r) => Some(r.to_owned()),
            None => None,
        };
        self.launch(Task::SubmitPing { name: name.to_owned(), reason });
    }

    /// The server that pings go to.
    fn endpoint(&self) -> (endpoint: String)
        ensures
            endpoint@ == self@.core.endpoint(),
    {
        match &self.config {
            Some(c) => match &c.server_endpoint {
                Some(e) => e.clone(),
                None => "https://incoming.telemetry.mozilla.org".to_owned(),
            },
            None => "https://incoming.telemetry.mozilla.org".to_owned(),
        }
    }

    /// The request for the ping that is to be uploaded next, if the engine is
    /// ready and a ping awaits delivery.
    pub fn next_upload_request(&self) -> (request: Option<PingRequest>)
        ensures
            request is Some <==> (self@.core.state == EngineState::Ready && self@.core.pending.len()
                > 0),
            match request {
                Some(r) => {
                    &&& r.document_id == self@.core.pending[0].document_id
                    &&& r.url@ == self@.core.endpoint() + self@.core.pending[0].path
                    &&& is_default_headers(r.headers@)
                    &&& exists|records: Seq<Record>|
                        records_to_map(records) == self@.core.pending[0].payload && r.body@
                            == #[trigger] spec_payload_bytes(records)
                },
                None => true,
            },
    {
        if self.state != EngineState::Ready {
            return None;
        }
        match self.pings.front() {
            Some(ping) => {
                let endpoint = self.endpoint();
                let request = build_request(ping, &endpoint);
                proof {
                    ping.payload.lemma_records_view();
                }
                Some(request)
            },
            None => None,
        }
    }

    /// Processes the uploader's answer `result` for the ping `document_id`
    /// and reports what became of the ping. A delivered ping and a ping
    /// whose upload failed for good leave the store; a ping whose upload may
    /// be cured later stays until its last permitted attempt has failed.
    /// Dropped pings are counted.
    pub fn process_upload_response(&mut self, document_id: u64, result: UploadResult) -> (outcome:
        UploadOutcome)
        ensures
            final(self)@ == old(self)@.process_upload_response(document_id as nat, result),
            outcome == old(self)@.core.upload_outcome(document_id as nat, result),
            old(self)@.wf() ==> final(self)@.wf(),
    {
        proof {
            if old(self)@.wf() {
                crate::model::lemma_upload_keeps_identifiers(
                    old(self)@.core,
                    document_id as nat,
                    result,
                );
            }
        }
        if self.state != EngineState::Ready {
            return UploadOutcome::UnknownPing;
        }
        let outcome = self.pings.process_response(document_id, result);
        match outcome {
            UploadOutcome::DroppedAfterRetries => {
                let meta = upload_failure_metric("recoverable");
                self.add_counter(&meta, 1);
            },
            UploadOutcome::DroppedUnrecoverable => {
                let meta = upload_failure_metric("unrecoverable");
                self.add_counter(&meta, 1);
            },
            _ => {},
        }
        outcome
    }

    /// Hands `request` to the uploader that the configuration carries, if
    /// there is one, and returns its answer.
    fn call_uploader(&self, request: PingRequest) -> (result: Option<UploadResult>)
        ensures
            result is Some <==> self@.core.has_uploader(),
    {
        match &self.config {
            Some(c) => match &c.uploader {
                Some(uploader) => Some(
                    uploader.upload(request.url, request.body, request.headers),
                ),
                None => None,
            },
            None => None,
        }
    }

    /// Makes one pass over the pings that await delivery: each is handed to
    /// the uploader that the configuration carries, the oldest first, and the
    /// answer is processed. Returns the answers in the order in which they
    /// came. Nothing is tried where the engine is not ready or has no
    /// uploader.
    pub fn upload_pending(&mut self) -> (results: Vec<UploadResult>)
        ensures
            results@.len() == old(self)@.core.uploads_in_pass(),
            final(self)@ == old(self)@.drain(results@),
            old(self)@.wf() ==> final(self)@.wf(),
    {
        let mut results: Vec<UploadResult> = Vec::new();
        let has_uploader = match &self.config {
            Some(c) => c.uploader.is_some(),
            None => false,
        };
        let count: usize = if self.state == EngineState::Ready && has_uploader {
            self.pings.len()
        } else {
            0
        };
        let mut i: usize = 0;
        while i < count
            invariant
                i <= count,
                results@.len() == i,
                count == old(self)@.core.uploads_in_pass(),
                self@ == old(self)@.drain(results@),
                self@.core.pending.len() + i >= count,
                count > 0 ==> self@.core.state == EngineState::Ready && self@.core.has_uploader(),
                old(self)@.wf() ==> self@.wf(),
            decreases count - i,
        {
            let ghost before = self@;
            let request = self.next_upload_request();
            match request {
                Some(request) => {
                    let document_id = request.document_id;
                    match self.call_uploader(request) {
                        Some(result) => {
                            proof {
                                assert(is_first_match(
                                    before.core.pending,
                                    document_id as nat,
                                    0,
                                ));
                                let c = choose|k: int|
                                    is_first_match(before.core.pending, document_id as nat, k);
                                crate::upload::lemma_first_match_unique(
                                    before.core.pending,
                                    document_id as nat,
                                    0,
                                    c,
                                );
                            }
                            let ghost prior = results@;
                            let _ = self.process_upload_response(document_id, result);
                            results.push(result);
                            proof {
                                assert(results@.drop_last() =~= prior);
                                assert(results@.last() == result);
                            }
                        },
                        None => {
                            proof {
                                assert(false);
                            }
                        },
                    }
                },
                None => {
                    proof {
                        assert(false);
                    }
                },
            }
            i = i + 1;
        }
        results
    }
}

} // verus!
