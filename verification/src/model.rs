//! The engine as a state machine over mathematical values.
//!
//! [`CoreModel`] is what the tasks act on: the engine state, the captured
//! configuration, the consent flag, the metric store, the ping registry and
//! the pings that await delivery. [`GleanModel`] adds the dispatcher, which
//! decides when a task acts. The executable engine is specified by the
//! transitions defined here, and the laws of the engine are proved of them.

use vstd::prelude::*;
use crate::dispatcher::{
    lemma_launch_all_wf,
    lemma_overflow_policy,
    min_nat,
    DispatcherState,
    GLOBAL_DISPATCHER_LIMIT,
};
use crate::encoding::spec_path;
use crate::metrics::{
    client_info_store,
    counter_after,
    exempt_keys,
    is_exempt,
    keys_for_ping,
    keys_kept_after_send,
    spec_metric_id,
    CommonMetricDataView,
    Lifetime,
    MetricId,
    MetricValue,
};
use crate::net::UploadResult;
use crate::ping::{is_registered, is_registered_at, spec_checked_reason, spec_lookup, spec_register, PingTypeView};
use crate::upload::{
    first_position,
    is_first_match,
    spec_after_response,
    spec_outcome,
    QueuedPingView,
    UploadOutcome,
    MAX_UPLOAD_ATTEMPTS,
};

verus! {

/// Where the engine stands in its life.
#[derive(Clone, Copy, Debug, PartialEq, Eq, Structural)]
pub enum EngineState {
    /// No initialization has been asked for.
    Uninitialized,
    /// An initialization has captured its configuration and waits for the
    /// data directory.
    Initializing,
    /// The engine records and sends.
    Ready,
    /// The data directory could not be prepared. The engine accepts
    /// operations and records nothing.
    InitFailed,
}

/// The mathematical content of a configuration.
pub struct ConfigurationView {
    pub data_path: Seq<char>,
    pub application_id: Seq<char>,
    pub upload_enabled: bool,
    pub max_events: Option<usize>,
    pub delay_ping_lifetime_io: bool,
    pub channel: Option<Seq<char>>,
    pub server_endpoint: Option<Seq<char>>,
    pub has_uploader: bool,
}

/// The mathematical content of the client's description.
pub struct ClientInfoView {
    pub app_build: Seq<char>,
    pub app_display_version: Seq<char>,
}

/// The mathematical content of a task.
pub enum TaskView {
    /// Store `value` for the metric declared by `meta`.
    Record { meta: CommonMetricDataView, value: MetricValue },
    /// Add `amount` to the counter declared by `meta`.
    AddCounter { meta: CommonMetricDataView, amount: nat },
    /// Register the ping definition `ping`.
    RegisterPing { ping: PingTypeView },
    /// Assemble the ping `name` and hand it to the ping store.
    SubmitPing { name: Seq<char>, reason: Option<Seq<char>> },
    /// Give or withdraw consent.
    SetUploadEnabled { enabled: bool },
}

/// What the preparation of the data directory came to.
pub enum DataDirectoryView {
    /// The directory could not be prepared.
    Unavailable,
    /// The directory is there, and this is what it held.
    Prepared {
        metrics: Map<MetricId, MetricValue>,
        pending: Seq<QueuedPingView>,
        next_document_id: nat,
    },
}

impl DataDirectoryView {
    /// What holds of a data directory that is in order: the recorded
    /// identifier fits in 64 bits, and the identifiers of the pings differ
    /// from one another.
    pub open spec fn wf(self) -> bool {
        match self {
            DataDirectoryView::Unavailable => true,
            DataDirectoryView::Prepared { pending, next_document_id, .. } => {
                &&& next_document_id <= u64::MAX
                &&& distinct_identifiers(pending)
            },
        }
    }
}

/// The name of the ping that asks the server to delete the client's data.
pub open spec fn deletion_request_name() -> Seq<char> {
    "deletion-request"@
}

/// The server that pings go to where the configuration names none.
pub open spec fn default_endpoint() -> Seq<char> {
    "https://incoming.telemetry.mozilla.org"@
}

/// The identity of an entry of the client's description.
pub open spec fn client_info_id(name: Seq<char>) -> MetricId {
    MetricId {
        lifetime: Lifetime::Application,
        store: client_info_store(),
        category: Seq::empty(),
        name,
        label: None,
    }
}

/// The store with the client's description written into it.
pub open spec fn spec_with_client_info(
    metrics: Map<MetricId, MetricValue>,
    info: Option<ClientInfoView>,
    channel: Option<Seq<char>>,
) -> Map<MetricId, MetricValue> {
    let described = match info {
        Some(i) => metrics.insert(
            client_info_id("app_build"@),
            MetricValue::Text(i.app_build),
        ).insert(client_info_id("app_display_version"@), MetricValue::Text(i.app_display_version)),
        None => metrics,
    };
    match channel {
        Some(c) => described.insert(client_info_id("app_channel"@), MetricValue::Text(c)),
        None => described,
    }
}

/// The declaration of the counter of tasks dropped before the engine was
/// ready.
pub open spec fn overflow_meta() -> CommonMetricDataView {
    CommonMetricDataView {
        name: "preinit_tasks_overflow"@,
        category: "glean.error"@,
        send_in_pings: seq!["metrics"@],
        lifetime: Lifetime::Ping,
        disabled: false,
        dynamic_label: None,
    }
}

/// The declaration of the counter of pings dropped after a failed upload,
/// under the given label.
pub open spec fn upload_failure_meta(label: Seq<char>) -> CommonMetricDataView {
    CommonMetricDataView {
        name: "ping_upload_failure"@,
        category: "glean.upload"@,
        send_in_pings: seq!["metrics"@],
        lifetime: Lifetime::Ping,
        disabled: false,
        dynamic_label: Some(label),
    }
}

/// The label under which pings dropped after their last permitted attempt
/// are counted.
pub open spec fn recoverable_label() -> Seq<char> {
    "recoverable"@
}

/// The label under which pings dropped after a failure for good are counted.
pub open spec fn unrecoverable_label() -> Seq<char> {
    "unrecoverable"@
}

/// The store after `value` is recorded for the metric `meta` in each of
/// `stores`.
pub open spec fn record_in_stores(
    metrics: Map<MetricId, MetricValue>,
    meta: CommonMetricDataView,
    stores: Seq<Seq<char>>,
    value: MetricValue,
) -> Map<MetricId, MetricValue>
    decreases stores.len(),
{
    if stores.len() == 0 {
        metrics
    } else {
        record_in_stores(metrics, meta, stores.drop_last(), value).insert(
            spec_metric_id(meta, stores.last()),
            value,
        )
    }
}

/// What a store holds under `id`, if anything.
pub open spec fn stored(metrics: Map<MetricId, MetricValue>, id: MetricId) -> Option<MetricValue> {
    if metrics.contains_key(id) {
        Some(metrics[id])
    } else {
        None
    }
}

/// The store after `amount` is added to the counter `meta` in each of
/// `stores`.
pub open spec fn add_in_stores(
    metrics: Map<MetricId, MetricValue>,
    meta: CommonMetricDataView,
    stores: Seq<Seq<char>>,
    amount: nat,
) -> Map<MetricId, MetricValue>
    decreases stores.len(),
{
    if stores.len() == 0 {
        metrics
    } else {
        let before = add_in_stores(metrics, meta, stores.drop_last(), amount);
        let id = spec_metric_id(meta, stores.last());
        before.insert(id, counter_after(stored(before, id), amount))
    }
}

/// The identifier that the next ping gets, given the pings found in the data
/// directory and the identifier recorded there: the least number that is no
/// less than the recorded one and greater than every identifier in use, as
/// far as a 64-bit number can hold it.
pub open spec fn spec_next_id(pending: Seq<QueuedPingView>, floor: nat) -> nat
    decreases pending.len(),
{
    if pending.len() == 0 {
        floor
    } else {
        let rest = spec_next_id(pending.drop_last(), floor);
        let id = pending.last().document_id;
        let after = if id >= u64::MAX {
            u64::MAX as nat
        } else {
            id + 1
        };
        if after > rest {
            after
        } else {
            rest
        }
    }
}

/// What the tasks act on.
#[verifier::ext_equal]
pub struct CoreModel {
    pub state: EngineState,
    pub config: Option<ConfigurationView>,
    pub client_info: Option<ClientInfoView>,
    pub upload_enabled: bool,
    pub metrics: Map<MetricId, MetricValue>,
    pub registry: Seq<PingTypeView>,
    pub pending: Seq<QueuedPingView>,
    pub next_document_id: nat,
}

impl CoreModel {
    /// The core of an engine that nobody has initialized.
    pub open spec fn initial() -> CoreModel {
        CoreModel {
            state: EngineState::Uninitialized,
            config: None,
            client_info: None,
            upload_enabled: false,
            metrics: Map::empty(),
            registry: Seq::empty(),
            pending: Seq::empty(),
            next_document_id: 0,
        }
    }

    /// Whether the engine records: it is ready and has consent.
    pub open spec fn records(self) -> bool {
        self.state == EngineState::Ready && self.upload_enabled
    }

    /// The application identifier in effect.
    pub open spec fn application_id(self) -> Seq<char> {
        match self.config {
            Some(c) => c.application_id,
            None => Seq::empty(),
        }
    }

    /// The channel in effect.
    pub open spec fn channel(self) -> Option<Seq<char>> {
        match self.config {
            Some(c) => c.channel,
            None => None,
        }
    }

    /// The server that pings go to.
    pub open spec fn endpoint(self) -> Seq<char> {
        match self.config {
            Some(c) => match c.server_endpoint {
                Some(e) => e,
                None => default_endpoint(),
            },
            None => default_endpoint(),
        }
    }

    /// Whether an uploader was injected.
    pub open spec fn has_uploader(self) -> bool {
        match self.config {
            Some(c) => c.has_uploader,
            None => false,
        }
    }

    /// The core after `value` is recorded for the metric `meta`. Nothing is
    /// recorded unless the engine records and the metric is enabled.
    pub open spec fn record(self, meta: CommonMetricDataView, value: MetricValue) -> CoreModel {
        if self.records() && !meta.disabled {
            CoreModel {
                metrics: record_in_stores(self.metrics, meta, meta.send_in_pings, value),
                ..self
            }
        } else {
            self
        }
    }

    /// The core after `amount` is added to the counter `meta`. Nothing is
    /// added unless the engine records, the metric is enabled and the amount
    /// is positive.
    pub open spec fn add_counter(self, meta: CommonMetricDataView, amount: nat) -> CoreModel {
        if self.records() && !meta.disabled && amount > 0 {
            CoreModel {
                metrics: add_in_stores(self.metrics, meta, meta.send_in_pings, amount),
                ..self
            }
        } else {
            self
        }
    }

    /// The core after the definition `ping` is registered.
    pub open spec fn register_ping(self, ping: PingTypeView) -> CoreModel {
        CoreModel { registry: spec_register(self.registry, ping), ..self }
    }

    /// The ping that is assembled now under the name `name`.
    pub open spec fn assemble(
        self,
        name: Seq<char>,
        reason: Option<Seq<char>>,
        include_client_id: bool,
    ) -> QueuedPingView {
        QueuedPingView {
            document_id: self.next_document_id,
            name,
            path: spec_path(self.application_id(), name, self.next_document_id),
            reason,
            payload: self.metrics.restrict(keys_for_ping(name, include_client_id)),
            attempts: 0,
        }
    }

    /// Whether a ping of the definition `def` is assembled now: the engine
    /// records, an identifier is left, and the ping holds a metric or is sent
    /// empty.
    pub open spec fn sends(self, def: PingTypeView) -> bool {
        &&& self.records()
        &&& self.next_document_id < u64::MAX
        &&& (def.send_if_empty || self.metrics.restrict(keys_for_ping(def.name, false))
            != Map::<MetricId, MetricValue>::empty())
    }

    /// The core after the ping `name` is submitted. Where the ping is
    /// assembled, it joins the pings that await delivery, and the
    /// ping-lifetime metrics of its store are cleared.
    pub open spec fn submit_ping(self, name: Seq<char>, reason: Option<Seq<char>>) -> CoreModel {
        match spec_lookup(self.registry, name) {
            Some(def) => if self.sends(def) {
                CoreModel {
                    pending: self.pending.push(
                        self.assemble(
                            name,
                            spec_checked_reason(def.reason_codes, reason),
                            def.include_client_id,
                        ),
                    ),
                    next_document_id: self.next_document_id + 1,
                    metrics: self.metrics.restrict(keys_kept_after_send(name)),
                    ..self
                }
            } else {
                self
            },
            None => self,
        }
    }

    /// The core after consent is given or withdrawn. Withdrawing it clears
    /// every entry that is not exempt, drops the pings that await delivery
    /// and puts a deletion request in their place. Giving it writes the
    /// client's description anew. Nothing changes unless the engine is ready
    /// and the flag differs from the one in effect.
    pub open spec fn set_upload_enabled(self, enabled: bool) -> CoreModel {
        if self.state != EngineState::Ready || enabled == self.upload_enabled {
            self
        } else if enabled {
            CoreModel {
                upload_enabled: true,
                metrics: spec_with_client_info(self.metrics, self.client_info, self.channel()),
                ..self
            }
        } else {
            let cleared = CoreModel {
                upload_enabled: false,
                metrics: self.metrics.restrict(exempt_keys()),
                pending: Seq::empty(),
                ..self
            };
            if self.next_document_id < u64::MAX {
                CoreModel {
                    pending: seq![self.assemble(deletion_request_name(), None, true)],
                    next_document_id: self.next_document_id + 1,
                    ..cleared
                }
            } else {
                cleared
            }
        }
    }

    /// The core after `task` has run.
    pub open spec fn apply(self, task: TaskView) -> CoreModel {
        match task {
            TaskView::Record { meta, value } => self.record(meta, value),
            TaskView::AddCounter { meta, amount } => self.add_counter(meta, amount),
            TaskView::RegisterPing { ping } => self.register_ping(ping),
            TaskView::SubmitPing { name, reason } => self.submit_ping(name, reason),
            TaskView::SetUploadEnabled { enabled } => self.set_upload_enabled(enabled),
        }
    }

    /// The core after the tasks of `tasks` have run, the first one first.
    pub open spec fn apply_all(self, tasks: Seq<TaskView>) -> CoreModel
        decreases tasks.len(),
    {
        if tasks.len() == 0 {
            self
        } else {
            self.apply(tasks.first()).apply_all(tasks.drop_first())
        }
    }

    /// The core after the uploader has answered `result` for the ping
    /// `document_id`. A ping that is dropped is counted, under one label
    /// where its last permitted attempt failed and under another where its
    /// upload failed for good.
    pub open spec fn process_upload_response(
        self,
        document_id: nat,
        result: UploadResult,
    ) -> CoreModel {
        if self.state != EngineState::Ready {
            self
        } else {
            let after = CoreModel {
                pending: spec_after_response(self.pending, document_id, result),
                ..self
            };
            match spec_outcome(self.pending, document_id, result) {
                UploadOutcome::DroppedAfterRetries => after.add_counter(
                    upload_failure_meta(recoverable_label()),
                    1,
                ),
                UploadOutcome::DroppedUnrecoverable => after.add_counter(
                    upload_failure_meta(unrecoverable_label()),
                    1,
                ),
                _ => after,
            }
        }
    }

    /// What the uploader's answer `result` for the ping `document_id` makes
    /// of that ping.
    pub open spec fn upload_outcome(self, document_id: nat, result: UploadResult) -> UploadOutcome {
        if self.state != EngineState::Ready {
            UploadOutcome::UnknownPing
        } else {
            spec_outcome(self.pending, document_id, result)
        }
    }

    /// The core after one pass over the pings that await delivery, in which
    /// the uploader has answered `results`, one answer for each ping tried,
    /// the oldest ping first.
    pub open spec fn drain(self, results: Seq<UploadResult>) -> CoreModel
        decreases results.len(),
    {
        if results.len() == 0 {
            self
        } else {
            let before = self.drain(results.drop_last());
            if before.pending.len() == 0 {
                before
            } else {
                before.process_upload_response(before.pending[0].document_id, results.last())
            }
        }
    }

    /// The number of pings that one pass tries: all that await delivery,
    /// where the engine is ready and has an uploader, and none otherwise.
    pub open spec fn uploads_in_pass(self) -> nat {
        if self.state == EngineState::Ready && self.has_uploader() {
            self.pending.len()
        } else {
            0
        }
    }
}

/// The engine: the core, the dispatcher, and whether launched tasks run at
/// once.
#[verifier::ext_equal]
pub struct GleanModel {
    pub core: CoreModel,
    pub dispatcher: DispatcherState<TaskView>,
    pub test_mode: bool,
}

impl GleanModel {
    /// An engine that nobody has initialized, whose dispatcher buffers up to
    /// `limit` tasks.
    pub open spec fn with_limit(limit: nat) -> GleanModel {
        GleanModel {
            core: CoreModel::initial(),
            dispatcher: DispatcherState::initial(limit),
            test_mode: false,
        }
    }

    /// An engine that nobody has initialized.
    pub open spec fn initial() -> GleanModel {
        GleanModel::with_limit(GLOBAL_DISPATCHER_LIMIT as nat)
    }

    /// What every reachable engine satisfies.
    pub open spec fn wf(self) -> bool {
        &&& self.dispatcher.wf()
        &&& self.dispatcher.flushed <==> self.core.state == EngineState::Ready
        &&& self.core.state == EngineState::Uninitialized <==> self.core.config is None
        &&& self.core.next_document_id <= u64::MAX
        &&& self.core.identifiers_in_order()
        &&& self.test_mode ==> self.dispatcher.live.len() == 0
    }

    /// The engine in the given mode.
    pub open spec fn with_mode(self, test_mode: bool) -> GleanModel {
        GleanModel { test_mode, ..self }
    }

    /// The engine with nothing buffered and nothing waiting.
    pub open spec fn with_empty_queues(self) -> GleanModel {
        GleanModel {
            dispatcher: DispatcherState {
                preinit: Seq::empty(),
                live: Seq::empty(),
                ..self.dispatcher
            },
            ..self
        }
    }

    /// The engine after the worker has run the oldest waiting task.
    pub open spec fn run_next(self) -> GleanModel {
        if self.dispatcher.live.len() == 0 {
            self
        } else {
            GleanModel {
                core: self.core.apply(self.dispatcher.live[0]),
                dispatcher: self.dispatcher.take_next(),
                ..self
            }
        }
    }

    /// The engine after every waiting task has run, the oldest first.
    pub open spec fn run_all(self) -> GleanModel {
        GleanModel {
            core: self.core.apply_all(self.dispatcher.live),
            dispatcher: DispatcherState { live: Seq::empty(), ..self.dispatcher },
            ..self
        }
    }

    /// The engine once it has come to rest: in test mode every waiting task
    /// has run.
    pub open spec fn settle(self) -> GleanModel {
        if self.test_mode {
            self.run_all()
        } else {
            self
        }
    }

    /// The engine after `task` is launched.
    pub open spec fn launch(self, task: TaskView) -> GleanModel {
        GleanModel { dispatcher: self.dispatcher.launch(task), ..self }.settle()
    }

    /// The engine after the tasks of `tasks` are launched one after another.
    pub open spec fn launch_all(self, tasks: Seq<TaskView>) -> GleanModel
        decreases tasks.len(),
    {
        if tasks.len() == 0 {
            self
        } else {
            self.launch_all(tasks.drop_last()).launch(tasks.last())
        }
    }

    /// Whether a call to initialize starts an initialization.
    pub open spec fn starts_initialization(self) -> bool {
        self.core.state == EngineState::Uninitialized || self.core.state == EngineState::InitFailed
    }

    /// The engine after a call to initialize. Where no initialization is
    /// under way or done, the call captures the configuration; otherwise it
    /// changes nothing.
    pub open spec fn begin_initialize(
        self,
        config: ConfigurationView,
        info: ClientInfoView,
        test_mode: bool,
    ) -> GleanModel {
        if self.starts_initialization() {
            GleanModel {
                core: CoreModel {
                    state: EngineState::Initializing,
                    config: Some(config),
                    client_info: Some(info),
                    upload_enabled: config.upload_enabled,
                    ..self.core
                },
                test_mode,
                ..self
            }
        } else {
            self
        }
    }

    /// The task that records the number of tasks dropped before the flush.
    pub open spec fn overflow_task(self) -> TaskView {
        TaskView::AddCounter { meta: overflow_meta(), amount: self.dispatcher.overflow }
    }

    /// The engine after the preparation of the data directory has come to
    /// `directory`. Where an initialization waits for it, the engine fails,
    /// or becomes ready: it takes over what the directory held, writes the
    /// client's description where it has consent and keeps only the exempt
    /// entries where it has none, flushes the dispatcher, and launches the
    /// record of the dropped tasks where there are any. A directory that is
    /// not in order counts as one that could not be prepared. Where no
    /// initialization waits, nothing changes.
    pub open spec fn finish_initialize(self, directory: DataDirectoryView) -> GleanModel {
        if self.core.state != EngineState::Initializing {
            self
        } else if !directory.wf() {
            GleanModel { core: CoreModel { state: EngineState::InitFailed, ..self.core }, ..self }
        } else {
            match directory {
                DataDirectoryView::Unavailable => GleanModel {
                    core: CoreModel { state: EngineState::InitFailed, ..self.core },
                    ..self
                },
                DataDirectoryView::Prepared { metrics, pending, next_document_id } => {
                    let loaded = if self.core.upload_enabled {
                        spec_with_client_info(metrics, self.core.client_info, self.core.channel())
                    } else {
                        metrics.restrict(exempt_keys())
                    };
                    let core = CoreModel {
                        state: EngineState::Ready,
                        metrics: loaded,
                        pending,
                        next_document_id: spec_next_id(pending, next_document_id),
                        ..self.core
                    };
                    let flushed = self.dispatcher.flush_init();
                    let dispatcher = if self.dispatcher.overflow > 0 {
                        flushed.launch(self.overflow_task())
                    } else {
                        flushed
                    };
                    GleanModel { core, dispatcher, ..self }.settle()
                },
            }
        }
    }

    /// The engine after the uploader has answered `result` for the ping
    /// `document_id`.
    pub open spec fn process_upload_response(
        self,
        document_id: nat,
        result: UploadResult,
    ) -> GleanModel {
        GleanModel { core: self.core.process_upload_response(document_id, result), ..self }
    }

    /// The engine after one pass over the pings that await delivery.
    pub open spec fn drain(self, results: Seq<UploadResult>) -> GleanModel {
        GleanModel { core: self.core.drain(results), ..self }
    }
}

/// Whether a task changes no core, whatever the core is.
pub open spec fn is_noop(task: TaskView) -> bool {
    forall|c: CoreModel| #[trigger] c.apply(task) == c
}

/// Whether every task of `tasks` changes no core.
pub open spec fn all_noops(tasks: Seq<TaskView>) -> bool {
    forall|i: int| 0 <= i < tasks.len() ==> is_noop(#[trigger] tasks[i])
}

/// No task changes the engine state, the configuration or the client's
/// description.
pub proof fn lemma_apply_keeps_identity(c: CoreModel, task: TaskView)
    ensures
        c.apply(task).state == c.state,
        c.apply(task).config == c.config,
        c.apply(task).client_info == c.client_info,
        c.next_document_id <= u64::MAX ==> c.apply(task).next_document_id <= u64::MAX,
{
}

/// No sequence of tasks changes the engine state, the configuration or the
/// client's description.
pub proof fn lemma_apply_all_keeps_identity(c: CoreModel, tasks: Seq<TaskView>)
    ensures
        c.apply_all(tasks).state == c.state,
        c.apply_all(tasks).config == c.config,
        c.apply_all(tasks).client_info == c.client_info,
        c.next_document_id <= u64::MAX ==> c.apply_all(tasks).next_document_id <= u64::MAX,
    decreases tasks.len(),
{
    if tasks.len() > 0 {
        lemma_apply_keeps_identity(c, tasks.first());
        lemma_apply_all_keeps_identity(c.apply(tasks.first()), tasks.drop_first());
    }
}

/// Running two sequences of tasks one after the other is running their
/// concatenation.
pub proof fn lemma_apply_all_concat(c: CoreModel, a: Seq<TaskView>, b: Seq<TaskView>)
    ensures
        c.apply_all(a + b) == c.apply_all(a).apply_all(b),
    decreases a.len(),
{
    if a.len() == 0 {
        assert(a + b =~= b);
    } else {
        assert((a + b).first() == a.first());
        assert((a + b).drop_first() =~= a.drop_first() + b);
        lemma_apply_all_concat(c.apply(a.first()), a.drop_first(), b);
    }
}

/// Tasks that change no core change nothing when they run in sequence.
pub proof fn lemma_noops_change_nothing(c: CoreModel, tasks: Seq<TaskView>)
    requires
        all_noops(tasks),
    ensures
        c.apply_all(tasks) == c,
    decreases tasks.len(),
{
    if tasks.len() > 0 {
        assert(is_noop(tasks[0]));
        assert(c.apply(tasks.first()) == c);
        let rest = tasks.drop_first();
        assert forall|i: int| 0 <= i < rest.len() implies is_noop(#[trigger] rest[i]) by {
            assert(rest[i] == tasks[i + 1]);
        }
        lemma_noops_change_nothing(c, rest);
    }
}

/// Before the flush a launched task touches the dispatcher alone: the core
/// stays as it is, whatever the mode.
pub proof fn lemma_launch_before_flush(s: GleanModel, tasks: Seq<TaskView>)
    requires
        s.wf(),
        !s.dispatcher.flushed,
    ensures
        s.launch_all(tasks).core == s.core,
        s.launch_all(tasks).dispatcher == s.dispatcher.launch_all(tasks),
        s.launch_all(tasks).test_mode == s.test_mode,
        s.launch_all(tasks).wf(),
    decreases tasks.len(),
{
    if tasks.len() > 0 {
        let init = tasks.drop_last();
        lemma_launch_before_flush(s, init);
        lemma_overflow_policy(s.dispatcher, init);
        lemma_launch_all_wf(s.dispatcher, tasks);
        let mid = s.launch_all(init);
        let launched = GleanModel { dispatcher: mid.dispatcher.launch(tasks.last()), ..mid };
        assert(launched.dispatcher.live.len() == 0);
        assert(launched.run_all().dispatcher =~= launched.dispatcher);
        assert(launched.run_all() =~= launched);
    }
}

/// What is launched before an initialization is asked for waits like what is
/// launched while the initialization is under way: for an engine that is not
/// ready, launching tasks and then asking for the initialization leaves the
/// same engine as asking first and launching then.
pub proof fn lemma_launch_commutes_with_begin(
    s: GleanModel,
    tasks: Seq<TaskView>,
    config: ConfigurationView,
    info: ClientInfoView,
    test_mode: bool,
)
    requires
        s.wf(),
        !s.dispatcher.flushed,
    ensures
        s.launch_all(tasks).begin_initialize(config, info, test_mode) == s.begin_initialize(
            config,
            info,
            test_mode,
        ).launch_all(tasks),
{
    lemma_launch_before_flush(s, tasks);
    lemma_launch_before_flush(s.begin_initialize(config, info, test_mode), tasks);
}

/// Running what waits keeps an engine well formed and leaves nothing
/// waiting.
pub proof fn lemma_run_all_wf(s: GleanModel)
    requires
        s.with_mode(false).wf(),
    ensures
        s.run_all().wf(),
        s.run_all().dispatcher.live.len() == 0,
{
    lemma_apply_all_keeps_identity(s.core, s.dispatcher.live);
    lemma_apply_all_keeps_identifiers(s.core, s.dispatcher.live);
}

/// Launching keeps an engine well formed.
pub proof fn lemma_launch_wf(s: GleanModel, task: TaskView)
    requires
        s.wf(),
    ensures
        s.launch(task).wf(),
{
    let launched = GleanModel { dispatcher: s.dispatcher.launch(task), ..s };
    if s.test_mode {
        lemma_run_all_wf(launched);
    }
}

/// Initialization keeps an engine well formed.
pub proof fn lemma_initialize_wf(
    s: GleanModel,
    config: ConfigurationView,
    info: ClientInfoView,
    test_mode: bool,
    directory: DataDirectoryView,
)
    requires
        s.wf(),
    ensures
        s.begin_initialize(config, info, test_mode).wf(),
        s.finish_initialize(directory).wf(),
{
    lemma_finish_keeps_identifiers(s, directory);
    if s.core.state == EngineState::Initializing && directory.wf() {
        match directory {
            DataDirectoryView::Unavailable => {},
            DataDirectoryView::Prepared { metrics, pending, next_document_id } => {
                lemma_next_id_bound(pending, next_document_id);
                lemma_loaded_identifiers(pending, next_document_id);
                let loaded = if s.core.upload_enabled {
                    spec_with_client_info(metrics, s.core.client_info, s.core.channel())
                } else {
                    metrics.restrict(exempt_keys())
                };
                let core = CoreModel {
                    state: EngineState::Ready,
                    metrics: loaded,
                    pending,
                    next_document_id: spec_next_id(pending, next_document_id),
                    ..s.core
                };
                let flushed = s.dispatcher.flush_init();
                let dispatcher = if s.dispatcher.overflow > 0 {
                    flushed.launch(s.overflow_task())
                } else {
                    flushed
                };
                let ready = GleanModel { core, dispatcher, ..s };
                if s.test_mode {
                    lemma_run_all_wf(ready);
                }
            },
        }
    }
}

/// The next identifier is no less than the recorded one and, where that one
/// fits in 64 bits, fits in 64 bits too.
pub proof fn lemma_next_id_bound(pending: Seq<QueuedPingView>, floor: nat)
    ensures
        spec_next_id(pending, floor) >= floor,
        floor <= u64::MAX ==> spec_next_id(pending, floor) <= u64::MAX,
    decreases pending.len(),
{
    if pending.len() > 0 {
        lemma_next_id_bound(pending.drop_last(), floor);
    }
}

/// The next identifier is greater than every identifier in use that is less
/// than the largest 64-bit number.
pub proof fn lemma_next_id_is_fresh(pending: Seq<QueuedPingView>, floor: nat, i: int)
    requires
        0 <= i < pending.len(),
        pending[i].document_id < u64::MAX,
    ensures
        pending[i].document_id < spec_next_id(pending, floor),
    decreases pending.len(),
{
    if i < pending.len() - 1 {
        assert(pending.drop_last()[i] == pending[i]);
        lemma_next_id_is_fresh(pending.drop_last(), floor, i);
    }
}

/// Idempotence of initialization. An initialization asked for while the
/// engine is ready changes nothing: not the engine state, not the captured
/// configuration, not the metric store, whatever configuration the later call
/// brings and whatever its data directory turns out to be.
pub proof fn lemma_initialize_when_ready_changes_nothing(
    s: GleanModel,
    config: ConfigurationView,
    info: ClientInfoView,
    test_mode: bool,
    directory: DataDirectoryView,
)
    requires
        s.core.state == EngineState::Ready,
    ensures
        s.begin_initialize(config, info, test_mode) == s,
        s.begin_initialize(config, info, test_mode).finish_initialize(directory) == s,
{
}

/// Initializing twice. The first initialization that finds its data
/// directory makes the engine ready under its own configuration; a second
/// one, with any other configuration, leaves the engine as the first one
/// made it.
pub proof fn lemma_initializing_twice_is_a_noop(
    s: GleanModel,
    first: ConfigurationView,
    first_info: ClientInfoView,
    first_mode: bool,
    first_directory: DataDirectoryView,
    second: ConfigurationView,
    second_info: ClientInfoView,
    second_mode: bool,
    second_directory: DataDirectoryView,
)
    requires
        s.starts_initialization(),
        first_directory is Prepared,
        first_directory.wf(),
    ensures
        ({
            let ready = s.begin_initialize(first, first_info, first_mode).finish_initialize(
                first_directory,
            );
            &&& ready.core.state == EngineState::Ready
            &&& ready.core.config == Some(first)
            &&& ready.core.application_id() == first.application_id
            &&& ready.begin_initialize(second, second_info, second_mode).finish_initialize(
                second_directory,
            ) == ready
        }),
{
    let begun = s.begin_initialize(first, first_info, first_mode);
    let ready = begun.finish_initialize(first_directory);
    lemma_finish_makes_ready(begun, first_directory);
    lemma_initialize_when_ready_changes_nothing(
        ready,
        second,
        second_info,
        second_mode,
        second_directory,
    );
}

/// An initialization that finds its data directory makes the engine ready
/// and keeps the configuration that it captured.
pub proof fn lemma_finish_makes_ready(s: GleanModel, directory: DataDirectoryView)
    requires
        s.core.state == EngineState::Initializing,
        directory is Prepared,
        directory.wf(),
    ensures
        s.finish_initialize(directory).core.state == EngineState::Ready,
        s.finish_initialize(directory).core.config == s.core.config,
        s.finish_initialize(directory).core.client_info == s.core.client_info,
        s.finish_initialize(directory).dispatcher.flushed,
{
    match directory {
        DataDirectoryView::Unavailable => {},
        DataDirectoryView::Prepared { metrics, pending, next_document_id } => {
            let loaded = if s.core.upload_enabled {
                spec_with_client_info(metrics, s.core.client_info, s.core.channel())
            } else {
                metrics.restrict(exempt_keys())
            };
            let core = CoreModel {
                state: EngineState::Ready,
                metrics: loaded,
                pending,
                next_document_id: spec_next_id(pending, next_document_id),
                ..s.core
            };
            let flushed = s.dispatcher.flush_init();
            let dispatcher = if s.dispatcher.overflow > 0 {
                flushed.launch(s.overflow_task())
            } else {
                flushed
            };
            let ready = GleanModel { core, dispatcher, ..s };
            lemma_apply_all_keeps_identity(ready.core, ready.dispatcher.live);
        },
    }
}

/// Concurrent initializations collapse into one. Of two calls that arrive
/// before the data directory is prepared, the first captures its
/// configuration and the second changes nothing.
pub proof fn lemma_initialization_is_single_flight(
    s: GleanModel,
    first: ConfigurationView,
    first_info: ClientInfoView,
    first_mode: bool,
    second: ConfigurationView,
    second_info: ClientInfoView,
    second_mode: bool,
)
    requires
        s.starts_initialization(),
    ensures
        s.begin_initialize(first, first_info, first_mode).begin_initialize(
            second,
            second_info,
            second_mode,
        ) == s.begin_initialize(first, first_info, first_mode),
        s.begin_initialize(first, first_info, first_mode).core.config == Some(first),
{
}

/// A value recorded in several stores is what each of them holds for the
/// metric.
pub proof fn lemma_recorded_value(
    metrics: Map<MetricId, MetricValue>,
    meta: CommonMetricDataView,
    stores: Seq<Seq<char>>,
    value: MetricValue,
    i: int,
)
    requires
        0 <= i < stores.len(),
    ensures
        record_in_stores(metrics, meta, stores, value).contains_key(
            spec_metric_id(meta, stores[i]),
        ),
        record_in_stores(metrics, meta, stores, value)[spec_metric_id(meta, stores[i])] == value,
    decreases stores.len(),
{
    if i < stores.len() - 1 {
        assert(stores.drop_last()[i] == stores[i]);
        lemma_recorded_value(metrics, meta, stores.drop_last(), value, i);
    }
}

/// Ordering. A value recorded by one task is in the payload of the ping that
/// the next task submits. Where the engine records, the metric is enabled and
/// sent in the ping, the ping is registered and an identifier is left, the
/// two tasks add one ping to those that await delivery: it has the name
/// asked for, and its payload holds the value under the metric's identity.
pub proof fn lemma_write_then_submit(
    c: CoreModel,
    meta: CommonMetricDataView,
    value: MetricValue,
    name: Seq<char>,
    reason: Option<Seq<char>>,
)
    requires
        c.records(),
        !meta.disabled,
        meta.send_in_pings.contains(name),
        is_registered(c.registry, name),
        c.next_document_id < u64::MAX,
    ensures
        ({
            let done = c.apply(TaskView::Record { meta, value }).apply(
                TaskView::SubmitPing { name, reason },
            );
            let id = spec_metric_id(meta, name);
            &&& done.pending.len() == c.pending.len() + 1
            &&& done.pending.last().name == name
            &&& done.pending.last().document_id == c.next_document_id
            &&& done.pending.last().attempts == 0
            &&& done.pending.last().payload.contains_key(id)
            &&& done.pending.last().payload[id] == value
            &&& done.pending.subrange(0, c.pending.len() as int) == c.pending
        }),
{
    let written = c.apply(TaskView::Record { meta, value });
    let id = spec_metric_id(meta, name);
    let i = choose|i: int| 0 <= i < meta.send_in_pings.len() && meta.send_in_pings[i] == name;
    lemma_recorded_value(c.metrics, meta, meta.send_in_pings, value, i);
    assert(written.metrics.contains_key(id) && written.metrics[id] == value);
    let k = choose|k: int| is_registered_at(written.registry, name, k);
    let def = written.registry[k];
    assert(def.name == name);
    let own = written.metrics.restrict(keys_for_ping(name, false));
    assert(keys_for_ping(name, false).contains(id));
    assert(own.contains_key(id));
    assert(own != Map::<MetricId, MetricValue>::empty());
    assert(written.sends(def));
    assert(keys_for_ping(name, def.include_client_id).contains(id));
    let done = written.submit_ping(name, reason);
    assert(done.pending.subrange(0, c.pending.len() as int) =~= c.pending);
}

/// Ordering through the dispatcher. Let tasks be launched before the engine
/// is ready, within the room of the buffer: any tasks, then the write of a
/// metric, at once after it the submission of a ping that the metric is sent
/// in, then tasks that change nothing. Once the engine is ready and what
/// waits has run, the ping is the last of those that await delivery and its
/// payload holds the value written. The tasks launched first may be any at
/// all, as long as they leave the engine recording, the ping registered and
/// an identifier to give.
pub proof fn lemma_write_before_submit_is_in_payload(
    s: GleanModel,
    before: Seq<TaskView>,
    meta: CommonMetricDataView,
    value: MetricValue,
    name: Seq<char>,
    reason: Option<Seq<char>>,
    after: Seq<TaskView>,
    directory: DataDirectoryView,
)
    requires
        s.wf(),
        s.core.state == EngineState::Initializing,
        s.dispatcher.preinit.len() == 0,
        s.dispatcher.overflow == 0,
        before.len() + 2 + after.len() <= s.dispatcher.capacity,
        directory is Prepared,
        directory.wf(),
        all_noops(after),
        !meta.disabled,
        meta.send_in_pings.contains(name),
        ({
            let mid = s.finish_initialize(directory).core.apply_all(before);
            &&& mid.upload_enabled
            &&& is_registered(mid.registry, name)
            &&& mid.next_document_id < u64::MAX
        }),
    ensures
        ({
            let tasks = before + seq![
                TaskView::Record { meta, value },
                TaskView::SubmitPing { name, reason },
            ] + after;
            let mid = s.finish_initialize(directory).core.apply_all(before);
            let done = s.launch_all(tasks).finish_initialize(directory).run_all();
            let id = spec_metric_id(meta, name);
            &&& done.core.pending.len() == mid.pending.len() + 1
            &&& done.core.pending.last().name == name
            &&& done.core.pending.last().payload.contains_key(id)
            &&& done.core.pending.last().payload[id] == value
        }),
{
    let write = TaskView::Record { meta, value };
    let submit = TaskView::SubmitPing { name, reason };
    let pair = seq![write, submit];
    let tasks = before + pair + after;
    lemma_buffered_tasks_run_in_order(s, tasks, directory);
    let base = s.finish_initialize(directory).core;
    lemma_apply_all_concat(base, before + pair, after);
    lemma_apply_all_concat(base, before, pair);
    let mid = base.apply_all(before);
    lemma_apply_all_keeps_identity(base, before);
    lemma_finish_makes_ready(s, directory);
    assert(mid.state == EngineState::Ready);
    lemma_noops_change_nothing(mid.apply_all(pair), after);
    assert(pair.first() == write);
    assert(pair.drop_first() =~= seq![submit]);
    assert(seq![submit].first() == submit);
    assert(seq![submit].drop_first() =~= Seq::<TaskView>::empty());
    assert(mid.apply_all(pair) == mid.apply(write).apply(submit)) by {
        assert(mid.apply_all(pair) == mid.apply(write).apply_all(seq![submit]));
        assert(mid.apply(write).apply_all(seq![submit]) == mid.apply(write).apply(
            submit,
        ).apply_all(Seq::<TaskView>::empty()));
    }
    lemma_write_then_submit(mid, meta, value, name, reason);
}

/// The core that an initialization leaves before any buffered task has run
/// does not depend on what the buffer holds.
pub proof fn lemma_finish_core(s: GleanModel, directory: DataDirectoryView)
    requires
        s.core.state == EngineState::Initializing,
        directory is Prepared,
        directory.wf(),
        s.dispatcher.overflow == 0,
        !s.dispatcher.flushed,
    ensures
        s.finish_initialize(directory).run_all().core == s.with_empty_queues().finish_initialize(
            directory,
        ).core.apply_all(s.dispatcher.live + s.dispatcher.preinit),
{
    let empty = s.with_empty_queues();
    assert(empty.dispatcher.flush_init().live =~= Seq::<TaskView>::empty());
    let queued = s.dispatcher.flush_init().live;
    assert(queued =~= s.dispatcher.live + s.dispatcher.preinit);
}

/// What was launched before the engine was ready runs in the order of its
/// submission once the engine is ready. For tasks launched within the room of
/// an empty buffer: after the initialization has found its data directory and
/// what waits has run, the core is the one that the initialization alone
/// leaves, with the tasks applied to it one after another.
pub proof fn lemma_buffered_tasks_run_in_order(
    s: GleanModel,
    tasks: Seq<TaskView>,
    directory: DataDirectoryView,
)
    requires
        s.wf(),
        s.core.state == EngineState::Initializing,
        s.dispatcher.preinit.len() == 0,
        s.dispatcher.overflow == 0,
        tasks.len() <= s.dispatcher.capacity,
        directory is Prepared,
        directory.wf(),
    ensures
        s.launch_all(tasks).finish_initialize(directory).run_all().core == s.finish_initialize(
            directory,
        ).core.apply_all(tasks),
        s.launch_all(tasks).finish_initialize(directory).run_all().dispatcher.live.len() == 0,
{
    lemma_launch_before_flush(s, tasks);
    lemma_overflow_policy(s.dispatcher, tasks);
    let launched = s.launch_all(tasks);
    assert(tasks.take(tasks.len() as int) =~= tasks);
    assert(launched.dispatcher.preinit =~= tasks);
    assert(launched.dispatcher.overflow == 0);
    lemma_finish_core(launched, directory);
    lemma_finish_core(s, directory);
    let empty_l = launched.with_empty_queues();
    let empty_s = s.with_empty_queues();
    assert(empty_l.dispatcher =~= empty_s.dispatcher);
    assert(empty_l =~= empty_s);
    assert(launched.dispatcher.live + launched.dispatcher.preinit =~= tasks);
    assert(s.dispatcher.live + s.dispatcher.preinit =~= Seq::<TaskView>::empty());
    let base = empty_s.finish_initialize(directory).core;
    assert(base.apply_all(Seq::<TaskView>::empty()) == base);
    assert(s.finish_initialize(directory).run_all().core == base);
    lemma_finish_settled_core(s, directory);
}

/// Once an initialization with an empty buffer has made the engine ready,
/// nothing waits: running what waits changes no core.
pub proof fn lemma_finish_settled_core(s: GleanModel, directory: DataDirectoryView)
    requires
        s.wf(),
        s.core.state == EngineState::Initializing,
        s.dispatcher.preinit.len() == 0,
        s.dispatcher.overflow == 0,
        directory is Prepared,
        directory.wf(),
    ensures
        s.finish_initialize(directory).run_all().core == s.finish_initialize(directory).core,
{
    let flushed = s.dispatcher.flush_init();
    assert(flushed.live =~= Seq::<TaskView>::empty());
}

/// Consent clearing. Once consent is withdrawn, the store holds no entry
/// that is not exempt, whatever its lifetime; and while consent stays
/// withdrawn, no write brings one back.
pub proof fn lemma_disabling_upload_clears_metrics(
    c: CoreModel,
    id: MetricId,
    later: Seq<TaskView>,
)
    requires
        c.records(),
        !is_exempt(id),
        forall|i: int| 0 <= i < later.len() ==> !((#[trigger] later[i]) is SetUploadEnabled),
    ensures
        !c.apply(TaskView::SetUploadEnabled { enabled: false }).metrics.contains_key(id),
        !c.apply(TaskView::SetUploadEnabled { enabled: false }).upload_enabled,
        !c.apply(TaskView::SetUploadEnabled { enabled: false }).apply_all(
            later,
        ).metrics.contains_key(id),
{
    let off = c.apply(TaskView::SetUploadEnabled { enabled: false });
    assert(!exempt_keys().contains(id));
    lemma_no_recording_without_consent(off, later);
}

/// Without consent nothing is recorded: tasks other than a change of consent
/// leave the metric store as it is.
pub proof fn lemma_no_recording_without_consent(c: CoreModel, tasks: Seq<TaskView>)
    requires
        !c.upload_enabled,
        forall|i: int| 0 <= i < tasks.len() ==> !((#[trigger] tasks[i]) is SetUploadEnabled),
    ensures
        c.apply_all(tasks).metrics == c.metrics,
        !c.apply_all(tasks).upload_enabled,
    decreases tasks.len(),
{
    if tasks.len() > 0 {
        assert(!(tasks[0] is SetUploadEnabled));
        let next = c.apply(tasks.first());
        assert(next.metrics == c.metrics);
        let rest = tasks.drop_first();
        assert forall|i: int| 0 <= i < rest.len() implies !((#[trigger] rest[i])
            is SetUploadEnabled) by {
            assert(rest[i] == tasks[i + 1]);
        }
        lemma_no_recording_without_consent(next, rest);
    }
}

/// A failed initialization is not fatal. When the data directory cannot be
/// prepared, the engine goes on in the failed state: whatever is launched
/// afterwards is accepted and records nothing, so that the store holds no
/// value under any identity.
pub proof fn lemma_failed_initialization_records_nothing(
    limit: nat,
    config: ConfigurationView,
    info: ClientInfoView,
    test_mode: bool,
    tasks: Seq<TaskView>,
    id: MetricId,
)
    requires
        limit <= usize::MAX,
    ensures
        ({
            let failed = GleanModel::with_limit(limit).begin_initialize(
                config,
                info,
                test_mode,
            ).finish_initialize(DataDirectoryView::Unavailable);
            &&& failed.core.state == EngineState::InitFailed
            &&& failed.launch_all(tasks).core.state == EngineState::InitFailed
            &&& !failed.launch_all(tasks).core.metrics.contains_key(id)
            &&& failed.launch_all(tasks).core.pending.len() == 0
        }),
{
    let failed = GleanModel::with_limit(limit).begin_initialize(
        config,
        info,
        test_mode,
    ).finish_initialize(DataDirectoryView::Unavailable);
    lemma_launch_before_flush(failed, tasks);
}

/// A counter that is sent in one store goes up by the amount added, as far
/// as 64 bits hold the sum, where the engine records.
pub proof fn lemma_counter_goes_up(
    c: CoreModel,
    meta: CommonMetricDataView,
    amount: nat,
)
    requires
        c.records(),
        !meta.disabled,
        amount > 0,
        meta.send_in_pings.len() == 1,
    ensures
        ({
            let id = spec_metric_id(meta, meta.send_in_pings[0]);
            let done = c.apply(TaskView::AddCounter { meta, amount });
            &&& stored(done.metrics, id) == Some(counter_after(stored(c.metrics, id), amount))
            &&& done.metrics == c.metrics.insert(id, counter_after(stored(c.metrics, id), amount))
        }),
{
    let stores = meta.send_in_pings;
    assert(stores.drop_last().len() == 0);
    assert(add_in_stores(c.metrics, meta, stores.drop_last(), amount) == c.metrics);
    assert(stores.last() == stores[0]);
}

/// The overflow policy of the engine. Let more tasks be launched before the
/// engine is ready than its empty buffer holds. Once the engine is ready and
/// what waits has run, exactly the earliest tasks have run, as many as the
/// buffer holds and in the order of their submission, and after them the task
/// that adds the number of the dropped tasks to the overflow counter.
pub proof fn lemma_overflow_is_counted(
    s: GleanModel,
    tasks: Seq<TaskView>,
    directory: DataDirectoryView,
)
    requires
        s.wf(),
        s.core.state == EngineState::Initializing,
        s.dispatcher.preinit.len() == 0,
        s.dispatcher.overflow == 0,
        tasks.len() > s.dispatcher.capacity,
        directory is Prepared,
        directory.wf(),
    ensures
        ({
            let excess = min_nat(
                (tasks.len() - s.dispatcher.capacity) as nat,
                usize::MAX as nat,
            );
            let done = s.launch_all(tasks).finish_initialize(directory).run_all();
            &&& s.launch_all(tasks).dispatcher.overflow == excess
            &&& done.core == s.finish_initialize(directory).core.apply_all(
                tasks.take(s.dispatcher.capacity as int),
            ).apply(TaskView::AddCounter { meta: overflow_meta(), amount: excess })
            &&& done.dispatcher.live.len() == 0
        }),
{
    lemma_launch_before_flush(s, tasks);
    lemma_overflow_policy(s.dispatcher, tasks);
    let launched = s.launch_all(tasks);
    let kept = tasks.take(s.dispatcher.capacity as int);
    assert(launched.dispatcher.preinit =~= kept);
    let excess = launched.dispatcher.overflow;
    assert(excess > 0);
    let counter = TaskView::AddCounter { meta: overflow_meta(), amount: excess };
    let flushed = launched.dispatcher.flush_init();
    assert(flushed.live =~= kept);
    let queued = flushed.launch(counter).live;
    assert(queued =~= kept + seq![counter]);
    let base = s.finish_initialize(directory).core;
    assert(s.dispatcher.flush_init().live =~= Seq::<TaskView>::empty());
    assert(base.apply_all(Seq::<TaskView>::empty()) == base);
    lemma_apply_all_concat(base, kept, seq![counter]);
    assert(seq![counter].first() == counter);
    assert(seq![counter].drop_first() =~= Seq::<TaskView>::empty());
    assert(base.apply_all(kept).apply_all(seq![counter]) == base.apply_all(kept).apply(counter))
        by {
        let k = base.apply_all(kept);
        assert(k.apply_all(seq![counter]) == k.apply(counter).apply_all(
            Seq::<TaskView>::empty(),
        ));
    }
}

/// The two modes of the dispatcher agree. For a ready engine on which
/// nothing waits: launching tasks in test mode, where each runs at once,
/// leaves the same core as launching them in queued mode and then running
/// what waits.
pub proof fn lemma_modes_agree(s: GleanModel, tasks: Seq<TaskView>)
    requires
        s.dispatcher.flushed,
        s.dispatcher.live.len() == 0,
    ensures
        s.with_mode(true).launch_all(tasks).core == s.with_mode(false).launch_all(
            tasks,
        ).run_all().core,
        s.with_mode(true).launch_all(tasks).core == s.core.apply_all(tasks),
        s.with_mode(true).launch_all(tasks).dispatcher.live.len() == 0,
        s.with_mode(true).launch_all(tasks).dispatcher.flushed,
        s.with_mode(false).launch_all(tasks).dispatcher.live == tasks,
        s.with_mode(false).launch_all(tasks).dispatcher.flushed,
        s.with_mode(false).launch_all(tasks).core == s.core,
    decreases tasks.len(),
{
    let eager = s.with_mode(true);
    let queued = s.with_mode(false);
    if tasks.len() == 0 {
        assert(queued.launch_all(tasks).dispatcher.live =~= tasks);
    } else {
        let init = tasks.drop_last();
        lemma_modes_agree(s, init);
        let e = eager.launch_all(init);
        let q = queued.launch_all(init);
        let last = tasks.last();
        assert(e.test_mode && !q.test_mode) by {
            lemma_launch_keeps_mode(eager, init);
            lemma_launch_keeps_mode(queued, init);
        }
        assert(e.dispatcher.launch(last).live =~= seq![last]);
        assert(seq![last].first() == last);
        assert(seq![last].drop_first() =~= Seq::<TaskView>::empty());
        assert(e.core.apply_all(seq![last]) == e.core.apply(last)) by {
            assert(e.core.apply_all(seq![last]) == e.core.apply(last).apply_all(
                Seq::<TaskView>::empty(),
            ));
        }
        assert(q.dispatcher.launch(last).live =~= tasks);
        assert(tasks =~= init + seq![last]);
        lemma_apply_all_concat(s.core, init, seq![last]);
        assert(s.core.apply_all(init).apply_all(seq![last]) == s.core.apply_all(init).apply(last))
            by {
            let k = s.core.apply_all(init);
            assert(k.apply_all(seq![last]) == k.apply(last).apply_all(Seq::<TaskView>::empty()));
        }
    }
}

/// Launching does not change the mode.
pub proof fn lemma_launch_keeps_mode(s: GleanModel, tasks: Seq<TaskView>)
    ensures
        s.launch_all(tasks).test_mode == s.test_mode,
    decreases tasks.len(),
{
    if tasks.len() > 0 {
        lemma_launch_keeps_mode(s, tasks.drop_last());
    }
}

/// A delivered ping leaves the store for good: where the identifiers of the
/// pings that await delivery differ from one another, a successful upload
/// leaves no ping with the identifier of the delivered one, and every other
/// ping stays where it was in the order.
pub proof fn lemma_delivered_ping_is_removed(
    pending: Seq<QueuedPingView>,
    i: int,
    status: u32,
)
    requires
        0 <= i < pending.len(),
        200 <= status <= 299,
        forall|a: int, b: int|
            0 <= a < b < pending.len() ==> (#[trigger] pending[a]).document_id != (
            #[trigger] pending[b]).document_id,
    ensures
        spec_outcome(pending, pending[i].document_id, UploadResult::HttpStatus(status))
            == UploadOutcome::Delivered,
        spec_after_response(pending, pending[i].document_id, UploadResult::HttpStatus(status))
            == pending.remove(i),
        first_position(pending.remove(i), pending[i].document_id) is None,
{
    let id = pending[i].document_id;
    assert(is_first_match(pending, id, i));
    let c = choose|k: int| is_first_match(pending, id, k);
    crate::upload::lemma_first_match_unique(pending, id, i, c);
    let rest = pending.remove(i);
    assert forall|k: int| !is_first_match(rest, id, k) by {
        if 0 <= k < rest.len() {
            if k < i {
                assert(rest[k] == pending[k]);
            } else {
                assert(rest[k] == pending[k + 1]);
            }
        }
    }
}

/// Whether the identifiers of `pending` differ from one another.
pub open spec fn distinct_identifiers(pending: Seq<QueuedPingView>) -> bool {
    forall|a: int, b: int|
        0 <= a < b < pending.len() ==> (#[trigger] pending[a]).document_id != (
        #[trigger] pending[b]).document_id
}

/// Whether every identifier of `pending` is less than `next`.
pub open spec fn identifiers_below(pending: Seq<QueuedPingView>, next: nat) -> bool {
    forall|i: int| 0 <= i < pending.len() ==> (#[trigger] pending[i]).document_id < next
}

impl CoreModel {
    /// Whether the identifiers are in order: no two pings that await
    /// delivery share one, and, as long as an identifier is left to give, the
    /// next one is greater than each of theirs.
    pub open spec fn identifiers_in_order(self) -> bool {
        &&& distinct_identifiers(self.pending)
        &&& self.next_document_id < u64::MAX ==> identifiers_below(
            self.pending,
            self.next_document_id,
        )
    }
}

/// Processing an answer keeps the identifiers of the pings distinct and adds
/// no identifier.
pub proof fn lemma_response_keeps_identifiers(
    pending: Seq<QueuedPingView>,
    document_id: nat,
    result: UploadResult,
    next: nat,
)
    requires
        distinct_identifiers(pending),
    ensures
        distinct_identifiers(spec_after_response(pending, document_id, result)),
        identifiers_below(pending, next) ==> identifiers_below(
            spec_after_response(pending, document_id, result),
            next,
        ),
{
    let after = spec_after_response(pending, document_id, result);
    match first_position(pending, document_id) {
        None => {},
        Some(i) => {
            assert(is_first_match(pending, document_id, i));
            let rest = pending.remove(i);
            assert forall|k: int| 0 <= k < rest.len() implies (#[trigger] rest[k]) == pending[if k
                < i {
                k
            } else {
                k + 1
            }] by {}
            assert(distinct_identifiers(rest)) by {
                assert forall|a: int, b: int| 0 <= a < b < rest.len() implies (
                #[trigger] rest[a]).document_id != (#[trigger] rest[b]).document_id by {
                    let pa = if a < i {
                        a
                    } else {
                        a + 1
                    };
                    let pb = if b < i {
                        b
                    } else {
                        b + 1
                    };
                    assert(rest[a] == pending[pa]);
                    assert(rest[b] == pending[pb]);
                }
            }
            if identifiers_below(pending, next) {
                assert forall|k: int| 0 <= k < rest.len() implies (
                #[trigger] rest[k]).document_id < next by {
                    let pk = if k < i {
                        k
                    } else {
                        k + 1
                    };
                    assert(rest[k] == pending[pk]);
                }
            }
            if after != rest {
                let again = QueuedPingView { attempts: pending[i].attempts + 1, ..pending[i] };
                assert(after == rest.push(again));
                assert forall|a: int, b: int| 0 <= a < b < after.len() implies (
                #[trigger] after[a]).document_id != (#[trigger] after[b]).document_id by {
                    if b < rest.len() {
                        assert(after[a] == rest[a]);
                        assert(after[b] == rest[b]);
                    } else {
                        let pa = if a < i {
                            a
                        } else {
                            a + 1
                        };
                        assert(after[a] == rest[a]);
                        assert(rest[a] == pending[pa]);
                        if pa < i {
                            assert(pending[pa].document_id != pending[i].document_id);
                        } else {
                            assert(pending[i].document_id != pending[pa].document_id);
                        }
                    }
                }
                if identifiers_below(pending, next) {
                    assert forall|k: int| 0 <= k < after.len() implies (
                    #[trigger] after[k]).document_id < next by {
                        if k < rest.len() {
                            assert(after[k] == rest[k]);
                        }
                    }
                }
            }
        },
    }
}

/// No task brings the identifiers out of order: a ping that is assembled gets
/// an identifier that no ping in the store has.
pub proof fn lemma_apply_keeps_identifiers(c: CoreModel, task: TaskView)
    requires
        c.identifiers_in_order(),
    ensures
        c.apply(task).identifiers_in_order(),
{
    let done = c.apply(task);
    if done.pending != c.pending {
        if task is SubmitPing {
            assert(c.next_document_id < u64::MAX);
            assert(done.pending == c.pending.push(done.pending.last()));
            assert forall|a: int, b: int| 0 <= a < b < done.pending.len() implies (
            #[trigger] done.pending[a]).document_id != (
            #[trigger] done.pending[b]).document_id by {
                assert(done.pending[a] == c.pending[a]);
                if b < c.pending.len() {
                    assert(done.pending[b] == c.pending[b]);
                }
            }
            assert forall|i: int| 0 <= i < done.pending.len() implies (
            #[trigger] done.pending[i]).document_id < done.next_document_id by {
                if i < c.pending.len() {
                    assert(done.pending[i] == c.pending[i]);
                }
            }
        }
    }
}

/// No sequence of tasks brings the identifiers out of order.
pub proof fn lemma_apply_all_keeps_identifiers(c: CoreModel, tasks: Seq<TaskView>)
    requires
        c.identifiers_in_order(),
    ensures
        c.apply_all(tasks).identifiers_in_order(),
    decreases tasks.len(),
{
    if tasks.len() > 0 {
        lemma_apply_keeps_identifiers(c, tasks.first());
        lemma_apply_all_keeps_identifiers(c.apply(tasks.first()), tasks.drop_first());
    }
}

/// No answer of the uploader brings the identifiers out of order.
pub proof fn lemma_upload_keeps_identifiers(c: CoreModel, document_id: nat, result: UploadResult)
    requires
        c.identifiers_in_order(),
    ensures
        c.process_upload_response(document_id, result).identifiers_in_order(),
{
    lemma_response_keeps_identifiers(c.pending, document_id, result, c.next_document_id);
}

/// No pass over the pings brings the identifiers out of order.
pub proof fn lemma_drain_keeps_identifiers(c: CoreModel, results: Seq<UploadResult>)
    requires
        c.identifiers_in_order(),
    ensures
        c.drain(results).identifiers_in_order(),
    decreases results.len(),
{
    if results.len() > 0 {
        lemma_drain_keeps_identifiers(c, results.drop_last());
        let before = c.drain(results.drop_last());
        if before.pending.len() > 0 {
            lemma_upload_keeps_identifiers(before, before.pending[0].document_id, results.last());
        }
    }
}

/// An initialization leaves the identifiers in order, where the identifiers
/// of the pings found in the data directory differ from one another.
pub proof fn lemma_finish_keeps_identifiers(s: GleanModel, directory: DataDirectoryView)
    requires
        s.core.identifiers_in_order(),
    ensures
        s.finish_initialize(directory).core.identifiers_in_order(),
{
    if s.core.state == EngineState::Initializing && directory.wf() {
        match directory {
            DataDirectoryView::Unavailable => {},
            DataDirectoryView::Prepared { metrics, pending, next_document_id } => {
                let next = spec_next_id(pending, next_document_id);
                lemma_loaded_identifiers(pending, next_document_id);
                let loaded = if s.core.upload_enabled {
                    spec_with_client_info(metrics, s.core.client_info, s.core.channel())
                } else {
                    metrics.restrict(exempt_keys())
                };
                let core = CoreModel {
                    state: EngineState::Ready,
                    metrics: loaded,
                    pending,
                    next_document_id: next,
                    ..s.core
                };
                assert(core.identifiers_in_order());
                let flushed = s.dispatcher.flush_init();
                let dispatcher = if s.dispatcher.overflow > 0 {
                    flushed.launch(s.overflow_task())
                } else {
                    flushed
                };
                if s.test_mode {
                    lemma_apply_all_keeps_identifiers(core, dispatcher.live);
                }
            },
        }
    }
}

/// As long as an identifier is left to give after the data directory has been
/// read, the next one is greater than that of every ping found there.
pub proof fn lemma_loaded_identifiers(pending: Seq<QueuedPingView>, floor: nat)
    ensures
        spec_next_id(pending, floor) < u64::MAX ==> identifiers_below(
            pending,
            spec_next_id(pending, floor),
        ),
{
    let next = spec_next_id(pending, floor);
    assert forall|i: int| 0 <= i < pending.len() && next < u64::MAX implies (
    #[trigger] pending[i]).document_id < next by {
        if pending[i].document_id < u64::MAX {
            lemma_next_id_is_fresh(pending, floor, i);
        } else {
            lemma_next_id_covers_largest(pending, floor, i);
        }
    }
}

/// Where a ping in the data directory has the largest identifier that 64 bits
/// hold, no identifier is left to give.
pub proof fn lemma_next_id_covers_largest(pending: Seq<QueuedPingView>, floor: nat, i: int)
    requires
        0 <= i < pending.len(),
        pending[i].document_id >= u64::MAX,
    ensures
        spec_next_id(pending, floor) >= u64::MAX,
    decreases pending.len(),
{
    if i < pending.len() - 1 {
        assert(pending.drop_last()[i] == pending[i]);
        lemma_next_id_covers_largest(pending.drop_last(), floor, i);
    }
}

/// Delivery is final. In a ready engine whose identifiers are in order, a
/// successful upload takes the ping out of the store for good: no ping with
/// its identifier is left, and any answer that arrives for it later changes
/// nothing.
pub proof fn lemma_delivery_is_final(c: CoreModel, i: int, status: u32, later: UploadResult)
    requires
        c.state == EngineState::Ready,
        c.identifiers_in_order(),
        0 <= i < c.pending.len(),
        200 <= status <= 299,
    ensures
        ({
            let id = c.pending[i].document_id;
            let delivered = c.process_upload_response(id, UploadResult::HttpStatus(status));
            &&& c.upload_outcome(id, UploadResult::HttpStatus(status)) == UploadOutcome::Delivered
            &&& delivered.pending == c.pending.remove(i)
            &&& delivered.metrics == c.metrics
            &&& delivered.upload_outcome(id, later) == UploadOutcome::UnknownPing
            &&& delivered.process_upload_response(id, later) == delivered
        }),
{
    lemma_delivered_ping_is_removed(c.pending, i, status);
}

/// Retries are bounded. A ping whose upload may be cured by a later attempt
/// stays in the store, with one more failure to its name, as long as it has
/// failed fewer times than permitted; the failure that reaches the limit
/// drops it. So no ping is tried more often than the limit says.
pub proof fn lemma_retries_are_bounded(pending: Seq<QueuedPingView>, i: int)
    requires
        is_first_match(pending, pending[i].document_id, i),
    ensures
        ({
            let id = pending[i].document_id;
            let outcome = spec_outcome(pending, id, UploadResult::RecoverableFailure);
            let after = spec_after_response(pending, id, UploadResult::RecoverableFailure);
            &&& outcome == UploadOutcome::Retry <==> pending[i].attempts + 1 < MAX_UPLOAD_ATTEMPTS
            &&& outcome == UploadOutcome::DroppedAfterRetries <==> pending[i].attempts + 1
                >= MAX_UPLOAD_ATTEMPTS
            &&& outcome == UploadOutcome::Retry ==> after.len() == pending.len()
                && after.last().attempts == pending[i].attempts + 1 && after.last().document_id
                == id
            &&& outcome == UploadOutcome::DroppedAfterRetries ==> after == pending.remove(i)
        }),
{
    let id = pending[i].document_id;
    let c = choose|k: int| is_first_match(pending, id, k);
    crate::upload::lemma_first_match_unique(pending, id, i, c);
}

/// The destination of a ping names the ping: the name stands in the path as
/// one piece.
pub proof fn lemma_path_holds_ping_name(
    application_id: Seq<char>,
    ping_name: Seq<char>,
    document_id: nat,
)
    ensures
        ({
            let path = spec_path(application_id, ping_name, document_id);
            let start = ("/submit/"@.len() + application_id.len() + "/"@.len()) as int;
            &&& start + ping_name.len() <= path.len()
            &&& path.subrange(start, start + ping_name.len()) == ping_name
        }),
{
    let path = spec_path(application_id, ping_name, document_id);
    let start = ("/submit/"@.len() + application_id.len() + "/"@.len()) as int;
    assert(path.subrange(start, start + ping_name.len()) =~= ping_name);
}

} // verus!
