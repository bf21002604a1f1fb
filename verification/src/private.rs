//! The metric and ping types that an application declares and uses.
//!
//! Each operation on them is a task for the engine's dispatcher, so that it
//! is ordered with every other operation.

use vstd::prelude::*;
use crate::engine::{clone_metric_data, Glean, Task};
use crate::metrics::{spec_metric_id, CommonMetricData, CommonMetricDataView, Metric, MetricKey, MetricValue};
use crate::model::{stored, GleanModel, TaskView};
use crate::net::UploadResult;
use crate::ping::PingTypeView;

pub use crate::ping::PingType;

verus! {

/// The view of an optional string slice.
pub open spec fn opt_str_view(o: Option<&str>) -> Option<Seq<char>> {
    match o {
        Some(s) => Some(s@),
        None => None,
    }
}

/// The boolean that a store holds under `id`, if it holds one.
pub open spec fn stored_boolean(model: GleanModel, id: crate::metrics::MetricId) -> Option<bool> {
    match stored(model.core.metrics, id) {
        Some(MetricValue::Boolean(b)) => Some(b),
        _ => None,
    }
}

/// The counter that a store holds under `id`, if it holds one.
pub open spec fn stored_counter(model: GleanModel, id: crate::metrics::MetricId) -> Option<nat> {
    match stored(model.core.metrics, id) {
        Some(MetricValue::Counter(c)) => Some(c),
        _ => None,
    }
}

/// The text that a store holds under `id`, if it holds one.
pub open spec fn stored_text(model: GleanModel, id: crate::metrics::MetricId) -> Option<Seq<char>> {
    match stored(model.core.metrics, id) {
        Some(MetricValue::Text(t)) => Some(t),
        _ => None,
    }
}

/// The engine after the ping `ping` has been registered and submitted.
pub open spec fn spec_submitted(
    model: GleanModel,
    ping: PingTypeView,
    reason: Option<Seq<char>>,
) -> GleanModel {
    model.launch(TaskView::RegisterPing { ping }).launch(
        TaskView::SubmitPing { name: ping.name, reason },
    )
}

/// A metric that holds a boolean.
#[derive(Debug)]
pub struct BooleanMetric {
    meta: CommonMetricData,
}

impl BooleanMetric {
    /// The declaration of the metric.
    pub closed spec fn meta(&self) -> CommonMetricDataView {
        self.meta@
    }

    /// The metric declared by `meta`.
    pub fn new(meta: CommonMetricData) -> (metric: BooleanMetric)
        ensures
            metric.meta() == meta@,
    {
        BooleanMetric { meta }
    }

    /// Sets the metric to `value`.
    pub fn set(&self, glean: &mut Glean, value: bool)
        ensures
            final(glean)@ == old(glean)@.launch(
                TaskView::Record { meta: self.meta(), value: MetricValue::Boolean(value) },
            ),
            old(glean)@.wf() ==> final(glean)@.wf(),
    {
        glean.launch(Task::SetBoolean { meta: clone_metric_data(&self.meta), value });
    }

    /// The value of the metric in the store `ping_name`, once every waiting
    /// task has run; nothing where the metric is unset there.
    pub fn test_get_value(&self, glean: &mut Glean, ping_name: &str) -> (value: Option<bool>)
        ensures
            final(glean)@ == old(glean)@.run_all(),
            value == stored_boolean(final(glean)@, spec_metric_id(self.meta(), ping_name@)),
            old(glean)@.with_mode(false).wf() ==> final(glean)@.wf(),
    {
        glean.block_on_queue();
        let key = MetricKey::for_store(&self.meta, &ping_name.to_owned());
        match glean.get_metric(&key) {
            Some(Metric::Boolean(b)) => Some(b),
            _ => None,
        }
    }
}

/// A metric that counts.
#[derive(Debug)]
pub struct CounterMetric {
    meta: CommonMetricData,
}

impl CounterMetric {
    /// The declaration of the metric.
    pub closed spec fn meta(&self) -> CommonMetricDataView {
        self.meta@
    }

    /// The metric declared by `meta`.
    pub fn new(meta: CommonMetricData) -> (metric: CounterMetric)
        ensures
            metric.meta() == meta@,
    {
        CounterMetric { meta }
    }

    /// Adds `amount` to the metric. The sum saturates; an amount of zero
    /// adds nothing.
    pub fn add(&self, glean: &mut Glean, amount: u64)
        ensures
            final(glean)@ == old(glean)@.launch(
                TaskView::AddCounter { meta: self.meta(), amount: amount as nat },
            ),
            old(glean)@.wf() ==> final(glean)@.wf(),
    {
        glean.launch(Task::AddCounter { meta: clone_metric_data(&self.meta), amount });
    }

    /// The value of the metric in the store `ping_name`, once every waiting
    /// task has run; nothing where the metric is unset there.
    pub fn test_get_value(&self, glean: &mut Glean, ping_name: &str) -> (value: Option<u64>)
        ensures
            final(glean)@ == old(glean)@.run_all(),
            match value {
                Some(c) => stored_counter(
                    final(glean)@,
                    spec_metric_id(self.meta(), ping_name@),
                ) == Some(c as nat),
                None => stored_counter(final(glean)@, spec_metric_id(self.meta(), ping_name@))
                    is None,
            },
            old(glean)@.with_mode(false).wf() ==> final(glean)@.wf(),
    {
        glean.block_on_queue();
        let key = MetricKey::for_store(&self.meta, &ping_name.to_owned());
        match glean.get_metric(&key) {
            Some(Metric::Counter(c)) => Some(c),
            _ => None,
        }
    }
}

/// A metric that holds a string.
#[derive(Debug)]
pub struct StringMetric {
    meta: CommonMetricData,
}

impl StringMetric {
    /// The declaration of the metric.
    pub closed spec fn meta(&self) -> CommonMetricDataView {
        self.meta@
    }

    /// The metric declared by `meta`.
    pub fn new(meta: CommonMetricData) -> (metric: StringMetric)
        ensures
            metric.meta() == meta@,
    {
        StringMetric { meta }
    }

    /// Sets the metric to `value`.
    pub fn set(&self, glean: &mut Glean, value: &str)
        ensures
            final(glean)@ == old(glean)@.launch(
                TaskView::Record { meta: self.meta(), value: MetricValue::Text(value@) },
            ),
            old(glean)@.wf() ==> final(glean)@.wf(),
    {
        glean.launch(
            Task::SetString { meta: clone_metric_data(&self.meta), text: value.to_owned() },
        );
    }

    /// The value of the metric in the store `ping_name`, once every waiting
    /// task has run; nothing where the metric is unset there.
    pub fn test_get_value(&self, glean: &mut Glean, ping_name: &str) -> (value: Option<String>)
        ensures
            final(glean)@ == old(glean)@.run_all(),
            match value {
                Some(t) => stored_text(final(glean)@, spec_metric_id(self.meta(), ping_name@))
                    == Some(t@),
                None => stored_text(final(glean)@, spec_metric_id(self.meta(), ping_name@))
                    is None,
            },
            old(glean)@.with_mode(false).wf() ==> final(glean)@.wf(),
    {
        glean.block_on_queue();
        let key = MetricKey::for_store(&self.meta, &ping_name.to_owned());
        match glean.get_metric(&key) {
            Some(Metric::Text(t)) => Some(t),
            _ => None,
        }
    }
}

impl PingType {
    /// Submits the ping: registers its definition, unless its name is taken,
    /// and asks for a ping of its name to be assembled. In test mode the
    /// pings that await delivery are then handed to the uploader, one pass
    /// over them, before the call returns.
    pub fn submit(&self, glean: &mut Glean, reason: Option<&str>)
        ensures
            ({
                let sent = spec_submitted(old(glean)@, self@, opt_str_view(reason));
                if sent.test_mode {
                    exists|results: Seq<UploadResult>|
                        results.len() == sent.core.uploads_in_pass() && final(glean)@
                            == #[trigger] sent.drain(results)
                } else {
                    final(glean)@ == sent
                }
            }),
            old(glean)@.wf() ==> final(glean)@.wf(),
    {
        glean.register_ping_type(self);
        glean.submit_ping_by_name(self.name.as_str(), reason);
        if glean.is_test_mode() {
            let results = glean.upload_pending();
            assert(glean@ == spec_submitted(old(glean)@, self@, opt_str_view(reason)).drain(
                results@,
            ));
        }
    }
}

} // verus!
