use glean::dispatcher::{DispatchError, Dispatcher, GLOBAL_DISPATCHER_LIMIT};
use glean::engine::overflow_metric;
use glean::metrics::{Metric, MetricKey};
use glean::private::{BooleanMetric, CounterMetric, PingType, StringMetric};
use glean::{
    ClientInfoMetrics, CommonMetricData, Configuration, DataDirectory, EngineState, Glean,
    Lifetime, PersistedState, Task,
};

fn configuration(upload_enabled: bool) -> Configuration {
    Configuration {
        data_path: "data".into(),
        application_id: "org.mozilla.rlb.test".into(),
        upload_enabled,
        max_events: None,
        delay_ping_lifetime_io: false,
        channel: Some("testing".into()),
        server_endpoint: Some("invalid-test-host".into()),
        uploader: None,
    }
}

fn make_ready(glean: &mut Glean, test_mode: bool) {
    glean.initialize(
        configuration(true),
        ClientInfoMetrics::unknown(),
        test_mode,
        DataDirectory::Prepared(PersistedState::empty()),
    );
}

fn meta(name: &str, store: &str, lifetime: Lifetime, disabled: bool) -> CommonMetricData {
    CommonMetricData {
        name: name.into(),
        category: "test".into(),
        send_in_pings: vec![store.into()],
        lifetime,
        disabled,
        dynamic_label: None,
    }
}

#[test]
fn the_engine_buffers_a_hundred_tasks() {
    assert_eq!(GLOBAL_DISPATCHER_LIMIT, 100);
    let d: Dispatcher<u32> = Dispatcher::new(GLOBAL_DISPATCHER_LIMIT);
    assert_eq!(d.capacity(), 100);
}

#[test]
fn tasks_wait_in_the_buffer_until_the_flush() {
    let mut d: Dispatcher<u32> = Dispatcher::new(5);
    assert_eq!(d.is_flushed(), false);
    assert_eq!(d.launch(1), Ok(()));
    assert_eq!(d.launch(2), Ok(()));
    assert_eq!(d.launch(3), Ok(()));
    assert_eq!(d.preinit_len(), 3);
    assert_eq!(d.pending_len(), 0);
    assert_eq!(d.next_task(), None);

    assert_eq!(d.flush_init(), Ok(0));
    assert_eq!(d.is_flushed(), true);
    assert_eq!(d.preinit_len(), 0);
    assert_eq!(d.pending_len(), 3);
    assert_eq!(d.next_task(), Some(1));
    assert_eq!(d.next_task(), Some(2));
    assert_eq!(d.next_task(), Some(3));
    assert_eq!(d.next_task(), None);
}

#[test]
fn tasks_launched_after_the_flush_queue_behind_the_buffered_ones() {
    let mut d: Dispatcher<u32> = Dispatcher::new(2);
    assert_eq!(d.launch(10), Ok(()));
    assert_eq!(d.flush_init(), Ok(0));
    assert_eq!(d.launch(20), Ok(()));
    assert_eq!(d.launch(30), Ok(()));
    assert_eq!(d.launch(40), Ok(()));
    assert_eq!(d.overflow_count(), 0);
    assert_eq!(d.next_task(), Some(10));
    assert_eq!(d.next_task(), Some(20));
    assert_eq!(d.next_task(), Some(30));
    assert_eq!(d.next_task(), Some(40));
    assert_eq!(d.next_task(), None);
}

#[test]
fn a_full_buffer_drops_the_newest_task_and_counts_it() {
    let mut d: Dispatcher<u32> = Dispatcher::new(2);
    assert_eq!(d.launch(1), Ok(()));
    assert_eq!(d.launch(2), Ok(()));
    assert_eq!(d.launch(3), Err(DispatchError::QueueFull));
    assert_eq!(d.launch(4), Err(DispatchError::QueueFull));
    assert_eq!(d.launch(5), Err(DispatchError::QueueFull));
    assert_eq!(d.preinit_len(), 2);
    assert_eq!(d.overflow_count(), 3);

    assert_eq!(d.flush_init(), Ok(3));
    assert_eq!(d.next_task(), Some(1));
    assert_eq!(d.next_task(), Some(2));
    assert_eq!(d.next_task(), None);
}

#[test]
fn a_buffer_without_room_drops_every_task() {
    let mut d: Dispatcher<u32> = Dispatcher::new(0);
    assert_eq!(d.launch(1), Err(DispatchError::QueueFull));
    assert_eq!(d.flush_init(), Ok(1));
    assert_eq!(d.next_task(), None);
    assert_eq!(d.launch(2), Ok(()));
    assert_eq!(d.next_task(), Some(2));
}

#[test]
fn the_buffer_is_flushed_once() {
    let mut d: Dispatcher<u32> = Dispatcher::new(2);
    assert_eq!(d.launch(1), Ok(()));
    assert_eq!(d.flush_init(), Ok(0));
    assert_eq!(d.flush_init(), Err(DispatchError::AlreadyFlushed));
    assert_eq!(d.pending_len(), 1);
    assert_eq!(d.next_task(), Some(1));
}

#[test]
fn overflowing_the_task_queue_records_telemetry() {
    let mut glean = Glean::with_dispatcher_limit(3);
    let metrics: Vec<BooleanMetric> = (0..5)
        .map(|i| BooleanMetric::new(meta(&format!("m{}", i), "store1", Lifetime::Application, false)))
        .collect();
    for metric in metrics.iter() {
        metric.set(&mut glean, true);
    }
    assert_eq!(glean.buffered_task_count(), 3);
    assert_eq!(glean.dropped_task_count(), 2);

    make_ready(&mut glean, true);
    assert_eq!(glean.state(), EngineState::Ready);
    assert_eq!(glean.buffered_task_count(), 0);
    assert_eq!(glean.waiting_task_count(), 0);

    // Exactly the three earliest tasks ran.
    assert_eq!(metrics[0].test_get_value(&mut glean, "store1"), Some(true));
    assert_eq!(metrics[1].test_get_value(&mut glean, "store1"), Some(true));
    assert_eq!(metrics[2].test_get_value(&mut glean, "store1"), Some(true));
    assert_eq!(metrics[3].test_get_value(&mut glean, "store1"), None);
    assert_eq!(metrics[4].test_get_value(&mut glean, "store1"), None);

    // The overflow counter went up by the number of the dropped tasks.
    let overflow = CounterMetric::new(overflow_metric());
    assert_eq!(overflow.test_get_value(&mut glean, "metrics"), Some(2));
}

#[test]
fn no_overflow_is_counted_when_every_task_found_room() {
    let mut glean = Glean::with_dispatcher_limit(3);
    let metric = BooleanMetric::new(meta("m", "store1", Lifetime::Application, false));
    metric.set(&mut glean, true);
    metric.set(&mut glean, false);
    metric.set(&mut glean, true);
    assert_eq!(glean.dropped_task_count(), 0);
    make_ready(&mut glean, true);
    assert_eq!(metric.test_get_value(&mut glean, "store1"), Some(true));
    let overflow = CounterMetric::new(overflow_metric());
    assert_eq!(overflow.test_get_value(&mut glean, "metrics"), None);
}

#[test]
fn ping_collection_must_happen_after_concurrently_scheduled_metrics_recordings() {
    let mut glean = Glean::new();
    let ping = PingType::new("store1", true, false, vec![]);
    let metric = BooleanMetric::new(meta("bool_metric", "store1", Lifetime::Ping, false));
    let noop = BooleanMetric::new(meta("unused", "store1", Lifetime::Ping, true));

    // Everything is launched before the engine is ready.
    glean.register_ping_type(&ping);
    noop.set(&mut glean, true);
    noop.set(&mut glean, false);
    metric.set(&mut glean, true);
    glean.submit_ping_by_name("store1", None);
    noop.set(&mut glean, true);
    assert_eq!(glean.buffered_task_count(), 6);
    assert_eq!(glean.pending_ping_count(), 0);

    make_ready(&mut glean, true);

    assert_eq!(glean.pending_ping_count(), 1);
    let queued = &glean.pending_pings()[0];
    assert_eq!(queued.name, "store1");
    assert_eq!(queued.document_id, 0);
    assert_eq!(queued.attempts, 0);
    assert_eq!(queued.path, "/submit/org.mozilla.rlb.test/store1/1/0");
    let key = MetricKey {
        lifetime: Lifetime::Ping,
        store: "store1".into(),
        category: "test".into(),
        name: "bool_metric".into(),
        label: None,
    };
    assert_eq!(queued.payload.get(&key), Some(Metric::Boolean(true)));
    assert_eq!(queued.payload.records().len(), 1);

    // The ping-lifetime metric was cleared when the ping was assembled.
    assert_eq!(metric.test_get_value(&mut glean, "store1"), None);
}

#[test]
fn queued_mode_runs_tasks_in_the_order_of_submission() {
    let mut glean = Glean::new();
    make_ready(&mut glean, false);
    assert_eq!(glean.is_test_mode(), false);

    let metric = BooleanMetric::new(meta("m", "store1", Lifetime::Application, false));
    metric.set(&mut glean, true);
    metric.set(&mut glean, false);
    assert_eq!(glean.waiting_task_count(), 2);
    // Nothing has run yet.
    assert_eq!(glean.stored_records().iter().filter(|r| r.key.name == "m").count(), 0);

    assert_eq!(glean.run_next(), true);
    assert_eq!(glean.waiting_task_count(), 1);
    assert_eq!(
        glean.stored_records().iter().find(|r| r.key.name == "m").map(|r| r.value.clone()),
        Some(Metric::Boolean(true))
    );
    assert_eq!(glean.run_next(), true);
    assert_eq!(glean.run_next(), false);
    assert_eq!(metric.test_get_value(&mut glean, "store1"), Some(false));
}

#[test]
fn block_on_queue_runs_everything_that_waits() {
    let mut glean = Glean::new();
    make_ready(&mut glean, false);
    let a = BooleanMetric::new(meta("a", "store1", Lifetime::Application, false));
    let b = CounterMetric::new(meta("b", "store1", Lifetime::Application, false));
    a.set(&mut glean, true);
    b.add(&mut glean, 2);
    b.add(&mut glean, 3);
    assert_eq!(glean.waiting_task_count(), 3);
    glean.block_on_queue();
    assert_eq!(glean.waiting_task_count(), 0);
    assert_eq!(a.test_get_value(&mut glean, "store1"), Some(true));
    assert_eq!(b.test_get_value(&mut glean, "store1"), Some(5));
}

#[test]
fn test_mode_and_queued_mode_agree() {
    let run = |test_mode: bool| {
        let mut glean = Glean::new();
        make_ready(&mut glean, test_mode);
        let counter = CounterMetric::new(meta("c", "store1", Lifetime::Ping, false));
        let ping = PingType::new("store1", false, false, vec![]);
        glean.register_ping_type(&ping);
        counter.add(&mut glean, 4);
        glean.set_upload_enabled(false);
        counter.add(&mut glean, 1);
        glean.set_upload_enabled(true);
        counter.add(&mut glean, 6);
        glean.submit_ping_by_name("store1", None);
        counter.add(&mut glean, 1);
        glean.block_on_queue();
        let pings: Vec<(u64, String, usize)> = glean
            .pending_pings()
            .iter()
            .map(|p| (p.document_id, p.name.clone(), p.payload.records().len()))
            .collect();
        (pings, counter.test_get_value(&mut glean, "store1"))
    };
    let eager = run(true);
    let queued = run(false);
    assert_eq!(eager, queued);
    assert_eq!(
        eager.0,
        vec![(0, "deletion-request".to_string(), 0), (1, "store1".to_string(), 1)]
    );
    assert_eq!(eager.1, Some(1));
}

#[test]
fn flipping_upload_enabled_respects_order_of_events() {
    let mut glean = Glean::new();
    make_ready(&mut glean, false);
    let metric = BooleanMetric::new(meta("m", "store1", Lifetime::Application, false));
    metric.set(&mut glean, true);
    glean.set_upload_enabled(false);
    metric.set(&mut glean, false);
    // The consent flag changes only when its task runs.
    assert_eq!(glean.is_upload_enabled(), true);
    glean.block_on_queue();
    assert_eq!(glean.is_upload_enabled(), false);
    assert_eq!(metric.test_get_value(&mut glean, "store1"), None);
}

#[test]
fn launching_a_task_directly_is_the_same_as_using_a_metric() {
    let mut glean = Glean::new();
    make_ready(&mut glean, true);
    glean.launch(Task::SetString {
        meta: meta("s", "store1", Lifetime::User, false),
        text: "hello".into(),
    });
    glean.launch(Task::AddCounter {
        meta: meta("c", "store1", Lifetime::User, false),
        amount: 0,
    });
    let s = StringMetric::new(meta("s", "store1", Lifetime::User, false));
    let c = CounterMetric::new(meta("c", "store1", Lifetime::User, false));
    assert_eq!(s.test_get_value(&mut glean, "store1"), Some("hello".to_string()));
    // An amount of zero adds nothing, not even an entry.
    assert_eq!(c.test_get_value(&mut glean, "store1"), None);
}
