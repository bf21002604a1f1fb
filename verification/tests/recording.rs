use glean::engine::{add_in, client_info_key, clone_metric_data, next_id_after, record_in, write_client_info};
use glean::metrics::{
    clone_opt_string, opt_string_eq, Metric, MetricKey, MetricStore, Record, Selector,
};
use glean::ping::{clone_strings, PingRegistry};
use glean::private::{BooleanMetric, CounterMetric, PingType, StringMetric};
use glean::upload::QueuedPing;
use glean::{
    ClientInfoMetrics, CommonMetricData, Configuration, DataDirectory, Glean, Lifetime,
    PersistedState,
};

fn ready(upload_enabled: bool) -> Glean {
    let mut glean = Glean::new();
    glean.initialize(
        Configuration {
            data_path: "data".into(),
            application_id: "org.mozilla.rlb.test".into(),
            upload_enabled,
            max_events: None,
            delay_ping_lifetime_io: false,
            channel: Some("testing".into()),
            server_endpoint: Some("invalid-test-host".into()),
            uploader: None,
        },
        ClientInfoMetrics {
            app_build: "7".into(),
            app_display_version: "1.2".into(),
        },
        true,
        DataDirectory::Prepared(PersistedState::empty()),
    );
    glean
}

fn meta(name: &str, stores: &[&str], lifetime: Lifetime) -> CommonMetricData {
    CommonMetricData {
        name: name.into(),
        category: "test".into(),
        send_in_pings: stores.iter().map(|s| s.to_string()).collect(),
        lifetime,
        disabled: false,
        dynamic_label: None,
    }
}

fn key(lifetime: Lifetime, store: &str, name: &str) -> MetricKey {
    MetricKey {
        lifetime,
        store: store.into(),
        category: "test".into(),
        name: name.into(),
        label: None,
    }
}

fn client_info(name: &str, lifetime: Lifetime) -> StringMetric {
    StringMetric::new(CommonMetricData {
        name: name.into(),
        category: "".into(),
        send_in_pings: vec!["glean_client_info".into()],
        lifetime,
        disabled: false,
        dynamic_label: None,
    })
}

#[test]
fn basic_metrics_should_be_cleared_when_disabling_uploading() {
    let mut glean = ready(true);
    let per_ping = BooleanMetric::new(meta("per_ping", &["store1"], Lifetime::Ping));
    let per_app = BooleanMetric::new(meta("per_app", &["store1"], Lifetime::Application));
    let per_user = BooleanMetric::new(meta("per_user", &["store1"], Lifetime::User));
    per_ping.set(&mut glean, true);
    per_app.set(&mut glean, true);
    per_user.set(&mut glean, true);
    assert_eq!(per_ping.test_get_value(&mut glean, "store1"), Some(true));
    assert_eq!(per_app.test_get_value(&mut glean, "store1"), Some(true));
    assert_eq!(per_user.test_get_value(&mut glean, "store1"), Some(true));

    glean.set_upload_enabled(false);

    assert_eq!(glean.is_upload_enabled(), false);
    assert_eq!(per_ping.test_get_value(&mut glean, "store1"), None);
    assert_eq!(per_app.test_get_value(&mut glean, "store1"), None);
    assert_eq!(per_user.test_get_value(&mut glean, "store1"), None);
    assert_eq!(client_info("app_build", Lifetime::Application).test_get_value(&mut glean, "glean_client_info"), None);

    // While consent is withdrawn, nothing is recorded.
    per_app.set(&mut glean, true);
    assert_eq!(per_app.test_get_value(&mut glean, "store1"), None);
}

#[test]
fn the_client_identifier_survives_the_withdrawal_of_consent() {
    let mut glean = ready(true);
    let client_id = client_info("client_id", Lifetime::User);
    client_id.set(&mut glean, "c0ffee");
    let old_ping = PingType::new("old", false, true, vec![]);
    old_ping.submit(&mut glean, None);
    assert_eq!(glean.pending_ping_count(), 1);

    glean.set_upload_enabled(false);

    assert_eq!(
        client_id.test_get_value(&mut glean, "glean_client_info"),
        Some("c0ffee".to_string())
    );
    assert_eq!(glean.stored_records().len(), 1);
    // The pings that waited are gone; a deletion request has taken their place.
    assert_eq!(glean.pending_ping_count(), 1);
    let request = &glean.pending_pings()[0];
    assert_eq!(request.name, "deletion-request");
    assert_eq!(request.document_id, 1);
    assert_eq!(request.path, "/submit/org.mozilla.rlb.test/deletion-request/1/1");
    assert_eq!(request.reason, None);
    assert_eq!(request.attempts, 0);
    assert_eq!(
        request.payload.get(&MetricKey::client_id()),
        Some(Metric::Text("c0ffee".to_string()))
    );
    assert_eq!(request.payload.records().len(), 1);
}

#[test]
fn core_metrics_should_be_cleared_and_restored_when_disabling_and_enabling_uploading() {
    let mut glean = ready(true);
    glean.set_upload_enabled(false);
    assert_eq!(glean.stored_records().len(), 0);

    glean.set_upload_enabled(true);

    assert_eq!(glean.is_upload_enabled(), true);
    assert_eq!(
        client_info("app_build", Lifetime::Application).test_get_value(&mut glean, "glean_client_info"),
        Some("7".to_string())
    );
    assert_eq!(
        client_info("app_display_version", Lifetime::Application)
            .test_get_value(&mut glean, "glean_client_info"),
        Some("1.2".to_string())
    );
    assert_eq!(
        client_info("app_channel", Lifetime::Application).test_get_value(&mut glean, "glean_client_info"),
        Some("testing".to_string())
    );
    assert_eq!(glean.stored_records().len(), 3);
    // Only the deletion request of the withdrawal waits.
    assert_eq!(glean.pending_ping_count(), 1);
}

#[test]
fn setting_the_consent_flag_to_what_it_is_changes_nothing() {
    let mut glean = ready(true);
    let metric = BooleanMetric::new(meta("m", &["store1"], Lifetime::Application));
    metric.set(&mut glean, true);
    glean.set_upload_enabled(true);
    assert_eq!(metric.test_get_value(&mut glean, "store1"), Some(true));
    assert_eq!(glean.pending_ping_count(), 0);

    glean.set_upload_enabled(false);
    assert_eq!(glean.pending_ping_count(), 1);
    glean.set_upload_enabled(false);
    assert_eq!(glean.pending_ping_count(), 1);
    assert_eq!(glean.pending_pings()[0].document_id, 0);
}

#[test]
fn an_engine_that_starts_without_consent_records_nothing() {
    let mut glean = ready(false);
    assert_eq!(glean.is_upload_enabled(), false);
    assert_eq!(glean.stored_records().len(), 0);
    let metric = BooleanMetric::new(meta("m", &["store1"], Lifetime::Application));
    metric.set(&mut glean, true);
    assert_eq!(metric.test_get_value(&mut glean, "store1"), None);
    let ping = PingType::new("p", false, true, vec![]);
    ping.submit(&mut glean, None);
    assert_eq!(glean.pending_ping_count(), 0);
}

#[test]
fn a_metric_is_recorded_in_each_of_its_stores() {
    let mut glean = ready(true);
    let metric = CounterMetric::new(meta("c", &["store1", "store2", "store1"], Lifetime::Ping));
    metric.add(&mut glean, 2);
    // The counter is sent in "store1" twice, so it counts twice there.
    assert_eq!(metric.test_get_value(&mut glean, "store1"), Some(4));
    assert_eq!(metric.test_get_value(&mut glean, "store2"), Some(2));
    assert_eq!(metric.test_get_value(&mut glean, "store3"), None);

    let flag = BooleanMetric::new(meta("b", &["store1", "store2"], Lifetime::Ping));
    flag.set(&mut glean, true);
    assert_eq!(flag.test_get_value(&mut glean, "store1"), Some(true));
    assert_eq!(flag.test_get_value(&mut glean, "store2"), Some(true));

    let nowhere = BooleanMetric::new(meta("n", &[], Lifetime::Ping));
    nowhere.set(&mut glean, true);
    assert_eq!(nowhere.test_get_value(&mut glean, "store1"), None);
}

#[test]
fn a_disabled_metric_records_nothing() {
    let mut glean = ready(true);
    let mut data = meta("m", &["store1"], Lifetime::Application);
    data.disabled = true;
    let flag = BooleanMetric::new(clone_metric_data(&data));
    let counter = CounterMetric::new(clone_metric_data(&data));
    let text = StringMetric::new(data);
    flag.set(&mut glean, true);
    counter.add(&mut glean, 3);
    text.set(&mut glean, "x");
    assert_eq!(flag.test_get_value(&mut glean, "store1"), None);
    assert_eq!(counter.test_get_value(&mut glean, "store1"), None);
    assert_eq!(text.test_get_value(&mut glean, "store1"), None);
}

#[test]
fn labels_tell_metrics_apart() {
    let mut glean = ready(true);
    let mut red = meta("c", &["store1"], Lifetime::Ping);
    red.dynamic_label = Some("red".into());
    let mut blue = meta("c", &["store1"], Lifetime::Ping);
    blue.dynamic_label = Some("blue".into());
    let red = CounterMetric::new(red);
    let blue = CounterMetric::new(blue);
    let plain = CounterMetric::new(meta("c", &["store1"], Lifetime::Ping));
    red.add(&mut glean, 1);
    blue.add(&mut glean, 2);
    blue.add(&mut glean, 2);
    assert_eq!(red.test_get_value(&mut glean, "store1"), Some(1));
    assert_eq!(blue.test_get_value(&mut glean, "store1"), Some(4));
    assert_eq!(plain.test_get_value(&mut glean, "store1"), None);
}

#[test]
fn a_value_of_another_kind_reads_as_unset() {
    let mut glean = ready(true);
    let flag = BooleanMetric::new(meta("m", &["store1"], Lifetime::Ping));
    let counter = CounterMetric::new(meta("m", &["store1"], Lifetime::Ping));
    let text = StringMetric::new(meta("m", &["store1"], Lifetime::Ping));
    flag.set(&mut glean, true);
    assert_eq!(counter.test_get_value(&mut glean, "store1"), None);
    assert_eq!(text.test_get_value(&mut glean, "store1"), None);
    // Adding to a value that is no counter starts from zero.
    counter.add(&mut glean, 5);
    assert_eq!(counter.test_get_value(&mut glean, "store1"), Some(5));
    assert_eq!(flag.test_get_value(&mut glean, "store1"), None);
}

#[test]
fn the_store_keeps_the_last_value_of_a_key() {
    let mut store = MetricStore::new();
    assert_eq!(store.is_empty(), true);
    let k = key(Lifetime::Ping, "s", "n");
    assert_eq!(store.get(&k), None);
    store.insert(k.clone(), Metric::Boolean(true));
    store.insert(key(Lifetime::User, "s", "n"), Metric::Counter(1));
    store.insert(k.clone(), Metric::Text("later".into()));
    assert_eq!(store.is_empty(), false);
    assert_eq!(store.get(&k), Some(Metric::Text("later".to_string())));
    assert_eq!(store.get(&key(Lifetime::User, "s", "n")), Some(Metric::Counter(1)));
    assert_eq!(store.get(&key(Lifetime::Application, "s", "n")), None);
    assert_eq!(store.records().len(), 2);
    let copy = store.duplicate();
    assert_eq!(copy.records(), store.records());
}

#[test]
fn records_handed_over_twice_count_once() {
    let k = key(Lifetime::Ping, "s", "n");
    let store = MetricStore::from_records(vec![
        Record { key: k.clone(), value: Metric::Counter(1) },
        Record { key: key(Lifetime::Ping, "s", "m"), value: Metric::Counter(2) },
        Record { key: k.clone(), value: Metric::Counter(3) },
    ]);
    // The later record of a key overrides the earlier one.
    assert_eq!(store.get(&k), Some(Metric::Counter(3)));
    let kept = store.filtered(&Selector::KeepAfterSend { store: "t".into() });
    assert_eq!(kept.get(&k), Some(Metric::Counter(3)));
    assert_eq!(kept.get(&key(Lifetime::Ping, "s", "m")), Some(Metric::Counter(2)));
}

#[test]
fn counters_saturate() {
    let mut store = MetricStore::new();
    let k = key(Lifetime::Ping, "s", "n");
    store.add_counter(k.clone(), 5);
    assert_eq!(store.get(&k), Some(Metric::Counter(5)));
    store.add_counter(k.clone(), u64::MAX - 5);
    assert_eq!(store.get(&k), Some(Metric::Counter(u64::MAX)));
    store.add_counter(k.clone(), 1);
    assert_eq!(store.get(&k), Some(Metric::Counter(u64::MAX)));
    let mut other = MetricStore::new();
    other.add_counter(k.clone(), u64::MAX - 1);
    other.add_counter(k.clone(), 2);
    assert_eq!(other.get(&k), Some(Metric::Counter(u64::MAX)));
}

#[test]
fn selectors_keep_what_they_say() {
    let exempt = MetricKey::client_id();
    assert_eq!(exempt.is_exempt(), true);
    assert_eq!(exempt.lifetime, Lifetime::User);
    assert_eq!(exempt.store, "glean_client_info");
    assert_eq!(exempt.category, "");
    assert_eq!(exempt.name, "client_id");
    assert_eq!(exempt.label, None);
    let mut labelled = MetricKey::client_id();
    labelled.label = Some("x".into());
    assert_eq!(labelled.is_exempt(), false);
    let mut per_app = MetricKey::client_id();
    per_app.lifetime = Lifetime::Application;
    assert_eq!(per_app.is_exempt(), false);

    let own = key(Lifetime::Ping, "p", "n");
    let own_app = key(Lifetime::Application, "p", "n");
    let other = key(Lifetime::Ping, "q", "n");

    assert_eq!(Selector::Exempt.matches(&exempt), true);
    assert_eq!(Selector::Exempt.matches(&own), false);
    let for_ping = Selector::ForPing { store: "p".into(), include_client_id: true };
    assert_eq!(for_ping.matches(&exempt), true);
    assert_eq!(for_ping.matches(&own), true);
    assert_eq!(for_ping.matches(&other), false);
    let bare = Selector::ForPing { store: "p".into(), include_client_id: false };
    assert_eq!(bare.matches(&exempt), false);
    assert_eq!(bare.matches(&own_app), true);
    let after = Selector::KeepAfterSend { store: "p".into() };
    assert_eq!(after.matches(&own), false);
    assert_eq!(after.matches(&own_app), true);
    assert_eq!(after.matches(&other), true);
    assert_eq!(after.matches(&exempt), true);

    assert_eq!(own.same(&key(Lifetime::Ping, "p", "n")), true);
    assert_eq!(own.same(&own_app), false);
    assert_eq!(own.same(&other), false);
    assert_eq!(own.same(&key(Lifetime::Ping, "p", "m")), false);
    assert_eq!(exempt.same(&labelled), false);
    assert_eq!(own.duplicate(), own);
}

#[test]
fn the_store_operations_filter_by_selector() {
    let mut store = MetricStore::new();
    store.insert(MetricKey::client_id(), Metric::Text("id".into()));
    store.insert(key(Lifetime::Ping, "p", "a"), Metric::Boolean(true));
    store.insert(key(Lifetime::Application, "p", "b"), Metric::Boolean(true));
    store.insert(key(Lifetime::Ping, "q", "c"), Metric::Boolean(true));

    let with_id = store.snapshot_for_ping(&"p".to_string(), true);
    assert_eq!(with_id.records().len(), 3);
    let without_id = store.snapshot_for_ping(&"p".to_string(), false);
    assert_eq!(without_id.records().len(), 2);
    assert_eq!(without_id.get(&MetricKey::client_id()), None);
    assert_eq!(store.snapshot_for_ping(&"r".to_string(), false).is_empty(), true);

    store.clear_ping_lifetime(&"p".to_string());
    assert_eq!(store.get(&key(Lifetime::Ping, "p", "a")), None);
    assert_eq!(store.get(&key(Lifetime::Application, "p", "b")), Some(Metric::Boolean(true)));
    assert_eq!(store.get(&key(Lifetime::Ping, "q", "c")), Some(Metric::Boolean(true)));

    store.clear_non_exempt();
    assert_eq!(store.records().len(), 1);
    assert_eq!(store.get(&MetricKey::client_id()), Some(Metric::Text("id".to_string())));
}

#[test]
fn the_helpers_of_the_engine_write_what_they_say() {
    let mut store = MetricStore::new();
    let data = meta("m", &["a", "b"], Lifetime::User);
    record_in(&mut store, &data, &Metric::Boolean(false));
    assert_eq!(store.get(&MetricKey::for_store(&data, &"a".to_string())), Some(Metric::Boolean(false)));
    assert_eq!(store.get(&key(Lifetime::User, "b", "m")), Some(Metric::Boolean(false)));
    add_in(&mut store, &data, 3);
    assert_eq!(store.get(&key(Lifetime::User, "a", "m")), Some(Metric::Counter(3)));
    add_in(&mut store, &data, 4);
    assert_eq!(store.get(&key(Lifetime::User, "b", "m")), Some(Metric::Counter(7)));

    let k = client_info_key("app_build");
    assert_eq!(k.lifetime, Lifetime::Application);
    assert_eq!(k.store, "glean_client_info");
    assert_eq!(k.category, "");
    assert_eq!(k.name, "app_build");
    assert_eq!(k.label, None);

    let mut described = MetricStore::new();
    write_client_info(&mut described, &None, &None);
    assert_eq!(described.is_empty(), true);
    write_client_info(
        &mut described,
        &Some(ClientInfoMetrics { app_build: "b".into(), app_display_version: "v".into() }),
        &None,
    );
    assert_eq!(described.records().len(), 2);
    assert_eq!(described.get(&client_info_key("app_build")), Some(Metric::Text("b".to_string())));
    assert_eq!(
        described.get(&client_info_key("app_display_version")),
        Some(Metric::Text("v".to_string()))
    );
    write_client_info(&mut described, &None, &Some("beta".to_string()));
    assert_eq!(described.get(&client_info_key("app_channel")), Some(Metric::Text("beta".to_string())));

    let unknown = ClientInfoMetrics::unknown();
    assert_eq!(unknown.app_build, "Unknown");
    assert_eq!(unknown.app_display_version, "Unknown");
}

#[test]
fn the_next_identifier_lies_above_every_one_in_use() {
    let ping = |document_id: u64| QueuedPing {
        document_id,
        name: "p".into(),
        path: "".into(),
        reason: None,
        payload: MetricStore::new(),
        attempts: 0,
    };
    assert_eq!(next_id_after(&vec![], 0), 0);
    assert_eq!(next_id_after(&vec![], 9), 9);
    assert_eq!(next_id_after(&vec![ping(3), ping(8), ping(5)], 0), 9);
    assert_eq!(next_id_after(&vec![ping(3), ping(8), ping(5)], 20), 20);
    assert_eq!(next_id_after(&vec![ping(0)], 0), 1);
    assert_eq!(next_id_after(&vec![ping(u64::MAX)], 0), u64::MAX);
    assert_eq!(next_id_after(&vec![ping(u64::MAX - 1)], 0), u64::MAX);
}

#[test]
fn when_the_identifiers_run_out_no_ping_is_assembled() {
    let mut glean = Glean::new();
    glean.initialize(
        Configuration {
            data_path: "data".into(),
            application_id: "app".into(),
            upload_enabled: true,
            max_events: None,
            delay_ping_lifetime_io: false,
            channel: None,
            server_endpoint: None,
            uploader: None,
        },
        ClientInfoMetrics::unknown(),
        true,
        DataDirectory::Prepared(PersistedState {
            records: vec![],
            pending: vec![],
            next_document_id: u64::MAX - 1,
        }),
    );
    let ping = PingType::new("p", false, true, vec![]);
    ping.submit(&mut glean, None);
    assert_eq!(glean.pending_ping_count(), 1);
    assert_eq!(glean.pending_pings()[0].document_id, u64::MAX - 1);
    ping.submit(&mut glean, None);
    assert_eq!(glean.pending_ping_count(), 1);
    // Withdrawing consent still clears, though no deletion request can be made.
    glean.set_upload_enabled(false);
    assert_eq!(glean.is_upload_enabled(), false);
    assert_eq!(glean.pending_ping_count(), 0);
}

#[test]
fn the_registry_keeps_the_first_definition_of_a_name() {
    let mut registry = PingRegistry::new();
    assert_eq!(registry.len(), 0);
    assert!(registry.lookup(&"p".to_string()).is_none());
    assert_eq!(registry.register(PingType::new("p", true, false, vec!["a".to_string()])), true);
    assert_eq!(registry.register(PingType::new("q", false, false, vec![])), true);
    assert_eq!(registry.register(PingType::new("p", false, true, vec![])), false);
    assert_eq!(registry.len(), 2);
    let found = registry.lookup(&"p".to_string()).unwrap();
    assert_eq!(found.name, "p");
    assert_eq!(found.include_client_id, true);
    assert_eq!(found.send_if_empty, false);
    assert_eq!(found.reason_codes, vec!["a".to_string()]);
    assert!(registry.lookup(&"r".to_string()).is_none());
}

#[test]
fn a_definition_permits_its_own_reasons() {
    let ping = PingType::new("p", true, false, vec!["a".to_string(), "b".to_string()]);
    assert_eq!(ping.permits(&"a".to_string()), true);
    assert_eq!(ping.permits(&"b".to_string()), true);
    assert_eq!(ping.permits(&"c".to_string()), false);
    assert_eq!(ping.permits(&"".to_string()), false);
    assert_eq!(ping.checked_reason(&Some("b".to_string())), Some("b".to_string()));
    assert_eq!(ping.checked_reason(&Some("c".to_string())), None);
    assert_eq!(ping.checked_reason(&None), None);
    let copy = ping.duplicate();
    assert_eq!(copy.name, "p");
    assert_eq!(copy.include_client_id, true);
    assert_eq!(copy.send_if_empty, false);
    assert_eq!(copy.reason_codes, vec!["a".to_string(), "b".to_string()]);
}

#[test]
fn the_copying_helpers_copy() {
    assert_eq!(clone_strings(&vec!["a".to_string(), "".to_string()]), vec!["a".to_string(), "".to_string()]);
    assert_eq!(clone_strings(&vec![]), Vec::<String>::new());
    assert_eq!(clone_opt_string(&Some("x".to_string())), Some("x".to_string()));
    assert_eq!(clone_opt_string(&None), None);
    assert_eq!(opt_string_eq(&Some("x".to_string()), &Some("x".to_string())), true);
    assert_eq!(opt_string_eq(&Some("x".to_string()), &Some("y".to_string())), false);
    assert_eq!(opt_string_eq(&Some("x".to_string()), &None), false);
    assert_eq!(opt_string_eq(&None, &Some("x".to_string())), false);
    assert_eq!(opt_string_eq(&None, &None), true);
    let data = meta("m", &["a", "b"], Lifetime::User);
    let copy = clone_metric_data(&data);
    assert_eq!(copy.name, "m");
    assert_eq!(copy.category, "test");
    assert_eq!(copy.send_in_pings, vec!["a".to_string(), "b".to_string()]);
    assert_eq!(copy.lifetime, Lifetime::User);
    assert_eq!(copy.disabled, false);
    assert_eq!(copy.dynamic_label, None);
    assert_eq!(Metric::Text("t".into()).duplicate(), Metric::Text("t".to_string()));
    let record = Record { key: key(Lifetime::Ping, "s", "n"), value: Metric::Counter(2) };
    assert_eq!(record.duplicate(), record);
}
