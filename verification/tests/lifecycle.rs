use std::io::Write;
use std::path::PathBuf;

use glean::metrics::{Metric, MetricKey, MetricStore, Record};
use glean::net::{PingUploader, UploadResult};
use glean::upload::QueuedPing;
use glean::private::{BooleanMetric, PingType, StringMetric};
use glean::CommonMetricData;
use glean::{ClientInfoMetrics, Configuration, DataDirectory, EngineState, Glean, Lifetime, PersistedState};

const GLOBAL_APPLICATION_ID: &str = "org.mozilla.rlb.test";
const PING_NAME: &str = "test-ping";

// A fake uploader that reports back the submission URL using a channel.
#[derive(Debug)]
pub struct FakeUploader {
    sender: crossbeam_channel::Sender<String>,
}

impl PingUploader for FakeUploader {
    fn upload(&self, url: String, _body: Vec<u8>, _headers: Vec<(String, String)>) -> UploadResult {
        self.sender.send(url).unwrap();
        UploadResult::HttpStatus(200)
    }
}

// Looks at the data directory as the host of the engine does before it hands
// the outcome to the engine.
fn prepare_data_dir(path: &str) -> DataDirectory {
    if std::path::Path::new(path).is_dir() {
        DataDirectory::Prepared(PersistedState::empty())
    } else {
        DataDirectory::Unavailable
    }
}

fn reset_glean(glean: &mut Glean, cfg: Configuration, client_info: ClientInfoMetrics, test_mode: bool) {
    let directory = prepare_data_dir(&cfg.data_path);
    glean.initialize(cfg, client_info, test_mode, directory);
}

// Create a new instance of Glean with a temporary directory.
// We need to keep the `TempDir` alive, so that it's not deleted before we stop using it.
fn new_glean(configuration: Option<Configuration>) -> (Glean, tempfile::TempDir) {
    let dir = tempfile::tempdir().unwrap();
    let tmpname = dir.path().display().to_string();

    let cfg = match configuration {
        Some(c) => c,
        None => Configuration {
            data_path: tmpname,
            application_id: GLOBAL_APPLICATION_ID.into(),
            upload_enabled: true,
            max_events: None,
            delay_ping_lifetime_io: false,
            channel: Some("testing".into()),
            server_endpoint: Some("invalid-test-host".into()),
            uploader: None,
        },
    };

    let mut glean = Glean::new();
    reset_glean(&mut glean, cfg, ClientInfoMetrics::unknown(), true);
    (glean, dir)
}

fn bool_metric(name: &str, store: &str, lifetime: Lifetime) -> BooleanMetric {
    BooleanMetric::new(CommonMetricData {
        name: name.into(),
        category: "test".into(),
        send_in_pings: vec![store.into()],
        lifetime,
        disabled: false,
        dynamic_label: None,
    })
}

fn client_info_metric(name: &str) -> StringMetric {
    StringMetric::new(CommonMetricData {
        name: name.into(),
        category: "".into(),
        send_in_pings: vec!["glean_client_info".into()],
        lifetime: Lifetime::Application,
        disabled: false,
        dynamic_label: None,
    })
}

#[test]
fn send_a_ping() {
    env_logger::try_init().ok();

    let (s, r) = crossbeam_channel::bounded::<String>(1);

    // Create a custom configuration to use a fake uploader.
    let dir = tempfile::tempdir().unwrap();
    let tmpname = dir.path().display().to_string();

    let cfg = Configuration {
        data_path: tmpname,
        application_id: GLOBAL_APPLICATION_ID.into(),
        upload_enabled: true,
        max_events: None,
        delay_ping_lifetime_io: false,
        channel: Some("testing".into()),
        server_endpoint: Some("invalid-test-host".into()),
        uploader: Some(Box::new(FakeUploader { sender: s })),
    };

    let (mut glean, _t) = new_glean(Some(cfg));
    glean.block_on_queue();

    // Define a new ping and submit it.
    let custom_ping = PingType::new(PING_NAME, true, true, vec![]);
    custom_ping.submit(&mut glean, None);

    // Wait for the ping to arrive.
    let url = r.recv().unwrap();
    assert_eq!(url.contains(PING_NAME), true);
}

#[test]
fn disabling_upload_disables_metrics_recording() {
    env_logger::try_init().ok();

    let (mut glean, _t) = new_glean(None);
    glean.block_on_queue();

    let metric = BooleanMetric::new(CommonMetricData {
        name: "bool_metric".into(),
        category: "test".into(),
        send_in_pings: vec!["store1".into()],
        lifetime: Lifetime::Application,
        disabled: false,
        dynamic_label: None,
    });

    glean.set_upload_enabled(false);

    assert!(metric.test_get_value(&mut glean, "store1").is_none())
}

#[test]
fn initialize_must_not_crash_if_data_dir_is_messed_up() {
    env_logger::try_init().ok();

    let dir = tempfile::tempdir().unwrap();
    let tmpdirname = dir.path().display().to_string();
    // Create a file in the temporary dir and use that as the
    // name of the Glean data dir.
    let file_path = PathBuf::from(tmpdirname).join("notadir");
    let mut file = tempfile::Builder::new()
        .prefix("notadir")
        .rand_bytes(0)
        .tempfile_in(dir.path())
        .expect("The test Glean dir file must be created");
    file.write_all("test".as_bytes())
        .expect("The test Glean dir file must be created");
    assert_eq!(file.path(), file_path.as_path());

    let cfg = Configuration {
        data_path: file_path.to_string_lossy().to_string(),
        application_id: GLOBAL_APPLICATION_ID.into(),
        upload_enabled: true,
        max_events: None,
        delay_ping_lifetime_io: false,
        channel: Some("testing".into()),
        server_endpoint: Some("invalid-test-host".into()),
        uploader: None,
    };

    let mut glean = Glean::new();
    reset_glean(&mut glean, cfg, ClientInfoMetrics::unknown(), false);

    // The engine goes on in the failed state, and a metric reads as unset.
    assert_eq!(glean.state(), EngineState::InitFailed);
    let metric = bool_metric("bool_metric", "store1", Lifetime::Application);
    metric.set(&mut glean, true);
    assert!(metric.test_get_value(&mut glean, "store1").is_none());
    assert_eq!(glean.state(), EngineState::InitFailed);
}

#[test]
fn initializing_twice_is_a_noop() {
    env_logger::try_init().ok();

    let dir = tempfile::tempdir().unwrap();
    let tmpname = dir.path().display().to_string();

    let mut glean = Glean::new();
    reset_glean(
        &mut glean,
        Configuration {
            data_path: tmpname.clone(),
            application_id: GLOBAL_APPLICATION_ID.into(),
            upload_enabled: true,
            max_events: None,
            delay_ping_lifetime_io: false,
            channel: Some("testing".into()),
            server_endpoint: Some("invalid-test-host".into()),
            uploader: None,
        },
        ClientInfoMetrics::unknown(),
        true,
    );

    glean.block_on_queue();

    reset_glean(
        &mut glean,
        Configuration {
            data_path: tmpname,
            application_id: GLOBAL_APPLICATION_ID.into(),
            upload_enabled: true,
            max_events: None,
            delay_ping_lifetime_io: false,
            channel: Some("testing".into()),
            server_endpoint: Some("invalid-test-host".into()),
            uploader: None,
        },
        ClientInfoMetrics::unknown(),
        false,
    );

    assert_eq!(glean.state(), EngineState::Ready);
    assert_eq!(glean.is_test_mode(), true);
    assert_eq!(glean.application_id(), Some(GLOBAL_APPLICATION_ID.to_string()));
}

#[test]
fn a_new_engine_is_uninitialized() {
    let glean = Glean::new();
    assert_eq!(glean.state(), EngineState::Uninitialized);
    assert_eq!(glean.is_initialized(), false);
    assert_eq!(glean.is_upload_enabled(), false);
    assert_eq!(glean.application_id(), None);
    assert_eq!(glean.pending_ping_count(), 0);
    assert_eq!(glean.stored_records().len(), 0);
    assert_eq!(glean.buffered_task_count(), 0);
    assert_eq!(glean.waiting_task_count(), 0);
    assert_eq!(glean.dropped_task_count(), 0);
}

#[test]
fn reinitializing_with_another_application_id_keeps_the_first() {
    let (mut glean, dir) = new_glean(None);
    let metric = bool_metric("bool_metric", "store1", Lifetime::Application);
    metric.set(&mut glean, true);

    let other = Configuration {
        data_path: dir.path().display().to_string(),
        application_id: "org.mozilla.other".into(),
        upload_enabled: false,
        max_events: Some(3),
        delay_ping_lifetime_io: true,
        channel: None,
        server_endpoint: None,
        uploader: None,
    };
    let started = glean.begin_initialize(
        other,
        ClientInfoMetrics {
            app_build: "2".into(),
            app_display_version: "2.0".into(),
        },
        false,
    );
    assert_eq!(started, None);
    glean.finish_initialize(DataDirectory::Unavailable);

    assert_eq!(glean.state(), EngineState::Ready);
    assert_eq!(glean.application_id(), Some(GLOBAL_APPLICATION_ID.to_string()));
    assert_eq!(glean.is_upload_enabled(), true);
    assert_eq!(glean.is_test_mode(), true);
    assert_eq!(metric.test_get_value(&mut glean, "store1"), Some(true));
    assert_eq!(
        client_info_metric("app_build").test_get_value(&mut glean, "glean_client_info"),
        Some("Unknown".to_string())
    );
}

#[test]
fn concurrent_initializations_collapse_into_one() {
    let dir = tempfile::tempdir().unwrap();
    let path = dir.path().display().to_string();
    let mut glean = Glean::new();

    let first = glean.begin_initialize(
        Configuration {
            data_path: path.clone(),
            application_id: "first".into(),
            upload_enabled: true,
            max_events: None,
            delay_ping_lifetime_io: false,
            channel: None,
            server_endpoint: None,
            uploader: None,
        },
        ClientInfoMetrics::unknown(),
        true,
    );
    assert_eq!(first, Some(path.clone()));
    assert_eq!(glean.state(), EngineState::Initializing);

    let second = glean.begin_initialize(
        Configuration {
            data_path: "elsewhere".into(),
            application_id: "second".into(),
            upload_enabled: false,
            max_events: None,
            delay_ping_lifetime_io: false,
            channel: None,
            server_endpoint: None,
            uploader: None,
        },
        ClientInfoMetrics::unknown(),
        false,
    );
    assert_eq!(second, None);
    assert_eq!(glean.state(), EngineState::Initializing);

    glean.finish_initialize(prepare_data_dir(&path));
    assert_eq!(glean.state(), EngineState::Ready);
    assert_eq!(glean.application_id(), Some("first".to_string()));
    assert_eq!(glean.is_upload_enabled(), true);

    // The directory outcome of the second caller arrives late and changes nothing.
    glean.finish_initialize(DataDirectory::Unavailable);
    assert_eq!(glean.state(), EngineState::Ready);
}

#[test]
fn a_failed_initialization_can_be_followed_by_a_successful_one() {
    let dir = tempfile::tempdir().unwrap();
    let good = dir.path().display().to_string();
    let bad = dir.path().join("missing").display().to_string();
    let mut glean = Glean::new();
    let metric = bool_metric("bool_metric", "store1", Lifetime::Application);

    let cfg = |path: String, id: &str| Configuration {
        data_path: path,
        application_id: id.into(),
        upload_enabled: true,
        max_events: None,
        delay_ping_lifetime_io: false,
        channel: None,
        server_endpoint: None,
        uploader: None,
    };

    reset_glean(&mut glean, cfg(bad, "failed"), ClientInfoMetrics::unknown(), true);
    assert_eq!(glean.state(), EngineState::InitFailed);
    metric.set(&mut glean, true);
    assert_eq!(glean.buffered_task_count(), 1);
    assert!(metric.test_get_value(&mut glean, "store1").is_none());

    reset_glean(&mut glean, cfg(good, "working"), ClientInfoMetrics::unknown(), true);
    assert_eq!(glean.state(), EngineState::Ready);
    assert_eq!(glean.application_id(), Some("working".to_string()));
    // The write that waited in the buffer ran once the engine became ready.
    assert_eq!(glean.buffered_task_count(), 0);
    assert_eq!(metric.test_get_value(&mut glean, "store1"), Some(true));
}

#[test]
fn the_client_description_is_written_on_initialization() {
    let (mut glean, _t) = new_glean(None);
    assert_eq!(
        client_info_metric("app_build").test_get_value(&mut glean, "glean_client_info"),
        Some("Unknown".to_string())
    );
    assert_eq!(
        client_info_metric("app_display_version").test_get_value(&mut glean, "glean_client_info"),
        Some("Unknown".to_string())
    );
}

#[test]
fn the_app_channel_must_be_correctly_set_if_requested() {
    let (mut with_channel, _t) = new_glean(None);
    assert_eq!(
        client_info_metric("app_channel").test_get_value(&mut with_channel, "glean_client_info"),
        Some("testing".to_string())
    );

    let dir = tempfile::tempdir().unwrap();
    let (mut without_channel, _t) = new_glean(Some(Configuration {
        data_path: dir.path().display().to_string(),
        application_id: GLOBAL_APPLICATION_ID.into(),
        upload_enabled: true,
        max_events: None,
        delay_ping_lifetime_io: false,
        channel: None,
        server_endpoint: Some("invalid-test-host".into()),
        uploader: None,
    }));
    assert_eq!(
        client_info_metric("app_channel").test_get_value(&mut without_channel, "glean_client_info"),
        None
    );
}

#[test]
fn queued_recorded_metrics_correctly_record_during_init() {
    let dir = tempfile::tempdir().unwrap();
    let path = dir.path().display().to_string();
    let mut glean = Glean::new();
    let metric = bool_metric("bool_metric", "store1", Lifetime::Application);

    // Recorded before any initialization, and again while one is under way.
    metric.set(&mut glean, false);
    let started = glean.begin_initialize(
        Configuration {
            data_path: path.clone(),
            application_id: GLOBAL_APPLICATION_ID.into(),
            upload_enabled: true,
            max_events: None,
            delay_ping_lifetime_io: false,
            channel: Some("testing".into()),
            server_endpoint: Some("invalid-test-host".into()),
            uploader: None,
        },
        ClientInfoMetrics::unknown(),
        true,
    );
    assert_eq!(started, Some(path.clone()));
    metric.set(&mut glean, true);
    assert_eq!(glean.buffered_task_count(), 2);
    assert_eq!(glean.stored_records().len(), 0);

    glean.finish_initialize(prepare_data_dir(&path));

    assert_eq!(glean.buffered_task_count(), 0);
    assert_eq!(metric.test_get_value(&mut glean, "store1"), Some(true));
}

#[test]
fn what_the_data_directory_held_is_taken_over() {
    let key = MetricKey {
        lifetime: Lifetime::User,
        store: "store1".into(),
        category: "test".into(),
        name: "kept".into(),
        label: None,
    };
    let left_over = QueuedPing {
        document_id: 41,
        name: "old-ping".into(),
        path: "/submit/app/old-ping/1/41".into(),
        reason: None,
        payload: MetricStore::new(),
        attempts: 1,
    };
    let persisted = PersistedState {
        records: vec![Record { key: key.clone(), value: Metric::Counter(9) }],
        pending: vec![left_over],
        next_document_id: 7,
    };

    let mut glean = Glean::new();
    glean.initialize(
        Configuration {
            data_path: "data".into(),
            application_id: "app".into(),
            upload_enabled: true,
            max_events: None,
            delay_ping_lifetime_io: false,
            channel: None,
            server_endpoint: None,
            uploader: None,
        },
        ClientInfoMetrics::unknown(),
        true,
        DataDirectory::Prepared(persisted),
    );

    assert_eq!(glean.get_metric(&key), Some(Metric::Counter(9)));
    assert_eq!(glean.pending_ping_count(), 1);
    assert_eq!(glean.pending_pings()[0].document_id, 41);

    // The next ping gets an identifier above every one in use.
    let ping = PingType::new("new-ping", false, true, vec![]);
    ping.submit(&mut glean, None);
    assert_eq!(glean.pending_ping_count(), 2);
    assert_eq!(glean.pending_pings()[1].document_id, 42);
    assert_eq!(glean.pending_pings()[1].path, "/submit/app/new-ping/1/42");
}

#[test]
fn a_data_directory_is_in_order_when_its_identifiers_differ() {
    let ping = |document_id: u64| QueuedPing {
        document_id,
        name: "p".into(),
        path: "".into(),
        reason: None,
        payload: MetricStore::new(),
        attempts: 0,
    };
    let holding = |pending: Vec<QueuedPing>| {
        DataDirectory::Prepared(PersistedState { records: vec![], pending, next_document_id: 0 })
    };
    assert_eq!(DataDirectory::Unavailable.is_in_order(), true);
    assert_eq!(DataDirectory::Prepared(PersistedState::empty()).is_in_order(), true);
    assert_eq!(holding(vec![ping(4)]).is_in_order(), true);
    assert_eq!(holding(vec![ping(4), ping(2), ping(9)]).is_in_order(), true);
    assert_eq!(holding(vec![ping(4), ping(2), ping(4)]).is_in_order(), false);
    assert_eq!(holding(vec![ping(2), ping(2)]).is_in_order(), false);
    assert_eq!(glean::engine::has_distinct_identifiers(&vec![ping(1), ping(3), ping(3)]), false);
}

#[test]
fn shutting_down_runs_what_waits() {
    let mut glean = Glean::new();
    reset_glean_in(&mut glean);
    let metric = bool_metric("m", "store1", Lifetime::Application);
    metric.set(&mut glean, true);
    assert_eq!(glean.waiting_task_count(), 1);
    glean.shutdown();
    assert_eq!(glean.waiting_task_count(), 0);
    assert_eq!(
        glean.get_metric(&MetricKey {
            lifetime: Lifetime::Application,
            store: "store1".into(),
            category: "test".into(),
            name: "m".into(),
            label: None,
        }),
        Some(Metric::Boolean(true))
    );
}

fn reset_glean_in(glean: &mut Glean) {
    glean.initialize(
        Configuration {
            data_path: "data".into(),
            application_id: GLOBAL_APPLICATION_ID.into(),
            upload_enabled: true,
            max_events: None,
            delay_ping_lifetime_io: false,
            channel: None,
            server_endpoint: None,
            uploader: None,
        },
        ClientInfoMetrics::unknown(),
        false,
        DataDirectory::Prepared(PersistedState::empty()),
    );
}

#[test]
fn a_data_directory_out_of_order_counts_as_unavailable() {
    let ping = |document_id: u64| QueuedPing {
        document_id,
        name: "p".into(),
        path: "".into(),
        reason: None,
        payload: MetricStore::new(),
        attempts: 0,
    };
    let mut glean = Glean::new();
    glean.initialize(
        Configuration {
            data_path: "data".into(),
            application_id: GLOBAL_APPLICATION_ID.into(),
            upload_enabled: true,
            max_events: None,
            delay_ping_lifetime_io: false,
            channel: None,
            server_endpoint: None,
            uploader: None,
        },
        ClientInfoMetrics::unknown(),
        true,
        DataDirectory::Prepared(PersistedState {
            records: vec![],
            pending: vec![ping(3), ping(3)],
            next_document_id: 4,
        }),
    );
    assert_eq!(glean.state(), EngineState::InitFailed);
    assert_eq!(glean.pending_ping_count(), 0);
    assert_eq!(glean.stored_records().len(), 0);
}
