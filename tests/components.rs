use processor::config::{ConfigError, IndexerGrpcProcessorConfig};
use processor::dispatcher::{AdmitError, ConcurrentDispatcher};
use processor::fetcher::{request_range, BatchFetcher, FetchError, RangeRequest, StreamRecovery};
use processor::progress::{resume_version, CommitOutcome, PersistError, ProgressTracker};
use processor::reorder::{ProcessingResult, ReorderCommitBuffer, ReorderError};
use processor::retry::{RetryDecision, RetryPolicy, RetryState};
use processor::stream::{PingAction, PingMonitor};

fn result(start: u64, end: u64) -> ProcessingResult {
    ProcessingResult { start_version: start, end_version: end, effects: vec![1, 2, 3] }
}

fn ranges(v: &[ProcessingResult]) -> Vec<(u64, u64)> {
    v.iter().map(|r| (r.start_version, r.end_version)).collect()
}

fn config() -> IndexerGrpcProcessorConfig {
    IndexerGrpcProcessorConfig {
        processor_name: "pubsub".to_string(),
        postgres_connection_string: "postgres://db".to_string(),
        indexer_grpc_data_service_address: "http://upstream:50051".to_string(),
        indexer_grpc_http2_ping_interval_in_secs: None,
        indexer_grpc_http2_ping_timeout_in_secs: None,
        auth_token: "bearer-token".to_string(),
        starting_version: None,
        ending_version: None,
        number_concurrent_processing_tasks: None,
        nft_points_contract: None,
        pubsub_topic_name: Some("topic".to_string()),
        google_application_credentials: None,
    }
}

#[test]
fn config_defaults() {
    let c = config();
    assert_eq!(c.get_server_name(), "idxproc");
    assert_eq!(c.ping_interval_secs(), 30);
    assert_eq!(c.ping_timeout_secs(), 10);
    assert_eq!(c.concurrency(), 1);
    assert_eq!(c.starting_version_or_default(), 0);
    let s = c.worker_settings().unwrap();
    assert_eq!(s.ping_interval_secs, 30);
    assert_eq!(s.ping_timeout_secs, 10);
    assert_eq!(s.concurrency, 1);
    assert_eq!(s.processor_name, "pubsub");
    assert_eq!(s.auth_token, "bearer-token");
    assert_eq!(s.pubsub_topic_name.as_deref(), Some("topic"));
}

#[test]
fn config_explicit_values() {
    let mut c = config();
    c.indexer_grpc_http2_ping_interval_in_secs = Some(5);
    c.indexer_grpc_http2_ping_timeout_in_secs = Some(2);
    c.number_concurrent_processing_tasks = Some(8);
    c.starting_version = Some(10);
    let s = c.worker_settings().unwrap();
    assert_eq!((s.ping_interval_secs, s.ping_timeout_secs, s.concurrency), (5, 2, 8));
    assert_eq!(s.starting_version, Some(10));
}

#[test]
fn config_errors() {
    let mut c = config();
    c.number_concurrent_processing_tasks = Some(0);
    assert!(matches!(c.worker_settings(), Err(ConfigError::ZeroConcurrency)));
    let mut c = config();
    c.starting_version = Some(10);
    c.ending_version = Some(9);
    assert!(matches!(
        c.worker_settings(),
        Err(ConfigError::EndingBeforeStarting { starting: 10, ending: 9 })
    ));
    c.ending_version = Some(10);
    assert!(c.worker_settings().is_ok());
}

#[test]
fn reorder_releases_contiguous_runs_only() {
    let mut b = ReorderCommitBuffer::new(0);
    assert!(b.insert(result(20, 29)).unwrap().is_empty());
    assert!(b.insert(result(10, 19)).unwrap().is_empty());
    assert_eq!(b.pending_len(), 2);
    let out = b.insert(result(0, 9)).unwrap();
    assert_eq!(ranges(&out), vec![(0, 9), (10, 19), (20, 29)]);
    assert_eq!(out[0].effects, vec![1, 2, 3]);
    assert_eq!(b.next_commit_version(), 30);
    assert_eq!(b.pending_len(), 0);
}

#[test]
fn reorder_every_completion_order_gives_same_commits() {
    let orders = [[0usize, 1, 2], [0, 2, 1], [1, 0, 2], [1, 2, 0], [2, 0, 1], [2, 1, 0]];
    let batches = [(5u64, 9u64), (10, 10), (11, 30)];
    for order in orders.iter() {
        let mut b = ReorderCommitBuffer::new(5);
        let mut all = Vec::new();
        for &i in order.iter() {
            all.extend(ranges(&b.insert(result(batches[i].0, batches[i].1)).unwrap()));
        }
        assert_eq!(all, vec![(5, 9), (10, 10), (11, 30)]);
        assert_eq!(b.next_commit_version(), 31);
    }
}

#[test]
fn reorder_errors() {
    let mut b = ReorderCommitBuffer::new(10);
    assert_eq!(
        b.insert(result(5, 4)).unwrap_err(),
        ReorderError::InvalidRange { start_version: 5, end_version: 4 }
    );
    assert_eq!(
        b.insert(result(12, u64::MAX)).unwrap_err(),
        ReorderError::VersionOverflow { end_version: u64::MAX }
    );
    assert_eq!(
        b.insert(result(3, 9)).unwrap_err(),
        ReorderError::AlreadyCommitted { start_version: 3, next_commit_version: 10 }
    );
    assert!(b.insert(result(20, 29)).unwrap().is_empty());
    assert_eq!(
        b.insert(result(25, 35)).unwrap_err(),
        ReorderError::Overlap { start_version: 25, end_version: 35 }
    );
    assert_eq!(
        b.insert(result(20, 29)).unwrap_err(),
        ReorderError::Overlap { start_version: 20, end_version: 29 }
    );
    assert_eq!(b.pending_len(), 1);
    assert_eq!(b.next_commit_version(), 10);
}

#[test]
fn fetcher_checks_sequence() {
    let mut f = BatchFetcher::new(0, Some(25), RetryPolicy {
        max_retries: 2,
        initial_delay_ms: 10,
        max_delay_ms: 100,
    })
    .unwrap();
    assert_eq!(f.accept(0, 9), Ok(false));
    assert_eq!(
        f.accept(11, 20),
        Err(FetchError::SequenceGap { expected_version: 10, received_version: 11 })
    );
    assert_eq!(f.accept(10, 8), Err(FetchError::InvalidBatch { start_version: 10, end_version: 8 }));
    assert_eq!(
        f.accept(10, u64::MAX),
        Err(FetchError::VersionOverflow { end_version: u64::MAX })
    );
    assert_eq!(f.accept(10, 25), Ok(true));
    assert!(f.is_finished());
    assert_eq!(f.next_expected_version(), 26);
    assert_eq!(f.accept(26, 30), Err(FetchError::AlreadyFinished { start_version: 26 }));
}

#[test]
fn fetcher_reconnects_from_next_version_with_backoff() {
    let mut f = BatchFetcher::new(100, None, RetryPolicy {
        max_retries: 2,
        initial_delay_ms: 10,
        max_delay_ms: 100,
    })
    .unwrap();
    assert_eq!(f.accept(100, 109), Ok(false));
    let req = RangeRequest { start_version: 110, end_version: None };
    assert_eq!(f.on_stream_error(), StreamRecovery::Reconnect { request: req, delay_ms: 10 });
    assert_eq!(f.on_stream_error(), StreamRecovery::Reconnect { request: req, delay_ms: 20 });
    assert_eq!(
        f.on_stream_error(),
        StreamRecovery::Fatal(FetchError::RetriesExhausted { next_version: 110 })
    );
}

#[test]
fn fetcher_success_resets_backoff() {
    let mut f = BatchFetcher::new(0, None, RetryPolicy {
        max_retries: 1,
        initial_delay_ms: 10,
        max_delay_ms: 100,
    })
    .unwrap();
    assert!(matches!(f.on_stream_error(), StreamRecovery::Reconnect { delay_ms: 10, .. }));
    assert_eq!(f.accept(0, 0), Ok(false));
    assert!(matches!(f.on_stream_error(), StreamRecovery::Reconnect { delay_ms: 10, .. }));
}

#[test]
fn range_requests() {
    assert_eq!(request_range(5, Some(5)), Ok(RangeRequest { start_version: 5, end_version: Some(5) }));
    assert_eq!(request_range(5, None), Ok(RangeRequest { start_version: 5, end_version: None }));
    assert_eq!(
        request_range(5, Some(4)),
        Err(FetchError::InvalidRequest { start_version: 5, end_version: 4 })
    );
    assert!(matches!(
        BatchFetcher::new(5, Some(4), RetryPolicy { max_retries: 0, initial_delay_ms: 0, max_delay_ms: 0 }),
        Err(FetchError::InvalidRequest { start_version: 5, end_version: 4 })
    ));
}

#[test]
fn backoff_doubles_up_to_cap() {
    let mut s = RetryState::new(RetryPolicy { max_retries: 5, initial_delay_ms: 300, max_delay_ms: 1000 });
    let mut delays = Vec::new();
    loop {
        match s.on_failure() {
            RetryDecision::RetryAfter { delay_ms } => delays.push(delay_ms),
            RetryDecision::GiveUp => break,
        }
    }
    assert_eq!(delays, vec![300, 600, 1000, 1000, 1000]);
    assert_eq!(s.retries, 5);
    s.on_success();
    assert_eq!(s.retries, 0);
    assert_eq!(s.next_delay_ms, 300);
}

#[test]
fn backoff_initial_delay_is_capped() {
    let s = RetryState::new(RetryPolicy { max_retries: 1, initial_delay_ms: 5000, max_delay_ms: 1000 });
    assert_eq!(s.next_delay_ms, 1000);
    let mut z = RetryState::new(RetryPolicy { max_retries: 0, initial_delay_ms: 1, max_delay_ms: 1 });
    assert_eq!(z.on_failure(), RetryDecision::GiveUp);
}

#[test]
fn dispatcher_bounds_running_tasks() {
    let mut d = ConcurrentDispatcher::new(2);
    assert_eq!(d.try_admit(0, 9), Ok(()));
    assert_eq!(d.try_admit(0, 5), Err(AdmitError::AlreadyRunning { start_version: 0 }));
    assert_eq!(d.try_admit(10, 19), Ok(()));
    assert!(!d.has_free_slot());
    assert_eq!(d.try_admit(20, 29), Err(AdmitError::AtCapacity));
    assert!(d.holds_batch(0, 9));
    assert!(!d.holds_batch(0, 5));
    assert!(d.is_running(10));
    assert!(!d.complete(0, 5));
    assert!(d.complete(0, 9));
    assert!(!d.complete(0, 9));
    assert!(!d.is_running(0));
    assert_eq!(d.running_len(), 1);
    assert_eq!(d.try_admit(20, 29), Ok(()));
    d.shutdown();
    assert!(d.is_shutting_down());
    assert!(d.complete(10, 19));
    assert_eq!(d.try_admit(30, 39), Err(AdmitError::ShuttingDown));
    assert_eq!(d.limit(), 2);
}

#[test]
fn resume_point_from_checkpoint_or_start() {
    assert_eq!(resume_version(Some(99), Some(5)), Some(100));
    assert_eq!(resume_version(None, Some(5)), Some(5));
    assert_eq!(resume_version(None, None), Some(0));
    assert_eq!(resume_version(Some(u64::MAX), None), None);
}

#[test]
fn tracker_commits_in_order_and_once() {
    let mut t = ProgressTracker::new("points".to_string(), None, Some(100)).unwrap();
    assert_eq!(t.initial_version(), 100);
    assert_eq!(
        t.commit(&result(101, 110)),
        Err(PersistError::OutOfOrder { expected_version: 100, received_version: 101 })
    );
    assert_eq!(
        t.commit(&result(120, 110)),
        Err(PersistError::InvalidRange { start_version: 120, end_version: 110 })
    );
    assert_eq!(t.commit(&result(100, 110)), Ok(CommitOutcome::Committed));
    assert_eq!(t.last_success_version(), Some(110));
    assert_eq!(t.resume_point(), Some(111));
}

#[test]
fn retried_commit_leaves_same_state() {
    let mut once = ProgressTracker::new("p".to_string(), Some(9), None).unwrap();
    assert_eq!(once.commit(&result(10, 19)), Ok(CommitOutcome::Committed));

    let mut twice = ProgressTracker::new("p".to_string(), Some(9), None).unwrap();
    assert_eq!(twice.commit(&result(10, 19)), Ok(CommitOutcome::Committed));
    assert_eq!(twice.commit(&result(10, 19)), Ok(CommitOutcome::AlreadyCommitted));

    assert_eq!(once.last_success_version(), twice.last_success_version());
    assert_eq!(twice.last_success_version(), Some(19));
}

#[test]
fn tracker_at_last_version_has_nothing_left() {
    assert!(ProgressTracker::new("p".to_string(), Some(u64::MAX), None).is_none());
}

#[test]
fn ping_monitor_pings_then_declares_dead() {
    let mut m = PingMonitor::from_secs(30, 10, 0).unwrap();
    assert_eq!(m.interval_ms, 30_000);
    assert_eq!(m.timeout_ms, 10_000);
    assert_eq!(m.on_tick(29_999), PingAction::Wait);
    assert_eq!(m.on_tick(30_000), PingAction::SendPing);
    assert_eq!(m.ping_sent_ms, Some(30_000));
    assert_eq!(m.on_tick(39_999), PingAction::Wait);
    assert_eq!(m.on_tick(40_000), PingAction::ConnectionDead);
}

#[test]
fn ping_answer_keeps_connection_alive() {
    let mut m = PingMonitor::new(1000, 500, 0);
    assert_eq!(m.on_tick(1000), PingAction::SendPing);
    m.on_activity(1200);
    assert_eq!(m.ping_sent_ms, None);
    assert_eq!(m.on_tick(2100), PingAction::Wait);
    assert_eq!(m.on_tick(2200), PingAction::SendPing);
    assert!(PingMonitor::from_secs(u64::MAX, 1, 0).is_none());
}
