use processor::config::IndexerGrpcProcessorConfig;
use processor::dispatcher::AdmitError;
use processor::fetcher::FetchError;
use processor::pipeline::{PipelineError, PipelineState};
use processor::reorder::ProcessingResult;
use processor::retry::{RetryPolicy, RetryState};

fn policy() -> RetryPolicy {
    RetryPolicy { max_retries: 3, initial_delay_ms: 100, max_delay_ms: 1000 }
}

fn result(start: u64, end: u64) -> ProcessingResult {
    ProcessingResult { start_version: start, end_version: end, effects: vec![start as u8] }
}

fn ranges(v: Vec<ProcessingResult>) -> Vec<(u64, u64)> {
    v.iter().map(|r| (r.start_version, r.end_version)).collect()
}

fn pipeline(
    checkpoint: Option<u64>,
    starting: Option<u64>,
    ending: Option<u64>,
    concurrency: usize,
) -> PipelineState {
    PipelineState::new("points".to_string(), checkpoint, starting, ending, concurrency, policy())
        .unwrap()
}

#[test]
fn out_of_order_completion_commits_in_version_order() {
    let mut p = pipeline(None, None, None, 3);
    assert_eq!(p.on_batch(0, 9), Ok(false));
    assert_eq!(p.on_batch(10, 19), Ok(false));
    assert_eq!(p.on_batch(20, 29), Ok(false));
    assert_eq!(p.running_tasks(), 3);

    assert_eq!(ranges(p.on_task_done(result(20, 29)).unwrap()), Vec::<(u64, u64)>::new());
    assert_eq!(p.checkpoint(), None);
    assert_eq!(p.pending_results(), 1);

    assert_eq!(ranges(p.on_task_done(result(0, 9)).unwrap()), vec![(0, 9)]);
    assert_eq!(p.checkpoint(), Some(9));

    assert_eq!(ranges(p.on_task_done(result(10, 19)).unwrap()), vec![(10, 19), (20, 29)]);
    assert_eq!(p.checkpoint(), Some(29));
    assert_eq!(p.next_commit_version(), 30);
    assert_eq!(p.pending_results(), 0);
    assert_eq!(p.running_tasks(), 0);
}

#[test]
fn bounded_run_commits_exactly_its_range() {
    let mut p = pipeline(None, Some(100), Some(149), 1);
    assert_eq!(p.next_fetch_version(), 100);
    let batches = [(100u64, 119u64), (120, 139), (140, 149)];
    let mut committed = Vec::new();
    for (i, (s, e)) in batches.iter().enumerate() {
        assert_eq!(p.on_batch(*s, *e), Ok(i == 2));
        committed.extend(ranges(p.on_task_done(result(*s, *e)).unwrap()));
    }
    assert_eq!(committed, vec![(100, 119), (120, 139), (140, 149)]);
    assert_eq!(p.checkpoint(), Some(149));
    assert!(p.is_done());
    assert_eq!(
        p.on_batch(150, 160),
        Err(PipelineError::Fetch(FetchError::AlreadyFinished { start_version: 150 }))
    );
}

#[test]
fn last_batch_past_ending_version_is_kept_whole() {
    let mut p = pipeline(None, Some(0), Some(15), 1);
    assert_eq!(p.on_batch(0, 19), Ok(true));
    assert_eq!(ranges(p.on_task_done(result(0, 19)).unwrap()), vec![(0, 19)]);
    assert_eq!(p.checkpoint(), Some(19));
    assert!(p.is_done());
}

#[test]
fn sequence_gap_is_fatal_and_commits_nothing_more() {
    let mut p = pipeline(None, None, None, 2);
    assert_eq!(p.on_batch(0, 9), Ok(false));
    assert_eq!(
        p.on_batch(20, 29),
        Err(PipelineError::Fetch(FetchError::SequenceGap {
            expected_version: 10,
            received_version: 20
        }))
    );
    assert_eq!(p.next_fetch_version(), 10);
    assert_eq!(p.running_tasks(), 1);
    assert_eq!(ranges(p.on_task_done(result(0, 9)).unwrap()), vec![(0, 9)]);
    assert_eq!(p.checkpoint(), Some(9));
}

#[test]
fn resume_starts_after_checkpoint_and_refuses_old_versions() {
    let mut p = pipeline(Some(49), Some(0), None, 2);
    assert_eq!(p.next_fetch_version(), 50);
    assert_eq!(p.next_commit_version(), 50);
    assert_eq!(p.checkpoint(), Some(49));
    assert_eq!(
        p.on_batch(40, 49),
        Err(PipelineError::Fetch(FetchError::SequenceGap {
            expected_version: 50,
            received_version: 40
        }))
    );
    assert_eq!(p.on_batch(50, 59), Ok(false));
    assert_eq!(ranges(p.on_task_done(result(50, 59)).unwrap()), vec![(50, 59)]);
    assert_eq!(p.checkpoint(), Some(59));
}

#[test]
fn checkpoint_at_last_version_leaves_nothing() {
    let r = PipelineState::new("p".to_string(), Some(u64::MAX), None, None, 1, policy());
    assert!(matches!(r, Err(PipelineError::NothingToFetch)));
}

#[test]
fn ending_before_start_is_refused() {
    let r = PipelineState::new("p".to_string(), None, Some(100), Some(50), 1, policy());
    assert!(matches!(
        r,
        Err(PipelineError::Fetch(FetchError::InvalidRequest { start_version: 100, end_version: 50 }))
    ));
}

#[test]
fn restart_after_ending_reached_is_already_done() {
    let mut p = pipeline(Some(149), Some(100), Some(149), 1);
    assert!(p.is_done());
    assert_eq!(p.checkpoint(), Some(149));
    assert_eq!(
        p.on_batch(150, 160),
        Err(PipelineError::Fetch(FetchError::AlreadyFinished { start_version: 150 }))
    );
    let q = pipeline(Some(99), None, Some(50), 1);
    assert!(q.is_done());
}

#[test]
fn gap_is_reported_even_without_free_slot() {
    let mut p = pipeline(None, None, None, 1);
    assert_eq!(p.on_batch(0, 9), Ok(false));
    assert_eq!(p.on_batch(10, 19), Err(PipelineError::Admit(AdmitError::AtCapacity)));
    assert_eq!(
        p.on_batch(15, 19),
        Err(PipelineError::Fetch(FetchError::SequenceGap {
            expected_version: 10,
            received_version: 15
        }))
    );
    p.shutdown();
    assert_eq!(
        p.on_batch(12, 19),
        Err(PipelineError::Fetch(FetchError::SequenceGap {
            expected_version: 10,
            received_version: 12
        }))
    );
    assert_eq!(p.checkpoint(), None);
}

#[test]
fn concurrency_limit_holds_admission() {
    let mut p = pipeline(None, None, None, 2);
    assert_eq!(p.on_batch(0, 9), Ok(false));
    assert_eq!(p.on_batch(10, 19), Ok(false));
    assert_eq!(p.on_batch(20, 29), Err(PipelineError::Admit(AdmitError::AtCapacity)));
    assert_eq!(p.running_tasks(), 2);
    assert_eq!(p.next_fetch_version(), 20);
    // A result waiting for its predecessor keeps its slot.
    assert_eq!(ranges(p.on_task_done(result(10, 19)).unwrap()), Vec::<(u64, u64)>::new());
    assert_eq!(p.running_tasks(), 1);
    assert_eq!(p.pending_results(), 1);
    assert_eq!(p.on_batch(20, 29), Err(PipelineError::Admit(AdmitError::AtCapacity)));
    assert_eq!(ranges(p.on_task_done(result(0, 9)).unwrap()), vec![(0, 9), (10, 19)]);
    assert_eq!(p.on_batch(20, 29), Ok(false));
    assert_eq!(p.on_batch(30, 39), Ok(false));
    assert_eq!(p.running_tasks(), 2);
}

#[test]
fn shutdown_stops_admission_but_lets_tasks_commit() {
    let mut p = pipeline(None, None, None, 2);
    assert_eq!(p.on_batch(0, 9), Ok(false));
    p.shutdown();
    assert_eq!(p.on_batch(10, 19), Err(PipelineError::Admit(AdmitError::ShuttingDown)));
    assert_eq!(ranges(p.on_task_done(result(0, 9)).unwrap()), vec![(0, 9)]);
    assert_eq!(p.checkpoint(), Some(9));
}

#[test]
fn result_of_unknown_task_is_refused() {
    let mut p = pipeline(None, None, None, 2);
    assert_eq!(p.on_batch(0, 9), Ok(false));
    assert_eq!(
        p.on_task_done(result(10, 19)).unwrap_err(),
        PipelineError::NotDispatched { start_version: 10 }
    );
    assert_eq!(p.running_tasks(), 1);
}

#[test]
fn result_with_other_range_than_its_batch_is_refused() {
    let mut p = pipeline(None, None, None, 2);
    assert_eq!(p.on_batch(0, 9), Ok(false));
    assert_eq!(
        p.on_task_done(result(0, 5)).unwrap_err(),
        PipelineError::NotDispatched { start_version: 0 }
    );
    assert_eq!(
        p.on_task_done(result(0, u64::MAX)).unwrap_err(),
        PipelineError::NotDispatched { start_version: 0 }
    );
    assert_eq!(p.running_tasks(), 1);
    assert_eq!(p.checkpoint(), None);
    assert_eq!(ranges(p.on_task_done(result(0, 9)).unwrap()), vec![(0, 9)]);
    assert_eq!(p.next_commit_version(), p.next_fetch_version());
}

#[test]
fn committed_results_carry_their_effects() {
    let mut p = pipeline(None, None, None, 2);
    assert_eq!(p.on_batch(0, 9), Ok(false));
    assert_eq!(p.on_batch(10, 19), Ok(false));
    let q = ProcessingResult { start_version: 10, end_version: 19, effects: vec![7, 8] };
    assert!(p.on_task_done(q).unwrap().is_empty());
    let r = ProcessingResult { start_version: 0, end_version: 9, effects: vec![5] };
    let out = p.on_task_done(r).unwrap();
    assert_eq!(out.len(), 2);
    assert_eq!(out[0].effects, vec![5]);
    assert_eq!(out[1].effects, vec![7, 8]);
    assert_eq!(p.checkpoint(), Some(19));
}

#[test]
fn ending_version_is_kept() {
    let p = pipeline(None, Some(3), Some(40), 1);
    assert_eq!(p.ending_version(), Some(40));
}

#[test]
fn from_settings_applies_configuration() {
    let cfg = IndexerGrpcProcessorConfig {
        processor_name: "nft_points".to_string(),
        postgres_connection_string: "postgres://localhost".to_string(),
        indexer_grpc_data_service_address: "http://localhost:50051".to_string(),
        indexer_grpc_http2_ping_interval_in_secs: None,
        indexer_grpc_http2_ping_timeout_in_secs: None,
        auth_token: "token".to_string(),
        starting_version: Some(7),
        ending_version: Some(20),
        number_concurrent_processing_tasks: Some(4),
        nft_points_contract: None,
        pubsub_topic_name: None,
        google_application_credentials: None,
    };
    let settings = cfg.worker_settings().unwrap();
    let mut p = PipelineState::from_settings(settings, None, policy()).unwrap();
    assert_eq!(p.next_fetch_version(), 7);
    for i in 0..4u64 {
        assert_eq!(p.on_batch(7 + i, 7 + i), Ok(false));
    }
    assert_eq!(p.on_batch(11, 11), Err(PipelineError::Admit(AdmitError::AtCapacity)));
}

#[test]
fn failed_task_is_retried_then_fatal() {
    let mut p = pipeline(None, None, None, 2);
    assert_eq!(p.on_batch(0, 9), Ok(false));
    let mut retry = RetryState::new(RetryPolicy { max_retries: 2, initial_delay_ms: 50, max_delay_ms: 80 });
    assert_eq!(p.on_task_failed(0, &mut retry), Ok(50));
    assert_eq!(p.on_task_failed(0, &mut retry), Ok(80));
    assert_eq!(p.running_tasks(), 1);
    assert_eq!(p.on_task_failed(0, &mut retry), Err(PipelineError::TaskFailed { start_version: 0 }));
    assert_eq!(p.on_batch(10, 19), Err(PipelineError::Admit(AdmitError::ShuttingDown)));
    assert_eq!(p.checkpoint(), None);
    assert_eq!(
        p.on_task_failed(30, &mut retry),
        Err(PipelineError::NotDispatched { start_version: 30 })
    );
}
