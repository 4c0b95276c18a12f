use indexer_core::config::{
    BackfillConfig, DbConfig, IndexerProcessorConfig, ProcessorConfig, TransactionStreamConfig,
};
use indexer_core::errors::ProcessorError;
use indexer_core::tracker::LatestVersionProcessedTracker;
use indexer_core::transaction_context::TransactionContext;

fn live_config(name: &str) -> IndexerProcessorConfig {
    IndexerProcessorConfig {
        processor_config: ProcessorConfig {
            name: name.to_string(),
        },
        transaction_stream_config: TransactionStreamConfig {
            starting_version: None,
            request_ending_version: None,
        },
        db_config: DbConfig {
            postgres_connection_string: "postgres://localhost/test".to_string(),
            db_pool_size: 8,
        },
        backfill_config: None,
    }
}

fn backfill_config(
    alias: &str,
    starting_version: Option<u64>,
    request_ending_version: Option<u64>,
) -> IndexerProcessorConfig {
    IndexerProcessorConfig {
        processor_config: ProcessorConfig {
            name: "events_processor".to_string(),
        },
        transaction_stream_config: TransactionStreamConfig {
            starting_version,
            request_ending_version,
        },
        db_config: DbConfig {
            postgres_connection_string: "postgres://localhost/test".to_string(),
            db_pool_size: 8,
        },
        backfill_config: Some(BackfillConfig {
            backfill_alias: alias.to_string(),
        }),
    }
}

fn batch(start: u64, end: u64) -> TransactionContext<u64> {
    TransactionContext {
        data: (start..=end).collect(),
        start_version: start,
        end_version: end,
        start_transaction_timestamp: None,
        end_transaction_timestamp: None,
        total_size_in_bytes: 8 * (end - start + 1),
    }
}

#[test]
fn in_order_advance() {
    let mut tracker = LatestVersionProcessedTracker::new(live_config("events_processor"), 0)
        .expect("live construction succeeds");
    let expected_after = [10u64, 20, 30];
    let expected_persisted = [9u64, 19, 29];
    for (i, (s, e)) in [(0u64, 9u64), (10, 19), (20, 29)].into_iter().enumerate() {
        tracker.process(batch(s, e)).unwrap();
        assert_eq!(tracker.next_version, expected_after[i]);
        assert_eq!(tracker.seen_versions.len(), 0);
        tracker.save_processor_status().unwrap();
        let row = tracker.store.live.expect("a row is persisted");
        assert_eq!(row.last_success_version, expected_persisted[i]);
    }
}

#[test]
fn out_of_order_then_catch_up() {
    let mut tracker = LatestVersionProcessedTracker::new(live_config("events_processor"), 0)
        .expect("live construction succeeds");
    tracker.process(batch(10, 19)).unwrap();
    tracker.process(batch(20, 29)).unwrap();
    assert_eq!(tracker.next_version, 0);
    assert_eq!(tracker.seen_versions.len(), 2);
    tracker.process(batch(0, 9)).unwrap();
    assert_eq!(tracker.next_version, 30);
    assert_eq!(tracker.seen_versions.len(), 0);
    assert_eq!(tracker.last_success_batch.unwrap().end_version, 29);
}

#[test]
fn backfill_missing_ending_version_is_config_error() {
    let result = LatestVersionProcessedTracker::new(backfill_config("backfill", Some(0), None), 0);
    assert_eq!(result.err(), Some(ProcessorError::Config));
}

#[test]
fn backfill_missing_starting_version_is_config_error() {
    let result =
        LatestVersionProcessedTracker::new(backfill_config("backfill", None, Some(100)), 0);
    assert_eq!(result.err(), Some(ProcessorError::Config));
}

#[test]
fn backfill_construction_captures_bounds() {
    let tracker =
        LatestVersionProcessedTracker::new(backfill_config("backfill_alias", Some(5), Some(99)), 5)
            .expect("backfill construction succeeds");
    assert!(tracker.backfill_mode);
    assert_eq!(tracker.tracker_name, "backfill_alias");
    assert_eq!(tracker.backfill_start_version, Some(5));
    assert_eq!(tracker.backfill_end_version, Some(99));
    assert_eq!(tracker.next_version, 5);
    assert!(tracker.last_success_batch.is_none());
}

#[test]
fn live_construction_uses_processor_name() {
    let tracker = LatestVersionProcessedTracker::new(live_config("events_processor"), 42)
        .expect("live construction succeeds");
    assert!(!tracker.backfill_mode);
    assert_eq!(tracker.tracker_name, "events_processor");
    assert_eq!(tracker.next_version, 42);
    assert!(tracker.store.live.is_none());
    assert!(tracker.store.backfill.is_none());
}

#[test]
fn pass_through_returns_the_batch_unchanged() {
    let mut tracker = LatestVersionProcessedTracker::new(live_config("events_processor"), 0)
        .expect("live construction succeeds");
    let input = batch(10, 19);
    let payload = input.data.clone();
    let out = tracker
        .process(input)
        .unwrap()
        .expect("the tracker always forwards its input");
    assert_eq!(out.data, payload);
    assert_eq!(out.start_version, 10);
    assert_eq!(out.end_version, 19);
}

#[test]
fn stale_batch_is_forwarded_but_ignored() {
    let mut tracker = LatestVersionProcessedTracker::new(live_config("events_processor"), 0)
        .expect("live construction succeeds");
    tracker.process(batch(0, 9)).unwrap();
    assert_eq!(tracker.next_version, 10);
    let out = tracker.process(batch(0, 9)).unwrap();
    assert!(out.is_some());
    assert_eq!(tracker.next_version, 10);
    assert_eq!(tracker.seen_versions.len(), 0);
    assert_eq!(tracker.last_success_batch.unwrap().end_version, 9);
}

#[test]
fn cleanup_persists_highest_contiguous_version() {
    let mut tracker = LatestVersionProcessedTracker::new(live_config("events_processor"), 0)
        .expect("live construction succeeds");
    tracker.process(batch(0, 9)).unwrap();
    // A batch still ahead of the frontier must not be persisted.
    tracker.process(batch(20, 29)).unwrap();
    let out = tracker.cleanup().unwrap();
    assert!(out.is_none());
    let row = tracker.store.live.expect("cleanup persists");
    assert_eq!(row.last_success_version, 9);
}

#[test]
fn poll_without_success_batch_is_a_noop() {
    let mut tracker = LatestVersionProcessedTracker::new(live_config("events_processor"), 0)
        .expect("live construction succeeds");
    let out = tracker.poll().unwrap();
    assert!(out.is_none());
    assert!(tracker.store.live.is_none());
}

#[test]
fn poll_interval_is_one_second() {
    let tracker = LatestVersionProcessedTracker::new(live_config("events_processor"), 0)
        .expect("live construction succeeds");
    assert_eq!(tracker.poll_interval_secs(), 1);
    assert_eq!(tracker.name(), "LatestVersionProcessedTracker");
}

#[test]
fn backfill_persist_carries_fixed_bounds() {
    let mut tracker =
        LatestVersionProcessedTracker::new(backfill_config("backfill_alias", Some(0), Some(99)), 0)
            .expect("backfill construction succeeds");
    tracker.process(batch(0, 49)).unwrap();
    tracker.save_processor_status().unwrap();
    let row = tracker.store.backfill.expect("backfill row persisted");
    assert_eq!(row.last_success_version, 49);
    assert_eq!(row.backfill_start_version, 0);
    assert_eq!(row.backfill_end_version, 99);
    assert!(tracker.store.live.is_none());
}
