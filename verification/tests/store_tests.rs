use indexer_core::config::{DbConfig, IndexerProcessorConfig, ProcessorConfig, TransactionStreamConfig};
use indexer_core::status_store::{
    BackfillProcessorStatusRow, ProcessorStatusRow, StatusStore,
};
use indexer_core::tracker::LatestVersionProcessedTracker;
use indexer_core::transaction_context::{TransactionContext, TransactionTimestamp};

fn live_config() -> IndexerProcessorConfig {
    IndexerProcessorConfig {
        processor_config: ProcessorConfig {
            name: "events_processor".to_string(),
        },
        transaction_stream_config: TransactionStreamConfig {
            starting_version: None,
            request_ending_version: None,
        },
        db_config: DbConfig {
            postgres_connection_string: "postgres://localhost/test".to_string(),
            db_pool_size: 8,
        },
        backfill_config: None,
    }
}

fn batch(start: u64, end: u64) -> TransactionContext<u8> {
    TransactionContext {
        data: vec![0u8; (end - start + 1) as usize],
        start_version: start,
        end_version: end,
        start_transaction_timestamp: None,
        end_transaction_timestamp: Some(TransactionTimestamp {
            seconds: end as i64,
            nanos: 0,
        }),
        total_size_in_bytes: end - start + 1,
    }
}

#[test]
fn persist_monotonicity() {
    let mut tracker =
        LatestVersionProcessedTracker::new(live_config(), 0).expect("construction succeeds");
    tracker.process(batch(0, 100)).unwrap();
    tracker.save_processor_status().unwrap();
    tracker.save_processor_status().unwrap();
    assert_eq!(tracker.store.live.unwrap().last_success_version, 100);
    // Another writer got further; the store now holds 200.
    tracker.store.live = Some(ProcessorStatusRow {
        last_success_version: 200,
        last_transaction_timestamp: None,
    });
    tracker.process(batch(101, 150)).unwrap();
    assert_eq!(tracker.last_success_batch.unwrap().end_version, 150);
    tracker.save_processor_status().unwrap();
    // The guarded upsert must leave the higher value in place.
    assert_eq!(tracker.store.live.unwrap().last_success_version, 200);
}

#[test]
fn persist_writes_the_batch_end_timestamp() {
    let mut tracker =
        LatestVersionProcessedTracker::new(live_config(), 0).expect("construction succeeds");
    tracker.process(batch(0, 42)).unwrap();
    tracker.save_processor_status().unwrap();
    let row = tracker.store.live.unwrap();
    assert_eq!(row.last_success_version, 42);
    assert_eq!(
        row.last_transaction_timestamp,
        Some(TransactionTimestamp {
            seconds: 42,
            nanos: 0
        })
    );
}

#[test]
fn upsert_fills_an_empty_slot() {
    let mut store = StatusStore::new();
    store.upsert_processor_status(ProcessorStatusRow {
        last_success_version: 9,
        last_transaction_timestamp: None,
    });
    assert_eq!(store.live.unwrap().last_success_version, 9);
    assert!(store.backfill.is_none());
}

#[test]
fn upsert_equal_version_updates_row() {
    let mut store = StatusStore::new();
    store.upsert_processor_status(ProcessorStatusRow {
        last_success_version: 9,
        last_transaction_timestamp: None,
    });
    let ts = Some(TransactionTimestamp {
        seconds: 1700000000,
        nanos: 5,
    });
    store.upsert_processor_status(ProcessorStatusRow {
        last_success_version: 9,
        last_transaction_timestamp: ts,
    });
    let row = store.live.unwrap();
    assert_eq!(row.last_success_version, 9);
    assert_eq!(row.last_transaction_timestamp, ts);
}

#[test]
fn upsert_lower_version_is_rejected() {
    let mut store = StatusStore::new();
    store.upsert_processor_status(ProcessorStatusRow {
        last_success_version: 50,
        last_transaction_timestamp: None,
    });
    store.upsert_processor_status(ProcessorStatusRow {
        last_success_version: 20,
        last_transaction_timestamp: None,
    });
    assert_eq!(store.live.unwrap().last_success_version, 50);
}

#[test]
fn backfill_upsert_keeps_guard_and_bounds() {
    let mut store = StatusStore::new();
    store.upsert_backfill_processor_status(BackfillProcessorStatusRow {
        last_success_version: 80,
        last_transaction_timestamp: None,
        backfill_start_version: 0,
        backfill_end_version: 99,
    });
    store.upsert_backfill_processor_status(BackfillProcessorStatusRow {
        last_success_version: 70,
        last_transaction_timestamp: None,
        backfill_start_version: 0,
        backfill_end_version: 99,
    });
    let row = store.backfill.unwrap();
    assert_eq!(row.last_success_version, 80);
    assert_eq!(row.backfill_start_version, 0);
    assert_eq!(row.backfill_end_version, 99);
    assert!(store.live.is_none());
}
