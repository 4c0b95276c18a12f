use vstd::prelude::*;
use std::collections::HashMap;
use crate::config::IndexerProcessorConfig;
use crate::errors::ProcessorError;
use crate::status_store::{
    backfill_upsert_spec, live_upsert_spec, BackfillProcessorStatusRow, ProcessorStatusRow,
    StatusStore,
};
use crate::transaction_context::{TransactionContext, TransactionMetadata};

verus! {

broadcast use vstd::std_specs::hash::group_hash_axioms;

/// Seconds between two timer-driven persists of the tracker's progress.
pub const UPDATE_PROCESSOR_STATUS_SECS: u64 = 1;

/// Two metadata envelopes cover version ranges with no version in common.
pub open spec fn ranges_disjoint(a: TransactionMetadata, b: TransactionMetadata) -> bool {
    a.end_version < b.start_version || b.end_version < a.start_version
}

/// A parked entry may coexist with an arriving batch when their ranges are
/// disjoint or exactly equal (a redelivery, where the newest wins); a partial
/// overlap is a source bug and stays outside every contract here.
pub open spec fn compatible_with(entry: TransactionMetadata, batch: TransactionMetadata) -> bool {
    ranges_disjoint(entry, batch) || (entry.start_version == batch.start_version
        && entry.end_version == batch.end_version)
}

/// Starting from `cursor`, repeatedly absorb the parked entry that begins at
/// `cursor.end_version + 1`, returning the entries left parked and the last
/// envelope absorbed. This is the contiguous-advance closure of the frontier.
pub open spec fn absorb(
    seen: Map<u64, TransactionMetadata>,
    cursor: TransactionMetadata,
) -> (Map<u64, TransactionMetadata>, TransactionMetadata)
    decreases seen.dom().len(),
{
    if seen.dom().finite() && cursor.end_version < u64::MAX && seen.contains_key(
        (cursor.end_version + 1) as u64,
    ) {
        absorb(
            seen.remove((cursor.end_version + 1) as u64),
            seen[(cursor.end_version + 1) as u64],
        )
    } else {
        (seen, cursor)
    }
}

/// The tracker's transition on one arriving batch: advance the frontier when
/// the batch begins exactly there, park the batch when it is ahead of the
/// frontier, and ignore it when it lies behind.
pub open spec fn track_step(
    next_version: u64,
    seen: Map<u64, TransactionMetadata>,
    batch: TransactionMetadata,
) -> (u64, Map<u64, TransactionMetadata>) {
    if batch.start_version == next_version {
        let (remaining, last) = absorb(seen, batch);
        (((last.end_version + 1) as u64), remaining)
    } else if batch.start_version > next_version {
        (next_version, seen.insert(batch.start_version, batch))
    } else {
        (next_version, seen)
    }
}

/// The gap-aware progress tracker: it maintains `next_version`, the smallest
/// version not yet known to be contiguously processed, parks batches that
/// arrive ahead of that frontier, and persists the last contiguously
/// completed batch into [`StatusStore`] under a monotonic guard.
pub struct LatestVersionProcessedTracker {
    /// The status rows stored under this tracker's name; stands for the
    /// database the real pipeline persists into.
    pub store: StatusStore,
    pub tracker_name: String,
    /// Next version to process that we expect: the frontier.
    pub next_version: u64,
    /// Last batch of sequentially processed transactions, kept as metadata
    /// to write to storage.
    pub last_success_batch: Option<TransactionMetadata>,
    /// Batches processed out of order, keyed by their `start_version`.
    pub seen_versions: HashMap<u64, TransactionMetadata>,
    pub backfill_mode: bool,
    pub backfill_start_version: Option<u64>,
    pub backfill_end_version: Option<u64>,
}

impl LatestVersionProcessedTracker {
    /// Shape of one parked entry: keyed by its own `start_version`, a
    /// non-empty range strictly beyond the frontier, with room to advance
    /// past it.
    pub open spec fn entry_wf(self, k: u64) -> bool {
        &&& self.seen_versions@[k].start_version == k
        &&& self.seen_versions@[k].start_version <= self.seen_versions@[k].end_version
        &&& self.seen_versions@[k].end_version < u64::MAX
        &&& k > self.next_version
    }

    /// The tracker's invariant: every parked entry is well-shaped, parked
    /// ranges are pairwise disjoint, and a backfill tracker always knows its
    /// fixed bounds.
    pub open spec fn wf(self) -> bool {
        &&& forall|k: u64| #[trigger] self.seen_versions@.contains_key(k) ==> self.entry_wf(k)
        &&& forall|k1: u64, k2: u64|
            #![trigger self.seen_versions@.contains_key(k1), self.seen_versions@.contains_key(k2)]
            self.seen_versions@.contains_key(k1) && self.seen_versions@.contains_key(k2) && k1
                != k2 ==> ranges_disjoint(self.seen_versions@[k1], self.seen_versions@[k2])
        &&& self.backfill_mode ==> self.backfill_start_version is Some
            && self.backfill_end_version is Some
    }

    /// Builds a tracker from the configuration and the version the pipeline
    /// resumes from. A `backfill_config` selects backfill mode, which
    /// requires both stream bounds; missing bounds are a configuration
    /// error.
    pub fn new(config: IndexerProcessorConfig, starting_version: u64) -> (r: Result<
        Self,
        ProcessorError,
    >)
        ensures
            match config.backfill_config {
                Some(backfill_config) => {
                    if config.transaction_stream_config.starting_version is None
                        || config.transaction_stream_config.request_ending_version is None {
                        r matches Err(e) && e == ProcessorError::Config
                    } else {
                        r matches Ok(t) && t.wf() && t.tracker_name@
                            == backfill_config.backfill_alias@ && t.next_version
                            == starting_version && t.seen_versions@ == Map::<
                            u64,
                            TransactionMetadata,
                        >::empty() && t.last_success_batch is None && t.backfill_mode
                            && t.backfill_start_version
                            == config.transaction_stream_config.starting_version
                            && t.backfill_end_version
                            == config.transaction_stream_config.request_ending_version && t.store
                            == (StatusStore { live: None, backfill: None })
                    }
                },
                None => r matches Ok(t) && t.wf() && t.tracker_name@
                    == config.processor_config.name@ && t.next_version == starting_version
                    && t.seen_versions@ == Map::<u64, TransactionMetadata>::empty()
                    && t.last_success_batch is None && !t.backfill_mode
                    && t.backfill_start_version is None && t.backfill_end_version is None
                    && t.store == (StatusStore { live: None, backfill: None }),
            },
    {
        match config.backfill_config {
            Some(backfill_config) => {
                let txn_stream_cfg = config.transaction_stream_config;
                if txn_stream_cfg.starting_version.is_none()
                    || txn_stream_cfg.request_ending_version.is_none() {
                    return Err(ProcessorError::Config);
                }
                Ok(LatestVersionProcessedTracker {
                    store: StatusStore::new(),
                    tracker_name: backfill_config.backfill_alias,
                    next_version: starting_version,
                    last_success_batch: None,
                    seen_versions: HashMap::new(),
                    backfill_mode: true,
                    backfill_start_version: txn_stream_cfg.starting_version,
                    backfill_end_version: txn_stream_cfg.request_ending_version,
                })
            },
            None => Ok(LatestVersionProcessedTracker {
                store: StatusStore::new(),
                tracker_name: config.processor_config.name,
                next_version: starting_version,
                last_success_batch: None,
                seen_versions: HashMap::new(),
                backfill_mode: false,
                backfill_start_version: None,
                backfill_end_version: None,
            }),
        }
    }

    /// Absorbs every parked entry contiguously joinable to `current_batch`,
    /// then moves the frontier past the last absorbed envelope and records
    /// it as the last successful batch.
    fn update_last_success_batch(&mut self, current_batch: TransactionMetadata)
        requires
            old(self).wf(),
            current_batch.start_version == old(self).next_version,
            current_batch.start_version <= current_batch.end_version,
            current_batch.end_version < u64::MAX,
            forall|k: u64| #[trigger] old(self).seen_versions@.contains_key(k) ==> ranges_disjoint(
                old(self).seen_versions@[k],
                current_batch,
            ),
        ensures
            final(self).wf(),
            final(self).seen_versions@ == absorb(old(self).seen_versions@, current_batch).0,
            final(self).last_success_batch == Some(
                absorb(old(self).seen_versions@, current_batch).1,
            ),
            final(self).next_version as int == absorb(
                old(self).seen_versions@,
                current_batch,
            ).1.end_version as int + 1,
            final(self).next_version as int >= current_batch.end_version as int + 1,
            final(self).store == old(self).store,
            final(self).tracker_name == old(self).tracker_name,
            final(self).backfill_mode == old(self).backfill_mode,
            final(self).backfill_start_version == old(self).backfill_start_version,
            final(self).backfill_end_version == old(self).backfill_end_version,
    {
        let ghost orig_seen = self.seen_versions@;
        let mut new_prev_batch = current_batch;
        loop
            invariant
                self.next_version == old(self).next_version,
                self.last_success_batch == old(self).last_success_batch,
                self.store == old(self).store,
                self.tracker_name == old(self).tracker_name,
                self.backfill_mode == old(self).backfill_mode,
                self.backfill_start_version == old(self).backfill_start_version,
                self.backfill_end_version == old(self).backfill_end_version,
                forall|k: u64| #[trigger] self.seen_versions@.contains_key(k)
                    ==> self.entry_wf(k),
                forall|k1: u64, k2: u64|
                    #![trigger self.seen_versions@.contains_key(k1), self.seen_versions@.contains_key(k2)]
                    self.seen_versions@.contains_key(k1) && self.seen_versions@.contains_key(k2)
                        && k1 != k2 ==> ranges_disjoint(
                        self.seen_versions@[k1],
                        self.seen_versions@[k2],
                    ),
                new_prev_batch.start_version <= new_prev_batch.end_version,
                new_prev_batch.end_version < u64::MAX,
                new_prev_batch.end_version >= current_batch.end_version,
                forall|k: u64| #[trigger] self.seen_versions@.contains_key(k) ==> k
                    > new_prev_batch.end_version,
                absorb(self.seen_versions@, new_prev_batch) == absorb(orig_seen, current_batch),
            ensures
                self.seen_versions@ == absorb(orig_seen, current_batch).0,
                new_prev_batch == absorb(orig_seen, current_batch).1,
                self.next_version == old(self).next_version,
                self.last_success_batch == old(self).last_success_batch,
                self.store == old(self).store,
                self.tracker_name == old(self).tracker_name,
                self.backfill_mode == old(self).backfill_mode,
                self.backfill_start_version == old(self).backfill_start_version,
                self.backfill_end_version == old(self).backfill_end_version,
                forall|k: u64| #[trigger] self.seen_versions@.contains_key(k)
                    ==> self.entry_wf(k),
                forall|k1: u64, k2: u64|
                    #![trigger self.seen_versions@.contains_key(k1), self.seen_versions@.contains_key(k2)]
                    self.seen_versions@.contains_key(k1) && self.seen_versions@.contains_key(k2)
                        && k1 != k2 ==> ranges_disjoint(
                        self.seen_versions@[k1],
                        self.seen_versions@[k2],
                    ),
                new_prev_batch.start_version <= new_prev_batch.end_version,
                new_prev_batch.end_version < u64::MAX,
                new_prev_batch.end_version >= current_batch.end_version,
                forall|k: u64| #[trigger] self.seen_versions@.contains_key(k) ==> k
                    > new_prev_batch.end_version,
                !self.seen_versions@.contains_key((new_prev_batch.end_version + 1) as u64),
            decreases self.seen_versions@.dom().len(),
        {
            let ghost pre = self.seen_versions@;
            let ghost prev_cursor = new_prev_batch;
            let key = new_prev_batch.end_version + 1;
            match self.seen_versions.remove(&key) {
                Some(next_batch) => {
                    proof {
                        assert(pre.contains_key(key));
                        assert(pre[key] == next_batch);
                        assert(self.seen_versions@ == pre.remove(key));
                        assert forall|k: u64| #[trigger] self.seen_versions@.contains_key(k)
                            implies k > next_batch.end_version by {
                            assert(pre.contains_key(k));
                            assert(k != key);
                            assert(ranges_disjoint(pre[k], pre[key]));
                        }
                        assert(absorb(pre, prev_cursor) == absorb(pre.remove(key), pre[key]));
                    }
                    new_prev_batch = next_batch;
                },
                None => {
                    proof {
                        assert(!pre.contains_key(key));
                        assert(pre.remove(key) =~= pre);
                        assert(self.seen_versions@ == pre);
                        assert(absorb(pre, new_prev_batch) == (pre, new_prev_batch));
                    }
                    break ;
                },
            }
        }
        self.next_version = new_prev_batch.end_version + 1;
        self.last_success_batch = Some(new_prev_batch);
    }

    /// Routes one arriving batch: a batch contiguous with the frontier
    /// advances it, a batch ahead of the frontier is parked with its payload
    /// stripped, a batch behind it is ignored for tracking. Whatever the
    /// case, the batch itself passes through unchanged.
    pub fn process<T>(&mut self, current_batch: TransactionContext<T>) -> (r: Result<
        Option<TransactionContext<T>>,
        ProcessorError,
    >)
        requires
            old(self).wf(),
            current_batch.start_version <= current_batch.end_version,
            current_batch.end_version < u64::MAX,
            forall|k: u64| #[trigger] old(self).seen_versions@.contains_key(k) ==> compatible_with(
                old(self).seen_versions@[k],
                current_batch.metadata_spec(),
            ),
        ensures
            final(self).wf(),
            r == Ok::<Option<TransactionContext<T>>, ProcessorError>(Some(current_batch)),
            ({
                let stepped = track_step(
                    old(self).next_version,
                    old(self).seen_versions@,
                    current_batch.metadata_spec(),
                );
                final(self).next_version == stepped.0 && final(self).seen_versions@ == stepped.1
            }),
            current_batch.start_version == old(self).next_version ==> final(self).last_success_batch
                == Some(absorb(old(self).seen_versions@, current_batch.metadata_spec()).1),
            current_batch.start_version != old(self).next_version ==> final(self).last_success_batch
                == old(self).last_success_batch,
            final(self).next_version >= old(self).next_version,
            final(self).store == old(self).store,
            final(self).tracker_name == old(self).tracker_name,
            final(self).backfill_mode == old(self).backfill_mode,
            final(self).backfill_start_version == old(self).backfill_start_version,
            final(self).backfill_end_version == old(self).backfill_end_version,
    {
        let start = current_batch.start_version;
        if start == self.next_version {
            let meta = current_batch.metadata();
            proof {
                assert forall|k: u64| #[trigger] old(self).seen_versions@.contains_key(k)
                    implies ranges_disjoint(old(self).seen_versions@[k], meta) by {
                    assert(compatible_with(
                        old(self).seen_versions@[k],
                        current_batch.metadata_spec(),
                    ));
                }
            }
            self.update_last_success_batch(meta);
        } else if start > self.next_version {
            let meta = current_batch.metadata();
            let ghost pre = *self;
            self.seen_versions.insert(start, meta);
            proof {
                assert(self.seen_versions@ == pre.seen_versions@.insert(start, meta));
                assert forall|k: u64| #[trigger] self.seen_versions@.contains_key(k)
                    implies self.entry_wf(k) by {
                    if k != start {
                        assert(pre.seen_versions@.contains_key(k));
                        assert(pre.entry_wf(k));
                    }
                }
                assert forall|k1: u64, k2: u64|
                    self.seen_versions@.contains_key(k1) && self.seen_versions@.contains_key(k2)
                        && k1 != k2 implies ranges_disjoint(
                    self.seen_versions@[k1],
                    self.seen_versions@[k2],
                ) by {
                    if k1 != start && k2 != start {
                        assert(pre.seen_versions@.contains_key(k1));
                        assert(pre.seen_versions@.contains_key(k2));
                    } else if k1 == start {
                        assert(pre.seen_versions@.contains_key(k2));
                        assert(compatible_with(pre.seen_versions@[k2], meta));
                        assert(pre.entry_wf(k2));
                    } else {
                        assert(pre.seen_versions@.contains_key(k1));
                        assert(compatible_with(pre.seen_versions@[k1], meta));
                        assert(pre.entry_wf(k1));
                    }
                }
            }
        }
        Ok(Some(current_batch))
    }

    /// Persists the last successful batch, if any, into the status table
    /// matching the tracker's mode. The write carries the monotonic guard,
    /// so stored progress never regresses.
    pub fn save_processor_status(&mut self) -> (r: Result<(), ProcessorError>)
        requires
            old(self).wf(),
        ensures
            r == Ok::<(), ProcessorError>(()),
            final(self).wf(),
            Self::persisted(*old(self), *final(self)),
    {
        match self.last_success_batch {
            None => Ok(()),
            Some(last_success_batch) => {
                if self.backfill_mode {
                    let row = BackfillProcessorStatusRow {
                        last_success_version: last_success_batch.end_version,
                        last_transaction_timestamp:
                            last_success_batch.end_transaction_timestamp,
                        backfill_start_version: self.backfill_start_version.unwrap(),
                        backfill_end_version: self.backfill_end_version.unwrap(),
                    };
                    self.store.upsert_backfill_processor_status(row);
                    Ok(())
                } else {
                    let row = ProcessorStatusRow {
                        last_success_version: last_success_batch.end_version,
                        last_transaction_timestamp:
                            last_success_batch.end_transaction_timestamp,
                    };
                    self.store.upsert_processor_status(row);
                    Ok(())
                }
            },
        }
    }

    /// How one persist call relates the tracker after it to the tracker
    /// before it: tracking state untouched, and the store updated through
    /// the guarded upsert of the row built from the last successful batch,
    /// or untouched when there is none yet.
    pub open spec fn persisted(pre: Self, post: Self) -> bool {
        &&& post.next_version == pre.next_version
        &&& post.seen_versions == pre.seen_versions
        &&& post.last_success_batch == pre.last_success_batch
        &&& post.tracker_name == pre.tracker_name
        &&& post.backfill_mode == pre.backfill_mode
        &&& post.backfill_start_version == pre.backfill_start_version
        &&& post.backfill_end_version == pre.backfill_end_version
        &&& match pre.last_success_batch {
            None => post.store == pre.store,
            Some(b) => if pre.backfill_mode {
                post.store.backfill == backfill_upsert_spec(
                    pre.store.backfill,
                    Self::backfill_row_spec(
                        b,
                        pre.backfill_start_version.unwrap(),
                        pre.backfill_end_version.unwrap(),
                    ),
                ) && post.store.live == pre.store.live
            } else {
                post.store.live == live_upsert_spec(pre.store.live, Self::live_row_spec(b))
                    && post.store.backfill == pre.store.backfill
            },
        }
    }

    /// The live-table row built from a last successful batch.
    pub open spec fn live_row_spec(b: TransactionMetadata) -> ProcessorStatusRow {
        ProcessorStatusRow {
            last_success_version: b.end_version,
            last_transaction_timestamp: b.end_transaction_timestamp,
        }
    }

    /// The backfill-table row built from a last successful batch and the
    /// run's fixed bounds.
    pub open spec fn backfill_row_spec(
        b: TransactionMetadata,
        backfill_start_version: u64,
        backfill_end_version: u64,
    ) -> BackfillProcessorStatusRow {
        BackfillProcessorStatusRow {
            last_success_version: b.end_version,
            last_transaction_timestamp: b.end_transaction_timestamp,
            backfill_start_version,
            backfill_end_version,
        }
    }

    /// Timer-driven persistence; the tracker produces no output of its own.
    pub fn poll(&mut self) -> (r: Result<Option<Vec<TransactionMetadata>>, ProcessorError>)
        requires
            old(self).wf(),
        ensures
            r == Ok::<Option<Vec<TransactionMetadata>>, ProcessorError>(None),
            final(self).wf(),
            Self::persisted(*old(self), *final(self)),
    {
        match self.save_processor_status() {
            Ok(_) => Ok(None),
            Err(e) => Err(e),
        }
    }

    /// Final persistence when the step's input is closed and drained.
    pub fn cleanup(&mut self) -> (r: Result<Option<Vec<TransactionMetadata>>, ProcessorError>)
        requires
            old(self).wf(),
        ensures
            r == Ok::<Option<Vec<TransactionMetadata>>, ProcessorError>(None),
            final(self).wf(),
            Self::persisted(*old(self), *final(self)),
    {
        match self.save_processor_status() {
            Ok(_) => Ok(None),
            Err(e) => Err(e),
        }
    }

    /// Seconds between two timer-driven persists.
    pub fn poll_interval_secs(&self) -> (r: u64)
        ensures
            r == UPDATE_PROCESSOR_STATUS_SECS,
    {
        UPDATE_PROCESSOR_STATUS_SECS
    }

    /// Stable identity of this step for diagnostics.
    pub fn name(&self) -> (r: String)
        ensures
            r@ == "LatestVersionProcessedTracker"@,
    {
        "LatestVersionProcessedTracker".to_owned()
    }
}

} // verus!
