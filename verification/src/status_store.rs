use vstd::prelude::*;
use crate::transaction_context::TransactionTimestamp;

verus! {

/// The status row persisted by a live-mode tracker. Rows are keyed by the
/// tracker's name in the database; a [`StatusStore`] models the rows stored
/// under one name, so the key column does not reappear here.
#[derive(Clone, Copy, PartialEq, Eq, Structural, Debug)]
pub struct ProcessorStatusRow {
    pub last_success_version: u64,
    pub last_transaction_timestamp: Option<TransactionTimestamp>,
}

/// The status row persisted by a backfill-mode tracker: the live fields plus
/// the fixed bounds of the backfill run, carried on every write.
#[derive(Clone, Copy, PartialEq, Eq, Structural, Debug)]
pub struct BackfillProcessorStatusRow {
    pub last_success_version: u64,
    pub last_transaction_timestamp: Option<TransactionTimestamp>,
    pub backfill_start_version: u64,
    pub backfill_end_version: u64,
}

/// What a monotonically guarded upsert leaves stored: the new row when the
/// slot was empty or held a version no greater than the new one, otherwise
/// the old row, untouched.
pub open spec fn live_upsert_spec(
    stored: Option<ProcessorStatusRow>,
    row: ProcessorStatusRow,
) -> Option<ProcessorStatusRow> {
    match stored {
        None => Some(row),
        Some(existing) => if existing.last_success_version <= row.last_success_version {
            Some(row)
        } else {
            Some(existing)
        },
    }
}

/// The same guard for the backfill table.
pub open spec fn backfill_upsert_spec(
    stored: Option<BackfillProcessorStatusRow>,
    row: BackfillProcessorStatusRow,
) -> Option<BackfillProcessorStatusRow> {
    match stored {
        None => Some(row),
        Some(existing) => if existing.last_success_version <= row.last_success_version {
            Some(row)
        } else {
            Some(existing)
        },
    }
}

/// The two status rows stored under one tracker name: the live table's row
/// and the backfill table's row. Both writes go through an upsert whose
/// update branch applies only when the stored `last_success_version` is not
/// greater than the incoming one, which is what keeps persisted progress
/// monotonic even under re-ordered writers.
#[derive(Clone, Copy, PartialEq, Eq, Structural, Debug)]
pub struct StatusStore {
    pub live: Option<ProcessorStatusRow>,
    pub backfill: Option<BackfillProcessorStatusRow>,
}

impl StatusStore {
    /// An empty store: nothing persisted yet under this name.
    pub fn new() -> (r: StatusStore)
        ensures
            r == (StatusStore { live: None, backfill: None }),
    {
        StatusStore { live: None, backfill: None }
    }

    /// Upsert into the live table with the monotonic guard.
    pub fn upsert_processor_status(&mut self, row: ProcessorStatusRow)
        ensures
            final(self).live == live_upsert_spec(old(self).live, row),
            final(self).backfill == old(self).backfill,
    {
        let do_update = match self.live {
            None => true,
            Some(existing) => existing.last_success_version <= row.last_success_version,
        };
        if do_update {
            self.live = Some(row);
        }
    }

    /// Upsert into the backfill table with the monotonic guard.
    pub fn upsert_backfill_processor_status(&mut self, row: BackfillProcessorStatusRow)
        ensures
            final(self).backfill == backfill_upsert_spec(old(self).backfill, row),
            final(self).live == old(self).live,
    {
        let do_update = match self.backfill {
            None => true,
            Some(existing) => existing.last_success_version <= row.last_success_version,
        };
        if do_update {
            self.backfill = Some(row);
        }
    }
}

/// The live slot after a whole sequence of guarded upserts.
pub open spec fn apply_live_upserts(
    stored: Option<ProcessorStatusRow>,
    rows: Seq<ProcessorStatusRow>,
) -> Option<ProcessorStatusRow>
    decreases rows.len(),
{
    if rows.len() == 0 {
        stored
    } else {
        apply_live_upserts(live_upsert_spec(stored, rows[0]), rows.skip(1))
    }
}

/// One guarded upsert never lowers the stored `last_success_version`, and
/// never empties the slot.
pub proof fn lemma_live_upsert_monotonic(
    stored: Option<ProcessorStatusRow>,
    row: ProcessorStatusRow,
)
    ensures
        live_upsert_spec(stored, row) is Some,
        stored is Some ==> live_upsert_spec(stored, row).unwrap().last_success_version
            >= stored.unwrap().last_success_version,
{
}

/// No sequence of guarded upserts ever makes the stored
/// `last_success_version` regress: whatever is read back after further
/// persist calls is at least what was stored before them.
pub proof fn lemma_persisted_version_never_decreases(
    stored: Option<ProcessorStatusRow>,
    rows: Seq<ProcessorStatusRow>,
)
    requires
        stored is Some,
    ensures
        apply_live_upserts(stored, rows) is Some,
        apply_live_upserts(stored, rows).unwrap().last_success_version
            >= stored.unwrap().last_success_version,
    decreases rows.len(),
{
    if rows.len() > 0 {
        lemma_live_upsert_monotonic(stored, rows[0]);
        lemma_persisted_version_never_decreases(live_upsert_spec(stored, rows[0]), rows.skip(1));
    }
}

} // verus!
