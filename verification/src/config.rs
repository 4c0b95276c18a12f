use vstd::prelude::*;

verus! {

/// The processor's declared identity; its name is the tracker name in live
/// mode.
#[derive(Debug)]
pub struct ProcessorConfig {
    pub name: String,
}

impl ProcessorConfig {
    pub fn name(&self) -> (r: &String)
        ensures
            r@ == self.name@,
    {
        &self.name
    }
}

/// Present when the run is a bounded backfill; its alias is the tracker name
/// in backfill mode.
#[derive(Debug)]
pub struct BackfillConfig {
    pub backfill_alias: String,
}

/// Where the upstream stream starts and, for bounded runs, ends. Both bounds
/// are required in backfill mode.
#[derive(Clone, Copy, PartialEq, Eq, Debug)]
pub struct TransactionStreamConfig {
    pub starting_version: Option<u64>,
    pub request_ending_version: Option<u64>,
}

/// Connection parameters for the status store. The pool itself is built and
/// owned outside this crate.
#[derive(Debug)]
pub struct DbConfig {
    pub postgres_connection_string: String,
    pub db_pool_size: u32,
}

/// The full configuration a tracker is constructed from.
#[derive(Debug)]
pub struct IndexerProcessorConfig {
    pub processor_config: ProcessorConfig,
    pub transaction_stream_config: TransactionStreamConfig,
    pub db_config: DbConfig,
    pub backfill_config: Option<BackfillConfig>,
}

} // verus!
