use vstd::prelude::*;

verus! {

/// A wall-clock instant attached to a transaction, as seconds and nanoseconds
/// since the Unix epoch. Interpreting it as a calendar date is left to the
/// storage layer.
#[derive(Clone, Copy, PartialEq, Eq, Structural, Debug)]
pub struct TransactionTimestamp {
    pub seconds: i64,
    pub nanos: u32,
}

/// The envelope that flows along every pipeline edge: a payload plus the
/// inclusive, internally contiguous version range `[start_version,
/// end_version]` it represents.
#[derive(Clone, Debug)]
pub struct TransactionContext<T> {
    pub data: Vec<T>,
    pub start_version: u64,
    pub end_version: u64,
    pub start_transaction_timestamp: Option<TransactionTimestamp>,
    pub end_transaction_timestamp: Option<TransactionTimestamp>,
    pub total_size_in_bytes: u64,
}

/// An envelope with the payload stripped: what the tracker retains for
/// batches that arrived ahead of the frontier, so payload bytes are never
/// duplicated.
#[derive(Clone, Copy, PartialEq, Eq, Debug)]
pub struct TransactionMetadata {
    pub start_version: u64,
    pub end_version: u64,
    pub start_transaction_timestamp: Option<TransactionTimestamp>,
    pub end_transaction_timestamp: Option<TransactionTimestamp>,
    pub total_size_in_bytes: u64,
}

impl<T> TransactionContext<T> {
    /// The metadata-only image of this envelope.
    pub open spec fn metadata_spec(self) -> TransactionMetadata {
        TransactionMetadata {
            start_version: self.start_version,
            end_version: self.end_version,
            start_transaction_timestamp: self.start_transaction_timestamp,
            end_transaction_timestamp: self.end_transaction_timestamp,
            total_size_in_bytes: self.total_size_in_bytes,
        }
    }

    /// Strips the payload, keeping every other field.
    pub fn metadata(&self) -> (m: TransactionMetadata)
        ensures
            m == self.metadata_spec(),
    {
        TransactionMetadata {
            start_version: self.start_version,
            end_version: self.end_version,
            start_transaction_timestamp: self.start_transaction_timestamp,
            end_transaction_timestamp: self.end_transaction_timestamp,
            total_size_in_bytes: self.total_size_in_bytes,
        }
    }
}

} // verus!
