use vstd::prelude::*;

verus! {

/// Fatal error classes a pipeline step can raise. Any of them aborts the
/// pipeline; retries are the responsibility of outer orchestration.
#[derive(Clone, Copy, PartialEq, Eq, Structural, Debug)]
pub enum ProcessorError {
    /// Invalid or missing configuration, raised at construction.
    Config,
    /// A persist operation against the status store failed.
    Storage,
    /// The upstream transaction stream failed or replied malformed data.
    Upstream,
    /// An output channel's receiver is gone, so a send can never complete.
    Downstream,
    /// An internal invariant was violated.
    Internal,
}

} // verus!
