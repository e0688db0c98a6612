use vstd::prelude::*;

verus! {

/// Why a lag query or an offset lookup could not be answered.
#[derive(Debug, Clone, PartialEq, Eq)]
pub enum PartitionOffsetsError {
    /// No observation was ever registered for this topic and partition.
    LagEstimatorNotFound(String, u32),
    /// The estimator exists but holds no sample.
    NoHistory,
    /// The estimator holds a single sample: no rate can be derived from it.
    InsufficientHistory,
    /// The two samples chosen for the estimate share their offset.
    DegenerateHistory,
}

pub type PartitionOffsetsResult<T> = Result<T, PartitionOffsetsError>;

} // verus!
