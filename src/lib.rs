use vstd::prelude::*;

pub mod cluster_status;
pub mod errors;
pub mod kafka_types;
pub mod known_offset;
pub mod lag_estimator;
pub mod register;

verus! {

} // verus!
