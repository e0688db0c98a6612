use vstd::prelude::*;

verus! {

/// One broker-side observation: the high-watermark `offset` of a partition,
/// as it stood at `observed_at_ms` (milliseconds since the Unix epoch, UTC).
#[derive(Debug, Clone, Copy, PartialEq, Eq, Structural)]
pub struct KnownOffset {
    pub offset: u64,
    pub observed_at_ms: i64,
}

impl KnownOffset {
    pub fn new(offset: u64, observed_at_ms: i64) -> (r: KnownOffset)
        ensures
            r.offset == offset,
            r.observed_at_ms == observed_at_ms,
    {
        KnownOffset { offset, observed_at_ms }
    }
}

} // verus!
