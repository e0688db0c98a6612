use vstd::prelude::*;

use crate::errors::{PartitionOffsetsError, PartitionOffsetsResult};
use crate::known_offset::KnownOffset;
use vstd::arithmetic::div_mod::lemma_div_multiples_vanish;

verus! {

/// The samples kept once `samples` have been appended, oldest first, to a
/// window that holds at most `capacity` of them.
pub open spec fn retained(samples: Seq<KnownOffset>, capacity: nat) -> Seq<KnownOffset> {
    if samples.len() <= capacity {
        samples
    } else {
        samples.subrange(samples.len() - capacity, samples.len() as int)
    }
}

/// Offset lag of a consumer at `consumed` against a broker at `latest`: zero
/// once the consumer has caught up.
pub open spec fn offset_lag(latest: u64, consumed: u64) -> u64 {
    if consumed >= latest {
        0
    } else {
        (latest - consumed) as u64
    }
}

/// The samples at `i` and `i + 1` enclose `c`, and their offsets differ.
pub open spec fn brackets(h: Seq<KnownOffset>, i: int, c: int) -> bool {
    h[i].offset <= c && c <= h[i + 1].offset && h[i].offset < h[i + 1].offset
}

/// The first index at or after `i` whose pair of consecutive samples
/// brackets `c`, or -1 where there is none.
pub open spec fn first_bracket(h: Seq<KnownOffset>, c: int, i: int) -> int
    decreases h.len() - i,
{
    if i < 0 || i + 1 >= h.len() {
        -1
    } else if brackets(h, i, c) {
        i
    } else {
        first_bracket(h, c, i + 1)
    }
}

/// Index of the first of the two consecutive samples the time estimate is
/// drawn from: the first bracketing pair, or else the earliest pair when `c`
/// lies below the first sample and the latest pair otherwise.
pub open spec fn chosen_pair(h: Seq<KnownOffset>, c: int) -> int {
    let f = first_bracket(h, c, 0);
    if f >= 0 {
        f
    } else if c < h[0].offset {
        0
    } else {
        h.len() - 2
    }
}

pub open spec fn abs(a: int) -> int {
    if a < 0 { -a } else { a }
}

/// Integer division rounded towards zero (`b` nonzero).
pub open spec fn div_toward_zero(a: int, b: int) -> int {
    if (a >= 0) == (b > 0) {
        abs(a) / abs(b)
    } else {
        -(abs(a) / abs(b))
    }
}

/// The moment, on the line through samples `s1` and `s2`, at which the
/// broker offset equalled `c`.
pub open spec fn estimated_time(s1: KnownOffset, s2: KnownOffset, c: int) -> int {
    s1.observed_at_ms + div_toward_zero(
        (c - s1.offset) * (s2.observed_at_ms - s1.observed_at_ms),
        s2.offset - s1.offset,
    )
}

/// `lag` bounded below by zero and above by the largest `i64`.
pub open spec fn clamp_lag(lag: int) -> i64 {
    if lag < 0 {
        0
    } else if lag > i64::MAX {
        i64::MAX
    } else {
        lag as i64
    }
}

/// Time lag in milliseconds of a consumer at offset `c`, measured from the
/// latest sample back to the estimated production time of `c`.
pub open spec fn time_lag(h: Seq<KnownOffset>, c: int) -> i64 {
    let i = chosen_pair(h, c);
    clamp_lag(h.last().observed_at_ms - estimated_time(h[i], h[i + 1], c))
}

/// Time lag, in milliseconds, of the newest sample (observed at
/// `latest_ms`) behind the moment at which the line through `s1` and `s2`
/// reached offset `consumed`.
pub fn interpolated_lag(s1: KnownOffset, s2: KnownOffset, latest_ms: i64, consumed: u64) -> (r: i64)
    requires
        s1.offset != s2.offset,
    ensures
        r == clamp_lag(latest_ms - estimated_time(s1, s2, consumed as int)),
{
    let dc: i128 = consumed as i128 - s1.offset as i128;
    let dt: i128 = s2.observed_at_ms as i128 - s1.observed_at_ms as i128;
    let doff: i128 = s2.offset as i128 - s1.offset as i128;
    let dc_mag: u128 = if dc < 0 { (-dc) as u128 } else { dc as u128 };
    let dt_mag: u128 = if dt < 0 { (-dt) as u128 } else { dt as u128 };
    let den: u128 = if doff < 0 { (-doff) as u128 } else { doff as u128 };
    proof {
        assert(dc_mag <= 0xffff_ffff_ffff_ffff);
        assert(dt_mag <= 0xffff_ffff_ffff_ffff);
        assert(dc_mag * dt_mag <= 0xffff_ffff_ffff_ffff * 0xffff_ffff_ffff_ffffu128) by (nonlinear_arith)
            requires
                dc_mag <= 0xffff_ffff_ffff_ffff,
                dt_mag <= 0xffff_ffff_ffff_ffff,
        ;
        assert(abs(dc * dt) == dc_mag * dt_mag) by (nonlinear_arith)
            requires
                dc_mag == abs(dc as int),
                dt_mag == abs(dt as int),
        ;
        assert((dc * dt >= 0) == (dc == 0 || dt == 0 || (dc > 0) == (dt > 0))) by (nonlinear_arith);
    }
    let num: u128 = dc_mag * dt_mag;
    let q: u128 = num / den;
    let num_nonneg = dc == 0 || dt == 0 || (dc > 0) == (dt > 0);
    let forward = num_nonneg == (doff > 0);
    let d: i128 = latest_ms as i128 - s1.observed_at_ms as i128;
    let ghost step = div_toward_zero(dc * dt, doff as int);
    assert(step == if forward { q as int } else { -(q as int) });
    assert(latest_ms - estimated_time(s1, s2, consumed as int) == d - step);
    if q >= 0x2_0000_0000_0000_0000u128 {
        if forward {
            0
        } else {
            i64::MAX
        }
    } else {
        let qi: i128 = q as i128;
        let raw: i128 = if forward { d - qi } else { d + qi };
        if raw < 0 {
            0
        } else if raw > i64::MAX as i128 {
            i64::MAX
        } else {
            raw as i64
        }
    }
}

/// What `earliest_offset` returns for history `h`.
pub open spec fn earliest_result(h: Seq<KnownOffset>) -> PartitionOffsetsResult<KnownOffset> {
    if h.len() == 0 {
        Err(PartitionOffsetsError::NoHistory)
    } else {
        Ok(h[0])
    }
}

/// What `latest_offset` returns for history `h`.
pub open spec fn latest_result(h: Seq<KnownOffset>) -> PartitionOffsetsResult<KnownOffset> {
    if h.len() == 0 {
        Err(PartitionOffsetsError::NoHistory)
    } else {
        Ok(h.last())
    }
}

/// What `estimate_offset_lag` returns for history `h` and consumer offset `c`.
pub open spec fn offset_lag_result(h: Seq<KnownOffset>, c: u64) -> PartitionOffsetsResult<u64> {
    if h.len() == 0 {
        Err(PartitionOffsetsError::NoHistory)
    } else {
        Ok(offset_lag(h.last().offset, c))
    }
}

/// What `estimate_time_lag` returns for history `h` and consumer offset `c`.
pub open spec fn time_lag_result(h: Seq<KnownOffset>, c: u64) -> PartitionOffsetsResult<i64> {
    if h.len() == 0 {
        Err(PartitionOffsetsError::NoHistory)
    } else if h.len() == 1 {
        Err(PartitionOffsetsError::InsufficientHistory)
    } else {
        let i = chosen_pair(h, c as int);
        if h[i].offset == h[i + 1].offset {
            Err(PartitionOffsetsError::DegenerateHistory)
        } else {
            Ok(time_lag(h, c as int))
        }
    }
}

/// Appending a sample to the retained window and trimming it again keeps the
/// same samples as trimming the whole arrival sequence: after any sequence of
/// updates an estimator holds the last `capacity` samples to arrive, oldest
/// first, and never more than `capacity`.
pub proof fn lemma_fifo_retention(samples: Seq<KnownOffset>, s: KnownOffset, capacity: nat)
    ensures
        retained(retained(samples, capacity).push(s), capacity) == retained(samples.push(s), capacity),
        retained(samples, capacity).len() <= capacity,
{
    let w = retained(samples, capacity);
    let all = samples.push(s);
    if all.len() <= capacity {
        assert(w == samples);
    } else if samples.len() <= capacity {
        assert(w.push(s) == all);
    } else {
        let lhs = retained(w.push(s), capacity);
        let rhs = retained(all, capacity);
        assert(lhs =~= rhs);
    }
}

/// Once at least `capacity` samples have arrived (`capacity` > 0), the oldest
/// retained sample is the one that arrived `capacity` samples before the end,
/// and the newest retained is the last to arrive.
pub proof fn lemma_oldest_retained(samples: Seq<KnownOffset>, capacity: nat)
    requires
        capacity > 0,
        samples.len() >= capacity,
    ensures
        retained(samples, capacity).len() == capacity,
        retained(samples, capacity)[0] == samples[samples.len() - capacity],
        retained(samples, capacity).last() == samples.last(),
{
}

/// A consumer at or past the newest sample has no offset lag.
pub proof fn lemma_caught_up_has_no_offset_lag(h: Seq<KnownOffset>, consumed: u64)
    requires
        h.len() > 0,
        consumed >= h.last().offset,
    ensures
        offset_lag_result(h, consumed) == Ok::<u64, PartitionOffsetsError>(0),
{
}

proof fn lemma_first_bracket_reaches(h: Seq<KnownOffset>, c: int, j: int, t: int)
    requires
        0 <= j <= t,
        t + 1 < h.len(),
        brackets(h, t, c),
        forall|m: int| j <= m < t ==> !brackets(h, m, c),
    ensures
        first_bracket(h, c, j) == t,
    decreases t - j,
{
    if j < t {
        lemma_first_bracket_reaches(h, c, j + 1, t);
    }
}

/// Where offsets strictly increase along the history, a consumer at the
/// offset of a retained sample is estimated to have been produced exactly at
/// that sample's time, so its time lag is the time from that sample to the
/// newest one.
pub proof fn lemma_exact_hit(h: Seq<KnownOffset>, k: int)
    requires
        h.len() >= 2,
        0 <= k < h.len(),
        forall|a: int, b: int| 0 <= a < b < h.len() ==> #[trigger] h[a].offset < #[trigger] h[b].offset,
    ensures
        ({
            let c = h[k].offset as int;
            let i = chosen_pair(h, c);
            &&& h[i].offset != h[i + 1].offset
            &&& estimated_time(h[i], h[i + 1], c) == h[k].observed_at_ms
        }),
        time_lag_result(h, h[k].offset) == Ok::<i64, PartitionOffsetsError>(
            clamp_lag(h.last().observed_at_ms - h[k].observed_at_ms),
        ),
{
    let c = h[k].offset as int;
    let t = if k == 0 { 0 } else { k - 1 };
    assert(h[t].offset < h[t + 1].offset);
    assert forall|m: int| 0 <= m < t implies !brackets(h, m, c) by {
        assert(h[m + 1].offset < h[k].offset);
    }
    lemma_first_bracket_reaches(h, c, 0, t);
    assert(chosen_pair(h, c) == t);
    let s1 = h[t];
    let s2 = h[t + 1];
    let d = s2.offset - s1.offset;
    let dt = s2.observed_at_ms - s1.observed_at_ms;
    if k == 0 {
        assert((c - s1.offset) * dt == 0);
        assert(div_toward_zero(0, d) == 0);
    } else {
        assert(c - s1.offset == d);
        lemma_div_multiples_vanish(abs(dt), d);
        assert(abs(d * dt) == d * abs(dt)) by (nonlinear_arith)
            requires
                d > 0,
        ;
        assert((d * dt >= 0) == (dt >= 0)) by (nonlinear_arith)
            requires
                d > 0,
        ;
        assert(div_toward_zero(d * dt, d) == dt);
    }
}

/// Per-partition history of broker offsets, bounded to a fixed number of
/// samples, from which consumer lag is estimated.
pub struct PartitionLagEstimator {
    history: Vec<KnownOffset>,
    capacity: usize,
}

impl View for PartitionLagEstimator {
    type V = Seq<KnownOffset>;

    /// The retained samples, oldest first.
    closed spec fn view(&self) -> Seq<KnownOffset> {
        self.history@
    }
}

impl PartitionLagEstimator {
    /// The most samples this estimator retains.
    pub closed spec fn cap(&self) -> nat {
        self.capacity as nat
    }

    pub closed spec fn wf(&self) -> bool {
        self.history@.len() <= self.capacity
    }

    /// A well-formed estimator never holds more samples than its capacity.
    pub proof fn lemma_within_capacity(&self)
        requires
            self.wf(),
        ensures
            self@.len() <= self.cap(),
    {
    }

    pub fn new(capacity: usize) -> (r: PartitionLagEstimator)
        ensures
            r.wf(),
            r@ == Seq::<KnownOffset>::empty(),
            r.cap() == capacity,
    {
        PartitionLagEstimator { history: Vec::new(), capacity }
    }

    /// Appends a sample, evicting the oldest one first when the window is
    /// full. Samples are kept in arrival order.
    pub fn update(&mut self, offset: u64, observed_at_ms: i64)
        requires
            old(self).wf(),
        ensures
            final(self).wf(),
            final(self).cap() == old(self).cap(),
            final(self)@ == retained(
                old(self)@.push(KnownOffset { offset, observed_at_ms }),
                old(self).cap(),
            ),
    {
        let sample = KnownOffset { offset, observed_at_ms };
        if self.capacity == 0 {
            return ;
        }
        let ghost before = self.history@;
        if self.history.len() == self.capacity {
            self.history.remove(0);
        }
        self.history.push(sample);
        proof {
            let all = before.push(sample);
            if before.len() == self.capacity {
                assert(self.history@ =~= all.subrange(all.len() - self.capacity, all.len() as int));
            } else {
                assert(self.history@ =~= all);
            }
        }
    }

    pub fn capacity(&self) -> (r: usize)
        ensures
            r == self.cap(),
    {
        self.capacity
    }

    pub fn history_len(&self) -> (r: usize)
        ensures
            r == self@.len(),
    {
        self.history.len()
    }

    /// The oldest retained sample.
    pub fn earliest_offset(&self) -> (r: PartitionOffsetsResult<KnownOffset>)
        ensures
            r == earliest_result(self@),
    {
        if self.history.len() == 0 {
            Err(PartitionOffsetsError::NoHistory)
        } else {
            Ok(self.history[0])
        }
    }

    /// The newest retained sample.
    pub fn latest_offset(&self) -> (r: PartitionOffsetsResult<KnownOffset>)
        ensures
            r == latest_result(self@),
    {
        let n = self.history.len();
        if n == 0 {
            Err(PartitionOffsetsError::NoHistory)
        } else {
            Ok(self.history[n - 1])
        }
    }

    /// Estimated time, in milliseconds, by which the consumer at
    /// `consumed_offset` trails the newest sample. The estimate is anchored to
    /// the broker's timeline: `consumed_at_ms`, the consumer's own clock, does
    /// not enter it.
    pub fn estimate_time_lag(&self, consumed_offset: u64, consumed_at_ms: i64) -> (r:
        PartitionOffsetsResult<i64>)
        ensures
            r == time_lag_result(self@, consumed_offset),
            self@.len() >= 2 ==> 0 <= chosen_pair(self@, consumed_offset as int) < self@.len() - 1,
    {
        let n = self.history.len();
        if n == 0 {
            return Err(PartitionOffsetsError::NoHistory);
        }
        if n == 1 {
            return Err(PartitionOffsetsError::InsufficientHistory);
        }
        let ghost h = self@;
        let ghost c = consumed_offset as int;
        let mut i: usize = 0;
        let mut found = false;
        while i + 1 < n && !found
            invariant
                n == self.history@.len(),
                h == self.history@,
                c == consumed_offset as int,
                n >= 2,
                i + 1 <= n,
                first_bracket(h, c, 0) == first_bracket(h, c, i as int),
                found ==> brackets(h, i as int, c) && i + 1 < n,
            decreases n - i - (if found { 1int } else { 0 }),
        {
            let a = self.history[i].offset;
            let b = self.history[i + 1].offset;
            if a <= consumed_offset && consumed_offset <= b && a < b {
                found = true;
            } else {
                assert(!brackets(h, i as int, c));
                assert(first_bracket(h, c, i as int) == first_bracket(h, c, i + 1));
                i = i + 1;
            }
        }
        let k: usize = if found {
            i
        } else if consumed_offset < self.history[0].offset {
            0
        } else {
            n - 2
        };
        assert(k as int == chosen_pair(h, c));
        let s1 = self.history[k];
        let s2 = self.history[k + 1];
        if s1.offset == s2.offset {
            return Err(PartitionOffsetsError::DegenerateHistory);
        }
        Ok(interpolated_lag(s1, s2, self.history[n - 1].observed_at_ms, consumed_offset))
    }

    /// Records the consumer at `consumed_offset` is behind the newest sample.
    pub fn estimate_offset_lag(&self, consumed_offset: u64) -> (r: PartitionOffsetsResult<u64>)
        ensures
            r == offset_lag_result(self@, consumed_offset),
    {
        match self.latest_offset() {
            Err(e) => Err(e),
            Ok(latest) => {
                if consumed_offset >= latest.offset {
                    Ok(0)
                } else {
                    Ok(latest.offset - consumed_offset)
                }
            },
        }
    }
}

} // verus!
