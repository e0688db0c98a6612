use vstd::prelude::*;

use crate::errors::{PartitionOffsetsError, PartitionOffsetsResult};
use crate::kafka_types::{PartitionOffset, TopicPartition};
use crate::known_offset::KnownOffset;
use crate::lag_estimator::{
    earliest_result, latest_result, offset_lag_result, retained, time_lag_result,
    PartitionLagEstimator,
};

verus! {

/// A partition's identity as the register sees it: topic name and index.
pub type PartitionKey = (Seq<char>, u32);

/// Position of the entry for `k` in `entries`, or -1 where there is none.
pub open spec fn index_of(entries: Seq<(PartitionKey, Seq<KnownOffset>)>, k: PartitionKey) -> int
    decreases entries.len(),
{
    if entries.len() == 0 {
        -1
    } else if entries.last().0 == k {
        entries.len() - 1
    } else {
        index_of(entries.drop_last(), k)
    }
}

/// `index_of` finds an entry with the key, and finds none only where no
/// entry has it.
pub proof fn lemma_index_of(entries: Seq<(PartitionKey, Seq<KnownOffset>)>, k: PartitionKey)
    ensures
        -1 <= index_of(entries, k) < entries.len(),
        index_of(entries, k) >= 0 ==> entries[index_of(entries, k)].0 == k,
        index_of(entries, k) < 0 ==> forall|i: int| 0 <= i < entries.len() ==> #[trigger] entries[i].0 != k,
    decreases entries.len(),
{
    if entries.len() > 0 && entries.last().0 != k {
        let d = entries.drop_last();
        lemma_index_of(d, k);
        if index_of(entries, k) < 0 {
            assert forall|i: int| 0 <= i < entries.len() implies #[trigger] entries[i].0 != k by {
                if i < entries.len() - 1 {
                    assert(entries[i] == d[i]);
                }
            }
        }
    }
}

/// No two entries share a key.
pub open spec fn unique_keys(entries: Seq<(PartitionKey, Seq<KnownOffset>)>) -> bool {
    forall|i: int, j: int|
        0 <= i < j < entries.len() ==> #[trigger] entries[i].0 != #[trigger] entries[j].0
}

/// The entries after an observation of offset `s` for `k`: the history of an
/// existing entry takes `s`, or a new entry is appended.
pub open spec fn observed(
    entries: Seq<(PartitionKey, Seq<KnownOffset>)>,
    capacity: nat,
    k: PartitionKey,
    s: KnownOffset,
) -> Seq<(PartitionKey, Seq<KnownOffset>)> {
    let i = index_of(entries, k);
    if i >= 0 {
        entries.update(i, (k, retained(entries[i].1.push(s), capacity)))
    } else {
        entries.push((k, retained(seq![s], capacity)))
    }
}

/// The error for a query on a partition the register has never seen.
pub open spec fn not_found<T>(k: PartitionKey, r: PartitionOffsetsResult<T>) -> bool {
    match r {
        Err(PartitionOffsetsError::LagEstimatorNotFound(topic, partition)) => topic@ == k.0
            && partition == k.1,
        _ => false,
    }
}

/// Sum of the history lengths of `entries`.
pub open spec fn total_len(entries: Seq<(PartitionKey, Seq<KnownOffset>)>) -> nat
    decreases entries.len(),
{
    if entries.len() == 0 {
        0
    } else {
        total_len(entries.drop_last()) + entries.last().1.len()
    }
}

/// History occupancy over all partitions of a register.
#[derive(Debug, Clone, Copy, PartialEq, Eq, Structural)]
pub struct RegisterUsage {
    /// Fewest samples held by any partition.
    pub min_len: usize,
    /// Most samples held by any partition.
    pub max_len: usize,
    /// Samples held over all partitions.
    pub total_len: u128,
    /// Number of partitions.
    pub count: usize,
    /// Samples each partition can hold.
    pub capacity: usize,
}

struct Entry {
    key: TopicPartition,
    estimator: PartitionLagEstimator,
}

/// Offset history of every partition seen so far, from which the lag of a
/// consumer at a known offset is estimated.
pub struct PartitionOffsetsRegister {
    entries: Vec<Entry>,
    offsets_history: usize,
}

impl View for PartitionOffsetsRegister {
    type V = Seq<(PartitionKey, Seq<KnownOffset>)>;

    /// Each partition with its retained samples, in order of first
    /// observation.
    closed spec fn view(&self) -> Seq<(PartitionKey, Seq<KnownOffset>)> {
        Seq::new(self.entries@.len(), |i: int| (self.entries@[i].key@, self.entries@[i].estimator@))
    }
}

impl PartitionOffsetsRegister {
    /// Samples retained per partition.
    pub closed spec fn cap(&self) -> nat {
        self.offsets_history as nat
    }

    pub closed spec fn wf(&self) -> bool {
        &&& unique_keys(self@)
        &&& forall|i: int|
            0 <= i < self.entries@.len() ==> {
                &&& (#[trigger] self.entries@[i]).estimator.wf()
                &&& self.entries@[i].estimator.cap() == self.offsets_history
            }
    }

    /// An empty register that keeps `offsets_history` samples per partition.
    pub fn new(offsets_history: usize) -> (r: PartitionOffsetsRegister)
        ensures
            r.wf(),
            r@ == Seq::<(PartitionKey, Seq<KnownOffset>)>::empty(),
            r.cap() == offsets_history,
    {
        let r = PartitionOffsetsRegister { entries: Vec::new(), offsets_history };
        assert(r@ =~= Seq::<(PartitionKey, Seq<KnownOffset>)>::empty());
        r
    }

    /// Samples retained per partition.
    pub fn offsets_history(&self) -> (r: usize)
        ensures
            r == self.cap(),
    {
        self.offsets_history
    }

    /// Position of the entry for `tp`.
    fn find(&self, tp: &TopicPartition) -> (r: Option<usize>)
        requires
            self.wf(),
        ensures
            index_of(self@, tp@) < 0 ==> r is None,
            index_of(self@, tp@) >= 0 ==> r is Some && r.unwrap() as int == index_of(self@, tp@),
            index_of(self@, tp@) < self@.len(),
    {
        let mut i: usize = self.entries.len();
        proof {
            assert(self@.subrange(0, i as int) =~= self@);
        }
        while i > 0
            invariant
                i <= self.entries@.len(),
                self@.len() == self.entries@.len(),
                index_of(self@, tp@) == index_of(self@.subrange(0, i as int), tp@),
            decreases i,
        {
            let ghost pre = self@.subrange(0, i as int);
            assert(pre.drop_last() =~= self@.subrange(0, i - 1));
            if self.entries[i - 1].key.same_as(tp) {
                return Some(i - 1);
            }
            i = i - 1;
        }
        None
    }

    /// Records an observation from the inbound channel: the partition's
    /// estimator is created on its first observation, then takes the sample.
    pub fn apply(&mut self, po: PartitionOffset)
        requires
            old(self).wf(),
        ensures
            final(self).wf(),
            final(self).cap() == old(self).cap(),
            final(self)@ == observed(
                old(self)@,
                old(self).cap(),
                (po.topic@, po.partition),
                KnownOffset { offset: po.latest_offset, observed_at_ms: po.read_at_ms },
            ),
    {
        let key = TopicPartition { topic: po.topic, partition: po.partition };
        let ghost k = key@;
        let ghost s = KnownOffset { offset: po.latest_offset, observed_at_ms: po.read_at_ms };
        proof {
            lemma_index_of(self@, k);
        }
        let found = self.find(&key);
        match found {
            Some(i) => {
                assert(old(self)@[i as int].0 == k);
                assert(old(self)@[i as int].1 == old(self).entries@[i as int].estimator@);
                self.entries[i].estimator.update(po.latest_offset, po.read_at_ms);
                proof {
                    assert(self.entries@[i as int].key == old(self).entries@[i as int].key);
                    assert(self@[i as int] == (k, retained(old(self)@[i as int].1.push(s), old(self).cap())));
                    assert forall|j: int| 0 <= j < self@.len() && j != i implies #[trigger] self@[j] == old(self)@[j] by {
                        assert(self.entries@[j] == old(self).entries@[j]);
                    }
                    assert(self@ =~= observed(old(self)@, old(self).cap(), k, s));
                    assert forall|j: int| 0 <= j < self.entries@.len() implies {
                        &&& (#[trigger] self.entries@[j]).estimator.wf()
                        &&& self.entries@[j].estimator.cap() == self.offsets_history
                    } by {
                        if j != i {
                            assert(self.entries@[j] == old(self).entries@[j]);
                        }
                    }
                    assert(self@.len() == old(self)@.len());
                    assert forall|a: int, b: int| 0 <= a < b < self@.len() implies #[trigger] self@[a].0
                        != #[trigger] self@[b].0 by {
                        assert(self@[a].0 == old(self)@[a].0);
                        assert(self@[b].0 == old(self)@[b].0);
                    }
                }
            },
            None => {
                let mut estimator = PartitionLagEstimator::new(self.offsets_history);
                estimator.update(po.latest_offset, po.read_at_ms);
                proof {
                    assert(Seq::<KnownOffset>::empty().push(s) =~= seq![s]);
                }
                let ghost e_view = estimator@;
                assert(e_view == retained(seq![s], old(self).cap()));
                self.entries.push(Entry { key, estimator });
                proof {
                    assert(self.entries@.last().key@ == k);
                    assert(self@.last() == (k, e_view));
                    assert(self@.len() == old(self)@.len() + 1);
                    assert forall|j: int| 0 <= j < old(self)@.len() implies #[trigger] self@[j] == old(self)@[j] by {
                        assert(self.entries@[j] == old(self).entries@[j]);
                    }
                    assert(self@ =~= observed(old(self)@, old(self).cap(), k, s));
                    assert forall|j: int| 0 <= j < self.entries@.len() implies {
                        &&& (#[trigger] self.entries@[j]).estimator.wf()
                        &&& self.entries@[j].estimator.cap() == self.offsets_history
                    } by {
                        if j < old(self).entries@.len() {
                            assert(self.entries@[j] == old(self).entries@[j]);
                        }
                    }
                    assert forall|a: int, b: int| 0 <= a < b < self@.len() implies #[trigger] self@[a].0
                        != #[trigger] self@[b].0 by {
                        assert(self@[a].0 == old(self)@[a].0);
                        if b < old(self)@.len() {
                            assert(self@[b].0 == old(self)@[b].0);
                        }
                    }
                }
            },
        }
    }

    /// The error for a query on `tp`, which has no entry.
    fn missing<T>(tp: &TopicPartition) -> (r: PartitionOffsetsResult<T>)
        ensures
            not_found(tp@, r),
    {
        Err(PartitionOffsetsError::LagEstimatorNotFound(tp.topic.clone(), tp.partition))
    }

    /// Offset lag of a consumer of `tp` at `consumed_offset`.
    pub fn estimate_offset_lag(&self, tp: &TopicPartition, consumed_offset: u64) -> (r:
        PartitionOffsetsResult<u64>)
        requires
            self.wf(),
        ensures
            index_of(self@, tp@) < 0 ==> not_found(tp@, r),
            index_of(self@, tp@) >= 0 ==> r == offset_lag_result(
                self@[index_of(self@, tp@)].1,
                consumed_offset,
            ),
    {
        match self.find(tp) {
            None => Self::missing(tp),
            Some(i) => self.entries[i].estimator.estimate_offset_lag(consumed_offset),
        }
    }

    /// Time lag, in milliseconds, of a consumer of `tp` at `consumed_offset`,
    /// which it committed at `consumed_at_ms`.
    pub fn estimate_time_lag(&self, tp: &TopicPartition, consumed_offset: u64, consumed_at_ms: i64) -> (r:
        PartitionOffsetsResult<i64>)
        requires
            self.wf(),
        ensures
            index_of(self@, tp@) < 0 ==> not_found(tp@, r),
            index_of(self@, tp@) >= 0 ==> r == time_lag_result(
                self@[index_of(self@, tp@)].1,
                consumed_offset,
            ),
    {
        match self.find(tp) {
            None => Self::missing(tp),
            Some(i) => self.entries[i].estimator.estimate_time_lag(consumed_offset, consumed_at_ms),
        }
    }

    /// The oldest sample retained for `tp`.
    pub fn get_earliest_offset(&self, tp: &TopicPartition) -> (r: PartitionOffsetsResult<KnownOffset>)
        requires
            self.wf(),
        ensures
            index_of(self@, tp@) < 0 ==> not_found(tp@, r),
            index_of(self@, tp@) >= 0 ==> r == earliest_result(self@[index_of(self@, tp@)].1),
    {
        match self.find(tp) {
            None => Self::missing(tp),
            Some(i) => self.entries[i].estimator.earliest_offset(),
        }
    }

    /// The newest sample retained for `tp`.
    pub fn get_latest_offset(&self, tp: &TopicPartition) -> (r: PartitionOffsetsResult<KnownOffset>)
        requires
            self.wf(),
        ensures
            index_of(self@, tp@) < 0 ==> not_found(tp@, r),
            index_of(self@, tp@) >= 0 ==> r == latest_result(self@[index_of(self@, tp@)].1),
    {
        match self.find(tp) {
            None => Self::missing(tp),
            Some(i) => self.entries[i].estimator.latest_offset(),
        }
    }

    /// How full the partitions' histories are: all zero for an empty
    /// register.
    pub fn get_usage(&self) -> (r: RegisterUsage)
        requires
            self.wf(),
        ensures
            r.count == self@.len(),
            r.capacity == self.cap(),
            r.total_len == total_len(self@),
            self@.len() == 0 ==> r.min_len == 0 && r.max_len == 0,
            self@.len() > 0 ==> {
                &&& exists|i: int| 0 <= i < self@.len() && #[trigger] self@[i].1.len() == r.min_len
                &&& exists|i: int| 0 <= i < self@.len() && #[trigger] self@[i].1.len() == r.max_len
                &&& forall|i: int|
                    0 <= i < self@.len() ==> r.min_len <= #[trigger] self@[i].1.len() <= r.max_len
            },
    {
        let count = self.entries.len();
        if count == 0 {
            assert(total_len(self@) == 0);
            return RegisterUsage {
                min_len: 0,
                max_len: 0,
                total_len: 0,
                count: 0,
                capacity: self.offsets_history,
            };
        }
        let first = self.entries[0].estimator.history_len();
        let mut min_len: usize = first;
        let mut max_len: usize = first;
        let mut total: u128 = 0;
        let mut i: usize = 0;
        assert(self@[0].1.len() == first);
        assert(self@.subrange(0, 0) =~= Seq::<(PartitionKey, Seq<KnownOffset>)>::empty());
        while i < count
            invariant
                self.wf(),
                count == self.entries@.len(),
                count == self@.len(),
                count > 0,
                i <= count,
                total == total_len(self@.subrange(0, i as int)),
                total <= i * self.offsets_history,
                exists|j: int| 0 <= j < count && #[trigger] self@[j].1.len() == min_len,
                exists|j: int| 0 <= j < count && #[trigger] self@[j].1.len() == max_len,
                forall|j: int| 0 <= j < i ==> min_len <= #[trigger] self@[j].1.len() <= max_len,
                min_len <= self@[0].1.len() <= max_len,
            decreases count - i,
        {
            let len = self.entries[i].estimator.history_len();
            assert(self@[i as int].1.len() == len);
            proof {
                let e = self.entries@[i as int];
                assert(e.estimator.wf());
                e.estimator.lemma_within_capacity();
            }
            assert(len <= self.offsets_history);
            proof {
                let next = self@.subrange(0, i + 1);
                assert(next.drop_last() =~= self@.subrange(0, i as int));
                assert(total + len <= (i + 1) * self.offsets_history) by (nonlinear_arith)
                    requires
                        total <= i * self.offsets_history,
                        len <= self.offsets_history,
                ;
                assert((i + 1) * self.offsets_history <= 0xffff_ffff_ffff_ffff * 0xffff_ffff_ffff_ffff)
                    by (nonlinear_arith)
                    requires
                        i < count,
                        count <= usize::MAX,
                        self.offsets_history <= usize::MAX,
                ;
            }
            total = total + len as u128;
            if len < min_len {
                min_len = len;
            }
            if len > max_len {
                max_len = len;
            }
            i = i + 1;
        }
        assert(self@.subrange(0, count as int) =~= self@);
        RegisterUsage { min_len, max_len, total_len: total, count, capacity: self.offsets_history }
    }

    /// One step of the ingestion loop, on what the inbound channel delivered:
    /// an observation is applied and the loop goes on; `None`, the channel
    /// closed for good, leaves the register as it is and ends the loop.
    pub fn receive(&mut self, message: Option<PartitionOffset>) -> (keep_running: bool)
        requires
            old(self).wf(),
        ensures
            final(self).wf(),
            final(self).cap() == old(self).cap(),
            keep_running == message is Some,
            match message {
                None => final(self)@ == old(self)@,
                Some(po) => final(self)@ == observed(
                    old(self)@,
                    old(self).cap(),
                    (po.topic@, po.partition),
                    KnownOffset { offset: po.latest_offset, observed_at_ms: po.read_at_ms },
                ),
            },
    {
        match message {
            None => false,
            Some(po) => {
                self.apply(po);
                true
            },
        }
    }
}

} // verus!
