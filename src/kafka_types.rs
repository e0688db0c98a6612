use vstd::prelude::*;

verus! {

/// Identity of one partition of one topic.
#[derive(Debug, Clone, PartialEq, Eq, PartialOrd, Ord, Hash)]
pub struct TopicPartition {
    pub topic: String,
    pub partition: u32,
}

impl View for TopicPartition {
    type V = (Seq<char>, u32);

    open spec fn view(&self) -> (Seq<char>, u32) {
        (self.topic@, self.partition)
    }
}

impl TopicPartition {
    pub fn new(topic: String, partition: u32) -> (r: TopicPartition)
        ensures
            r.topic@ == topic@,
            r.partition == partition,
    {
        TopicPartition { topic, partition }
    }

    /// Whether `self` and `other` name the same partition.
    pub fn same_as(&self, other: &TopicPartition) -> (r: bool)
        ensures
            r == (self@ == other@),
    {
        self.partition == other.partition && self.topic == other.topic
    }

    /// A copy of this identity.
    pub fn duplicate(&self) -> (r: TopicPartition)
        ensures
            r@ == self@,
    {
        TopicPartition { topic: self.topic.clone(), partition: self.partition }
    }
}

/// An observation of a partition's latest broker offset, as it arrives on the
/// register's inbound channel. `read_at_ms` is milliseconds since the Unix
/// epoch, UTC.
#[derive(Debug, Clone, PartialEq, Eq)]
pub struct PartitionOffset {
    pub topic: String,
    pub partition: u32,
    pub latest_offset: u64,
    pub read_at_ms: i64,
}

} // verus!
