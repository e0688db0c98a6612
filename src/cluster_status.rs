use vstd::prelude::*;

verus! {

/// A broker of the cluster.
#[derive(Debug, Clone, PartialEq, Eq, PartialOrd, Ord, Hash)]
pub struct Broker {
    pub id: u32,
    pub host: String,
    pub port: u16,
}

/// Where one partition lives and which offsets it holds.
#[derive(Debug, Clone, PartialEq, Eq, PartialOrd, Ord, Hash)]
pub struct PartitionStatus {
    pub id: u32,
    pub leader_broker: u32,
    pub replica_brokers: Vec<u32>,
    pub in_sync_replica_brokers: Vec<u32>,
    pub begin_offset: u64,
    pub end_offset: u64,
}

/// The partitions of one topic.
#[derive(Debug, Clone, PartialEq, Eq, PartialOrd, Ord, Hash)]
pub struct TopicPartitionsStatus {
    pub name: String,
    pub partitions: Vec<PartitionStatus>,
}

/// A snapshot of the cluster: its topics, with their partitions' placement
/// and offsets, and its brokers.
#[derive(Debug, Clone, PartialEq, Eq, PartialOrd, Ord)]
pub struct ClusterStatus {
    pub topics: Vec<TopicPartitionsStatus>,
    pub brokers: Vec<Broker>,
}

/// A broker watermark read as an offset: the two's complement bit pattern of
/// `w`, as an `i64`-to-`u64` cast gives it.
pub open spec fn watermark_offset(w: i64) -> u64 {
    if w >= 0 {
        w as u64
    } else {
        (w + 0x1_0000_0000_0000_0000) as u64
    }
}

/// `p` with the watermarks `fetched` (begin, end) applied, where they could
/// be fetched.
pub open spec fn with_watermarks(p: PartitionStatus, fetched: Option<(i64, i64)>) -> PartitionStatus {
    match fetched {
        Some((b, e)) => PartitionStatus {
            begin_offset: watermark_offset(b),
            end_offset: watermark_offset(e),
            ..p
        },
        None => p,
    }
}

fn watermark_to_offset(w: i64) -> (r: u64)
    ensures
        r == watermark_offset(w),
{
    if w >= 0 {
        w as u64
    } else {
        let magnitude: u64 = if w == i64::MIN {
            0x8000_0000_0000_0000
        } else {
            (-w) as u64
        };
        (u64::MAX - magnitude) + 1
    }
}

impl PartitionStatus {
    /// Records the begin and end watermarks fetched for this partition.
    pub fn set_watermarks(&mut self, begin: i64, end: i64)
        ensures
            *final(self) == with_watermarks(*old(self), Some((begin, end))),
    {
        self.begin_offset = watermark_to_offset(begin);
        self.end_offset = watermark_to_offset(end);
    }
}

impl TopicPartitionsStatus {
    /// Applies to each partition the watermarks fetched for it, in order;
    /// a partition whose fetch failed (`None`) keeps its offsets.
    pub fn apply_watermarks(&mut self, fetched: &Vec<Option<(i64, i64)>>)
        requires
            fetched@.len() == old(self).partitions@.len(),
        ensures
            final(self).name == old(self).name,
            final(self).partitions@.len() == old(self).partitions@.len(),
            forall|i: int|
                0 <= i < fetched@.len() ==> #[trigger] final(self).partitions@[i] == with_watermarks(
                    old(self).partitions@[i],
                    fetched@[i],
                ),
    {
        let n = self.partitions.len();
        let mut i: usize = 0;
        while i < n
            invariant
                n == fetched@.len(),
                n == self.partitions@.len(),
                i <= n,
                self.name == old(self).name,
                forall|j: int| 0 <= j < i ==> #[trigger] self.partitions@[j] == with_watermarks(
                    old(self).partitions@[j],
                    fetched@[j],
                ),
                forall|j: int| i <= j < n ==> #[trigger] self.partitions@[j] == old(self).partitions@[j],
            decreases n - i,
        {
            match fetched[i] {
                Some((b, e)) => {
                    self.partitions[i].set_watermarks(b, e);
                },
                None => {},
            }
            i = i + 1;
        }
    }
}

/// What the emitter's loop has just learned.
#[derive(Debug, Clone, Copy, PartialEq, Eq, Structural)]
pub enum EmitterEvent {
    /// The interval between two fetches has elapsed.
    Ticked,
    /// Cluster metadata, with watermarks, was fetched.
    MetadataFetched,
    /// Fetching cluster metadata failed.
    MetadataFailed,
    /// The status was handed to the channel, or the send timed out.
    SendSettled,
    /// Shutdown was requested.
    ShutdownRequested,
}

/// What the emitter's loop does next.
#[derive(Debug, Clone, Copy, PartialEq, Eq, Structural)]
pub enum EmitterAction {
    /// Fetch the cluster's metadata and watermarks.
    FetchMetadata,
    /// Send the fetched status, racing it against a shutdown request.
    Emit,
    /// Wait for the next interval tick.
    AwaitTick,
    /// End the loop, which closes the status channel.
    Stop,
}

/// The emitter's decision after `event`: a failed fetch or a settled send
/// waits for the next tick (failures are retried on the next cycle, without
/// backoff); only a shutdown request ends the loop.
pub fn next_emitter_action(event: EmitterEvent) -> (r: EmitterAction)
    ensures
        r == match event {
            EmitterEvent::Ticked => EmitterAction::FetchMetadata,
            EmitterEvent::MetadataFetched => EmitterAction::Emit,
            EmitterEvent::MetadataFailed => EmitterAction::AwaitTick,
            EmitterEvent::SendSettled => EmitterAction::AwaitTick,
            EmitterEvent::ShutdownRequested => EmitterAction::Stop,
        },
{
    match event {
        EmitterEvent::Ticked => EmitterAction::FetchMetadata,
        EmitterEvent::MetadataFetched => EmitterAction::Emit,
        EmitterEvent::MetadataFailed => EmitterAction::AwaitTick,
        EmitterEvent::SendSettled => EmitterAction::AwaitTick,
        EmitterEvent::ShutdownRequested => EmitterAction::Stop,
    }
}

} // verus!
