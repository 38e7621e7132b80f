//! Data models of streams, their entries and their subscriptions, as the storage engine keeps
//! them.

use std::collections::BTreeSet;
use vstd::prelude::*;

verus! {

/// The type variants of a stream.
#[derive(Clone, Copy, Debug, PartialEq, Eq, Structural)]
pub enum StreamType {
    /// A standard durable stream.
    Standard,
}

/// The visibility variants of a stream.
#[derive(Clone, Debug)]
pub enum StreamVisibility {
    /// The stream is visible at the namespace scope.
    Namespace,
    /// The stream is only accessible as part of the named pipeline.
    Private(String),
}

/// An append-only, immutable log of data.
#[derive(Clone, Debug)]
pub struct Stream {
    /// The namespace which this object belongs to.
    pub namespace: String,
    /// The name of this object.
    pub name: String,
    /// This stream's type.
    pub stream_type: StreamType,
    /// The visibility of this stream.
    pub visibility: StreamVisibility,
}

/// An entry of data written to a stream.
#[derive(Clone, Debug)]
pub struct StreamEntry {
    /// The index of the stream entry.
    pub index: u64,
    /// The data payload of the entry.
    pub data: Vec<u8>,
}

/// A consumer group's progress through consuming a target stream.
///
/// Names are unique per stream: multiple subscription requests naming the same stream and name
/// make the requestors members of one consumer group. IDs are assigned by the cluster.
#[derive(Debug)]
pub struct StreamSubscription {
    /// The ID of this consumer group.
    pub id: u64,
    /// The namespace which this object belongs to.
    pub namespace: String,
    /// The name of the stream which this consumer group applies to.
    pub stream: String,
    /// The name of this consumer group.
    pub name: String,
    /// Maximum number of messages which may be processed in parallel by this consumer group.
    pub max_in_flight: u8,
    /// Messages are redelivered if not acked within this number of seconds.
    pub redelivery_timout: u64,
    /// The starting position of this consumer group when first created.
    pub start_position: StartPosition,
}

/// A subscription's starting position in its target stream when it is first created.
#[derive(Clone, Copy, Debug, PartialEq, Eq, Structural)]
pub enum StartPosition {
    /// The beginning of the stream.
    Beginning,
    /// The most recent message on the stream.
    Latest,
    /// The given offset.
    Offset(u64),
}

/// The offset details of a subscription.
#[derive(Debug)]
pub struct SubscriptionOffset {
    /// The ID of the associated consumer group.
    pub id: u64,
    /// The next unprocessed index to be processed by this consumer: one past the uppermost index
    /// processed so far.
    pub next: u64,
    /// The indices below `next` which still need to be processed.
    pub outstanding: BTreeSet<u64>,
}

/// An update from the storage engine.
#[derive(Clone, Debug)]
pub enum StorageUpdate {
    /// An update which is sent only when the storage engine initializes.
    Initial { consumers: Vec<()> },
}

} // verus!
