//! The Stream Partition Controller (SPC): the keeper of one replica of a stream partition.
//!
//! The leader of a partition's control group takes the publications to the partition: it assigns
//! each record the next offset, writes the records under keys ordered by offset, and keeps the
//! next offset on disk beside them.

use vstd::prelude::*;
use vstd::string::StringExecFns;

use crate::codec::{be_bytes, be_value, bytes_lt, encode_u64, lemma_be_bytes_value, lemma_bytes_order_is_numeric_order};
use crate::error::{RpcStatus, StatusCode};

verus! {

/// The prefix of the keys of a partition's entries: the bytes of `entry/`.
pub open spec fn entry_prefix() -> Seq<u8> {
    seq![101u8, 110u8, 116u8, 114u8, 121u8, 47u8]
}

/// The key of the entry at an offset: the entry prefix, then the offset's big-endian bytes.
pub open spec fn entry_key(offset: u64) -> Seq<u8> {
    entry_prefix() + be_bytes(offset)
}

/// The key under which the next offset is kept: the bytes of `meta/next_offset`.
pub open spec fn next_offset_key() -> Seq<u8> {
    seq![109u8, 101u8, 116u8, 97u8, 47u8, 110u8, 101u8, 120u8, 116u8, 95u8, 111u8, 102u8, 102u8, 115u8, 101u8, 116u8]
}

/// The key under which the last term is kept: the bytes of `meta/term`.
pub open spec fn term_key() -> Seq<u8> {
    seq![109u8, 101u8, 116u8, 97u8, 47u8, 116u8, 101u8, 114u8, 109u8]
}

/// The key of the entry at an offset.
pub fn encode_entry_key(offset: u64) -> (k: Vec<u8>)
    ensures
        k@ == entry_key(offset),
{
    let mut k: Vec<u8> = vec![101u8, 110u8, 116u8, 114u8, 121u8, 47u8];
    let mut offset_bytes = encode_u64(offset);
    k.append(&mut offset_bytes);
    k
}

/// The key under which the next offset is kept.
pub fn encode_next_offset_key() -> (k: Vec<u8>)
    ensures
        k@ == next_offset_key(),
{
    let k: Vec<u8> = vec![109u8, 101u8, 116u8, 97u8, 47u8, 110u8, 101u8, 120u8, 116u8, 95u8, 111u8, 102u8, 102u8, 115u8, 101u8, 116u8];
    proof {
        assert(k@ =~= next_offset_key());
    }
    k
}

/// The key under which the last term is kept.
pub fn encode_term_key() -> (k: Vec<u8>)
    ensures
        k@ == term_key(),
{
    let k: Vec<u8> = vec![109u8, 101u8, 116u8, 97u8, 47u8, 116u8, 101u8, 114u8, 109u8];
    proof {
        assert(k@ =~= term_key());
    }
    k
}

/// Distinct offsets have distinct entry keys.
pub proof fn lemma_entry_keys_distinct(a: u64, b: u64)
    requires
        a != b,
    ensures
        entry_key(a) != entry_key(b),
{
    lemma_be_bytes_value(a);
    lemma_be_bytes_value(b);
    if entry_key(a) == entry_key(b) {
        assert(entry_key(a).skip(6) =~= be_bytes(a));
        assert(entry_key(b).skip(6) =~= be_bytes(b));
    }
}

/// Decode a number kept as its 8 big-endian bytes; other lengths hold no number.
pub fn decode_u64(bytes: &[u8]) -> (r: Option<u64>)
    ensures
        match r {
            Some(x) => bytes@.len() == 8 && be_value(bytes@) == x,
            None => bytes@.len() != 8,
        },
{
    if bytes.len() != 8 {
        return None;
    }
    let x = crate::codec::u64_from_be_bytes(bytes);
    proof {
        assert(bytes@.take(8) =~= bytes@);
    }
    Some(x)
}

/// A value kept under a key of the partition's metadata could not be decoded.
#[derive(Clone, Copy, Debug, PartialEq, Eq, Structural)]
pub enum RecoveryError {
    /// The next offset is not 8 bytes long.
    NextOffset,
    /// The last term is not 8 bytes long.
    Term,
}

/// Recover a partition's state from what its tree keeps: the next offset to assign and the last
/// term recorded, each 0 where nothing is kept.
pub fn recover_state(next_offset: Option<&[u8]>, term: Option<&[u8]>) -> (r: Result<(u64, u64), RecoveryError>)
    ensures
        match (next_offset, term) {
            (Some(n), _) if n@.len() != 8 => r == Err::<(u64, u64), RecoveryError>(RecoveryError::NextOffset),
            (_, Some(t)) if t@.len() != 8 => r == Err::<(u64, u64), RecoveryError>(RecoveryError::Term),
            _ => r matches Ok((n, t))
                && n == (match next_offset { Some(b) => be_value(b@), None => 0 })
                && t == (match term { Some(b) => be_value(b@), None => 0 }),
        },
{
    let n = match next_offset {
        Some(b) => match decode_u64(b) {
            Some(x) => x,
            None => return Err(RecoveryError::NextOffset),
        },
        None => 0,
    };
    let t = match term {
        Some(b) => match decode_u64(b) {
            Some(x) => x,
            None => return Err(RecoveryError::Term),
        },
        None => 0,
    };
    Ok((n, t))
}

/// A frame sent by a publisher to the partition leader.
#[derive(Clone, Copy, Debug, PartialEq, Eq, Structural)]
pub enum PubFrame {
    /// A connect frame: the publisher is already connected.
    Connect,
    /// A batch of records, of the given count.
    Payload { records: usize },
}

/// The records of a batch, each with the offset assigned to it and the key it is written under,
/// together with the write that keeps the next offset.
#[derive(Debug)]
pub struct PubWrite {
    /// The offset assigned to each record of the batch, in order.
    pub offsets: Vec<u64>,
    /// The key under which each record is written, in order.
    pub keys: Vec<Vec<u8>>,
    /// The key under which the next offset is kept.
    pub next_offset_key: Vec<u8>,
    /// The next offset, encoded for storage.
    pub next_offset_value: Vec<u8>,
    /// The offset that replication must commit: that of the last record of the batch.
    pub commit_offset: u64,
}

/// What the partition leader does with a frame from a publisher.
#[derive(Debug)]
pub enum PubDecision {
    /// Answer that the connection is ready, naming no other leader.
    ConnectReady,
    /// Answer with an error.
    Reject(RpcStatus),
    /// Write the batch, then replicate it.
    Store(PubWrite),
}

/// The state that the partition leader keeps.
pub struct SpcLeaderState {
    /// The next offset available for use for storing event records.
    pub next_offset: u64,
}

impl SpcLeaderState {
    /// Handle a frame from a publisher.
    ///
    /// A connect frame is answered as ready, the publisher being already connected; a missing
    /// frame and an empty batch are rejected. The records of a batch are assigned the next
    /// offsets in order, written under their entry keys, and the next offset is kept with them.
    pub fn handle_stream_pub_request(&mut self, frame: Option<PubFrame>) -> (d: PubDecision)
        requires
            frame matches Some(PubFrame::Payload { records }) ==> old(self).next_offset + records <= u64::MAX,
        ensures
            match frame {
                None => final(self).next_offset == old(self).next_offset
                    && (d matches PubDecision::Reject(s) && s.code == StatusCode::InvalidArgument
                    && s.message@ == "no request frame detected"@),
                Some(PubFrame::Connect) => final(self).next_offset == old(self).next_offset
                    && d is ConnectReady,
                Some(PubFrame::Payload { records }) => if records == 0 {
                    final(self).next_offset == old(self).next_offset
                    && (d matches PubDecision::Reject(s) && s.code == StatusCode::InvalidArgument
                    && s.message@ == "no event records found in given batch"@)
                } else {
                    &&& final(self).next_offset == old(self).next_offset + records
                    &&& d matches PubDecision::Store(w)
                    &&& w.offsets@.len() == records
                    &&& w.keys@.len() == records
                    &&& forall|i: int| 0 <= i < records ==> w.offsets@[i] == old(self).next_offset + i
                    &&& forall|i: int| 0 <= i < records ==> #[trigger] w.keys@[i]@ == entry_key(w.offsets@[i])
                    &&& w.next_offset_key@ == next_offset_key()
                    &&& w.next_offset_value@ == be_bytes(final(self).next_offset)
                    &&& w.commit_offset == final(self).next_offset - 1
                },
            },
    {
        let records = match frame {
            None => {
                return PubDecision::Reject(RpcStatus {
                    code: StatusCode::InvalidArgument,
                    message: String::from_str("no request frame detected"),
                });
            },
            Some(PubFrame::Connect) => {
                return PubDecision::ConnectReady;
            },
            Some(PubFrame::Payload { records }) => records,
        };
        if records == 0 {
            return PubDecision::Reject(RpcStatus {
                code: StatusCode::InvalidArgument,
                message: String::from_str("no event records found in given batch"),
            });
        }
        let ghost start = self.next_offset;
        let mut offsets: Vec<u64> = Vec::new();
        let mut keys: Vec<Vec<u8>> = Vec::new();
        let mut i: usize = 0;
        while i < records
            invariant
                i <= records,
                start + records <= u64::MAX,
                self.next_offset == start + i,
                offsets@.len() == i,
                keys@.len() == i,
                forall|j: int| 0 <= j < i ==> offsets@[j] == start + j,
                forall|j: int| 0 <= j < i ==> #[trigger] keys@[j]@ == entry_key(offsets@[j]),
            decreases records - i,
        {
            let offset = self.next_offset;
            offsets.push(offset);
            keys.push(encode_entry_key(offset));
            self.next_offset = self.next_offset + 1;
            i = i + 1;
        }
        let next_offset_value = encode_u64(self.next_offset);
        PubDecision::Store(PubWrite {
            offsets,
            keys,
            next_offset_key: encode_next_offset_key(),
            next_offset_value,
            commit_offset: self.next_offset - 1,
        })
    }
}

/// The answer of a replica which does not lead its partition to a publisher.
pub fn not_leader_status() -> (s: RpcStatus)
    ensures
        s.code == StatusCode::Unavailable,
        s.message@ == "stream controller is not partition leader"@,
{
    RpcStatus { code: StatusCode::Unavailable, message: String::from_str("stream controller is not partition leader") }
}

/// Two batches stored one after the other are assigned offsets that never meet: every offset of
/// the second exceeds every offset of the first, so no entry key is written twice.
pub proof fn lemma_batches_never_share_offsets(start: u64, first: nat, second: nat, i: int, j: int)
    requires
        0 <= i < first,
        0 <= j < second,
        start + first + second <= u64::MAX,
    ensures
        start + i < (start + first) + j,
        entry_key((start + i) as u64) != entry_key((start + first + j) as u64),
{
    lemma_entry_keys_distinct((start + i) as u64, (start + first + j) as u64);
}

proof fn lemma_bytes_lt_common_prefix(p: Seq<u8>, a: Seq<u8>, b: Seq<u8>)
    requires
        a.len() == b.len(),
    ensures
        bytes_lt(p + a, p + b) == bytes_lt(a, b),
    decreases a.len(),
{
    if a.len() == 0 {
        assert(p + a =~= p);
        assert(p + b =~= p);
        if p.len() > 0 {
            assert(bytes_lt(p, p) == bytes_lt(p.drop_last(), p.drop_last()) || p.last() < p.last());
        }
    } else {
        assert((p + a).drop_last() =~= p + a.drop_last());
        assert((p + b).drop_last() =~= p + b.drop_last());
        assert((p + a).last() == a.last());
        assert((p + b).last() == b.last());
        lemma_bytes_lt_common_prefix(p, a.drop_last(), b.drop_last());
        if a.drop_last() != b.drop_last() {
            assert(p + a.drop_last() != p + b.drop_last()) by {
                if p + a.drop_last() == p + b.drop_last() {
                    assert((p + a.drop_last()).skip(p.len() as int) =~= a.drop_last());
                    assert((p + b.drop_last()).skip(p.len() as int) =~= b.drop_last());
                }
            }
        }
    }
}

/// A partition's entries are kept in the order of their offsets: the key of a lower offset comes
/// first in the byte-wise order in which the partition's tree is walked.
pub proof fn lemma_entry_keys_follow_offsets(a: u64, b: u64)
    ensures
        bytes_lt(entry_key(a), entry_key(b)) <==> a < b,
{
    lemma_be_bytes_value(a);
    lemma_be_bytes_value(b);
    lemma_bytes_lt_common_prefix(entry_prefix(), be_bytes(a), be_bytes(b));
    lemma_bytes_order_is_numeric_order(be_bytes(a), be_bytes(b));
}

} // verus!
