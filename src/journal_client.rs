use vstd::prelude::*;

use crate::journal_cache::{shard_key, CacheManager, JournalSegment};

verus! {

/// The errors a write of the journal client can end with.
#[derive(Debug)]
pub enum JournalClientError {
    /// The segment written to is no longer the shard's active segment on that
    /// node; the shard's metadata is stale.
    NotActiveSegmentLeader(String),
    /// Any other failure.
    Other(String),
}

/// What the client's send loop does next.
pub enum SendStep<'a> {
    /// No active segment is known: reload the shard's metadata, wait 100 ms and
    /// look again.
    ReloadShard,
    /// Write to this segment.
    Write(&'a JournalSegment),
}

/// What follows a write.
#[derive(Clone, Copy, Debug, PartialEq, Eq, Structural)]
pub enum SendAfter {
    /// The write succeeded: return its response.
    Done,
    /// The segment was stale: wait 100 ms and start again.
    RetryAfterSleep,
    /// Return the error.
    Fail,
}

/// Picks the segment a message of a shard is written to: the shard's active
/// segment, if the cache knows one.
pub fn send_step<'a>(cache: &'a CacheManager, namespace: &String, shard_name: &String) -> (r:
    SendStep<'a>)
    requires
        cache.wf(),
    ensures
        r is ReloadShard <==> cache.active_segment_of(shard_key(namespace@, shard_name@)).is_none(),
        r matches SendStep::Write(seg) ==> *seg == cache.active_segment_of(
            shard_key(namespace@, shard_name@),
        ).unwrap(),
{
    match cache.get_active_segment(namespace, shard_name) {
        Some(seg) => SendStep::Write(seg),
        None => SendStep::ReloadShard,
    }
}

/// Decides what follows a write: a stale segment is retried, any other error
/// is returned.
pub fn after_send(result: &Result<(), JournalClientError>) -> (r: SendAfter)
    ensures
        r == match result {
            Ok(_) => SendAfter::Done,
            Err(JournalClientError::NotActiveSegmentLeader(_)) => SendAfter::RetryAfterSleep,
            Err(JournalClientError::Other(_)) => SendAfter::Fail,
        },
{
    match result {
        Ok(_) => SendAfter::Done,
        Err(JournalClientError::NotActiveSegmentLeader(_)) => SendAfter::RetryAfterSleep,
        Err(JournalClientError::Other(_)) => SendAfter::Fail,
    }
}

} // verus!
