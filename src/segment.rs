use vstd::prelude::*;

use crate::keyed::KeyMap;
use crate::text::push_char;

verus! {

/// The lifecycle of a segment: Idle, then Write, then PrepareSealUp, then SealUp.
#[derive(Clone, Copy, Debug, PartialEq, Eq, Structural)]
pub enum SegmentStatus {
    Idle,
    Write,
    PrepareSealUp,
    SealUp,
}

/// The position of a status along the lifecycle.
pub open spec fn status_index(s: SegmentStatus) -> int {
    match s {
        SegmentStatus::Idle => 0,
        SegmentStatus::Write => 1,
        SegmentStatus::PrepareSealUp => 2,
        SegmentStatus::SealUp => 3,
    }
}

impl SegmentStatus {
    pub fn index(&self) -> (r: u8)
        ensures
            r as int == status_index(*self),
    {
        match self {
            SegmentStatus::Idle => 0,
            SegmentStatus::Write => 1,
            SegmentStatus::PrepareSealUp => 2,
            SegmentStatus::SealUp => 3,
        }
    }

    /// A status may only move forward along the lifecycle (or stay).
    pub fn can_transition_to(&self, next: SegmentStatus) -> (r: bool)
        ensures
            r == (status_index(*self) <= status_index(next)),
    {
        self.index() <= next.index()
    }
}

pub struct Replica {
    pub replica_seq: u64,
    pub node_id: u64,
    pub fold: String,
}

/// A segment as the placement center stores it.
pub struct SegmentInfo {
    pub cluster_name: String,
    pub shard_name: String,
    pub segment_seq: u64,
    pub replicas: Vec<Replica>,
    pub replica_leader: u32,
    pub status: SegmentStatus,
}

impl SegmentInfo {
    /// Moves the segment to `next` when that does not go back along the
    /// lifecycle; tells whether it moved.
    pub fn transition(&mut self, next: SegmentStatus) -> (r: bool)
        ensures
            r == (status_index(old(self).status) <= status_index(next)),
            final(self).status == next_status(old(self).status, next),
            status_index(old(self).status) <= status_index(final(self).status),
            final(self).cluster_name == old(self).cluster_name,
            final(self).shard_name == old(self).shard_name,
            final(self).segment_seq == old(self).segment_seq,
            final(self).replicas == old(self).replicas,
            final(self).replica_leader == old(self).replica_leader,
    {
        if self.status.can_transition_to(next) {
            self.status = next;
            true
        } else {
            false
        }
    }
}

pub type SegmentKey = ((String, String), u64);

pub open spec fn segment_key(
    cluster_name: Seq<char>,
    shard_name: Seq<char>,
    segment_seq: u64,
) -> ((Seq<char>, Seq<char>), u64) {
    ((cluster_name, shard_name), segment_seq)
}

pub open spec fn digit_char(d: nat) -> char {
    ((d + 48) as u32) as char
}

/// The decimal digits of `n`, most significant first.
pub open spec fn decimal_digits(n: nat) -> Seq<char>
    decreases n,
{
    if n < 10 {
        seq![digit_char(n)]
    } else {
        decimal_digits(n / 10).push(digit_char(n % 10))
    }
}

fn digit(d: u64) -> (r: char)
    requires
        d < 10,
    ensures
        r == digit_char(d as nat),
{
    let b: u8 = (d as u8) + 48;
    b as char
}

pub fn decimal(n: u64) -> (r: String)
    ensures
        r@ == decimal_digits(n as nat),
    decreases n,
{
    if n < 10 {
        let mut s = String::new();
        push_char(&mut s, digit(n));
        assert(s@ =~= seq![digit_char(n as nat)]);
        s
    } else {
        let mut s = decimal(n / 10);
        push_char(&mut s, digit(n % 10));
        s
    }
}

/// The store key of a segment: `segment_{cluster}_{shard}_{seq}`.
pub open spec fn segment_store_key(cluster_name: Seq<char>, shard_name: Seq<char>, segment_seq: u64) -> Seq<char> {
    "segment_"@ + cluster_name + "_"@ + shard_name + "_"@ + decimal_digits(segment_seq as nat)
}

pub fn key_segment(cluster_name: &String, shard_name: &String, segment_seq: u64) -> (r: String)
    ensures
        r@ == segment_store_key(cluster_name@, shard_name@, segment_seq),
{
    let mut k = String::from_str("segment_");
    k.append(cluster_name.as_str());
    k.append("_");
    k.append(shard_name.as_str());
    k.append("_");
    let d = decimal(segment_seq);
    k.append(d.as_str());
    k
}

/// The placement center's store of segments, keyed by cluster, shard and sequence.
pub struct SegmentStorage {
    segments: KeyMap<SegmentKey, SegmentInfo>,
}

impl SegmentStorage {
    pub closed spec fn wf(&self) -> bool {
        self.segments.wf()
    }

    pub closed spec fn stored(&self) -> Map<((Seq<char>, Seq<char>), u64), SegmentInfo> {
        self.segments@
    }

    pub fn new() -> (r: SegmentStorage)
        ensures
            r.wf(),
            r.stored() == Map::<((Seq<char>, Seq<char>), u64), SegmentInfo>::empty(),
    {
        SegmentStorage { segments: KeyMap::new() }
    }

    /// Stores a segment. A segment already stored under its key keeps the later
    /// of its stored and its new status: a segment is never reopened.
    pub fn save_segment(&mut self, segment: SegmentInfo)
        requires
            old(self).wf(),
        ensures
            final(self).wf(),
            final(self).stored() == old(self).stored().insert(
                segment_key(segment.cluster_name@, segment.shard_name@, segment.segment_seq),
                saved_segment(old(self).stored(), segment),
            ),
    {
        let key: SegmentKey = (
            (segment.cluster_name.clone(), segment.shard_name.clone()),
            segment.segment_seq,
        );
        let ghost given = segment;
        let mut segment = segment;
        let held_status = match self.segments.get(&key) {
            Some(held) => Some(held.status),
            None => None,
        };
        if let Some(h) = held_status {
            if !h.can_transition_to(segment.status) {
                segment.status = h;
            }
        }
        assert(segment == saved_segment(old(self).stored(), given));
        self.segments.insert(key, segment);
    }

    pub fn get_segment(&self, cluster_name: &String, shard_name: &String, segment_seq: u64) -> (r:
        Option<&SegmentInfo>)
        requires
            self.wf(),
        ensures
            r.is_some() == self.stored().contains_key(
                segment_key(cluster_name@, shard_name@, segment_seq),
            ),
            r.is_some() ==> *r.unwrap() == self.stored()[segment_key(
                cluster_name@,
                shard_name@,
                segment_seq,
            )],
    {
        let key: SegmentKey = ((cluster_name.clone(), shard_name.clone()), segment_seq);
        self.segments.get(&key)
    }

    pub fn delete_segment(&mut self, cluster_name: &String, shard_name: &String, segment_seq: u64)
        requires
            old(self).wf(),
        ensures
            final(self).wf(),
            final(self).stored() == old(self).stored().remove(
                segment_key(cluster_name@, shard_name@, segment_seq),
            ),
    {
        let key: SegmentKey = ((cluster_name.clone(), shard_name.clone()), segment_seq);
        self.segments.remove(&key);
    }

    /// Moves a stored segment to `next`, never backwards along the lifecycle.
    /// Tells whether the segment exists and moved.
    pub fn update_segment_status(
        &mut self,
        cluster_name: &String,
        shard_name: &String,
        segment_seq: u64,
        next: SegmentStatus,
    ) -> (r: bool)
        requires
            old(self).wf(),
        ensures
            final(self).wf(),
            final(self).stored().dom() == old(self).stored().dom(),
            ({
                let k = segment_key(cluster_name@, shard_name@, segment_seq);
                &&& r == (old(self).stored().contains_key(k) && status_index(
                    old(self).stored()[k].status,
                ) <= status_index(next))
                &&& forall|k2| #[trigger]
                    old(self).stored().contains_key(k2) && k2 != k ==> final(self).stored()[k2]
                        == old(self).stored()[k2]
                &&& old(self).stored().contains_key(k) ==> {
                    &&& final(self).stored()[k].status == if r {
                        next
                    } else {
                        old(self).stored()[k].status
                    }
                    &&& status_index(old(self).stored()[k].status) <= status_index(
                        final(self).stored()[k].status,
                    )
                    &&& final(self).stored()[k].cluster_name == old(self).stored()[k].cluster_name
                    &&& final(self).stored()[k].shard_name == old(self).stored()[k].shard_name
                    &&& final(self).stored()[k].segment_seq == old(self).stored()[k].segment_seq
                    &&& final(self).stored()[k].replicas == old(self).stored()[k].replicas
                    &&& final(self).stored()[k].replica_leader == old(self).stored()[k].replica_leader
                }
            }),
    {
        let key: SegmentKey = ((cluster_name.clone(), shard_name.clone()), segment_seq);
        match self.segments.remove(&key) {
            Some(mut seg) => {
                let moved = seg.transition(next);
                self.segments.insert(key, seg);
                assert(self.stored().dom() =~= old(self).stored().dom());
                moved
            },
            None => {
                assert(self.stored() =~= old(self).stored());
                false
            },
        }
    }
}

/// The segment stored when `segment` is saved: as given, but where a segment
/// with its key is stored, with the later of the stored and the given status.
pub open spec fn saved_segment(
    stored: Map<((Seq<char>, Seq<char>), u64), SegmentInfo>,
    segment: SegmentInfo,
) -> SegmentInfo {
    let k = segment_key(segment.cluster_name@, segment.shard_name@, segment.segment_seq);
    SegmentInfo {
        status: if stored.contains_key(k) {
            next_status(stored[k].status, segment.status)
        } else {
            segment.status
        },
        ..segment
    }
}

/// Saving a segment never moves a stored segment's status back along the lifecycle.
pub proof fn lemma_save_keeps_order(
    stored: Map<((Seq<char>, Seq<char>), u64), SegmentInfo>,
    segment: SegmentInfo,
)
    ensures
        ({
            let k = segment_key(segment.cluster_name@, segment.shard_name@, segment.segment_seq);
            stored.contains_key(k) ==> status_index(stored[k].status) <= status_index(
                saved_segment(stored, segment).status,
            )
        }),
{
}

/// The status a segment has after `asked` is requested in status `cur`.
pub open spec fn next_status(cur: SegmentStatus, asked: SegmentStatus) -> SegmentStatus {
    if status_index(cur) <= status_index(asked) {
        asked
    } else {
        cur
    }
}

/// The statuses a segment goes through from `start` as `asks` are requested in turn.
pub open spec fn status_trace(start: SegmentStatus, asks: Seq<SegmentStatus>) -> Seq<SegmentStatus>
    decreases asks.len(),
{
    if asks.len() == 0 {
        seq![start]
    } else {
        let t = status_trace(start, asks.drop_last());
        t.push(next_status(t.last(), asks.last()))
    }
}

/// Whatever transitions are requested, the statuses a segment goes through
/// never go back along the lifecycle.
pub proof fn lemma_status_trace_monotonic(start: SegmentStatus, asks: Seq<SegmentStatus>)
    ensures
        status_trace(start, asks).len() == asks.len() + 1,
        forall|i: int, j: int|
            0 <= i <= j < status_trace(start, asks).len() ==> status_index(
                #[trigger] status_trace(start, asks)[i],
            ) <= status_index(#[trigger] status_trace(start, asks)[j]),
    decreases asks.len(),
{
    if asks.len() > 0 {
        lemma_status_trace_monotonic(start, asks.drop_last());
        let t = status_trace(start, asks.drop_last());
        let t2 = status_trace(start, asks);
        assert forall|i: int, j: int| 0 <= i <= j < t2.len() implies status_index(
            #[trigger] t2[i],
        ) <= status_index(#[trigger] t2[j]) by {
            if j == t2.len() - 1 {
                assert(t[i] == t2[i] || i == j);
                if i < j {
                    assert(status_index(t[i]) <= status_index(t[t.len() - 1]));
                }
            } else {
                assert(t2[i] == t[i] && t2[j] == t[j]);
            }
        }
    }
}

} // verus!
