use vstd::prelude::*;

use dashmap::DashMap;

use crate::journal_cache::{BrokerNode, JournalShard, ShardKey};
use crate::placement_cache::{ClusterInfo, HeartbeatKey, NodeHeartbeatData, RaftNode};
use crate::routing::LeaderKey;
use crate::subscribe::Subscriber;

verus! {

#[verifier::external_type_specification]
#[verifier::external_body]
#[verifier::reject_recursive_types(K)]
#[verifier::reject_recursive_types(V)]
#[verifier::reject_recursive_types(S)]
pub struct ExDashMap<K, V, S>(DashMap<K, V, S>);

/// What a table of broker nodes holds, by node id.
pub uninterp spec fn node_entries(m: DashMap<u64, BrokerNode>) -> Map<u64, BrokerNode>;

/// What a table of shards holds, by namespace and shard name.
pub uninterp spec fn shard_entries(m: DashMap<ShardKey, JournalShard>) -> Map<
    (Seq<char>, Seq<char>),
    JournalShard,
>;

/// What a table of clusters holds, by cluster name.
pub uninterp spec fn cluster_entries(m: DashMap<String, ClusterInfo>) -> Map<Seq<char>, ClusterInfo>;

/// Relies on dashmap's DashMap::new: a map with no entries.
#[verifier::external_body]
pub(crate) fn node_table_new() -> (r: DashMap<u64, BrokerNode>)
    ensures
        node_entries(r) =~= Map::empty(),
{
    DashMap::new()
}

/// Relies on DashMap::insert: afterwards `k` maps to `v`, the other entries stay.
#[verifier::external_body]
pub(crate) fn node_table_insert(m: &mut DashMap<u64, BrokerNode>, k: u64, v: BrokerNode)
    ensures
        node_entries(*final(m)) == node_entries(*old(m)).insert(k, v),
{
    m.insert(k, v);
}

/// Relies on DashMap::remove: afterwards `k` has no entry, the other entries stay.
#[verifier::external_body]
pub(crate) fn node_table_remove(m: &mut DashMap<u64, BrokerNode>, k: u64)
    ensures
        node_entries(*final(m)) == node_entries(*old(m)).remove(k),
{
    m.remove(&k);
}

/// Relies on DashMap::view: the closure sees the entry of `k`, if there is one.
#[verifier::external_body]
pub(crate) fn node_table_get(m: &DashMap<u64, BrokerNode>, k: u64) -> (r: Option<BrokerNode>)
    ensures
        r.is_some() == node_entries(*m).contains_key(k),
        r.is_some() ==> r.unwrap() == node_entries(*m)[k],
{
    m.view(&k, |_, v| v.duplicate())
}

/// Relies on dashmap's DashMap::new: a map with no entries.
#[verifier::external_body]
pub(crate) fn shard_table_new() -> (r: DashMap<ShardKey, JournalShard>)
    ensures
        shard_entries(r) =~= Map::empty(),
{
    DashMap::new()
}

/// Relies on DashMap::insert: afterwards `k` maps to `v`, the other entries stay.
#[verifier::external_body]
pub(crate) fn shard_table_insert(m: &mut DashMap<ShardKey, JournalShard>, k: ShardKey, v: JournalShard)
    ensures
        shard_entries(*final(m)) == shard_entries(*old(m)).insert(k@, v),
{
    m.insert(k, v);
}

/// Relies on DashMap::remove: afterwards `k` has no entry, the other entries stay.
#[verifier::external_body]
pub(crate) fn shard_table_remove(m: &mut DashMap<ShardKey, JournalShard>, k: &ShardKey)
    ensures
        shard_entries(*final(m)) == shard_entries(*old(m)).remove(k@),
{
    m.remove(k);
}

/// Relies on DashMap::view: the closure sees the entry of `k`, if there is one.
#[verifier::external_body]
pub(crate) fn shard_table_get(m: &DashMap<ShardKey, JournalShard>, k: &ShardKey) -> (r: Option<JournalShard>)
    ensures
        r.is_some() == shard_entries(*m).contains_key(k@),
        r.is_some() ==> r.unwrap() == shard_entries(*m)[k@],
{
    m.view(k, |_, v| v.duplicate())
}

/// Relies on DashMap::contains_key: whether `k` has an entry.
#[verifier::external_body]
pub(crate) fn shard_table_contains(m: &DashMap<ShardKey, JournalShard>, k: &ShardKey) -> (r: bool)
    ensures
        r == shard_entries(*m).contains_key(k@),
{
    m.contains_key(k)
}

/// Relies on dashmap's DashMap::new: a map with no entries.
#[verifier::external_body]
pub(crate) fn cluster_table_new() -> (r: DashMap<String, ClusterInfo>)
    ensures
        cluster_entries(r) =~= Map::empty(),
{
    DashMap::new()
}

/// Relies on DashMap::insert: afterwards `k` maps to `v`, the other entries stay.
#[verifier::external_body]
pub(crate) fn cluster_table_insert(m: &mut DashMap<String, ClusterInfo>, k: String, v: ClusterInfo)
    ensures
        cluster_entries(*final(m)) == cluster_entries(*old(m)).insert(k@, v),
{
    m.insert(k, v);
}

/// What a table of heartbeats holds, by cluster name and node id.
pub uninterp spec fn heartbeat_entries(m: DashMap<HeartbeatKey, NodeHeartbeatData>) -> Map<
    (Seq<char>, u64),
    NodeHeartbeatData,
>;

/// Relies on dashmap's DashMap::new: a map with no entries.
#[verifier::external_body]
pub(crate) fn heartbeat_table_new() -> (r: DashMap<HeartbeatKey, NodeHeartbeatData>)
    ensures
        heartbeat_entries(r) =~= Map::empty(),
{
    DashMap::new()
}

/// Relies on DashMap::insert: afterwards `k` maps to `v`, the other entries stay.
#[verifier::external_body]
pub(crate) fn heartbeat_table_insert(
    m: &mut DashMap<HeartbeatKey, NodeHeartbeatData>,
    k: HeartbeatKey,
    v: NodeHeartbeatData,
)
    ensures
        heartbeat_entries(*final(m)) == heartbeat_entries(*old(m)).insert(k@, v),
{
    m.insert(k, v);
}

/// Relies on DashMap::remove: afterwards `k` has no entry, the other entries stay.
#[verifier::external_body]
pub(crate) fn heartbeat_table_remove(m: &mut DashMap<HeartbeatKey, NodeHeartbeatData>, k: &HeartbeatKey)
    ensures
        heartbeat_entries(*final(m)) == heartbeat_entries(*old(m)).remove(k@),
{
    m.remove(k);
}

/// Relies on DashMap::view: the closure sees the entry of `k`, if there is one.
#[verifier::external_body]
pub(crate) fn heartbeat_table_get(m: &DashMap<HeartbeatKey, NodeHeartbeatData>, k: &HeartbeatKey) -> (r:
    Option<NodeHeartbeatData>)
    ensures
        r.is_some() == heartbeat_entries(*m).contains_key(k@),
        r.is_some() ==> r.unwrap() == heartbeat_entries(*m)[k@],
{
    m.view(k, |_, v| v.duplicate())
}

/// Relies on DashMap::iter: it yields every entry once. The order depends on
/// hashing, so nothing is said of it.
#[verifier::external_body]
pub(crate) fn heartbeat_table_keys(m: &DashMap<HeartbeatKey, NodeHeartbeatData>) -> (r: Vec<
    HeartbeatKey,
>)
    ensures
        forall|i: int, j: int| 0 <= i < j < r@.len() ==> #[trigger] r@[i]@ != #[trigger] r@[j]@,
        forall|i: int| 0 <= i < r@.len() ==> heartbeat_entries(*m).contains_key(#[trigger] r@[i]@),
        forall|k: (Seq<char>, u64)| #[trigger]
            heartbeat_entries(*m).contains_key(k) ==> exists|i: int| 0 <= i < r@.len() && r@[i]@ == k,
{
    let mut out = Vec::new();
    for entry in m.iter() {
        out.push(entry.key().clone());
    }
    out
}

/// What a table of exclusive subscriptions holds, by exclusive key.
pub uninterp spec fn subscriber_entries(m: DashMap<String, Subscriber>) -> Map<Seq<char>, Subscriber>;

/// Relies on dashmap's DashMap::new: a map with no entries.
#[verifier::external_body]
pub(crate) fn subscriber_table_new() -> (r: DashMap<String, Subscriber>)
    ensures
        subscriber_entries(r) =~= Map::empty(),
{
    DashMap::new()
}

/// Relies on DashMap::insert: afterwards `k` maps to `v`, the other entries stay.
#[verifier::external_body]
pub(crate) fn subscriber_table_insert(m: &mut DashMap<String, Subscriber>, k: String, v: Subscriber)
    ensures
        subscriber_entries(*final(m)) == subscriber_entries(*old(m)).insert(k@, v),
{
    m.insert(k, v);
}

/// Relies on DashMap::remove: afterwards `k` has no entry, the other entries stay.
#[verifier::external_body]
pub(crate) fn subscriber_table_remove(m: &mut DashMap<String, Subscriber>, k: &String)
    ensures
        subscriber_entries(*final(m)) == subscriber_entries(*old(m)).remove(k@),
{
    m.remove(k);
}

/// Relies on DashMap::view: the closure sees the entry of `k`, if there is one.
#[verifier::external_body]
pub(crate) fn subscriber_table_get(m: &DashMap<String, Subscriber>, k: &String) -> (r: Option<Subscriber>)
    ensures
        r.is_some() == subscriber_entries(*m).contains_key(k@),
        r.is_some() ==> r.unwrap() == subscriber_entries(*m)[k@],
{
    m.view(k, |_, v| v.duplicate())
}

/// Relies on DashMap::contains_key: whether `k` has an entry.
#[verifier::external_body]
pub(crate) fn subscriber_table_contains(m: &DashMap<String, Subscriber>, k: &String) -> (r: bool)
    ensures
        r == subscriber_entries(*m).contains_key(k@),
{
    m.contains_key(k)
}

/// Relies on DashMap::iter: it yields every entry once. The order depends on
/// hashing, so nothing is said of it.
#[verifier::external_body]
pub(crate) fn subscriber_table_keys(m: &DashMap<String, Subscriber>) -> (r: Vec<String>)
    ensures
        forall|i: int, j: int| 0 <= i < j < r@.len() ==> #[trigger] r@[i]@ != #[trigger] r@[j]@,
        forall|i: int| 0 <= i < r@.len() ==> subscriber_entries(*m).contains_key(#[trigger] r@[i]@),
        forall|k: Seq<char>| #[trigger]
            subscriber_entries(*m).contains_key(k) ==> exists|i: int| 0 <= i < r@.len() && r@[i]@ == k,
{
    let mut out = Vec::new();
    for entry in m.iter() {
        out.push(entry.key().clone());
    }
    out
}

/// What a table of topic names holds, by topic id.
pub uninterp spec fn topic_entries(m: DashMap<String, String>) -> Map<Seq<char>, String>;

/// Relies on dashmap's DashMap::new: a map with no entries.
#[verifier::external_body]
pub(crate) fn topic_table_new() -> (r: DashMap<String, String>)
    ensures
        topic_entries(r) =~= Map::empty(),
{
    DashMap::new()
}

/// Relies on DashMap::insert: afterwards `k` maps to `v`, the other entries stay.
#[verifier::external_body]
pub(crate) fn topic_table_insert(m: &mut DashMap<String, String>, k: String, v: String)
    ensures
        topic_entries(*final(m)) == topic_entries(*old(m)).insert(k@, v),
{
    m.insert(k, v);
}

/// Relies on DashMap::view: the closure sees the entry of `k`, if there is one.
#[verifier::external_body]
pub(crate) fn topic_table_get(m: &DashMap<String, String>, k: &String) -> (r: Option<String>)
    ensures
        r.is_some() == topic_entries(*m).contains_key(k@),
        r.is_some() ==> r.unwrap() == topic_entries(*m)[k@],
{
    m.view(k, |_, v| copy_string(v))
}

/// Relies on DashMap::iter: it yields every entry once. The order depends on
/// hashing, so nothing is said of it.
#[verifier::external_body]
pub(crate) fn topic_table_keys(m: &DashMap<String, String>) -> (r: Vec<String>)
    ensures
        forall|i: int, j: int| 0 <= i < j < r@.len() ==> #[trigger] r@[i]@ != #[trigger] r@[j]@,
        forall|i: int| 0 <= i < r@.len() ==> topic_entries(*m).contains_key(#[trigger] r@[i]@),
        forall|k: Seq<char>| #[trigger]
            topic_entries(*m).contains_key(k) ==> exists|i: int| 0 <= i < r@.len() && r@[i]@ == k,
{
    let mut out = Vec::new();
    for entry in m.iter() {
        out.push(entry.key().clone());
    }
    out
}

pub fn copy_string(s: &String) -> (r: String)
    ensures
        r == *s,
{
    s.clone()
}

/// What a table of broker nodes holds, by cluster name and node id.
pub uninterp spec fn broker_entries(m: DashMap<(String, u64), BrokerNode>) -> Map<(Seq<char>, u64), BrokerNode>;

/// Relies on dashmap's DashMap::new: a map with no entries.
#[verifier::external_body]
pub(crate) fn broker_table_new() -> (r: DashMap<(String, u64), BrokerNode>)
    ensures
        broker_entries(r) =~= Map::empty(),
{
    DashMap::new()
}

/// Relies on DashMap::insert: afterwards `k` maps to `v`, the other entries stay.
#[verifier::external_body]
pub(crate) fn broker_table_insert(m: &mut DashMap<(String, u64), BrokerNode>, k: (String, u64), v: BrokerNode)
    ensures
        broker_entries(*final(m)) == broker_entries(*old(m)).insert(k@, v),
{
    m.insert(k, v);
}

/// Relies on DashMap::remove: it hands back the removed entry's value; the
/// other entries stay.
#[verifier::external_body]
pub(crate) fn broker_table_remove(m: &mut DashMap<(String, u64), BrokerNode>, k: &(String, u64)) -> (r: Option<BrokerNode>)
    ensures
        broker_entries(*final(m)) == broker_entries(*old(m)).remove(k@),
        r.is_some() == broker_entries(*old(m)).contains_key(k@),
        r.is_some() ==> r.unwrap() == broker_entries(*old(m))[k@],
{
    m.remove(k).map(|(_, v)| v)
}

/// Relies on DashMap::view: the closure sees the entry of `k`, if there is one.
#[verifier::external_body]
pub(crate) fn broker_table_get(m: &DashMap<(String, u64), BrokerNode>, k: &(String, u64)) -> (r: Option<BrokerNode>)
    ensures
        r.is_some() == broker_entries(*m).contains_key(k@),
        r.is_some() ==> r.unwrap() == broker_entries(*m)[k@],
{
    m.view(k, |_, v| v.duplicate())
}

/// Relies on DashMap::iter: it yields every entry once. The order depends on
/// hashing, so nothing is said of it.
#[verifier::external_body]
pub(crate) fn broker_table_keys(m: &DashMap<(String, u64), BrokerNode>) -> (r: Vec<(String, u64)>)
    ensures
        forall|i: int, j: int| 0 <= i < j < r@.len() ==> #[trigger] r@[i]@ != #[trigger] r@[j]@,
        forall|i: int| 0 <= i < r@.len() ==> broker_entries(*m).contains_key(#[trigger] r@[i]@),
        forall|k: (Seq<char>, u64)| #[trigger]
            broker_entries(*m).contains_key(k) ==> exists|i: int| 0 <= i < r@.len() && r@[i]@ == k,
{
    let mut out = Vec::new();
    for entry in m.iter() {
        out.push(entry.key().clone());
    }
    out
}

/// What a table of Raft voters holds, by node id.
pub uninterp spec fn vote_entries(m: DashMap<u64, RaftNode>) -> Map<u64, RaftNode>;

/// Relies on dashmap's DashMap::new: a map with no entries.
#[verifier::external_body]
pub(crate) fn vote_table_new() -> (r: DashMap<u64, RaftNode>)
    ensures
        vote_entries(r) =~= Map::empty(),
{
    DashMap::new()
}

/// Relies on DashMap::insert: afterwards `k` maps to `v`, the other entries stay.
#[verifier::external_body]
pub(crate) fn vote_table_insert(m: &mut DashMap<u64, RaftNode>, k: u64, v: RaftNode)
    ensures
        vote_entries(*final(m)) == vote_entries(*old(m)).insert(k, v),
{
    m.insert(k, v);
}

/// Relies on DashMap::remove: afterwards `k` has no entry, the other entries stay.
#[verifier::external_body]
pub(crate) fn vote_table_remove(m: &mut DashMap<u64, RaftNode>, k: u64)
    ensures
        vote_entries(*final(m)) == vote_entries(*old(m)).remove(k),
{
    m.remove(&k);
}

/// Relies on DashMap::view: the closure sees the entry of `k`, if there is one.
#[verifier::external_body]
pub(crate) fn vote_table_get(m: &DashMap<u64, RaftNode>, k: u64) -> (r: Option<RaftNode>)
    ensures
        r.is_some() == vote_entries(*m).contains_key(k),
        r.is_some() ==> r.unwrap() == vote_entries(*m)[k],
{
    m.view(&k, |_, v| v.duplicate())
}

/// Relies on DashMap::iter: it yields every entry once. The order depends on
/// hashing, so nothing is said of it.
#[verifier::external_body]
pub(crate) fn vote_table_keys(m: &DashMap<u64, RaftNode>) -> (r: Vec<u64>)
    ensures
        r@.no_duplicates(),
        forall|i: int| 0 <= i < r@.len() ==> vote_entries(*m).contains_key(#[trigger] r@[i]),
        forall|k: u64| #[trigger] vote_entries(*m).contains_key(k) ==> r@.contains(k),
{
    let mut out = Vec::new();
    for entry in m.iter() {
        out.push(*entry.key());
    }
    out
}

/// What an ack-wait table holds, by client id and packet id.
pub uninterp spec fn wait_entries(m: DashMap<(String, u16), u64>) -> Map<(Seq<char>, u16), u64>;

/// Relies on dashmap's DashMap::new: a map with no entries.
#[verifier::external_body]
pub(crate) fn wait_table_new() -> (r: DashMap<(String, u16), u64>)
    ensures
        wait_entries(r) =~= Map::empty(),
{
    DashMap::new()
}

/// Relies on DashMap::insert: afterwards `k` maps to `v`, the other entries stay.
#[verifier::external_body]
pub(crate) fn wait_table_insert(m: &mut DashMap<(String, u16), u64>, k: (String, u16), v: u64)
    ensures
        wait_entries(*final(m)) == wait_entries(*old(m)).insert(k@, v),
{
    m.insert(k, v);
}

/// Relies on DashMap::remove: afterwards `k` has no entry, the other entries stay.
#[verifier::external_body]
pub(crate) fn wait_table_remove(m: &mut DashMap<(String, u16), u64>, k: &(String, u16))
    ensures
        wait_entries(*final(m)) == wait_entries(*old(m)).remove(k@),
{
    m.remove(k);
}

/// Relies on DashMap::contains_key: whether `k` has an entry.
#[verifier::external_body]
pub(crate) fn wait_table_contains(m: &DashMap<(String, u16), u64>, k: &(String, u16)) -> (r: bool)
    ensures
        r == wait_entries(*m).contains_key(k@),
{
    m.contains_key(k)
}

/// Relies on DashMap::iter: it yields every entry once. The order depends on
/// hashing, so nothing is said of it.
#[verifier::external_body]
pub(crate) fn wait_table_keys(m: &DashMap<(String, u16), u64>) -> (r: Vec<(String, u16)>)
    ensures
        forall|i: int| 0 <= i < r@.len() ==> wait_entries(*m).contains_key(#[trigger] r@[i]@),
        forall|k: (Seq<char>, u16)| #[trigger]
            wait_entries(*m).contains_key(k) ==> exists|i: int| 0 <= i < r@.len() && r@[i]@ == k,
{
    let mut out = Vec::new();
    for entry in m.iter() {
        out.push(entry.key().clone());
    }
    out
}

/// What a leader cache holds, by service, interface and address.
pub uninterp spec fn leader_entries(m: DashMap<LeaderKey, String>) -> Map<
    ((crate::routing::PlacementCenterService, crate::routing::PlacementCenterInterface), Seq<char>),
    String,
>;

/// Relies on dashmap's DashMap::new: a map with no entries.
#[verifier::external_body]
pub(crate) fn leader_table_new() -> (r: DashMap<LeaderKey, String>)
    ensures
        leader_entries(r) =~= Map::empty(),
{
    DashMap::new()
}

/// Relies on DashMap::insert: afterwards `k` maps to `v`, the other entries stay.
#[verifier::external_body]
pub(crate) fn leader_table_insert(m: &mut DashMap<LeaderKey, String>, k: LeaderKey, v: String)
    ensures
        leader_entries(*final(m)) == leader_entries(*old(m)).insert(k@, v),
{
    m.insert(k, v);
}

/// Relies on DashMap::view: the closure sees the entry of `k`, if there is one.
#[verifier::external_body]
pub(crate) fn leader_table_get(m: &DashMap<LeaderKey, String>, k: &LeaderKey) -> (r: Option<String>)
    ensures
        r.is_some() == leader_entries(*m).contains_key(k@),
        r.is_some() ==> r.unwrap() == leader_entries(*m)[k@],
{
    m.view(k, |_, v| copy_string(v))
}

} // verus!
