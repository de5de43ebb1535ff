use vstd::prelude::*;

use dashmap::DashMap;

use crate::keyed::KeyMap;
use crate::segment::{next_status, status_index, SegmentStatus};
use crate::tables::{
    node_entries, node_table_get, node_table_insert, node_table_new, node_table_remove,
    shard_entries, shard_table_contains, shard_table_get, shard_table_insert, shard_table_new,
    shard_table_remove,
};

verus! {

/// A broker node registered in a cluster.
pub struct BrokerNode {
    pub cluster_name: String,
    pub node_id: u64,
    pub node_ip: String,
    pub node_inner_addr: String,
    pub extend: String,
    pub create_time: u64,
}

impl BrokerNode {
    pub fn duplicate(&self) -> (r: BrokerNode)
        ensures
            r == *self,
    {
        BrokerNode {
            cluster_name: self.cluster_name.clone(),
            node_id: self.node_id,
            node_ip: self.node_ip.clone(),
            node_inner_addr: self.node_inner_addr.clone(),
            extend: self.extend.clone(),
            create_time: self.create_time,
        }
    }
}

/// A journal shard.
pub struct JournalShard {
    pub namespace: String,
    pub shard_name: String,
    pub replica_num: u32,
    pub active_segment_seq: u32,
    pub last_segment_seq: u32,
    pub create_time: u64,
}

impl JournalShard {
    pub fn duplicate(&self) -> (r: JournalShard)
        ensures
            r == *self,
    {
        JournalShard {
            namespace: self.namespace.clone(),
            shard_name: self.shard_name.clone(),
            replica_num: self.replica_num,
            active_segment_seq: self.active_segment_seq,
            last_segment_seq: self.last_segment_seq,
            create_time: self.create_time,
        }
    }
}

/// A replica of a journal segment.
pub struct SegmentReplica {
    pub replica_seq: u64,
    pub node_id: u64,
}

/// A journal segment.
pub struct JournalSegment {
    pub namespace: String,
    pub shard_name: String,
    pub segment_seq: u32,
    pub replicas: Vec<SegmentReplica>,
    pub leader: u64,
    pub status: SegmentStatus,
}

impl JournalSegment {
    pub fn is_seal_up(&self) -> (r: bool)
        ensures
            r == (self.status == SegmentStatus::SealUp),
    {
        self.status == SegmentStatus::SealUp
    }
}

/// The cluster settings of the journal engine.
pub struct JournalEngineClusterConfig {}

#[derive(Clone, Copy, Debug, PartialEq, Eq, Structural)]
pub enum JournalUpdateCacheActionType {
    Add,
    Delete,
}

#[derive(Clone, Copy, Debug, PartialEq, Eq, Structural)]
pub enum JournalUpdateCacheResourceType {
    JournalNode,
    Shard,
    Segment,
}

/// A decoded entry of the cache-update feed.
pub enum CacheEntity {
    JournalNode(BrokerNode),
    Shard(JournalShard),
    Segment(JournalSegment),
}

pub type ShardKey = (String, String);

pub open spec fn shard_key(namespace: Seq<char>, shard_name: Seq<char>) -> (Seq<char>, Seq<char>) {
    (namespace, shard_name)
}

/// The journal engine's view of nodes, shards and segments.
pub struct CacheManager {
    cluster: Option<JournalEngineClusterConfig>,
    node_list: DashMap<u64, BrokerNode>,
    shards: DashMap<ShardKey, JournalShard>,
    segments: KeyMap<ShardKey, KeyMap<u32, JournalSegment>>,
}

impl CacheManager {
    pub closed spec fn wf(&self) -> bool {
        &&& self.segments.wf()
        &&& forall|k: (Seq<char>, Seq<char>)| #[trigger]
            self.segments@.contains_key(k) ==> self.segments@[k].wf()
        &&& segments_self_keyed(self.segment_map())
    }

    /// Every held segment sits under its own namespace, shard name and sequence.
    pub proof fn lemma_segments_self_keyed(&self)
        requires
            self.wf(),
        ensures
            segments_self_keyed(self.segment_map()),
    {
    }

    pub closed spec fn has_cluster(&self) -> bool {
        self.cluster.is_some()
    }

    pub closed spec fn nodes(&self) -> Map<u64, BrokerNode> {
        node_entries(self.node_list)
    }

    pub closed spec fn shard_map(&self) -> Map<(Seq<char>, Seq<char>), JournalShard> {
        shard_entries(self.shards)
    }

    pub closed spec fn segment_map(&self) -> Map<(Seq<char>, Seq<char>), Map<u32, JournalSegment>> {
        Map::new(|k| self.segments@.contains_key(k), |k| self.segments@[k]@)
    }

    /// The segment `seq` of a shard, when the cache holds it.
    pub open spec fn segment_of(
        &self,
        k: (Seq<char>, Seq<char>),
        seq: u32,
    ) -> Option<JournalSegment> {
        if self.segment_map().contains_key(k) && self.segment_map()[k].contains_key(seq) {
            Some(self.segment_map()[k][seq])
        } else {
            None
        }
    }

    /// The active segment of a shard: the segment its `active_segment_seq` names,
    /// unless that segment is sealed.
    pub open spec fn active_segment_of(&self, k: (Seq<char>, Seq<char>)) -> Option<JournalSegment> {
        if self.shard_map().contains_key(k) {
            match self.segment_of(k, self.shard_map()[k].active_segment_seq) {
                Some(seg) => if seg.status != SegmentStatus::SealUp {
                    Some(seg)
                } else {
                    None
                },
                None => None,
            }
        } else {
            None
        }
    }

    pub fn new() -> (r: CacheManager)
        ensures
            r.wf(),
            !r.has_cluster(),
            r.nodes() == Map::<u64, BrokerNode>::empty(),
            r.shard_map() == Map::<(Seq<char>, Seq<char>), JournalShard>::empty(),
            r.segment_map() == Map::<(Seq<char>, Seq<char>), Map<u32, JournalSegment>>::empty(),
    {
        let r = CacheManager {
            cluster: None,
            node_list: node_table_new(),
            shards: shard_table_new(),
            segments: KeyMap::new(),
        };
        assert(r.segment_map() =~= Map::empty());
        r
    }

    pub fn add_node(&mut self, node: BrokerNode)
        requires
            old(self).wf(),
        ensures
            final(self).wf(),
            final(self).has_cluster() == old(self).has_cluster(),
            final(self).nodes() == old(self).nodes().insert(node.node_id, node),
            final(self).shard_map() == old(self).shard_map(),
            final(self).segment_map() == old(self).segment_map(),
    {
        node_table_insert(&mut self.node_list, node.node_id, node);
    }

    fn remove_node(&mut self, node_id: u64)
        requires
            old(self).wf(),
        ensures
            final(self).wf(),
            final(self).has_cluster() == old(self).has_cluster(),
            final(self).nodes() == old(self).nodes().remove(node_id),
            final(self).shard_map() == old(self).shard_map(),
            final(self).segment_map() == old(self).segment_map(),
    {
        node_table_remove(&mut self.node_list, node_id);
    }

    pub fn get_node(&self, node_id: u64) -> (r: Option<BrokerNode>)
        ensures
            r.is_some() == self.nodes().contains_key(node_id),
            r.is_some() ==> r.unwrap() == self.nodes()[node_id],
    {
        node_table_get(&self.node_list, node_id)
    }

    pub fn init_cluster(&mut self)
        requires
            old(self).wf(),
        ensures
            final(self).wf(),
            final(self).has_cluster(),
            final(self).nodes() == old(self).nodes(),
            final(self).shard_map() == old(self).shard_map(),
            final(self).segment_map() == old(self).segment_map(),
    {
        self.cluster = Some(JournalEngineClusterConfig {  });
    }

    pub fn get_cluster(&self) -> (r: &JournalEngineClusterConfig)
        requires
            self.has_cluster(),
    {
        match &self.cluster {
            Some(c) => c,
            None => {
                assert(false);
                unreached()
            },
        }
    }

    pub fn add_shard(&mut self, shard: JournalShard)
        requires
            old(self).wf(),
        ensures
            final(self).wf(),
            final(self).has_cluster() == old(self).has_cluster(),
            final(self).nodes() == old(self).nodes(),
            final(self).shard_map() == old(self).shard_map().insert(
                shard_key(shard.namespace@, shard.shard_name@),
                shard,
            ),
            final(self).segment_map() == old(self).segment_map(),
    {
        let key: ShardKey = (shard.namespace.clone(), shard.shard_name.clone());
        shard_table_insert(&mut self.shards, key, shard);
    }

    pub fn get_shard(&self, namespace: &String, shard_name: &String) -> (r: Option<JournalShard>)
        ensures
            r.is_some() == self.shard_map().contains_key(shard_key(namespace@, shard_name@)),
            r.is_some() ==> r.unwrap() == self.shard_map()[shard_key(namespace@, shard_name@)],
    {
        let key: ShardKey = (namespace.clone(), shard_name.clone());
        shard_table_get(&self.shards, &key)
    }

    /// Removes a shard and all of its segments.
    pub fn delete_shard(&mut self, namespace: &String, shard_name: &String)
        requires
            old(self).wf(),
        ensures
            final(self).wf(),
            final(self).has_cluster() == old(self).has_cluster(),
            final(self).nodes() == old(self).nodes(),
            final(self).shard_map() == old(self).shard_map().remove(
                shard_key(namespace@, shard_name@),
            ),
            final(self).segment_map() == old(self).segment_map().remove(
                shard_key(namespace@, shard_name@),
            ),
    {
        let key: ShardKey = (namespace.clone(), shard_name.clone());
        shard_table_remove(&mut self.shards, &key);
        self.segments.remove(&key);
        assert(self.segment_map() =~= old(self).segment_map().remove(
            shard_key(namespace@, shard_name@),
        ));
    }

    pub fn shard_exists(&self, namespace: &String, shard_name: &String) -> (r: bool)
        requires
            self.wf(),
        ensures
            r == self.shard_map().contains_key(shard_key(namespace@, shard_name@)),
    {
        let key: ShardKey = (namespace.clone(), shard_name.clone());
        shard_table_contains(&self.shards, &key)
    }

    pub fn get_segment(&self, namespace: &String, shard_name: &String, segment_no: u32) -> (r:
        Option<&JournalSegment>)
        requires
            self.wf(),
        ensures
            r.is_some() == self.segment_of(shard_key(namespace@, shard_name@), segment_no).is_some(),
            r.is_some() ==> *r.unwrap() == self.segment_of(
                shard_key(namespace@, shard_name@),
                segment_no,
            ).unwrap(),
            r.is_some() ==> {
                &&& r.unwrap().segment_seq == segment_no
                &&& r.unwrap().namespace@ == namespace@
                &&& r.unwrap().shard_name@ == shard_name@
            },
    {
        let key: ShardKey = (namespace.clone(), shard_name.clone());
        match self.segments.get(&key) {
            Some(list) => list.get(&segment_no),
            None => None,
        }
    }

    /// The segment that writes of a shard go to: the one its active sequence
    /// names, unless that one is sealed.
    pub fn get_active_segment(&self, namespace: &String, shard_name: &String) -> (r: Option<
        &JournalSegment,
    >)
        requires
            self.wf(),
        ensures
            r.is_some() == self.active_segment_of(shard_key(namespace@, shard_name@)).is_some(),
            r.is_some() ==> *r.unwrap() == self.active_segment_of(
                shard_key(namespace@, shard_name@),
            ).unwrap(),
            r.is_some() ==> {
                &&& r.unwrap().segment_seq == self.shard_map()[shard_key(
                    namespace@,
                    shard_name@,
                )].active_segment_seq
                &&& r.unwrap().status != SegmentStatus::SealUp
            },
    {
        match self.get_shard(namespace, shard_name) {
            Some(shard) => match self.get_segment(namespace, shard_name, shard.active_segment_seq) {
                Some(segment) => {
                    if !segment.is_seal_up() {
                        Some(segment)
                    } else {
                        None
                    }
                },
                None => None,
            },
            None => None,
        }
    }

    /// Upserts a segment. A segment already held keeps the later of its held
    /// and its new status: a status never goes back along the lifecycle.
    pub fn add_segment(&mut self, segment: JournalSegment)
        requires
            old(self).wf(),
        ensures
            final(self).wf(),
            final(self).has_cluster() == old(self).has_cluster(),
            final(self).nodes() == old(self).nodes(),
            final(self).shard_map() == old(self).shard_map(),
            final(self).segment_map() == with_segment(old(self).segment_map(), segment),
    {
        let key: ShardKey = (segment.namespace.clone(), segment.shard_name.clone());
        let ghost k = key@;
        let ghost seg = segment;
        let mut segment = segment;
        let mut list = match self.segments.remove(&key) {
            Some(l) => l,
            None => KeyMap::new(),
        };
        let held_status = match list.get(&segment.segment_seq) {
            Some(held) => Some(held.status),
            None => None,
        };
        if let Some(h) = held_status {
            if !h.can_transition_to(segment.status) {
                segment.status = h;
            }
        }
        assert(segment == stored_segment(old(self).segment_map(), seg));
        list.insert(segment.segment_seq, segment);
        let ghost inner = list@;
        self.segments.insert(key, list);
        assert(self.segment_map() =~= old(self).segment_map().insert(k, inner));
        assert(inner =~= entry_of(old(self).segment_map(), k).insert(seg.segment_seq, stored_segment(old(self).segment_map(), seg)));
        assert(segments_self_keyed(self.segment_map())) by {
            assert forall|k2: (Seq<char>, Seq<char>), q: u32|
                self.segment_map().contains_key(k2) && #[trigger] self.segment_map()[k2].contains_key(q)
                implies shard_key(self.segment_map()[k2][q].namespace@, self.segment_map()[k2][q].shard_name@) == k2
                    && self.segment_map()[k2][q].segment_seq == q by {
                if k2 != k || q != seg.segment_seq {
                    assert(old(self).segment_map().contains_key(k2) && old(self).segment_map()[k2].contains_key(q));
                }
            }
        }
    }

    pub fn delete_segment(&mut self, segment: &JournalSegment)
        requires
            old(self).wf(),
        ensures
            final(self).wf(),
            final(self).has_cluster() == old(self).has_cluster(),
            final(self).nodes() == old(self).nodes(),
            final(self).shard_map() == old(self).shard_map(),
            ({
                let k = shard_key(segment.namespace@, segment.shard_name@);
                final(self).segment_map() == if old(self).segment_map().contains_key(k) {
                    old(self).segment_map().insert(
                        k,
                        old(self).segment_map()[k].remove(segment.segment_seq),
                    )
                } else {
                    old(self).segment_map()
                }
            }),
    {
        let key: ShardKey = (segment.namespace.clone(), segment.shard_name.clone());
        let ghost k = key@;
        match self.segments.remove(&key) {
            Some(mut list) => {
                list.remove(&segment.segment_seq);
                let ghost inner = list@;
                self.segments.insert(key, list);
                assert(self.segment_map() =~= old(self).segment_map().insert(k, inner));
                assert(segments_self_keyed(self.segment_map())) by {
                    assert forall|k2: (Seq<char>, Seq<char>), q: u32|
                        self.segment_map().contains_key(k2) && #[trigger] self.segment_map()[k2].contains_key(q)
                        implies shard_key(self.segment_map()[k2][q].namespace@, self.segment_map()[k2][q].shard_name@) == k2
                            && self.segment_map()[k2][q].segment_seq == q by {
                        assert(old(self).segment_map().contains_key(k2) && old(self).segment_map()[k2].contains_key(q));
                    }
                }
            },
            None => {
                assert(self.segment_map() =~= old(self).segment_map());
            },
        }
    }

    /// Applies one decoded node of the update feed; a payload that did not decode
    /// changes nothing.
    fn parse_node(&mut self, action_type: JournalUpdateCacheActionType, node: Option<BrokerNode>)
        requires
            old(self).wf(),
        ensures
            final(self).wf(),
            node_updated(*old(self), *final(self), action_type, node),
    {
        match node {
            Some(node) => match action_type {
                JournalUpdateCacheActionType::Add => self.add_node(node),
                JournalUpdateCacheActionType::Delete => self.remove_node(node.node_id),
            },
            None => {},
        }
    }

    /// Applies one decoded shard of the update feed. A deleted shard takes its
    /// segments with it, and its key is handed back so that its local files can
    /// be erased.
    fn parse_shard(&mut self, action_type: JournalUpdateCacheActionType, shard: Option<JournalShard>) -> (r: Option<ShardKey>)
        requires
            old(self).wf(),
        ensures
            final(self).wf(),
            shard_updated(*old(self), *final(self), action_type, shard),
            r.is_some() == (shard.is_some() && action_type == JournalUpdateCacheActionType::Delete),
            r.is_some() ==> r.unwrap()@ == shard_key(shard.unwrap().namespace@, shard.unwrap().shard_name@),
    {
        match shard {
            Some(shard) => match action_type {
                JournalUpdateCacheActionType::Add => {
                    self.add_shard(shard);
                    None
                },
                JournalUpdateCacheActionType::Delete => {
                    self.delete_shard(&shard.namespace, &shard.shard_name);
                    Some((shard.namespace, shard.shard_name))
                },
            },
            None => None,
        }
    }

    /// Applies one decoded segment of the update feed.
    fn parse_segment(&mut self, action_type: JournalUpdateCacheActionType, segment: Option<JournalSegment>)
        requires
            old(self).wf(),
        ensures
            final(self).wf(),
            segment_updated(*old(self), *final(self), action_type, segment),
    {
        match segment {
            Some(segment) => match action_type {
                JournalUpdateCacheActionType::Add => self.add_segment(segment),
                JournalUpdateCacheActionType::Delete => self.delete_segment(&segment),
            },
            None => {},
        }
    }

    /// Applies one entry of the update feed: `data` is the payload decoded as
    /// `resource_type` names, or `None` where it did not decode. Returns the key of
    /// a deleted shard, whose local files are then to be erased.
    pub fn update_cache(
        &mut self,
        action_type: JournalUpdateCacheActionType,
        resource_type: JournalUpdateCacheResourceType,
        data: Option<CacheEntity>,
    ) -> (r: Option<ShardKey>)
        requires
            old(self).wf(),
        ensures
            final(self).wf(),
            match resource_type {
                JournalUpdateCacheResourceType::JournalNode => node_updated(
                    *old(self),
                    *final(self),
                    action_type,
                    payload_node(data),
                ),
                JournalUpdateCacheResourceType::Shard => shard_updated(
                    *old(self),
                    *final(self),
                    action_type,
                    payload_shard(data),
                ),
                JournalUpdateCacheResourceType::Segment => segment_updated(
                    *old(self),
                    *final(self),
                    action_type,
                    payload_segment(data),
                ),
            },
            r.is_some() == (resource_type == JournalUpdateCacheResourceType::Shard
                && payload_shard(data).is_some() && action_type
                == JournalUpdateCacheActionType::Delete),
            r.is_some() ==> r.unwrap()@ == shard_key(
                payload_shard(data).unwrap().namespace@,
                payload_shard(data).unwrap().shard_name@,
            ),
    {
        match resource_type {
            JournalUpdateCacheResourceType::JournalNode => {
                let node = match data {
                    Some(CacheEntity::JournalNode(n)) => Some(n),
                    _ => None,
                };
                self.parse_node(action_type, node);
                None
            },
            JournalUpdateCacheResourceType::Shard => {
                let shard = match data {
                    Some(CacheEntity::Shard(s)) => Some(s),
                    _ => None,
                };
                self.parse_shard(action_type, shard)
            },
            JournalUpdateCacheResourceType::Segment => {
                let segment = match data {
                    Some(CacheEntity::Segment(s)) => Some(s),
                    _ => None,
                };
                self.parse_segment(action_type, segment);
                None
            },
        }
    }

    /// Fills the cache from the lists the placement center returned, each in order.
    pub fn load_cache(
        &mut self,
        nodes: Vec<BrokerNode>,
        shards: Vec<JournalShard>,
        segments: Vec<JournalSegment>,
    )
        requires
            old(self).wf(),
        ensures
            final(self).wf(),
            final(self).has_cluster() == old(self).has_cluster(),
            final(self).nodes() == nodes_after(old(self).nodes(), nodes@),
            final(self).shard_map() == shards_after(old(self).shard_map(), shards@),
            final(self).segment_map() == segments_after(old(self).segment_map(), segments@),
    {
        let ghost all_nodes = nodes@;
        let mut nodes = nodes;
        let ghost mut i: int = 0;
        while nodes.len() > 0
            invariant
                self.wf(),
                self.has_cluster() == old(self).has_cluster(),
                self.shard_map() == old(self).shard_map(),
                self.segment_map() == old(self).segment_map(),
                0 <= i <= all_nodes.len(),
                nodes@ == all_nodes.subrange(i, all_nodes.len() as int),
                self.nodes() == nodes_after(old(self).nodes(), all_nodes.subrange(0, i)),
            decreases nodes@.len(),
        {
            let node = nodes.remove(0);
            self.add_node(node);
            assert(all_nodes.subrange(0, i + 1).drop_last() =~= all_nodes.subrange(0, i));
            proof { i = i + 1; }
            assert(nodes@ =~= all_nodes.subrange(i, all_nodes.len() as int));
        }
        assert(all_nodes.subrange(0, i) =~= all_nodes);
        let ghost all_shards = shards@;
        let mut shards = shards;
        let ghost mut i: int = 0;
        while shards.len() > 0
            invariant
                self.wf(),
                self.has_cluster() == old(self).has_cluster(),
                self.nodes() == nodes_after(old(self).nodes(), all_nodes),
                self.segment_map() == old(self).segment_map(),
                0 <= i <= all_shards.len(),
                shards@ == all_shards.subrange(i, all_shards.len() as int),
                self.shard_map() == shards_after(old(self).shard_map(), all_shards.subrange(0, i)),
            decreases shards@.len(),
        {
            let shard = shards.remove(0);
            self.add_shard(shard);
            assert(all_shards.subrange(0, i + 1).drop_last() =~= all_shards.subrange(0, i));
            proof { i = i + 1; }
            assert(shards@ =~= all_shards.subrange(i, all_shards.len() as int));
        }
        assert(all_shards.subrange(0, i) =~= all_shards);
        let ghost all_segments = segments@;
        let mut segments = segments;
        let ghost mut i: int = 0;
        while segments.len() > 0
            invariant
                self.wf(),
                self.has_cluster() == old(self).has_cluster(),
                self.nodes() == nodes_after(old(self).nodes(), all_nodes),
                self.shard_map() == shards_after(old(self).shard_map(), all_shards),
                0 <= i <= all_segments.len(),
                segments@ == all_segments.subrange(i, all_segments.len() as int),
                self.segment_map() == segments_after(old(self).segment_map(), all_segments.subrange(0, i)),
            decreases segments@.len(),
        {
            let segment = segments.remove(0);
            self.add_segment(segment);
            assert(all_segments.subrange(0, i + 1).drop_last() =~= all_segments.subrange(0, i));
            proof { i = i + 1; }
            assert(segments@ =~= all_segments.subrange(i, all_segments.len() as int));
        }
        assert(all_segments.subrange(0, i) =~= all_segments);
    }
}

pub open spec fn payload_node(data: Option<CacheEntity>) -> Option<BrokerNode> {
    match data {
        Some(CacheEntity::JournalNode(n)) => Some(n),
        _ => None,
    }
}

pub open spec fn payload_shard(data: Option<CacheEntity>) -> Option<JournalShard> {
    match data {
        Some(CacheEntity::Shard(s)) => Some(s),
        _ => None,
    }
}

pub open spec fn payload_segment(data: Option<CacheEntity>) -> Option<JournalSegment> {
    match data {
        Some(CacheEntity::Segment(s)) => Some(s),
        _ => None,
    }
}

/// Every held segment sits under its own namespace, shard name and sequence.
pub open spec fn segments_self_keyed(segments: Map<(Seq<char>, Seq<char>), Map<u32, JournalSegment>>) -> bool {
    forall|k: (Seq<char>, Seq<char>), seq: u32|
        segments.contains_key(k) && #[trigger] segments[k].contains_key(seq) ==> {
            &&& shard_key(segments[k][seq].namespace@, segments[k][seq].shard_name@) == k
            &&& segments[k][seq].segment_seq == seq
        }
}

pub open spec fn entry_of(
    segments: Map<(Seq<char>, Seq<char>), Map<u32, JournalSegment>>,
    k: (Seq<char>, Seq<char>),
) -> Map<u32, JournalSegment> {
    if segments.contains_key(k) {
        segments[k]
    } else {
        Map::empty()
    }
}

/// The segment stored when `segment` is added: as given, but where a segment
/// with its key is held, with the later of the held and the given status.
pub open spec fn stored_segment(
    segments: Map<(Seq<char>, Seq<char>), Map<u32, JournalSegment>>,
    segment: JournalSegment,
) -> JournalSegment {
    let held = entry_of(segments, shard_key(segment.namespace@, segment.shard_name@));
    JournalSegment {
        status: if held.contains_key(segment.segment_seq) {
            next_status(held[segment.segment_seq].status, segment.status)
        } else {
            segment.status
        },
        ..segment
    }
}

/// The segments after `segment` is added to them.
pub open spec fn with_segment(
    segments: Map<(Seq<char>, Seq<char>), Map<u32, JournalSegment>>,
    segment: JournalSegment,
) -> Map<(Seq<char>, Seq<char>), Map<u32, JournalSegment>> {
    let k = shard_key(segment.namespace@, segment.shard_name@);
    segments.insert(
        k,
        entry_of(segments, k).insert(segment.segment_seq, stored_segment(segments, segment)),
    )
}

/// Adding a segment never moves a held segment's status back along the
/// lifecycle, and it is held under its own key afterwards.
pub proof fn lemma_add_segment_keeps_order(
    segments: Map<(Seq<char>, Seq<char>), Map<u32, JournalSegment>>,
    segment: JournalSegment,
)
    ensures
        ({
            let k = shard_key(segment.namespace@, segment.shard_name@);
            let after = with_segment(segments, segment);
            &&& after[k].contains_key(segment.segment_seq)
            &&& segments.contains_key(k) && segments[k].contains_key(segment.segment_seq)
                ==> status_index(segments[k][segment.segment_seq].status) <= status_index(
                after[k][segment.segment_seq].status,
            )
        }),
{
}

pub open spec fn without_segment(
    segments: Map<(Seq<char>, Seq<char>), Map<u32, JournalSegment>>,
    segment: JournalSegment,
) -> Map<(Seq<char>, Seq<char>), Map<u32, JournalSegment>> {
    let k = shard_key(segment.namespace@, segment.shard_name@);
    if segments.contains_key(k) {
        segments.insert(k, segments[k].remove(segment.segment_seq))
    } else {
        segments
    }
}

pub open spec fn node_updated(
    before: CacheManager,
    after: CacheManager,
    action_type: JournalUpdateCacheActionType,
    node: Option<BrokerNode>,
) -> bool {
    &&& after.has_cluster() == before.has_cluster()
    &&& after.shard_map() == before.shard_map()
    &&& after.segment_map() == before.segment_map()
    &&& after.nodes() == match node {
        Some(n) => match action_type {
            JournalUpdateCacheActionType::Add => before.nodes().insert(n.node_id, n),
            JournalUpdateCacheActionType::Delete => before.nodes().remove(n.node_id),
        },
        None => before.nodes(),
    }
}

pub open spec fn shard_updated(
    before: CacheManager,
    after: CacheManager,
    action_type: JournalUpdateCacheActionType,
    shard: Option<JournalShard>,
) -> bool {
    &&& after.has_cluster() == before.has_cluster()
    &&& after.nodes() == before.nodes()
    &&& match shard {
        Some(s) => {
            let k = shard_key(s.namespace@, s.shard_name@);
            match action_type {
                JournalUpdateCacheActionType::Add => {
                    &&& after.shard_map() == before.shard_map().insert(k, s)
                    &&& after.segment_map() == before.segment_map()
                },
                JournalUpdateCacheActionType::Delete => {
                    &&& after.shard_map() == before.shard_map().remove(k)
                    &&& after.segment_map() == before.segment_map().remove(k)
                },
            }
        },
        None => {
            &&& after.shard_map() == before.shard_map()
            &&& after.segment_map() == before.segment_map()
        },
    }
}

pub open spec fn segment_updated(
    before: CacheManager,
    after: CacheManager,
    action_type: JournalUpdateCacheActionType,
    segment: Option<JournalSegment>,
) -> bool {
    &&& after.has_cluster() == before.has_cluster()
    &&& after.nodes() == before.nodes()
    &&& after.shard_map() == before.shard_map()
    &&& after.segment_map() == match segment {
        Some(s) => match action_type {
            JournalUpdateCacheActionType::Add => with_segment(before.segment_map(), s),
            JournalUpdateCacheActionType::Delete => without_segment(before.segment_map(), s),
        },
        None => before.segment_map(),
    }
}

/// `m` after each node of `s` is added in turn.
pub open spec fn nodes_after(m: Map<u64, BrokerNode>, s: Seq<BrokerNode>) -> Map<u64, BrokerNode>
    decreases s.len(),
{
    if s.len() == 0 {
        m
    } else {
        nodes_after(m, s.drop_last()).insert(s.last().node_id, s.last())
    }
}

/// `m` after each shard of `s` is added in turn.
pub open spec fn shards_after(m: Map<(Seq<char>, Seq<char>), JournalShard>, s: Seq<JournalShard>) -> Map<
    (Seq<char>, Seq<char>),
    JournalShard,
>
    decreases s.len(),
{
    if s.len() == 0 {
        m
    } else {
        shards_after(m, s.drop_last()).insert(
            shard_key(s.last().namespace@, s.last().shard_name@),
            s.last(),
        )
    }
}

/// `m` after each segment of `s` is added in turn.
pub open spec fn segments_after(
    m: Map<(Seq<char>, Seq<char>), Map<u32, JournalSegment>>,
    s: Seq<JournalSegment>,
) -> Map<(Seq<char>, Seq<char>), Map<u32, JournalSegment>>
    decreases s.len(),
{
    if s.len() == 0 {
        m
    } else {
        with_segment(segments_after(m, s.drop_last()), s.last())
    }
}

/// Creating a shard and then deleting it leaves neither the shard nor any of
/// its segments, puts the other shards back as they were, and deleting it once
/// more changes nothing.
pub proof fn lemma_create_then_delete_shard(
    c0: CacheManager,
    c1: CacheManager,
    c2: CacheManager,
    c3: CacheManager,
    shard: JournalShard,
)
    requires
        shard_updated(c0, c1, JournalUpdateCacheActionType::Add, Some(shard)),
        shard_updated(c1, c2, JournalUpdateCacheActionType::Delete, Some(shard)),
        shard_updated(c2, c3, JournalUpdateCacheActionType::Delete, Some(shard)),
    ensures
        ({
            let k = shard_key(shard.namespace@, shard.shard_name@);
            &&& !c2.shard_map().contains_key(k)
            &&& !c2.segment_map().contains_key(k)
            &&& c2.shard_map() == c0.shard_map().remove(k)
            &&& c2.segment_map() == c0.segment_map().remove(k)
            &&& c2.nodes() == c0.nodes()
            &&& c3.shard_map() == c2.shard_map()
            &&& c3.segment_map() == c2.segment_map()
            &&& c3.nodes() == c2.nodes()
        }),
{
    let k = shard_key(shard.namespace@, shard.shard_name@);
    assert(c2.shard_map() =~= c0.shard_map().remove(k));
    assert(c3.shard_map() =~= c2.shard_map());
    assert(c3.segment_map() =~= c2.segment_map());
}

/// Every segment in status Write belongs to a known shard and is that shard's
/// active segment; so a shard has at most one segment in status Write.
pub open spec fn write_segment_is_active(c: CacheManager) -> bool {
    forall|k: (Seq<char>, Seq<char>), seq: u32|
        #[trigger] c.segment_of(k, seq).is_some() && c.segment_of(k, seq).unwrap().status
            == SegmentStatus::Write ==> c.shard_map().contains_key(k)
            && c.shard_map()[k].active_segment_seq == seq
}

/// A shard never has two segments in status Write, and the one it has is the
/// segment its active sequence names.
pub proof fn lemma_single_write_segment(c: CacheManager, k: (Seq<char>, Seq<char>), a: u32, b: u32)
    requires
        write_segment_is_active(c),
        c.segment_of(k, a).is_some(),
        c.segment_of(k, b).is_some(),
        c.segment_of(k, a).unwrap().status == SegmentStatus::Write,
        c.segment_of(k, b).unwrap().status == SegmentStatus::Write,
    ensures
        a == b,
        a == c.shard_map()[k].active_segment_seq,
{
}

/// Entries of the update feed that respect the rule keep it: a segment in
/// status Write only for the active sequence of its shard, a shard whose active
/// sequence names the segment in status Write it already has, if any.
pub open spec fn update_respects_write_rule(
    c: CacheManager,
    action_type: JournalUpdateCacheActionType,
    resource_type: JournalUpdateCacheResourceType,
    data: Option<CacheEntity>,
) -> bool {
    action_type == JournalUpdateCacheActionType::Add ==> match resource_type {
        JournalUpdateCacheResourceType::Segment => match payload_segment(data) {
            Some(s) => s.status == SegmentStatus::Write ==> {
                let k = shard_key(s.namespace@, s.shard_name@);
                &&& c.shard_map().contains_key(k)
                &&& c.shard_map()[k].active_segment_seq == s.segment_seq
            },
            None => true,
        },
        JournalUpdateCacheResourceType::Shard => match payload_shard(data) {
            Some(s) => forall|seq: u32|
                #[trigger] c.segment_of(shard_key(s.namespace@, s.shard_name@), seq).is_some()
                    && c.segment_of(shard_key(s.namespace@, s.shard_name@), seq).unwrap().status
                    == SegmentStatus::Write ==> seq == s.active_segment_seq,
            None => true,
        },
        JournalUpdateCacheResourceType::JournalNode => true,
    }
}

/// Applying an update-feed entry that respects the rule keeps every segment in
/// status Write the active segment of its shard.
pub proof fn lemma_update_keeps_write_rule(
    before: CacheManager,
    after: CacheManager,
    action_type: JournalUpdateCacheActionType,
    resource_type: JournalUpdateCacheResourceType,
    data: Option<CacheEntity>,
)
    requires
        write_segment_is_active(before),
        update_respects_write_rule(before, action_type, resource_type, data),
        match resource_type {
            JournalUpdateCacheResourceType::JournalNode => node_updated(
                before,
                after,
                action_type,
                payload_node(data),
            ),
            JournalUpdateCacheResourceType::Shard => shard_updated(
                before,
                after,
                action_type,
                payload_shard(data),
            ),
            JournalUpdateCacheResourceType::Segment => segment_updated(
                before,
                after,
                action_type,
                payload_segment(data),
            ),
        },
    ensures
        write_segment_is_active(after),
{
    assert forall|k: (Seq<char>, Seq<char>), seq: u32|
        #[trigger] after.segment_of(k, seq).is_some() && after.segment_of(k, seq).unwrap().status
            == SegmentStatus::Write implies after.shard_map().contains_key(k)
            && after.shard_map()[k].active_segment_seq == seq by {
        match resource_type {
            JournalUpdateCacheResourceType::JournalNode => {
                assert(before.segment_of(k, seq) == after.segment_of(k, seq));
            },
            JournalUpdateCacheResourceType::Shard => {
                match payload_shard(data) {
                    Some(s) => {
                        let ks = shard_key(s.namespace@, s.shard_name@);
                        if action_type == JournalUpdateCacheActionType::Add {
                            assert(before.segment_of(k, seq) == after.segment_of(k, seq));
                            if k == ks {
                                assert(before.segment_of(ks, seq).is_some());
                            }
                        } else {
                            assert(k != ks);
                            assert(before.segment_of(k, seq) == after.segment_of(k, seq));
                        }
                    },
                    None => {
                        assert(before.segment_of(k, seq) == after.segment_of(k, seq));
                    },
                }
            },
            JournalUpdateCacheResourceType::Segment => {
                match payload_segment(data) {
                    Some(s) => {
                        let ks = shard_key(s.namespace@, s.shard_name@);
                        if k == ks && seq == s.segment_seq && action_type
                            == JournalUpdateCacheActionType::Add {
                            let held = entry_of(before.segment_map(), ks);
                            if held.contains_key(seq) && s.status != SegmentStatus::Write {
                                assert(before.segment_of(k, seq).is_some());
                                assert(before.segment_of(k, seq).unwrap().status == SegmentStatus::Write);
                            }
                        } else {
                            assert(before.segment_of(k, seq) == after.segment_of(k, seq));
                        }
                    },
                    None => {
                        assert(before.segment_of(k, seq) == after.segment_of(k, seq));
                    },
                }
            },
        }
    }
}

} // verus!
