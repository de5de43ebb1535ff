use vstd::prelude::*;

use dashmap::DashMap;

use crate::journal_cache::BrokerNode;
use crate::tables::{
    broker_entries, broker_table_get, broker_table_insert, broker_table_keys, broker_table_new,
    broker_table_remove, vote_entries, vote_table_get, vote_table_insert, vote_table_keys,
    vote_table_new, vote_table_remove,
    cluster_entries, cluster_table_insert, cluster_table_new, heartbeat_entries,
    heartbeat_table_get, heartbeat_table_insert, heartbeat_table_keys, heartbeat_table_new,
    heartbeat_table_remove,
};

verus! {

pub struct ClusterInfo {
    pub cluster_name: String,
    pub cluster_type: String,
    pub create_time: u64,
}

/// The last heartbeat of a broker node, in seconds.
pub struct NodeHeartbeatData {
    pub cluster_name: String,
    pub node_id: u64,
    pub time: u64,
}

impl NodeHeartbeatData {
    pub fn duplicate(&self) -> (r: NodeHeartbeatData)
        ensures
            r == *self,
    {
        NodeHeartbeatData { cluster_name: self.cluster_name.clone(), node_id: self.node_id, time: self.time }
    }
}

/// A member of the placement center's Raft group.
pub struct RaftNode {
    pub node_id: u64,
    pub node_addr: String,
}

impl RaftNode {
    pub fn duplicate(&self) -> (r: RaftNode)
        ensures
            r == *self,
    {
        RaftNode { node_id: self.node_id, node_addr: self.node_addr.clone() }
    }
}

#[derive(Clone, Copy, Debug, PartialEq, Eq, Structural)]
pub enum StateRole {
    Follower,
    Candidate,
    Leader,
    PreCandidate,
}

impl StateRole {
    pub fn name(&self) -> (r: &'static str)
        ensures
            r@ == role_name(*self),
    {
        match self {
            StateRole::Follower => "Follower",
            StateRole::Candidate => "Candidate",
            StateRole::Leader => "Leader",
            StateRole::PreCandidate => "PreCandidate",
        }
    }
}

pub open spec fn role_name(r: StateRole) -> Seq<char> {
    match r {
        StateRole::Follower => "Follower"@,
        StateRole::Candidate => "Candidate"@,
        StateRole::Leader => "Leader"@,
        StateRole::PreCandidate => "PreCandidate"@,
    }
}

pub type HeartbeatKey = (String, u64);

pub open spec fn node_key(cluster_name: Seq<char>, node_id: u64) -> (Seq<char>, u64) {
    (cluster_name, node_id)
}

/// The placement center's index of broker clusters, nodes, heartbeats and its
/// own Raft membership.
pub struct PlacementCacheManager {
    cluster_list: DashMap<String, ClusterInfo>,
    node_list: DashMap<(String, u64), BrokerNode>,
    node_heartbeat: DashMap<HeartbeatKey, NodeHeartbeatData>,
    votes: DashMap<u64, RaftNode>,
    raft_role: Option<StateRole>,
    leader: Option<RaftNode>,
}

impl PlacementCacheManager {
    pub closed spec fn clusters(&self) -> Map<Seq<char>, ClusterInfo> {
        cluster_entries(self.cluster_list)
    }

    /// The registered nodes, by cluster name and node id.
    pub closed spec fn nodes(&self) -> Map<(Seq<char>, u64), BrokerNode> {
        broker_entries(self.node_list)
    }

    /// The heartbeats, by cluster name and node id.
    pub closed spec fn heartbeats(&self) -> Map<(Seq<char>, u64), NodeHeartbeatData> {
        heartbeat_entries(self.node_heartbeat)
    }

    pub closed spec fn raft_votes(&self) -> Map<u64, RaftNode> {
        vote_entries(self.votes)
    }

    pub closed spec fn role(&self) -> Option<StateRole> {
        self.raft_role
    }

    pub closed spec fn raft_leader(&self) -> Option<RaftNode> {
        self.leader
    }

    /// The ids of the nodes held for a cluster.
    pub open spec fn cluster_node_ids(&self, cluster_name: Seq<char>) -> Set<u64> {
        Set::new(|id: u64| self.nodes().contains_key(node_key(cluster_name, id)))
    }

    /// The ids of the nodes of a cluster.
    pub open spec fn node_ids_of(&self, cluster_name: Seq<char>) -> Set<u64> {
        Set::new(
            |id: u64|
                self.nodes().contains_key(node_key(cluster_name, id)) && self.nodes()[node_key(
                    cluster_name,
                    id,
                )].cluster_name@ == cluster_name,
        )
    }

    pub fn new() -> (r: PlacementCacheManager)
        ensures
            r.clusters() == Map::<Seq<char>, ClusterInfo>::empty(),
            r.nodes() == Map::<(Seq<char>, u64), BrokerNode>::empty(),
            r.heartbeats() == Map::<(Seq<char>, u64), NodeHeartbeatData>::empty(),
            r.raft_votes() == Map::<u64, RaftNode>::empty(),
            r.role().is_none(),
            r.raft_leader().is_none(),
    {
        let r = PlacementCacheManager {
            cluster_list: cluster_table_new(),
            node_list: broker_table_new(),
            node_heartbeat: heartbeat_table_new(),
            votes: vote_table_new(),
            raft_role: None,
            leader: None,
        };
        assert(r.nodes() =~= Map::empty());
        r
    }

    pub fn add_broker_cluster(&mut self, cluster: ClusterInfo)
        ensures
            final(self).clusters() == old(self).clusters().insert(cluster.cluster_name@, cluster),
            final(self).nodes() == old(self).nodes(),
            final(self).heartbeats() == old(self).heartbeats(),
            final(self).raft_votes() == old(self).raft_votes(),
            final(self).role() == old(self).role(),
            final(self).raft_leader() == old(self).raft_leader(),
    {
        cluster_table_insert(&mut self.cluster_list, cluster.cluster_name.clone(), cluster);
    }

    pub fn add_broker_node(&mut self, node: BrokerNode)
        ensures
            final(self).clusters() == old(self).clusters(),
            final(self).nodes() == old(self).nodes().insert(
                node_key(node.cluster_name@, node.node_id),
                node,
            ),
            final(self).heartbeats() == old(self).heartbeats(),
            final(self).raft_votes() == old(self).raft_votes(),
            final(self).role() == old(self).role(),
            final(self).raft_leader() == old(self).raft_leader(),
    {
        let key = (node.cluster_name.clone(), node.node_id);
        broker_table_insert(&mut self.node_list, key, node);
    }

    pub fn remove_broker_node(&mut self, cluster_name: &String, node_id: u64) -> (r: Option<
        (u64, BrokerNode),
    >)
        ensures
            final(self).clusters() == old(self).clusters(),
            final(self).nodes() == old(self).nodes().remove(node_key(cluster_name@, node_id)),
            r.is_some() == old(self).nodes().contains_key(node_key(cluster_name@, node_id)),
            r.is_some() ==> r.unwrap() == (node_id, old(self).nodes()[node_key(cluster_name@, node_id)]),
            final(self).heartbeats() == old(self).heartbeats(),
            final(self).raft_votes() == old(self).raft_votes(),
            final(self).role() == old(self).role(),
            final(self).raft_leader() == old(self).raft_leader(),
    {
        let key = (cluster_name.clone(), node_id);
        match broker_table_remove(&mut self.node_list, &key) {
            Some(node) => Some((node_id, node)),
            None => None,
        }
    }

    /// The ids held for a cluster; with `same_cluster_only`, only those of
    /// nodes whose own cluster name is that cluster.
    fn cluster_ids(&self, cluster_name: &String, same_cluster_only: bool) -> (r: Vec<u64>)
        ensures
            r@.no_duplicates(),
            forall|id: u64| #[trigger] r@.contains(id) == (self.nodes().contains_key(node_key(cluster_name@, id))
                && (same_cluster_only ==> self.nodes()[node_key(cluster_name@, id)].cluster_name@ == cluster_name@)),
    {
        let ghost cn = cluster_name@;
        let keys = broker_table_keys(&self.node_list);
        let mut out: Vec<u64> = Vec::new();
        let ghost mut pos: Seq<int> = Seq::empty();
        let mut i: usize = 0;
        while i < keys.len()
            invariant
                cn == cluster_name@,
                i <= keys@.len(),
                forall|a: int, b: int| 0 <= a < b < keys@.len() ==> #[trigger] keys@[a]@ != #[trigger] keys@[b]@,
                forall|a: int| 0 <= a < keys@.len() ==> self.nodes().contains_key(#[trigger] keys@[a]@),
                pos.len() == out@.len(),
                forall|a: int| 0 <= a < pos.len() ==> 0 <= #[trigger] pos[a] < i,
                forall|a: int, b: int| 0 <= a < b < pos.len() ==> #[trigger] pos[a] < #[trigger] pos[b],
                forall|a: int| 0 <= a < out@.len() ==> keys@[pos[a]]@ == node_key(cn, #[trigger] out@[a]),
                forall|a: int| 0 <= a < out@.len() ==> (same_cluster_only ==> self.nodes()[node_key(cn, #[trigger] out@[a])].cluster_name@ == cn),
                forall|j: int| 0 <= j < i && (#[trigger] keys@[j]@).0 == cn
                    && (same_cluster_only ==> self.nodes()[keys@[j]@].cluster_name@ == cn)
                    ==> exists|a: int| 0 <= a < pos.len() && pos[a] == j,
            decreases keys@.len() - i,
        {
            let ghost old_pos = pos;
            let selected = if keys[i].0 == *cluster_name {
                if same_cluster_only {
                    match broker_table_get(&self.node_list, &keys[i]) {
                        Some(node) => node.cluster_name == *cluster_name,
                        None => false,
                    }
                } else {
                    true
                }
            } else {
                false
            };
            assert(selected == ((keys@[i as int]@).0 == cn
                && (same_cluster_only ==> self.nodes()[keys@[i as int]@].cluster_name@ == cn)));
            if selected {
                out.push(keys[i].1);
                proof {
                    pos = pos.push(i as int);
                }
            }
            proof {
                assert forall|j: int| 0 <= j < i + 1 && (#[trigger] keys@[j]@).0 == cn
                    && (same_cluster_only ==> self.nodes()[keys@[j]@].cluster_name@ == cn)
                    implies exists|a: int| 0 <= a < pos.len() && pos[a] == j by {
                    if j == i {
                        assert(pos[pos.len() - 1] == j);
                    } else {
                        let a = choose|a: int| 0 <= a < old_pos.len() && old_pos[a] == j;
                        assert(pos[a] == j);
                    }
                }
            }
            i = i + 1;
        }
        proof {
            assert forall|a: int, b: int| 0 <= a < out@.len() && 0 <= b < out@.len() && a != b implies out@[a] != out@[b] by {
                if out@[a] == out@[b] {
                    assert(keys@[pos[a]]@ == keys@[pos[b]]@);
                    if a < b {
                        assert(pos[a] < pos[b]);
                    } else {
                        assert(pos[b] < pos[a]);
                    }
                }
            }
            assert forall|id: u64| #[trigger] out@.contains(id) == (self.nodes().contains_key(node_key(cn, id))
                && (same_cluster_only ==> self.nodes()[node_key(cn, id)].cluster_name@ == cn)) by {
                if out@.contains(id) {
                    let a = choose|a: int| 0 <= a < out@.len() && out@[a] == id;
                    assert(keys@[pos[a]]@ == node_key(cn, out@[a]));
                }
                if self.nodes().contains_key(node_key(cn, id))
                    && (same_cluster_only ==> self.nodes()[node_key(cn, id)].cluster_name@ == cn) {
                    let j = choose|j: int| 0 <= j < keys@.len() && keys@[j]@ == node_key(cn, id);
                    let a = choose|a: int| 0 <= a < pos.len() && pos[a] == j;
                    assert(keys@[pos[a]]@ == node_key(cn, out@[a]));
                    assert(out@[a] == id);
                }
            }
        }
        out
    }

    /// The number of nodes held for a cluster.
    pub fn get_broker_num(&self, cluster_name: &String) -> (r: usize)
        ensures
            self.cluster_node_ids(cluster_name@).finite(),
            r == self.cluster_node_ids(cluster_name@).len(),
    {
        let ids = self.cluster_ids(cluster_name, false);
        proof {
            assert(ids@.to_set() =~= self.cluster_node_ids(cluster_name@));
            ids@.unique_seq_to_set();
            vstd::seq_lib::seq_to_set_is_finite(ids@);
        }
        ids.len()
    }

    pub fn get_broker_node(&self, cluster_name: &String, node_id: u64) -> (r: Option<BrokerNode>)
        ensures
            r.is_some() == self.nodes().contains_key(node_key(cluster_name@, node_id)),
            r.is_some() ==> r.unwrap() == self.nodes()[node_key(cluster_name@, node_id)],
    {
        let key = (cluster_name.clone(), node_id);
        broker_table_get(&self.node_list, &key)
    }

    /// The ids of the nodes held for a cluster whose own cluster name is that cluster.
    pub fn get_broker_node_id_by_cluster(&self, cluster_name: &String) -> (r: Vec<u64>)
        ensures
            r@.no_duplicates(),
            r@.to_set() == self.node_ids_of(cluster_name@),
            r@.len() <= self.cluster_node_ids(cluster_name@).len(),
    {
        let ids = self.cluster_ids(cluster_name, true);
        let _held = self.get_broker_num(cluster_name);
        proof {
            assert(ids@.to_set() =~= self.node_ids_of(cluster_name@));
            ids@.unique_seq_to_set();
            vstd::set_lib::lemma_len_subset(ids@.to_set(), self.cluster_node_ids(cluster_name@));
        }
        ids
    }

    /// The inner addresses of the nodes that `get_broker_node_id_by_cluster` lists, one each.
    pub fn get_broker_node_addr_by_cluster(&self, cluster_name: &String) -> (r: Vec<String>)
        ensures
            exists|ids: Seq<u64>|
                {
                    &&& ids.no_duplicates()
                    &&& ids.to_set() == self.node_ids_of(cluster_name@)
                    &&& ids.len() == r@.len()
                    &&& forall|i: int|
                        0 <= i < ids.len() ==> #[trigger] r@[i]@ == self.nodes()[node_key(
                            cluster_name@,
                            ids[i],
                        )].node_inner_addr@
                },
    {
        let ids = self.get_broker_node_id_by_cluster(cluster_name);
        let mut results: Vec<String> = Vec::new();
        let mut i: usize = 0;
        while i < ids.len()
            invariant
                ids@.to_set() == self.node_ids_of(cluster_name@),
                i <= ids@.len(),
                results@.len() == i,
                forall|j: int|
                    0 <= j < i ==> #[trigger] results@[j]@ == self.nodes()[node_key(
                        cluster_name@,
                        ids@[j],
                    )].node_inner_addr@,
            decreases ids@.len() - i,
        {
            assert(ids@.to_set().contains(ids@[i as int]));
            match self.get_broker_node(cluster_name, ids[i]) {
                Some(node) => {
                    results.push(node.node_inner_addr.clone());
                },
                None => {
                    assert(false);
                },
            }
            i = i + 1;
        }
        results
    }

    pub fn report_broker_heart(&mut self, cluster_name: &String, node_id: u64, now: u64)
        ensures
            final(self).clusters() == old(self).clusters(),
            final(self).nodes() == old(self).nodes(),
            final(self).heartbeats() == old(self).heartbeats().insert(
                node_key(cluster_name@, node_id),
                NodeHeartbeatData { cluster_name: *cluster_name, node_id, time: now },
            ),
            final(self).raft_votes() == old(self).raft_votes(),
            final(self).role() == old(self).role(),
            final(self).raft_leader() == old(self).raft_leader(),
    {
        let key: HeartbeatKey = (cluster_name.clone(), node_id);
        let data = NodeHeartbeatData { cluster_name: cluster_name.clone(), node_id, time: now };
        heartbeat_table_insert(&mut self.node_heartbeat, key, data);
    }

    pub fn remove_broker_heart(&mut self, cluster_name: &String, node_id: u64)
        ensures
            final(self).clusters() == old(self).clusters(),
            final(self).nodes() == old(self).nodes(),
            final(self).heartbeats() == old(self).heartbeats().remove(node_key(cluster_name@, node_id)),
            final(self).raft_votes() == old(self).raft_votes(),
            final(self).role() == old(self).role(),
            final(self).raft_leader() == old(self).raft_leader(),
    {
        let key: HeartbeatKey = (cluster_name.clone(), node_id);
        heartbeat_table_remove(&mut self.node_heartbeat, &key);
    }

    pub fn get_broker_heart(&self, cluster_name: &String, node_id: u64) -> (r: Option<NodeHeartbeatData>)
        ensures
            r.is_some() == self.heartbeats().contains_key(node_key(cluster_name@, node_id)),
            r.is_some() ==> r.unwrap() == self.heartbeats()[node_key(cluster_name@, node_id)],
    {
        let key: HeartbeatKey = (cluster_name.clone(), node_id);
        heartbeat_table_get(&self.node_heartbeat, &key)
    }

    /// Registers a node: records it and its first heartbeat at `now`.
    pub fn register_node(&mut self, node: BrokerNode, now: u64)
        ensures
            registered(*old(self), *final(self), node, now),
    {
        let cluster_name = node.cluster_name.clone();
        let node_id = node.node_id;
        self.add_broker_node(node);
        self.report_broker_heart(&cluster_name, node_id, now);
    }

    /// Unregisters a node: drops it and its heartbeat.
    pub fn unregister_node(&mut self, cluster_name: &String, node_id: u64)
        ensures
            unregistered(*old(self), *final(self), cluster_name@, node_id),
    {
        self.remove_broker_node(cluster_name, node_id);
        self.remove_broker_heart(cluster_name, node_id);
    }

    /// The nodes whose last heartbeat is more than `timeout` seconds before `now`.
    pub fn expired_heartbeats(&self, now: u64, timeout: u64) -> (r: Vec<HeartbeatKey>)
        ensures
            forall|i: int, j: int| 0 <= i < j < r@.len() ==> #[trigger] r@[i]@ != #[trigger] r@[j]@,
            forall|i: int| 0 <= i < r@.len() ==> {
                &&& self.heartbeats().contains_key(#[trigger] r@[i]@)
                &&& heartbeat_expired(self.heartbeats()[r@[i]@].time, now, timeout)
            },
            forall|k: (Seq<char>, u64)| #[trigger]
                self.heartbeats().contains_key(k) && heartbeat_expired(
                    self.heartbeats()[k].time,
                    now,
                    timeout,
                ) ==> exists|i: int| 0 <= i < r@.len() && r@[i]@ == k,
    {
        let keys = heartbeat_table_keys(&self.node_heartbeat);
        let mut out: Vec<HeartbeatKey> = Vec::new();
        let ghost mut pos: Seq<int> = Seq::empty();
        let mut i: usize = 0;
        while i < keys.len()
            invariant
                i <= keys@.len(),
                forall|a: int, b: int| 0 <= a < b < keys@.len() ==> #[trigger] keys@[a]@ != #[trigger] keys@[b]@,
                forall|a: int| 0 <= a < keys@.len() ==> self.heartbeats().contains_key(#[trigger] keys@[a]@),
                pos.len() == out@.len(),
                forall|a: int| 0 <= a < pos.len() ==> 0 <= #[trigger] pos[a] < i,
                forall|a: int, b: int| 0 <= a < b < pos.len() ==> #[trigger] pos[a] < #[trigger] pos[b],
                forall|a: int| 0 <= a < out@.len() ==> #[trigger] out@[a]@ == keys@[pos[a]]@,
                forall|a: int| 0 <= a < out@.len() ==> heartbeat_expired(self.heartbeats()[#[trigger] out@[a]@].time, now, timeout),
                forall|j: int| 0 <= j < i && heartbeat_expired(self.heartbeats()[#[trigger] keys@[j]@].time, now, timeout)
                    ==> exists|a: int| 0 <= a < pos.len() && pos[a] == j,
            decreases keys@.len() - i,
        {
            let ghost old_pos = pos;
            let expired = match heartbeat_table_get(&self.node_heartbeat, &keys[i]) {
                Some(hb) => hb.time < now && now - hb.time > timeout,
                None => false,
            };
            assert(expired == heartbeat_expired(self.heartbeats()[keys@[i as int]@].time, now, timeout));
            if expired {
                out.push((keys[i].0.clone(), keys[i].1));
                proof {
                    pos = pos.push(i as int);
                }
            }
            proof {
                assert forall|j: int| 0 <= j < i + 1 && heartbeat_expired(self.heartbeats()[#[trigger] keys@[j]@].time, now, timeout)
                    implies exists|a: int| 0 <= a < pos.len() && pos[a] == j by {
                    if j == i {
                        assert(pos[pos.len() - 1] == j);
                    } else {
                        let a = choose|a: int| 0 <= a < old_pos.len() && old_pos[a] == j;
                        assert(pos[a] == j);
                    }
                }
            }
            i = i + 1;
        }
        proof {
            assert forall|a: int, b: int| 0 <= a < b < out@.len() implies #[trigger] out@[a]@ != #[trigger] out@[b]@ by {
                assert(pos[a] < pos[b]);
            }
            assert forall|k: (Seq<char>, u64)| #[trigger]
                self.heartbeats().contains_key(k) && heartbeat_expired(
                    self.heartbeats()[k].time,
                    now,
                    timeout,
                ) implies exists|a: int| 0 <= a < out@.len() && out@[a]@ == k by {
                let j = choose|j: int| 0 <= j < keys@.len() && keys@[j]@ == k;
                let a = choose|a: int| 0 <= a < pos.len() && pos[a] == j;
                assert(out@[a]@ == k);
            }
        }
        out
    }

    pub fn add_raft_member(&mut self, node: RaftNode)
        ensures
            final(self).raft_votes() == old(self).raft_votes().insert(node.node_id, node),
            final(self).clusters() == old(self).clusters(),
            final(self).nodes() == old(self).nodes(),
            final(self).heartbeats() == old(self).heartbeats(),
            final(self).role() == old(self).role(),
            final(self).raft_leader() == old(self).raft_leader(),
    {
        vote_table_insert(&mut self.votes, node.node_id, node);
    }

    pub fn remove_raft_member(&mut self, id: u64)
        ensures
            final(self).raft_votes() == old(self).raft_votes().remove(id),
            final(self).clusters() == old(self).clusters(),
            final(self).nodes() == old(self).nodes(),
            final(self).heartbeats() == old(self).heartbeats(),
            final(self).role() == old(self).role(),
            final(self).raft_leader() == old(self).raft_leader(),
    {
        vote_table_remove(&mut self.votes, id);
    }

    /// Copies of the voters, one per member id.
    pub fn get_raft_votes(&self) -> (r: Vec<RaftNode>)
        ensures
            r@.len() == self.raft_votes().len(),
            exists|ids: Seq<u64>|
                {
                    &&& ids.len() == r@.len()
                    &&& ids.to_set() == self.raft_votes().dom()
                    &&& ids.no_duplicates()
                    &&& forall|i: int| 0 <= i < ids.len() ==> #[trigger] r@[i] == self.raft_votes()[ids[i]]
                },
    {
        let ids = vote_table_keys(&self.votes);
        let mut out: Vec<RaftNode> = Vec::new();
        let mut i: usize = 0;
        while i < ids.len()
            invariant
                i <= ids@.len(),
                forall|a: int| 0 <= a < ids@.len() ==> self.raft_votes().contains_key(#[trigger] ids@[a]),
                out@.len() == i,
                forall|a: int| 0 <= a < i ==> #[trigger] out@[a] == self.raft_votes()[ids@[a]],
            decreases ids@.len() - i,
        {
            match vote_table_get(&self.votes, ids[i]) {
                Some(node) => out.push(node),
                None => {
                    assert(false);
                },
            }
            i = i + 1;
        }
        proof {
            assert(ids@.to_set() =~= self.raft_votes().dom());
            ids@.unique_seq_to_set();
        }
        out
    }

    pub fn get_votes_node_by_id(&self, node_id: u64) -> (r: Option<RaftNode>)
        ensures
            r.is_some() == self.raft_votes().contains_key(node_id),
            r.is_some() ==> r.unwrap() == self.raft_votes()[node_id],
    {
        vote_table_get(&self.votes, node_id)
    }

    pub fn is_raft_role_change(&self, new_role: StateRole) -> (r: bool)
        ensures
            r == (self.role() != Some(new_role)),
    {
        match self.raft_role {
            Some(role) => role != new_role,
            None => true,
        }
    }

    /// The stored role's name, or an empty string before any role is known.
    pub fn get_current_raft_role(&self) -> (r: String)
        ensures
            r@ == match self.role() {
                Some(role) => role_name(role),
                None => Seq::<char>::empty(),
            },
    {
        match self.raft_role {
            Some(role) => String::from_str(role.name()),
            None => String::new(),
        }
    }

    /// Stores the new role and, for a non-zero leader id found among the voters,
    /// that voter as the leader. Returns true when a non-zero leader id is not a voter.
    pub fn update_raft_role(&mut self, local_new_role: StateRole, leader_id: u64) -> (r: bool)
        ensures
            final(self).role() == Some(local_new_role),
            r == (leader_id > 0 && !old(self).raft_votes().contains_key(leader_id)),
            final(self).raft_leader() == if leader_id > 0 && old(self).raft_votes().contains_key(leader_id) {
                Some(old(self).raft_votes()[leader_id])
            } else {
                old(self).raft_leader()
            },
            final(self).raft_votes() == old(self).raft_votes(),
            final(self).clusters() == old(self).clusters(),
            final(self).nodes() == old(self).nodes(),
            final(self).heartbeats() == old(self).heartbeats(),
    {
        self.raft_role = Some(local_new_role);
        if leader_id > 0 {
            match self.get_votes_node_by_id(leader_id) {
                Some(leader) => {
                    self.leader = Some(leader);
                    false
                },
                None => true,
            }
        } else {
            false
        }
    }

    /// Handles a notification of the consensus layer: when the role differs from
    /// the stored one, stores it with the leader and returns the new role, which
    /// starts or stops leader-only work; the same role again changes nothing.
    pub fn on_raft_notification(&mut self, new_role: StateRole, leader_id: u64) -> (r: Option<StateRole>)
        ensures
            r == if old(self).role() != Some(new_role) {
                Some(new_role)
            } else {
                None
            },
            final(self).role() == Some(new_role),
            final(self).raft_leader() == if old(self).role() != Some(new_role) && leader_id > 0
                && old(self).raft_votes().contains_key(leader_id) {
                Some(old(self).raft_votes()[leader_id])
            } else {
                old(self).raft_leader()
            },
            final(self).raft_votes() == old(self).raft_votes(),
            final(self).clusters() == old(self).clusters(),
            final(self).nodes() == old(self).nodes(),
            final(self).heartbeats() == old(self).heartbeats(),
    {
        if self.is_raft_role_change(new_role) {
            self.update_raft_role(new_role, leader_id);
            Some(new_role)
        } else {
            None
        }
    }

    /// Fills the cache from the stored clusters and nodes, each list in order.
    pub fn load_cache(&mut self, clusters: Vec<ClusterInfo>, nodes: Vec<BrokerNode>)
        ensures
            final(self).clusters() == clusters_after(old(self).clusters(), clusters@),
            final(self).nodes() == nodes_after(old(self).nodes(), nodes@),
            final(self).heartbeats() == old(self).heartbeats(),
            final(self).raft_votes() == old(self).raft_votes(),
            final(self).role() == old(self).role(),
            final(self).raft_leader() == old(self).raft_leader(),
    {
        let ghost all_c = clusters@;
        let mut clusters = clusters;
        let ghost mut i: int = 0;
        while clusters.len() > 0
            invariant
                0 <= i <= all_c.len(),
                clusters@ == all_c.subrange(i, all_c.len() as int),
                self.clusters() == clusters_after(old(self).clusters(), all_c.subrange(0, i)),
                self.nodes() == old(self).nodes(),
                self.heartbeats() == old(self).heartbeats(),
                self.raft_votes() == old(self).raft_votes(),
                self.role() == old(self).role(),
                self.raft_leader() == old(self).raft_leader(),
            decreases clusters@.len(),
        {
            let c = clusters.remove(0);
            self.add_broker_cluster(c);
            assert(all_c.subrange(0, i + 1).drop_last() =~= all_c.subrange(0, i));
            proof { i = i + 1; }
            assert(clusters@ =~= all_c.subrange(i, all_c.len() as int));
        }
        assert(all_c.subrange(0, i) =~= all_c);
        let ghost all_n = nodes@;
        let mut nodes = nodes;
        let ghost mut i: int = 0;
        while nodes.len() > 0
            invariant
                0 <= i <= all_n.len(),
                nodes@ == all_n.subrange(i, all_n.len() as int),
                self.clusters() == clusters_after(old(self).clusters(), all_c),
                self.nodes() == nodes_after(old(self).nodes(), all_n.subrange(0, i)),
                self.heartbeats() == old(self).heartbeats(),
                self.raft_votes() == old(self).raft_votes(),
                self.role() == old(self).role(),
                self.raft_leader() == old(self).raft_leader(),
            decreases nodes@.len(),
        {
            let n = nodes.remove(0);
            self.add_broker_node(n);
            assert(all_n.subrange(0, i + 1).drop_last() =~= all_n.subrange(0, i));
            proof { i = i + 1; }
            assert(nodes@ =~= all_n.subrange(i, all_n.len() as int));
        }
        assert(all_n.subrange(0, i) =~= all_n);
    }
}

/// `m` after each cluster of `s` is added in turn.
pub open spec fn clusters_after(m: Map<Seq<char>, ClusterInfo>, s: Seq<ClusterInfo>) -> Map<
    Seq<char>,
    ClusterInfo,
>
    decreases s.len(),
{
    if s.len() == 0 {
        m
    } else {
        clusters_after(m, s.drop_last()).insert(s.last().cluster_name@, s.last())
    }
}

/// `m` after each node of `s` is added in turn.
pub open spec fn nodes_after(m: Map<(Seq<char>, u64), BrokerNode>, s: Seq<BrokerNode>) -> Map<
    (Seq<char>, u64),
    BrokerNode,
>
    decreases s.len(),
{
    if s.len() == 0 {
        m
    } else {
        nodes_after(m, s.drop_last()).insert(
            node_key(s.last().cluster_name@, s.last().node_id),
            s.last(),
        )
    }
}

/// A heartbeat taken at `time` is older than `timeout` seconds at `now`.
pub open spec fn heartbeat_expired(time: u64, now: u64, timeout: u64) -> bool {
    time < now && now - time > timeout
}

/// `after` is `before` with `node` recorded and its heartbeat taken at `now`.
pub open spec fn registered(
    before: PlacementCacheManager,
    after: PlacementCacheManager,
    node: BrokerNode,
    now: u64,
) -> bool {
    let k = node_key(node.cluster_name@, node.node_id);
    &&& after.nodes() == before.nodes().insert(k, node)
    &&& after.heartbeats() == before.heartbeats().insert(
        k,
        NodeHeartbeatData { cluster_name: node.cluster_name, node_id: node.node_id, time: now },
    )
    &&& after.clusters() == before.clusters()
    &&& after.raft_votes() == before.raft_votes()
    &&& after.role() == before.role()
    &&& after.raft_leader() == before.raft_leader()
}

/// `after` is `before` without the node and its heartbeat.
pub open spec fn unregistered(
    before: PlacementCacheManager,
    after: PlacementCacheManager,
    cluster_name: Seq<char>,
    node_id: u64,
) -> bool {
    let k = node_key(cluster_name, node_id);
    &&& after.nodes() == before.nodes().remove(k)
    &&& after.heartbeats() == before.heartbeats().remove(k)
    &&& after.clusters() == before.clusters()
    &&& after.raft_votes() == before.raft_votes()
    &&& after.role() == before.role()
    &&& after.raft_leader() == before.raft_leader()
}

/// Registering a node that was not registered and then unregistering it gives
/// back the nodes and the heartbeats as they were.
pub proof fn lemma_register_then_unregister(
    c0: PlacementCacheManager,
    c1: PlacementCacheManager,
    c2: PlacementCacheManager,
    node: BrokerNode,
    now: u64,
)
    requires
        !c0.nodes().contains_key(node_key(node.cluster_name@, node.node_id)),
        !c0.heartbeats().contains_key(node_key(node.cluster_name@, node.node_id)),
        registered(c0, c1, node, now),
        unregistered(c1, c2, node.cluster_name@, node.node_id),
    ensures
        c2.nodes() == c0.nodes(),
        c2.heartbeats() == c0.heartbeats(),
{
    let k = node_key(node.cluster_name@, node.node_id);
    assert(c2.nodes() =~= c0.nodes());
    assert(c2.heartbeats() =~= c0.heartbeats());
}

} // verus!
