use robustmq::journal_cache::{
    BrokerNode, CacheEntity, CacheManager, JournalSegment, JournalShard,
    JournalUpdateCacheActionType, JournalUpdateCacheResourceType,
};
use robustmq::journal_client::{after_send, send_step, JournalClientError, SendAfter, SendStep};
use robustmq::metadata::{available_flag, Available, AvailableFlag};
use robustmq::placement_cache::{ClusterInfo, PlacementCacheManager, RaftNode, StateRole};
use robustmq::segment::{decimal, key_segment, SegmentInfo, SegmentStatus, SegmentStorage};

fn node(cluster: &str, id: u64, addr: &str) -> BrokerNode {
    BrokerNode {
        cluster_name: cluster.to_string(),
        node_id: id,
        node_ip: "127.0.0.1".to_string(),
        node_inner_addr: addr.to_string(),
        extend: String::new(),
        create_time: 1,
    }
}

fn shard(ns: &str, name: &str, active: u32) -> JournalShard {
    JournalShard {
        namespace: ns.to_string(),
        shard_name: name.to_string(),
        replica_num: 1,
        active_segment_seq: active,
        last_segment_seq: active,
        create_time: 1,
    }
}

fn segment(ns: &str, name: &str, seq: u32, status: SegmentStatus) -> JournalSegment {
    JournalSegment {
        namespace: ns.to_string(),
        shard_name: name.to_string(),
        segment_seq: seq,
        replicas: Vec::new(),
        leader: 1,
        status,
    }
}

#[test]
fn active_segment_follows_shard_and_seal() {
    let mut c = CacheManager::new();
    let ns = "ns".to_string();
    let sh = "s1".to_string();
    assert!(c.get_active_segment(&ns, &sh).is_none());
    c.add_shard(shard("ns", "s1", 1));
    assert!(c.shard_exists(&ns, &sh));
    assert!(c.get_active_segment(&ns, &sh).is_none());
    c.add_segment(segment("ns", "s1", 0, SegmentStatus::SealUp));
    c.add_segment(segment("ns", "s1", 1, SegmentStatus::Write));
    assert_eq!(c.get_active_segment(&ns, &sh).unwrap().segment_seq, 1);
    c.add_segment(segment("ns", "s1", 1, SegmentStatus::SealUp));
    assert!(c.get_active_segment(&ns, &sh).is_none());
    assert!(c.get_segment(&ns, &sh, 0).is_some());
    c.delete_segment(&segment("ns", "s1", 0, SegmentStatus::SealUp));
    assert!(c.get_segment(&ns, &sh, 0).is_none());
}

#[test]
fn create_then_delete_shard_leaves_nothing() {
    let mut c = CacheManager::new();
    let ns = "ns".to_string();
    let sh = "orders".to_string();
    c.update_cache(
        JournalUpdateCacheActionType::Add,
        JournalUpdateCacheResourceType::Shard,
        Some(CacheEntity::Shard(shard("ns", "orders", 0))),
    );
    c.update_cache(
        JournalUpdateCacheActionType::Add,
        JournalUpdateCacheResourceType::Segment,
        Some(CacheEntity::Segment(segment("ns", "orders", 0, SegmentStatus::Write))),
    );
    assert!(c.get_active_segment(&ns, &sh).is_some());
    let cleanup = c.update_cache(
        JournalUpdateCacheActionType::Delete,
        JournalUpdateCacheResourceType::Shard,
        Some(CacheEntity::Shard(shard("ns", "orders", 0))),
    );
    assert_eq!(cleanup, Some(("ns".to_string(), "orders".to_string())));
    assert!(!c.shard_exists(&ns, &sh));
    assert!(c.get_segment(&ns, &sh, 0).is_none());
    // deleting again changes nothing
    c.delete_shard(&ns, &sh);
    assert!(!c.shard_exists(&ns, &sh));
    assert!(c.get_segment(&ns, &sh, 0).is_none());
}

#[test]
fn undecodable_payload_changes_nothing() {
    let mut c = CacheManager::new();
    c.add_node(node("c", 3, "n3"));
    let r = c.update_cache(
        JournalUpdateCacheActionType::Delete,
        JournalUpdateCacheResourceType::JournalNode,
        None,
    );
    assert!(r.is_none());
    assert!(c.get_node(3).is_some());
    // a payload of another kind than the resource is not applied either
    c.update_cache(
        JournalUpdateCacheActionType::Delete,
        JournalUpdateCacheResourceType::JournalNode,
        Some(CacheEntity::Shard(shard("a", "b", 0))),
    );
    assert!(c.get_node(3).is_some());
    c.update_cache(
        JournalUpdateCacheActionType::Delete,
        JournalUpdateCacheResourceType::JournalNode,
        Some(CacheEntity::JournalNode(node("c", 3, "n3"))),
    );
    assert!(c.get_node(3).is_none());
}

#[test]
fn load_cache_fills_all_maps() {
    let mut c = CacheManager::new();
    c.init_cluster();
    let _ = c.get_cluster();
    c.load_cache(
        vec![node("c", 1, "a"), node("c", 2, "b")],
        vec![shard("n", "s", 0)],
        vec![segment("n", "s", 0, SegmentStatus::Write)],
    );
    assert!(c.get_node(1).is_some() && c.get_node(2).is_some());
    assert!(c.get_shard(&"n".to_string(), &"s".to_string()).is_some());
    assert!(c.get_active_segment(&"n".to_string(), &"s".to_string()).is_some());
}

#[test]
fn journal_send_decisions() {
    let mut c = CacheManager::new();
    let ns = "n".to_string();
    let sh = "s".to_string();
    assert!(matches!(send_step(&c, &ns, &sh), SendStep::ReloadShard));
    c.add_shard(shard("n", "s", 0));
    c.add_segment(segment("n", "s", 0, SegmentStatus::Write));
    match send_step(&c, &ns, &sh) {
        SendStep::Write(seg) => assert_eq!(seg.segment_seq, 0),
        SendStep::ReloadShard => panic!("expected a segment"),
    }
    assert_eq!(after_send(&Ok(())), SendAfter::Done);
    assert_eq!(
        after_send(&Err(JournalClientError::NotActiveSegmentLeader("n_s".to_string()))),
        SendAfter::RetryAfterSleep
    );
    assert_eq!(after_send(&Err(JournalClientError::Other("boom".to_string()))), SendAfter::Fail);
}

#[test]
fn register_then_unregister_restores_node_list() {
    let mut pc = PlacementCacheManager::new();
    let cluster = "c1".to_string();
    pc.add_broker_node(node("c1", 1, "10.0.0.1:9981"));
    assert_eq!(pc.get_broker_num(&cluster), 1);
    pc.register_node(node("c1", 2, "10.0.0.2:9981"), 1000);
    assert_eq!(pc.get_broker_num(&cluster), 2);
    assert_eq!(pc.get_broker_heart(&cluster, 2).unwrap().time, 1000);
    let mut ids = pc.get_broker_node_id_by_cluster(&cluster);
    ids.sort();
    assert_eq!(ids, vec![1, 2]);
    let mut addrs = pc.get_broker_node_addr_by_cluster(&cluster);
    addrs.sort();
    assert_eq!(addrs, vec!["10.0.0.1:9981".to_string(), "10.0.0.2:9981".to_string()]);
    pc.unregister_node(&cluster, 2);
    assert_eq!(pc.get_broker_num(&cluster), 1);
    assert!(pc.get_broker_node(&cluster, 2).is_none());
    assert!(pc.get_broker_heart(&cluster, 2).is_none());
    assert!(pc.get_broker_node(&cluster, 1).is_some());
    assert!(pc.remove_broker_node(&cluster, 1).is_some());
    assert_eq!(pc.get_broker_num(&cluster), 0);
}

#[test]
fn expired_heartbeats_are_listed() {
    let mut pc = PlacementCacheManager::new();
    let c = "c".to_string();
    pc.report_broker_heart(&c, 1, 100);
    pc.report_broker_heart(&c, 2, 150);
    pc.report_broker_heart(&c, 3, 200);
    let expired = pc.expired_heartbeats(170, 30);
    assert_eq!(expired, vec![("c".to_string(), 1)]);
    assert!(pc.expired_heartbeats(130, 30).is_empty());
    pc.remove_broker_heart(&c, 1);
    assert!(pc.expired_heartbeats(170, 30).is_empty());
}

#[test]
fn raft_role_transitions() {
    let mut pc = PlacementCacheManager::new();
    pc.add_broker_cluster(ClusterInfo {
        cluster_name: "c".to_string(),
        cluster_type: "mqtt".to_string(),
        create_time: 0,
    });
    assert_eq!(pc.get_current_raft_role(), "");
    pc.add_raft_member(RaftNode { node_id: 1, node_addr: "127.0.0.1:1228".to_string() });
    pc.add_raft_member(RaftNode { node_id: 2, node_addr: "127.0.0.1:2228".to_string() });
    assert_eq!(pc.get_raft_votes().len(), 2);
    assert!(pc.is_raft_role_change(StateRole::Leader));
    assert_eq!(pc.on_raft_notification(StateRole::Leader, 1), Some(StateRole::Leader));
    assert_eq!(pc.get_current_raft_role(), "Leader");
    assert!(!pc.is_raft_role_change(StateRole::Leader));
    assert_eq!(pc.on_raft_notification(StateRole::Leader, 1), None);
    assert!(pc.update_raft_role(StateRole::Follower, 9));
    assert!(!pc.update_raft_role(StateRole::Follower, 2));
    assert_eq!(pc.get_votes_node_by_id(2).unwrap().node_addr, "127.0.0.1:2228");
    pc.remove_raft_member(2);
    assert!(pc.get_votes_node_by_id(2).is_none());
}

#[test]
fn segment_storage_round_trip() {
    let mut st = SegmentStorage::new();
    let cluster = "c".to_string();
    let shard_name = "s".to_string();
    st.save_segment(SegmentInfo {
        cluster_name: cluster.clone(),
        shard_name: shard_name.clone(),
        segment_seq: 4,
        replicas: Vec::new(),
        replica_leader: 1,
        status: SegmentStatus::Idle,
    });
    assert_eq!(st.get_segment(&cluster, &shard_name, 4).unwrap().status, SegmentStatus::Idle);
    assert!(st.get_segment(&cluster, &shard_name, 5).is_none());
    assert!(st.update_segment_status(&cluster, &shard_name, 4, SegmentStatus::Write));
    assert!(st.update_segment_status(&cluster, &shard_name, 4, SegmentStatus::SealUp));
    // never back
    assert!(!st.update_segment_status(&cluster, &shard_name, 4, SegmentStatus::Write));
    assert_eq!(st.get_segment(&cluster, &shard_name, 4).unwrap().status, SegmentStatus::SealUp);
    assert!(!st.update_segment_status(&cluster, &shard_name, 9, SegmentStatus::Write));
    st.delete_segment(&cluster, &shard_name, 4);
    assert!(st.get_segment(&cluster, &shard_name, 4).is_none());
}

#[test]
fn status_order() {
    assert!(SegmentStatus::Idle.can_transition_to(SegmentStatus::Write));
    assert!(SegmentStatus::Write.can_transition_to(SegmentStatus::Write));
    assert!(!SegmentStatus::PrepareSealUp.can_transition_to(SegmentStatus::Idle));
    assert_eq!(SegmentStatus::SealUp.index(), 3);
}

#[test]
fn available_flags() {
    assert_eq!(u8::from(AvailableFlag::Enable), 1);
    assert_eq!(u8::from(AvailableFlag::Disable), 0);
    assert_eq!(AvailableFlag::default(), AvailableFlag::Disable);
    assert_eq!(available_flag(Available::Enable), AvailableFlag::Enable);
    assert_eq!(available_flag(Available::Disable), AvailableFlag::Disable);
}

#[test]
fn re_added_segment_never_reopens() {
    let mut c = CacheManager::new();
    let ns = "ns".to_string();
    let sh = "s".to_string();
    c.add_shard(shard("ns", "s", 0));
    c.add_segment(segment("ns", "s", 0, SegmentStatus::SealUp));
    c.add_segment(segment("ns", "s", 0, SegmentStatus::Idle));
    assert_eq!(c.get_segment(&ns, &sh, 0).unwrap().status, SegmentStatus::SealUp);
    assert!(c.get_active_segment(&ns, &sh).is_none());
    c.add_segment(segment("ns", "s", 1, SegmentStatus::Write));
    c.add_segment(segment("ns", "s", 1, SegmentStatus::PrepareSealUp));
    assert_eq!(c.get_segment(&ns, &sh, 1).unwrap().status, SegmentStatus::PrepareSealUp);
}

#[test]
fn saved_segment_never_reopens() {
    let mut st = SegmentStorage::new();
    let c = "c".to_string();
    let s = "s".to_string();
    let info = |status| SegmentInfo {
        cluster_name: "c".to_string(),
        shard_name: "s".to_string(),
        segment_seq: 2,
        replicas: Vec::new(),
        replica_leader: 7,
        status,
    };
    st.save_segment(info(SegmentStatus::SealUp));
    st.save_segment(info(SegmentStatus::Idle));
    assert_eq!(st.get_segment(&c, &s, 2).unwrap().status, SegmentStatus::SealUp);
    assert_eq!(st.get_segment(&c, &s, 2).unwrap().replica_leader, 7);
}

#[test]
fn segment_store_key_layout() {
    assert_eq!(key_segment(&"c1".to_string(), &"orders".to_string(), 0), "segment_c1_orders_0");
    assert_eq!(key_segment(&"c".to_string(), &"s".to_string(), 12045), "segment_c_s_12045");
    assert_eq!(decimal(u64::MAX), u64::MAX.to_string());
}

#[test]
fn removed_node_comes_back_with_its_id() {
    let mut pc = PlacementCacheManager::new();
    let cluster = "c".to_string();
    pc.add_broker_node(node("c", 5, "a"));
    let (id, n) = pc.remove_broker_node(&cluster, 5).unwrap();
    assert_eq!(id, 5);
    assert_eq!(n.node_inner_addr, "a");
    assert!(pc.remove_broker_node(&cluster, 5).is_none());
    assert!(pc.get_broker_node_id_by_cluster(&cluster).len() <= pc.get_broker_num(&cluster));
}
