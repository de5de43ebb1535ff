use robustmq::routing::{
    calc_addr, check_leader, get_forward_addr, is_has_to_forward, is_write_request,
    on_call_error, ClientPool, PlacementCenterInterface, PlacementCenterService,
};

#[test]
fn get_forward_addr_test() {
    let err = r#"
        Grpc call of the node failed,Grpc status was status: Cancelled, message: "has to forward request to: Some(2), Some(Node { node_id: 2, rpc_addr: \"127.0.0.1:2228\" })", details: [], metadata: MetadataMap { headers: {"content-type": "application/grpc", "date": "Sun, 06 Oct 2024 10:25:36 GMT", "content-length": "0"} }
        "#;
    let res = get_forward_addr(err);
    assert_eq!("127.0.0.1:2228".to_string(), res.unwrap());
}

#[test]
fn forward_addr_absent_without_tag() {
    assert_eq!(get_forward_addr("connection refused"), None);
    assert_eq!(get_forward_addr("rpc_addr: }"), None);
}

#[test]
fn forward_addr_stops_at_brace_and_strips() {
    assert_eq!(get_forward_addr("x rpc_addr: \"a b\" } rest").unwrap(), "ab");
    assert_eq!(get_forward_addr("rpc_addr: 10.0.0.1:9000").unwrap(), "10.0.0.1:9000");
}

#[test]
fn forward_marker_detection() {
    assert!(is_has_to_forward("status: has to forward request to: Some(3)"));
    assert!(!is_has_to_forward("has to forward"));
    assert!(!is_has_to_forward(""));
}

#[test]
fn inner_function_names() {
    assert_eq!(PlacementCenterInterface::CreateUser.get_inner_function_name(), "inner_create_user");
    assert_eq!(PlacementCenterInterface::KvSet.get_inner_function_name(), "inner_set");
    assert_eq!(
        PlacementCenterInterface::UnRegisterNode.get_inner_function_name(),
        "inner_un_register_node"
    );
    assert_eq!(PlacementCenterInterface::Vote.get_inner_function_name(), "inner_vote");
}

#[test]
fn forward_set_membership() {
    assert!(PlacementCenterInterface::CreateUser.should_forward_to_leader());
    assert!(PlacementCenterInterface::UpdateSession.should_forward_to_leader());
    assert!(PlacementCenterInterface::DeleteBlackList.should_forward_to_leader());
    assert!(!PlacementCenterInterface::ListUser.should_forward_to_leader());
    assert!(!PlacementCenterInterface::CreateShard.should_forward_to_leader());
    assert!(is_write_request(&PlacementCenterService::Mqtt, &PlacementCenterInterface::CreateTopic));
    assert!(!is_write_request(&PlacementCenterService::Kv, &PlacementCenterInterface::Get));
}

#[test]
fn calc_addr_rotates_over_addresses() {
    let pool = ClientPool::new();
    let addrs = vec!["a:1".to_string(), "b:2".to_string(), "c:3".to_string()];
    let (addr, times) = calc_addr(
        &pool,
        &addrs,
        1,
        &PlacementCenterService::Mqtt,
        &PlacementCenterInterface::CreateUser,
    );
    assert_eq!(addr, "b:2");
    assert_eq!(times, 2);
    let (addr, times) = calc_addr(
        &pool,
        &addrs,
        3,
        &PlacementCenterService::Mqtt,
        &PlacementCenterInterface::ListUser,
    );
    assert_eq!(addr, "a:1");
    assert_eq!(times, 4);
}

#[test]
fn leader_cache_update_redirects_writes() {
    let mut pool = ClientPool::new();
    let addrs = vec!["10.0.0.1:1228".to_string()];
    let service = PlacementCenterService::Mqtt;
    let interface = PlacementCenterInterface::CreateUser;
    let (addr, times) = calc_addr(&pool, &addrs, 1, &service, &interface);
    assert_eq!(addr, "10.0.0.1:1228");
    let err = "status: Cancelled, message: \"has to forward request to: Some(2), Some(Node { node_id: 2, rpc_addr: \\\"10.0.0.2:1228\\\" })\"";
    let decision = on_call_error(&mut pool, &service, &interface, &addr, err, times, 3);
    assert!(!decision.sleep);
    assert!(!decision.give_up);
    let (addr, _) = calc_addr(&pool, &addrs, times, &service, &interface);
    assert_eq!(addr, "10.0.0.2:1228");
    // a read interface is not redirected
    let (addr, _) = calc_addr(&pool, &addrs, times, &service, &PlacementCenterInterface::ListUser);
    assert_eq!(addr, "10.0.0.1:1228");
    assert_eq!(
        pool.get_leader_addr(&service, &interface, &"10.0.0.1:1228".to_string()),
        Some("10.0.0.2:1228".to_string())
    );
}

#[test]
fn other_errors_back_off_and_give_up() {
    let mut pool = ClientPool::new();
    let service = PlacementCenterService::Journal;
    let interface = PlacementCenterInterface::CreateShard;
    let addr = "a:1".to_string();
    let d = on_call_error(&mut pool, &service, &interface, &addr, "transport error", 2, 3);
    assert!(d.sleep);
    assert!(!d.give_up);
    let d = on_call_error(&mut pool, &service, &interface, &addr, "transport error", 4, 3);
    assert!(d.sleep);
    assert!(d.give_up);
    assert_eq!(pool.get_leader_addr(&service, &interface, &addr), None);
}

#[test]
fn non_leader_answer_names_the_leader() {
    let leader = "192.168.1.7:1228".to_string();
    assert!(check_leader(&PlacementCenterInterface::CreateUser, true, &leader).is_ok());
    assert!(check_leader(&PlacementCenterInterface::ListUser, false, &leader).is_ok());
    let err = check_leader(&PlacementCenterInterface::CreateUser, false, &leader).unwrap_err();
    assert!(is_has_to_forward(&err));
    assert_eq!(get_forward_addr(&err), Some(leader));
}
