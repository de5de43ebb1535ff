use robustmq::exclusive::{
    decide_record, dispatch_step, exclusive_group_id, DispatchStep, is_message_expire, min_qos, AckWaitTable, MqttMessage,
    OffsetTracker, Qos1After, Qos1Delivery, Qos1Step, Qos2Action, Qos2Delivery, Qos2Phase,
    QosAckPackageData, QosAckPackageType, RecordAction, SubscribeManager,
};
use robustmq::subscribe::{MQTTProtocol, QoS, Subscriber};

fn subscriber(client: &str, nolocal: bool, preserve_retain: bool) -> Subscriber {
    Subscriber {
        protocol: MQTTProtocol::MQTT5,
        client_id: client.to_string(),
        sub_path: "/t/#".to_string(),
        topic_id: "tid".to_string(),
        topic_name: "/t/x".to_string(),
        packet_identifier: 1,
        qos: QoS::ExactlyOnce,
        nolocal,
        preserve_retain,
        subscription_identifier: Some(3),
    }
}

fn message(client: &str, retain: bool, expiry: u64) -> MqttMessage {
    MqttMessage {
        client_id: client.to_string(),
        retain,
        payload: b"hello".to_vec(),
        format_indicator: Some(1),
        expiry_interval: expiry,
        response_topic: Some("/reply".to_string()),
        correlation_data: None,
        user_properties: vec![("k".to_string(), "v".to_string())],
        content_type: None,
    }
}

#[test]
fn qos_is_the_lower_one() {
    assert_eq!(min_qos(QoS::AtLeastOnce, QoS::ExactlyOnce), QoS::AtLeastOnce);
    assert_eq!(min_qos(QoS::ExactlyOnce, QoS::AtMostOnce), QoS::AtMostOnce);
    assert_eq!(min_qos(QoS::ExactlyOnce, QoS::ExactlyOnce), QoS::ExactlyOnce);
}

#[test]
fn group_id_layout() {
    assert_eq!(
        exclusive_group_id(&"c1".to_string(), &"/a/+".to_string(), &"t9".to_string()),
        "system_sub_c1_/a/+_t9"
    );
}

#[test]
fn expired_message_is_dropped() {
    let sub = subscriber("me", false, true);
    let msg = message("other", true, 99);
    assert!(is_message_expire(&msg, 100));
    assert!(matches!(decide_record(&sub, Some(msg), 100, QoS::AtLeastOnce, &vec![3]), RecordAction::Skip));
    // and its offset is committed past
    let mut t = OffsetTracker::new();
    assert!(t.commit(7));
    assert!(!is_message_expire(&message("other", true, 100), 100));
}

#[test]
fn undecodable_and_local_messages_are_dropped() {
    let sub = subscriber("me", true, true);
    assert!(matches!(decide_record(&sub, None, 1, QoS::AtMostOnce, &vec![]), RecordAction::Skip));
    let own = message("me", false, 1000);
    assert!(matches!(decide_record(&sub, Some(own), 1, QoS::AtMostOnce, &vec![]), RecordAction::Skip));
    let sub2 = subscriber("me", false, true);
    let own = message("me", false, 1000);
    assert!(matches!(decide_record(&sub2, Some(own), 1, QoS::AtMostOnce, &vec![]), RecordAction::Deliver(_, _)));
}

#[test]
fn delivered_packet_is_built_from_the_message() {
    let sub = subscriber("me", false, false);
    match decide_record(&sub, Some(message("other", true, 500)), 10, QoS::AtLeastOnce, &vec![3]) {
        RecordAction::Deliver(p, props) => {
            assert!(!p.dup);
            assert_eq!(p.qos, QoS::AtLeastOnce);
            assert_eq!(p.pkid, 0);
            assert!(!p.retain);
            assert_eq!(p.topic, "/t/x");
            assert_eq!(p.payload, b"hello".to_vec());
            assert_eq!(props.message_expiry_interval, Some(500));
            assert_eq!(props.subscription_identifiers, vec![3]);
            assert_eq!(props.response_topic, Some("/reply".to_string()));
            assert_eq!(props.user_properties, vec![("k".to_string(), "v".to_string())]);
            assert_eq!(props.payload_format_indicator, Some(1));
            assert!(props.topic_alias.is_none());
        }
        RecordAction::Skip => panic!("expected delivery"),
    }
    let keep = subscriber("me", false, true);
    match decide_record(&keep, Some(message("other", true, 500)), 10, QoS::AtMostOnce, &vec![]) {
        RecordAction::Deliver(p, _) => assert!(p.retain),
        RecordAction::Skip => panic!("expected delivery"),
    }
}

#[test]
fn committed_offsets_only_increase() {
    let mut t = OffsetTracker::new();
    assert!(t.commit(5));
    assert!(t.commit(6));
    assert!(!t.commit(6));
    assert!(!t.commit(2));
    assert!(t.commit(10));
}

#[test]
fn qos1_happy_path() {
    let mut table = AckWaitTable::new();
    let client = "c1".to_string();
    // the ack-wait entry is registered before the send
    let mut pkid = table.begin_inflight(&client, 1).unwrap();
    while pkid != 42 {
        pkid = table.begin_inflight(&client, 1).unwrap();
    }
    assert!(table.contains(&client, 42));
    let mut d = Qos1Delivery::new(42);
    let step = d.begin_attempt(false, Some(7), Some(1024), 5, true);
    assert_eq!(step, Qos1Step::Send { dup: false, with_properties: true });
    let ack = QosAckPackageData { ack_type: QosAckPackageType::PubAck, pkid: 42 };
    assert_eq!(d.after_send(true, Some(ack)), Qos1After::Acked);
    table.remove_ack_packet(&client, 42);
    assert!(!table.contains(&client, 42));
}

#[test]
fn qos1_retries_set_dup_and_respect_limits() {
    let mut d = Qos1Delivery::new(3);
    assert_eq!(d.begin_attempt(true, Some(1), None, 5, false), Qos1Step::Stop);
    assert_eq!(d.begin_attempt(false, None, None, 5, false), Qos1Step::WaitConnection);
    assert_eq!(d.begin_attempt(false, Some(1), Some(4), 5, false), Qos1Step::Drop);
    assert_eq!(
        d.begin_attempt(false, Some(1), None, 5, false),
        Qos1Step::Send { dup: false, with_properties: false }
    );
    assert_eq!(d.after_send(false, None), Qos1After::RetryAfterSleep);
    assert_eq!(
        d.begin_attempt(false, Some(1), None, 5, false),
        Qos1Step::Send { dup: true, with_properties: false }
    );
    let wrong = QosAckPackageData { ack_type: QosAckPackageType::PubAck, pkid: 4 };
    assert_eq!(d.after_send(true, Some(wrong)), Qos1After::Resend);
    assert_eq!(d.after_send(true, None), Qos1After::Resend);
}

#[test]
fn qos2_protocol() {
    let mut d = Qos2Delivery::new(7);
    assert_eq!(d.current_phase(), Qos2Phase::WaitPubRec);
    let rec = QosAckPackageData { ack_type: QosAckPackageType::PubRec, pkid: 7 };
    assert_eq!(d.on_wait(false, Some(rec)), Qos2Action::SendPubRel);
    assert_eq!(d.current_phase(), Qos2Phase::WaitPubComp);
    assert_eq!(d.on_wait(false, None), Qos2Action::ResendPubRel);
    assert_eq!(d.on_wait(false, None), Qos2Action::ResendPubRel);
    let comp = QosAckPackageData { ack_type: QosAckPackageType::PubComp, pkid: 7 };
    assert_eq!(d.on_wait(false, Some(comp)), Qos2Action::Finish);
    assert_eq!(d.current_phase(), Qos2Phase::Done);
}

#[test]
fn qos2_timeouts_and_stop() {
    let mut d = Qos2Delivery::new(8);
    assert_eq!(d.on_wait(false, None), Qos2Action::ResendPublish);
    let other = QosAckPackageData { ack_type: QosAckPackageType::PubRec, pkid: 9 };
    assert_eq!(d.on_wait(false, Some(other)), Qos2Action::Wait);
    assert_eq!(d.on_wait(true, None), Qos2Action::Finish);
    assert_eq!(d.current_phase(), Qos2Phase::Done);
}

#[test]
fn ack_wait_entries_are_unique_per_client() {
    let mut t = AckWaitTable::new();
    let a = "a".to_string();
    let b = "b".to_string();
    assert_eq!(t.begin_inflight(&a, 1), Some(1));
    assert_eq!(t.begin_inflight(&a, 1), Some(2));
    assert_eq!(t.begin_inflight(&b, 1), Some(1));
    t.remove_ack_packet(&a, 1);
    assert_eq!(t.begin_inflight(&a, 2), Some(1));
    t.remove_client(&a);
    assert!(!t.contains(&a, 1));
    assert!(!t.contains(&a, 2));
    assert!(t.contains(&b, 1));
}

#[test]
fn push_threads_follow_subscriptions() {
    let mut m: SubscribeManager<u32> = SubscribeManager::new();
    m.add_exclusive_subscribe("k1".to_string(), subscriber("c1", false, false));
    m.add_exclusive_subscribe("k2".to_string(), subscriber("c2", false, false));
    m.add_push_thread("k0".to_string(), 0);
    m.add_push_thread("k1".to_string(), 1);
    let mut start = m.start_push_thread();
    start.sort();
    assert_eq!(start, vec!["k2".to_string()]);
    for k in start {
        m.add_push_thread(k, 2);
    }
    let stop = m.try_thread_gc();
    assert_eq!(stop, vec!["k0".to_string()]);
    for k in &stop {
        assert_eq!(m.remove_push_thread(k), Some(0));
    }
    assert!(m.start_push_thread().is_empty());
    assert!(m.try_thread_gc().is_empty());
    m.remove_exclusive_subscribe(&"k1".to_string());
    assert_eq!(m.try_thread_gc(), vec!["k1".to_string()]);
    assert_eq!(m.get_subscriber(&"k2".to_string()).unwrap().client_id, "c2");
}

#[test]
fn dispatch_by_qos() {
    assert_eq!(dispatch_step(QoS::AtMostOnce, true, None), DispatchStep::SendOnce);
    assert_eq!(dispatch_step(QoS::AtLeastOnce, false, None), DispatchStep::WaitPacketId);
    assert_eq!(dispatch_step(QoS::AtLeastOnce, false, Some(4)), DispatchStep::Deliver1(4));
    assert_eq!(dispatch_step(QoS::ExactlyOnce, false, Some(4)), DispatchStep::Deliver2(4));
    assert_eq!(dispatch_step(QoS::ExactlyOnce, true, Some(4)), DispatchStep::Abandon(Some(4)));
    let mut t = AckWaitTable::new();
    let c = "c".to_string();
    let p = t.begin_inflight(&c, 1).unwrap();
    t.finish_delivery(&c, p, false);
    assert!(t.contains(&c, p));
    t.finish_delivery(&c, p, true);
    assert!(!t.contains(&c, p));
}
