use robustmq::subscribe::{
    Filter, MQTTProtocol, MetadataCacheManager, QoS, RetainForwardRule, SubScribeManager,
    Subscribe, SubscribeProperties, Topic,
};
use robustmq::topic_match::path_regex_match;

fn one_filter_subscribe(path: &str, packet_identifier: u16) -> Subscribe {
    let mut filters = Vec::new();
    let filter = Filter {
        path: path.to_string(),
        qos: QoS::AtLeastOnce,
        nolocal: true,
        preserve_retain: true,
        retain_forward_rule: RetainForwardRule::Never,
    };
    filters.push(filter);
    Subscribe { packet_identifier, filters }
}

#[test]
fn parse_subscribe() {
    let mut metadata_cache = MetadataCacheManager::new("test-cluster".to_string());
    let topic_name = "/test/topic".to_string();
    let topic = Topic::new(&topic_name);
    metadata_cache.set_topic(&topic_name, &topic);
    let mut sub_manager = SubScribeManager::new(metadata_cache);
    let client_id = "test-111".to_string();
    let packet_identifier = 2;
    let subscribe = one_filter_subscribe("/test/topic", packet_identifier);
    sub_manager.parse_subscribe(MQTTProtocol::MQTT5, client_id.clone(), &subscribe, None, 100);
    assert!(sub_manager.topic_subscribe_len() == 1);
    assert!(sub_manager.topic_subscribe_contains(&topic.topic_id));
    let sub = sub_manager.get_subscriber(&topic.topic_id, &client_id);
    assert!(sub.is_some());
    let sub = sub.unwrap();
    assert!(sub.qos == QoS::AtLeastOnce);
}

#[test]
fn remove_subscribe() {
    let mut metadata_cache = MetadataCacheManager::new("test-cluster".to_string());
    let topic_name = "/test/topic".to_string();
    let client_id = "test-111".to_string();
    let topic = Topic::new(&topic_name);
    metadata_cache.set_topic(&topic_name, &topic);

    let mut sub_manager = SubScribeManager::new(metadata_cache);
    let packet_identifier = 2;
    let subscribe = one_filter_subscribe("/test/topic", packet_identifier);
    sub_manager.parse_subscribe(MQTTProtocol::MQTT5, client_id.clone(), &subscribe, None, 100);
    assert!(sub_manager.topic_subscribe_len() == 1);
    assert!(sub_manager.topic_subscribe_contains(&topic.topic_id));

    sub_manager.remove_connect_subscribe(&client_id);
    assert!(sub_manager.topic_subscribe_len() == 1);
    assert!(sub_manager.topic_subscriber_count(&topic.topic_id).unwrap() == 0);

    sub_manager.parse_subscribe(MQTTProtocol::MQTT5, client_id.clone(), &subscribe, None, 101);
    assert!(sub_manager.topic_subscriber_count(&topic.topic_id).unwrap() == 1);
    let topic_ids = vec![topic.topic_id.clone()];
    sub_manager.remove_subscribe(&client_id, &topic_ids);
    assert!(sub_manager.topic_subscriber_count(&topic.topic_id).unwrap() == 0);
}

#[test]
fn subscriber_carries_filter_options() {
    let mut metadata_cache = MetadataCacheManager::new("c".to_string());
    let t1 = "/a/b".to_string();
    let t2 = "/a/c/d".to_string();
    metadata_cache.set_topic(&t1, &Topic::new(&t1));
    metadata_cache.set_topic(&t2, &Topic::new(&t2));
    let mut m = SubScribeManager::new(metadata_cache);
    let subscribe = Subscribe {
        packet_identifier: 9,
        filters: vec![Filter {
            path: "/a/+".to_string(),
            qos: QoS::ExactlyOnce,
            nolocal: false,
            preserve_retain: true,
            retain_forward_rule: RetainForwardRule::OnEverySubscribe,
        }],
    };
    let props = SubscribeProperties { subscription_identifier: Some(7) };
    m.parse_subscribe(MQTTProtocol::MQTT5, "c1".to_string(), &subscribe, Some(props), 55);
    // every known topic gets an index; only the matching one a subscriber
    assert_eq!(m.topic_subscribe_len(), 2);
    let s = m.get_subscriber(&t1, &"c1".to_string()).unwrap();
    assert_eq!(s.qos, QoS::ExactlyOnce);
    assert_eq!(s.subscription_identifier, Some(7));
    assert_eq!(s.sub_path, "/a/+");
    assert_eq!(s.topic_name, "/a/b");
    assert_eq!(s.packet_identifier, 9);
    assert!(!s.nolocal);
    assert!(s.preserve_retain);
    assert!(m.get_subscriber(&t2, &"c1".to_string()).is_none());
    assert_eq!(m.get_subscribe_time(&"c1".to_string(), &t1), Some(55));
    assert_eq!(m.get_subscribe_time(&"c1".to_string(), &t2), None);
    m.remove_topic(&t1);
    assert_eq!(m.topic_subscribe_len(), 1);
}

#[test]
fn last_matching_filter_wins() {
    let mut metadata_cache = MetadataCacheManager::new("c".to_string());
    let t = "/x/y".to_string();
    metadata_cache.set_topic(&t, &Topic::new(&t));
    let mut m = SubScribeManager::new(metadata_cache);
    let mk = |path: &str, qos: QoS| Filter {
        path: path.to_string(),
        qos,
        nolocal: false,
        preserve_retain: false,
        retain_forward_rule: RetainForwardRule::Never,
    };
    let subscribe = Subscribe {
        packet_identifier: 1,
        filters: vec![mk("/x/#", QoS::AtMostOnce), mk("/x/y", QoS::AtLeastOnce), mk("/z", QoS::ExactlyOnce)],
    };
    m.parse_subscribe(MQTTProtocol::MQTT4, "c".to_string(), &subscribe, None, 1);
    assert_eq!(m.get_subscriber(&t, &"c".to_string()).unwrap().qos, QoS::AtLeastOnce);
}

#[test]
fn wildcard_matching() {
    assert!(path_regex_match("/test/topic", "/test/topic"));
    assert!(path_regex_match("/a/b", "/a/+"));
    assert!(!path_regex_match("/a/b/c", "/a/+"));
    assert!(path_regex_match("/a/b/c", "/a/#"));
    assert!(path_regex_match("/a", "/a/#"));
    assert!(path_regex_match("/a/b/c", "/+/b/+"));
    assert!(!path_regex_match("/a/b", "/a/c"));
    assert!(path_regex_match("anything/at/all", "#"));
    assert!(!path_regex_match("/a/bc", "/a/b"));
}
