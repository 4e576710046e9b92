use rustdds::discovery_data::{
    DiscoveredReaderData, DiscoveredTopicData, DiscoveredWriterData, PublicationBuiltinTopicData,
    ReaderProxy, SPDPDiscoveredParticipantData, SubscriptionBuiltinTopicData, TopicBuiltinTopicData,
    WriterProxy,
};
use rustdds::discovery_db::DiscoveryDB;
use rustdds::guid::{Duration, Locator, GUID};
use rustdds::qos::{Durability, QosPolicies, ReliabilityKind};
use rustdds::topic::{Topic, TopicKind};

fn guid(prefix: u128, entity_id: u32) -> GUID {
    GUID { prefix, entity_id }
}

fn participant(g: GUID, lease_secs: u32) -> SPDPDiscoveredParticipantData {
    SPDPDiscoveredParticipantData {
        participant_guid: Some(g),
        updated_time: 0,
        lease_duration: Some(Duration::from_secs(lease_secs)),
        available_builtin_endpoints: 0,
        metatraffic_unicast_locators: vec![Locator { kind: 1, port: 7410, address: 0x7f000001 }],
        metatraffic_multicast_locators: vec![],
        default_unicast_locators: vec![],
        default_multicast_locators: vec![],
    }
}

fn reader_data(g: GUID, topic: &str, data_type: &str) -> DiscoveredReaderData {
    DiscoveredReaderData {
        reader_proxy: ReaderProxy::new(g),
        subscription_topic_data: SubscriptionBuiltinTopicData::new(
            g,
            guid(g.prefix, 0x1c1),
            &topic.to_string(),
            &data_type.to_string(),
        ),
    }
}

fn writer_data(g: GUID, topic: &str, data_type: &str) -> DiscoveredWriterData {
    DiscoveredWriterData {
        writer_proxy: WriterProxy::new(g),
        publication_topic_data: PublicationBuiltinTopicData::new(
            g,
            guid(g.prefix, 0x1c1),
            &topic.to_string(),
            &data_type.to_string(),
        ),
    }
}

const SEC: u64 = 1_000_000_000;

#[test]
fn discdb_participant_operations() {
    let mut discoverydb = DiscoveryDB::new();
    let data = participant(guid(5, 0x1c1), 1);

    discoverydb.update_participant_at(&data, 10 * SEC);
    assert!(discoverydb.get_participants().len() == 1);

    discoverydb.update_participant_at(&data, 10 * SEC);
    assert!(discoverydb.get_participants().len() == 1);

    discoverydb.participant_cleanup_at(12 * SEC);
    assert!(discoverydb.get_participants().len() == 0);
}

#[test]
fn discdb_writer_proxies() {
    let mut discoverydb = DiscoveryDB::new();
    let topic_name = String::from("some_topic");
    let data_type_name = String::from("RandomData");
    let dreader = reader_data(guid(9, 0x107), &topic_name, &data_type_name);
    discoverydb.update_writers_reader_proxy(guid(1, 0x102), dreader);
    assert_eq!(discoverydb.get_writers_reader_proxies(guid(1, 0x102)).map(|l| l.len()), Some(1));
}

#[test]
fn discdb_subscription_operations() {
    let mut discovery_db = DiscoveryDB::new();

    let topic = Topic::new("Foobar", "RandomData", &QosPolicies::qos_none(), TopicKind::WithKey);
    let topic2 = Topic::new("Barfoo", "RandomData", &QosPolicies::qos_none(), TopicKind::WithKey);

    let writer_key = guid(7, 0x102);
    let writer_data1 = writer_data(writer_key, &topic.name, "RandomData");
    discovery_db.update_local_topic_writer(writer_data1);
    assert_eq!(discovery_db.get_all_local_topic_writers().len(), 1);

    let writer_data2 = writer_data(guid(7, 0x202), &topic.name, "RandomData");
    discovery_db.update_local_topic_writer(writer_data2);
    assert_eq!(discovery_db.get_all_local_topic_writers().len(), 2);

    let dreader1 = reader_data(guid(3, 0x107), &topic.name, "RandomData");
    discovery_db.update_subscription(&dreader1);
    assert_eq!(discovery_db.get_writers_reader_proxies(writer_key).unwrap().len(), 1);

    let dreader2 = reader_data(guid(4, 0x107), &topic2.name, "RandomData");
    discovery_db.update_subscription(&dreader2);
    assert_eq!(discovery_db.get_writers_reader_proxies(writer_key).unwrap().len(), 1);
    let writers_size: usize = [writer_key, guid(7, 0x202)]
        .iter()
        .map(|w| discovery_db.get_writers_reader_proxies(*w).map(|l| l.len()).unwrap_or(0))
        .sum();
    assert_eq!(writers_size, 2);

    let dreader3 = reader_data(guid(3, 0x107), &topic.name, "RandomData");
    discovery_db.update_subscription(&dreader3);
    assert_eq!(discovery_db.get_writers_reader_proxies(writer_key).unwrap().len(), 1);
}

#[test]
fn discdb_local_topic_reader() {
    let participant_guid = guid(12, 0x1c1);
    let topic = Topic::new("some topic name", "Wazzup", &QosPolicies::qos_none(), TopicKind::WithKey);
    let mut discoverydb = DiscoveryDB::new();
    let unicast = vec![Locator { kind: 1, port: 7411, address: 0x7f000001 }];
    let multicast = vec![Locator::multicast_udpv4(7401)];

    let reader = guid(12, 0x107);
    discoverydb.update_local_topic_reader(participant_guid, &topic, reader, &unicast, &multicast);
    assert_eq!(discoverydb.get_all_local_topic_readers().len(), 1);
    assert_eq!(discoverydb.get_local_topic_readers(&topic).len(), 1);

    discoverydb.update_local_topic_reader(participant_guid, &topic, reader, &unicast, &multicast);
    assert_eq!(discoverydb.get_all_local_topic_readers().len(), 1);
    assert_eq!(discoverydb.get_local_topic_readers(&topic).len(), 1);

    let reader = guid(12, 0x207);
    discoverydb.update_local_topic_reader(participant_guid, &topic, reader, &unicast, &multicast);
    assert_eq!(discoverydb.get_local_topic_readers(&topic).len(), 2);
    assert_eq!(discoverydb.get_all_local_topic_readers().len(), 2);
}

#[test]
fn participant_without_guid_is_refused() {
    let mut db = DiscoveryDB::new();
    let mut data = participant(guid(5, 0x1c1), 1);
    data.participant_guid = None;
    assert!(!db.update_participant(&data));
    assert_eq!(db.get_participants().len(), 0);
    let data = participant(guid(5, 0x1c1), 1);
    assert!(db.update_participant(&data));
    assert_eq!(db.get_participants().len(), 1);
}

#[test]
fn participant_lease_boundary_and_default() {
    let mut db = DiscoveryDB::new();
    db.update_participant_at(&participant(guid(1, 0x1c1), 1), 0);
    let mut no_lease = participant(guid(2, 0x1c1), 1);
    no_lease.lease_duration = None;
    db.update_participant_at(&no_lease, 0);
    // exactly at the lease: not yet expired
    db.participant_cleanup_at(SEC);
    assert_eq!(db.get_participants().len(), 2);
    db.participant_cleanup_at(SEC + 1);
    assert_eq!(db.get_participants().len(), 1);
    assert_eq!(db.get_participants()[0].participant_guid, Some(guid(2, 0x1c1)));
    // the default lease is 100 seconds
    db.participant_cleanup_at(100 * SEC);
    assert_eq!(db.get_participants().len(), 1);
    db.participant_cleanup_at(100 * SEC + 1);
    assert_eq!(db.get_participants().len(), 0);
}

#[test]
fn participant_cleanup_twice_changes_nothing() {
    let mut db = DiscoveryDB::new();
    db.update_participant_at(&participant(guid(1, 0x1c1), 1), 0);
    db.update_participant_at(&participant(guid(2, 0x1c1), 10), 0);
    db.participant_cleanup_at(5 * SEC);
    let first: Vec<Option<GUID>> = db.get_participants().iter().map(|p| p.participant_guid).collect();
    db.participant_cleanup_at(5 * SEC);
    let second: Vec<Option<GUID>> = db.get_participants().iter().map(|p| p.participant_guid).collect();
    assert_eq!(first, vec![Some(guid(2, 0x1c1))]);
    assert_eq!(first, second);
}

#[test]
fn topic_cleanup_keeps_referenced_topics() {
    let mut db = DiscoveryDB::new();
    let kept = Topic::new("kept", "T", &QosPolicies::qos_none(), TopicKind::NoKey);
    let dropped = Topic::new("dropped", "T", &QosPolicies::qos_none(), TopicKind::NoKey);
    db.update_topic_data_p_at(&kept, 0);
    db.update_topic_data_p_at(&dropped, 0);
    db.update_local_topic_writer(writer_data(guid(1, 0x102), "kept", "T"));
    assert_eq!(db.get_all_topics().len(), 2);
    db.topic_cleanup_at(1000 * SEC);
    let names: Vec<Option<String>> = db.get_all_topics().iter().map(|t| t.topic_data.name.clone()).collect();
    assert_eq!(names, vec![Some("kept".to_string())]);
}

#[test]
fn topic_cleanup_keeps_young_topics() {
    let mut db = DiscoveryDB::new();
    let mut qos = QosPolicies::qos_none();
    qos.lifespan = Some(Duration::from_secs(10));
    let t = Topic::new("young", "T", &qos, TopicKind::NoKey);
    db.update_topic_data_p_at(&t, 0);
    db.topic_cleanup_at(9 * SEC);
    assert_eq!(db.get_all_topics().len(), 1);
    db.topic_cleanup_at(10 * SEC);
    assert_eq!(db.get_all_topics().len(), 0);
}

#[test]
fn topic_data_without_name_is_refused() {
    let mut db = DiscoveryDB::new();
    let data = DiscoveredTopicData::new(
        0,
        TopicBuiltinTopicData { key: None, name: None, data_type_name: None, qos: QosPolicies::qos_none() },
    );
    assert!(!db.update_topic_data(&data));
    assert_eq!(db.get_all_topics().len(), 0);
    db.update_topic_data_drd(&reader_data(guid(1, 7), "from reader", "T"));
    db.update_topic_data_dwd(&writer_data(guid(1, 2), "from writer", "T"));
    db.update_topic_data_drd(&reader_data(guid(1, 8), "from reader", "T"));
    assert_eq!(db.get_all_topics().len(), 2);
}

#[test]
fn subscription_twice_updates_in_place_for_each_writer() {
    let mut db = DiscoveryDB::new();
    let wa = guid(1, 0x102);
    let wb = guid(1, 0x202);
    db.update_local_topic_writer(writer_data(wa, "T", "Ty"));
    db.update_local_topic_writer(writer_data(wb, "T", "Ty"));
    let r = reader_data(guid(2, 0x107), "T", "Ty");
    assert!(db.update_subscription(&r));
    assert_eq!(db.get_writers_reader_proxies(wa).unwrap().len(), 1);
    assert_eq!(db.get_writers_reader_proxies(wb).unwrap().len(), 1);
    let mut r2 = reader_data(guid(2, 0x107), "T", "Ty");
    r2.reader_proxy.expects_inline_qos = true;
    assert!(db.update_subscription(&r2));
    assert_eq!(db.get_writers_reader_proxies(wa).unwrap().len(), 1);
    assert!(db.get_writers_reader_proxies(wa).unwrap()[0].reader_proxy.expects_inline_qos);
    assert_eq!(db.get_writers_reader_proxies(wb).unwrap().len(), 1);
}

#[test]
fn subscription_requires_matching_type_and_qos() {
    let mut db = DiscoveryDB::new();
    let w = guid(1, 0x102);
    let mut wd = writer_data(w, "T", "Ty");
    wd.publication_topic_data.qos.reliability = Some(ReliabilityKind::BestEffort);
    wd.publication_topic_data.qos.durability = Some(Durability::Volatile);
    db.update_local_topic_writer(wd);
    // other type
    assert!(db.update_subscription(&reader_data(guid(2, 0x107), "T", "Other")));
    assert!(db.get_writers_reader_proxies(w).is_none());
    // requests more reliability than offered
    let mut strict = reader_data(guid(3, 0x107), "T", "Ty");
    strict.subscription_topic_data.qos.reliability = Some(ReliabilityKind::Reliable);
    assert!(db.update_subscription(&strict));
    assert!(db.get_writers_reader_proxies(w).is_none());
    // requests less durability: compatible
    let mut lax = reader_data(guid(4, 0x107), "T", "Ty");
    lax.subscription_topic_data.qos.reliability = Some(ReliabilityKind::BestEffort);
    lax.subscription_topic_data.qos.durability = Some(Durability::Volatile);
    assert!(db.update_subscription(&lax));
    assert_eq!(db.get_writers_reader_proxies(w).unwrap().len(), 1);
}

#[test]
fn subscription_without_topic_or_guid_is_refused() {
    let mut db = DiscoveryDB::new();
    db.update_local_topic_writer(writer_data(guid(1, 0x102), "T", "Ty"));
    let mut no_topic = reader_data(guid(2, 0x107), "T", "Ty");
    no_topic.subscription_topic_data.topic_name = None;
    assert!(!db.update_subscription(&no_topic));
    let mut no_guid = reader_data(guid(2, 0x107), "T", "Ty");
    no_guid.reader_proxy.remote_reader_guid = None;
    assert!(!db.update_subscription(&no_guid));
    assert!(db.get_writers_reader_proxies(guid(1, 0x102)).is_none());
}

#[test]
fn publication_matches_local_readers() {
    let mut db = DiscoveryDB::new();
    let topic = Topic::new("T", "Ty", &QosPolicies::qos_none(), TopicKind::WithKey);
    let local_reader = guid(1, 0x107);
    db.update_local_topic_reader(guid(1, 0x1c1), &topic, local_reader, &vec![], &vec![]);
    assert!(db.is_readers_updated());
    db.readers_updated(false);
    assert!(!db.is_readers_updated());
    let remote = writer_data(guid(2, 0x102), "T", "Ty");
    assert!(db.update_publication(&remote));
    assert!(db.update_publication(&remote));
    assert_eq!(db.get_readers_writer_proxies(local_reader).unwrap().len(), 1);
    let mut unnamed = writer_data(guid(3, 0x102), "T", "Ty");
    unnamed.publication_topic_data.topic_name = None;
    assert!(!db.update_publication(&unnamed));
}

#[test]
fn removing_local_endpoints() {
    let mut db = DiscoveryDB::new();
    let topic = Topic::new("T", "Ty", &QosPolicies::qos_none(), TopicKind::WithKey);
    db.update_local_topic_writer(writer_data(guid(1, 0x102), "T", "Ty"));
    db.update_local_topic_writer(writer_data(guid(1, 0x202), "T", "Ty"));
    db.writers_updated(false);
    db.remove_local_topic_writer(guid(1, 0x102));
    assert!(db.is_writers_updated());
    assert_eq!(db.get_all_local_topic_writers().len(), 1);
    db.remove_local_topic_writer(guid(9, 9));
    assert_eq!(db.get_all_local_topic_writers().len(), 1);
    db.update_local_topic_reader(guid(1, 0x1c1), &topic, guid(1, 0x107), &vec![], &vec![]);
    db.remove_local_topic_reader(guid(1, 0x107));
    assert_eq!(db.get_all_local_topic_readers().len(), 0);
}

#[test]
fn participant_reader_proxy_is_seeded() {
    let mut db = DiscoveryDB::new();
    let w = guid(0xabc, 0x100c2);
    db.initialize_participant_reader_proxy(w, 7400);
    let list = db.get_writers_reader_proxies(w).unwrap();
    assert_eq!(list.len(), 1);
    let r = &list[0];
    assert_eq!(r.reader_proxy.remote_reader_guid, Some(guid(0xabc, 0x100c7)));
    assert_eq!(r.reader_proxy.multicast_locator_list, vec![Locator { kind: 1, port: 7400, address: 0xefff0001 }]);
    assert_eq!(r.subscription_topic_data.topic_name, Some("DCPSParticipant".to_string()));
    assert_eq!(r.subscription_topic_data.data_type_name, Some("SPDPDiscoveredParticipantData".to_string()));
}
