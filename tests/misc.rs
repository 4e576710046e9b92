use bytes::Bytes;
use rustdds::adapters::no_key::DeserializerAdapter;
use rustdds::dds_cache::{CacheChange, DDSCache, DDSData, TopicCache};
use rustdds::guid::{Duration, Timestamp, GUID};
use rustdds::qos::{Durability, History, LivelinessKind, Liveliness, Ownership, QosPolicies, ReliabilityKind};
use rustdds::sample_cache::key_hash;
use rustdds::serialization::pl_cdr_adapters::{PlCdrDeserialize, PlCdrDeserializerAdapter};
use rustdds::serialization::{concat_fragments, Error, RepresentationIdentifier};

struct Blob(Vec<u8>);

impl PlCdrDeserialize for Blob {
    fn from_pl_cdr_bytes(input_bytes: &[u8], _encoding: RepresentationIdentifier) -> Result<Blob, Error> {
        Ok(Blob(input_bytes.to_vec()))
    }
}

#[test]
fn pl_cdr_adapter_reads_only_pl_cdr() {
    let encs = PlCdrDeserializerAdapter::<Blob>::supported_encodings();
    assert_eq!(encs, vec![RepresentationIdentifier::pl_cdr_be(), RepresentationIdentifier::pl_cdr_le()]);
    let ok = PlCdrDeserializerAdapter::<Blob>::from_bytes(&[1, 2, 3], RepresentationIdentifier::pl_cdr_le());
    assert_eq!(ok.unwrap().0, vec![1, 2, 3]);
    let bad = PlCdrDeserializerAdapter::<Blob>::from_bytes(&[1], RepresentationIdentifier::cdr_le());
    assert!(matches!(bad, Err(Error::UnknownRepresentation(RepresentationIdentifier { id: 1 }))));
    let frags = PlCdrDeserializerAdapter::<Blob>::from_vec_bytes(&[Bytes::from(vec![1u8]), Bytes::from(vec![2u8, 3])], RepresentationIdentifier::pl_cdr_be());
    assert_eq!(frags.unwrap().0, vec![1, 2, 3]);
}

#[test]
fn representation_identifiers() {
    assert_eq!(RepresentationIdentifier::from_bytes(0, 3), RepresentationIdentifier::pl_cdr_le());
    assert_eq!(RepresentationIdentifier::from_bytes(0, 0).id, 0);
    assert_eq!(RepresentationIdentifier::from_bytes(1, 2).id, 258);
    assert_eq!(concat_fragments(&[Bytes::from(vec![1u8, 2]), Bytes::new(), Bytes::from(vec![3u8])]), vec![1, 2, 3]);
}

#[test]
fn key_hash_layout() {
    assert_eq!(key_hash(1), 1u128 << 64);
    assert_eq!(key_hash(-1), 0xffff_ffff_ffff_ffffu128 << 64);
    assert_eq!(key_hash(0), 0);
}

#[test]
fn qos_compatibility() {
    let mut req = QosPolicies::qos_none();
    let mut off = QosPolicies::qos_none();
    assert!(req.compatible_with_offered(&off));
    req.reliability = Some(ReliabilityKind::Reliable);
    off.reliability = Some(ReliabilityKind::BestEffort);
    assert!(!req.compatible_with_offered(&off));
    off.reliability = Some(ReliabilityKind::Reliable);
    assert!(req.compatible_with_offered(&off));
    req.durability = Some(Durability::TransientLocal);
    off.durability = Some(Durability::Volatile);
    assert!(!req.compatible_with_offered(&off));
    off.durability = Some(Durability::Persistent);
    assert!(req.compatible_with_offered(&off));
    req.deadline = Some(Duration::from_secs(1));
    off.deadline = Some(Duration::from_secs(2));
    assert!(!req.compatible_with_offered(&off));
    off.deadline = Some(Duration::from_secs(1));
    assert!(req.compatible_with_offered(&off));
    req.ownership = Some(Ownership::Exclusive);
    off.ownership = Some(Ownership::Shared);
    assert!(!req.compatible_with_offered(&off));
    off.ownership = Some(Ownership::Exclusive);
    req.liveliness = Some(Liveliness { kind: LivelinessKind::ManualByTopic, lease_duration: Duration::from_secs(5) });
    off.liveliness = Some(Liveliness { kind: LivelinessKind::Automatic, lease_duration: Duration::from_secs(5) });
    assert!(!req.compatible_with_offered(&off));
    off.liveliness = Some(Liveliness { kind: LivelinessKind::ManualByTopic, lease_duration: Duration::from_secs(4) });
    assert!(req.compatible_with_offered(&off));
}

fn change(sn: i64) -> CacheChange {
    CacheChange { writer_guid: GUID { prefix: 1, entity_id: 2 }, sequence_number: sn, data_value: DDSData::DisposeByKeyHash { key_hash: 0 } }
}

#[test]
fn topic_cache_ranges_and_expiry() {
    let mut tc = TopicCache::new();
    assert!(tc.add_change(Timestamp { nanos: 10 }, change(1)));
    assert!(tc.add_change(Timestamp { nanos: 20 }, change(2)));
    assert!(!tc.add_change(Timestamp { nanos: 20 }, change(3)));
    assert!(!tc.add_change(Timestamp { nanos: 30 }, change(2)));
    assert!(tc.add_change(Timestamp { nanos: 30 }, change(3)));
    let r = tc.changes_in_range(Timestamp { nanos: 10 }, Timestamp { nanos: 30 });
    assert_eq!(r.iter().map(|e| e.0.nanos).collect::<Vec<u64>>(), vec![20, 30]);
    tc.remove_expired(Timestamp { nanos: 35 }, Duration { nanos: 15 });
    assert_eq!(tc.changes().iter().map(|e| e.0.nanos).collect::<Vec<u64>>(), vec![20, 30]);
    tc.remove_expired(Timestamp { nanos: 50 }, Duration { nanos: 15 });
    assert_eq!(tc.changes().len(), 0);
}

#[test]
fn dds_cache_evicts_by_history_and_lifespan() {
    let name = "t".to_string();
    let mut cache = DDSCache::new();
    assert!(!cache.add_change(&name, Timestamp { nanos: 1 }, change(1)));
    cache.add_new_topic(&name);
    for (i, t) in [10u64, 20, 30, 40].iter().enumerate() {
        assert!(cache.add_change(&name, Timestamp { nanos: *t }, change(i as i64)));
    }
    let mut qos = QosPolicies::qos_none();
    qos.history = Some(History::KeepLast { depth: 3 });
    cache.evict(&name, Timestamp { nanos: 40 }, &qos);
    let kept: Vec<u64> = cache.topic_cache(&name).unwrap().changes().iter().map(|e| e.0.nanos).collect();
    assert_eq!(kept, vec![20, 30, 40]);
    qos.lifespan = Some(Duration { nanos: 15 });
    cache.evict(&name, Timestamp { nanos: 50 }, &qos);
    let kept: Vec<u64> = cache.topic_cache(&name).unwrap().changes().iter().map(|e| e.0.nanos).collect();
    assert_eq!(kept, vec![40]);
}
