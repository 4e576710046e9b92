use bytes::Bytes;
use rustdds::adapters::{no_key, with_key};
use rustdds::datareader::{DataReader, SelectByKey};
use rustdds::dds_cache::{CacheChange, DDSCache, DDSData};
use rustdds::guid::{Timestamp, GUID};
use rustdds::qos::QosPolicies;
use rustdds::sample_cache::{InstanceState, Keyed, ReadCondition, SampleState, ViewState, key_hash};
use rustdds::serialization::{Error, RepresentationIdentifier, SerializedPayload};

#[derive(Clone, Debug, PartialEq)]
struct RandomData {
    a: i32,
    b: String,
}

impl Keyed for RandomData {
    fn get_key(&self) -> i64 {
        self.a as i64
    }
}

/// Little-endian CDR of RandomData: `a`, then the length and bytes of `b`.
fn to_bytes(d: &RandomData) -> Vec<u8> {
    let mut v = d.a.to_le_bytes().to_vec();
    v.extend_from_slice(&(d.b.len() as u32).to_le_bytes());
    v.extend_from_slice(d.b.as_bytes());
    v
}

struct TestAdapter;

impl no_key::DeserializerAdapter<RandomData> for TestAdapter {
    fn supported_encodings() -> Vec<RepresentationIdentifier> {
        vec![RepresentationIdentifier::cdr_le()]
    }

    fn from_bytes(input_bytes: &[u8], _encoding: RepresentationIdentifier) -> Result<RandomData, Error> {
        if input_bytes.len() < 8 {
            return Err(Error::Message("too short".to_string()));
        }
        let a = i32::from_le_bytes([input_bytes[0], input_bytes[1], input_bytes[2], input_bytes[3]]);
        let n = u32::from_le_bytes([input_bytes[4], input_bytes[5], input_bytes[6], input_bytes[7]]) as usize;
        if input_bytes.len() != 8 + n {
            return Err(Error::Message("bad length".to_string()));
        }
        let b = String::from_utf8(input_bytes[8..].to_vec()).map_err(|_| Error::Message("utf8".to_string()))?;
        Ok(RandomData { a, b })
    }
}

impl with_key::DeserializerAdapter<RandomData> for TestAdapter {
    fn key_from_bytes(input_bytes: &[u8], _encoding: RepresentationIdentifier) -> Result<i64, Error> {
        if input_bytes.len() != 4 {
            return Err(Error::Message("bad key".to_string()));
        }
        Ok(i32::from_le_bytes([input_bytes[0], input_bytes[1], input_bytes[2], input_bytes[3]]) as i64)
    }
}

fn writer_guid() -> GUID {
    GUID { prefix: 0x0101_0101_0101_0101_0101_0101, entity_id: 0x0101_0102 }
}

struct Fixture {
    cache: DDSCache,
    topic: String,
    next_instant: u64,
}

impl Fixture {
    fn new(topic: &str) -> Fixture {
        let mut cache = DDSCache::new();
        cache.add_new_topic(&topic.to_string());
        Fixture { cache, topic: topic.to_string(), next_instant: 100 }
    }

    fn reader(&self) -> DataReader<RandomData, TestAdapter> {
        DataReader::new(GUID { prefix: 2, entity_id: 0x107 }, &self.topic, QosPolicies::qos_none(), Timestamp { nanos: 0 })
    }

    fn add(&mut self, writer: GUID, sn: i64, data: DDSData) -> bool {
        self.next_instant += 1;
        let change = CacheChange { writer_guid: writer, sequence_number: sn, data_value: data };
        self.cache.add_change(&self.topic, Timestamp { nanos: self.next_instant }, change)
    }

    fn write(&mut self, sn: i64, d: &RandomData) -> bool {
        let payload = SerializedPayload {
            representation_identifier: RepresentationIdentifier::cdr_le(),
            representation_options: 0,
            value: Bytes::from(to_bytes(d)),
        };
        self.add(writer_guid(), sn, DDSData::Data { serialized_payload: payload })
    }
}

fn rd(a: i32, b: &str) -> RandomData {
    RandomData { a, b: b.to_string() }
}

#[test]
fn dr_get_samples_from_ddschache() {
    let mut fx = Fixture::new("dr");
    let mut matching_datareader = fx.reader();

    let random_data = rd(1, "somedata");
    let data_key = random_data.get_key();
    assert!(fx.write(0, &random_data));

    matching_datareader.fill_local_datasample_cache(&fx.cache);
    let deserialized_random_data = matching_datareader.read(&fx.cache, 1, ReadCondition::any())[0]
        .value()
        .clone()
        .unwrap();
    assert_eq!(deserialized_random_data, random_data);

    let random_data2 = rd(1, "somedata number 2");
    let random_data3 = rd(1, "third somedata");
    assert!(fx.write(1, &random_data2));
    assert!(fx.write(2, &random_data3));

    matching_datareader.fill_local_datasample_cache(&fx.cache);
    let random_data_vec =
        matching_datareader.read_instance(&fx.cache, 100, ReadCondition::any(), Some(data_key), SelectByKey::This);
    assert_eq!(random_data_vec.len(), 3);
}

#[test]
fn dr_read_and_take() {
    let mut fx = Fixture::new("dr read");
    let mut datareader = fx.reader();

    let test_data = rd(10, ":DDD");
    let test_data2 = rd(11, ":)))");
    fx.write(0, &test_data);
    fx.write(1, &test_data2);

    // Read the same sample two times.
    {
        let result_vec = datareader.read(&fx.cache, 100, ReadCondition::any());
        let d = result_vec[0].value().as_ref().unwrap();
        assert_eq!(&test_data, d);
    }
    {
        let result_vec2 = datareader.read(&fx.cache, 100, ReadCondition::any());
        let d2 = result_vec2[1].value().as_ref().unwrap();
        assert_eq!(&test_data2, d2);
    }
    {
        let result_vec3 = datareader.read(&fx.cache, 100, ReadCondition::any());
        let d3 = result_vec3[0].value().as_ref().unwrap();
        assert_eq!(&test_data, d3);
    }

    // Take
    let mut result_vec = datareader.take(&fx.cache, 100, ReadCondition::any());
    let result_vec2 = datareader.take(&fx.cache, 100, ReadCondition::any());

    let d2 = result_vec.pop().unwrap();
    let d2 = d2.value().as_ref().unwrap().clone();
    let d1 = result_vec.pop().unwrap();
    let d1 = d1.value().as_ref().unwrap().clone();
    assert_eq!(test_data2, d2);
    assert_eq!(test_data, d1);
    assert_eq!(result_vec2.len(), 0);

    // Read and take tests with instance keys
    let data_key1 = rd(1, ":D");
    let data_key2_1 = rd(2, ":(");
    let data_key2_2 = rd(2, ":)");
    let data_key2_3 = rd(2, "xD");

    let key1 = data_key1.get_key();
    let key2 = data_key2_1.get_key();

    assert!(data_key2_1.get_key() == data_key2_2.get_key());
    assert!(data_key2_3.get_key() == key2);

    fx.write(2, &data_key1);
    fx.write(3, &data_key2_1);
    fx.write(4, &data_key2_2);
    fx.write(5, &data_key2_3);

    // calling read with key 1 and this
    let results = datareader.read_instance(&fx.cache, 100, ReadCondition::any(), Some(key1), SelectByKey::This);
    assert_eq!(data_key1, results[0].value().clone().unwrap());

    // calling read with None and this: takes the smallest key, 1 in this case
    let results = datareader.read_instance(&fx.cache, 100, ReadCondition::any(), None, SelectByKey::This);
    assert_eq!(data_key1, results[0].value().clone().unwrap());

    // calling read with key 1 and next
    let results = datareader.read_instance(&fx.cache, 100, ReadCondition::any(), Some(key1), SelectByKey::Next);
    assert_eq!(results.len(), 3);
    assert_eq!(data_key2_2, results[1].value().clone().unwrap());

    // calling take with key 2 and this
    let results = datareader.take_instance(&fx.cache, 100, ReadCondition::any(), Some(key2), SelectByKey::This);
    assert_eq!(results.len(), 3);
    let mut vec = results;
    let d3 = vec.pop().unwrap().into_value().unwrap();
    let d2 = vec.pop().unwrap().into_value().unwrap();
    let d1 = vec.pop().unwrap().into_value().unwrap();
    assert_eq!(data_key2_3, d3);
    assert_eq!(data_key2_2, d2);
    assert_eq!(data_key2_1, d1);

    // calling take with key 2 and this
    let results = datareader.take_instance(&fx.cache, 100, ReadCondition::any(), Some(key2), SelectByKey::This);
    assert!(results.is_empty());
}

#[test]
fn read_marks_read_and_view_state() {
    let mut fx = Fixture::new("states");
    let mut reader = fx.reader();
    fx.write(0, &rd(1, "x"));
    fx.write(1, &rd(1, "y"));
    let first = reader.read(&fx.cache, 1, ReadCondition::any());
    assert_eq!(first.len(), 1);
    assert_eq!(first[0].sample_info().sample_state, SampleState::NotRead);
    assert_eq!(first[0].sample_info().view_state, ViewState::New);
    assert_eq!(first[0].sample_info().instance_state, InstanceState::Alive);
    assert_eq!(first[0].sample_info().sequence_number, 0);
    let all = reader.read(&fx.cache, 10, ReadCondition::any());
    assert_eq!(all[0].sample_info().sample_state, SampleState::Read);
    assert_eq!(all[0].sample_info().view_state, ViewState::NotNew);
    assert_eq!(all[1].sample_info().sample_state, SampleState::NotRead);
    // a read of unread samples does not return them again
    assert_eq!(reader.read(&fx.cache, 10, ReadCondition::not_read()).len(), 0);
}

#[test]
fn read_next_and_take_next_sample() {
    let mut fx = Fixture::new("next");
    let mut reader = fx.reader();
    assert!(reader.read_next_sample(&fx.cache).is_none());
    fx.write(0, &rd(5, "a"));
    fx.write(1, &rd(6, "b"));
    let s = reader.read_next_sample(&fx.cache).unwrap();
    assert_eq!(s.into_value().unwrap(), rd(5, "a"));
    let s = reader.take_next_sample(&fx.cache).unwrap();
    assert_eq!(s.into_value().unwrap(), rd(6, "b"));
    assert!(reader.take_next_sample(&fx.cache).is_none());
    assert_eq!(reader.take(&fx.cache, 10, ReadCondition::any()).len(), 1);
}

#[test]
fn iterators_return_values() {
    let mut fx = Fixture::new("iter");
    let mut reader = fx.reader();
    fx.write(0, &rd(1, "a"));
    fx.write(1, &rd(2, "b"));
    let values = reader.iterator(&fx.cache);
    assert_eq!(values.len(), 2);
    assert_eq!(values[1].as_ref().unwrap(), &rd(2, "b"));
    assert_eq!(reader.iterator(&fx.cache).len(), 0);
    assert_eq!(reader.conditional_iterator(&fx.cache, ReadCondition::any()).len(), 2);
    let taken = reader.into_conditional_iterator(&fx.cache, ReadCondition::any());
    assert_eq!(taken.len(), 2);
    assert_eq!(reader.into_iterator(&fx.cache).len(), 0);
}

#[test]
fn dispose_by_key_and_by_hash() {
    let mut fx = Fixture::new("dispose");
    let mut reader = fx.reader();
    fx.write(0, &rd(3, "alive"));
    let key = SerializedPayload {
        representation_identifier: RepresentationIdentifier::cdr_le(),
        representation_options: 0,
        value: Bytes::from(3i32.to_le_bytes().to_vec()),
    };
    fx.add(writer_guid(), 1, DDSData::DisposeByKey { key });
    let all = reader.read(&fx.cache, 10, ReadCondition::any());
    assert_eq!(all.len(), 2);
    assert_eq!(all[1].value().as_ref().err(), Some(&3));
    assert_eq!(all[1].sample_info().instance_state, InstanceState::NotAliveDisposed);
    // an unknown hash is skipped, a known one resolves to its key
    fx.add(writer_guid(), 2, DDSData::DisposeByKeyHash { key_hash: key_hash(99) });
    fx.add(writer_guid(), 3, DDSData::DisposeByKeyHash { key_hash: key_hash(3) });
    let all = reader.take(&fx.cache, 10, ReadCondition::any());
    assert_eq!(all.len(), 3);
    assert_eq!(all[2].value().as_ref().err(), Some(&3));
    // the disposed instance with no samples left is forgotten
    assert_eq!(reader.read_instance(&fx.cache, 10, ReadCondition::any(), None, SelectByKey::This).len(), 0);
}

#[test]
fn undecodable_and_unsupported_samples_are_skipped() {
    let mut fx = Fixture::new("skip");
    let mut reader = fx.reader();
    fx.add(writer_guid(), 0, DDSData::Data {
        serialized_payload: SerializedPayload {
            representation_identifier: RepresentationIdentifier::cdr_le(),
            representation_options: 0,
            value: Bytes::from(vec![1u8, 2]),
        },
    });
    fx.add(writer_guid(), 1, DDSData::Data {
        serialized_payload: SerializedPayload {
            representation_identifier: RepresentationIdentifier::pl_cdr_le(),
            representation_options: 0,
            value: Bytes::from(to_bytes(&rd(1, "x"))),
        },
    });
    let bytes = to_bytes(&rd(4, "frag"));
    fx.add(writer_guid(), 2, DDSData::DataFrags {
        representation_identifier: RepresentationIdentifier::cdr_le(),
        bytes_frags: vec![Bytes::from(bytes[..3].to_vec()), Bytes::from(bytes[3..].to_vec())],
    });
    let all = reader.take(&fx.cache, 10, ReadCondition::any());
    assert_eq!(all.len(), 1);
    assert_eq!(all[0].value().as_ref().unwrap(), &rd(4, "frag"));
}

#[test]
fn samples_of_a_writer_come_in_sequence_order() {
    let mut fx = Fixture::new("order");
    let mut reader = fx.reader();
    let other = GUID { prefix: 9, entity_id: 0x102 };
    fx.write(0, &rd(1, "w0"));
    fx.add(other, 7, DDSData::Data {
        serialized_payload: SerializedPayload {
            representation_identifier: RepresentationIdentifier::cdr_le(),
            representation_options: 0,
            value: Bytes::from(to_bytes(&rd(2, "o7"))),
        },
    });
    fx.write(1, &rd(1, "w1"));
    // the topic cache refuses a change that would break its writer's order
    assert!(!fx.write(1, &rd(1, "again")));
    let all = reader.read(&fx.cache, 10, ReadCondition::any());
    let mine: Vec<i64> = all
        .iter()
        .filter(|s| s.sample_info().publication_handle == writer_guid())
        .map(|s| s.sample_info().sequence_number)
        .collect();
    assert_eq!(mine, vec![0, 1]);
}

#[test]
fn next_key_past_the_last_reads_nothing() {
    let mut fx = Fixture::new("keys");
    let mut reader = fx.reader();
    fx.write(0, &rd(1, "a"));
    fx.write(1, &rd(4, "b"));
    let r = reader.read_instance(&fx.cache, 10, ReadCondition::any(), Some(2), SelectByKey::Next);
    assert_eq!(r.len(), 1);
    assert_eq!(r[0].sample_info().instance_key, 4);
    assert_eq!(reader.read_instance(&fx.cache, 10, ReadCondition::any(), Some(4), SelectByKey::Next).len(), 0);
    assert_eq!(reader.read_instance(&fx.cache, 10, ReadCondition::any(), Some(3), SelectByKey::This).len(), 0);
}
