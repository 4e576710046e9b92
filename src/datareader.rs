//! The reader endpoint: draws new changes from its topic cache, decodes them
//! into the sample-state engine, and serves read and take queries.
use vstd::prelude::*;
use std::marker::PhantomData;
use crate::adapters::no_key::DeserializerAdapter as _;
use crate::adapters::with_key::DeserializerAdapter;
use crate::dds_cache::{CacheChange, DDSCache, DDSData};
use crate::discovery_data::DiscoveredWriterData;
use crate::discovery_db::{DiscoveryDB, writer_views};
use crate::guid::{GUID, Timestamp};
use crate::qos::QosPolicies;
use crate::sample_cache::{
    DataSample, DataSampleCache, Keyed, ReadCondition, SampleCacheView, SampleRecord, SampleState,
    after_add, after_read, after_take, all_present, cache_view_ok, first_n, fresh, hands_out,
    hands_out_value, ids_distinct, instance_selector, is_first_key, is_next_key, key_hash_of,
    key_of_value, lemma_first_n_ok, lemma_read_info, lemma_selected_record, lemma_selection_ok,
    selected_ids, selected_instance_ids, selector,
};
use crate::serialization::{bytes_content, bytes_slice, concat_chunks, RepresentationIdentifier};

verus! {

/// Whether a keyed read selects the instance of the given key, or the next
/// instance after it.
#[derive(Clone, Copy, Debug, PartialEq, Eq, Structural)]
pub enum SelectByKey {
    This,
    Next,
}

/// Different keys have different key hashes.
pub proof fn lemma_key_hash_injective(a: i64, b: i64)
    requires
        key_hash_of(a) == key_hash_of(b),
    ensures
        a == b,
{
    assert((a as u64) as int == (b as u64) as int) by (nonlinear_arith)
        requires
            (a as u64) as int * 0x1_0000_0000_0000_0000 == (b as u64) as int * 0x1_0000_0000_0000_0000,
    ;
    assert(a as u64 == b as u64 ==> a == b) by (bit_vector);
}

/// The value that change `c` decodes to with adapter `DA`, if it decodes:
/// data in a supported encoding decodes to a value, a disposal to a key; a
/// disposal by key hash needs an instance known to `v` with that hash.
pub open spec fn decoded_value<D: Keyed, DA: DeserializerAdapter<D>>(
    v: SampleCacheView<D>,
    c: CacheChange,
) -> Option<Result<D, i64>> {
    match c.data_value {
        DDSData::Data { serialized_payload: p } => if DA::encodings_spec().contains(p.representation_identifier) {
            match DA::decode_spec(bytes_content(p.value), p.representation_identifier) {
                Some(d) => Some(Ok(d)),
                None => None,
            }
        } else {
            None
        },
        DDSData::DataFrags { representation_identifier: r, bytes_frags: f } => if DA::encodings_spec().contains(r) {
            match DA::decode_spec(concat_chunks(f@), r) {
                Some(d) => Some(Ok(d)),
                None => None,
            }
        } else {
            None
        },
        DDSData::DisposeByKey { key: p } => match DA::decode_key_spec(bytes_content(p.value), p.representation_identifier) {
            Some(k) => Some(Err(k)),
            None => None,
        },
        DDSData::DisposeByKeyHash { key_hash: h } => if exists|k: i64| #[trigger] v.instances.contains_key(k) && key_hash_of(k) == h {
            Some(Err(choose|k: i64| #[trigger] v.instances.contains_key(k) && key_hash_of(k) == h))
        } else {
            None
        },
    }
}

/// The sample that the change `e` makes, if it decodes.
pub open spec fn decoded_sample<D: Keyed, DA: DeserializerAdapter<D>>(
    v: SampleCacheView<D>,
    e: (Timestamp, CacheChange),
) -> Option<SampleRecord<D>> {
    match decoded_value::<D, DA>(v, e.1) {
        Some(val) => Some(SampleRecord {
            value: val,
            key: key_of_value(val),
            writer_guid: e.1.writer_guid,
            sequence_number: e.1.sequence_number,
            instant: e.0,
            source_timestamp: None,
            sample_state: SampleState::NotRead,
        }),
        None => None,
    }
}

/// The cache after change `e` is drawn: its sample is added when it decodes
/// and follows what the cache has seen; otherwise it is skipped.
pub open spec fn fill_step<D: Keyed, DA: DeserializerAdapter<D>>(
    v: SampleCacheView<D>,
    e: (Timestamp, CacheChange),
) -> SampleCacheView<D> {
    match decoded_sample::<D, DA>(v, e) {
        Some(s) => if fresh(v, s) {
            after_add(v, s)
        } else {
            v
        },
        None => v,
    }
}

pub open spec fn after_fill<D: Keyed, DA: DeserializerAdapter<D>>(
    v: SampleCacheView<D>,
    es: Seq<(Timestamp, CacheChange)>,
) -> SampleCacheView<D>
    decreases es.len(),
{
    if es.len() == 0 {
        v
    } else {
        fill_step::<D, DA>(after_fill::<D, DA>(v, es.drop_last()), es.last())
    }
}

pub open spec fn later_than(t: u64) -> spec_fn((Timestamp, CacheChange)) -> bool {
    |e: (Timestamp, CacheChange)| t < e.0.nanos
}

pub ghost struct DataReaderView<D> {
    pub guid: GUID,
    pub topic_name: Seq<char>,
    pub qos: QosPolicies,
    pub cache: SampleCacheView<D>,
    pub latest_instant: u64,
}

/// The changes of the reader's topic in `dds` that are later than what the
/// reader has seen, in arrival order.
pub open spec fn new_changes<D>(
    r: DataReaderView<D>,
    dds: Map<Seq<char>, Seq<(Timestamp, CacheChange)>>,
) -> Seq<(Timestamp, CacheChange)> {
    if dds.contains_key(r.topic_name) {
        dds[r.topic_name].filter(later_than(r.latest_instant))
    } else {
        Seq::empty()
    }
}

/// The reader after it draws the new changes of its topic from `dds`.
pub open spec fn after_drain<D: Keyed, DA: DeserializerAdapter<D>>(
    r: DataReaderView<D>,
    dds: Map<Seq<char>, Seq<(Timestamp, CacheChange)>>,
) -> DataReaderView<D> {
    let es = new_changes(r, dds);
    DataReaderView {
        cache: after_fill::<D, DA>(r.cache, es),
        latest_instant: if es.len() > 0 {
            es.last().0.nanos
        } else {
            r.latest_instant
        },
        ..r
    }
}

/// The reader after a read of at most `max` samples meeting `cond`.
pub open spec fn after_read_query<D>(f: DataReaderView<D>, ids: Seq<u64>) -> DataReaderView<D> {
    DataReaderView { cache: after_read(f.cache, ids), ..f }
}

/// The reader after a take of the samples `ids`.
pub open spec fn after_take_query<D>(f: DataReaderView<D>, ids: Seq<u64>) -> DataReaderView<D> {
    DataReaderView { cache: after_take(f.cache, ids), ..f }
}

/// The instance that a keyed read addresses in cache `v`: the given key for
/// `This`, the next key after it for `Next`, and the smallest key when no
/// key is given.
pub open spec fn addressed_instance<D>(
    v: SampleCacheView<D>,
    key: Option<i64>,
    sel: SelectByKey,
) -> Option<i64> {
    match key {
        Some(k) => match sel {
            SelectByKey::This => Some(k),
            SelectByKey::Next => if exists|n: i64| is_next_key(v.instances, k, n) {
                Some(choose|n: i64| is_next_key(v.instances, k, n))
            } else {
                None
            },
        },
        None => if exists|n: i64| is_first_key(v.instances, n) {
            Some(choose|n: i64| is_first_key(v.instances, n))
        } else {
            None
        },
    }
}

/// The samples of instance `key` that a keyed read or take with `cond`
/// and `max` addresses.
pub open spec fn instance_ids<D>(
    v: SampleCacheView<D>,
    cond: ReadCondition,
    key: Option<i64>,
    max: usize,
) -> Seq<u64> {
    match key {
        Some(k) => first_n(selected_instance_ids(v, cond, k), max),
        None => Seq::empty(),
    }
}

/// A keyed read returns only samples of the instance it addresses: with
/// `This`, the instance of the given key; with `Next`, the instance of the
/// smallest key strictly greater than the given one.
pub proof fn keyed_read_returns_addressed_instance<D: Clone>(
    v: SampleCacheView<D>,
    cond: ReadCondition,
    key: Option<i64>,
    sel: SelectByKey,
    max: usize,
    r: Seq<DataSample<D>>,
)
    requires
        cache_view_ok(v),
        r.len() == instance_ids(v, cond, addressed_instance(v, key, sel), max).len(),
        forall|j: int| 0 <= j < r.len() ==> {
            let ids = instance_ids(v, cond, addressed_instance(v, key, sel), max);
            hands_out(after_read(v, ids.take(j)), ids[j], #[trigger] r[j])
        },
    ensures
        forall|j: int| 0 <= j < r.len() ==> Some((#[trigger] r[j]).sample_info.instance_key) == addressed_instance(v, key, sel),
        key is Some && sel == SelectByKey::This ==> forall|j: int| 0 <= j < r.len() ==> (#[trigger] r[j]).sample_info.instance_key == key.unwrap(),
        key is Some && sel == SelectByKey::Next ==> forall|j: int| 0 <= j < r.len() ==> is_next_key(v.instances, key.unwrap(), (#[trigger] r[j]).sample_info.instance_key),
{
    let inst = addressed_instance(v, key, sel);
    let ids = instance_ids(v, cond, inst, max);
    if let Some(k) = inst {
        let pred = instance_selector(v, cond, k);
        lemma_first_n_ok(v, pred, max);
        assert forall|j: int| 0 <= j < r.len() implies Some((#[trigger] r[j]).sample_info.instance_key) == inst by {
            lemma_read_info(v, ids, j);
            lemma_selected_record(v, pred, j);
            assert(hands_out(after_read(v, ids.take(j)), ids[j], r[j]));
        }
    }
}

/// Whether the encodings `v` include `r`.
fn encoding_supported(v: &Vec<RepresentationIdentifier>, r: RepresentationIdentifier) -> (b: bool)
    ensures
        b == v@.contains(r),
{
    let mut i: usize = 0;
    while i < v.len()
        invariant
            i <= v@.len(),
            forall|j: int| 0 <= j < i ==> v@[j] != r,
        decreases v@.len() - i,
    {
        if v[i] == r {
            return true;
        }
        i = i + 1;
    }
    false
}

/// A reader of a keyed topic, decoding with adapter `DA`.
pub struct DataReader<D, DA> {
    my_guid: GUID,
    topic_name: String,
    qos_policy: QosPolicies,
    datasample_cache: DataSampleCache<D>,
    latest_instant: Timestamp,
    deserializer_type: PhantomData<DA>,
}

impl<D, DA> View for DataReader<D, DA> {
    type V = DataReaderView<D>;

    closed spec fn view(&self) -> DataReaderView<D> {
        DataReaderView {
            guid: self.my_guid,
            topic_name: self.topic_name@,
            qos: self.qos_policy,
            cache: self.datasample_cache@,
            latest_instant: self.latest_instant.nanos,
        }
    }
}

impl<D: Keyed, DA: DeserializerAdapter<D>> DataReader<D, DA> {
    pub closed spec fn wf(&self) -> bool {
        self.datasample_cache.wf()
    }

    /// A reader of topic `topic_name` that will see the changes that arrive
    /// after `start`.
    pub fn new(my_guid: GUID, topic_name: &String, qos_policy: QosPolicies, start: Timestamp) -> (r: Self)
        ensures
            r.wf(),
            r@.guid == my_guid,
            r@.topic_name == topic_name@,
            r@.qos == qos_policy,
            r@.latest_instant == start.nanos,
            r@.cache.samples.len() == 0,
            r@.cache.instances == Map::<i64, crate::sample_cache::InstanceInfo>::empty(),
            r@.cache.last_seq == Map::<GUID, i64>::empty(),
            r@.cache.last_instant == start.nanos,
    {
        DataReader {
            my_guid,
            topic_name: topic_name.clone(),
            qos_policy,
            datasample_cache: DataSampleCache::new(start),
            latest_instant: start,
            deserializer_type: PhantomData,
        }
    }

    pub fn get_guid(&self) -> (r: GUID)
        ensures
            r == self@.guid,
    {
        self.my_guid
    }

    pub fn get_qos(&self) -> (r: QosPolicies)
        ensures
            r == self@.qos,
    {
        self.qos_policy
    }

    pub fn get_topic_name(&self) -> (r: &String)
        ensures
            r@ == self@.topic_name,
    {
        &self.topic_name
    }

    /// Decodes change `c` with the adapter.
    fn decode(&self, c: &CacheChange) -> (r: Option<Result<D, i64>>)
        requires
            self.wf(),
        ensures
            r == decoded_value::<D, DA>(self@.cache, *c),
    {
        match &c.data_value {
            DDSData::Data { serialized_payload: p } => {
                let encodings = DA::supported_encodings();
                if encoding_supported(&encodings, p.representation_identifier) {
                    match DA::from_bytes(bytes_slice(&p.value), p.representation_identifier) {
                        Ok(d) => Some(Ok(d)),
                        Err(_) => None,
                    }
                } else {
                    None
                }
            },
            DDSData::DataFrags { representation_identifier: r, bytes_frags: f } => {
                let encodings = DA::supported_encodings();
                if encoding_supported(&encodings, *r) {
                    match DA::from_vec_bytes(f.as_slice(), *r) {
                        Ok(d) => Some(Ok(d)),
                        Err(_) => None,
                    }
                } else {
                    None
                }
            },
            DDSData::DisposeByKey { key: p } => {
                match DA::key_from_bytes(bytes_slice(&p.value), p.representation_identifier) {
                    Ok(k) => Some(Err(k)),
                    Err(_) => None,
                }
            },
            DDSData::DisposeByKeyHash { key_hash: h } => {
                match self.datasample_cache.get_key_by_hash(*h) {
                    Some(k) => {
                        proof {
                            let v = self@.cache;
                            let k2 = choose|k2: i64| #[trigger] v.instances.contains_key(k2) && key_hash_of(k2) == *h;
                            lemma_key_hash_injective(k, k2);
                        }
                        Some(Err(k))
                    },
                    None => None,
                }
            },
        }
    }

    /// Draws the changes of the reader's topic that arrived after the last
    /// one it drew, decoding each into the sample cache; a change that does
    /// not decode, or that does not follow its writer's earlier samples, is
    /// skipped.
    pub fn fill_local_datasample_cache(&mut self, dds_cache: &DDSCache)
        requires
            old(self).wf(),
            dds_cache.wf(),
        ensures
            final(self).wf(),
            final(self)@ == after_drain::<D, DA>(old(self)@, dds_cache@),
    {
        let tc = match dds_cache.topic_cache(&self.topic_name) {
            Some(tc) => tc,
            None => {
                proof {
                    assert(after_fill::<D, DA>(self@.cache, Seq::empty()) == self@.cache);
                }
                return;
            },
        };
        let changes = tc.changes();
        let ghost all = changes@;
        let ghost r0 = self@;
        let ghost pred = later_than(r0.latest_instant);
        let latest0 = self.latest_instant.nanos;
        let mut i: usize = 0;
        proof {
            assert(all.take(0) =~= Seq::<(Timestamp, CacheChange)>::empty());
            reveal(Seq::filter);
        }
        while i < changes.len()
            invariant
                self.wf(),
                i <= all.len(),
                all == changes@,
                all == dds_cache@[r0.topic_name],
                pred == later_than(r0.latest_instant),
                latest0 == r0.latest_instant,
                self@ == (DataReaderView {
                    cache: after_fill::<D, DA>(r0.cache, all.take(i as int).filter(pred)),
                    latest_instant: if all.take(i as int).filter(pred).len() > 0 {
                        all.take(i as int).filter(pred).last().0.nanos
                    } else {
                        r0.latest_instant
                    },
                    ..r0
                }),
            decreases all.len() - i,
        {
            let e = &changes[i];
            let ghost fs = all.take(i as int).filter(pred);
            proof {
                assert(all.take(i + 1).drop_last() =~= all.take(i as int));
                assert(all.take(i + 1).last() == *e);
                reveal(Seq::filter);
            }
            assert(all.take(i + 1).filter(pred) == if pred(*e) {
                fs.push(*e)
            } else {
                fs
            });
            if latest0 < e.0.nanos {
                proof {
                    assert(fs.push(*e).drop_last() =~= fs);
                }
                let decoded = self.decode(&e.1);
                self.latest_instant = e.0;
                match decoded {
                    Some(val) => {
                        // a sample out of its writer's order is skipped
                        let c = &e.1;
                        if self.datasample_cache.accepts_next(&c.writer_guid, c.sequence_number, e.0) {
                            self.datasample_cache.add_sample(val, c.writer_guid, c.sequence_number, e.0, None);
                        }
                    },
                    None => {},
                }
            }
            i = i + 1;
        }
        proof {
            assert(all.take(i as int) =~= all);
        }
    }

    /// The identifiers of at most `max` samples meeting `cond`, oldest first.
    fn select_ids(&self, max_samples: usize, cond: ReadCondition) -> (r: Vec<u64>)
        requires
            self.wf(),
        ensures
            r@ == first_n(selected_ids(self@.cache, cond), max_samples),
            ids_distinct(r@),
            all_present(self@.cache.samples, r@),
    {
        let mut selected = self.datasample_cache.select_keys_for_access(cond);
        proof {
            self.datasample_cache.lemma_view_ok();
            lemma_selection_ok(self@.cache, selector(self@.cache, cond));
        }
        selected.truncate(max_samples);
        selected
    }

    fn select_instance_ids(&self, key: i64, max_samples: usize, cond: ReadCondition) -> (r: Vec<u64>)
        requires
            self.wf(),
        ensures
            r@ == first_n(selected_instance_ids(self@.cache, cond, key), max_samples),
            ids_distinct(r@),
            all_present(self@.cache.samples, r@),
    {
        let mut selected = self.datasample_cache.select_instance_keys_for_access(key, cond);
        proof {
            self.datasample_cache.lemma_view_ok();
            lemma_selection_ok(self@.cache, instance_selector(self@.cache, cond, key));
        }
        selected.truncate(max_samples);
        selected
    }

    /// Draws new changes, then reads at most `max_samples` samples meeting
    /// `read_condition`, oldest first: each is returned and marked read.
    pub fn read(
        &mut self,
        dds_cache: &DDSCache,
        max_samples: usize,
        read_condition: ReadCondition,
    ) -> (r: Vec<DataSample<D>>)
        where D: Clone
        requires
            old(self).wf(),
            dds_cache.wf(),
        ensures
            final(self).wf(),
            cache_view_ok(after_drain::<D, DA>(old(self)@, dds_cache@).cache),
            ({
                let f = after_drain::<D, DA>(old(self)@, dds_cache@);
                let ids = first_n(selected_ids(f.cache, read_condition), max_samples);
                &&& final(self)@ == after_read_query(f, ids)
                &&& r@.len() == ids.len()
                &&& forall|j: int| 0 <= j < ids.len() ==> hands_out(after_read(f.cache, ids.take(j)), ids[j], #[trigger] r@[j])
            }),
    {
        self.fill_local_datasample_cache(dds_cache);
        proof {
            self.datasample_cache.lemma_view_ok();
        }
        let selected = self.select_ids(max_samples, read_condition);
        self.datasample_cache.read_by_keys(&selected)
    }

    /// Draws new changes, then takes at most `max_samples` samples meeting
    /// `read_condition`, oldest first: each is returned and removed.
    pub fn take(
        &mut self,
        dds_cache: &DDSCache,
        max_samples: usize,
        read_condition: ReadCondition,
    ) -> (r: Vec<DataSample<D>>)
        where D: Clone
        requires
            old(self).wf(),
            dds_cache.wf(),
        ensures
            final(self).wf(),
            cache_view_ok(after_drain::<D, DA>(old(self)@, dds_cache@).cache),
            ({
                let f = after_drain::<D, DA>(old(self)@, dds_cache@);
                let ids = first_n(selected_ids(f.cache, read_condition), max_samples);
                &&& final(self)@ == after_take_query(f, ids)
                &&& r@.len() == ids.len()
                &&& forall|j: int| 0 <= j < ids.len() ==> hands_out(after_take(f.cache, ids.take(j)), ids[j], #[trigger] r@[j])
            }),
    {
        self.fill_local_datasample_cache(dds_cache);
        proof {
            self.datasample_cache.lemma_view_ok();
        }
        let selected = self.select_ids(max_samples, read_condition);
        self.datasample_cache.take_by_keys(&selected)
    }

    /// Draws new changes, then reads the oldest sample not read yet, if any.
    pub fn read_next_sample(&mut self, dds_cache: &DDSCache) -> (r: Option<DataSample<D>>)
        where D: Clone
        requires
            old(self).wf(),
            dds_cache.wf(),
        ensures
            final(self).wf(),
            ({
                let f = after_drain::<D, DA>(old(self)@, dds_cache@);
                let ids = first_n(selected_ids(f.cache, ReadCondition::not_read_spec()), 1);
                &&& final(self)@ == after_read_query(f, ids)
                &&& r is Some == (ids.len() == 1)
                &&& r is Some ==> hands_out(f.cache, ids[0], r.unwrap())
            }),
    {
        let mut ds = self.read(dds_cache, 1, ReadCondition::not_read());
        proof {
            let f = after_drain::<D, DA>(old(self)@, dds_cache@);
            let ids = first_n(selected_ids(f.cache, ReadCondition::not_read_spec()), 1);
            if ids.len() == 1 {
                assert(ids.take(0) =~= Seq::<u64>::empty());
            }
        }
        ds.pop()
    }

    /// Draws new changes, then takes the oldest sample not read yet, if any.
    pub fn take_next_sample(&mut self, dds_cache: &DDSCache) -> (r: Option<DataSample<D>>)
        where D: Clone
        requires
            old(self).wf(),
            dds_cache.wf(),
        ensures
            final(self).wf(),
            ({
                let f = after_drain::<D, DA>(old(self)@, dds_cache@);
                let ids = first_n(selected_ids(f.cache, ReadCondition::not_read_spec()), 1);
                &&& final(self)@ == after_take_query(f, ids)
                &&& r is Some == (ids.len() == 1)
                &&& r is Some ==> hands_out(f.cache, ids[0], r.unwrap())
            }),
    {
        let mut ds = self.take(dds_cache, 1, ReadCondition::not_read());
        proof {
            let f = after_drain::<D, DA>(old(self)@, dds_cache@);
            let ids = first_n(selected_ids(f.cache, ReadCondition::not_read_spec()), 1);
            if ids.len() == 1 {
                assert(ids.take(0) =~= Seq::<u64>::empty());
            }
        }
        ds.pop()
    }

    /// The instance key that a keyed read addresses.
    fn infer_key(&self, instance_key: Option<i64>, this_or_next: SelectByKey) -> (r: Option<i64>)
        requires
            self.wf(),
        ensures
            r == addressed_instance(self@.cache, instance_key, this_or_next),
    {
        match instance_key {
            Some(k) => match this_or_next {
                SelectByKey::This => Some(k),
                SelectByKey::Next => {
                    let n = self.datasample_cache.get_next_key(k);
                    proof {
                        let v = self@.cache;
                        match n {
                            Some(x) => {
                                let y = choose|y: i64| is_next_key(v.instances, k, y);
                                assert(x <= y && y <= x);
                            },
                            None => {
                                if exists|y: i64| is_next_key(v.instances, k, y) {
                                    let y = choose|y: i64| is_next_key(v.instances, k, y);
                                    assert(v.instances.contains_key(y));
                                }
                            },
                        }
                    }
                    n
                },
            },
            None => {
                let n = self.datasample_cache.get_first_key();
                proof {
                    let v = self@.cache;
                    match n {
                        Some(x) => {
                            let y = choose|y: i64| is_first_key(v.instances, y);
                            assert(x <= y && y <= x);
                        },
                        None => {
                            if exists|y: i64| is_first_key(v.instances, y) {
                                let y = choose|y: i64| is_first_key(v.instances, y);
                                assert(v.instances.contains_key(y));
                            }
                        },
                    }
                }
                n
            },
        }
    }

    /// Draws new changes, then reads at most `max_samples` samples meeting
    /// `read_condition` of one instance, oldest first: the instance of
    /// `instance_key` for `This`, the next one after it for `Next`, the
    /// smallest one when no key is given. Nothing is read when there is no
    /// such instance.
    pub fn read_instance(
        &mut self,
        dds_cache: &DDSCache,
        max_samples: usize,
        read_condition: ReadCondition,
        instance_key: Option<i64>,
        this_or_next: SelectByKey,
    ) -> (r: Vec<DataSample<D>>)
        where D: Clone
        requires
            old(self).wf(),
            dds_cache.wf(),
        ensures
            final(self).wf(),
            cache_view_ok(after_drain::<D, DA>(old(self)@, dds_cache@).cache),
            ({
                let f = after_drain::<D, DA>(old(self)@, dds_cache@);
                let ids = instance_ids(f.cache, read_condition, addressed_instance(f.cache, instance_key, this_or_next), max_samples);
                &&& final(self)@ == after_read_query(f, ids)
                &&& r@.len() == ids.len()
                &&& forall|j: int| 0 <= j < ids.len() ==> hands_out(after_read(f.cache, ids.take(j)), ids[j], #[trigger] r@[j])
            }),
    {
        self.fill_local_datasample_cache(dds_cache);
        proof {
            self.datasample_cache.lemma_view_ok();
        }
        let key = match self.infer_key(instance_key, this_or_next) {
            Some(k) => k,
            None => {
                proof {
                    assert(after_read(self@.cache, Seq::<u64>::empty()) == self@.cache);
                }
                return Vec::new();
            },
        };
        let selected = self.select_instance_ids(key, max_samples, read_condition);
        self.datasample_cache.read_by_keys(&selected)
    }

    /// Draws new changes, then takes at most `max_samples` samples meeting
    /// `read_condition` of one instance, oldest first, addressed as
    /// `read_instance` does. Nothing is taken when there is no such
    /// instance.
    pub fn take_instance(
        &mut self,
        dds_cache: &DDSCache,
        max_samples: usize,
        read_condition: ReadCondition,
        instance_key: Option<i64>,
        this_or_next: SelectByKey,
    ) -> (r: Vec<DataSample<D>>)
        where D: Clone
        requires
            old(self).wf(),
            dds_cache.wf(),
        ensures
            final(self).wf(),
            cache_view_ok(after_drain::<D, DA>(old(self)@, dds_cache@).cache),
            ({
                let f = after_drain::<D, DA>(old(self)@, dds_cache@);
                let ids = instance_ids(f.cache, read_condition, addressed_instance(f.cache, instance_key, this_or_next), max_samples);
                &&& final(self)@ == after_take_query(f, ids)
                &&& r@.len() == ids.len()
                &&& forall|j: int| 0 <= j < ids.len() ==> hands_out(after_take(f.cache, ids.take(j)), ids[j], #[trigger] r@[j])
            }),
    {
        self.fill_local_datasample_cache(dds_cache);
        proof {
            self.datasample_cache.lemma_view_ok();
        }
        let key = match self.infer_key(instance_key, this_or_next) {
            Some(k) => k,
            None => {
                proof {
                    assert(after_take(self@.cache, Seq::<u64>::empty()) == self@.cache);
                }
                return Vec::new();
            },
        };
        let selected = self.select_instance_ids(key, max_samples, read_condition);
        self.datasample_cache.take_by_keys(&selected)
    }

    /// The values of the samples handed out, in order.
    fn values_of(samples: Vec<DataSample<D>>) -> (r: Vec<Result<D, i64>>)
        ensures
            r@ == samples@.map_values(|ds: DataSample<D>| ds.value),
    {
        let ghost all = samples@;
        let total = samples.len();
        let mut rest = samples;
        let mut r: Vec<Result<D, i64>> = Vec::new();
        let mut i: usize = 0;
        while rest.len() > 0
            invariant
                i + rest@.len() == all.len(),
                all.len() == total,
                rest@ == all.skip(i as int),
                r@ == all.take(i as int).map_values(|ds: DataSample<D>| ds.value),
            decreases rest@.len(),
        {
            let ds = rest.remove(0);
            proof {
                assert(ds == all[i as int]);
                assert(rest@ =~= all.skip(i + 1));
                assert(all.take(i + 1).map_values(|ds: DataSample<D>| ds.value) =~= all.take(i as int).map_values(|ds: DataSample<D>| ds.value).push(ds.value));
            }
            r.push(ds.value);
            i = i + 1;
        }
        assert(all.take(i as int) =~= all);
        r
    }

    /// The values of every sample not read yet, oldest first, which are
    /// marked read.
    pub fn iterator(&mut self, dds_cache: &DDSCache) -> (r: Vec<Result<D, i64>>)
        where D: Clone
        requires
            old(self).wf(),
            dds_cache.wf(),
        ensures
            final(self).wf(),
            ({
                let f = after_drain::<D, DA>(old(self)@, dds_cache@);
                let ids = first_n(selected_ids(f.cache, ReadCondition::not_read_spec()), usize::MAX);
                &&& final(self)@ == after_read_query(f, ids)
                &&& r@.len() == ids.len()
                &&& forall|j: int| 0 <= j < ids.len() ==> hands_out_value(after_read(f.cache, ids.take(j)), ids[j], #[trigger] r@[j])
            }),
    {
        self.conditional_iterator(dds_cache, ReadCondition::not_read())
    }

    /// The values of every sample meeting `read_condition`, oldest first,
    /// which are marked read.
    pub fn conditional_iterator(
        &mut self,
        dds_cache: &DDSCache,
        read_condition: ReadCondition,
    ) -> (r: Vec<Result<D, i64>>)
        where D: Clone
        requires
            old(self).wf(),
            dds_cache.wf(),
        ensures
            final(self).wf(),
            ({
                let f = after_drain::<D, DA>(old(self)@, dds_cache@);
                let ids = first_n(selected_ids(f.cache, read_condition), usize::MAX);
                &&& final(self)@ == after_read_query(f, ids)
                &&& r@.len() == ids.len()
                &&& forall|j: int| 0 <= j < ids.len() ==> hands_out_value(after_read(f.cache, ids.take(j)), ids[j], #[trigger] r@[j])
            }),
    {
        let samples = self.read(dds_cache, usize::MAX, read_condition);
        Self::values_of(samples)
    }

    /// The values of every sample not read yet, oldest first, which are
    /// taken out of the reader.
    pub fn into_iterator(&mut self, dds_cache: &DDSCache) -> (r: Vec<Result<D, i64>>)
        where D: Clone
        requires
            old(self).wf(),
            dds_cache.wf(),
        ensures
            final(self).wf(),
            ({
                let f = after_drain::<D, DA>(old(self)@, dds_cache@);
                let ids = first_n(selected_ids(f.cache, ReadCondition::not_read_spec()), usize::MAX);
                &&& final(self)@ == after_take_query(f, ids)
                &&& r@.len() == ids.len()
                &&& forall|j: int| 0 <= j < ids.len() ==> hands_out_value(after_take(f.cache, ids.take(j)), ids[j], #[trigger] r@[j])
            }),
    {
        self.into_conditional_iterator(dds_cache, ReadCondition::not_read())
    }

    /// The values of every sample meeting `read_condition`, oldest first,
    /// which are taken out of the reader.
    pub fn into_conditional_iterator(
        &mut self,
        dds_cache: &DDSCache,
        read_condition: ReadCondition,
    ) -> (r: Vec<Result<D, i64>>)
        where D: Clone
        requires
            old(self).wf(),
            dds_cache.wf(),
        ensures
            final(self).wf(),
            ({
                let f = after_drain::<D, DA>(old(self)@, dds_cache@);
                let ids = first_n(selected_ids(f.cache, read_condition), usize::MAX);
                &&& final(self)@ == after_take_query(f, ids)
                &&& r@.len() == ids.len()
                &&& forall|j: int| 0 <= j < ids.len() ==> hands_out_value(after_take(f.cache, ids.take(j)), ids[j], #[trigger] r@[j])
            }),
    {
        let samples = self.take(dds_cache, usize::MAX, read_condition);
        Self::values_of(samples)
    }

    /// The remote writers matched with this reader, as `db` records them.
    pub fn get_matched_publications<'a>(
        &self,
        db: &'a DiscoveryDB,
    ) -> (r: Option<&'a Vec<DiscoveredWriterData>>)
        requires
            db.wf(),
        ensures
            r is Some == db@.readers_writer_proxies.contains_key(self@.guid),
            r is Some ==> writer_views(r.unwrap()@) == db@.readers_writer_proxies[self@.guid],
    {
        db.get_readers_writer_proxies(self.my_guid)
    }
}

} // verus!
