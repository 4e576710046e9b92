//! The per-reader sample-state engine: decoded samples in arrival order,
//! with DDS sample, view and instance states, and the keyed instance index.
use vstd::prelude::*;
use crate::assoc::{
    has_key, keys_unique, lemma_to_map_index, lemma_to_map_push, lemma_to_map_remove,
    lemma_to_map_update, to_map,
};
use crate::guid::{GUID, Timestamp};

verus! {

/// A data type whose values carry an instance key.
pub trait Keyed {
    /// The instance key of the value. An implementation states it; the
    /// default says nothing of any value but that it has some key.
    open spec fn key_spec(&self) -> i64 {
        arbitrary()
    }

    fn get_key(&self) -> (k: i64)
        ensures
            k == self.key_spec(),
    ;
}

#[derive(Clone, Copy, Debug, PartialEq, Eq, Structural)]
pub enum SampleState {
    Read,
    NotRead,
}

#[derive(Clone, Copy, Debug, PartialEq, Eq, Structural)]
pub enum ViewState {
    New,
    NotNew,
}

#[derive(Clone, Copy, Debug, PartialEq, Eq, Structural)]
pub enum InstanceState {
    Alive,
    NotAliveDisposed,
    NotAliveNoWriters,
}

/// Which states a read or take accepts: one set of sample states, one of
/// view states and one of instance states.
#[derive(Clone, Copy, Debug, PartialEq, Eq, Structural)]
pub struct ReadCondition {
    pub read: bool,
    pub not_read: bool,
    pub new: bool,
    pub not_new: bool,
    pub alive: bool,
    pub not_alive_disposed: bool,
    pub not_alive_no_writers: bool,
}

impl ReadCondition {
    /// Accepts every sample.
    pub fn any() -> (r: ReadCondition)
        ensures
            r == (ReadCondition {
                read: true,
                not_read: true,
                new: true,
                not_new: true,
                alive: true,
                not_alive_disposed: true,
                not_alive_no_writers: true,
            }),
    {
        ReadCondition {
            read: true,
            not_read: true,
            new: true,
            not_new: true,
            alive: true,
            not_alive_disposed: true,
            not_alive_no_writers: true,
        }
    }

    /// Accepts the samples not read yet, whatever their other states.
    pub fn not_read() -> (r: ReadCondition)
        ensures
            r == ReadCondition::not_read_spec(),
    {
        ReadCondition {
            read: false,
            not_read: true,
            new: true,
            not_new: true,
            alive: true,
            not_alive_disposed: true,
            not_alive_no_writers: true,
        }
    }

    pub open spec fn not_read_spec() -> ReadCondition {
        ReadCondition {
            read: false,
            not_read: true,
            new: true,
            not_new: true,
            alive: true,
            not_alive_disposed: true,
            not_alive_no_writers: true,
        }
    }

    pub open spec fn accepts(self, s: SampleState, v: ViewState, i: InstanceState) -> bool {
        &&& match s {
            SampleState::Read => self.read,
            SampleState::NotRead => self.not_read,
        }
        &&& match v {
            ViewState::New => self.new,
            ViewState::NotNew => self.not_new,
        }
        &&& match i {
            InstanceState::Alive => self.alive,
            InstanceState::NotAliveDisposed => self.not_alive_disposed,
            InstanceState::NotAliveNoWriters => self.not_alive_no_writers,
        }
    }

    pub fn accepts_exec(&self, s: SampleState, v: ViewState, i: InstanceState) -> (r: bool)
        ensures
            r == self.accepts(s, v, i),
    {
        let a = match s {
            SampleState::Read => self.read,
            SampleState::NotRead => self.not_read,
        };
        let b = match v {
            ViewState::New => self.new,
            ViewState::NotNew => self.not_new,
        };
        let c = match i {
            InstanceState::Alive => self.alive,
            InstanceState::NotAliveDisposed => self.not_alive_disposed,
            InstanceState::NotAliveNoWriters => self.not_alive_no_writers,
        };
        a && b && c
    }
}

/// One received sample: the decoded value, or only the key for a dispose.
#[derive(Debug)]
pub struct SampleRecord<D> {
    pub value: Result<D, i64>,
    pub key: i64,
    pub writer_guid: GUID,
    pub sequence_number: i64,
    pub instant: Timestamp,
    pub source_timestamp: Option<Timestamp>,
    pub sample_state: SampleState,
}

/// What the reader knows of one instance.
#[derive(Clone, Copy, Debug, PartialEq, Eq, Structural)]
pub struct InstanceInfo {
    pub instance_state: InstanceState,
    pub view_state: ViewState,
}

/// Metadata returned with each sample.
#[derive(Clone, Copy, Debug, PartialEq, Eq, Structural)]
pub struct SampleInfo {
    pub sample_state: SampleState,
    pub view_state: ViewState,
    pub instance_state: InstanceState,
    pub source_timestamp: Option<Timestamp>,
    pub publication_handle: GUID,
    pub sequence_number: i64,
    pub instance_key: i64,
}

/// A sample as handed to the application: its metadata and its value, or its
/// key when it is a dispose.
#[derive(Debug)]
pub struct DataSample<D> {
    pub sample_info: SampleInfo,
    pub value: Result<D, i64>,
}

impl<D> DataSample<D> {
    pub fn value(&self) -> (r: &Result<D, i64>)
        ensures
            r == &self.value,
    {
        &self.value
    }

    pub fn into_value(self) -> (r: Result<D, i64>)
        ensures
            r == self.value,
    {
        self.value
    }

    pub fn sample_info(&self) -> (r: SampleInfo)
        ensures
            r == self.sample_info,
    {
        self.sample_info
    }
}

/// The key hash of an integer key: its eight big-endian bytes followed by
/// eight zero bytes, read as a big-endian 128-bit integer.
pub open spec fn key_hash_of(k: i64) -> int {
    (k as u64) as int * 0x1_0000_0000_0000_0000
}

pub fn key_hash(k: i64) -> (r: u128)
    ensures
        r == key_hash_of(k),
{
    assert((k as u64) as int * 0x1_0000_0000_0000_0000 <= u128::MAX) by (nonlinear_arith)
        requires (k as u64) as int <= u64::MAX;
    (k as u64) as u128 * 0x1_0000_0000_0000_0000u128
}

pub ghost struct SampleCacheView<D> {
    pub samples: Seq<SampleRecord<D>>,
    pub instances: Map<i64, InstanceInfo>,
    pub last_seq: Map<GUID, i64>,
    pub last_instant: u64,
}

/// The instance state after a sample arrives: data makes an instance alive,
/// and new again if it was not alive; a dispose makes it not alive.
pub open spec fn instance_after_add(old: Option<InstanceInfo>, is_data: bool) -> InstanceInfo {
    match old {
        None => InstanceInfo {
            instance_state: if is_data {
                InstanceState::Alive
            } else {
                InstanceState::NotAliveDisposed
            },
            view_state: ViewState::New,
        },
        Some(i) => if is_data {
            if i.instance_state == InstanceState::Alive {
                i
            } else {
                InstanceInfo { instance_state: InstanceState::Alive, view_state: ViewState::New }
            }
        } else {
            InstanceInfo { instance_state: InstanceState::NotAliveDisposed, view_state: i.view_state }
        },
    }
}

pub open spec fn lookup(m: Map<i64, InstanceInfo>, k: i64) -> Option<InstanceInfo> {
    if m.contains_key(k) {
        Some(m[k])
    } else {
        None
    }
}

/// The cache after sample `s` arrives.
pub open spec fn after_add<D>(v: SampleCacheView<D>, s: SampleRecord<D>) -> SampleCacheView<D> {
    SampleCacheView {
        samples: v.samples.push(s),
        instances: v.instances.insert(s.key, instance_after_add(lookup(v.instances, s.key), s.value is Ok)),
        last_seq: v.last_seq.insert(s.writer_guid, s.sequence_number),
        last_instant: s.instant.nanos,
    }
}

/// Whether sample `s` may follow what the cache has seen: it arrived later,
/// and after every earlier sample of its writer.
pub open spec fn fresh<D>(v: SampleCacheView<D>, s: SampleRecord<D>) -> bool {
    &&& s.instant.nanos > v.last_instant
    &&& v.last_seq.contains_key(s.writer_guid) ==> v.last_seq[s.writer_guid] < s.sequence_number
}

pub open spec fn has_id<D>(s: Seq<SampleRecord<D>>, id: u64) -> bool {
    exists|i: int| 0 <= i < s.len() && s[i].instant.nanos == id
}

pub open spec fn index_of_id<D>(s: Seq<SampleRecord<D>>, id: u64) -> int {
    choose|i: int| 0 <= i < s.len() && s[i].instant.nanos == id
}

/// Whether sample `s` meets condition `c`, given the states of its
/// instance.
pub open spec fn sample_matches<D>(c: ReadCondition, s: SampleRecord<D>, inst: InstanceInfo) -> bool {
    c.accepts(s.sample_state, inst.view_state, inst.instance_state)
}

pub open spec fn selector<D>(v: SampleCacheView<D>, c: ReadCondition) -> spec_fn(SampleRecord<D>) -> bool {
    |s: SampleRecord<D>| sample_matches(c, s, v.instances[s.key])
}

pub open spec fn instance_selector<D>(
    v: SampleCacheView<D>,
    c: ReadCondition,
    k: i64,
) -> spec_fn(SampleRecord<D>) -> bool {
    |s: SampleRecord<D>| s.key == k && sample_matches(c, s, v.instances[s.key])
}

pub open spec fn ids_of<D>(s: Seq<SampleRecord<D>>) -> Seq<u64> {
    s.map_values(|r: SampleRecord<D>| r.instant.nanos)
}

/// The identifiers of the samples that meet `c`, in arrival order.
pub open spec fn selected_ids<D>(v: SampleCacheView<D>, c: ReadCondition) -> Seq<u64> {
    ids_of(v.samples.filter(selector(v, c)))
}

/// The identifiers of the samples of instance `k` that meet `c`, in arrival
/// order.
pub open spec fn selected_instance_ids<D>(v: SampleCacheView<D>, c: ReadCondition, k: i64) -> Seq<u64> {
    ids_of(v.samples.filter(instance_selector(v, c, k)))
}

/// The metadata that the sample with identifier `id` is returned with.
pub open spec fn info_of<D>(v: SampleCacheView<D>, id: u64) -> SampleInfo {
    let s = v.samples[index_of_id(v.samples, id)];
    SampleInfo {
        sample_state: s.sample_state,
        view_state: v.instances[s.key].view_state,
        instance_state: v.instances[s.key].instance_state,
        source_timestamp: s.source_timestamp,
        publication_handle: s.writer_guid,
        sequence_number: s.sequence_number,
        instance_key: s.key,
    }
}

/// The cache after the sample with identifier `id` is read: the sample is
/// marked read and its instance is no longer new.
pub open spec fn after_read_one<D>(v: SampleCacheView<D>, id: u64) -> SampleCacheView<D> {
    let i = index_of_id(v.samples, id);
    let s = v.samples[i];
    SampleCacheView {
        samples: v.samples.update(i, SampleRecord { sample_state: SampleState::Read, ..s }),
        instances: v.instances.insert(s.key, InstanceInfo { view_state: ViewState::NotNew, ..v.instances[s.key] }),
        ..v
    }
}

/// Whether some sample of `s` is of instance `k`.
pub open spec fn has_instance_sample<D>(s: Seq<SampleRecord<D>>, k: i64) -> bool {
    exists|j: int| 0 <= j < s.len() && s[j].key == k
}

/// The cache after the sample with identifier `id` is taken: the sample
/// leaves; its instance is no longer new, and is forgotten if it is not
/// alive and has no sample left.
pub open spec fn after_take_one<D>(v: SampleCacheView<D>, id: u64) -> SampleCacheView<D> {
    let i = index_of_id(v.samples, id);
    let s = v.samples[i];
    let rest = v.samples.remove(i);
    let inst = InstanceInfo { view_state: ViewState::NotNew, ..v.instances[s.key] };
    SampleCacheView {
        samples: rest,
        instances: if inst.instance_state != InstanceState::Alive && !has_instance_sample(rest, s.key) {
            v.instances.remove(s.key)
        } else {
            v.instances.insert(s.key, inst)
        },
        ..v
    }
}

pub open spec fn after_read<D>(v: SampleCacheView<D>, ids: Seq<u64>) -> SampleCacheView<D>
    decreases ids.len(),
{
    if ids.len() == 0 {
        v
    } else {
        after_read_one(after_read(v, ids.drop_last()), ids.last())
    }
}

pub open spec fn after_take<D>(v: SampleCacheView<D>, ids: Seq<u64>) -> SampleCacheView<D>
    decreases ids.len(),
{
    if ids.len() == 0 {
        v
    } else {
        after_take_one(after_take(v, ids.drop_last()), ids.last())
    }
}

/// Whether `value` is the value of the sample with identifier `id`, or a
/// clone of it.
pub open spec fn hands_out_value<D: Clone>(v: SampleCacheView<D>, id: u64, value: Result<D, i64>) -> bool {
    match (v.samples[index_of_id(v.samples, id)].value, value) {
        (Ok(a), Ok(b)) => cloned(a, b),
        (Err(a), Err(b)) => a == b,
        _ => false,
    }
}

/// Whether `ds` is the sample with identifier `id` as the cache `v` hands it
/// out: its metadata, and its value or a clone of it.
pub open spec fn hands_out<D: Clone>(v: SampleCacheView<D>, id: u64, ds: DataSample<D>) -> bool {
    &&& ds.sample_info == info_of(v, id)
    &&& hands_out_value(v, id, ds.value)
}

pub open spec fn cache_view_ok<D>(v: SampleCacheView<D>) -> bool {
    &&& forall|i: int, j: int| 0 <= i < j < v.samples.len() ==> #[trigger] v.samples[i].instant.nanos < #[trigger] v.samples[j].instant.nanos
    &&& forall|i: int| 0 <= i < v.samples.len() ==> (#[trigger] v.samples[i]).instant.nanos <= v.last_instant
    &&& forall|i: int| 0 <= i < v.samples.len() ==> v.instances.contains_key((#[trigger] v.samples[i]).key)
    &&& forall|i: int, j: int|
        0 <= i < j < v.samples.len() && (#[trigger] v.samples[i]).writer_guid == (#[trigger] v.samples[j]).writer_guid
            ==> v.samples[i].sequence_number < v.samples[j].sequence_number
    &&& forall|i: int| 0 <= i < v.samples.len() ==> v.last_seq.contains_key((#[trigger] v.samples[i]).writer_guid)
        && v.samples[i].sequence_number <= v.last_seq[v.samples[i].writer_guid]
}

/// The instance key a value stands for.
pub open spec fn key_of_value<D: Keyed>(v: Result<D, i64>) -> i64 {
    match v {
        Ok(d) => d.key_spec(),
        Err(k) => k,
    }
}

pub open spec fn ids_distinct(ids: Seq<u64>) -> bool {
    forall|a: int, b: int| 0 <= a < b < ids.len() ==> ids[a] != ids[b]
}

/// Whether every identifier of `ids` names a sample of `s`.
pub open spec fn all_present<D>(s: Seq<SampleRecord<D>>, ids: Seq<u64>) -> bool {
    forall|a: int| 0 <= a < ids.len() ==> has_id(s, #[trigger] ids[a])
}

/// Whether `n` is the smallest key of `m` strictly greater than `k`.
pub open spec fn is_next_key(m: Map<i64, InstanceInfo>, k: i64, n: i64) -> bool {
    m.contains_key(n) && k < n && forall|x: i64| #[trigger] m.contains_key(x) && k < x ==> n <= x
}

/// Whether `n` is the smallest key of `m`.
pub open spec fn is_first_key(m: Map<i64, InstanceInfo>, n: i64) -> bool {
    m.contains_key(n) && forall|x: i64| #[trigger] m.contains_key(x) ==> n <= x
}

proof fn lemma_has_id_of_ids<D>(s: Seq<SampleRecord<D>>, t: Seq<SampleRecord<D>>, id: u64)
    requires
        ids_of(s) == ids_of(t),
        has_id(s, id),
    ensures
        has_id(t, id),
{
    let i = choose|i: int| 0 <= i < s.len() && s[i].instant.nanos == id;
    assert(ids_of(s)[i] == id);
    assert(ids_of(t).len() == t.len());
    assert(t[i].instant.nanos == ids_of(t)[i]);
}

/// Elements that a filter keeps stand in the filtered sequence in the order
/// they stood in the sequence filtered.
pub proof fn lemma_filter_positions<A>(s: Seq<A>, pred: spec_fn(A) -> bool, a: int, b: int)
    requires
        0 <= a < b < s.filter(pred).len(),
    ensures
        exists|ka: int, kb: int|
            0 <= ka < kb < s.len() && s[ka] == s.filter(pred)[a] && s[kb] == s.filter(pred)[b],
    decreases s.len(),
{
    reveal(Seq::filter);
    let t = s.drop_last();
    if pred(s.last()) && b == s.filter(pred).len() - 1 {
        assert(s.filter(pred) == t.filter(pred).push(s.last()));
        assert(t.filter(pred).contains(t.filter(pred)[a]));
        t.lemma_filter_contains_rev(pred, t.filter(pred)[a]);
        let ka = choose|ka: int| 0 <= ka < t.len() && t[ka] == t.filter(pred)[a];
        assert(s[ka] == s.filter(pred)[a]);
        assert(s[s.len() - 1] == s.filter(pred)[b]);
    } else {
        assert(s.filter(pred)[a] == t.filter(pred)[a]);
        assert(s.filter(pred)[b] == t.filter(pred)[b]);
        lemma_filter_positions(t, pred, a, b);
        let (ka, kb) = choose|ka: int, kb: int|
            0 <= ka < kb < t.len() && t[ka] == t.filter(pred)[a] && t[kb] == t.filter(pred)[b];
        assert(s[ka] == t[ka] && s[kb] == t[kb]);
    }
}

/// The identifiers that a selection yields are distinct, name samples of
/// the cache, and increase.
pub proof fn lemma_selection_ok<D>(v: SampleCacheView<D>, pred: spec_fn(SampleRecord<D>) -> bool)
    requires
        cache_view_ok(v),
    ensures
        ids_distinct(ids_of(v.samples.filter(pred))),
        all_present(v.samples, ids_of(v.samples.filter(pred))),
        forall|a: int, b: int| 0 <= a < b < ids_of(v.samples.filter(pred)).len() ==>
            #[trigger] ids_of(v.samples.filter(pred))[a] < #[trigger] ids_of(v.samples.filter(pred))[b],
{
    let f = v.samples.filter(pred);
    let ids = ids_of(f);
    assert forall|a: int, b: int| 0 <= a < b < ids.len() implies #[trigger] ids[a] < #[trigger] ids[b] by {
        lemma_filter_positions(v.samples, pred, a, b);
        let (ka, kb) = choose|ka: int, kb: int|
            0 <= ka < kb < v.samples.len() && v.samples[ka] == f[a] && v.samples[kb] == f[b];
        assert(v.samples[ka].instant.nanos < v.samples[kb].instant.nanos);
    }
    assert forall|a: int| 0 <= a < ids.len() implies has_id(v.samples, #[trigger] ids[a]) by {
        assert(f.contains(f[a]));
        v.samples.lemma_filter_contains_rev(pred, f[a]);
        let k = choose|k: int| 0 <= k < v.samples.len() && v.samples[k] == f[a];
        assert(v.samples[k].instant.nanos == ids[a]);
    }
}

/// At most `n` of the identifiers, from the front.
pub open spec fn first_n(s: Seq<u64>, n: usize) -> Seq<u64> {
    if n < s.len() {
        s.take(n as int)
    } else {
        s
    }
}

pub open spec fn ids_increasing<D>(s: Seq<SampleRecord<D>>) -> bool {
    forall|i: int, j: int| 0 <= i < j < s.len() ==> #[trigger] s[i].instant.nanos < #[trigger] s[j].instant.nanos
}

/// The record with identifier `id`.
pub open spec fn record_of<D>(v: SampleCacheView<D>, id: u64) -> SampleRecord<D> {
    v.samples[index_of_id(v.samples, id)]
}

/// Whether two records are the same sample, whatever their sample states.
pub open spec fn same_sample<D>(a: SampleRecord<D>, b: SampleRecord<D>) -> bool {
    a == SampleRecord { sample_state: a.sample_state, ..b }
}

proof fn lemma_index_of_id<D>(s: Seq<SampleRecord<D>>, i: int)
    requires
        ids_increasing(s),
        0 <= i < s.len(),
    ensures
        has_id(s, s[i].instant.nanos),
        index_of_id(s, s[i].instant.nanos) == i,
{
    let id = s[i].instant.nanos;
    assert(has_id(s, id));
    let j = index_of_id(s, id);
    if j < i {
        assert(s[j].instant.nanos < s[i].instant.nanos);
    } else if j > i {
        assert(s[i].instant.nanos < s[j].instant.nanos);
    }
}

/// Reading keeps every sample, in place, but for its sample state; a read
/// sample is marked read.
pub proof fn lemma_after_read_keeps<D>(v: SampleCacheView<D>, ids: Seq<u64>)
    requires
        ids_increasing(v.samples),
        all_present(v.samples, ids),
    ensures
        after_read(v, ids).samples.len() == v.samples.len(),
        ids_increasing(after_read(v, ids).samples),
        after_read(v, ids).last_instant == v.last_instant,
        forall|i: int| 0 <= i < v.samples.len() ==> same_sample(#[trigger] after_read(v, ids).samples[i], v.samples[i]),
        forall|i: int| 0 <= i < v.samples.len() && ids.contains(v.samples[i].instant.nanos) ==> (#[trigger] after_read(v, ids).samples[i]).sample_state == SampleState::Read,
        forall|i: int| 0 <= i < v.samples.len() && !ids.contains(v.samples[i].instant.nanos) ==> (#[trigger] after_read(v, ids).samples[i]).sample_state == v.samples[i].sample_state,
    decreases ids.len(),
{
    if ids.len() > 0 {
        let p = ids.drop_last();
        assert(all_present(v.samples, p)) by {
            assert forall|a: int| 0 <= a < p.len() implies has_id(v.samples, #[trigger] p[a]) by {
                assert(p[a] == ids[a]);
            }
        }
        lemma_after_read_keeps(v, p);
        let w = after_read(v, p);
        let id = ids.last();
        assert(has_id(v.samples, ids[ids.len() - 1]));
        let k = choose|k: int| 0 <= k < v.samples.len() && v.samples[k].instant.nanos == id;
        assert(same_sample(w.samples[k], v.samples[k]));
        lemma_index_of_id(w.samples, k);
        let u = after_read(v, ids);
        assert(u == after_read_one(w, id));
        assert forall|i: int, j: int| 0 <= i < j < u.samples.len() implies #[trigger] u.samples[i].instant.nanos < #[trigger] u.samples[j].instant.nanos by {
            assert(w.samples[i].instant == u.samples[i].instant);
            assert(w.samples[j].instant == u.samples[j].instant);
        }
        assert forall|i: int| 0 <= i < v.samples.len() && ids.contains(v.samples[i].instant.nanos) implies (#[trigger] u.samples[i]).sample_state == SampleState::Read by {
            if i != k {
                let a = choose|a: int| 0 <= a < ids.len() && ids[a] == v.samples[i].instant.nanos;
                if a == ids.len() - 1 {
                    assert(v.samples[i].instant.nanos == v.samples[k].instant.nanos);
                    if i < k {
                        assert(v.samples[i].instant.nanos < v.samples[k].instant.nanos);
                    } else {
                        assert(v.samples[k].instant.nanos < v.samples[i].instant.nanos);
                    }
                }
                assert(p[a] == ids[a]);
                assert(p.contains(v.samples[i].instant.nanos));
            }
        }
        assert forall|i: int| 0 <= i < v.samples.len() && !ids.contains(v.samples[i].instant.nanos) implies (#[trigger] u.samples[i]).sample_state == v.samples[i].sample_state by {
            if i == k {
                assert(ids[ids.len() - 1] == id);
            }
            if p.contains(v.samples[i].instant.nanos) {
                let a = choose|a: int| 0 <= a < p.len() && p[a] == v.samples[i].instant.nanos;
                assert(ids[a] == p[a]);
            }
        }
    }
}

/// Taking removes exactly the taken samples; every other sample keeps its
/// record.
pub proof fn lemma_after_take_keeps<D>(v: SampleCacheView<D>, ids: Seq<u64>, id: u64)
    requires
        ids_increasing(v.samples),
        ids_distinct(ids),
        all_present(v.samples, ids),
        has_id(v.samples, id),
    ensures
        ids_increasing(after_take(v, ids).samples),
        after_take(v, ids).last_instant == v.last_instant,
        ids.contains(id) ==> !has_id(after_take(v, ids).samples, id),
        !ids.contains(id) ==> has_id(after_take(v, ids).samples, id) && record_of(after_take(v, ids), id) == record_of(v, id),
    decreases ids.len(),
{
    if ids.len() > 0 {
        let p = ids.drop_last();
        let last = ids.last();
        assert(all_present(v.samples, p)) by {
            assert forall|a: int| 0 <= a < p.len() implies has_id(v.samples, #[trigger] p[a]) by {
                assert(p[a] == ids[a]);
            }
        }
        assert(ids_distinct(p)) by {
            assert forall|a: int, b: int| 0 <= a < b < p.len() implies p[a] != p[b] by {
                assert(p[a] == ids[a] && p[b] == ids[b]);
            }
        }
        assert(!p.contains(last)) by {
            if p.contains(last) {
                let a = choose|a: int| 0 <= a < p.len() && p[a] == last;
                assert(ids[a] == ids[ids.len() - 1]);
            }
        }
        assert(has_id(v.samples, ids[ids.len() - 1]));
        lemma_after_take_keeps(v, p, last);
        lemma_after_take_keeps(v, p, id);
        let w = after_take(v, p);
        let u = after_take(v, ids);
        assert(u == after_take_one(w, last));
        let k = index_of_id(w.samples, last);
        assert forall|i: int, j: int| 0 <= i < j < u.samples.len() implies #[trigger] u.samples[i].instant.nanos < #[trigger] u.samples[j].instant.nanos by {
            let i1 = if i < k { i } else { i + 1 };
            let j1 = if j < k { j } else { j + 1 };
            assert(u.samples[i] == w.samples[i1]);
            assert(u.samples[j] == w.samples[j1]);
        }
        if id == last {
            if has_id(u.samples, id) {
                let a = choose|a: int| 0 <= a < u.samples.len() && u.samples[a].instant.nanos == id;
                let a1 = if a < k { a } else { a + 1 };
                assert(u.samples[a] == w.samples[a1]);
                assert(w.samples[k].instant.nanos == id);
                if a1 < k {
                    assert(w.samples[a1].instant.nanos < w.samples[k].instant.nanos);
                } else {
                    assert(w.samples[k].instant.nanos < w.samples[a1].instant.nanos);
                }
            }
        } else if p.contains(id) {
            assert(!has_id(w.samples, id));
            if has_id(u.samples, id) {
                let a = choose|a: int| 0 <= a < u.samples.len() && u.samples[a].instant.nanos == id;
                let a1 = if a < k { a } else { a + 1 };
                assert(u.samples[a] == w.samples[a1]);
            }
            assert(ids.contains(id));
        } else {
            assert(!ids.contains(id)) by {
                if ids.contains(id) {
                    let a = choose|a: int| 0 <= a < ids.len() && ids[a] == id;
                    if a < ids.len() - 1 {
                        assert(p[a] == id);
                    }
                }
            }
            let m = index_of_id(w.samples, id);
            assert(w.samples[m].instant.nanos == id);
            assert(m != k);
            let m1 = if m < k { m } else { m - 1 };
            assert(u.samples[m1] == w.samples[m]);
            assert(has_id(u.samples, id));
            lemma_index_of_id(u.samples, m1);
        }
    }
}

/// The record of a selected sample satisfies the selection.
pub proof fn lemma_selected_record<D>(v: SampleCacheView<D>, pred: spec_fn(SampleRecord<D>) -> bool, a: int)
    requires
        ids_increasing(v.samples),
        0 <= a < v.samples.filter(pred).len(),
    ensures
        has_id(v.samples, ids_of(v.samples.filter(pred))[a]),
        record_of(v, ids_of(v.samples.filter(pred))[a]) == v.samples.filter(pred)[a],
        pred(record_of(v, ids_of(v.samples.filter(pred))[a])),
{
    let f = v.samples.filter(pred);
    assert(f.contains(f[a]));
    v.samples.lemma_filter_contains_rev(pred, f[a]);
    v.samples.lemma_filter_pred(pred, a);
    let k = choose|k: int| 0 <= k < v.samples.len() && v.samples[k] == f[a];
    lemma_index_of_id(v.samples, k);
}

/// What a read hands out for its `j`-th identifier is the metadata of that
/// sample as the cache held it before the read, but for its states.
pub proof fn lemma_read_info<D>(v: SampleCacheView<D>, ids: Seq<u64>, j: int)
    requires
        ids_increasing(v.samples),
        all_present(v.samples, ids),
        0 <= j < ids.len(),
    ensures
        info_of(after_read(v, ids.take(j)), ids[j]).sequence_number == record_of(v, ids[j]).sequence_number,
        info_of(after_read(v, ids.take(j)), ids[j]).publication_handle == record_of(v, ids[j]).writer_guid,
        info_of(after_read(v, ids.take(j)), ids[j]).instance_key == record_of(v, ids[j]).key,
{
    let p = ids.take(j);
    assert(all_present(v.samples, p)) by {
        assert forall|a: int| 0 <= a < p.len() implies has_id(v.samples, #[trigger] p[a]) by {
            assert(p[a] == ids[a]);
        }
    }
    lemma_after_read_keeps(v, p);
    assert(has_id(v.samples, ids[j]));
    let i = index_of_id(v.samples, ids[j]);
    let w = after_read(v, p);
    assert(same_sample(w.samples[i], v.samples[i]));
    lemma_index_of_id(w.samples, i);
}

proof fn lemma_take_info<D>(v: SampleCacheView<D>, ids: Seq<u64>, j: int)
    requires
        ids_increasing(v.samples),
        ids_distinct(ids),
        all_present(v.samples, ids),
        0 <= j < ids.len(),
    ensures
        info_of(after_take(v, ids.take(j)), ids[j]).sequence_number == record_of(v, ids[j]).sequence_number,
        info_of(after_take(v, ids.take(j)), ids[j]).publication_handle == record_of(v, ids[j]).writer_guid,
        info_of(after_take(v, ids.take(j)), ids[j]).instance_key == record_of(v, ids[j]).key,
{
    let p = ids.take(j);
    assert(all_present(v.samples, p)) by {
        assert forall|a: int| 0 <= a < p.len() implies has_id(v.samples, #[trigger] p[a]) by {
            assert(p[a] == ids[a]);
        }
    }
    assert(ids_distinct(p)) by {
        assert forall|a: int, b: int| 0 <= a < b < p.len() implies p[a] != p[b] by {
            assert(p[a] == ids[a] && p[b] == ids[b]);
        }
    }
    assert(!p.contains(ids[j])) by {
        if p.contains(ids[j]) {
            let a = choose|a: int| 0 <= a < p.len() && p[a] == ids[j];
            assert(ids[a] == ids[j]);
        }
    }
    assert(has_id(v.samples, ids[j]));
    lemma_after_take_keeps(v, p, ids[j]);
}

/// Selected identifiers, cut to a count, are still distinct, present and
/// increasing.
pub proof fn lemma_first_n_ok<D>(v: SampleCacheView<D>, pred: spec_fn(SampleRecord<D>) -> bool, n: usize)
    requires
        cache_view_ok(v),
    ensures
        ids_distinct(first_n(ids_of(v.samples.filter(pred)), n)),
        all_present(v.samples, first_n(ids_of(v.samples.filter(pred)), n)),
        forall|a: int, b: int| 0 <= a < b < first_n(ids_of(v.samples.filter(pred)), n).len() ==>
            #[trigger] first_n(ids_of(v.samples.filter(pred)), n)[a] < #[trigger] first_n(ids_of(v.samples.filter(pred)), n)[b],
        forall|a: int| 0 <= a < first_n(ids_of(v.samples.filter(pred)), n).len() ==>
            #[trigger] first_n(ids_of(v.samples.filter(pred)), n)[a] == ids_of(v.samples.filter(pred))[a],
{
    lemma_selection_ok(v, pred);
    let all = ids_of(v.samples.filter(pred));
    let ids = first_n(all, n);
    assert forall|a: int| 0 <= a < ids.len() implies #[trigger] ids[a] == all[a] by {}
    assert forall|a: int, b: int| 0 <= a < b < ids.len() implies #[trigger] ids[a] < #[trigger] ids[b] by {
        assert(all[a] < all[b]);
    }
    assert forall|a: int| 0 <= a < ids.len() implies has_id(v.samples, #[trigger] ids[a]) by {
        assert(has_id(v.samples, all[a]));
    }
}

/// Identifiers in increasing order name samples in arrival order.
proof fn lemma_id_order<D>(v: SampleCacheView<D>, x: u64, y: u64)
    requires
        ids_increasing(v.samples),
        has_id(v.samples, x),
        has_id(v.samples, y),
        x < y,
    ensures
        index_of_id(v.samples, x) < index_of_id(v.samples, y),
{
    let i = index_of_id(v.samples, x);
    let j = index_of_id(v.samples, y);
    if j <= i {
        if j < i {
            assert(v.samples[j].instant.nanos < v.samples[i].instant.nanos);
        }
    }
}

/// A read or take hands out the samples of each writer in increasing
/// sequence-number order.
pub proof fn selection_keeps_writer_order<D: Clone>(
    v: SampleCacheView<D>,
    pred: spec_fn(SampleRecord<D>) -> bool,
    n: usize,
    r: Seq<DataSample<D>>,
    taking: bool,
)
    requires
        cache_view_ok(v),
        r.len() == first_n(ids_of(v.samples.filter(pred)), n).len(),
        forall|j: int| 0 <= j < r.len() ==> {
            let ids = first_n(ids_of(v.samples.filter(pred)), n);
            if taking {
                hands_out(after_take(v, ids.take(j)), ids[j], #[trigger] r[j])
            } else {
                hands_out(after_read(v, ids.take(j)), ids[j], r[j])
            }
        },
    ensures
        forall|j: int, k: int|
            0 <= j < k < r.len() && (#[trigger] r[j]).sample_info.publication_handle == (#[trigger] r[k]).sample_info.publication_handle
                ==> r[j].sample_info.sequence_number < r[k].sample_info.sequence_number,
{
    let ids = first_n(ids_of(v.samples.filter(pred)), n);
    lemma_first_n_ok(v, pred, n);
    assert forall|j: int, k: int|
        0 <= j < k < r.len() && (#[trigger] r[j]).sample_info.publication_handle == (#[trigger] r[k]).sample_info.publication_handle
        implies r[j].sample_info.sequence_number < r[k].sample_info.sequence_number by {
        if taking {
            lemma_take_info(v, ids, j);
            lemma_take_info(v, ids, k);
            assert(hands_out(after_take(v, ids.take(j)), ids[j], r[j]));
            assert(hands_out(after_take(v, ids.take(k)), ids[k], r[k]));
        } else {
            lemma_read_info(v, ids, j);
            lemma_read_info(v, ids, k);
            assert(hands_out(after_read(v, ids.take(j)), ids[j], r[j]));
            assert(hands_out(after_read(v, ids.take(k)), ids[k], r[k]));
        }
        assert(ids[j] < ids[k]);
        assert(has_id(v.samples, ids[j]) && has_id(v.samples, ids[k]));
        lemma_id_order(v, ids[j], ids[k]);
    }
}

/// After a read, no sample that it returned is selected by a read of the
/// samples not read yet.
pub proof fn read_then_unread_excludes<D>(v: SampleCacheView<D>, ids: Seq<u64>, id: u64)
    requires
        cache_view_ok(v),
        all_present(v.samples, ids),
        ids.contains(id),
    ensures
        !selected_ids(after_read(v, ids), ReadCondition::not_read_spec()).contains(id),
{
    lemma_after_read_keeps(v, ids);
    let u = after_read(v, ids);
    let a0 = choose|a: int| 0 <= a < ids.len() && ids[a] == id;
    assert(has_id(v.samples, ids[a0]));
    let i = index_of_id(v.samples, id);
    assert(u.samples[i].sample_state == SampleState::Read);
    let pred = selector(u, ReadCondition::not_read_spec());
    if selected_ids(u, ReadCondition::not_read_spec()).contains(id) {
        let a = choose|a: int| 0 <= a < selected_ids(u, ReadCondition::not_read_spec()).len() && selected_ids(u, ReadCondition::not_read_spec())[a] == id;
        lemma_selected_record(u, pred, a);
        assert(same_sample(u.samples[i], v.samples[i]));
        lemma_index_of_id(u.samples, i);
    }
}

/// Once taken, a sample is gone from the cache, and its instant is no later
/// than the cache's last instant, which every sample added afterwards must
/// exceed: take returns a sample at most once.
pub proof fn take_returns_once<D>(v: SampleCacheView<D>, ids: Seq<u64>, id: u64)
    requires
        cache_view_ok(v),
        ids_distinct(ids),
        all_present(v.samples, ids),
        ids.contains(id),
    ensures
        !has_id(after_take(v, ids).samples, id),
        id <= after_take(v, ids).last_instant,
{
    let a0 = choose|a: int| 0 <= a < ids.len() && ids[a] == id;
    assert(has_id(v.samples, ids[a0]));
    lemma_after_take_keeps(v, ids, id);
}

pub struct DataSampleCache<D> {
    samples: Vec<SampleRecord<D>>,
    instances: Vec<(i64, InstanceInfo)>,
    last_seq: Vec<(GUID, i64)>,
    last_instant: u64,
}

impl<D> View for DataSampleCache<D> {
    type V = SampleCacheView<D>;

    closed spec fn view(&self) -> SampleCacheView<D> {
        SampleCacheView {
            samples: self.samples@,
            instances: to_map(self.instances@),
            last_seq: to_map(self.last_seq@),
            last_instant: self.last_instant,
        }
    }
}

impl<D> DataSampleCache<D> {
    pub closed spec fn wf(&self) -> bool {
        &&& keys_unique(self.instances@)
        &&& keys_unique(self.last_seq@)
        &&& cache_view_ok(self@)
    }

    pub proof fn lemma_view_ok(&self)
        requires
            self.wf(),
        ensures
            cache_view_ok(self@),
    {
    }

    /// An empty cache whose samples must arrive after `start`.
    pub fn new(start: Timestamp) -> (r: DataSampleCache<D>)
        ensures
            r.wf(),
            r@.samples.len() == 0,
            r@.instances == Map::<i64, InstanceInfo>::empty(),
            r@.last_seq == Map::<GUID, i64>::empty(),
            r@.last_instant == start.nanos,
    {
        let r = DataSampleCache { samples: Vec::new(), instances: Vec::new(), last_seq: Vec::new(), last_instant: start.nanos };
        assert(r@.instances =~= Map::empty());
        assert(r@.last_seq =~= Map::empty());
        r
    }

    pub fn last_instant(&self) -> (r: Timestamp)
        ensures
            r.nanos == self@.last_instant,
    {
        Timestamp { nanos: self.last_instant }
    }

    fn instance_index(&self, k: i64) -> (r: Option<usize>)
        ensures
            match r {
                Some(i) => i < self.instances@.len() && self.instances@[i as int].0 == k,
                None => !has_key(self.instances@, k),
            },
    {
        let mut i: usize = 0;
        while i < self.instances.len()
            invariant
                i <= self.instances.len(),
                forall|j: int| 0 <= j < i ==> self.instances@[j].0 != k,
            decreases self.instances.len() - i,
        {
            if self.instances[i].0 == k {
                return Some(i);
            }
            i = i + 1;
        }
        None
    }

    fn writer_index(&self, g: &GUID) -> (r: Option<usize>)
        ensures
            match r {
                Some(i) => i < self.last_seq@.len() && self.last_seq@[i as int].0 == *g,
                None => !has_key(self.last_seq@, *g),
            },
    {
        let mut i: usize = 0;
        while i < self.last_seq.len()
            invariant
                i <= self.last_seq.len(),
                forall|j: int| 0 <= j < i ==> self.last_seq@[j].0 != *g,
            decreases self.last_seq.len() - i,
        {
            if self.last_seq[i].0 == *g {
                return Some(i);
            }
            i = i + 1;
        }
        None
    }

    /// Whether a sample from `writer` numbered `sequence_number` arriving at
    /// `instant` may be added.
    pub fn accepts_next(&self, writer: &GUID, sequence_number: i64, instant: Timestamp) -> (r: bool)
        requires
            self.wf(),
        ensures
            r == (instant.nanos > self@.last_instant && (self@.last_seq.contains_key(*writer)
                ==> self@.last_seq[*writer] < sequence_number)),
    {
        if instant.nanos <= self.last_instant {
            return false;
        }
        match self.writer_index(writer) {
            Some(i) => {
                proof {
                    lemma_to_map_index(self.last_seq@, i as int);
                }
                self.last_seq[i].1 < sequence_number
            },
            None => true,
        }
    }

    fn record_instance(&mut self, k: i64, is_data: bool)
        requires
            old(self).wf(),
        ensures
            keys_unique(final(self).instances@),
            final(self)@ == (SampleCacheView {
                instances: old(self)@.instances.insert(k, instance_after_add(lookup(old(self)@.instances, k), is_data)),
                ..old(self)@
            }),
            final(self).samples == old(self).samples,
            final(self).last_seq == old(self).last_seq,
    {
        let ghost before = self.instances@;
        match self.instance_index(k) {
            Some(i) => {
                proof {
                    lemma_to_map_index(before, i as int);
                }
                let cur = self.instances[i].1;
                let next = if is_data {
                    if cur.instance_state == InstanceState::Alive {
                        cur
                    } else {
                        InstanceInfo { instance_state: InstanceState::Alive, view_state: ViewState::New }
                    }
                } else {
                    InstanceInfo { instance_state: InstanceState::NotAliveDisposed, view_state: cur.view_state }
                };
                proof {
                    lemma_to_map_update(before, i as int, next);
                }
                self.instances.set(i, (k, next));
            },
            None => {
                let next = InstanceInfo {
                    instance_state: if is_data {
                        InstanceState::Alive
                    } else {
                        InstanceState::NotAliveDisposed
                    },
                    view_state: ViewState::New,
                };
                proof {
                    lemma_to_map_push(before, k, next);
                }
                self.instances.push((k, next));
            },
        }
    }

    fn record_writer(&mut self, g: GUID, sn: i64)
        requires
            keys_unique(old(self).last_seq@),
        ensures
            keys_unique(final(self).last_seq@),
            to_map(final(self).last_seq@) == to_map(old(self).last_seq@).insert(g, sn),
            final(self).samples == old(self).samples,
            final(self).instances == old(self).instances,
            final(self).last_instant == old(self).last_instant,
    {
        let ghost before = self.last_seq@;
        match self.writer_index(&g) {
            Some(i) => {
                proof {
                    lemma_to_map_update(before, i as int, sn);
                }
                self.last_seq.set(i, (g, sn));
            },
            None => {
                proof {
                    lemma_to_map_push(before, g, sn);
                }
                self.last_seq.push((g, sn));
            },
        }
    }

    /// Appends a sample: a decoded value, or the key of a disposed instance.
    /// Its instance becomes alive on data, new again if it was not alive,
    /// and not alive on a dispose.
    pub fn add_sample(
        &mut self,
        value: Result<D, i64>,
        writer_guid: GUID,
        sequence_number: i64,
        instant: Timestamp,
        source_timestamp: Option<Timestamp>,
    )
        where D: Keyed
        requires
            old(self).wf(),
            instant.nanos > old(self)@.last_instant,
            old(self)@.last_seq.contains_key(writer_guid) ==> old(self)@.last_seq[writer_guid] < sequence_number,
        ensures
            final(self).wf(),
            final(self)@ == after_add(
                old(self)@,
                SampleRecord {
                    value,
                    key: key_of_value(value),
                    writer_guid,
                    sequence_number,
                    instant,
                    source_timestamp,
                    sample_state: SampleState::NotRead,
                },
            ),
    {
        let key = match &value {
            Ok(d) => d.get_key(),
            Err(k) => *k,
        };
        let is_data = value.is_ok();
        self.record_instance(key, is_data);
        self.record_writer(writer_guid, sequence_number);
        let ghost v0 = old(self)@;
        let rec = SampleRecord {
            value,
            key,
            writer_guid,
            sequence_number,
            instant,
            source_timestamp,
            sample_state: SampleState::NotRead,
        };
        self.samples.push(rec);
        self.last_instant = instant.nanos;
        proof {
            let v = self@;
            let n = v.samples.len() - 1;
            assert forall|i: int| 0 <= i < v.samples.len() implies v.instances.contains_key((#[trigger] v.samples[i]).key) by {
                if i < n {
                    assert(v0.samples[i] == v.samples[i]);
                }
            }
            assert forall|i: int, j: int| 0 <= i < j < v.samples.len() implies #[trigger] v.samples[i].instant.nanos < #[trigger] v.samples[j].instant.nanos by {
                if j < n {
                    assert(v0.samples[i] == v.samples[i] && v0.samples[j] == v.samples[j]);
                } else {
                    assert(v0.samples[i] == v.samples[i]);
                }
            }
            assert forall|i: int, j: int|
                0 <= i < j < v.samples.len() && (#[trigger] v.samples[i]).writer_guid == (#[trigger] v.samples[j]).writer_guid
                implies v.samples[i].sequence_number < v.samples[j].sequence_number by {
                if j < n {
                    assert(v0.samples[i] == v.samples[i] && v0.samples[j] == v.samples[j]);
                } else {
                    assert(v0.samples[i] == v.samples[i]);
                }
            }
            assert forall|i: int| 0 <= i < v.samples.len() implies v.last_seq.contains_key((#[trigger] v.samples[i]).writer_guid)
                && v.samples[i].sequence_number <= v.last_seq[v.samples[i].writer_guid] by {
                if i < n {
                    assert(v0.samples[i] == v.samples[i]);
                }
            }
            assert forall|i: int| 0 <= i < v.samples.len() implies (#[trigger] v.samples[i]).instant.nanos <= v.last_instant by {
                if i < n {
                    assert(v0.samples[i] == v.samples[i]);
                }
            }
        }
    }

    fn instance_info(&self, k: i64) -> (r: InstanceInfo)
        requires
            keys_unique(self.instances@),
            self@.instances.contains_key(k),
        ensures
            r == self@.instances[k],
    {
        match self.instance_index(k) {
            Some(i) => {
                proof {
                    lemma_to_map_index(self.instances@, i as int);
                }
                self.instances[i].1
            },
            None => {
                proof {
                    let j = choose|j: int| 0 <= j < self.instances@.len() && self.instances@[j].0 == k;
                    assert(has_key(self.instances@, k));
                }
                InstanceInfo { instance_state: InstanceState::Alive, view_state: ViewState::New }
            },
        }
    }

    /// The identifiers of the samples that meet `cond`, in arrival order.
    pub fn select_keys_for_access(&self, cond: ReadCondition) -> (r: Vec<u64>)
        requires
            self.wf(),
        ensures
            r@ == selected_ids(self@, cond),
    {
        let ghost pred = selector(self@, cond);
        let ghost all = self@.samples;
        let mut r: Vec<u64> = Vec::new();
        let mut i: usize = 0;
        while i < self.samples.len()
            invariant
                self.wf(),
                i <= self.samples.len(),
                all == self@.samples,
                pred == selector(self@, cond),
                r@ == ids_of(all.take(i as int).filter(pred)),
            decreases self.samples.len() - i,
        {
            let rec = &self.samples[i];
            proof {
                assert(all.take(i + 1).drop_last() =~= all.take(i as int));
                assert(all.take(i + 1).last() == *rec);
                reveal(Seq::filter);
                assert(self@.instances.contains_key(all[i as int].key));
            }
            let info = self.instance_info(rec.key);
            let hit = cond.accepts_exec(rec.sample_state, info.view_state, info.instance_state);
            assert(pred(*rec) == hit);
            assert(all.take(i + 1).filter(pred) == if pred(*rec) {
                all.take(i as int).filter(pred).push(*rec)
            } else {
                all.take(i as int).filter(pred)
            });
            if hit {
                let ghost before = all.take(i as int).filter(pred);
                r.push(rec.instant.nanos);
                assert(ids_of(before.push(*rec)) =~= ids_of(before).push(rec.instant.nanos));
            }
            i = i + 1;
        }
        assert(all.take(i as int) =~= all);
        r
    }

    /// The identifiers of the samples of instance `key` that meet `cond`, in
    /// arrival order.
    pub fn select_instance_keys_for_access(&self, key: i64, cond: ReadCondition) -> (r: Vec<u64>)
        requires
            self.wf(),
        ensures
            r@ == selected_instance_ids(self@, cond, key),
    {
        let ghost pred = instance_selector(self@, cond, key);
        let ghost all = self@.samples;
        let mut r: Vec<u64> = Vec::new();
        let mut i: usize = 0;
        while i < self.samples.len()
            invariant
                self.wf(),
                i <= self.samples.len(),
                all == self@.samples,
                pred == instance_selector(self@, cond, key),
                r@ == ids_of(all.take(i as int).filter(pred)),
            decreases self.samples.len() - i,
        {
            let rec = &self.samples[i];
            proof {
                assert(all.take(i + 1).drop_last() =~= all.take(i as int));
                assert(all.take(i + 1).last() == *rec);
                reveal(Seq::filter);
                assert(self@.instances.contains_key(all[i as int].key));
            }
            let info = self.instance_info(rec.key);
            let hit = rec.key == key && cond.accepts_exec(rec.sample_state, info.view_state, info.instance_state);
            assert(pred(*rec) == hit);
            assert(all.take(i + 1).filter(pred) == if pred(*rec) {
                all.take(i as int).filter(pred).push(*rec)
            } else {
                all.take(i as int).filter(pred)
            });
            if hit {
                let ghost before = all.take(i as int).filter(pred);
                r.push(rec.instant.nanos);
                assert(ids_of(before.push(*rec)) =~= ids_of(before).push(rec.instant.nanos));
            }
            i = i + 1;
        }
        assert(all.take(i as int) =~= all);
        r
    }

    fn sample_index(&self, id: u64) -> (r: usize)
        requires
            self.wf(),
            has_id(self@.samples, id),
        ensures
            r == index_of_id(self@.samples, id),
            r < self@.samples.len(),
    {
        let ghost j = index_of_id(self@.samples, id);
        let mut i: usize = 0;
        while i < self.samples.len()
            invariant
                self.wf(),
                i <= self.samples.len(),
                0 <= j < self@.samples.len(),
                self@.samples[j].instant.nanos == id,
                forall|k: int| 0 <= k < i ==> self@.samples[k].instant.nanos != id,
            decreases self.samples.len() - i,
        {
            if self.samples[i].instant.nanos == id {
                proof {
                    if (i as int) < j {
                        assert(self@.samples[i as int].instant.nanos < self@.samples[j].instant.nanos);
                    } else if (i as int) > j {
                        assert(self@.samples[j].instant.nanos < self@.samples[i as int].instant.nanos);
                    }
                }
                return i;
            }
            i = i + 1;
        }
        assert(self@.samples[j].instant.nanos != id);
        0
    }

    fn hand_out(&self, i: usize) -> (r: DataSample<D>)
        where D: Clone
        requires
            self.wf(),
            i < self@.samples.len(),
        ensures
            hands_out(self@, self@.samples[i as int].instant.nanos, r),
    {
        let ghost id = self@.samples[i as int].instant.nanos;
        proof {
            let j = index_of_id(self@.samples, id);
            assert(has_id(self@.samples, id));
            if j < i {
                assert(self@.samples[j].instant.nanos < self@.samples[i as int].instant.nanos);
            } else if j > i {
                assert(self@.samples[i as int].instant.nanos < self@.samples[j].instant.nanos);
            }
            assert(self@.instances.contains_key(self@.samples[i as int].key));
        }
        let rec = &self.samples[i];
        let info = self.instance_info(rec.key);
        let value = match &rec.value {
            Ok(d) => Ok(d.clone()),
            Err(k) => Err(*k),
        };
        DataSample {
            sample_info: SampleInfo {
                sample_state: rec.sample_state,
                view_state: info.view_state,
                instance_state: info.instance_state,
                source_timestamp: rec.source_timestamp,
                publication_handle: rec.writer_guid,
                sequence_number: rec.sequence_number,
                instance_key: rec.key,
            },
            value,
        }
    }

    /// Reads the sample with identifier `id`: returns it and marks it read.
    fn read_one(&mut self, id: u64) -> (r: DataSample<D>)
        where D: Clone
        requires
            old(self).wf(),
            has_id(old(self)@.samples, id),
        ensures
            final(self).wf(),
            final(self)@ == after_read_one(old(self)@, id),
            ids_of(final(self)@.samples) == ids_of(old(self)@.samples),
            hands_out(old(self)@, id, r),
    {
        let i = self.sample_index(id);
        let r = self.hand_out(i);
        let ghost v0 = self@;
        let key = self.samples[i].key;
        let info = self.instance_info(key);
        let mut rec = self.samples.remove(i);
        rec.sample_state = SampleState::Read;
        self.samples.insert(i, rec);
        let ghost before = self.instances@;
        let next = InstanceInfo { view_state: ViewState::NotNew, ..info };
        match self.instance_index(key) {
            Some(k) => {
                proof {
                    lemma_to_map_update(before, k as int, next);
                }
                self.instances.set(k, (key, next));
            },
            None => {
                proof {
                    assert(has_key(self.instances@, key));
                }
            },
        }
        proof {
            let v = self@;
            assert(v.samples =~= v0.samples.update(i as int, SampleRecord { sample_state: SampleState::Read, ..v0.samples[i as int] }));
            assert(ids_of(v.samples) =~= ids_of(v0.samples));
            assert forall|a: int| 0 <= a < v.samples.len() implies (#[trigger] v.samples[a]).instant == v0.samples[a].instant
                && v.samples[a].key == v0.samples[a].key && v.samples[a].writer_guid == v0.samples[a].writer_guid
                && v.samples[a].sequence_number == v0.samples[a].sequence_number by {}
        }
        r
    }

    /// Takes the sample with identifier `id`: returns it and removes it.
    fn take_one(&mut self, id: u64) -> (r: DataSample<D>)
        where D: Clone
        requires
            old(self).wf(),
            has_id(old(self)@.samples, id),
        ensures
            final(self).wf(),
            final(self)@ == after_take_one(old(self)@, id),
            ids_of(final(self)@.samples) == ids_of(old(self)@.samples).remove(index_of_id(old(self)@.samples, id)),
            hands_out(old(self)@, id, r),
    {
        let i = self.sample_index(id);
        let r = self.hand_out(i);
        let ghost v0 = self@;
        let key = self.samples[i].key;
        let info = self.instance_info(key);
        self.samples.remove(i);
        let ghost rest = self@.samples;
        let mut remaining = false;
        let mut j: usize = 0;
        while j < self.samples.len()
            invariant
                j <= self.samples.len(),
                self@.samples == rest,
                remaining == exists|a: int| 0 <= a < j && rest[a].key == key,
            decreases self.samples.len() - j,
        {
            if self.samples[j].key == key {
                remaining = true;
            }
            j = j + 1;
        }
        let ghost before = self.instances@;
        let next = InstanceInfo { view_state: ViewState::NotNew, ..info };
        match self.instance_index(key) {
            Some(k) => {
                if !remaining && info.instance_state != InstanceState::Alive {
                    proof {
                        lemma_to_map_remove(before, k as int);
                    }
                    self.instances.remove(k);
                } else {
                    proof {
                        lemma_to_map_update(before, k as int, next);
                    }
                    self.instances.set(k, (key, next));
                }
            },
            None => {
                proof {
                    assert(has_key(self.instances@, key));
                }
            },
        }
        proof {
            let v = self@;
            assert(v.samples =~= v0.samples.remove(i as int));
            assert(ids_of(v.samples) =~= ids_of(v0.samples).remove(i as int));
            assert forall|a: int| 0 <= a < v.samples.len() implies #[trigger] v.samples[a] == v0.samples[if a < i { a } else { a + 1 }] by {}
            assert forall|a: int| 0 <= a < v.samples.len() implies v.instances.contains_key((#[trigger] v.samples[a]).key) by {
                let a1 = if a < i { a } else { a + 1 };
                assert(v.samples[a] == v0.samples[a1]);
                if v.samples[a].key == key {
                    assert(remaining);
                }
            }
            assert forall|a: int, b: int| 0 <= a < b < v.samples.len() implies #[trigger] v.samples[a].instant.nanos < #[trigger] v.samples[b].instant.nanos by {
                let a1 = if a < i { a } else { a + 1 };
                let b1 = if b < i { b } else { b + 1 };
                assert(v.samples[a] == v0.samples[a1] && v.samples[b] == v0.samples[b1]);
            }
            assert forall|a: int, b: int|
                0 <= a < b < v.samples.len() && (#[trigger] v.samples[a]).writer_guid == (#[trigger] v.samples[b]).writer_guid
                implies v.samples[a].sequence_number < v.samples[b].sequence_number by {
                let a1 = if a < i { a } else { a + 1 };
                let b1 = if b < i { b } else { b + 1 };
                assert(v.samples[a] == v0.samples[a1] && v.samples[b] == v0.samples[b1]);
            }
            assert(remaining == has_instance_sample(rest, key));
        }
        r
    }

    /// Reads the samples with identifiers `ids`, in that order: each is
    /// returned with its metadata as it stands when its turn comes, then
    /// marked read, and its instance is no longer new.
    pub fn read_by_keys(&mut self, ids: &Vec<u64>) -> (r: Vec<DataSample<D>>)
        where D: Clone
        requires
            old(self).wf(),
            ids_distinct(ids@),
            all_present(old(self)@.samples, ids@),
        ensures
            final(self).wf(),
            final(self)@ == after_read(old(self)@, ids@),
            r@.len() == ids@.len(),
            forall|j: int| 0 <= j < ids@.len() ==> hands_out(after_read(old(self)@, ids@.take(j)), ids@[j], #[trigger] r@[j]),
    {
        let ghost v0 = self@;
        let mut r: Vec<DataSample<D>> = Vec::new();
        let mut i: usize = 0;
        assert(ids@.take(0) =~= Seq::<u64>::empty());
        while i < ids.len()
            invariant
                self.wf(),
                i <= ids@.len(),
                self@ == after_read(v0, ids@.take(i as int)),
                ids_of(self@.samples) == ids_of(v0.samples),
                all_present(v0.samples, ids@),
                r@.len() == i,
                forall|j: int| 0 <= j < i ==> hands_out(after_read(v0, ids@.take(j)), ids@[j], #[trigger] r@[j]),
            decreases ids@.len() - i,
        {
            let id = ids[i];
            proof {
                assert(has_id(v0.samples, ids@[i as int]));
                lemma_has_id_of_ids(v0.samples, self@.samples, id);
                assert(ids@.take(i + 1).drop_last() =~= ids@.take(i as int));
                assert(ids@.take(i + 1).last() == id);
            }
            let d = self.read_one(id);
            r.push(d);
            i = i + 1;
        }
        assert(ids@.take(i as int) =~= ids@);
        r
    }

    /// Takes the samples with identifiers `ids`, in that order: each is
    /// returned with its metadata as it stands when its turn comes, then
    /// removed; an instance that is not alive and has no sample left is
    /// forgotten.
    pub fn take_by_keys(&mut self, ids: &Vec<u64>) -> (r: Vec<DataSample<D>>)
        where D: Clone
        requires
            old(self).wf(),
            ids_distinct(ids@),
            all_present(old(self)@.samples, ids@),
        ensures
            final(self).wf(),
            final(self)@ == after_take(old(self)@, ids@),
            r@.len() == ids@.len(),
            forall|j: int| 0 <= j < ids@.len() ==> hands_out(after_take(old(self)@, ids@.take(j)), ids@[j], #[trigger] r@[j]),
    {
        let ghost v0 = self@;
        let mut r: Vec<DataSample<D>> = Vec::new();
        let mut i: usize = 0;
        assert(ids@.take(0) =~= Seq::<u64>::empty());
        while i < ids.len()
            invariant
                self.wf(),
                i <= ids@.len(),
                ids_distinct(ids@),
                self@ == after_take(v0, ids@.take(i as int)),
                forall|b: int| i <= b < ids@.len() ==> has_id(self@.samples, #[trigger] ids@[b]),
                r@.len() == i,
                forall|j: int| 0 <= j < i ==> hands_out(after_take(v0, ids@.take(j)), ids@[j], #[trigger] r@[j]),
            decreases ids@.len() - i,
        {
            let id = ids[i];
            let ghost before = self@.samples;
            let ghost k = index_of_id(before, id);
            proof {
                assert(ids@.take(i + 1).drop_last() =~= ids@.take(i as int));
                assert(ids@.take(i + 1).last() == id);
                assert(has_id(before, ids@[i as int]));
            }
            let d = self.take_one(id);
            proof {
                assert forall|b: int| i + 1 <= b < ids@.len() implies has_id(self@.samples, #[trigger] ids@[b]) by {
                    assert(has_id(before, ids@[b]));
                    let a = choose|a: int| 0 <= a < before.len() && before[a].instant.nanos == ids@[b];
                    assert(ids@[b] != id);
                    assert(a != k);
                    let a1 = if a < k { a } else { a - 1 };
                    assert(ids_of(self@.samples)[a1] == ids_of(before)[a]);
                    assert(self@.samples[a1].instant.nanos == ids_of(self@.samples)[a1]);
                }
            }
            r.push(d);
            i = i + 1;
        }
        assert(ids@.take(i as int) =~= ids@);
        r
    }

    /// The smallest instance key strictly greater than `k`, if any.
    pub fn get_next_key(&self, k: i64) -> (r: Option<i64>)
        requires
            self.wf(),
        ensures
            match r {
                Some(n) => is_next_key(self@.instances, k, n),
                None => forall|x: i64| #[trigger] self@.instances.contains_key(x) ==> x <= k,
            },
    {
        let ghost ps = self.instances@;
        let mut best: Option<i64> = None;
        let mut i: usize = 0;
        while i < self.instances.len()
            invariant
                self.wf(),
                ps == self.instances@,
                i <= ps.len(),
                match best {
                    Some(n) => has_key(ps, n) && k < n && forall|a: int| 0 <= a < i && k < #[trigger] ps[a].0 ==> n <= ps[a].0,
                    None => forall|a: int| 0 <= a < i ==> #[trigger] ps[a].0 <= k,
                },
            decreases ps.len() - i,
        {
            let x = self.instances[i].0;
            if k < x {
                match best {
                    Some(n) => {
                        if x < n {
                            best = Some(x);
                        }
                    },
                    None => {
                        best = Some(x);
                    },
                }
            }
            i = i + 1;
        }
        proof {
            assert forall|x: i64| #[trigger] self@.instances.contains_key(x) implies (match best {
                Some(n) => k < x ==> n <= x,
                None => x <= k,
            }) by {
                let a = choose|a: int| 0 <= a < ps.len() && ps[a].0 == x;
                assert(ps[a].0 == x);
            }
        }
        best
    }

    /// The smallest instance key, if any.
    pub fn get_first_key(&self) -> (r: Option<i64>)
        requires
            self.wf(),
        ensures
            match r {
                Some(n) => is_first_key(self@.instances, n),
                None => forall|x: i64| !(#[trigger] self@.instances.contains_key(x)),
            },
    {
        let ghost ps = self.instances@;
        let mut best: Option<i64> = None;
        let mut i: usize = 0;
        while i < self.instances.len()
            invariant
                self.wf(),
                ps == self.instances@,
                i <= ps.len(),
                match best {
                    Some(n) => has_key(ps, n) && forall|a: int| 0 <= a < i ==> n <= #[trigger] ps[a].0,
                    None => i == 0,
                },
            decreases ps.len() - i,
        {
            let x = self.instances[i].0;
            match best {
                Some(n) => {
                    if x < n {
                        best = Some(x);
                    }
                },
                None => {
                    best = Some(x);
                },
            }
            i = i + 1;
        }
        proof {
            assert forall|x: i64| #[trigger] self@.instances.contains_key(x) implies (match best {
                Some(n) => n <= x,
                None => false,
            }) by {
                let a = choose|a: int| 0 <= a < ps.len() && ps[a].0 == x;
                assert(ps[a].0 == x);
            }
        }
        best
    }

    /// The key of the known instance whose key hash is `hash`, if any.
    pub fn get_key_by_hash(&self, hash: u128) -> (r: Option<i64>)
        requires
            self.wf(),
        ensures
            match r {
                Some(k) => self@.instances.contains_key(k) && key_hash_of(k) == hash,
                None => forall|k: i64| #[trigger] self@.instances.contains_key(k) ==> key_hash_of(k) != hash,
            },
    {
        let ghost ps = self.instances@;
        let mut i: usize = 0;
        while i < self.instances.len()
            invariant
                ps == self.instances@,
                i <= ps.len(),
                forall|a: int| 0 <= a < i ==> key_hash_of(#[trigger] ps[a].0) != hash,
            decreases ps.len() - i,
        {
            let k = self.instances[i].0;
            if key_hash(k) == hash {
                assert(has_key(ps, k));
                return Some(k);
            }
            i = i + 1;
        }
        proof {
            assert forall|k: i64| #[trigger] self@.instances.contains_key(k) implies key_hash_of(k) != hash by {
                let a = choose|a: int| 0 <= a < ps.len() && ps[a].0 == k;
                assert(ps[a].0 == k);
            }
        }
        None
    }
}

} // verus!
