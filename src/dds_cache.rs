//! Per-topic time-ordered stores of received change records, and the
//! registry of them keyed by topic name.
use vstd::prelude::*;
use crate::assoc::{has_key, keys_unique, lemma_to_map_index, lemma_to_map_push, to_map};
use crate::guid::{Duration, GUID, Timestamp};
use crate::qos::{History, QosPolicies};
use crate::serialization::{RepresentationIdentifier, SerializedPayload};

verus! {

/// What a change record carries.
#[derive(Debug)]
pub enum DDSData {
    /// A serialized value.
    Data { serialized_payload: SerializedPayload },
    /// A serialized value that arrived in fragments, in order.
    DataFrags { representation_identifier: RepresentationIdentifier, bytes_frags: Vec<bytes::Bytes> },
    /// A disposal of the instance whose serialized key is given.
    DisposeByKey { key: SerializedPayload },
    /// A disposal of the instance with this 16-byte key hash.
    DisposeByKeyHash { key_hash: u128 },
}

/// One unit of wire data from a writer.
#[derive(Debug)]
pub struct CacheChange {
    pub writer_guid: GUID,
    pub sequence_number: i64,
    pub data_value: DDSData,
}

/// Instants strictly increase along the sequence, and changes of one writer
/// come in increasing sequence-number order.
pub open spec fn changes_ordered(s: Seq<(Timestamp, CacheChange)>) -> bool {
    &&& forall|i: int, j: int| 0 <= i < j < s.len() ==> (#[trigger] s[i]).0.nanos < (#[trigger] s[j]).0.nanos
    &&& forall|i: int, j: int|
        0 <= i < j < s.len() && (#[trigger] s[i]).1.writer_guid == (#[trigger] s[j]).1.writer_guid
            ==> s[i].1.sequence_number < s[j].1.sequence_number
}

/// Whether `(instant, change)` may follow the changes of `s`.
pub open spec fn may_follow(
    s: Seq<(Timestamp, CacheChange)>,
    instant: Timestamp,
    change: CacheChange,
) -> bool {
    &&& forall|i: int| 0 <= i < s.len() ==> (#[trigger] s[i]).0.nanos < instant.nanos
    &&& forall|i: int|
        0 <= i < s.len() && (#[trigger] s[i]).1.writer_guid == change.writer_guid ==> s[i].1.sequence_number
            < change.sequence_number
}

/// Whether a change is no older than `lifespan` at `now`.
pub open spec fn unexpired(now: Timestamp, lifespan: Duration) -> spec_fn((Timestamp, CacheChange)) -> bool {
    |e: (Timestamp, CacheChange)| !(e.0.nanos < now.nanos && now.nanos - e.0.nanos > lifespan.nanos)
}

/// The `depth` newest changes of `s`.
pub open spec fn newest(s: Seq<(Timestamp, CacheChange)>, depth: usize) -> Seq<(Timestamp, CacheChange)> {
    if s.len() <= depth {
        s
    } else {
        s.skip(s.len() - depth)
    }
}

/// The changes of a topic once its history and lifespan policies are
/// enforced at `now`: changes older than the lifespan leave, then, under
/// `KeepLast`, the oldest beyond the depth.
pub open spec fn evicted(
    s: Seq<(Timestamp, CacheChange)>,
    now: Timestamp,
    qos: QosPolicies,
) -> Seq<(Timestamp, CacheChange)> {
    let alive = match qos.lifespan {
        Some(l) => s.filter(unexpired(now, l)),
        None => s,
    };
    match qos.history {
        Some(History::KeepLast { depth }) => newest(alive, if depth < 0 { 0 } else { depth as usize }),
        _ => alive,
    }
}

/// The changes of one topic, ordered by arrival instant.
pub struct TopicCache {
    changes: Vec<(Timestamp, CacheChange)>,
}

impl View for TopicCache {
    type V = Seq<(Timestamp, CacheChange)>;

    closed spec fn view(&self) -> Seq<(Timestamp, CacheChange)> {
        self.changes@
    }
}

pub open spec fn in_range(after: u64, up_to: u64) -> spec_fn((Timestamp, CacheChange)) -> bool {
    |e: (Timestamp, CacheChange)| after < e.0.nanos && e.0.nanos <= up_to
}

impl TopicCache {
    pub open spec fn wf(&self) -> bool {
        changes_ordered(self@)
    }

    pub fn new() -> (r: TopicCache)
        ensures
            r.wf(),
            r@.len() == 0,
    {
        TopicCache { changes: Vec::new() }
    }

    /// The change records, in arrival order.
    pub fn changes(&self) -> (r: &Vec<(Timestamp, CacheChange)>)
        ensures
            r@ == self@,
    {
        &self.changes
    }

    /// Inserts `change` at `instant`. Refused, changing nothing, unless the
    /// instant is later than every other and the sequence number is greater
    /// than that of every other change of the same writer.
    pub fn add_change(&mut self, instant: Timestamp, change: CacheChange) -> (r: bool)
        requires
            old(self).wf(),
        ensures
            final(self).wf(),
            r == may_follow(old(self)@, instant, change),
            r ==> final(self)@ == old(self)@.push((instant, change)),
            !r ==> final(self)@ == old(self)@,
    {
        let mut i: usize = 0;
        while i < self.changes.len()
            invariant
                self@ == old(self)@,
                self.wf(),
                i <= self.changes@.len(),
                forall|j: int| 0 <= j < i ==> (#[trigger] self.changes@[j]).0.nanos < instant.nanos,
                forall|j: int|
                    0 <= j < i && (#[trigger] self.changes@[j]).1.writer_guid == change.writer_guid
                        ==> self.changes@[j].1.sequence_number < change.sequence_number,
            decreases self.changes@.len() - i,
        {
            let e = &self.changes[i];
            if e.0.nanos >= instant.nanos {
                return false;
            }
            if e.1.writer_guid == change.writer_guid && e.1.sequence_number >= change.sequence_number {
                return false;
            }
            i = i + 1;
        }
        self.changes.push((instant, change));
        true
    }

    /// The changes whose instant lies in `(after, up_to]`, in arrival order.
    pub fn changes_in_range(&self, after: Timestamp, up_to: Timestamp) -> (r: Vec<&(Timestamp, CacheChange)>)
        ensures
            r@.map_values(|e: &(Timestamp, CacheChange)| *e) == self@.filter(in_range(after.nanos, up_to.nanos)),
    {
        let ghost pred = in_range(after.nanos, up_to.nanos);
        let ghost all = self@;
        let mut r: Vec<&(Timestamp, CacheChange)> = Vec::new();
        let mut i: usize = 0;
        while i < self.changes.len()
            invariant
                i <= self.changes@.len(),
                all == self@,
                pred == in_range(after.nanos, up_to.nanos),
                r@.map_values(|e: &(Timestamp, CacheChange)| *e) == all.take(i as int).filter(pred),
            decreases self.changes@.len() - i,
        {
            let e = &self.changes[i];
            proof {
                assert(all.take(i + 1).drop_last() =~= all.take(i as int));
                assert(all.take(i + 1).last() == *e);
                reveal(Seq::filter);
            }
            let hit = after.nanos < e.0.nanos && e.0.nanos <= up_to.nanos;
            assert(pred(*e) == hit);
            assert(all.take(i + 1).filter(pred) == if pred(*e) {
                all.take(i as int).filter(pred).push(*e)
            } else {
                all.take(i as int).filter(pred)
            });
            if hit {
                let ghost before = r@;
                r.push(e);
                assert(r@.map_values(|e: &(Timestamp, CacheChange)| *e) =~= before.map_values(|e: &(Timestamp, CacheChange)| *e).push(*e));
            }
            i = i + 1;
        }
        assert(all.take(i as int) =~= all);
        r
    }

    /// Removes the changes older than `lifespan` at `now`: those whose age
    /// exceeds it.
    pub fn remove_expired(&mut self, now: Timestamp, lifespan: Duration)
        requires
            old(self).wf(),
        ensures
            final(self).wf(),
            final(self)@ == old(self)@.filter(unexpired(now, lifespan)),
    {
        let ghost pred = unexpired(now, lifespan);
        let ghost all = self@;
        let mut kept: Vec<(Timestamp, CacheChange)> = Vec::new();
        let mut rest: Vec<(Timestamp, CacheChange)> = Vec::new();
        std::mem::swap(&mut rest, &mut self.changes);
        let ghost total = rest@;
        let len0 = rest.len();
        let mut i: usize = 0;
        while rest.len() > 0
            invariant
                total == all,
                total.len() <= usize::MAX,
                i + rest@.len() == total.len(),
                rest@ == total.skip(i as int),
                kept@ == total.take(i as int).filter(pred),
                pred == unexpired(now, lifespan),
            decreases rest@.len(),
        {
            let e = rest.remove(0);
            proof {
                assert(e == total[i as int]);
                assert(rest@ =~= total.skip(i + 1));
                assert(total.take(i + 1).drop_last() =~= total.take(i as int));
                assert(total.take(i + 1).last() == e);
                reveal(Seq::filter);
            }
            let keep = !(e.0.nanos < now.nanos && now.nanos - e.0.nanos > lifespan.nanos);
            assert(pred(e) == keep);
            assert(total.take(i + 1).filter(pred) == if pred(e) {
                total.take(i as int).filter(pred).push(e)
            } else {
                total.take(i as int).filter(pred)
            });
            if keep {
                kept.push(e);
            }
            i = i + 1;
        }
        assert(total.take(i as int) =~= total);
        self.changes = kept;
        proof {
            let s = self@;
            all.lemma_filter_len(pred);
            assert forall|a: int, b: int| 0 <= a < b < s.len() implies (#[trigger] s[a]).0.nanos < (#[trigger] s[b]).0.nanos && (s[a].1.writer_guid == s[b].1.writer_guid ==> s[a].1.sequence_number < s[b].1.sequence_number) by {
                lemma_filter_order(all, pred, a, b);
            }
        }
    }
}

impl TopicCache {
    /// Keeps only the `depth` newest changes.
    pub fn keep_last(&mut self, depth: usize)
        requires
            old(self).wf(),
        ensures
            final(self).wf(),
            old(self)@.len() <= depth ==> final(self)@ == old(self)@,
            old(self)@.len() > depth ==> final(self)@ == old(self)@.skip(old(self)@.len() - depth),
    {
        let ghost s0 = self@;
        if self.changes.len() <= depth {
            return;
        }
        let excess = self.changes.len() - depth;
        let mut rest: Vec<(Timestamp, CacheChange)> = Vec::new();
        std::mem::swap(&mut rest, &mut self.changes);
        let mut i: usize = 0;
        while i < excess
            invariant
                i <= excess,
                excess == s0.len() - depth,
                rest@ == s0.skip(i as int),
            decreases excess - i,
        {
            rest.remove(0);
            assert(rest@ =~= s0.skip(i + 1));
            i = i + 1;
        }
        self.changes = rest;
        proof {
            let t = self@;
            assert forall|a: int, b: int| 0 <= a < b < t.len() implies (#[trigger] t[a]).0.nanos < (#[trigger] t[b]).0.nanos by {
                assert(t[a] == s0[a + excess] && t[b] == s0[b + excess]);
            }
            assert forall|a: int, b: int|
                0 <= a < b < t.len() && (#[trigger] t[a]).1.writer_guid == (#[trigger] t[b]).1.writer_guid implies t[a].1.sequence_number < t[b].1.sequence_number by {
                assert(t[a] == s0[a + excess] && t[b] == s0[b + excess]);
            }
        }
    }
}

/// Elements kept by a filter keep their relative order.
proof fn lemma_filter_order(
    s: Seq<(Timestamp, CacheChange)>,
    pred: spec_fn((Timestamp, CacheChange)) -> bool, a: int, b: int,
)
    requires
        changes_ordered(s),
        0 <= a < b < s.filter(pred).len(),
    ensures
        s.filter(pred)[a].0.nanos < s.filter(pred)[b].0.nanos,
        s.filter(pred)[a].1.writer_guid == s.filter(pred)[b].1.writer_guid ==> s.filter(pred)[a].1.sequence_number
            < s.filter(pred)[b].1.sequence_number,
    decreases s.len(),
{
    reveal(Seq::filter);
    let t = s.drop_last();
    assert(changes_ordered(t)) by {
        assert forall|i: int, j: int| 0 <= i < j < t.len() implies (#[trigger] t[i]).0.nanos < (#[trigger] t[j]).0.nanos by {
            assert(t[i] == s[i] && t[j] == s[j]);
        }
        assert forall|i: int, j: int|
            0 <= i < j < t.len() && (#[trigger] t[i]).1.writer_guid == (#[trigger] t[j]).1.writer_guid implies t[i].1.sequence_number < t[j].1.sequence_number by {
            assert(t[i] == s[i] && t[j] == s[j]);
        }
    }
    if pred(s.last()) && b == s.filter(pred).len() - 1 {
        assert(s.filter(pred)[b] == s.last());
        assert(s.filter(pred)[a] == t.filter(pred)[a]);
        assert(s.filter(pred) == t.filter(pred).push(s.last()));
        assert(a < t.filter(pred).len());
        assert(t.filter(pred).contains(t.filter(pred)[a]));
        t.lemma_filter_contains_rev(pred, t.filter(pred)[a]);
        let k = choose|k: int| 0 <= k < t.len() && t[k] == t.filter(pred)[a];
        assert(s[k] == t[k]);
        assert(s[s.len() - 1] == s.last());
    } else {
        assert(s.filter(pred)[a] == t.filter(pred)[a]);
        assert(s.filter(pred)[b] == t.filter(pred)[b]);
        lemma_filter_order(t, pred, a, b);
    }
}

/// The topic caches of a participant, keyed by topic name.
pub struct DDSCache {
    topics: Vec<(String, TopicCache)>,
}

pub open spec fn cache_pairs(
    v: Seq<(String, TopicCache)>,
) -> Seq<(Seq<char>, Seq<(Timestamp, CacheChange)>)> {
    v.map_values(|e: (String, TopicCache)| (e.0@, e.1@))
}

impl View for DDSCache {
    type V = Map<Seq<char>, Seq<(Timestamp, CacheChange)>>;

    closed spec fn view(&self) -> Map<Seq<char>, Seq<(Timestamp, CacheChange)>> {
        to_map(cache_pairs(self.topics@))
    }
}

impl DDSCache {
    pub closed spec fn wf(&self) -> bool {
        &&& keys_unique(cache_pairs(self.topics@))
        &&& forall|i: int| 0 <= i < self.topics@.len() ==> (#[trigger] self.topics@[i]).1.wf()
    }

    pub fn new() -> (r: DDSCache)
        ensures
            r.wf(),
            r@ == Map::<Seq<char>, Seq<(Timestamp, CacheChange)>>::empty(),
    {
        let r = DDSCache { topics: Vec::new() };
        assert(r@ =~= Map::empty());
        r
    }

    fn topic_index(&self, name: &String) -> (r: Option<usize>)
        ensures
            match r {
                Some(i) => i < self.topics@.len() && self.topics@[i as int].0@ == name@,
                None => !has_key(cache_pairs(self.topics@), name@),
            },
    {
        let mut i: usize = 0;
        while i < self.topics.len()
            invariant
                i <= self.topics.len(),
                forall|j: int| 0 <= j < i ==> self.topics@[j].0@ != name@,
            decreases self.topics.len() - i,
        {
            if self.topics[i].0 == *name {
                return Some(i);
            }
            i = i + 1;
        }
        proof {
            let ps = cache_pairs(self.topics@);
            assert forall|j: int| 0 <= j < ps.len() implies #[trigger] ps[j].0 != name@ by {
                assert(ps[j].0 == self.topics@[j].0@);
            }
        }
        None
    }

    /// Registers an empty cache for topic `name`, unless it has one.
    pub fn add_new_topic(&mut self, name: &String)
        requires
            old(self).wf(),
        ensures
            final(self).wf(),
            old(self)@.contains_key(name@) ==> final(self)@ == old(self)@,
            !old(self)@.contains_key(name@) ==> final(self)@ == old(self)@.insert(name@, Seq::empty()),
    {
        if let Some(i) = self.topic_index(name) {
            proof {
                lemma_to_map_index(cache_pairs(self.topics@), i as int);
            }
            return;
        }
        let ghost before = cache_pairs(self.topics@);
        let tc = TopicCache::new();
        proof {
            lemma_to_map_push(before, name@, tc@);
        }
        self.topics.push((name.clone(), tc));
        proof {
            assert(cache_pairs(self.topics@) =~= before.push((name@, tc@)));
            assert(tc@ =~= Seq::<(Timestamp, CacheChange)>::empty());
        }
    }

    /// The cache of topic `name`, if it has one.
    pub fn topic_cache(&self, name: &String) -> (r: Option<&TopicCache>)
        requires
            self.wf(),
        ensures
            r is Some == self@.contains_key(name@),
            r is Some ==> r.unwrap()@ == self@[name@] && r.unwrap().wf(),
    {
        match self.topic_index(name) {
            Some(i) => {
                proof {
                    lemma_to_map_index(cache_pairs(self.topics@), i as int);
                }
                Some(&self.topics[i].1)
            },
            None => None,
        }
    }

    /// Inserts `change` at `instant` into the cache of topic `name`. Refused,
    /// changing nothing, when there is no such topic or the topic cache
    /// refuses it.
    pub fn add_change(&mut self, name: &String, instant: Timestamp, change: CacheChange) -> (r: bool)
        requires
            old(self).wf(),
        ensures
            final(self).wf(),
            r == (old(self)@.contains_key(name@) && may_follow(old(self)@[name@], instant, change)),
            r ==> final(self)@ == old(self)@.insert(name@, old(self)@[name@].push((instant, change))),
            !r ==> final(self)@ == old(self)@,
    {
        let ghost before = cache_pairs(self.topics@);
        match self.topic_index(name) {
            Some(i) => {
                proof {
                    lemma_to_map_index(before, i as int);
                }
                let (n, mut tc) = self.topics.remove(i);
                assert(tc@ == before[i as int].1);
                let ok = tc.add_change(instant, change);
                let ghost tv = tc@;
                proof {
                    crate::assoc::lemma_to_map_update(before, i as int, tv);
                }
                self.topics.insert(i, (n, tc));
                proof {
                    assert(cache_pairs(self.topics@) =~= before.update(i as int, (before[i as int].0, tv)));
                    if !ok {
                        assert(self@ =~= old(self)@);
                    }
                }
                ok
            },
            None => false,
        }
    }

    /// Enforces the history and lifespan policies `qos` on topic `name` at
    /// `now`; nothing changes when there is no such topic.
    pub fn evict(&mut self, name: &String, now: Timestamp, qos: &QosPolicies)
        requires
            old(self).wf(),
        ensures
            final(self).wf(),
            old(self)@.contains_key(name@) ==> final(self)@ == old(self)@.insert(name@, evicted(old(self)@[name@], now, *qos)),
            !old(self)@.contains_key(name@) ==> final(self)@ == old(self)@,
    {
        let ghost before = cache_pairs(self.topics@);
        match self.topic_index(name) {
            Some(i) => {
                proof {
                    lemma_to_map_index(before, i as int);
                }
                let (n, mut tc) = self.topics.remove(i);
                assert(tc@ == before[i as int].1);
                if let Some(l) = qos.lifespan {
                    tc.remove_expired(now, l);
                }
                match qos.history {
                    Some(History::KeepLast { depth }) => {
                        let d: usize = if depth < 0 {
                            0
                        } else {
                            depth as usize
                        };
                        tc.keep_last(d);
                    },
                    _ => {},
                }
                let ghost tv = tc@;
                proof {
                    crate::assoc::lemma_to_map_update(before, i as int, tv);
                }
                self.topics.insert(i, (n, tc));
                proof {
                    assert(cache_pairs(self.topics@) =~= before.update(i as int, (before[i as int].0, tv)));
                }
            },
            None => {},
        }
    }
}

} // verus!
