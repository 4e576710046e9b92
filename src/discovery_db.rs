//! The in-memory model of remote participants, local endpoints, matched
//! proxies and discovered topics.
use vstd::prelude::*;
use crate::assoc::{
    has_key, keys_unique, lemma_to_map_index, lemma_to_map_push, lemma_to_map_take,
    lemma_to_map_update, to_map,
};
use crate::clock::precise_time_ns;
use crate::discovery_data::{
    DiscoveredReaderData, DiscoveredReaderDataView, DiscoveredTopicData, DiscoveredWriterData,
    DiscoveredWriterDataView, ParticipantDataView, PublicationBuiltinTopicData, ReaderProxy,
    SPDPDiscoveredParticipantData, SubscriptionBuiltinTopicData, TopicBuiltinTopicData, copy_locators,
    copy_opt_string, opt_text,
};
use crate::guid::{GUID, Locator, ENTITYID_SPDP_BUILTIN_PARTICIPANT_READER};
use crate::qos::{qos_compatible, QosPolicies};
use crate::topic::Topic;

verus! {

/// Lease duration of a participant that announces none: 100 seconds.
pub const DEFAULT_LEASE_NANOS: u64 = 100_000_000_000;

/// Lifespan of a topic record that announces none: 100 seconds.
pub const DEFAULT_TOPIC_LIFESPAN_NANOS: u64 = 100_000_000_000;

pub ghost struct DiscoveryDBView {
    pub participants: Map<GUID, ParticipantDataView>,
    pub local_writers: Seq<DiscoveredWriterDataView>,
    pub local_readers: Seq<DiscoveredReaderDataView>,
    pub writers_reader_proxies: Map<GUID, Seq<DiscoveredReaderDataView>>,
    pub readers_writer_proxies: Map<GUID, Seq<DiscoveredWriterDataView>>,
    pub topics: Map<Seq<char>, DiscoveredTopicData>,
    pub readers_updated: bool,
    pub writers_updated: bool,
}

// ---- participants ----

/// Time from `then` to `now`; nothing has elapsed if `now` is not later.
pub open spec fn elapsed(now: u64, then: u64) -> int {
    if now >= then {
        now - then
    } else {
        0
    }
}

pub open spec fn lease_nanos(p: ParticipantDataView) -> int {
    match p.lease_duration {
        Some(d) => d.nanos as int,
        None => DEFAULT_LEASE_NANOS as int,
    }
}

/// A participant is expired once the time since it was last heard exceeds
/// its lease duration.
pub open spec fn participant_expired(p: ParticipantDataView, now: u64) -> bool {
    elapsed(now, p.updated_time) > lease_nanos(p)
}

/// The participants that survive a cleanup at `now`.
pub open spec fn live_participants(m: Map<GUID, ParticipantDataView>, now: u64) -> Map<
    GUID,
    ParticipantDataView,
> {
    Map::new(|g: GUID| m.contains_key(g) && !participant_expired(m[g], now), |g: GUID| m[g])
}

// ---- topics ----

pub open spec fn topic_lifespan_nanos(t: DiscoveredTopicData) -> int {
    match t.topic_data.qos.lifespan {
        Some(d) => d.nanos as int,
        None => DEFAULT_TOPIC_LIFESPAN_NANOS as int,
    }
}

/// A topic record is expired once its lifespan has elapsed since it was
/// last heard of.
pub open spec fn topic_expired(t: DiscoveredTopicData, now: u64) -> bool {
    elapsed(now, t.updated_time) >= topic_lifespan_nanos(t)
}

/// Whether a local reader or writer is on the topic called `name`.
pub open spec fn referenced_locally(
    name: Seq<char>,
    readers: Seq<DiscoveredReaderDataView>,
    writers: Seq<DiscoveredWriterDataView>,
) -> bool {
    (exists|i: int| 0 <= i < readers.len() && #[trigger] readers[i].topic_name() == Some(name))
        || (exists|i: int| 0 <= i < writers.len() && #[trigger] writers[i].topic_name() == Some(name))
}

/// The topic records that survive a cleanup at `now`.
pub open spec fn kept_topics(db: DiscoveryDBView, now: u64) -> Map<Seq<char>, DiscoveredTopicData> {
    Map::new(
        |n: Seq<char>|
            db.topics.contains_key(n) && (!topic_expired(db.topics[n], now) || referenced_locally(
                n,
                db.local_readers,
                db.local_writers,
            )),
        |n: Seq<char>| db.topics[n],
    )
}

/// The database after `p` is recorded as heard at `now`.
pub open spec fn with_participant(db: DiscoveryDBView, p: ParticipantDataView, now: u64) -> DiscoveryDBView {
    DiscoveryDBView {
        participants: db.participants.insert(
            p.participant_guid.unwrap(),
            ParticipantDataView { updated_time: now, ..p },
        ),
        ..db
    }
}

/// The database after a participant cleanup at `now`.
pub open spec fn after_participant_cleanup(db: DiscoveryDBView, now: u64) -> DiscoveryDBView {
    DiscoveryDBView { participants: live_participants(db.participants, now), ..db }
}

/// The database after `t` is recorded under its name.
pub open spec fn with_topic(db: DiscoveryDBView, t: DiscoveredTopicData) -> DiscoveryDBView {
    DiscoveryDBView { topics: db.topics.insert(t.name().unwrap(), t), ..db }
}

/// The database after a topic cleanup at `now`.
pub open spec fn after_topic_cleanup(db: DiscoveryDBView, now: u64) -> DiscoveryDBView {
    DiscoveryDBView { topics: kept_topics(db, now), ..db }
}

/// The topic record that a reader's subscription data gives, heard at `now`.
pub open spec fn topic_of_subscription(s: SubscriptionBuiltinTopicData, now: u64) -> DiscoveredTopicData {
    DiscoveredTopicData {
        updated_time: now,
        topic_data: TopicBuiltinTopicData {
            key: None,
            name: s.topic_name,
            data_type_name: s.data_type_name,
            qos: QosPolicies { history: None, resource_limits: None, ..s.qos },
        },
    }
}

/// The topic record that a writer's publication data gives, heard at `now`.
pub open spec fn topic_of_publication(s: PublicationBuiltinTopicData, now: u64) -> DiscoveredTopicData {
    DiscoveredTopicData {
        updated_time: now,
        topic_data: TopicBuiltinTopicData {
            key: None,
            name: s.topic_name,
            data_type_name: s.data_type_name,
            qos: QosPolicies { history: None, resource_limits: None, ..s.qos },
        },
    }
}

/// The topic record of a local topic, heard at `now`.
pub open spec fn topic_of_local(t: Topic, now: u64) -> DiscoveredTopicData {
    DiscoveredTopicData {
        updated_time: now,
        topic_data: TopicBuiltinTopicData {
            key: None,
            name: Some(t.name),
            data_type_name: Some(t.data_type_name),
            qos: t.qos,
        },
    }
}

/// Cleaning up participants twice at one instant changes nothing the second
/// time.
pub proof fn participant_cleanup_idempotent(db: DiscoveryDBView, now: u64)
    ensures
        after_participant_cleanup(after_participant_cleanup(db, now), now)
            == after_participant_cleanup(db, now),
{
    assert(live_participants(live_participants(db.participants, now), now) =~= live_participants(
        db.participants,
        now,
    ));
}

/// A topic cleanup keeps, unchanged, every topic record that a local reader
/// or writer refers to, however old it is.
pub proof fn topic_cleanup_keeps_referenced(db: DiscoveryDBView, now: u64, name: Seq<char>)
    requires
        db.topics.contains_key(name),
        referenced_locally(name, db.local_readers, db.local_writers),
    ensures
        after_topic_cleanup(db, now).topics.contains_key(name),
        after_topic_cleanup(db, now).topics[name] == db.topics[name],
{
}

/// `d` put in place of the reader with its GUID, or appended when there is
/// none.
pub open spec fn upsert_reader(s: Seq<DiscoveredReaderDataView>, d: DiscoveredReaderDataView) -> Seq<
    DiscoveredReaderDataView,
> {
    if exists|i: int| 0 <= i < s.len() && s[i].guid() == d.guid() {
        s.update(choose|i: int| 0 <= i < s.len() && s[i].guid() == d.guid(), d)
    } else {
        s.push(d)
    }
}

/// `d` put in place of the writer with its GUID, or appended when there is
/// none.
pub open spec fn upsert_writer(s: Seq<DiscoveredWriterDataView>, d: DiscoveredWriterDataView) -> Seq<
    DiscoveredWriterDataView,
> {
    if exists|i: int| 0 <= i < s.len() && s[i].guid() == d.guid() {
        s.update(choose|i: int| 0 <= i < s.len() && s[i].guid() == d.guid(), d)
    } else {
        s.push(d)
    }
}

/// The list without the reader whose GUID is `g`.
pub open spec fn without_reader(s: Seq<DiscoveredReaderDataView>, g: GUID) -> Seq<DiscoveredReaderDataView> {
    if exists|i: int| 0 <= i < s.len() && s[i].guid() == Some(g) {
        s.remove(choose|i: int| 0 <= i < s.len() && s[i].guid() == Some(g))
    } else {
        s
    }
}

/// The list without the writer whose GUID is `g`.
pub open spec fn without_writer(s: Seq<DiscoveredWriterDataView>, g: GUID) -> Seq<DiscoveredWriterDataView> {
    if exists|i: int| 0 <= i < s.len() && s[i].guid() == Some(g) {
        s.remove(choose|i: int| 0 <= i < s.len() && s[i].guid() == Some(g))
    } else {
        s
    }
}

/// The record of a local reader on `topic`.
pub open spec fn local_reader_record(
    participant_guid: GUID,
    topic: Topic,
    reader_guid: GUID,
    unicast: Seq<Locator>,
    multicast: Seq<Locator>,
) -> DiscoveredReaderDataView {
    DiscoveredReaderDataView {
        reader_proxy: crate::discovery_data::ReaderProxyView {
            remote_reader_guid: Some(reader_guid),
            expects_inline_qos: false,
            unicast_locator_list: unicast,
            multicast_locator_list: multicast,
        },
        subscription_topic_data: SubscriptionBuiltinTopicData {
            key: Some(reader_guid),
            participant_key: Some(participant_guid),
            topic_name: Some(topic.name),
            data_type_name: Some(topic.data_type_name),
            qos: topic.qos,
        },
    }
}

proof fn lemma_upsert_reader(s: Seq<DiscoveredReaderDataView>, d: DiscoveredReaderDataView, i: int)
    requires
        reader_guids_unique(s),
        0 <= i < s.len(),
        s[i].guid() == d.guid(),
    ensures
        upsert_reader(s, d) == s.update(i, d),
        reader_guids_unique(s.update(i, d)),
{
    let j = choose|j: int| 0 <= j < s.len() && s[j].guid() == d.guid();
    assert(s[j].guid() == s[i].guid());
    let t = s.update(i, d);
    assert forall|a: int, b: int| 0 <= a < t.len() && 0 <= b < t.len() && #[trigger] t[a].guid() == #[trigger] t[b].guid() implies a == b by {
        assert(t[a].guid() == s[a].guid());
        assert(t[b].guid() == s[b].guid());
    }
}

proof fn lemma_upsert_reader_push(s: Seq<DiscoveredReaderDataView>, d: DiscoveredReaderDataView)
    requires
        reader_guids_unique(s),
        forall|i: int| 0 <= i < s.len() ==> s[i].guid() != d.guid(),
    ensures
        upsert_reader(s, d) == s.push(d),
        reader_guids_unique(s.push(d)),
{
    let t = s.push(d);
    assert forall|a: int, b: int| 0 <= a < t.len() && 0 <= b < t.len() && #[trigger] t[a].guid() == #[trigger] t[b].guid() implies a == b by {
        if a < s.len() && b < s.len() {
            assert(s[a].guid() == s[b].guid());
        }
    }
}

proof fn lemma_upsert_writer(s: Seq<DiscoveredWriterDataView>, d: DiscoveredWriterDataView, i: int)
    requires
        writer_guids_unique(s),
        0 <= i < s.len(),
        s[i].guid() == d.guid(),
    ensures
        upsert_writer(s, d) == s.update(i, d),
        writer_guids_unique(s.update(i, d)),
{
    let j = choose|j: int| 0 <= j < s.len() && s[j].guid() == d.guid();
    assert(s[j].guid() == s[i].guid());
    let t = s.update(i, d);
    assert forall|a: int, b: int| 0 <= a < t.len() && 0 <= b < t.len() && #[trigger] t[a].guid() == #[trigger] t[b].guid() implies a == b by {
        assert(t[a].guid() == s[a].guid());
        assert(t[b].guid() == s[b].guid());
    }
}

proof fn lemma_upsert_writer_push(s: Seq<DiscoveredWriterDataView>, d: DiscoveredWriterDataView)
    requires
        writer_guids_unique(s),
        forall|i: int| 0 <= i < s.len() ==> s[i].guid() != d.guid(),
    ensures
        upsert_writer(s, d) == s.push(d),
        writer_guids_unique(s.push(d)),
{
    let t = s.push(d);
    assert forall|a: int, b: int| 0 <= a < t.len() && 0 <= b < t.len() && #[trigger] t[a].guid() == #[trigger] t[b].guid() implies a == b by {
        if a < s.len() && b < s.len() {
            assert(s[a].guid() == s[b].guid());
        }
    }
}

/// The reader lists' slot for `d`.
fn reader_position(v: &Vec<DiscoveredReaderData>, g: Option<GUID>) -> (r: Option<usize>)
    ensures
        match r {
            Some(i) => i < v@.len() && reader_views(v@)[i as int].guid() == g,
            None => forall|i: int| 0 <= i < v@.len() ==> reader_views(v@)[i].guid() != g,
        },
{
    let mut i: usize = 0;
    while i < v.len()
        invariant
            i <= v.len(),
            forall|j: int| 0 <= j < i ==> reader_views(v@)[j].guid() != g,
        decreases v.len() - i,
    {
        if v[i].reader_proxy.remote_reader_guid == g {
            return Some(i);
        }
        i = i + 1;
    }
    None
}

fn writer_position(v: &Vec<DiscoveredWriterData>, g: Option<GUID>) -> (r: Option<usize>)
    ensures
        match r {
            Some(i) => i < v@.len() && writer_views(v@)[i as int].guid() == g,
            None => forall|i: int| 0 <= i < v@.len() ==> writer_views(v@)[i].guid() != g,
        },
{
    let mut i: usize = 0;
    while i < v.len()
        invariant
            i <= v.len(),
            forall|j: int| 0 <= j < i ==> writer_views(v@)[j].guid() != g,
        decreases v.len() - i,
    {
        if v[i].writer_proxy.remote_writer_guid == g {
            return Some(i);
        }
        i = i + 1;
    }
    None
}

/// Puts `d` in place of the reader with its GUID, or appends it.
fn upsert_reader_vec(v: &mut Vec<DiscoveredReaderData>, d: DiscoveredReaderData)
    requires
        reader_guids_unique(reader_views(old(v)@)),
    ensures
        reader_views(final(v)@) == upsert_reader(reader_views(old(v)@), d@),
        reader_guids_unique(reader_views(final(v)@)),
{
    let ghost s = reader_views(v@);
    let ghost dv = d@;
    match reader_position(v, d.reader_proxy.remote_reader_guid) {
        Some(i) => {
            proof {
                lemma_upsert_reader(s, dv, i as int);
            }
            v.set(i, d);
            assert(reader_views(v@) =~= s.update(i as int, dv));
        },
        None => {
            proof {
                lemma_upsert_reader_push(s, dv);
            }
            v.push(d);
            assert(reader_views(v@) =~= s.push(dv));
        },
    }
}

/// Puts `d` in place of the writer with its GUID, or appends it.
fn upsert_writer_vec(v: &mut Vec<DiscoveredWriterData>, d: DiscoveredWriterData)
    requires
        writer_guids_unique(writer_views(old(v)@)),
    ensures
        writer_views(final(v)@) == upsert_writer(writer_views(old(v)@), d@),
        writer_guids_unique(writer_views(final(v)@)),
{
    let ghost s = writer_views(v@);
    let ghost dv = d@;
    match writer_position(v, d.writer_proxy.remote_writer_guid) {
        Some(i) => {
            proof {
                lemma_upsert_writer(s, dv, i as int);
            }
            v.set(i, d);
            assert(writer_views(v@) =~= s.update(i as int, dv));
        },
        None => {
            proof {
                lemma_upsert_writer_push(s, dv);
            }
            v.push(d);
            assert(writer_views(v@) =~= s.push(dv));
        },
    }
}

/// Whether a reader is on the topic called `name`.
pub open spec fn on_topic(name: Seq<char>) -> spec_fn(DiscoveredReaderDataView) -> bool {
    |d: DiscoveredReaderDataView| d.topic_name() == Some(name)
}

pub open spec fn readers_or_empty(m: Map<GUID, Seq<DiscoveredReaderDataView>>, g: GUID) -> Seq<
    DiscoveredReaderDataView,
> {
    if m.contains_key(g) {
        m[g]
    } else {
        Seq::empty()
    }
}

pub open spec fn writers_or_empty(m: Map<GUID, Seq<DiscoveredWriterDataView>>, g: GUID) -> Seq<
    DiscoveredWriterDataView,
> {
    if m.contains_key(g) {
        m[g]
    } else {
        Seq::empty()
    }
}

/// The database after the remote reader `d` is recorded among the matched
/// readers of local writer `writer`.
pub open spec fn with_reader_proxy(
    db: DiscoveryDBView,
    writer: GUID,
    d: DiscoveredReaderDataView,
) -> DiscoveryDBView {
    DiscoveryDBView {
        writers_reader_proxies: db.writers_reader_proxies.insert(
            writer,
            upsert_reader(readers_or_empty(db.writers_reader_proxies, writer), d),
        ),
        ..db
    }
}

/// The database after the remote writer `d` is recorded among the matched
/// writers of local reader `reader`.
pub open spec fn with_writer_proxy(
    db: DiscoveryDBView,
    reader: GUID,
    d: DiscoveredWriterDataView,
) -> DiscoveryDBView {
    DiscoveryDBView {
        readers_writer_proxies: db.readers_writer_proxies.insert(
            reader,
            upsert_writer(writers_or_empty(db.readers_writer_proxies, reader), d),
        ),
        ..db
    }
}

/// Whether a reader and a writer are to be matched: same topic, same type
/// and compatible QoS.
pub open spec fn endpoints_match(r: DiscoveredReaderDataView, w: DiscoveredWriterDataView) -> bool {
    &&& r.topic_name() is Some
    &&& r.topic_name() == w.topic_name()
    &&& r.data_type_name() == w.data_type_name()
    &&& qos_compatible(r.subscription_topic_data.qos, w.publication_topic_data.qos)
}

/// Whether one of `writers` has GUID `g` and matches reader `d`.
pub open spec fn matched_writer(
    writers: Seq<DiscoveredWriterDataView>,
    d: DiscoveredReaderDataView,
    g: GUID,
) -> bool {
    exists|i: int| 0 <= i < writers.len() && writers[i].guid() == Some(g) && #[trigger] endpoints_match(d, writers[i])
}

/// Whether one of `readers` has GUID `g` and matches writer `d`.
pub open spec fn matched_reader(
    readers: Seq<DiscoveredReaderDataView>,
    d: DiscoveredWriterDataView,
    g: GUID,
) -> bool {
    exists|i: int| 0 <= i < readers.len() && readers[i].guid() == Some(g) && #[trigger] endpoints_match(readers[i], d)
}

/// The matched-reader lists once the remote reader `d` is recorded with
/// every local writer among `writers` that it matches.
pub open spec fn reader_proxies_after(
    m: Map<GUID, Seq<DiscoveredReaderDataView>>,
    writers: Seq<DiscoveredWriterDataView>,
    d: DiscoveredReaderDataView,
) -> Map<GUID, Seq<DiscoveredReaderDataView>> {
    Map::new(
        |g: GUID| m.contains_key(g) || matched_writer(writers, d, g),
        |g: GUID| if matched_writer(writers, d, g) {
            upsert_reader(readers_or_empty(m, g), d)
        } else {
            m[g]
        },
    )
}

/// The matched-writer lists once the remote writer `d` is recorded with
/// every local reader among `readers` that it matches.
pub open spec fn writer_proxies_after(
    m: Map<GUID, Seq<DiscoveredWriterDataView>>,
    readers: Seq<DiscoveredReaderDataView>,
    d: DiscoveredWriterDataView,
) -> Map<GUID, Seq<DiscoveredWriterDataView>> {
    Map::new(
        |g: GUID| m.contains_key(g) || matched_reader(readers, d, g),
        |g: GUID| if matched_reader(readers, d, g) {
            upsert_writer(writers_or_empty(m, g), d)
        } else {
            m[g]
        },
    )
}

/// The database after a subscription of the remote reader `d` is processed.
pub open spec fn after_subscription(db: DiscoveryDBView, d: DiscoveredReaderDataView) -> DiscoveryDBView {
    DiscoveryDBView {
        writers_reader_proxies: reader_proxies_after(db.writers_reader_proxies, db.local_writers, d),
        ..db
    }
}

/// The database after a publication of the remote writer `d` is processed.
pub open spec fn after_publication(db: DiscoveryDBView, d: DiscoveredWriterDataView) -> DiscoveryDBView {
    DiscoveryDBView {
        readers_writer_proxies: writer_proxies_after(db.readers_writer_proxies, db.local_readers, d),
        ..db
    }
}

/// Whether `d` is the synthetic reader that stands for the SPDP participant
/// readers at the discovery multicast `port`, seen from local writer
/// `writer_guid`.
pub open spec fn is_spdp_reader_record(d: DiscoveredReaderDataView, writer_guid: GUID, port: u16) -> bool {
    let guid = GUID { prefix: writer_guid.prefix, entity_id: ENTITYID_SPDP_BUILTIN_PARTICIPANT_READER };
    &&& d.reader_proxy == crate::discovery_data::ReaderProxyView {
        remote_reader_guid: Some(guid),
        expects_inline_qos: false,
        unicast_locator_list: Seq::empty(),
        multicast_locator_list: seq![
            Locator {
                kind: crate::guid::LOCATOR_KIND_UDPV4,
                port: port as u32,
                address: crate::guid::DISCOVERY_MULTICAST_ADDRESS,
            },
        ],
    }
    &&& d.subscription_topic_data.key == Some(guid)
    &&& d.subscription_topic_data.participant_key == Some(GUID { prefix: 0, entity_id: 0 })
    &&& d.topic_name() == Some(SPDP_TOPIC_NAME@)
    &&& d.data_type_name() == Some(SPDP_TYPE_NAME@)
    &&& d.subscription_topic_data.qos == QosPolicies::spec_none()
}

proof fn lemma_upsert_reader_ok(s: Seq<DiscoveredReaderDataView>, d: DiscoveredReaderDataView)
    requires
        reader_list_ok(s),
        d.guid() is Some,
    ensures
        reader_list_ok(upsert_reader(s, d)),
        exists|j: int| 0 <= j < upsert_reader(s, d).len() && upsert_reader(s, d)[j] == d,
{
    if exists|i: int| 0 <= i < s.len() && s[i].guid() == d.guid() {
        let i = choose|i: int| 0 <= i < s.len() && s[i].guid() == d.guid();
        lemma_upsert_reader(s, d, i);
        assert(upsert_reader(s, d)[i] == d);
    } else {
        lemma_upsert_reader_push(s, d);
        assert(upsert_reader(s, d)[s.len() as int] == d);
    }
}

proof fn lemma_upsert_writer_ok(s: Seq<DiscoveredWriterDataView>, d: DiscoveredWriterDataView)
    requires
        writer_list_ok(s),
        d.guid() is Some,
    ensures
        writer_list_ok(upsert_writer(s, d)),
        exists|j: int| 0 <= j < upsert_writer(s, d).len() && upsert_writer(s, d)[j] == d,
{
    if exists|i: int| 0 <= i < s.len() && s[i].guid() == d.guid() {
        let i = choose|i: int| 0 <= i < s.len() && s[i].guid() == d.guid();
        lemma_upsert_writer(s, d, i);
        assert(upsert_writer(s, d)[i] == d);
    } else {
        lemma_upsert_writer_push(s, d);
        assert(upsert_writer(s, d)[s.len() as int] == d);
    }
}

/// Recording a reader that is already recorded changes nothing.
proof fn lemma_upsert_reader_twice(s: Seq<DiscoveredReaderDataView>, d: DiscoveredReaderDataView)
    requires
        reader_list_ok(s),
        d.guid() is Some,
    ensures
        upsert_reader(upsert_reader(s, d), d) == upsert_reader(s, d),
{
    lemma_upsert_reader_ok(s, d);
    let t = upsert_reader(s, d);
    let j = choose|j: int| 0 <= j < t.len() && t[j] == d;
    lemma_upsert_reader(t, d, j);
    assert(t.update(j, d) =~= t);
}

/// After a subscription of the remote reader `d` is processed, every local
/// writer that `d` matches lists `d` exactly once, and processing the same
/// subscription again changes nothing.
pub proof fn subscription_recorded_once(db: DiscoveryDBView, d: DiscoveredReaderDataView, i: int)
    requires
        db_view_ok(db),
        d.guid() is Some,
        0 <= i < db.local_writers.len(),
        db.local_writers[i].guid() is Some,
        endpoints_match(d, db.local_writers[i]),
    ensures
        ({
            let w = db.local_writers[i].guid().unwrap();
            let list = after_subscription(db, d).writers_reader_proxies[w];
            &&& after_subscription(db, d).writers_reader_proxies.contains_key(w)
            &&& exists|j: int| 0 <= j < list.len() && list[j] == d
            &&& forall|j: int, k: int|
                0 <= j < list.len() && 0 <= k < list.len() && list[j].guid() == d.guid()
                    && list[k].guid() == d.guid() ==> j == k
        }),
        after_subscription(after_subscription(db, d), d) == after_subscription(db, d),
{
    let w = db.local_writers[i].guid().unwrap();
    assert(matched_writer(db.local_writers, d, w));
    let m = db.writers_reader_proxies;
    let after = after_subscription(db, d);
    assert(reader_list_ok(readers_or_empty(m, w))) by {
        if !m.contains_key(w) {
            assert(reader_list_ok(Seq::<DiscoveredReaderDataView>::empty()));
        }
    }
    lemma_upsert_reader_ok(readers_or_empty(m, w), d);
    let list = after.writers_reader_proxies[w];
    assert forall|j: int, k: int|
        0 <= j < list.len() && 0 <= k < list.len() && list[j].guid() == d.guid()
            && list[k].guid() == d.guid() implies j == k by {
        assert(list[j].guid() == list[k].guid());
    }
    let m2 = after.writers_reader_proxies;
    assert forall|g: GUID| #[trigger] m2.contains_key(g) implies reader_list_ok(m2[g]) by {
        if matched_writer(db.local_writers, d, g) {
            assert(reader_list_ok(readers_or_empty(m, g))) by {
                if !m.contains_key(g) {
                    assert(reader_list_ok(Seq::<DiscoveredReaderDataView>::empty()));
                }
            }
            lemma_upsert_reader_ok(readers_or_empty(m, g), d);
        }
    }
    assert forall|g: GUID| #[trigger] matched_writer(db.local_writers, d, g) implies
        upsert_reader(readers_or_empty(m2, g), d) == m2[g] by {
        assert(reader_list_ok(readers_or_empty(m, g))) by {
            if !m.contains_key(g) {
                assert(reader_list_ok(Seq::<DiscoveredReaderDataView>::empty()));
            }
        }
        lemma_upsert_reader_twice(readers_or_empty(m, g), d);
    }
    assert(reader_proxies_after(m2, db.local_writers, d) =~= m2);
}

proof fn lemma_reader_proxies_step(
    m: Map<GUID, Seq<DiscoveredReaderDataView>>,
    ws: Seq<DiscoveredWriterDataView>,
    d: DiscoveredReaderDataView,
    i: int,
)
    requires
        writer_guids_unique(ws),
        0 <= i < ws.len(),
    ensures
        ws[i].guid() is Some && endpoints_match(d, ws[i]) ==> reader_proxies_after(m, ws.take(i + 1), d)
            == reader_proxies_after(m, ws.take(i), d).insert(
            ws[i].guid().unwrap(),
            upsert_reader(readers_or_empty(reader_proxies_after(m, ws.take(i), d), ws[i].guid().unwrap()), d),
        ),
        !(ws[i].guid() is Some && endpoints_match(d, ws[i])) ==> reader_proxies_after(m, ws.take(i + 1), d)
            == reader_proxies_after(m, ws.take(i), d),
{
    let pre = ws.take(i);
    let post = ws.take(i + 1);
    assert forall|g: GUID| #[trigger] matched_writer(post, d, g) == (matched_writer(pre, d, g) || (ws[i].guid() == Some(g) && endpoints_match(d, ws[i]))) by {
        if matched_writer(post, d, g) {
            let j = choose|j: int| 0 <= j < post.len() && post[j].guid() == Some(g) && #[trigger] endpoints_match(d, post[j]);
            if j < i {
                assert(pre[j] == post[j]);
            }
        }
        if matched_writer(pre, d, g) {
            let j = choose|j: int| 0 <= j < pre.len() && pre[j].guid() == Some(g) && #[trigger] endpoints_match(d, pre[j]);
            assert(post[j] == pre[j]);
        }
        if ws[i].guid() == Some(g) && endpoints_match(d, ws[i]) {
            assert(post[i] == ws[i]);
        }
    }
    if ws[i].guid() is Some {
        let g = ws[i].guid().unwrap();
        if matched_writer(pre, d, g) {
            let j = choose|j: int| 0 <= j < pre.len() && pre[j].guid() == Some(g) && #[trigger] endpoints_match(d, pre[j]);
            assert(ws[j].guid() == ws[i].guid());
        }
    }
    if ws[i].guid() is Some && endpoints_match(d, ws[i]) {
        assert(reader_proxies_after(m, post, d) =~= reader_proxies_after(m, pre, d).insert(
            ws[i].guid().unwrap(),
            upsert_reader(readers_or_empty(reader_proxies_after(m, pre, d), ws[i].guid().unwrap()), d),
        ));
    } else {
        assert(reader_proxies_after(m, post, d) =~= reader_proxies_after(m, pre, d));
    }
}

proof fn lemma_writer_proxies_step(
    m: Map<GUID, Seq<DiscoveredWriterDataView>>,
    rs: Seq<DiscoveredReaderDataView>,
    d: DiscoveredWriterDataView,
    i: int,
)
    requires
        reader_guids_unique(rs),
        0 <= i < rs.len(),
    ensures
        rs[i].guid() is Some && endpoints_match(rs[i], d) ==> writer_proxies_after(m, rs.take(i + 1), d)
            == writer_proxies_after(m, rs.take(i), d).insert(
            rs[i].guid().unwrap(),
            upsert_writer(writers_or_empty(writer_proxies_after(m, rs.take(i), d), rs[i].guid().unwrap()), d),
        ),
        !(rs[i].guid() is Some && endpoints_match(rs[i], d)) ==> writer_proxies_after(m, rs.take(i + 1), d)
            == writer_proxies_after(m, rs.take(i), d),
{
    let pre = rs.take(i);
    let post = rs.take(i + 1);
    assert forall|g: GUID| #[trigger] matched_reader(post, d, g) == (matched_reader(pre, d, g) || (rs[i].guid() == Some(g) && endpoints_match(rs[i], d))) by {
        if matched_reader(post, d, g) {
            let j = choose|j: int| 0 <= j < post.len() && post[j].guid() == Some(g) && #[trigger] endpoints_match(post[j], d);
            if j < i {
                assert(pre[j] == post[j]);
            }
        }
        if matched_reader(pre, d, g) {
            let j = choose|j: int| 0 <= j < pre.len() && pre[j].guid() == Some(g) && #[trigger] endpoints_match(pre[j], d);
            assert(post[j] == pre[j]);
        }
        if rs[i].guid() == Some(g) && endpoints_match(rs[i], d) {
            assert(post[i] == rs[i]);
        }
    }
    if rs[i].guid() is Some {
        let g = rs[i].guid().unwrap();
        if matched_reader(pre, d, g) {
            let j = choose|j: int| 0 <= j < pre.len() && pre[j].guid() == Some(g) && #[trigger] endpoints_match(pre[j], d);
            assert(rs[j].guid() == rs[i].guid());
        }
    }
    if rs[i].guid() is Some && endpoints_match(rs[i], d) {
        assert(writer_proxies_after(m, post, d) =~= writer_proxies_after(m, pre, d).insert(
            rs[i].guid().unwrap(),
            upsert_writer(writers_or_empty(writer_proxies_after(m, pre, d), rs[i].guid().unwrap()), d),
        ));
    } else {
        assert(writer_proxies_after(m, post, d) =~= writer_proxies_after(m, pre, d));
    }
}

/// Whether two optional strings hold the same text.
fn same_opt_text(a: &Option<String>, b: &Option<String>) -> (r: bool)
    ensures
        r == (opt_text(*a) == opt_text(*b)),
{
    match (a, b) {
        (Some(x), Some(y)) => *x == *y,
        (None, None) => true,
        _ => false,
    }
}

/// Whether reader `r` and writer `w` are to be matched.
fn endpoints_match_exec(r: &DiscoveredReaderData, w: &DiscoveredWriterData) -> (b: bool)
    ensures
        b == endpoints_match(r@, w@),
{
    r.subscription_topic_data.topic_name.is_some() && same_opt_text(
        &r.subscription_topic_data.topic_name,
        &w.publication_topic_data.topic_name,
    ) && same_opt_text(&r.subscription_topic_data.data_type_name, &w.publication_topic_data.data_type_name)
        && r.subscription_topic_data.qos.compatible_with_offered(&w.publication_topic_data.qos)
}

/// Name of the built-in topic on which participants are announced.
pub const SPDP_TOPIC_NAME: &'static str = "DCPSParticipant";

/// Type name of the participant announcements.
pub const SPDP_TYPE_NAME: &'static str = "SPDPDiscoveredParticipantData";

pub struct DiscoveryDB {
    participant_proxies: Vec<(GUID, SPDPDiscoveredParticipantData)>,
    local_topic_writers: Vec<DiscoveredWriterData>,
    local_topic_readers: Vec<DiscoveredReaderData>,
    writers_reader_proxies: Vec<(GUID, Vec<DiscoveredReaderData>)>,
    readers_writer_proxies: Vec<(GUID, Vec<DiscoveredWriterData>)>,
    topics: Vec<(String, DiscoveredTopicData)>,
    readers_updated: bool,
    writers_updated: bool,
}

pub open spec fn participant_pairs(v: Seq<(GUID, SPDPDiscoveredParticipantData)>) -> Seq<
    (GUID, ParticipantDataView),
> {
    v.map_values(|e: (GUID, SPDPDiscoveredParticipantData)| (e.0, e.1@))
}

pub open spec fn reader_views(v: Seq<DiscoveredReaderData>) -> Seq<DiscoveredReaderDataView> {
    v.map_values(|d: DiscoveredReaderData| d@)
}

pub open spec fn writer_views(v: Seq<DiscoveredWriterData>) -> Seq<DiscoveredWriterDataView> {
    v.map_values(|d: DiscoveredWriterData| d@)
}

pub open spec fn reader_list_pairs(v: Seq<(GUID, Vec<DiscoveredReaderData>)>) -> Seq<
    (GUID, Seq<DiscoveredReaderDataView>),
> {
    v.map_values(|e: (GUID, Vec<DiscoveredReaderData>)| (e.0, reader_views(e.1@)))
}

pub open spec fn writer_list_pairs(v: Seq<(GUID, Vec<DiscoveredWriterData>)>) -> Seq<
    (GUID, Seq<DiscoveredWriterDataView>),
> {
    v.map_values(|e: (GUID, Vec<DiscoveredWriterData>)| (e.0, writer_views(e.1@)))
}

pub open spec fn topic_pairs(v: Seq<(String, DiscoveredTopicData)>) -> Seq<
    (Seq<char>, DiscoveredTopicData),
> {
    v.map_values(|e: (String, DiscoveredTopicData)| (e.0@, e.1))
}

/// No two readers of the list have one GUID, and each has one.
pub open spec fn reader_guids_unique(s: Seq<DiscoveredReaderDataView>) -> bool {
    forall|i: int, j: int|
        0 <= i < s.len() && 0 <= j < s.len() && #[trigger] s[i].guid() == #[trigger] s[j].guid()
            ==> i == j
}

pub open spec fn writer_guids_unique(s: Seq<DiscoveredWriterDataView>) -> bool {
    forall|i: int, j: int|
        0 <= i < s.len() && 0 <= j < s.len() && #[trigger] s[i].guid() == #[trigger] s[j].guid()
            ==> i == j
}

pub open spec fn reader_list_ok(s: Seq<DiscoveredReaderDataView>) -> bool {
    reader_guids_unique(s) && forall|i: int| 0 <= i < s.len() ==> (#[trigger] s[i].guid()).is_some()
}

pub open spec fn writer_list_ok(s: Seq<DiscoveredWriterDataView>) -> bool {
    writer_guids_unique(s) && forall|i: int| 0 <= i < s.len() ==> (#[trigger] s[i].guid()).is_some()
}

impl View for DiscoveryDB {
    type V = DiscoveryDBView;

    closed spec fn view(&self) -> DiscoveryDBView {
        DiscoveryDBView {
            participants: to_map(participant_pairs(self.participant_proxies@)),
            local_writers: writer_views(self.local_topic_writers@),
            local_readers: reader_views(self.local_topic_readers@),
            writers_reader_proxies: to_map(reader_list_pairs(self.writers_reader_proxies@)),
            readers_writer_proxies: to_map(writer_list_pairs(self.readers_writer_proxies@)),
            topics: to_map(topic_pairs(self.topics@)),
            readers_updated: self.readers_updated,
            writers_updated: self.writers_updated,
        }
    }
}

pub open spec fn participants_ok(m: Map<GUID, ParticipantDataView>) -> bool {
    forall|g: GUID| #[trigger] m.contains_key(g) ==> m[g].participant_guid == Some(g)
}

pub open spec fn topics_ok(m: Map<Seq<char>, DiscoveredTopicData>) -> bool {
    forall|n: Seq<char>| #[trigger] m.contains_key(n) ==> m[n].name() == Some(n)
}

pub open spec fn reader_lists_ok(m: Map<GUID, Seq<DiscoveredReaderDataView>>) -> bool {
    forall|g: GUID| #[trigger] m.contains_key(g) ==> reader_list_ok(m[g])
}

pub open spec fn writer_lists_ok(m: Map<GUID, Seq<DiscoveredWriterDataView>>) -> bool {
    forall|g: GUID| #[trigger] m.contains_key(g) ==> writer_list_ok(m[g])
}

/// The invariant of a database view: every participant is stored under its
/// own GUID, every topic under its own name, local endpoints have distinct
/// GUIDs and every matched-proxy list holds distinct, present GUIDs.
pub open spec fn db_view_ok(db: DiscoveryDBView) -> bool {
    &&& participants_ok(db.participants)
    &&& topics_ok(db.topics)
    &&& writer_guids_unique(db.local_writers)
    &&& reader_guids_unique(db.local_readers)
    &&& reader_lists_ok(db.writers_reader_proxies)
    &&& writer_lists_ok(db.readers_writer_proxies)
}

impl DiscoveryDB {
    pub closed spec fn wf(&self) -> bool {
        &&& keys_unique(participant_pairs(self.participant_proxies@))
        &&& keys_unique(reader_list_pairs(self.writers_reader_proxies@))
        &&& keys_unique(writer_list_pairs(self.readers_writer_proxies@))
        &&& keys_unique(topic_pairs(self.topics@))
        &&& db_view_ok(self@)
    }

    pub fn new() -> (r: DiscoveryDB)
        ensures
            r.wf(),
            r@.participants == Map::<GUID, ParticipantDataView>::empty(),
            r@.local_writers == Seq::<DiscoveredWriterDataView>::empty(),
            r@.local_readers == Seq::<DiscoveredReaderDataView>::empty(),
            r@.writers_reader_proxies == Map::<GUID, Seq<DiscoveredReaderDataView>>::empty(),
            r@.readers_writer_proxies == Map::<GUID, Seq<DiscoveredWriterDataView>>::empty(),
            r@.topics == Map::<Seq<char>, DiscoveredTopicData>::empty(),
            !r@.readers_updated,
            !r@.writers_updated,
    {
        let r = DiscoveryDB {
            participant_proxies: Vec::new(),
            local_topic_writers: Vec::new(),
            local_topic_readers: Vec::new(),
            writers_reader_proxies: Vec::new(),
            readers_writer_proxies: Vec::new(),
            topics: Vec::new(),
            readers_updated: false,
            writers_updated: false,
        };
        assert(r@.participants =~= Map::empty());
        assert(r@.local_writers =~= Seq::empty());
        assert(r@.local_readers =~= Seq::empty());
        assert(r@.writers_reader_proxies =~= Map::empty());
        assert(r@.readers_writer_proxies =~= Map::empty());
        assert(r@.topics =~= Map::empty());
        r
    }

    fn participant_index(&self, guid: &GUID) -> (r: Option<usize>)
        ensures
            match r {
                Some(i) => i < self.participant_proxies@.len() && self.participant_proxies@[i as int].0
                    == *guid,
                None => !has_key(participant_pairs(self.participant_proxies@), *guid),
            },
    {
        let mut i: usize = 0;
        while i < self.participant_proxies.len()
            invariant
                i <= self.participant_proxies.len(),
                forall|j: int| 0 <= j < i ==> self.participant_proxies@[j].0 != *guid,
            decreases self.participant_proxies.len() - i,
        {
            if self.participant_proxies[i].0 == *guid {
                return Some(i);
            }
            i = i + 1;
        }
        proof {
            let ps = participant_pairs(self.participant_proxies@);
            assert forall|j: int| 0 <= j < ps.len() implies #[trigger] ps[j].0 != *guid by {
                assert(ps[j].0 == self.participant_proxies@[j].0);
            }
        }
        None
    }

    /// Records `data` as last heard at `now`, replacing any earlier record of
    /// the same participant. Returns false, changing nothing, when the data
    /// carries no participant GUID.
    pub fn update_participant_at(&mut self, data: &SPDPDiscoveredParticipantData, now: u64) -> (r:
        bool)
        requires
            old(self).wf(),
        ensures
            final(self).wf(),
            r == data.participant_guid.is_some(),
            r ==> final(self)@ == with_participant(old(self)@, data@, now),
            !r ==> final(self)@ == old(self)@,
    {
        let guid = match data.participant_guid {
            Some(g) => g,
            None => return false,
        };
        let rec = data.copy_heard_at(now);
        let ghost pv = rec@;
        let ghost before = participant_pairs(self.participant_proxies@);
        let found = self.participant_index(&guid);
        if let Some(i) = found {
            proof {
                lemma_to_map_update(before, i as int, pv);
            }
            self.participant_proxies.set(i, (guid, rec));
            proof {
                assert(participant_pairs(self.participant_proxies@) =~= before.update(
                    i as int,
                    (before[i as int].0, pv),
                ));
            }
        } else {
            proof {
                lemma_to_map_push(before, guid, pv);
            }
            self.participant_proxies.push((guid, rec));
            proof {
                assert(participant_pairs(self.participant_proxies@) =~= before.push((guid, pv)));
            }
        }
        proof {
            assert forall|g: GUID| #[trigger] self@.participants.contains_key(g) implies self@.participants[g].participant_guid == Some(g) by {
                if g != guid {
                    assert(old(self)@.participants.contains_key(g));
                }
            }
        }
        true
    }

    /// Records `data` as heard now, replacing any earlier record of the same
    /// participant. Returns false, changing nothing, when the data carries no
    /// participant GUID.
    pub fn update_participant(&mut self, data: &SPDPDiscoveredParticipantData) -> (r: bool)
        requires
            old(self).wf(),
        ensures
            final(self).wf(),
            r == data.participant_guid.is_some(),
            r ==> exists|now: u64| final(self)@ == #[trigger] with_participant(old(self)@, data@, now),
            !r ==> final(self)@ == old(self)@,
    {
        let now = precise_time_ns();
        self.update_participant_at(data, now)
    }

    /// Evicts every participant whose lease has expired at `now`.
    pub fn participant_cleanup_at(&mut self, now: u64)
        requires
            old(self).wf(),
        ensures
            final(self).wf(),
            final(self)@ == after_participant_cleanup(old(self)@, now),
    {
        let ghost src = participant_pairs(self.participant_proxies@);
        let mut kept: Vec<(GUID, SPDPDiscoveredParticipantData)> = Vec::new();
        let mut i: usize = 0;
        while i < self.participant_proxies.len()
            invariant
                i <= self.participant_proxies.len(),
                src == participant_pairs(self.participant_proxies@),
                keys_unique(src),
                keys_unique(participant_pairs(kept@)),
                to_map(participant_pairs(kept@)) == live_participants(
                    to_map(src.take(i as int)),
                    now,
                ),
            decreases self.participant_proxies.len() - i,
        {
            let ghost pre = src.take(i as int);
            proof {
                lemma_to_map_take(src, i as int);
            }
            let g = self.participant_proxies[i].0;
            let p = &self.participant_proxies[i].1;
            let lease: u64 = match p.lease_duration {
                Some(d) => d.nanos,
                None => DEFAULT_LEASE_NANOS,
            };
            let age: u64 = if now >= p.updated_time {
                now - p.updated_time
            } else {
                0
            };
            assert(src[i as int] == (g, p@));
            if age <= lease {
                let c = p.copy_heard_at(p.updated_time);
                proof {
                    assert(c@ == p@);
                    if has_key(participant_pairs(kept@), g) {
                        let j = choose|j: int|
                            0 <= j < participant_pairs(kept@).len() && participant_pairs(kept@)[j].0
                                == g;
                        lemma_to_map_index(participant_pairs(kept@), j);
                        assert(to_map(pre).contains_key(g));
                    }
                    lemma_to_map_push(participant_pairs(kept@), g, c@);
                    lemma_to_map_push(pre, g, p@);
                }
                let ghost old_kept = kept@;
                kept.push((g, c));
                proof {
                    assert(participant_pairs(kept@) =~= participant_pairs(old_kept).push((g, c@)));
                    assert(to_map(participant_pairs(kept@)) =~= live_participants(
                        to_map(src.take(i + 1)),
                        now,
                    ));
                }
            } else {
                proof {
                    lemma_to_map_push(pre, g, p@);
                    assert(to_map(participant_pairs(kept@)) =~= live_participants(
                        to_map(src.take(i + 1)),
                        now,
                    ));
                }
            }
            i = i + 1;
        }
        proof {
            assert(src.take(i as int) =~= src);
        }
        self.participant_proxies = kept;
        proof {
            assert forall|g: GUID| #[trigger] self@.participants.contains_key(g) implies self@.participants[g].participant_guid == Some(g) by {
                assert(old(self)@.participants.contains_key(g));
            }
        }
    }

    /// Evicts every participant whose lease has expired by the clock's
    /// current reading.
    pub fn participant_cleanup(&mut self)
        requires
            old(self).wf(),
        ensures
            final(self).wf(),
            exists|now: u64| final(self)@ == #[trigger] after_participant_cleanup(old(self)@, now),
    {
        let now = precise_time_ns();
        self.participant_cleanup_at(now);
    }

    /// The participant records, each once.
    pub fn get_participants(&self) -> (r: Vec<&SPDPDiscoveredParticipantData>)
        requires
            self.wf(),
        ensures
            forall|i: int| 0 <= i < r@.len() ==> {
                &&& (#[trigger] r@[i])@.participant_guid is Some
                &&& self@.participants.contains_key(r@[i]@.participant_guid.unwrap())
                &&& self@.participants[r@[i]@.participant_guid.unwrap()] == r@[i]@
            },
            forall|g: GUID| #[trigger]
                self@.participants.contains_key(g) ==> exists|i: int|
                    0 <= i < r@.len() && r@[i]@.participant_guid == Some(g),
            forall|i: int, j: int|
                0 <= i < r@.len() && 0 <= j < r@.len() && (#[trigger] r@[i])@.participant_guid
                    == (#[trigger] r@[j])@.participant_guid ==> i == j,
    {
        let ghost ps = participant_pairs(self.participant_proxies@);
        let mut r: Vec<&SPDPDiscoveredParticipantData> = Vec::new();
        let mut i: usize = 0;
        while i < self.participant_proxies.len()
            invariant
                i <= self.participant_proxies.len(),
                ps == participant_pairs(self.participant_proxies@),
                self.wf(),
                r@.len() == i,
                forall|j: int| 0 <= j < i ==> (#[trigger] r@[j])@ == ps[j].1,
            decreases self.participant_proxies.len() - i,
        {
            r.push(&self.participant_proxies[i].1);
            i = i + 1;
        }
        proof {
            assert forall|j: int| 0 <= j < r@.len() implies ps[j].1.participant_guid == Some(
                ps[j].0,
            ) by {
                lemma_to_map_index(ps, j);
            }
            assert forall|g: GUID| #[trigger]
                self@.participants.contains_key(g) implies exists|j: int|
                0 <= j < r@.len() && r@[j]@.participant_guid == Some(g) by {
                let j = choose|j: int| 0 <= j < ps.len() && ps[j].0 == g;
                lemma_to_map_index(ps, j);
                assert(r@[j]@.participant_guid == Some(g));
            }
            assert forall|a: int| 0 <= a < r@.len() implies {
                &&& self@.participants.contains_key(r@[a]@.participant_guid.unwrap())
                &&& self@.participants[r@[a]@.participant_guid.unwrap()] == r@[a]@
            } by {
                lemma_to_map_index(ps, a);
            }
            assert forall|a: int, b: int|
                0 <= a < r@.len() && 0 <= b < r@.len() && (#[trigger] r@[a])@.participant_guid
                    == (#[trigger] r@[b])@.participant_guid implies a == b by {
                lemma_to_map_index(ps, a);
                lemma_to_map_index(ps, b);
                assert(ps[a].0 == ps[b].0);
            }
        }
        r
    }

    fn topic_index(&self, name: &String) -> (r: Option<usize>)
        ensures
            match r {
                Some(i) => i < self.topics@.len() && self.topics@[i as int].0@ == name@,
                None => !has_key(topic_pairs(self.topics@), name@),
            },
    {
        let mut i: usize = 0;
        while i < self.topics.len()
            invariant
                i <= self.topics.len(),
                forall|j: int| 0 <= j < i ==> self.topics@[j].0@ != name@,
            decreases self.topics.len() - i,
        {
            if self.topics[i].0 == *name {
                return Some(i);
            }
            i = i + 1;
        }
        proof {
            let ps = topic_pairs(self.topics@);
            assert forall|j: int| 0 <= j < ps.len() implies #[trigger] ps[j].0 != name@ by {
                assert(ps[j].0 == self.topics@[j].0@);
            }
        }
        None
    }

    /// Records `data` under its topic name, replacing any earlier record.
    /// Returns false, changing nothing, when the data has no name.
    pub fn update_topic_data(&mut self, data: &DiscoveredTopicData) -> (r: bool)
        requires
            old(self).wf(),
        ensures
            final(self).wf(),
            r == data.topic_data.name.is_some(),
            r ==> final(self)@ == with_topic(old(self)@, *data),
            !r ==> final(self)@ == old(self)@,
    {
        let name = match &data.topic_data.name {
            Some(n) => n.clone(),
            None => return false,
        };
        let rec = data.copy();
        let ghost before = topic_pairs(self.topics@);
        if let Some(i) = self.topic_index(&name) {
            proof {
                lemma_to_map_update(before, i as int, rec);
            }
            self.topics.set(i, (name, rec));
            proof {
                assert(topic_pairs(self.topics@) =~= before.update(i as int, (before[i as int].0, rec)));
            }
        } else {
            proof {
                lemma_to_map_push(before, name@, rec);
            }
            self.topics.push((name, rec));
            proof {
                assert(topic_pairs(self.topics@) =~= before.push((name@, rec)));
            }
        }
        proof {
            assert forall|n: Seq<char>| #[trigger] self@.topics.contains_key(n) implies self@.topics[n].name() == Some(n) by {
                if n != name@ {
                    assert(old(self)@.topics.contains_key(n));
                }
            }
        }
        true
    }

    /// Records the topic that a discovered reader subscribes to, as heard at
    /// `now`; nothing changes when its subscription data names no topic.
    pub fn update_topic_data_drd_at(&mut self, drd: &DiscoveredReaderData, now: u64)
        requires
            old(self).wf(),
        ensures
            final(self).wf(),
            drd.subscription_topic_data.topic_name is Some ==> final(self)@ == with_topic(
                old(self)@,
                topic_of_subscription(drd.subscription_topic_data, now),
            ),
            drd.subscription_topic_data.topic_name is None ==> final(self)@ == old(self)@,
    {
        let s = &drd.subscription_topic_data;
        let mut qos = s.qos;
        qos.history = None;
        qos.resource_limits = None;
        let topic_data = DiscoveredTopicData::new(
            now,
            TopicBuiltinTopicData {
                key: None,
                name: copy_opt_string(&s.topic_name),
                data_type_name: copy_opt_string(&s.data_type_name),
                qos,
            },
        );
        self.update_topic_data(&topic_data);
    }

    /// Records the topic that a discovered reader subscribes to, as heard
    /// now.
    pub fn update_topic_data_drd(&mut self, drd: &DiscoveredReaderData)
        requires
            old(self).wf(),
        ensures
            final(self).wf(),
            drd.subscription_topic_data.topic_name is Some ==> exists|now: u64|
                final(self)@ == with_topic(
                    old(self)@,
                    #[trigger] topic_of_subscription(drd.subscription_topic_data, now),
                ),
            drd.subscription_topic_data.topic_name is None ==> final(self)@ == old(self)@,
    {
        let now = precise_time_ns();
        self.update_topic_data_drd_at(drd, now);
    }

    /// Records the topic that a discovered writer publishes on, as heard at
    /// `now`; nothing changes when its publication data names no topic.
    pub fn update_topic_data_dwd_at(&mut self, dwd: &DiscoveredWriterData, now: u64)
        requires
            old(self).wf(),
        ensures
            final(self).wf(),
            dwd.publication_topic_data.topic_name is Some ==> final(self)@ == with_topic(
                old(self)@,
                topic_of_publication(dwd.publication_topic_data, now),
            ),
            dwd.publication_topic_data.topic_name is None ==> final(self)@ == old(self)@,
    {
        let s = &dwd.publication_topic_data;
        let mut qos = s.qos;
        qos.history = None;
        qos.resource_limits = None;
        let topic_data = DiscoveredTopicData::new(
            now,
            TopicBuiltinTopicData {
                key: None,
                name: copy_opt_string(&s.topic_name),
                data_type_name: copy_opt_string(&s.data_type_name),
                qos,
            },
        );
        self.update_topic_data(&topic_data);
    }

    /// Records the topic that a discovered writer publishes on, as heard now.
    pub fn update_topic_data_dwd(&mut self, dwd: &DiscoveredWriterData)
        requires
            old(self).wf(),
        ensures
            final(self).wf(),
            dwd.publication_topic_data.topic_name is Some ==> exists|now: u64|
                final(self)@ == with_topic(
                    old(self)@,
                    #[trigger] topic_of_publication(dwd.publication_topic_data, now),
                ),
            dwd.publication_topic_data.topic_name is None ==> final(self)@ == old(self)@,
    {
        let now = precise_time_ns();
        self.update_topic_data_dwd_at(dwd, now);
    }

    /// Records a local topic, as heard at `now`.
    pub fn update_topic_data_p_at(&mut self, topic: &Topic, now: u64)
        requires
            old(self).wf(),
        ensures
            final(self).wf(),
            final(self)@ == with_topic(old(self)@, topic_of_local(*topic, now)),
    {
        let topic_data = DiscoveredTopicData::new(
            now,
            TopicBuiltinTopicData {
                key: None,
                name: Some(topic.name.clone()),
                data_type_name: Some(topic.data_type_name.clone()),
                qos: topic.qos,
            },
        );
        self.update_topic_data(&topic_data);
    }

    /// Records a local topic, as heard now.
    pub fn update_topic_data_p(&mut self, topic: &Topic)
        requires
            old(self).wf(),
        ensures
            final(self).wf(),
            exists|now: u64| final(self)@ == with_topic(old(self)@, #[trigger] topic_of_local(*topic, now)),
    {
        let now = precise_time_ns();
        self.update_topic_data_p_at(topic, now);
    }

    /// Whether a local reader or writer is on the topic called `name`.
    fn topic_referenced(&self, name: &String) -> (r: bool)
        ensures
            r == referenced_locally(name@, self@.local_readers, self@.local_writers),
    {
        let mut i: usize = 0;
        while i < self.local_topic_readers.len()
            invariant
                i <= self.local_topic_readers.len(),
                forall|j: int| 0 <= j < i ==> self@.local_readers[j].topic_name() != Some(name@),
            decreases self.local_topic_readers.len() - i,
        {
            if let Some(t) = &self.local_topic_readers[i].subscription_topic_data.topic_name {
                if *t == *name {
                    assert(self@.local_readers[i as int].topic_name() == Some(name@));
                    return true;
                }
            }
            i = i + 1;
        }
        let mut k: usize = 0;
        while k < self.local_topic_writers.len()
            invariant
                k <= self.local_topic_writers.len(),
                forall|j: int| 0 <= j < self@.local_readers.len() ==> self@.local_readers[j].topic_name() != Some(name@),
                forall|j: int| 0 <= j < k ==> self@.local_writers[j].topic_name() != Some(name@),
            decreases self.local_topic_writers.len() - k,
        {
            if let Some(t) = &self.local_topic_writers[k].publication_topic_data.topic_name {
                if *t == *name {
                    assert(self@.local_writers[k as int].topic_name() == Some(name@));
                    return true;
                }
            }
            k = k + 1;
        }
        false
    }

    /// Evicts every topic record whose lifespan has elapsed at `now` and to
    /// which no local reader or writer refers.
    pub fn topic_cleanup_at(&mut self, now: u64)
        requires
            old(self).wf(),
        ensures
            final(self).wf(),
            final(self)@ == after_topic_cleanup(old(self)@, now),
    {
        let ghost src = topic_pairs(self.topics@);
        let ghost db = self@;
        let mut kept: Vec<(String, DiscoveredTopicData)> = Vec::new();
        let mut i: usize = 0;
        while i < self.topics.len()
            invariant
                i <= self.topics.len(),
                self.wf(),
                self@ == db,
                src == topic_pairs(self.topics@),
                src == topic_pairs(old(self).topics@),
                keys_unique(src),
                keys_unique(topic_pairs(kept@)),
                to_map(topic_pairs(kept@)) == Map::new(
                    |n: Seq<char>| to_map(src.take(i as int)).contains_key(n) && kept_topics(db, now).contains_key(n),
                    |n: Seq<char>| db.topics[n],
                ),
            decreases self.topics.len() - i,
        {
            let ghost pre = src.take(i as int);
            proof {
                lemma_to_map_take(src, i as int);
                lemma_to_map_index(src, i as int);
            }
            let name = &self.topics[i].0;
            let t = &self.topics[i].1;
            let span: u64 = match t.topic_data.qos.lifespan {
                Some(d) => d.nanos,
                None => DEFAULT_TOPIC_LIFESPAN_NANOS,
            };
            let age: u64 = if now >= t.updated_time {
                now - t.updated_time
            } else {
                0
            };
            assert(src[i as int] == (name@, *t));
            let keep = age < span || self.topic_referenced(name);
            if keep {
                let c = t.copy();
                let nm = name.clone();
                proof {
                    if has_key(topic_pairs(kept@), nm@) {
                        let j = choose|j: int|
                            0 <= j < topic_pairs(kept@).len() && topic_pairs(kept@)[j].0 == nm@;
                        lemma_to_map_index(topic_pairs(kept@), j);
                        assert(to_map(pre).contains_key(nm@));
                    }
                    lemma_to_map_push(topic_pairs(kept@), nm@, c);
                    lemma_to_map_push(pre, nm@, c);
                }
                let ghost old_kept = kept@;
                kept.push((nm, c));
                proof {
                    assert(topic_pairs(kept@) =~= topic_pairs(old_kept).push((nm@, c)));
                    assert(to_map(topic_pairs(kept@)) =~= Map::new(
                        |n: Seq<char>| to_map(src.take(i + 1)).contains_key(n) && kept_topics(db, now).contains_key(n),
                        |n: Seq<char>| db.topics[n],
                    ));
                }
            } else {
                proof {
                    lemma_to_map_push(pre, name@, *t);
                    assert(to_map(topic_pairs(kept@)) =~= Map::new(
                        |n: Seq<char>| to_map(src.take(i + 1)).contains_key(n) && kept_topics(db, now).contains_key(n),
                        |n: Seq<char>| db.topics[n],
                    ));
                }
            }
            i = i + 1;
        }
        proof {
            assert(src.take(i as int) =~= src);
        }
        self.topics = kept;
        proof {
            assert(self@.topics =~= kept_topics(db, now));
            assert forall|n: Seq<char>| #[trigger] self@.topics.contains_key(n) implies self@.topics[n].name() == Some(n) by {
                assert(db.topics.contains_key(n));
            }
        }
    }

    /// Evicts every topic record whose lifespan has elapsed by the clock's
    /// current reading and to which no local reader or writer refers.
    pub fn topic_cleanup(&mut self)
        requires
            old(self).wf(),
        ensures
            final(self).wf(),
            exists|now: u64| final(self)@ == #[trigger] after_topic_cleanup(old(self)@, now),
    {
        let now = precise_time_ns();
        self.topic_cleanup_at(now);
    }

    /// The topic records, each once.
    pub fn get_all_topics(&self) -> (r: Vec<&DiscoveredTopicData>)
        requires
            self.wf(),
        ensures
            forall|i: int| 0 <= i < r@.len() ==> {
                &&& (#[trigger] r@[i]).name() is Some
                &&& self@.topics.contains_key(r@[i].name().unwrap())
                &&& self@.topics[r@[i].name().unwrap()] == *r@[i]
            },
            forall|n: Seq<char>| #[trigger]
                self@.topics.contains_key(n) ==> exists|i: int|
                    0 <= i < r@.len() && r@[i].name() == Some(n),
            forall|i: int, j: int|
                0 <= i < r@.len() && 0 <= j < r@.len() && (#[trigger] r@[i]).name()
                    == (#[trigger] r@[j]).name() ==> i == j,
    {
        let ghost ps = topic_pairs(self.topics@);
        let mut r: Vec<&DiscoveredTopicData> = Vec::new();
        let mut i: usize = 0;
        while i < self.topics.len()
            invariant
                i <= self.topics.len(),
                ps == topic_pairs(self.topics@),
                self.wf(),
                r@.len() == i,
                forall|j: int| 0 <= j < i ==> *(#[trigger] r@[j]) == ps[j].1,
            decreases self.topics.len() - i,
        {
            r.push(&self.topics[i].1);
            i = i + 1;
        }
        proof {
            assert forall|n: Seq<char>| #[trigger]
                self@.topics.contains_key(n) implies exists|j: int|
                0 <= j < r@.len() && r@[j].name() == Some(n) by {
                let j = choose|j: int| 0 <= j < ps.len() && ps[j].0 == n;
                lemma_to_map_index(ps, j);
                assert(self@.topics[n].name() == Some(n));
                assert(*r@[j] == ps[j].1);
                assert(r@[j].name() == Some(n));
            }
            assert forall|a: int| 0 <= a < r@.len() implies {
                &&& (#[trigger] r@[a]).name() is Some
                &&& self@.topics.contains_key(r@[a].name().unwrap())
                &&& self@.topics[r@[a].name().unwrap()] == *r@[a]
            } by {
                lemma_to_map_index(ps, a);
            }
            assert forall|a: int, b: int|
                0 <= a < r@.len() && 0 <= b < r@.len() && (#[trigger] r@[a]).name()
                    == (#[trigger] r@[b]).name() implies a == b by {
                lemma_to_map_index(ps, a);
                lemma_to_map_index(ps, b);
                assert(ps[a].0 == ps[b].0);
            }
        }
        r
    }

    /// Records a local writer, replacing the record with its GUID if there is
    /// one, and marks the local writers as updated.
    pub fn update_local_topic_writer(&mut self, writer: DiscoveredWriterData)
        requires
            old(self).wf(),
        ensures
            final(self).wf(),
            final(self)@ == (DiscoveryDBView {
                local_writers: upsert_writer(old(self)@.local_writers, writer@),
                writers_updated: true,
                ..old(self)@
            }),
    {
        upsert_writer_vec(&mut self.local_topic_writers, writer);
        self.writers_updated = true;
    }

    /// Forgets the local writer with GUID `guid`, if there is one, and marks
    /// the local writers as updated.
    pub fn remove_local_topic_writer(&mut self, guid: GUID)
        requires
            old(self).wf(),
        ensures
            final(self).wf(),
            final(self)@ == (DiscoveryDBView {
                local_writers: without_writer(old(self)@.local_writers, guid),
                writers_updated: true,
                ..old(self)@
            }),
    {
        let ghost s = self@.local_writers;
        match writer_position(&self.local_topic_writers, Some(guid)) {
            Some(i) => {
                self.local_topic_writers.remove(i);
                proof {
                    let j = choose|j: int| 0 <= j < s.len() && s[j].guid() == Some(guid);
                    assert(s[j].guid() == s[i as int].guid());
                    assert(writer_views(self.local_topic_writers@) =~= s.remove(i as int));
                    let t = s.remove(i as int);
                    assert forall|a: int, b: int| 0 <= a < t.len() && 0 <= b < t.len() && #[trigger] t[a].guid() == #[trigger] t[b].guid() implies a == b by {
                        let a1 = if a < i { a } else { a + 1 };
                        let b1 = if b < i { b } else { b + 1 };
                        assert(t[a] == s[a1]);
                        assert(t[b] == s[b1]);
                    }
                }
            },
            None => {},
        }
        self.writers_updated = true;
    }

    /// Records a local reader on `topic`, with the locators at which it
    /// listens, replacing the record with its GUID if there is one, and marks
    /// the local readers as updated.
    pub fn update_local_topic_reader(
        &mut self,
        participant_guid: GUID,
        topic: &Topic,
        reader_guid: GUID,
        unicast_locators: &Vec<Locator>,
        multicast_locators: &Vec<Locator>,
    )
        requires
            old(self).wf(),
        ensures
            final(self).wf(),
            final(self)@ == (DiscoveryDBView {
                local_readers: upsert_reader(
                    old(self)@.local_readers,
                    local_reader_record(
                        participant_guid,
                        *topic,
                        reader_guid,
                        unicast_locators@,
                        multicast_locators@,
                    ),
                ),
                readers_updated: true,
                ..old(self)@
            }),
    {
        let mut reader_proxy = ReaderProxy::new(reader_guid);
        reader_proxy.unicast_locator_list = copy_locators(unicast_locators);
        reader_proxy.multicast_locator_list = copy_locators(multicast_locators);
        reader_proxy.expects_inline_qos = false;
        let subscription_data = SubscriptionBuiltinTopicData {
            key: Some(reader_guid),
            participant_key: Some(participant_guid),
            topic_name: Some(topic.name.clone()),
            data_type_name: Some(topic.data_type_name.clone()),
            qos: topic.qos,
        };
        let drd = DiscoveredReaderData { reader_proxy, subscription_topic_data: subscription_data };
        upsert_reader_vec(&mut self.local_topic_readers, drd);
        self.readers_updated = true;
    }

    /// Forgets the local reader with GUID `guid`, if there is one, and marks
    /// the local readers as updated.
    pub fn remove_local_topic_reader(&mut self, guid: GUID)
        requires
            old(self).wf(),
        ensures
            final(self).wf(),
            final(self)@ == (DiscoveryDBView {
                local_readers: without_reader(old(self)@.local_readers, guid),
                readers_updated: true,
                ..old(self)@
            }),
    {
        let ghost s = self@.local_readers;
        match reader_position(&self.local_topic_readers, Some(guid)) {
            Some(i) => {
                self.local_topic_readers.remove(i);
                proof {
                    let j = choose|j: int| 0 <= j < s.len() && s[j].guid() == Some(guid);
                    assert(s[j].guid() == s[i as int].guid());
                    assert(reader_views(self.local_topic_readers@) =~= s.remove(i as int));
                    let t = s.remove(i as int);
                    assert forall|a: int, b: int| 0 <= a < t.len() && 0 <= b < t.len() && #[trigger] t[a].guid() == #[trigger] t[b].guid() implies a == b by {
                        let a1 = if a < i { a } else { a + 1 };
                        let b1 = if b < i { b } else { b + 1 };
                        assert(t[a] == s[a1]);
                        assert(t[b] == s[b1]);
                    }
                }
            },
            None => {},
        }
        self.readers_updated = true;
    }

    pub fn is_readers_updated(&self) -> (r: bool)
        ensures
            r == self@.readers_updated,
    {
        self.readers_updated
    }

    pub fn readers_updated(&mut self, updated: bool)
        requires
            old(self).wf(),
        ensures
            final(self).wf(),
            final(self)@ == (DiscoveryDBView { readers_updated: updated, ..old(self)@ }),
    {
        self.readers_updated = updated;
    }

    pub fn is_writers_updated(&self) -> (r: bool)
        ensures
            r == self@.writers_updated,
    {
        self.writers_updated
    }

    pub fn writers_updated(&mut self, updated: bool)
        requires
            old(self).wf(),
        ensures
            final(self).wf(),
            final(self)@ == (DiscoveryDBView { writers_updated: updated, ..old(self)@ }),
    {
        self.writers_updated = updated;
    }

    /// The local readers, in the order they were first recorded.
    pub fn get_all_local_topic_readers(&self) -> (r: &Vec<DiscoveredReaderData>)
        ensures
            reader_views(r@) == self@.local_readers,
    {
        &self.local_topic_readers
    }

    /// The local writers, in the order they were first recorded.
    pub fn get_all_local_topic_writers(&self) -> (r: &Vec<DiscoveredWriterData>)
        ensures
            writer_views(r@) == self@.local_writers,
    {
        &self.local_topic_writers
    }

    /// The local readers on `topic`, in the order they were first recorded.
    pub fn get_local_topic_readers(&self, topic: &Topic) -> (r: Vec<&DiscoveredReaderData>)
        ensures
            r@.map_values(|d: &DiscoveredReaderData| d@) == self@.local_readers.filter(
                on_topic(topic.name@),
            ),
    {
        let ghost pred = on_topic(topic.name@);
        let ghost all = self@.local_readers;
        let mut r: Vec<&DiscoveredReaderData> = Vec::new();
        let mut i: usize = 0;
        while i < self.local_topic_readers.len()
            invariant
                i <= self.local_topic_readers.len(),
                all == self@.local_readers,
                pred == on_topic(topic.name@),
                all.len() == self.local_topic_readers@.len(),
                r@.map_values(|d: &DiscoveredReaderData| d@) == all.take(i as int).filter(pred),
            decreases self.local_topic_readers.len() - i,
        {
            let d = &self.local_topic_readers[i];
            let ghost before = r@;
            proof {
                assert(all.take(i + 1).drop_last() =~= all.take(i as int));
                assert(all.take(i + 1).last() == d@);
                reveal(Seq::filter);
            }
            let is_on = match &d.subscription_topic_data.topic_name {
                Some(t) => *t == topic.name,
                None => false,
            };
            assert(pred(d@) == is_on);
            assert(all.take(i + 1).filter(pred) == if pred(d@) {
                all.take(i as int).filter(pred).push(d@)
            } else {
                all.take(i as int).filter(pred)
            });
            if is_on {
                r.push(d);
                assert(r@.map_values(|d: &DiscoveredReaderData| d@) =~= before.map_values(|d: &DiscoveredReaderData| d@).push(d@));
            }
            i = i + 1;
        }
        assert(all.take(i as int) =~= all);
        r
    }

    fn reader_list_index(&self, g: &GUID) -> (r: Option<usize>)
        ensures
            match r {
                Some(i) => i < self.writers_reader_proxies@.len() && self.writers_reader_proxies@[i as int].0 == *g,
                None => !has_key(reader_list_pairs(self.writers_reader_proxies@), *g),
            },
    {
        let mut i: usize = 0;
        while i < self.writers_reader_proxies.len()
            invariant
                i <= self.writers_reader_proxies.len(),
                forall|j: int| 0 <= j < i ==> self.writers_reader_proxies@[j].0 != *g,
            decreases self.writers_reader_proxies.len() - i,
        {
            if self.writers_reader_proxies[i].0 == *g {
                return Some(i);
            }
            i = i + 1;
        }
        proof {
            let ps = reader_list_pairs(self.writers_reader_proxies@);
            assert forall|j: int| 0 <= j < ps.len() implies #[trigger] ps[j].0 != *g by {
                assert(ps[j].0 == self.writers_reader_proxies@[j].0);
            }
        }
        None
    }

    fn writer_list_index(&self, g: &GUID) -> (r: Option<usize>)
        ensures
            match r {
                Some(i) => i < self.readers_writer_proxies@.len() && self.readers_writer_proxies@[i as int].0 == *g,
                None => !has_key(writer_list_pairs(self.readers_writer_proxies@), *g),
            },
    {
        let mut i: usize = 0;
        while i < self.readers_writer_proxies.len()
            invariant
                i <= self.readers_writer_proxies.len(),
                forall|j: int| 0 <= j < i ==> self.readers_writer_proxies@[j].0 != *g,
            decreases self.readers_writer_proxies.len() - i,
        {
            if self.readers_writer_proxies[i].0 == *g {
                return Some(i);
            }
            i = i + 1;
        }
        proof {
            let ps = writer_list_pairs(self.readers_writer_proxies@);
            assert forall|j: int| 0 <= j < ps.len() implies #[trigger] ps[j].0 != *g by {
                assert(ps[j].0 == self.readers_writer_proxies@[j].0);
            }
        }
        None
    }

    /// Records the remote reader `reader` among the matched readers of local
    /// writer `writer`, in place of any earlier record with its GUID.
    /// Returns false, changing nothing, when the reader has no GUID.
    pub fn update_writers_reader_proxy(&mut self, writer: GUID, reader: DiscoveredReaderData) -> (r: bool)
        requires
            old(self).wf(),
        ensures
            final(self).wf(),
            r == reader@.guid() is Some,
            r ==> final(self)@ == with_reader_proxy(old(self)@, writer, reader@),
            !r ==> final(self)@ == old(self)@,
    {
        if reader.reader_proxy.remote_reader_guid.is_none() {
            return false;
        }
        let ghost before = reader_list_pairs(self.writers_reader_proxies@);
        let ghost m = self@.writers_reader_proxies;
        let ghost d = reader@;
        match self.reader_list_index(&writer) {
            Some(i) => {
                proof {
                    lemma_to_map_index(before, i as int);
                    lemma_upsert_reader_ok(before[i as int].1, d);
                }
                let (g, mut list) = self.writers_reader_proxies.remove(i);
                assert(reader_views(list@) == before[i as int].1);
                upsert_reader_vec(&mut list, reader);
                let ghost nl = reader_views(list@);
                proof {
                    lemma_to_map_update(before, i as int, nl);
                }
                self.writers_reader_proxies.insert(i, (g, list));
                assert(reader_list_pairs(self.writers_reader_proxies@) =~= before.update(i as int, (before[i as int].0, nl)));
            },
            None => {
                let mut list: Vec<DiscoveredReaderData> = Vec::new();
                list.push(reader);
                proof {
                    assert(reader_views(list@) =~= seq![d]);
                    assert(upsert_reader(Seq::empty(), d) =~= seq![d]);
                    lemma_to_map_push(before, writer, seq![d]);
                    assert(reader_list_ok(seq![d]));
                }
                let ghost nl = reader_views(list@);
                self.writers_reader_proxies.push((writer, list));
                assert(reader_list_pairs(self.writers_reader_proxies@) =~= before.push((writer, nl)));
            },
        }
        proof {
            let m2 = self@.writers_reader_proxies;
            assert forall|g: GUID| #[trigger] m2.contains_key(g) implies reader_list_ok(m2[g]) by {
                if g != writer {
                    assert(m.contains_key(g));
                }
            }
        }
        true
    }

    /// Records the remote writer `writer` among the matched writers of local
    /// reader `reader`, in place of any earlier record with its GUID.
    /// Returns false, changing nothing, when the writer has no GUID.
    pub fn update_readers_writer_proxy(&mut self, reader: &GUID, writer: DiscoveredWriterData) -> (r: bool)
        requires
            old(self).wf(),
        ensures
            final(self).wf(),
            r == writer@.guid() is Some,
            r ==> final(self)@ == with_writer_proxy(old(self)@, *reader, writer@),
            !r ==> final(self)@ == old(self)@,
    {
        if writer.writer_proxy.remote_writer_guid.is_none() {
            return false;
        }
        let ghost before = writer_list_pairs(self.readers_writer_proxies@);
        let ghost m = self@.readers_writer_proxies;
        let ghost d = writer@;
        match self.writer_list_index(reader) {
            Some(i) => {
                proof {
                    lemma_to_map_index(before, i as int);
                    lemma_upsert_writer_ok(before[i as int].1, d);
                }
                let (g, mut list) = self.readers_writer_proxies.remove(i);
                assert(writer_views(list@) == before[i as int].1);
                upsert_writer_vec(&mut list, writer);
                let ghost nl = writer_views(list@);
                proof {
                    lemma_to_map_update(before, i as int, nl);
                }
                self.readers_writer_proxies.insert(i, (g, list));
                assert(writer_list_pairs(self.readers_writer_proxies@) =~= before.update(i as int, (before[i as int].0, nl)));
            },
            None => {
                let mut list: Vec<DiscoveredWriterData> = Vec::new();
                list.push(writer);
                proof {
                    assert(writer_views(list@) =~= seq![d]);
                    assert(upsert_writer(Seq::empty(), d) =~= seq![d]);
                    lemma_to_map_push(before, *reader, seq![d]);
                    assert(writer_list_ok(seq![d]));
                }
                let ghost nl = writer_views(list@);
                self.readers_writer_proxies.push((*reader, list));
                assert(writer_list_pairs(self.readers_writer_proxies@) =~= before.push((*reader, nl)));
            },
        }
        proof {
            let m2 = self@.readers_writer_proxies;
            assert forall|g: GUID| #[trigger] m2.contains_key(g) implies writer_list_ok(m2[g]) by {
                if g != *reader {
                    assert(m.contains_key(g));
                }
            }
        }
        true
    }

    /// The matched readers of local writer `guid`, if it has a list.
    pub fn get_writers_reader_proxies(&self, guid: GUID) -> (r: Option<&Vec<DiscoveredReaderData>>)
        requires
            self.wf(),
        ensures
            r is Some == self@.writers_reader_proxies.contains_key(guid),
            r is Some ==> reader_views(r.unwrap()@) == self@.writers_reader_proxies[guid],
    {
        match self.reader_list_index(&guid) {
            Some(i) => {
                proof {
                    lemma_to_map_index(reader_list_pairs(self.writers_reader_proxies@), i as int);
                }
                Some(&self.writers_reader_proxies[i].1)
            },
            None => None,
        }
    }

    /// The matched writers of local reader `guid`, if it has a list.
    pub fn get_readers_writer_proxies(&self, guid: GUID) -> (r: Option<&Vec<DiscoveredWriterData>>)
        requires
            self.wf(),
        ensures
            r is Some == self@.readers_writer_proxies.contains_key(guid),
            r is Some ==> writer_views(r.unwrap()@) == self@.readers_writer_proxies[guid],
    {
        match self.writer_list_index(&guid) {
            Some(i) => {
                proof {
                    lemma_to_map_index(writer_list_pairs(self.readers_writer_proxies@), i as int);
                }
                Some(&self.readers_writer_proxies[i].1)
            },
            None => None,
        }
    }

    /// Processes the subscription of a remote reader: every local writer
    /// that it matches gets it among its matched readers. Returns false,
    /// changing nothing, when the subscription names no topic or the reader
    /// has no GUID.
    pub fn update_subscription(&mut self, data: &DiscoveredReaderData) -> (r: bool)
        requires
            old(self).wf(),
        ensures
            final(self).wf(),
            r == (data@.topic_name() is Some && data@.guid() is Some),
            r ==> final(self)@ == after_subscription(old(self)@, data@),
            !r ==> final(self)@ == old(self)@,
    {
        if data.subscription_topic_data.topic_name.is_none() || data.reader_proxy.remote_reader_guid.is_none() {
            return false;
        }
        let ghost db = self@;
        let mut i: usize = 0;
        proof {
            assert(reader_proxies_after(db.writers_reader_proxies, db.local_writers.take(0), data@) =~= db.writers_reader_proxies);
            assert(self@ =~= DiscoveryDBView {
                writers_reader_proxies: reader_proxies_after(db.writers_reader_proxies, db.local_writers.take(0), data@),
                ..db
            });
        }
        while i < self.local_topic_writers.len()
            invariant
                self.wf(),
                db_view_ok(db),
                i <= self.local_topic_writers.len(),
                self.local_topic_writers@.len() == db.local_writers.len(),
                data@.guid() is Some,
                self@ == (DiscoveryDBView {
                    writers_reader_proxies: reader_proxies_after(db.writers_reader_proxies, db.local_writers.take(i as int), data@),
                    ..db
                }),
            decreases self.local_topic_writers.len() - i,
        {
            proof {
                lemma_reader_proxies_step(db.writers_reader_proxies, db.local_writers, data@, i as int);
            }
            let guid = self.local_topic_writers[i].writer_proxy.remote_writer_guid;
            let is_match = endpoints_match_exec(data, &self.local_topic_writers[i]);
            assert(self.local_topic_writers@[i as int]@ == db.local_writers[i as int]);
            if let Some(g) = guid {
                if is_match {
                    self.update_writers_reader_proxy(g, data.copy());
                }
            }
            i = i + 1;
        }
        proof {
            assert(db.local_writers.take(i as int) =~= db.local_writers);
        }
        true
    }

    /// Processes the publication of a remote writer: every local reader that
    /// it matches gets it among its matched writers. Returns false, changing
    /// nothing, when the publication names no topic or the writer has no
    /// GUID.
    pub fn update_publication(&mut self, data: &DiscoveredWriterData) -> (r: bool)
        requires
            old(self).wf(),
        ensures
            final(self).wf(),
            r == (data@.topic_name() is Some && data@.guid() is Some),
            r ==> final(self)@ == after_publication(old(self)@, data@),
            !r ==> final(self)@ == old(self)@,
    {
        if data.publication_topic_data.topic_name.is_none() || data.writer_proxy.remote_writer_guid.is_none() {
            return false;
        }
        let ghost db = self@;
        let mut i: usize = 0;
        proof {
            assert(writer_proxies_after(db.readers_writer_proxies, db.local_readers.take(0), data@) =~= db.readers_writer_proxies);
            assert(self@ =~= DiscoveryDBView {
                readers_writer_proxies: writer_proxies_after(db.readers_writer_proxies, db.local_readers.take(0), data@),
                ..db
            });
        }
        while i < self.local_topic_readers.len()
            invariant
                self.wf(),
                db_view_ok(db),
                i <= self.local_topic_readers.len(),
                self.local_topic_readers@.len() == db.local_readers.len(),
                data@.guid() is Some,
                self@ == (DiscoveryDBView {
                    readers_writer_proxies: writer_proxies_after(db.readers_writer_proxies, db.local_readers.take(i as int), data@),
                    ..db
                }),
            decreases self.local_topic_readers.len() - i,
        {
            proof {
                lemma_writer_proxies_step(db.readers_writer_proxies, db.local_readers, data@, i as int);
            }
            let guid = self.local_topic_readers[i].reader_proxy.remote_reader_guid;
            let is_match = endpoints_match_exec(&self.local_topic_readers[i], data);
            assert(self.local_topic_readers@[i as int]@ == db.local_readers[i as int]);
            if let Some(g) = guid {
                if is_match {
                    self.update_readers_writer_proxy(&g, data.copy());
                }
            }
            i = i + 1;
        }
        proof {
            assert(db.local_readers.take(i as int) =~= db.local_readers);
        }
        true
    }

    /// Seeds the matched readers of the built-in SPDP writer `writer_guid`
    /// with one synthetic reader that stands for all participant readers at
    /// the discovery multicast `port`; any earlier list of that writer is
    /// replaced.
    pub fn initialize_participant_reader_proxy(&mut self, writer_guid: GUID, port: u16)
        requires
            old(self).wf(),
        ensures
            final(self).wf(),
            final(self)@.writers_reader_proxies.contains_key(writer_guid),
            final(self)@.writers_reader_proxies[writer_guid].len() == 1,
            is_spdp_reader_record(final(self)@.writers_reader_proxies[writer_guid][0], writer_guid, port),
            final(self)@.writers_reader_proxies.remove(writer_guid) == old(self)@.writers_reader_proxies.remove(writer_guid),
            final(self)@ == (DiscoveryDBView {
                writers_reader_proxies: final(self)@.writers_reader_proxies,
                ..old(self)@
            }),
    {
        let guid = writer_guid.from_prefix(ENTITYID_SPDP_BUILTIN_PARTICIPANT_READER);
        let mut reader_proxy = ReaderProxy::new(guid);
        reader_proxy.multicast_locator_list.push(Locator::multicast_udpv4(port));
        let topic_name = String::from_str(SPDP_TOPIC_NAME);
        let data_type_name = String::from_str(SPDP_TYPE_NAME);
        let sub_topic_data = SubscriptionBuiltinTopicData::new(guid, GUID::unknown(), &topic_name, &data_type_name);
        let drd = DiscoveredReaderData { reader_proxy, subscription_topic_data: sub_topic_data };
        let ghost d = drd@;
        proof {
            assert(drd.reader_proxy.multicast_locator_list@ =~= seq![Locator {
                kind: crate::guid::LOCATOR_KIND_UDPV4,
                port: port as u32,
                address: crate::guid::DISCOVERY_MULTICAST_ADDRESS,
            }]);
            assert(drd.reader_proxy.unicast_locator_list@ =~= Seq::<Locator>::empty());
            assert(is_spdp_reader_record(d, writer_guid, port));
        }
        let mut list: Vec<DiscoveredReaderData> = Vec::new();
        list.push(drd);
        let ghost before = reader_list_pairs(self.writers_reader_proxies@);
        let ghost m = self@.writers_reader_proxies;
        let ghost nl = reader_views(list@);
        proof {
            assert(nl =~= seq![d]);
            assert(reader_list_ok(nl));
        }
        match self.reader_list_index(&writer_guid) {
            Some(i) => {
                proof {
                    lemma_to_map_update(before, i as int, nl);
                }
                self.writers_reader_proxies.set(i, (writer_guid, list));
                assert(reader_list_pairs(self.writers_reader_proxies@) =~= before.update(i as int, (before[i as int].0, nl)));
            },
            None => {
                proof {
                    lemma_to_map_push(before, writer_guid, nl);
                }
                self.writers_reader_proxies.push((writer_guid, list));
                assert(reader_list_pairs(self.writers_reader_proxies@) =~= before.push((writer_guid, nl)));
            },
        }
        proof {
            let m2 = self@.writers_reader_proxies;
            assert(m2 == m.insert(writer_guid, nl));
            assert(m2.remove(writer_guid) =~= m.remove(writer_guid));
            assert forall|g: GUID| #[trigger] m2.contains_key(g) implies reader_list_ok(m2[g]) by {
                if g != writer_guid {
                    assert(m.contains_key(g));
                }
            }
        }
    }
}

} // verus!
