use vstd::prelude::*;
use crate::guid::{Duration, GUID, Locator};
use crate::qos::QosPolicies;

verus! {

/// The text of an optional string.
pub open spec fn opt_text(s: Option<String>) -> Option<Seq<char>> {
    match s {
        Some(t) => Some(t@),
        None => None,
    }
}

/// A copy of a locator list.
pub fn copy_locators(v: &Vec<Locator>) -> (r: Vec<Locator>)
    ensures
        r@ == v@,
{
    let mut r: Vec<Locator> = Vec::new();
    let mut i: usize = 0;
    while i < v.len()
        invariant
            i <= v.len(),
            r@ == v@.subrange(0, i as int),
        decreases v.len() - i,
    {
        r.push(v[i]);
        i = i + 1;
    }
    assert(r@ =~= v@);
    r
}

/// A copy of an optional string.
pub fn copy_opt_string(s: &Option<String>) -> (r: Option<String>)
    ensures
        r == *s,
{
    match s {
        Some(t) => Some(t.clone()),
        None => None,
    }
}

/// Local record of a remote reader.
#[derive(Debug)]
pub struct ReaderProxy {
    pub remote_reader_guid: Option<GUID>,
    pub expects_inline_qos: bool,
    pub unicast_locator_list: Vec<Locator>,
    pub multicast_locator_list: Vec<Locator>,
}

pub ghost struct ReaderProxyView {
    pub remote_reader_guid: Option<GUID>,
    pub expects_inline_qos: bool,
    pub unicast_locator_list: Seq<Locator>,
    pub multicast_locator_list: Seq<Locator>,
}

impl View for ReaderProxy {
    type V = ReaderProxyView;

    open spec fn view(&self) -> ReaderProxyView {
        ReaderProxyView {
            remote_reader_guid: self.remote_reader_guid,
            expects_inline_qos: self.expects_inline_qos,
            unicast_locator_list: self.unicast_locator_list@,
            multicast_locator_list: self.multicast_locator_list@,
        }
    }
}

impl ReaderProxy {
    /// A proxy for `guid` with no locators.
    pub fn new(guid: GUID) -> (r: ReaderProxy)
        ensures
            r.remote_reader_guid == Some(guid),
            !r.expects_inline_qos,
            r.unicast_locator_list@.len() == 0,
            r.multicast_locator_list@.len() == 0,
    {
        ReaderProxy {
            remote_reader_guid: Some(guid),
            expects_inline_qos: false,
            unicast_locator_list: Vec::new(),
            multicast_locator_list: Vec::new(),
        }
    }

    pub fn copy(&self) -> (r: ReaderProxy)
        ensures
            r@ == self@,
    {
        ReaderProxy {
            remote_reader_guid: self.remote_reader_guid,
            expects_inline_qos: self.expects_inline_qos,
            unicast_locator_list: copy_locators(&self.unicast_locator_list),
            multicast_locator_list: copy_locators(&self.multicast_locator_list),
        }
    }
}

/// Local record of a remote writer.
#[derive(Debug)]
pub struct WriterProxy {
    pub remote_writer_guid: Option<GUID>,
    pub unicast_locator_list: Vec<Locator>,
    pub multicast_locator_list: Vec<Locator>,
    pub data_max_size_serialized: Option<u32>,
}

pub ghost struct WriterProxyView {
    pub remote_writer_guid: Option<GUID>,
    pub unicast_locator_list: Seq<Locator>,
    pub multicast_locator_list: Seq<Locator>,
    pub data_max_size_serialized: Option<u32>,
}

impl View for WriterProxy {
    type V = WriterProxyView;

    open spec fn view(&self) -> WriterProxyView {
        WriterProxyView {
            remote_writer_guid: self.remote_writer_guid,
            unicast_locator_list: self.unicast_locator_list@,
            multicast_locator_list: self.multicast_locator_list@,
            data_max_size_serialized: self.data_max_size_serialized,
        }
    }
}

impl WriterProxy {
    /// A proxy for `guid` with no locators.
    pub fn new(guid: GUID) -> (r: WriterProxy)
        ensures
            r.remote_writer_guid == Some(guid),
            r.unicast_locator_list@.len() == 0,
            r.multicast_locator_list@.len() == 0,
            r.data_max_size_serialized.is_none(),
    {
        WriterProxy {
            remote_writer_guid: Some(guid),
            unicast_locator_list: Vec::new(),
            multicast_locator_list: Vec::new(),
            data_max_size_serialized: None,
        }
    }

    pub fn copy(&self) -> (r: WriterProxy)
        ensures
            r@ == self@,
    {
        WriterProxy {
            remote_writer_guid: self.remote_writer_guid,
            unicast_locator_list: copy_locators(&self.unicast_locator_list),
            multicast_locator_list: copy_locators(&self.multicast_locator_list),
            data_max_size_serialized: self.data_max_size_serialized,
        }
    }
}

/// What a subscription advertises of itself.
#[derive(Debug)]
pub struct SubscriptionBuiltinTopicData {
    pub key: Option<GUID>,
    pub participant_key: Option<GUID>,
    pub topic_name: Option<String>,
    pub data_type_name: Option<String>,
    pub qos: QosPolicies,
}

impl SubscriptionBuiltinTopicData {
    pub fn new(key: GUID, participant_key: GUID, topic_name: &String, data_type_name: &String) -> (r:
        SubscriptionBuiltinTopicData)
        ensures
            r.key == Some(key),
            r.participant_key == Some(participant_key),
            r.topic_name == Some(*topic_name),
            r.data_type_name == Some(*data_type_name),
            r.qos == QosPolicies::spec_none(),
    {
        SubscriptionBuiltinTopicData {
            key: Some(key),
            participant_key: Some(participant_key),
            topic_name: Some(topic_name.clone()),
            data_type_name: Some(data_type_name.clone()),
            qos: QosPolicies::qos_none(),
        }
    }

    pub fn copy(&self) -> (r: SubscriptionBuiltinTopicData)
        ensures
            r == *self,
    {
        SubscriptionBuiltinTopicData {
            key: self.key,
            participant_key: self.participant_key,
            topic_name: copy_opt_string(&self.topic_name),
            data_type_name: copy_opt_string(&self.data_type_name),
            qos: self.qos,
        }
    }
}

/// What a publication advertises of itself.
#[derive(Debug)]
pub struct PublicationBuiltinTopicData {
    pub key: Option<GUID>,
    pub participant_key: Option<GUID>,
    pub topic_name: Option<String>,
    pub data_type_name: Option<String>,
    pub qos: QosPolicies,
}

impl PublicationBuiltinTopicData {
    pub fn new(key: GUID, participant_key: GUID, topic_name: &String, data_type_name: &String) -> (r:
        PublicationBuiltinTopicData)
        ensures
            r.key == Some(key),
            r.participant_key == Some(participant_key),
            r.topic_name == Some(*topic_name),
            r.data_type_name == Some(*data_type_name),
            r.qos == QosPolicies::spec_none(),
    {
        PublicationBuiltinTopicData {
            key: Some(key),
            participant_key: Some(participant_key),
            topic_name: Some(topic_name.clone()),
            data_type_name: Some(data_type_name.clone()),
            qos: QosPolicies::qos_none(),
        }
    }

    pub fn copy(&self) -> (r: PublicationBuiltinTopicData)
        ensures
            r == *self,
    {
        PublicationBuiltinTopicData {
            key: self.key,
            participant_key: self.participant_key,
            topic_name: copy_opt_string(&self.topic_name),
            data_type_name: copy_opt_string(&self.data_type_name),
            qos: self.qos,
        }
    }
}

/// A reader as discovery sees it: its proxy and its subscription data.
#[derive(Debug)]
pub struct DiscoveredReaderData {
    pub reader_proxy: ReaderProxy,
    pub subscription_topic_data: SubscriptionBuiltinTopicData,
}

pub ghost struct DiscoveredReaderDataView {
    pub reader_proxy: ReaderProxyView,
    pub subscription_topic_data: SubscriptionBuiltinTopicData,
}

impl View for DiscoveredReaderData {
    type V = DiscoveredReaderDataView;

    open spec fn view(&self) -> DiscoveredReaderDataView {
        DiscoveredReaderDataView {
            reader_proxy: self.reader_proxy@,
            subscription_topic_data: self.subscription_topic_data,
        }
    }
}

impl DiscoveredReaderDataView {
    pub open spec fn guid(self) -> Option<GUID> {
        self.reader_proxy.remote_reader_guid
    }

    pub open spec fn topic_name(self) -> Option<Seq<char>> {
        opt_text(self.subscription_topic_data.topic_name)
    }

    pub open spec fn data_type_name(self) -> Option<Seq<char>> {
        opt_text(self.subscription_topic_data.data_type_name)
    }
}

impl DiscoveredReaderData {
    pub fn copy(&self) -> (r: DiscoveredReaderData)
        ensures
            r@ == self@,
    {
        DiscoveredReaderData {
            reader_proxy: self.reader_proxy.copy(),
            subscription_topic_data: self.subscription_topic_data.copy(),
        }
    }
}

/// A writer as discovery sees it: its proxy and its publication data.
#[derive(Debug)]
pub struct DiscoveredWriterData {
    pub writer_proxy: WriterProxy,
    pub publication_topic_data: PublicationBuiltinTopicData,
}

pub ghost struct DiscoveredWriterDataView {
    pub writer_proxy: WriterProxyView,
    pub publication_topic_data: PublicationBuiltinTopicData,
}

impl View for DiscoveredWriterData {
    type V = DiscoveredWriterDataView;

    open spec fn view(&self) -> DiscoveredWriterDataView {
        DiscoveredWriterDataView {
            writer_proxy: self.writer_proxy@,
            publication_topic_data: self.publication_topic_data,
        }
    }
}

impl DiscoveredWriterDataView {
    pub open spec fn guid(self) -> Option<GUID> {
        self.writer_proxy.remote_writer_guid
    }

    pub open spec fn topic_name(self) -> Option<Seq<char>> {
        opt_text(self.publication_topic_data.topic_name)
    }

    pub open spec fn data_type_name(self) -> Option<Seq<char>> {
        opt_text(self.publication_topic_data.data_type_name)
    }
}

impl DiscoveredWriterData {
    pub fn copy(&self) -> (r: DiscoveredWriterData)
        ensures
            r@ == self@,
    {
        DiscoveredWriterData {
            writer_proxy: self.writer_proxy.copy(),
            publication_topic_data: self.publication_topic_data.copy(),
        }
    }
}

/// What a topic advertises of itself.
#[derive(Debug)]
pub struct TopicBuiltinTopicData {
    pub key: Option<GUID>,
    pub name: Option<String>,
    pub data_type_name: Option<String>,
    pub qos: QosPolicies,
}

impl TopicBuiltinTopicData {
    pub fn copy(&self) -> (r: TopicBuiltinTopicData)
        ensures
            r == *self,
    {
        TopicBuiltinTopicData {
            key: self.key,
            name: copy_opt_string(&self.name),
            data_type_name: copy_opt_string(&self.data_type_name),
            qos: self.qos,
        }
    }
}

/// A topic record with the instant at which it was last heard of.
#[derive(Debug)]
pub struct DiscoveredTopicData {
    pub updated_time: u64,
    pub topic_data: TopicBuiltinTopicData,
}

impl DiscoveredTopicData {
    pub fn new(updated_time: u64, topic_data: TopicBuiltinTopicData) -> (r: DiscoveredTopicData)
        ensures
            r.updated_time == updated_time,
            r.topic_data == topic_data,
    {
        DiscoveredTopicData { updated_time, topic_data }
    }

    pub fn copy(&self) -> (r: DiscoveredTopicData)
        ensures
            r == *self,
    {
        DiscoveredTopicData { updated_time: self.updated_time, topic_data: self.topic_data.copy() }
    }

    pub open spec fn name(self) -> Option<Seq<char>> {
        opt_text(self.topic_data.name)
    }
}

/// What SPDP tells of a participant.
#[derive(Debug)]
pub struct SPDPDiscoveredParticipantData {
    pub participant_guid: Option<GUID>,
    pub updated_time: u64,
    pub lease_duration: Option<Duration>,
    pub available_builtin_endpoints: u32,
    pub metatraffic_unicast_locators: Vec<Locator>,
    pub metatraffic_multicast_locators: Vec<Locator>,
    pub default_unicast_locators: Vec<Locator>,
    pub default_multicast_locators: Vec<Locator>,
}

pub ghost struct ParticipantDataView {
    pub participant_guid: Option<GUID>,
    pub updated_time: u64,
    pub lease_duration: Option<Duration>,
    pub available_builtin_endpoints: u32,
    pub metatraffic_unicast_locators: Seq<Locator>,
    pub metatraffic_multicast_locators: Seq<Locator>,
    pub default_unicast_locators: Seq<Locator>,
    pub default_multicast_locators: Seq<Locator>,
}

impl View for SPDPDiscoveredParticipantData {
    type V = ParticipantDataView;

    open spec fn view(&self) -> ParticipantDataView {
        ParticipantDataView {
            participant_guid: self.participant_guid,
            updated_time: self.updated_time,
            lease_duration: self.lease_duration,
            available_builtin_endpoints: self.available_builtin_endpoints,
            metatraffic_unicast_locators: self.metatraffic_unicast_locators@,
            metatraffic_multicast_locators: self.metatraffic_multicast_locators@,
            default_unicast_locators: self.default_unicast_locators@,
            default_multicast_locators: self.default_multicast_locators@,
        }
    }
}

impl SPDPDiscoveredParticipantData {
    /// A copy whose last-heard instant is `updated_time`.
    pub fn copy_heard_at(&self, updated_time: u64) -> (r: SPDPDiscoveredParticipantData)
        ensures
            r@ == (ParticipantDataView { updated_time, ..self@ }),
    {
        SPDPDiscoveredParticipantData {
            participant_guid: self.participant_guid,
            updated_time,
            lease_duration: self.lease_duration,
            available_builtin_endpoints: self.available_builtin_endpoints,
            metatraffic_unicast_locators: copy_locators(&self.metatraffic_unicast_locators),
            metatraffic_multicast_locators: copy_locators(&self.metatraffic_multicast_locators),
            default_unicast_locators: copy_locators(&self.default_unicast_locators),
            default_multicast_locators: copy_locators(&self.default_multicast_locators),
        }
    }
}

} // verus!
