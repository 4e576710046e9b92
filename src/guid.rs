use vstd::prelude::*;

verus! {

/// Entity id of the built-in SPDP participant reader.
pub const ENTITYID_SPDP_BUILTIN_PARTICIPANT_READER: u32 = 0x000100c7;

/// Entity id of the built-in SPDP participant writer.
pub const ENTITYID_SPDP_BUILTIN_PARTICIPANT_WRITER: u32 = 0x000100c2;

/// Globally unique identifier of an RTPS entity: a 12-byte participant
/// prefix followed by a 4-byte entity id. The prefix is held as a big-endian
/// integer of 96 bits, the entity id as a big-endian integer of 32 bits, so
/// that comparing `(prefix, entity_id)` orders GUIDs as their 16 bytes do.
#[derive(Clone, Copy, Debug, PartialEq, Eq, Structural)]
pub struct GUID {
    pub prefix: u128,
    pub entity_id: u32,
}

impl GUID {
    /// The unknown GUID: all sixteen bytes zero.
    pub fn unknown() -> (r: GUID)
        ensures
            r.prefix == 0,
            r.entity_id == 0,
    {
        GUID { prefix: 0, entity_id: 0 }
    }

    /// The same participant prefix with another entity id.
    pub fn from_prefix(&self, entity_id: u32) -> (r: GUID)
        ensures
            r.prefix == self.prefix,
            r.entity_id == entity_id,
    {
        GUID { prefix: self.prefix, entity_id }
    }

    /// Byte-lexicographic order on GUIDs.
    pub open spec fn spec_lt(self, other: GUID) -> bool {
        self.prefix < other.prefix || (self.prefix == other.prefix && self.entity_id
            < other.entity_id)
    }

    pub fn lt(&self, other: &GUID) -> (r: bool)
        ensures
            r == self.spec_lt(*other),
    {
        self.prefix < other.prefix || (self.prefix == other.prefix && self.entity_id
            < other.entity_id)
    }
}

/// A network locator: kind, port and a 16-byte address held as a big-endian
/// integer.
#[derive(Clone, Copy, Debug, PartialEq, Eq, Structural)]
pub struct Locator {
    pub kind: i32,
    pub port: u32,
    pub address: u128,
}

/// Locator kind of a UDPv4 address.
pub const LOCATOR_KIND_UDPV4: i32 = 1;

/// The IPv4 multicast group used for discovery and user traffic,
/// 239.255.0.1, in the low four bytes of a locator address.
pub const DISCOVERY_MULTICAST_ADDRESS: u128 = 0xefff0001;

impl Locator {
    /// The UDPv4 multicast locator at `port`.
    pub fn multicast_udpv4(port: u16) -> (r: Locator)
        ensures
            r.kind == LOCATOR_KIND_UDPV4,
            r.port == port as u32,
            r.address == DISCOVERY_MULTICAST_ADDRESS,
    {
        Locator { kind: LOCATOR_KIND_UDPV4, port: port as u32, address: DISCOVERY_MULTICAST_ADDRESS }
    }
}

/// Monotonic local instant in nanoseconds, used to order cached changes.
#[derive(Clone, Copy, Debug, PartialEq, Eq, Structural)]
pub struct Timestamp {
    pub nanos: u64,
}

/// A span of time in nanoseconds.
#[derive(Clone, Copy, Debug, PartialEq, Eq, Structural)]
pub struct Duration {
    pub nanos: u64,
}

impl Duration {
    pub fn from_secs(secs: u32) -> (r: Duration)
        ensures
            r.nanos == secs as int * 1_000_000_000,
    {
        Duration { nanos: secs as u64 * 1_000_000_000 }
    }
}

} // verus!
