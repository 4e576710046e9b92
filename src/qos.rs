use vstd::prelude::*;
use crate::guid::Duration;

verus! {

#[derive(Clone, Copy, Debug, PartialEq, Eq, Structural)]
pub enum ReliabilityKind {
    BestEffort,
    Reliable,
}

#[derive(Clone, Copy, Debug, PartialEq, Eq, Structural)]
pub enum Durability {
    Volatile,
    TransientLocal,
    Transient,
    Persistent,
}

#[derive(Clone, Copy, Debug, PartialEq, Eq, Structural)]
pub enum Ownership {
    Shared,
    Exclusive,
}

#[derive(Clone, Copy, Debug, PartialEq, Eq, Structural)]
pub enum LivelinessKind {
    Automatic,
    ManualByParticipant,
    ManualByTopic,
}

#[derive(Clone, Copy, Debug, PartialEq, Eq, Structural)]
pub struct Liveliness {
    pub kind: LivelinessKind,
    pub lease_duration: Duration,
}

#[derive(Clone, Copy, Debug, PartialEq, Eq, Structural)]
pub enum PresentationAccessScope {
    Instance,
    Topic,
    Group,
}

#[derive(Clone, Copy, Debug, PartialEq, Eq, Structural)]
pub struct Presentation {
    pub access_scope: PresentationAccessScope,
    pub coherent_access: bool,
    pub ordered_access: bool,
}

#[derive(Clone, Copy, Debug, PartialEq, Eq, Structural)]
pub enum DestinationOrder {
    ByReceptionTimestamp,
    BySourceTimestamp,
}

#[derive(Clone, Copy, Debug, PartialEq, Eq, Structural)]
pub enum History {
    KeepLast { depth: i32 },
    KeepAll,
}

#[derive(Clone, Copy, Debug, PartialEq, Eq, Structural)]
pub struct ResourceLimits {
    pub max_samples: i32,
    pub max_instances: i32,
    pub max_samples_per_instance: i32,
}

/// The quality-of-service policies of an entity. A policy left at `None`
/// is unspecified.
#[derive(Clone, Copy, Debug, PartialEq, Eq, Structural)]
pub struct QosPolicies {
    pub durability: Option<Durability>,
    pub presentation: Option<Presentation>,
    pub deadline: Option<Duration>,
    pub latency_budget: Option<Duration>,
    pub ownership: Option<Ownership>,
    pub liveliness: Option<Liveliness>,
    pub time_based_filter: Option<Duration>,
    pub reliability: Option<ReliabilityKind>,
    pub destination_order: Option<DestinationOrder>,
    pub history: Option<History>,
    pub resource_limits: Option<ResourceLimits>,
    pub lifespan: Option<Duration>,
}

pub open spec fn reliability_rank(k: ReliabilityKind) -> int {
    match k {
        ReliabilityKind::BestEffort => 0,
        ReliabilityKind::Reliable => 1,
    }
}

pub open spec fn durability_rank(k: Durability) -> int {
    match k {
        Durability::Volatile => 0,
        Durability::TransientLocal => 1,
        Durability::Transient => 2,
        Durability::Persistent => 3,
    }
}

pub open spec fn liveliness_rank(k: LivelinessKind) -> int {
    match k {
        LivelinessKind::Automatic => 0,
        LivelinessKind::ManualByParticipant => 1,
        LivelinessKind::ManualByTopic => 2,
    }
}

pub open spec fn scope_rank(k: PresentationAccessScope) -> int {
    match k {
        PresentationAccessScope::Instance => 0,
        PresentationAccessScope::Topic => 1,
        PresentationAccessScope::Group => 2,
    }
}

pub open spec fn order_rank(k: DestinationOrder) -> int {
    match k {
        DestinationOrder::ByReceptionTimestamp => 0,
        DestinationOrder::BySourceTimestamp => 1,
    }
}

/// The "requested <= offered" relation of one policy: a policy that either
/// side leaves unspecified imposes nothing.
pub open spec fn policy_ok<T>(requested: Option<T>, offered: Option<T>, le: spec_fn(T, T) -> bool) -> bool {
    match (requested, offered) {
        (Some(r), Some(o)) => le(r, o),
        _ => true,
    }
}

pub open spec fn liveliness_le(r: Liveliness, o: Liveliness) -> bool {
    liveliness_rank(r.kind) <= liveliness_rank(o.kind) && o.lease_duration.nanos
        <= r.lease_duration.nanos
}

pub open spec fn presentation_le(r: Presentation, o: Presentation) -> bool {
    scope_rank(r.access_scope) <= scope_rank(o.access_scope) && (r.coherent_access
        ==> o.coherent_access) && (r.ordered_access ==> o.ordered_access)
}

/// Whether a reader requesting `requested` may be matched with a writer
/// offering `offered`, policy by policy.
pub open spec fn qos_compatible(requested: QosPolicies, offered: QosPolicies) -> bool {
    &&& policy_ok(
        requested.reliability,
        offered.reliability,
        |r: ReliabilityKind, o: ReliabilityKind| reliability_rank(r) <= reliability_rank(o),
    )
    &&& policy_ok(
        requested.durability,
        offered.durability,
        |r: Durability, o: Durability| durability_rank(r) <= durability_rank(o),
    )
    &&& policy_ok(requested.deadline, offered.deadline, |r: Duration, o: Duration| o.nanos <= r.nanos)
    &&& policy_ok(
        requested.latency_budget,
        offered.latency_budget,
        |r: Duration, o: Duration| o.nanos <= r.nanos,
    )
    &&& policy_ok(requested.ownership, offered.ownership, |r: Ownership, o: Ownership| r == o)
    &&& policy_ok(requested.liveliness, offered.liveliness, |r: Liveliness, o: Liveliness| liveliness_le(r, o))
    &&& policy_ok(
        requested.presentation,
        offered.presentation,
        |r: Presentation, o: Presentation| presentation_le(r, o),
    )
    &&& policy_ok(
        requested.destination_order,
        offered.destination_order,
        |r: DestinationOrder, o: DestinationOrder| order_rank(r) <= order_rank(o),
    )
}

fn reliability_rank_of(k: ReliabilityKind) -> (r: u8)
    ensures
        r == reliability_rank(k),
{
    match k {
        ReliabilityKind::BestEffort => 0,
        ReliabilityKind::Reliable => 1,
    }
}

fn durability_rank_of(k: Durability) -> (r: u8)
    ensures
        r == durability_rank(k),
{
    match k {
        Durability::Volatile => 0,
        Durability::TransientLocal => 1,
        Durability::Transient => 2,
        Durability::Persistent => 3,
    }
}

fn liveliness_rank_of(k: LivelinessKind) -> (r: u8)
    ensures
        r == liveliness_rank(k),
{
    match k {
        LivelinessKind::Automatic => 0,
        LivelinessKind::ManualByParticipant => 1,
        LivelinessKind::ManualByTopic => 2,
    }
}

fn scope_rank_of(k: PresentationAccessScope) -> (r: u8)
    ensures
        r == scope_rank(k),
{
    match k {
        PresentationAccessScope::Instance => 0,
        PresentationAccessScope::Topic => 1,
        PresentationAccessScope::Group => 2,
    }
}

fn order_rank_of(k: DestinationOrder) -> (r: u8)
    ensures
        r == order_rank(k),
{
    match k {
        DestinationOrder::ByReceptionTimestamp => 0,
        DestinationOrder::BySourceTimestamp => 1,
    }
}

impl QosPolicies {
    pub open spec fn spec_none() -> QosPolicies {
        QosPolicies {
            durability: None,
            presentation: None,
            deadline: None,
            latency_budget: None,
            ownership: None,
            liveliness: None,
            time_based_filter: None,
            reliability: None,
            destination_order: None,
            history: None,
            resource_limits: None,
            lifespan: None,
        }
    }

    /// No policy specified.
    pub fn qos_none() -> (r: QosPolicies)
        ensures
            r == QosPolicies::spec_none(),
    {
        QosPolicies {
            durability: None,
            presentation: None,
            deadline: None,
            latency_budget: None,
            ownership: None,
            liveliness: None,
            time_based_filter: None,
            reliability: None,
            destination_order: None,
            history: None,
            resource_limits: None,
            lifespan: None,
        }
    }

    /// Whether a reader requesting `self` may be matched with a writer
    /// offering `offered`.
    pub fn compatible_with_offered(&self, offered: &QosPolicies) -> (r: bool)
        ensures
            r == qos_compatible(*self, *offered),
    {
        let rel = match (self.reliability, offered.reliability) {
            (Some(r), Some(o)) => reliability_rank_of(r) <= reliability_rank_of(o),
            _ => true,
        };
        let dur = match (self.durability, offered.durability) {
            (Some(r), Some(o)) => durability_rank_of(r) <= durability_rank_of(o),
            _ => true,
        };
        let dl = match (self.deadline, offered.deadline) {
            (Some(r), Some(o)) => o.nanos <= r.nanos,
            _ => true,
        };
        let lb = match (self.latency_budget, offered.latency_budget) {
            (Some(r), Some(o)) => o.nanos <= r.nanos,
            _ => true,
        };
        let own = match (self.ownership, offered.ownership) {
            (Some(r), Some(o)) => r == o,
            _ => true,
        };
        let live = match (self.liveliness, offered.liveliness) {
            (Some(r), Some(o)) => liveliness_rank_of(r.kind) <= liveliness_rank_of(o.kind)
                && o.lease_duration.nanos <= r.lease_duration.nanos,
            _ => true,
        };
        let pres = match (self.presentation, offered.presentation) {
            (Some(r), Some(o)) => scope_rank_of(r.access_scope) <= scope_rank_of(o.access_scope)
                && (!r.coherent_access || o.coherent_access) && (!r.ordered_access
                || o.ordered_access),
            _ => true,
        };
        let ord = match (self.destination_order, offered.destination_order) {
            (Some(r), Some(o)) => order_rank_of(r) <= order_rank_of(o),
            _ => true,
        };
        rel && dur && dl && lb && own && live && pres && ord
    }
}

} // verus!
