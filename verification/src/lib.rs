//! Control-plane core of a geo-distributed real-time media cluster.
//!
//! The gateway routing/admission engine decides, for every new or continuing
//! media session, which processing node should handle it, using periodically
//! gossiped load reports rather than a central coordinator.  This crate holds
//! the engine itself: the usage evaluator that turns a load report into a
//! normalized score, the per-service population stores that track live local
//! nodes and remote-zone gateways, and the gateway store that external code
//! drives with metrics, peer reports, ticks and routing queries.
//!
//! The core performs no I/O and never samples a clock: time always arrives as
//! a caller-supplied tick value, so every operation is deterministic.

use vstd::prelude::*;

pub mod connector;
pub mod entries;
pub mod f16;
pub mod laws;
pub mod service;
pub mod store;
pub mod types;
pub mod usage;

pub use crate::connector::ConnectorHandlerServiceBuilder;
pub use crate::f16::{F16i, F16u};
pub use crate::store::{GatewayStore, PingEvent};
pub use crate::types::{GatewayOrigin, Location, MediaOrigin, Origin, ServiceStats, ZoneId};

verus! {

/// Identifier of a media-processing node or of a gateway acting as a zone's
/// representative.
pub type NodeId = u32;

/// Latest snapshot of this process's own resource usage, each value a 0-100
/// percentage.  It is overwritten wholesale on each local update; no history
/// is kept.
#[derive(Debug, Clone, Copy, PartialEq, Eq, Structural)]
pub struct NodeMetrics {
    pub cpu: u8,
    pub memory: u8,
    pub disk: u8,
}

impl Default for NodeMetrics {
    /// Before the first monitor update the cached metrics read as fully idle.
    fn default() -> (r: Self)
        ensures
            r.cpu == 0 && r.memory == 0 && r.disk == 0,
    {
        NodeMetrics { cpu: 0, memory: 0, disk: 0 }
    }
}

/// The two independently tracked service populations.  Both share identical
/// mechanics; the gateway store instantiates one population store per kind.
#[derive(Debug, Clone, Copy, PartialEq, Eq, Structural)]
pub enum ServiceKind {
    Webrtc,
    RtpEngine,
}

} // verus!
