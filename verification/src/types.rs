//! Plain value types carried by load reports.
//!
//! Reports travel between processes through an external transport; this core
//! only ever sees the already-decoded values modelled here.

use vstd::prelude::*;

verus! {

/// Identifier of a geographic/administrative cluster zone.
#[derive(Debug, Clone, Copy, PartialEq, Eq, Structural)]
pub struct ZoneId(pub u32);

/// A latitude/longitude pair in fixed-point integer coordinates, used for
/// distance-based selection among remote gateways.
#[derive(Debug, Clone, Copy, PartialEq, Eq, Structural)]
pub struct Location {
    pub lat: i32,
    pub lon: i32,
}

/// Capability summary of one service population on the reporting process:
/// current session count, capacity, and an explicit accepting-flag that is
/// independent of the count.
#[derive(Debug, Clone, Copy, PartialEq, Eq, Structural)]
pub struct ServiceStats {
    pub live: u32,
    pub max: u32,
    pub active: bool,
}

/// Marker for a report sent by a media node of the local zone.
#[derive(Debug, Clone, Copy, PartialEq, Eq, Structural)]
pub struct MediaOrigin {}

/// Origin data of a report sent by a sibling gateway in another zone.  The
/// location is optional because a peer may omit it; a report without one is
/// never admitted into a population.
#[derive(Debug, Clone, Copy, PartialEq, Eq)]
pub struct GatewayOrigin {
    pub zone: u32,
    pub location: Option<Location>,
}

/// Where a load report came from.  Every call site must handle both cases:
/// local media nodes feed the local population, sibling gateways feed the
/// remote population.
#[derive(Debug, Clone, Copy, PartialEq, Eq)]
pub enum Origin {
    Media(MediaOrigin),
    Gateway(GatewayOrigin),
}

} // verus!
