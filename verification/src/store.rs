//! The gateway store: owns the local metrics cache, one population store
//! per service kind, and the single-slot outbound-report buffer.  It is the
//! one entry point that external code drives.

use vstd::prelude::*;

use crate::entries::{
    remove_local, remove_remote, sweep_locals, sweep_remotes, upsert_local, upsert_remote,
    LocalEntry, RemoteEntry,
};
use crate::service::{
    best_for_post, local_stats_spec, view_wf, ServiceStore, ServiceView,
};
use crate::types::{GatewayOrigin, Location, Origin, ServiceStats, ZoneId};
use crate::usage::{service_usage, spec_service_usage};
use crate::{NodeId, NodeMetrics, ServiceKind};

verus! {

/// One load report, as exchanged between processes each gossip round.
/// `cpu`, `memory` and `disk` are 0-100 percentages of the reporting
/// process; each service kind may carry its own capability summary.
#[derive(Debug, Clone, PartialEq, Eq)]
pub struct PingEvent {
    pub cpu: u8,
    pub memory: u8,
    pub disk: u8,
    pub origin: Origin,
    pub webrtc: Option<ServiceStats>,
    pub rtpengine: Option<ServiceStats>,
}

/// Mathematical state of a gateway store.
#[verifier::ext_equal]
pub struct StoreView {
    pub zone: u32,
    pub location: Location,
    pub metrics: NodeMetrics,
    pub max_cpu: u8,
    pub max_memory: u8,
    pub max_disk: u8,
    pub webrtc: ServiceView,
    pub rtpengine: ServiceView,
    pub output: Option<PingEvent>,
}

pub open spec fn store_wf(v: StoreView) -> bool {
    view_wf(v.webrtc) && view_wf(v.rtpengine)
}

/// The population a service kind is tracked in.
pub open spec fn kind_view(v: StoreView, kind: ServiceKind) -> ServiceView {
    match kind {
        ServiceKind::Webrtc => v.webrtc,
        ServiceKind::RtpEngine => v.rtpengine,
    }
}

/// The capability summary a report carries for a service kind.
pub open spec fn kind_stats(ping: PingEvent, kind: ServiceKind) -> Option<ServiceStats> {
    match kind {
        ServiceKind::Webrtc => ping.webrtc,
        ServiceKind::RtpEngine => ping.rtpengine,
    }
}

/// The outbound report a tick buffers: this gateway's own cached metrics
/// and per-kind local capability summaries, tagged with its zone and
/// location so that peers can suppress loops and select by distance.
pub open spec fn report_of(v: StoreView) -> PingEvent {
    PingEvent {
        cpu: v.metrics.cpu,
        memory: v.metrics.memory,
        disk: v.metrics.disk,
        origin: Origin::Gateway(GatewayOrigin { zone: v.zone, location: Some(v.location) }),
        webrtc: local_stats_spec(v.webrtc.locals),
        rtpengine: local_stats_spec(v.rtpengine.locals),
    }
}

/// Effect of a tick: both populations are swept of stale entries, then one
/// outbound report describing the swept state is buffered, overwriting any
/// undrained predecessor.
pub open spec fn spec_on_tick(v: StoreView, now: u64) -> StoreView {
    let swept = StoreView {
        webrtc: ServiceView {
            locals: sweep_locals(v.webrtc.locals, now),
            remotes: sweep_remotes(v.webrtc.remotes, now),
        },
        rtpengine: ServiceView {
            locals: sweep_locals(v.rtpengine.locals, now),
            remotes: sweep_remotes(v.rtpengine.remotes, now),
        },
        ..v
    };
    StoreView { output: Some(report_of(swept)), ..swept }
}

/// Effect of a media-node report on one kind's local population: an
/// admissible report upserts the node with its fresh score, anything else
/// removes the node from that kind only.
pub open spec fn media_locals_apply(
    locals: Seq<LocalEntry>,
    now: u64,
    from: u32,
    usage: Option<u8>,
    stats: Option<ServiceStats>,
) -> Seq<LocalEntry> {
    match (usage, stats) {
        (Some(u), Some(st)) => upsert_local(
            locals,
            LocalEntry { node: from, usage: u, stats: st, last_seen: now },
        ),
        _ => remove_local(locals, from),
    }
}

/// Effect of one peer report on the whole store.
///
/// A media report treats the two kinds independently.  A gateway report
/// from the store's own zone is ignored entirely (self/loop suppression);
/// from another zone, any missing precondition on either kind (bad usage,
/// missing location, missing stats) first removes the peer from both
/// kinds' populations, after which each kind with an admissible summary is
/// upserted with its fresh score.
pub open spec fn spec_on_ping(v: StoreView, now: u64, from: u32, ping: PingEvent) -> StoreView {
    let uw = spec_service_usage(ping, ping.webrtc, v.max_cpu, v.max_memory, v.max_disk);
    let ur = spec_service_usage(ping, ping.rtpengine, v.max_cpu, v.max_memory, v.max_disk);
    match ping.origin {
        Origin::Media(_) => StoreView {
            webrtc: ServiceView {
                locals: media_locals_apply(v.webrtc.locals, now, from, uw, ping.webrtc),
                ..v.webrtc
            },
            rtpengine: ServiceView {
                locals: media_locals_apply(v.rtpengine.locals, now, from, ur, ping.rtpengine),
                ..v.rtpengine
            },
            ..v
        },
        Origin::Gateway(gw) => {
            if gw.zone == v.zone {
                v
            } else {
                let w_ok = uw is Some && gw.location is Some;
                let r_ok = ur is Some && gw.location is Some;
                let wrem = if w_ok && r_ok {
                    v.webrtc.remotes
                } else {
                    remove_remote(v.webrtc.remotes, gw.zone, from)
                };
                let rrem = if w_ok && r_ok {
                    v.rtpengine.remotes
                } else {
                    remove_remote(v.rtpengine.remotes, gw.zone, from)
                };
                let wrem2 = if w_ok {
                    upsert_remote(
                        wrem,
                        RemoteEntry {
                            zone: gw.zone,
                            node: from,
                            usage: uw->Some_0,
                            location: gw.location->Some_0,
                            stats: ping.webrtc->Some_0,
                            last_seen: now,
                        },
                    )
                } else {
                    wrem
                };
                let rrem2 = if r_ok {
                    upsert_remote(
                        rrem,
                        RemoteEntry {
                            zone: gw.zone,
                            node: from,
                            usage: ur->Some_0,
                            location: gw.location->Some_0,
                            stats: ping.rtpengine->Some_0,
                            last_seen: now,
                        },
                    )
                } else {
                    rrem
                };
                StoreView {
                    webrtc: ServiceView { remotes: wrem2, ..v.webrtc },
                    rtpengine: ServiceView { remotes: rrem2, ..v.rtpengine },
                    ..v
                }
            }
        },
    }
}

pub struct GatewayStore {
    zone: ZoneId,
    node: NodeMetrics,
    location: Location,
    webrtc: ServiceStore,
    rtpengine: ServiceStore,
    output: Option<PingEvent>,
    max_cpu: u8,
    max_memory: u8,
    max_disk: u8,
}

impl View for GatewayStore {
    type V = StoreView;

    closed spec fn view(&self) -> StoreView {
        StoreView {
            zone: self.zone.0,
            location: self.location,
            metrics: self.node,
            max_cpu: self.max_cpu,
            max_memory: self.max_memory,
            max_disk: self.max_disk,
            webrtc: self.webrtc@,
            rtpengine: self.rtpengine@,
            output: self.output,
        }
    }
}

impl GatewayStore {
    pub open spec fn wf(&self) -> bool {
        store_wf(self@)
    }

    /// A fresh store for the given zone, home location and admission
    /// thresholds: idle metrics, empty populations, nothing buffered.
    pub fn new(zone: ZoneId, location: Location, max_cpu: u8, max_memory: u8, max_disk: u8) -> (r:
        Self)
        ensures
            r.wf(),
            r@.zone == zone.0,
            r@.location == location,
            r@.metrics == (NodeMetrics { cpu: 0, memory: 0, disk: 0 }),
            r@.max_cpu == max_cpu,
            r@.max_memory == max_memory,
            r@.max_disk == max_disk,
            r@.webrtc.locals.len() == 0,
            r@.webrtc.remotes.len() == 0,
            r@.rtpengine.locals.len() == 0,
            r@.rtpengine.remotes.len() == 0,
            r@.output is None,
    {
        GatewayStore {
            node: NodeMetrics::default(),
            webrtc: ServiceStore::new(),
            rtpengine: ServiceStore::new(),
            zone,
            location,
            output: None,
            max_cpu,
            max_disk,
            max_memory,
        }
    }

    /// Replace the cached local metrics wholesale; they are not themselves
    /// subject to any timeout, only the reports derived from them are.
    pub fn on_node_metrics(&mut self, _now: u64, metrics: NodeMetrics)
        requires
            old(self).wf(),
        ensures
            final(self).wf(),
            final(self)@ == (StoreView { metrics, ..old(self)@ }),
    {
        self.node = metrics;
    }

    /// Sweep both populations, then build and buffer this gateway's own
    /// outbound report; an undrained previous report is overwritten.
    pub fn on_tick(&mut self, now: u64)
        requires
            old(self).wf(),
        ensures
            final(self).wf(),
            final(self)@ == spec_on_tick(old(self)@, now),
    {
        self.webrtc.on_tick(now);
        self.rtpengine.on_tick(now);
        let webrtc_stats = self.webrtc.local_stats();
        let rtpengine_stats = self.rtpengine.local_stats();
        let ping = PingEvent {
            cpu: self.node.cpu,
            memory: self.node.memory,
            disk: self.node.disk,
            origin: Origin::Gateway(
                GatewayOrigin { zone: self.zone.0, location: Some(self.location) },
            ),
            webrtc: webrtc_stats,
            rtpengine: rtpengine_stats,
        };
        self.output = Some(ping);
        proof {
            assert(self@ =~= spec_on_tick(old(self)@, now));
        }
    }

    /// Feed one peer report into the relevant populations; see
    /// `spec_on_ping` for the full admission rule.
    pub fn on_ping(&mut self, now: u64, from: u32, ping: PingEvent)
        requires
            old(self).wf(),
        ensures
            final(self).wf(),
            final(self)@ == spec_on_ping(old(self)@, now, from, ping),
    {
        let webrtc_usage = service_usage(
            &ping,
            ping.webrtc,
            self.max_cpu,
            self.max_memory,
            self.max_disk,
        );
        let rtpengine_usage = service_usage(
            &ping,
            ping.rtpengine,
            self.max_cpu,
            self.max_memory,
            self.max_disk,
        );
        proof {
            crate::usage::lemma_score_bounded(ping.cpu, ping.webrtc->Some_0);
            crate::usage::lemma_score_bounded(ping.cpu, ping.rtpengine->Some_0);
        }
        match ping.origin {
            Origin::Media(_) => {
                match (webrtc_usage, ping.webrtc) {
                    (Some(webrtc), Some(stats)) => self.webrtc.on_node_ping(
                        now,
                        from,
                        webrtc,
                        stats,
                    ),
                    _ => self.webrtc.remove_node(from),
                }
                match (rtpengine_usage, ping.rtpengine) {
                    (Some(rtpengine), Some(stats)) => self.rtpengine.on_node_ping(
                        now,
                        from,
                        rtpengine,
                        stats,
                    ),
                    _ => self.rtpengine.remove_node(from),
                }
                proof {
                    assert(self@ =~= spec_on_ping(old(self)@, now, from, ping));
                }
            },
            Origin::Gateway(gateway) => {
                if gateway.zone == self.zone.0 {
                    // Never track a peer from the store's own zone.
                    proof {
                        assert(self@ =~= spec_on_ping(old(self)@, now, from, ping));
                    }
                    return ;
                }
                let zone = ZoneId(gateway.zone);
                let w_ok = webrtc_usage.is_some() && gateway.location.is_some();
                let r_ok = rtpengine_usage.is_some() && gateway.location.is_some();
                if !(w_ok && r_ok) {
                    self.webrtc.remove_gateway(zone, from);
                    self.rtpengine.remove_gateway(zone, from);
                }
                if w_ok {
                    match (webrtc_usage, gateway.location, ping.webrtc) {
                        (Some(usage), Some(location), Some(stats)) => self.webrtc.on_gateway_ping(
                            now,
                            zone,
                            from,
                            usage,
                            location,
                            stats,
                        ),
                        _ => (),
                    }
                }
                if r_ok {
                    match (rtpengine_usage, gateway.location, ping.rtpengine) {
                        (Some(usage), Some(location), Some(stats)) => self
                            .rtpengine
                            .on_gateway_ping(now, zone, from, usage, location, stats),
                        _ => (),
                    }
                }
                proof {
                    assert(self@ =~= spec_on_ping(old(self)@, now, from, ping));
                }
            },
        }
    }

    /// Best node for a new session of the given kind, optionally biased
    /// towards a caller location; delegates to the kind's population.
    pub fn best_for(&self, kind: ServiceKind, location: Option<Location>) -> (r: Option<NodeId>)
        requires
            self.wf(),
        ensures
            best_for_post(kind_view(self@, kind), location, r),
    {
        match kind {
            ServiceKind::Webrtc => self.webrtc.best_for(location),
            ServiceKind::RtpEngine => self.rtpengine.best_for(location),
        }
    }

    /// Sticky continuation: confirm that a previously chosen destination is
    /// still tracked for the kind, without re-running selection.
    pub fn dest_for(&self, kind: ServiceKind, dest: NodeId) -> (r: Option<NodeId>)
        ensures
            r == (if crate::entries::local_has(kind_view(self@, kind).locals, dest)
                || crate::entries::remote_has_node(kind_view(self@, kind).remotes, dest) {
                Some(dest)
            } else {
                None::<NodeId>
            }),
    {
        match kind {
            ServiceKind::Webrtc => self.webrtc.dest_for(dest),
            ServiceKind::RtpEngine => self.rtpengine.dest_for(dest),
        }
    }

    /// This process's own capability summary; only the webrtc population
    /// is exposed through this call.
    pub fn local_stats(&self) -> (r: Option<ServiceStats>)
        ensures
            r == local_stats_spec(self@.webrtc.locals),
    {
        self.webrtc.local_stats()
    }

    /// Drain the pending outbound report: it is returned at most once, and
    /// nothing is pending afterwards until the next tick.
    pub fn pop_output(&mut self) -> (r: Option<PingEvent>)
        requires
            old(self).wf(),
        ensures
            final(self).wf(),
            r == old(self)@.output,
            final(self)@ == (StoreView { output: None, ..old(self)@ }),
    {
        self.output.take()
    }
}

} // verus!
