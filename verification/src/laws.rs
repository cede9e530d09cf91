//! The guarantees the engine gives across operations, stated over the
//! mathematical store state and proved once and for all.
//!
//! Each law quantifies over every store state, report and query outcome
//! that its hypotheses admit; the corresponding function contracts in
//! `store` and `service` connect these statements to the executable code.

use vstd::prelude::*;

use crate::entries::{
    lemma_local_idx, lemma_remote_has_node, lemma_remove_local, lemma_remove_remote,
    lemma_sweep_locals, lemma_sweep_remotes, lemma_upsert_local, local_at, local_has, local_live,
    remote_at, remote_has, remote_has_node, remote_live, LocalEntry,
};
use crate::service::{best_for_post, ServiceView};
use crate::store::{
    kind_stats, kind_view, report_of, spec_on_ping, spec_on_tick, store_wf, PingEvent, StoreView,
};
use crate::types::{Location, Origin};
use crate::usage::{below_thresholds, spec_service_usage};
use crate::{NodeId, ServiceKind};

verus! {

/// A node tracked by no population of a kind is never named by a
/// selection query.
pub proof fn lemma_absent_never_returned(
    sv: ServiceView,
    n: u32,
    loc: Option<Location>,
    r: Option<NodeId>,
)
    requires
        best_for_post(sv, loc, r),
        !local_has(sv.locals, n),
        !remote_has_node(sv.remotes, n),
    ensures
        r != Some(n),
{
    if sv.locals.len() > 0 {
    } else if sv.remotes.len() > 0 {
        if r == Some(n) {
            let i = choose|i: int|
                0 <= i < sv.remotes.len() && sv.remotes[i].node == n && (forall|j: int|
                    0 <= j < sv.remotes.len() ==> crate::service::remote_le(
                        loc,
                        sv.remotes[i],
                        sv.remotes[j],
                    ));
            assert(remote_has_node(sv.remotes, n));
        }
    }
}

/// Admissible reports are selectable at once.  If every resource of a
/// media report is strictly below its threshold and the kind's stats are
/// present and active with live sessions below capacity, then -- with no
/// local node other than the sender tracked for that kind -- selection
/// returns the reporting node immediately after the report is processed,
/// with no tick in between.
pub proof fn lemma_admissible_report_selected(
    v: StoreView,
    now: u64,
    from: u32,
    ping: PingEvent,
    kind: ServiceKind,
    loc: Option<Location>,
    r: Option<NodeId>,
)
    requires
        store_wf(v),
        ping.origin is Media,
        below_thresholds(ping.cpu, ping.memory, ping.disk, v.max_cpu, v.max_memory, v.max_disk),
        kind_stats(ping, kind) is Some,
        kind_stats(ping, kind)->Some_0.active,
        kind_stats(ping, kind)->Some_0.live < kind_stats(ping, kind)->Some_0.max,
        forall|i: int|
            0 <= i < kind_view(v, kind).locals.len() ==> kind_view(v, kind).locals[i].node == from,
        best_for_post(kind_view(spec_on_ping(v, now, from, ping), kind), loc, r),
    ensures
        r == Some(from),
{
    let v2 = spec_on_ping(v, now, from, ping);
    let kv = kind_view(v, kind);
    let kv2 = kind_view(v2, kind);
    let u = spec_service_usage(
        ping,
        kind_stats(ping, kind),
        v.max_cpu,
        v.max_memory,
        v.max_disk,
    );
    assert(u is Some);
    let e = LocalEntry {
        node: from,
        usage: u->Some_0,
        stats: kind_stats(ping, kind)->Some_0,
        last_seen: now,
    };
    assert(kv2.locals == crate::entries::upsert_local(kv.locals, e)) by {
        match kind {
            ServiceKind::Webrtc => {},
            ServiceKind::RtpEngine => {},
        }
    }
    lemma_upsert_local(kv.locals, e);
    assert forall|m: u32| local_has(kv2.locals, m) implies m == from by {
        if m != from {
            assert(local_has(kv.locals, m));
            lemma_local_idx(kv.locals, m);
        }
    }
    assert(kv2.locals.len() > 0);
    match r {
        Some(n) => {
            assert(local_has(kv2.locals, n));
        },
        None => {
            assert(false);
        },
    }
}

/// A report past any resource ceiling removes its sender.  After a media
/// report with `cpu`, `memory` or `disk` at or above its threshold, the
/// sender is tracked by neither kind's local population, and -- unless
/// some remote zone happens to track a gateway under the same node id --
/// no selection query of either kind returns it.
pub proof fn lemma_overloaded_report_absent(
    v: StoreView,
    now: u64,
    from: u32,
    ping: PingEvent,
    kind: ServiceKind,
    loc: Option<Location>,
    r: Option<NodeId>,
)
    requires
        store_wf(v),
        ping.origin is Media,
        !below_thresholds(ping.cpu, ping.memory, ping.disk, v.max_cpu, v.max_memory, v.max_disk),
        !remote_has_node(kind_view(v, kind).remotes, from),
        best_for_post(kind_view(spec_on_ping(v, now, from, ping), kind), loc, r),
    ensures
        !local_has(kind_view(spec_on_ping(v, now, from, ping), kind).locals, from),
        r != Some(from),
{
    let v2 = spec_on_ping(v, now, from, ping);
    let kv = kind_view(v, kind);
    let kv2 = kind_view(v2, kind);
    assert(kv2.locals == crate::entries::remove_local(kv.locals, from) && kv2.remotes
        == kv.remotes) by {
        match kind {
            ServiceKind::Webrtc => {},
            ServiceKind::RtpEngine => {},
        }
    }
    lemma_remove_local(kv.locals, from);
    assert(!local_has(crate::entries::remove_local(kv.locals, from), from));
    assert(!local_has(kv2.locals, from));
    assert(!remote_has_node(kv2.remotes, from));
    lemma_absent_never_returned(kv2, from, loc, r);
}

/// The gateway-report counterpart: after a remote gateway's report with
/// any resource at or above its threshold, the sender is tracked by no
/// population of the kind -- provided it was not already tracked under a
/// different node id alias (a local entry, or another zone) that this
/// report cannot touch -- and no selection query returns it.
pub proof fn lemma_overloaded_gateway_absent(
    v: StoreView,
    now: u64,
    from: u32,
    ping: PingEvent,
    gz: u32,
    kind: ServiceKind,
    loc: Option<Location>,
    r: Option<NodeId>,
)
    requires
        store_wf(v),
        ping.origin matches Origin::Gateway(g) && g.zone == gz,
        gz != v.zone,
        !below_thresholds(ping.cpu, ping.memory, ping.disk, v.max_cpu, v.max_memory, v.max_disk),
        !local_has(kind_view(v, kind).locals, from),
        forall|z: u32| remote_has(kind_view(v, kind).remotes, z, from) ==> z == gz,
        best_for_post(kind_view(spec_on_ping(v, now, from, ping), kind), loc, r),
    ensures
        !local_has(kind_view(spec_on_ping(v, now, from, ping), kind).locals, from),
        !remote_has_node(kind_view(spec_on_ping(v, now, from, ping), kind).remotes, from),
        r != Some(from),
{
    let v2 = spec_on_ping(v, now, from, ping);
    let kv = kind_view(v, kind);
    let kv2 = kind_view(v2, kind);
    assert(kv2.locals == kv.locals && kv2.remotes == crate::entries::remove_remote(
        kv.remotes,
        gz,
        from,
    )) by {
        match kind {
            ServiceKind::Webrtc => {},
            ServiceKind::RtpEngine => {},
        }
    }
    lemma_remove_remote(kv.remotes, gz, from);
    lemma_remote_has_node(kv2.remotes, from);
    if remote_has_node(kv2.remotes, from) {
        let z = choose|z: u32| remote_has(kv2.remotes, z, from);
        assert(remote_has(crate::entries::remove_remote(kv.remotes, gz, from), z, from));
        assert(remote_has(kv.remotes, z, from) && z != gz);
        assert(false);
    }
    lemma_absent_never_returned(kv2, from, loc, r);
}

/// Locality dominates load: whenever any local candidate exists, the
/// selected node is a local one, irrespective of relative usage scores.
pub proof fn lemma_local_preferred(sv: ServiceView, loc: Option<Location>, r: Option<NodeId>)
    requires
        best_for_post(sv, loc, r),
        sv.locals.len() > 0,
    ensures
        r is Some,
        local_has(sv.locals, r->Some_0),
{
}

/// Staleness: when the clock reaches the last refresh plus the timeout
/// horizon, a previously admitted entry is unreachable after the sweep of
/// `on_tick` -- it is tracked by no population of its kind, so neither
/// selection (shown here) nor the sticky-destination check (whose contract
/// answers directly from these memberships) can return it.
pub proof fn lemma_stale_entry_unreachable(
    v: StoreView,
    now: u64,
    n: u32,
    kind: ServiceKind,
    loc: Option<Location>,
    r: Option<NodeId>,
)
    requires
        store_wf(v),
        local_has(kind_view(v, kind).locals, n) ==> !local_live(
            local_at(kind_view(v, kind).locals, n),
            now,
        ),
        forall|z: u32|
            remote_has(kind_view(v, kind).remotes, z, n) ==> !remote_live(
                remote_at(kind_view(v, kind).remotes, z, n),
                now,
            ),
        best_for_post(kind_view(spec_on_tick(v, now), kind), loc, r),
    ensures
        !local_has(kind_view(spec_on_tick(v, now), kind).locals, n),
        !remote_has_node(kind_view(spec_on_tick(v, now), kind).remotes, n),
        r != Some(n),
{
    let v2 = spec_on_tick(v, now);
    let kv = kind_view(v, kind);
    let kv2 = kind_view(v2, kind);
    assert(kv2.locals == crate::entries::sweep_locals(kv.locals, now) && kv2.remotes
        == crate::entries::sweep_remotes(kv.remotes, now)) by {
        match kind {
            ServiceKind::Webrtc => {},
            ServiceKind::RtpEngine => {},
        }
    }
    lemma_sweep_locals(kv.locals, now);
    lemma_sweep_remotes(kv.remotes, now);
    assert(!local_has(crate::entries::sweep_locals(kv.locals, now), n));
    assert(!local_has(kv2.locals, n));
    lemma_remote_has_node(kv2.remotes, n);
    if remote_has_node(kv2.remotes, n) {
        let z = choose|z: u32| remote_has(kv2.remotes, z, n);
        assert(remote_has(crate::entries::sweep_remotes(kv.remotes, now), z, n));
        assert(remote_has(kv.remotes, z, n));
        assert(false);
    }
    lemma_absent_never_returned(kv2, n, loc, r);
}

/// Self-zone suppression: a gateway report whose zone equals the store's
/// own zone produces no observable state change at all.
pub proof fn lemma_own_zone_ignored(v: StoreView, now: u64, from: u32, ping: PingEvent)
    requires
        ping.origin matches Origin::Gateway(g) && g.zone == v.zone,
    ensures
        spec_on_ping(v, now, from, ping) == v,
{
}

/// Every tick buffers exactly one outbound report, and it reflects the
/// cached metrics and per-kind local stats of the state left by the tick's
/// own sweep.
pub proof fn lemma_tick_buffers_report(v: StoreView, now: u64)
    ensures
        spec_on_tick(v, now).output == Some(report_of(spec_on_tick(v, now))),
{
}

/// Draining is at-most-once: given two consecutive drains with no tick in
/// between, each stepping the state as `pop_output` promises, the second
/// returns nothing and changes nothing.
pub proof fn lemma_pop_output_once(
    v: StoreView,
    r1: Option<PingEvent>,
    v1: StoreView,
    r2: Option<PingEvent>,
    v2: StoreView,
)
    requires
        r1 == v.output,
        v1 == (StoreView { output: None, ..v }),
        r2 == v1.output,
        v2 == (StoreView { output: None, ..v1 }),
    ensures
        r2 is None,
        v2 == v1,
{
}

} // verus!

