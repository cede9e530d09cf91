//! The population store: registry of live local nodes and live remote-zone
//! gateways for one service kind.  It owns eviction, upsert, and the
//! selection policy; the gateway store instantiates one per service kind.

use vstd::prelude::*;

use crate::entries::{
    any_active, lemma_local_at_unique, lemma_locals_bounded_transfer, lemma_remote_at_unique,
    lemma_remotes_bounded_transfer, lemma_remove_local, lemma_remove_remote, lemma_sums_nonneg,
    lemma_sweep_locals, lemma_sweep_remotes, lemma_upsert_local, lemma_upsert_remote, local_at,
    local_has, locals_bounded, remote_has, remote_has_node, remotes_bounded, remove_local,
    remove_remote, sum_live, sum_max, sweep_locals, sweep_remotes, unique_locals, unique_remotes,
    upsert_local, upsert_remote, LocalEntry, RemoteEntry,
};
use crate::types::{Location, ServiceStats, ZoneId};
use crate::NodeId;

verus! {

/// Mathematical state of a population store: the two registries as
/// sequences of entries with unique keys.
#[verifier::ext_equal]
pub struct ServiceView {
    pub locals: Seq<LocalEntry>,
    pub remotes: Seq<RemoteEntry>,
}

/// Well-formedness: one entry per key, every stored score normalized.
pub open spec fn view_wf(v: ServiceView) -> bool {
    unique_locals(v.locals) && unique_remotes(v.remotes) && locals_bounded(v.locals)
        && remotes_bounded(v.remotes)
}

// ---------------------------------------------------------------------
// Selection policy.
// ---------------------------------------------------------------------

/// Preference order among local candidates: lowest usage score first, ties
/// broken by lowest node id.
pub open spec fn local_le(a: LocalEntry, b: LocalEntry) -> bool {
    a.usage < b.usage || (a.usage == b.usage && a.node <= b.node)
}

/// Deterministic, symmetric squared euclidean distance over the fixed-point
/// coordinates.
pub open spec fn dist2(a: Location, b: Location) -> int {
    (a.lat as int - b.lat as int) * (a.lat as int - b.lat as int) + (a.lon as int - b.lon as int)
        * (a.lon as int - b.lon as int)
}

/// Preference order among remote candidates when no query location is
/// given: lowest usage score first, ties broken by lowest zone then node.
pub open spec fn remote_load_le(a: RemoteEntry, b: RemoteEntry) -> bool {
    a.usage < b.usage || (a.usage == b.usage && (a.zone < b.zone || (a.zone == b.zone && a.node
        <= b.node)))
}

/// Preference order among remote candidates for a query location: nearest
/// first, ties broken by the load order.
pub open spec fn remote_near_le(l: Location, a: RemoteEntry, b: RemoteEntry) -> bool {
    dist2(l, a.location) < dist2(l, b.location) || (dist2(l, a.location) == dist2(l, b.location)
        && remote_load_le(a, b))
}

pub open spec fn remote_le(loc: Option<Location>, a: RemoteEntry, b: RemoteEntry) -> bool {
    match loc {
        Option::Some(l) => remote_near_le(l, a, b),
        Option::None => remote_load_le(a, b),
    }
}

/// What `best_for` returns.  A local entry always beats every remote one,
/// irrespective of relative usage scores; among locals the preferred entry
/// under `local_le` wins; among remotes the preferred entry under
/// `remote_le` wins; an empty population yields no candidate.
pub open spec fn best_for_post(v: ServiceView, loc: Option<Location>, r: Option<NodeId>) -> bool {
    if v.locals.len() > 0 {
        match r {
            Option::Some(n) => local_has(v.locals, n) && (forall|j: int|
                0 <= j < v.locals.len() ==> local_le(local_at(v.locals, n), v.locals[j])),
            Option::None => false,
        }
    } else if v.remotes.len() > 0 {
        match r {
            Option::Some(n) => exists|i: int|
                0 <= i < v.remotes.len() && v.remotes[i].node == n && (forall|j: int|
                    0 <= j < v.remotes.len() ==> remote_le(loc, v.remotes[i], v.remotes[j])),
            Option::None => false,
        }
    } else {
        r is None
    }
}

// ---------------------------------------------------------------------
// Aggregated local stats.
// ---------------------------------------------------------------------

/// Saturating conversion of an aggregate to the u32 carried in reports.
pub open spec fn cap_u32(x: int) -> int {
    if x > 0xffff_ffff {
        0xffff_ffff
    } else {
        x
    }
}

/// The local population's publishable capability summary: the sums of the
/// nodes' session counts and capacities (saturating at the report field
/// width), accepting when any node accepts; absent when no local node is
/// tracked.
pub open spec fn local_stats_spec(s: Seq<LocalEntry>) -> Option<ServiceStats> {
    if s.len() == 0 {
        None
    } else {
        Some(
            ServiceStats {
                live: cap_u32(sum_live(s)) as u32,
                max: cap_u32(sum_max(s)) as u32,
                active: any_active(s),
            },
        )
    }
}

pub struct ServiceStore {
    locals: Vec<LocalEntry>,
    remotes: Vec<RemoteEntry>,
}

/// Squared distance between two locations, exactly `dist2`.
fn geo_dist2(a: Location, b: Location) -> (d: i128)
    ensures
        d == dist2(a, b),
{
    let dlat: i64 = a.lat as i64 - b.lat as i64;
    let dlon: i64 = a.lon as i64 - b.lon as i64;
    proof {
        assert(0 <= (dlat as int) * (dlat as int) <= 18446744073709551616) by (nonlinear_arith)
            requires
                -4294967296 <= dlat as int <= 4294967296,
        ;
        assert(0 <= (dlon as int) * (dlon as int) <= 18446744073709551616) by (nonlinear_arith)
            requires
                -4294967296 <= dlon as int <= 4294967296,
        ;
    }
    (dlat as i128) * (dlat as i128) + (dlon as i128) * (dlon as i128)
}

impl View for ServiceStore {
    type V = ServiceView;

    closed spec fn view(&self) -> ServiceView {
        ServiceView { locals: self.locals@, remotes: self.remotes@ }
    }
}

impl ServiceStore {
    pub open spec fn wf(&self) -> bool {
        view_wf(self@)
    }

    pub fn new() -> (r: Self)
        ensures
            r.wf(),
            r@.locals == Seq::<LocalEntry>::empty(),
            r@.remotes == Seq::<RemoteEntry>::empty(),
    {
        let r = ServiceStore { locals: Vec::new(), remotes: Vec::new() };
        proof {
            assert(r@.locals =~= Seq::<LocalEntry>::empty());
            assert(r@.remotes =~= Seq::<RemoteEntry>::empty());
        }
        r
    }

    /// Upsert the local entry for `node`, refreshing its liveness stamp.
    pub fn on_node_ping(&mut self, now: u64, node: NodeId, usage: u8, stats: ServiceStats)
        requires
            old(self).wf(),
            usage <= 100,
        ensures
            final(self).wf(),
            final(self)@.locals == upsert_local(
                old(self)@.locals,
                LocalEntry { node, usage, stats, last_seen: now },
            ),
            final(self)@.remotes == old(self)@.remotes,
    {
        let e = LocalEntry { node, usage, stats, last_seen: now };
        let len = self.locals.len();
        let mut i: usize = 0;
        while i < len
            invariant
                *self == *old(self),
                old(self).wf(),
                e == (LocalEntry { node, usage, stats, last_seen: now }),
                usage <= 100,
                len == self.locals.len(),
                i <= len,
                forall|j: int| 0 <= j < i ==> self.locals@[j].node != node,
            decreases len - i,
        {
            if self.locals[i].node == node {
                proof {
                    lemma_local_at_unique(old(self)@.locals, node, i as int);
                    lemma_upsert_local(old(self)@.locals, e);
                }
                self.locals.set(i, e);
                proof {
                    assert(self.locals@ == upsert_local(old(self)@.locals, e));
                    assert forall|j: int| 0 <= j < self.locals@.len() implies self.locals@[j].usage
                        <= 100 by {
                        if j != i as int {
                            assert(self.locals@[j] == old(self)@.locals[j]);
                        }
                    }
                }
                return ;
            }
            i += 1;
        }
        proof {
            assert(!local_has(old(self)@.locals, node));
            lemma_upsert_local(old(self)@.locals, e);
        }
        self.locals.push(e);
        proof {
            assert(self.locals@ == upsert_local(old(self)@.locals, e));
            assert forall|j: int| 0 <= j < self.locals@.len() implies self.locals@[j].usage
                <= 100 by {
                if j < self.locals@.len() - 1 {
                    assert(self.locals@[j] == old(self)@.locals[j]);
                }
            }
        }
    }

    /// Upsert the remote entry keyed by zone and node together.
    pub fn on_gateway_ping(
        &mut self,
        now: u64,
        zone: ZoneId,
        node: NodeId,
        usage: u8,
        location: Location,
        stats: ServiceStats,
    )
        requires
            old(self).wf(),
            usage <= 100,
        ensures
            final(self).wf(),
            final(self)@.remotes == upsert_remote(
                old(self)@.remotes,
                RemoteEntry { zone: zone.0, node, usage, location, stats, last_seen: now },
            ),
            final(self)@.locals == old(self)@.locals,
    {
        let e = RemoteEntry { zone: zone.0, node, usage, location, stats, last_seen: now };
        let len = self.remotes.len();
        let mut i: usize = 0;
        while i < len
            invariant
                *self == *old(self),
                old(self).wf(),
                e == (RemoteEntry { zone: zone.0, node, usage, location, stats, last_seen: now }),
                usage <= 100,
                len == self.remotes.len(),
                i <= len,
                forall|j: int|
                    0 <= j < i ==> !(self.remotes@[j].zone == zone.0 && self.remotes@[j].node
                        == node),
            decreases len - i,
        {
            let same_zone = self.remotes[i].zone == zone.0;
            if same_zone && self.remotes[i].node == node {
                proof {
                    lemma_remote_at_unique(old(self)@.remotes, zone.0, node, i as int);
                    lemma_upsert_remote(old(self)@.remotes, e);
                }
                self.remotes.set(i, e);
                proof {
                    assert(self.remotes@ == upsert_remote(old(self)@.remotes, e));
                    assert forall|j: int| 0 <= j < self.remotes@.len() implies self.remotes@[j].usage
                        <= 100 by {
                        if j != i as int {
                            assert(self.remotes@[j] == old(self)@.remotes[j]);
                        }
                    }
                }
                return ;
            }
            i += 1;
        }
        proof {
            assert(!remote_has(old(self)@.remotes, zone.0, node));
            lemma_upsert_remote(old(self)@.remotes, e);
        }
        self.remotes.push(e);
        proof {
            assert(self.remotes@ == upsert_remote(old(self)@.remotes, e));
            assert forall|j: int| 0 <= j < self.remotes@.len() implies self.remotes@[j].usage
                <= 100 by {
                if j < self.remotes@.len() - 1 {
                    assert(self.remotes@[j] == old(self)@.remotes[j]);
                }
            }
        }
    }

    /// Unconditional delete of a local entry; a no-op if it is absent.
    pub fn remove_node(&mut self, node: NodeId)
        requires
            old(self).wf(),
        ensures
            final(self).wf(),
            final(self)@.locals == remove_local(old(self)@.locals, node),
            final(self)@.remotes == old(self)@.remotes,
    {
        let mut out: Vec<LocalEntry> = Vec::new();
        let len = self.locals.len();
        let mut i: usize = 0;
        proof {
            assert(self.locals@.take(0) =~= Seq::<LocalEntry>::empty());
        }
        while i < len
            invariant
                *self == *old(self),
                len == self.locals.len(),
                i <= len,
                out@ == remove_local(self.locals@.take(i as int), node),
            decreases len - i,
        {
            proof {
                assert(self.locals@.take(i as int + 1).drop_last() =~= self.locals@.take(
                    i as int,
                ));
                assert(self.locals@.take(i as int + 1).last() == self.locals@[i as int]);
            }
            let e = self.locals[i];
            if e.node != node {
                out.push(e);
            }
            i += 1;
        }
        proof {
            assert(self.locals@.take(len as int) =~= self.locals@);
            lemma_remove_local(self.locals@, node);
            lemma_locals_bounded_transfer(self.locals@, remove_local(self.locals@, node));
        }
        self.locals = out;
    }

    /// Unconditional delete of a remote entry; a no-op if it is absent.
    pub fn remove_gateway(&mut self, zone: ZoneId, node: NodeId)
        requires
            old(self).wf(),
        ensures
            final(self).wf(),
            final(self)@.remotes == remove_remote(old(self)@.remotes, zone.0, node),
            final(self)@.locals == old(self)@.locals,
    {
        let mut out: Vec<RemoteEntry> = Vec::new();
        let len = self.remotes.len();
        let mut i: usize = 0;
        proof {
            assert(self.remotes@.take(0) =~= Seq::<RemoteEntry>::empty());
        }
        while i < len
            invariant
                *self == *old(self),
                len == self.remotes.len(),
                i <= len,
                out@ == remove_remote(self.remotes@.take(i as int), zone.0, node),
            decreases len - i,
        {
            proof {
                assert(self.remotes@.take(i as int + 1).drop_last() =~= self.remotes@.take(
                    i as int,
                ));
                assert(self.remotes@.take(i as int + 1).last() == self.remotes@[i as int]);
            }
            let e = self.remotes[i];
            if !(e.zone == zone.0 && e.node == node) {
                out.push(e);
            }
            i += 1;
        }
        proof {
            assert(self.remotes@.take(len as int) =~= self.remotes@);
            lemma_remove_remote(self.remotes@, zone.0, node);
            lemma_remotes_bounded_transfer(
                self.remotes@,
                remove_remote(self.remotes@, zone.0, node),
            );
        }
        self.remotes = out;
    }

    /// The staleness sweep: drop every entry, local or remote, whose last
    /// refresh lies a full timeout horizon in the past.
    pub fn on_tick(&mut self, now: u64)
        requires
            old(self).wf(),
        ensures
            final(self).wf(),
            final(self)@.locals == sweep_locals(old(self)@.locals, now),
            final(self)@.remotes == sweep_remotes(old(self)@.remotes, now),
    {
        let mut keep_l: Vec<LocalEntry> = Vec::new();
        let llen = self.locals.len();
        let mut i: usize = 0;
        proof {
            assert(self.locals@.take(0) =~= Seq::<LocalEntry>::empty());
        }
        while i < llen
            invariant
                *self == *old(self),
                llen == self.locals.len(),
                i <= llen,
                keep_l@ == sweep_locals(self.locals@.take(i as int), now),
            decreases llen - i,
        {
            proof {
                assert(self.locals@.take(i as int + 1).drop_last() =~= self.locals@.take(
                    i as int,
                ));
                assert(self.locals@.take(i as int + 1).last() == self.locals@[i as int]);
            }
            let e = self.locals[i];
            if now < 5000 || e.last_seen > now - 5000 {
                keep_l.push(e);
            }
            i += 1;
        }
        let mut keep_r: Vec<RemoteEntry> = Vec::new();
        let rlen = self.remotes.len();
        let mut k: usize = 0;
        proof {
            assert(self.remotes@.take(0) =~= Seq::<RemoteEntry>::empty());
        }
        while k < rlen
            invariant
                *self == *old(self),
                rlen == self.remotes.len(),
                k <= rlen,
                keep_r@ == sweep_remotes(self.remotes@.take(k as int), now),
            decreases rlen - k,
        {
            proof {
                assert(self.remotes@.take(k as int + 1).drop_last() =~= self.remotes@.take(
                    k as int,
                ));
                assert(self.remotes@.take(k as int + 1).last() == self.remotes@[k as int]);
            }
            let e = self.remotes[k];
            if now < 5000 || e.last_seen > now - 5000 {
                keep_r.push(e);
            }
            k += 1;
        }
        proof {
            assert(self.locals@.take(llen as int) =~= self.locals@);
            assert(self.remotes@.take(rlen as int) =~= self.remotes@);
            lemma_sweep_locals(self.locals@, now);
            lemma_sweep_remotes(self.remotes@, now);
            lemma_locals_bounded_transfer(self.locals@, sweep_locals(self.locals@, now));
            lemma_remotes_bounded_transfer(self.remotes@, sweep_remotes(self.remotes@, now));
        }
        self.locals = keep_l;
        self.remotes = keep_r;
    }

    /// Selection policy: any tracked local node beats every remote
    /// gateway; ties are broken deterministically (see `best_for_post`).
    pub fn best_for(&self, location: Option<Location>) -> (r: Option<NodeId>)
        requires
            self.wf(),
        ensures
            best_for_post(self@, location, r),
    {
        let llen = self.locals.len();
        if llen > 0 {
            let mut best: LocalEntry = self.locals[0];
            let mut i: usize = 1;
            while i < llen
                invariant
                    llen == self.locals.len(),
                    1 <= i <= llen,
                    exists|k: int| 0 <= k < i && self.locals@[k] == best,
                    forall|j: int| 0 <= j < i ==> local_le(best, self.locals@[j]),
                decreases llen - i,
            {
                let c = self.locals[i];
                if c.usage < best.usage || (c.usage == best.usage && c.node < best.node) {
                    best = c;
                }
                i += 1;
            }
            proof {
                let k = choose|k: int| 0 <= k < self.locals@.len() && self.locals@[k] == best;
                assert(self.locals@[k].node == best.node);
                lemma_local_at_unique(self@.locals, best.node, k);
            }
            return Some(best.node);
        }
        let rlen = self.remotes.len();
        if rlen > 0 {
            match location {
                Some(l) => {
                    let mut best: RemoteEntry = self.remotes[0];
                    let mut best_d: i128 = geo_dist2(l, best.location);
                    let mut i: usize = 1;
                    while i < rlen
                        invariant
                            rlen == self.remotes.len(),
                            1 <= i <= rlen,
                            best_d == dist2(l, best.location),
                            exists|k: int| 0 <= k < i && self.remotes@[k] == best,
                            forall|j: int| 0 <= j < i ==> remote_near_le(l, best, self.remotes@[j]),
                        decreases rlen - i,
                    {
                        let c = self.remotes[i];
                        let d = geo_dist2(l, c.location);
                        let better = d < best_d || (d == best_d && (c.usage < best.usage || (c.usage
                            == best.usage && (c.zone < best.zone || (c.zone == best.zone && c.node
                            < best.node)))));
                        if better {
                            best = c;
                            best_d = d;
                        }
                        i += 1;
                    }
                    proof {
                        let k = choose|k: int|
                            0 <= k < self.remotes@.len() && self.remotes@[k] == best;
                        assert(self.remotes@[k].node == best.node);
                    }
                    Some(best.node)
                },
                None => {
                    let mut best: RemoteEntry = self.remotes[0];
                    let mut i: usize = 1;
                    while i < rlen
                        invariant
                            rlen == self.remotes.len(),
                            1 <= i <= rlen,
                            exists|k: int| 0 <= k < i && self.remotes@[k] == best,
                            forall|j: int| 0 <= j < i ==> remote_load_le(best, self.remotes@[j]),
                        decreases rlen - i,
                    {
                        let c = self.remotes[i];
                        let better = c.usage < best.usage || (c.usage == best.usage && (c.zone
                            < best.zone || (c.zone == best.zone && c.node < best.node)));
                        if better {
                            best = c;
                        }
                        i += 1;
                    }
                    proof {
                        let k = choose|k: int|
                            0 <= k < self.remotes@.len() && self.remotes@[k] == best;
                        assert(self.remotes@[k].node == best.node);
                    }
                    Some(best.node)
                },
            }
        } else {
            None
        }
    }

    /// Sticky-routing liveness check: the destination comes back unchanged
    /// exactly when some population, local or any remote zone, still tracks
    /// it.
    pub fn dest_for(&self, dest: NodeId) -> (r: Option<NodeId>)
        ensures
            r == (if local_has(self@.locals, dest) || remote_has_node(self@.remotes, dest) {
                Some(dest)
            } else {
                None::<NodeId>
            }),
    {
        let llen = self.locals.len();
        let mut i: usize = 0;
        while i < llen
            invariant
                llen == self.locals.len(),
                i <= llen,
                forall|j: int| 0 <= j < i ==> self.locals@[j].node != dest,
            decreases llen - i,
        {
            if self.locals[i].node == dest {
                proof {
                    assert(local_has(self@.locals, dest));
                }
                return Some(dest);
            }
            i += 1;
        }
        let rlen = self.remotes.len();
        let mut k: usize = 0;
        while k < rlen
            invariant
                rlen == self.remotes.len(),
                k <= rlen,
                forall|j: int| 0 <= j < k ==> self.remotes@[j].node != dest,
            decreases rlen - k,
        {
            if self.remotes[k].node == dest {
                proof {
                    assert(remote_has_node(self@.remotes, dest));
                }
                return Some(dest);
            }
            k += 1;
        }
        None
    }

    /// Representative stats for the local population, publishable upward
    /// as this process's own capability summary.
    pub fn local_stats(&self) -> (r: Option<ServiceStats>)
        ensures
            r == local_stats_spec(self@.locals),
    {
        let len = self.locals.len();
        if len == 0 {
            return None;
        }
        let mut live: u64 = 0;
        let mut cap: u64 = 0;
        let mut act: bool = false;
        let mut i: usize = 0;
        proof {
            assert(self.locals@.take(0) =~= Seq::<LocalEntry>::empty());
        }
        while i < len
            invariant
                len == self.locals.len(),
                i <= len,
                live as int == cap_u32(sum_live(self.locals@.take(i as int))),
                cap as int == cap_u32(sum_max(self.locals@.take(i as int))),
                act == any_active(self.locals@.take(i as int)),
            decreases len - i,
        {
            proof {
                let t0 = self.locals@.take(i as int);
                let t1 = self.locals@.take(i as int + 1);
                assert(t1.drop_last() =~= t0);
                assert(t1.last() == self.locals@[i as int]);
                lemma_sums_nonneg(t0);
                assert(any_active(t1) == (any_active(t0) || self.locals@[i as int].stats.active))
                    by {
                    if any_active(t0) {
                        let j = choose|j: int| 0 <= j < t0.len() && t0[j].stats.active;
                        assert(t1[j].stats.active);
                    }
                    if self.locals@[i as int].stats.active {
                        assert(t1[i as int].stats.active);
                    }
                    if any_active(t1) {
                        let j = choose|j: int| 0 <= j < t1.len() && t1[j].stats.active;
                        if j < i as int {
                            assert(t0[j].stats.active);
                        }
                    }
                }
            }
            let e = self.locals[i];
            live = live + e.stats.live as u64;
            if live > 0xffff_ffff {
                live = 0xffff_ffff;
            }
            cap = cap + e.stats.max as u64;
            if cap > 0xffff_ffff {
                cap = 0xffff_ffff;
            }
            if e.stats.active {
                act = true;
            }
            i += 1;
        }
        proof {
            assert(self.locals@.take(len as int) =~= self.locals@);
            lemma_sums_nonneg(self.locals@);
        }
        Some(ServiceStats { live: live as u32, max: cap as u32, active: act })
    }
}

} // verus!
