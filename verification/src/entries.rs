//! Population entries and the sequence-level model they are reasoned in.
//!
//! A population store keeps its entries in vectors whose node keys (local)
//! or zone/node key pairs (remote) are unique.  The spec functions here give
//! the mathematical meaning of the three mutations every population needs --
//! upsert, keyed removal, and the staleness sweep -- together with the
//! lemmas that characterize membership and lookups under key uniqueness.

use vstd::prelude::*;

use crate::types::{Location, ServiceStats};

verus! {

/// Timeout horizon in tick-units (milliseconds): an entry not refreshed for
/// this long is removed by the next sweep.
pub const PING_TIMEOUT: u64 = 5000;

/// A live local media node of this gateway's own zone.  Its location is
/// implicitly "here".
#[derive(Debug, Clone, Copy, PartialEq, Eq)]
pub struct LocalEntry {
    pub node: u32,
    pub usage: u8,
    pub stats: ServiceStats,
    pub last_seen: u64,
}

/// A live gateway of a remote zone, keyed by zone and node together; remote
/// entries always carry the peer's location.
#[derive(Debug, Clone, Copy, PartialEq, Eq)]
pub struct RemoteEntry {
    pub zone: u32,
    pub node: u32,
    pub usage: u8,
    pub location: Location,
    pub stats: ServiceStats,
    pub last_seen: u64,
}

/// An entry refreshed after `now - PING_TIMEOUT` is still alive at `now`.
pub open spec fn local_live(e: LocalEntry, now: u64) -> bool {
    e.last_seen as int + PING_TIMEOUT as int > now as int
}

pub open spec fn remote_live(e: RemoteEntry, now: u64) -> bool {
    e.last_seen as int + PING_TIMEOUT as int > now as int
}

// ---------------------------------------------------------------------
// Local entries: membership, lookup, uniqueness.
// ---------------------------------------------------------------------

pub open spec fn local_has(s: Seq<LocalEntry>, node: u32) -> bool {
    exists|i: int| 0 <= i < s.len() && s[i].node == node
}

pub open spec fn local_idx(s: Seq<LocalEntry>, node: u32) -> int {
    choose|i: int| 0 <= i < s.len() && s[i].node == node
}

pub open spec fn local_at(s: Seq<LocalEntry>, node: u32) -> LocalEntry {
    s[local_idx(s, node)]
}

/// At most one entry per node.
pub open spec fn unique_locals(s: Seq<LocalEntry>) -> bool {
    forall|i: int, j: int| 0 <= i < j < s.len() ==> s[i].node != s[j].node
}

pub proof fn lemma_local_idx(s: Seq<LocalEntry>, node: u32)
    requires
        local_has(s, node),
    ensures
        0 <= local_idx(s, node) < s.len(),
        s[local_idx(s, node)].node == node,
{
}

/// Under uniqueness the looked-up index is the only index with the key.
pub proof fn lemma_local_at_unique(s: Seq<LocalEntry>, node: u32, i: int)
    requires
        unique_locals(s),
        0 <= i < s.len(),
        s[i].node == node,
    ensures
        local_idx(s, node) == i,
        local_at(s, node) == s[i],
{
    lemma_local_idx(s, node);
}

// ---------------------------------------------------------------------
// Local entries: upsert, keyed removal, sweep.
// ---------------------------------------------------------------------

/// Insert-or-refresh: an existing entry for the node is overwritten in
/// place, a new node is appended.
pub open spec fn upsert_local(s: Seq<LocalEntry>, e: LocalEntry) -> Seq<LocalEntry> {
    if local_has(s, e.node) {
        s.update(local_idx(s, e.node), e)
    } else {
        s.push(e)
    }
}

/// Unconditional keyed delete; a no-op if the node is absent.
pub open spec fn remove_local(s: Seq<LocalEntry>, node: u32) -> Seq<LocalEntry>
    decreases s.len(),
{
    if s.len() == 0 {
        Seq::empty()
    } else {
        let rest = remove_local(s.drop_last(), node);
        if s.last().node == node {
            rest
        } else {
            rest.push(s.last())
        }
    }
}

/// The staleness sweep keeps exactly the entries still alive at `now`.
pub open spec fn sweep_locals(s: Seq<LocalEntry>, now: u64) -> Seq<LocalEntry>
    decreases s.len(),
{
    if s.len() == 0 {
        Seq::empty()
    } else {
        let rest = sweep_locals(s.drop_last(), now);
        if local_live(s.last(), now) {
            rest.push(s.last())
        } else {
            rest
        }
    }
}

pub proof fn lemma_upsert_local(s: Seq<LocalEntry>, e: LocalEntry)
    requires
        unique_locals(s),
    ensures
        unique_locals(upsert_local(s, e)),
        upsert_local(s, e).len() >= 1,
        forall|n: u32|
            local_has(upsert_local(s, e), n) <==> (n == e.node || local_has(s, n)),
        local_at(upsert_local(s, e), e.node) == e,
        forall|n: u32|
            n != e.node && local_has(s, n) ==> local_at(upsert_local(s, e), n) == local_at(s, n),
{
    let out = upsert_local(s, e);
    if local_has(s, e.node) {
        let i = local_idx(s, e.node);
        lemma_local_idx(s, e.node);
        assert forall|n: u32| local_has(out, n) implies (n == e.node || local_has(s, n)) by {
            let j = local_idx(out, n);
            lemma_local_idx(out, n);
            if j != i {
                assert(s[j].node == n);
            }
        }
        assert forall|n: u32| n == e.node || local_has(s, n) implies local_has(out, n) by {
            if n == e.node {
                assert(out[i].node == n);
            } else {
                let j = local_idx(s, n);
                lemma_local_idx(s, n);
                assert(out[j].node == n);
            }
        }
        lemma_local_at_unique(out, e.node, i);
        assert forall|n: u32| n != e.node && local_has(s, n) implies local_at(out, n) == local_at(
            s,
            n,
        ) by {
            let j = local_idx(s, n);
            lemma_local_idx(s, n);
            assert(out[j].node == n);
            lemma_local_at_unique(out, n, j);
        }
    } else {
        let l = s.len() as int;
        assert(out[l].node == e.node);
        assert forall|n: u32| local_has(out, n) implies (n == e.node || local_has(s, n)) by {
            let j = local_idx(out, n);
            lemma_local_idx(out, n);
            if j < l {
                assert(s[j].node == n);
            }
        }
        assert forall|n: u32| n == e.node || local_has(s, n) implies local_has(out, n) by {
            if n != e.node {
                let j = local_idx(s, n);
                lemma_local_idx(s, n);
                assert(out[j].node == n);
            }
        }
        lemma_local_at_unique(out, e.node, l);
        assert forall|n: u32| n != e.node && local_has(s, n) implies local_at(out, n) == local_at(
            s,
            n,
        ) by {
            let j = local_idx(s, n);
            lemma_local_idx(s, n);
            assert(out[j].node == n);
            lemma_local_at_unique(out, n, j);
            lemma_local_at_unique(s, n, j);
        }
    }
}

pub proof fn lemma_remove_local(s: Seq<LocalEntry>, node: u32)
    requires
        unique_locals(s),
    ensures
        unique_locals(remove_local(s, node)),
        !local_has(remove_local(s, node), node),
        forall|n: u32|
            local_has(remove_local(s, node), n) <==> (local_has(s, n) && n != node),
        forall|n: u32|
            local_has(remove_local(s, node), n) ==> local_at(remove_local(s, node), n) == local_at(
                s,
                n,
            ),
    decreases s.len(),
{
    let out = remove_local(s, node);
    if s.len() == 0 {
    } else {
        let pre = s.drop_last();
        let last = s.last();
        lemma_remove_local(pre, node);
        let outp = remove_local(pre, node);
        assert forall|n: u32| local_has(pre, n) implies local_has(s, n) by {
            let j = local_idx(pre, n);
            lemma_local_idx(pre, n);
            assert(s[j].node == n);
        }
        assert forall|n: u32| local_has(s, n) implies (n == last.node || local_has(pre, n)) by {
            let j = local_idx(s, n);
            lemma_local_idx(s, n);
            if j < s.len() - 1 {
                assert(pre[j].node == n);
            }
        }
        if last.node == node {
            assert(out == outp);
            assert forall|n: u32| local_has(out, n) implies (local_has(s, n) && n != node
                && local_at(out, n) == local_at(s, n)) by {
                assert(local_has(outp, n));
                assert(local_has(pre, n) && n != node);
                let j = local_idx(pre, n);
                lemma_local_idx(pre, n);
                lemma_local_at_unique(pre, n, j);
                lemma_local_at_unique(s, n, j);
            }
            assert forall|n: u32| local_has(s, n) && n != node implies local_has(out, n) by {
                let j = local_idx(s, n);
                lemma_local_idx(s, n);
                assert(j < s.len() - 1);
                assert(pre[j].node == n);
                assert(local_has(outp, n));
            }
        } else {
            assert(out == outp.push(last));
            assert forall|n: u32| local_has(out, n) implies (local_has(s, n) && n != node) by {
                let j = local_idx(out, n);
                lemma_local_idx(out, n);
                if j < outp.len() {
                    assert(local_has(outp, n));
                } else {
                    assert(out[j] == last);
                    assert(s[s.len() - 1].node == n);
                }
            }
            assert forall|n: u32| local_has(s, n) && n != node implies local_has(out, n) by {
                if n == last.node {
                    assert(out[outp.len() as int].node == n);
                } else {
                    assert(local_has(pre, n));
                    let j = local_idx(outp, n);
                    lemma_local_idx(outp, n);
                    assert(out[j].node == n);
                }
            }
            assert(unique_locals(out)) by {
                assert forall|i: int, j: int| 0 <= i < j < out.len() implies out[i].node
                    != out[j].node by {
                    if j < outp.len() {
                    } else {
                        assert(out[j] == last);
                        assert(local_has(outp, out[i].node));
                        assert(local_has(pre, out[i].node));
                        let k = local_idx(pre, out[i].node);
                        lemma_local_idx(pre, out[i].node);
                        assert(s[k].node == out[i].node);
                    }
                }
            }
            assert forall|n: u32| local_has(out, n) implies local_at(out, n) == local_at(s, n) by {
                if n == last.node {
                    lemma_local_at_unique(out, n, outp.len() as int);
                    lemma_local_at_unique(s, n, s.len() - 1);
                } else {
                    assert(local_has(outp, n));
                    let j = local_idx(outp, n);
                    lemma_local_idx(outp, n);
                    assert(out[j].node == n);
                    lemma_local_at_unique(out, n, j);
                    lemma_local_at_unique(outp, n, j);
                    assert(local_has(pre, n));
                    let k = local_idx(pre, n);
                    lemma_local_idx(pre, n);
                    lemma_local_at_unique(pre, n, k);
                    lemma_local_at_unique(s, n, k);
                }
            }
        }
    }
}

pub proof fn lemma_sweep_locals(s: Seq<LocalEntry>, now: u64)
    requires
        unique_locals(s),
    ensures
        unique_locals(sweep_locals(s, now)),
        forall|n: u32|
            local_has(sweep_locals(s, now), n) <==> (local_has(s, n) && local_live(
                local_at(s, n),
                now,
            )),
        forall|n: u32|
            local_has(sweep_locals(s, now), n) ==> local_at(sweep_locals(s, now), n) == local_at(
                s,
                n,
            ),
    decreases s.len(),
{
    let out = sweep_locals(s, now);
    if s.len() == 0 {
    } else {
        let pre = s.drop_last();
        let last = s.last();
        lemma_sweep_locals(pre, now);
        let outp = sweep_locals(pre, now);
        assert forall|n: u32| local_has(pre, n) implies local_has(s, n) && local_at(s, n)
            == local_at(pre, n) by {
            let j = local_idx(pre, n);
            lemma_local_idx(pre, n);
            assert(s[j].node == n);
            lemma_local_at_unique(pre, n, j);
            lemma_local_at_unique(s, n, j);
        }
        assert forall|n: u32| local_has(s, n) && n != last.node implies local_has(pre, n) by {
            let j = local_idx(s, n);
            lemma_local_idx(s, n);
            assert(j < s.len() - 1);
            assert(pre[j].node == n);
        }
        if local_live(last, now) {
            assert(out == outp.push(last));
            assert(unique_locals(out)) by {
                assert forall|i: int, j: int| 0 <= i < j < out.len() implies out[i].node
                    != out[j].node by {
                    if j < outp.len() {
                    } else {
                        assert(out[j] == last);
                        assert(outp[i].node == out[i].node);
                        assert(local_has(outp, out[i].node));
                        assert(local_has(pre, out[i].node));
                        let k = local_idx(pre, out[i].node);
                        lemma_local_idx(pre, out[i].node);
                        assert(s[k].node == out[i].node && k < s.len() - 1);
                    }
                }
            }
            assert forall|n: u32| local_has(out, n) implies (local_has(s, n) && local_live(
                local_at(s, n),
                now,
            ) && local_at(out, n) == local_at(s, n)) by {
                let j = local_idx(out, n);
                lemma_local_idx(out, n);
                if j < outp.len() {
                    assert(outp[j].node == n);
                    assert(local_has(outp, n));
                    assert(n != last.node) by {
                        assert(local_has(pre, n));
                        let k = local_idx(pre, n);
                        lemma_local_idx(pre, n);
                        assert(s[k].node == n && k < s.len() - 1);
                    }
                    lemma_local_at_unique(out, n, j);
                    lemma_local_at_unique(outp, n, j);
                } else {
                    assert(out[j] == last);
                    assert(s[s.len() - 1].node == n);
                    lemma_local_at_unique(s, n, s.len() - 1);
                    lemma_local_at_unique(out, n, j);
                }
            }
            assert forall|n: u32| local_has(s, n) && local_live(local_at(s, n), now)
                implies local_has(out, n) by {
                if n == last.node {
                    assert(out[outp.len() as int].node == n);
                } else {
                    assert(local_has(pre, n));
                    assert(local_has(outp, n));
                    let k = local_idx(outp, n);
                    lemma_local_idx(outp, n);
                    assert(out[k].node == n);
                }
            }
        } else {
            assert(out == outp);
            assert forall|n: u32| local_has(s, n) && local_live(local_at(s, n), now)
                implies local_has(out, n) by {
                assert(n != last.node) by {
                    if n == last.node {
                        lemma_local_at_unique(s, n, s.len() - 1);
                    }
                }
                assert(local_has(pre, n));
                assert(local_has(outp, n));
            }
            assert forall|n: u32| local_has(out, n) implies (local_has(s, n) && local_live(
                local_at(s, n),
                now,
            ) && local_at(out, n) == local_at(s, n)) by {
                assert(local_has(outp, n));
                assert(local_has(pre, n) && local_live(local_at(pre, n), now));
            }
        }
    }
}

// ---------------------------------------------------------------------
// Remote entries: membership, lookup, uniqueness.
// ---------------------------------------------------------------------

pub open spec fn remote_has(s: Seq<RemoteEntry>, zone: u32, node: u32) -> bool {
    exists|i: int| 0 <= i < s.len() && s[i].zone == zone && s[i].node == node
}

pub open spec fn remote_idx(s: Seq<RemoteEntry>, zone: u32, node: u32) -> int {
    choose|i: int| 0 <= i < s.len() && s[i].zone == zone && s[i].node == node
}

pub open spec fn remote_at(s: Seq<RemoteEntry>, zone: u32, node: u32) -> RemoteEntry {
    s[remote_idx(s, zone, node)]
}

/// Whether any zone still tracks the node; this is what sticky routing asks.
pub open spec fn remote_has_node(s: Seq<RemoteEntry>, node: u32) -> bool {
    exists|i: int| 0 <= i < s.len() && s[i].node == node
}

/// At most one entry per zone/node pair.
pub open spec fn unique_remotes(s: Seq<RemoteEntry>) -> bool {
    forall|i: int, j: int|
        0 <= i < j < s.len() ==> !(s[i].zone == s[j].zone && s[i].node == s[j].node)
}

pub proof fn lemma_remote_idx(s: Seq<RemoteEntry>, zone: u32, node: u32)
    requires
        remote_has(s, zone, node),
    ensures
        0 <= remote_idx(s, zone, node) < s.len(),
        s[remote_idx(s, zone, node)].zone == zone,
        s[remote_idx(s, zone, node)].node == node,
{
}

pub proof fn lemma_remote_at_unique(s: Seq<RemoteEntry>, zone: u32, node: u32, i: int)
    requires
        unique_remotes(s),
        0 <= i < s.len(),
        s[i].zone == zone,
        s[i].node == node,
    ensures
        remote_idx(s, zone, node) == i,
        remote_at(s, zone, node) == s[i],
{
    lemma_remote_idx(s, zone, node);
}

pub proof fn lemma_remote_has_node(s: Seq<RemoteEntry>, node: u32)
    ensures
        remote_has_node(s, node) <==> exists|z: u32| remote_has(s, z, node),
{
    if remote_has_node(s, node) {
        let i = choose|i: int| 0 <= i < s.len() && s[i].node == node;
        assert(remote_has(s, s[i].zone, node));
    }
    if exists|z: u32| remote_has(s, z, node) {
        let z = choose|z: u32| remote_has(s, z, node);
        lemma_remote_idx(s, z, node);
    }
}

// ---------------------------------------------------------------------
// Remote entries: upsert, keyed removal, sweep.
// ---------------------------------------------------------------------

pub open spec fn upsert_remote(s: Seq<RemoteEntry>, e: RemoteEntry) -> Seq<RemoteEntry> {
    if remote_has(s, e.zone, e.node) {
        s.update(remote_idx(s, e.zone, e.node), e)
    } else {
        s.push(e)
    }
}

pub open spec fn remove_remote(s: Seq<RemoteEntry>, zone: u32, node: u32) -> Seq<RemoteEntry>
    decreases s.len(),
{
    if s.len() == 0 {
        Seq::empty()
    } else {
        let rest = remove_remote(s.drop_last(), zone, node);
        if s.last().zone == zone && s.last().node == node {
            rest
        } else {
            rest.push(s.last())
        }
    }
}

pub open spec fn sweep_remotes(s: Seq<RemoteEntry>, now: u64) -> Seq<RemoteEntry>
    decreases s.len(),
{
    if s.len() == 0 {
        Seq::empty()
    } else {
        let rest = sweep_remotes(s.drop_last(), now);
        if remote_live(s.last(), now) {
            rest.push(s.last())
        } else {
            rest
        }
    }
}

pub proof fn lemma_upsert_remote(s: Seq<RemoteEntry>, e: RemoteEntry)
    requires
        unique_remotes(s),
    ensures
        unique_remotes(upsert_remote(s, e)),
        upsert_remote(s, e).len() >= 1,
        forall|z: u32, n: u32|
            remote_has(upsert_remote(s, e), z, n) <==> ((z == e.zone && n == e.node) || remote_has(
                s,
                z,
                n,
            )),
        remote_at(upsert_remote(s, e), e.zone, e.node) == e,
        forall|z: u32, n: u32|
            !(z == e.zone && n == e.node) && remote_has(s, z, n) ==> remote_at(
                upsert_remote(s, e),
                z,
                n,
            ) == remote_at(s, z, n),
{
    let out = upsert_remote(s, e);
    if remote_has(s, e.zone, e.node) {
        let i = remote_idx(s, e.zone, e.node);
        lemma_remote_idx(s, e.zone, e.node);
        assert forall|z: u32, n: u32| remote_has(out, z, n) implies ((z == e.zone && n == e.node)
            || remote_has(s, z, n)) by {
            let j = remote_idx(out, z, n);
            lemma_remote_idx(out, z, n);
            if j != i {
                assert(s[j].zone == z && s[j].node == n);
            }
        }
        assert forall|z: u32, n: u32| (z == e.zone && n == e.node) || remote_has(s, z, n)
            implies remote_has(out, z, n) by {
            if z == e.zone && n == e.node {
                assert(out[i].zone == z && out[i].node == n);
            } else {
                let j = remote_idx(s, z, n);
                lemma_remote_idx(s, z, n);
                assert(out[j].zone == z && out[j].node == n);
            }
        }
        lemma_remote_at_unique(out, e.zone, e.node, i);
        assert forall|z: u32, n: u32| !(z == e.zone && n == e.node) && remote_has(s, z, n)
            implies remote_at(out, z, n) == remote_at(s, z, n) by {
            let j = remote_idx(s, z, n);
            lemma_remote_idx(s, z, n);
            assert(out[j].zone == z && out[j].node == n);
            lemma_remote_at_unique(out, z, n, j);
        }
    } else {
        let l = s.len() as int;
        assert(out[l] == e);
        assert forall|z: u32, n: u32| remote_has(out, z, n) implies ((z == e.zone && n == e.node)
            || remote_has(s, z, n)) by {
            let j = remote_idx(out, z, n);
            lemma_remote_idx(out, z, n);
            if j < l {
                assert(s[j].zone == z && s[j].node == n);
            }
        }
        assert forall|z: u32, n: u32| (z == e.zone && n == e.node) || remote_has(s, z, n)
            implies remote_has(out, z, n) by {
            if z == e.zone && n == e.node {
                assert(out[l].zone == z && out[l].node == n);
            } else {
                let j = remote_idx(s, z, n);
                lemma_remote_idx(s, z, n);
                assert(out[j].zone == z && out[j].node == n);
            }
        }
        lemma_remote_at_unique(out, e.zone, e.node, l);
        assert forall|z: u32, n: u32| !(z == e.zone && n == e.node) && remote_has(s, z, n)
            implies remote_at(out, z, n) == remote_at(s, z, n) by {
            let j = remote_idx(s, z, n);
            lemma_remote_idx(s, z, n);
            assert(out[j].zone == z && out[j].node == n);
            lemma_remote_at_unique(out, z, n, j);
            lemma_remote_at_unique(s, z, n, j);
        }
    }
}

pub proof fn lemma_remove_remote(s: Seq<RemoteEntry>, zone: u32, node: u32)
    requires
        unique_remotes(s),
    ensures
        unique_remotes(remove_remote(s, zone, node)),
        !remote_has(remove_remote(s, zone, node), zone, node),
        forall|z: u32, n: u32|
            remote_has(remove_remote(s, zone, node), z, n) <==> (remote_has(s, z, n) && !(z == zone
                && n == node)),
        forall|z: u32, n: u32|
            remote_has(remove_remote(s, zone, node), z, n) ==> remote_at(
                remove_remote(s, zone, node),
                z,
                n,
            ) == remote_at(s, z, n),
    decreases s.len(),
{
    let out = remove_remote(s, zone, node);
    if s.len() == 0 {
    } else {
        let pre = s.drop_last();
        let last = s.last();
        lemma_remove_remote(pre, zone, node);
        let outp = remove_remote(pre, zone, node);
        assert forall|z: u32, n: u32| remote_has(pre, z, n) implies remote_has(s, z, n)
            && remote_at(s, z, n) == remote_at(pre, z, n) by {
            let j = remote_idx(pre, z, n);
            lemma_remote_idx(pre, z, n);
            assert(s[j].zone == z && s[j].node == n);
            lemma_remote_at_unique(pre, z, n, j);
            lemma_remote_at_unique(s, z, n, j);
        }
        assert forall|z: u32, n: u32| remote_has(s, z, n) && !(z == last.zone && n == last.node)
            implies remote_has(pre, z, n) by {
            let j = remote_idx(s, z, n);
            lemma_remote_idx(s, z, n);
            assert(j < s.len() - 1);
            assert(pre[j].zone == z && pre[j].node == n);
        }
        if last.zone == zone && last.node == node {
            assert(out == outp);
            assert forall|z: u32, n: u32| remote_has(out, z, n) implies (remote_has(s, z, n) && !(z
                == zone && n == node) && remote_at(out, z, n) == remote_at(s, z, n)) by {
                assert(remote_has(outp, z, n));
                assert(remote_has(pre, z, n) && !(z == zone && n == node));
            }
            assert forall|z: u32, n: u32| remote_has(s, z, n) && !(z == zone && n == node)
                implies remote_has(out, z, n) by {
                assert(remote_has(pre, z, n));
                assert(remote_has(outp, z, n));
            }
        } else {
            assert(out == outp.push(last));
            assert(unique_remotes(out)) by {
                assert forall|i: int, j: int| 0 <= i < j < out.len() implies !(out[i].zone
                    == out[j].zone && out[i].node == out[j].node) by {
                    if j < outp.len() {
                    } else {
                        assert(out[j] == last);
                        assert(outp[i] == out[i]);
                        assert(remote_has(outp, out[i].zone, out[i].node));
                        assert(remote_has(pre, out[i].zone, out[i].node));
                        let k = remote_idx(pre, out[i].zone, out[i].node);
                        lemma_remote_idx(pre, out[i].zone, out[i].node);
                        assert(s[k].zone == out[i].zone && s[k].node == out[i].node && k < s.len()
                            - 1);
                    }
                }
            }
            assert forall|z: u32, n: u32| remote_has(out, z, n) implies (remote_has(s, z, n) && !(z
                == zone && n == node) && remote_at(out, z, n) == remote_at(s, z, n)) by {
                let j = remote_idx(out, z, n);
                lemma_remote_idx(out, z, n);
                if j < outp.len() {
                    assert(outp[j].zone == z && outp[j].node == n);
                    assert(remote_has(outp, z, n));
                    lemma_remote_at_unique(out, z, n, j);
                    lemma_remote_at_unique(outp, z, n, j);
                } else {
                    assert(out[j] == last);
                    assert(s[s.len() - 1].zone == z && s[s.len() - 1].node == n);
                    lemma_remote_at_unique(s, z, n, s.len() - 1);
                    lemma_remote_at_unique(out, z, n, j);
                }
            }
            assert forall|z: u32, n: u32| remote_has(s, z, n) && !(z == zone && n == node)
                implies remote_has(out, z, n) by {
                if z == last.zone && n == last.node {
                    assert(out[outp.len() as int].zone == z && out[outp.len() as int].node == n);
                } else {
                    assert(remote_has(pre, z, n));
                    assert(remote_has(outp, z, n));
                    let k = remote_idx(outp, z, n);
                    lemma_remote_idx(outp, z, n);
                    assert(out[k].zone == z && out[k].node == n);
                }
            }
        }
    }
}

pub proof fn lemma_sweep_remotes(s: Seq<RemoteEntry>, now: u64)
    requires
        unique_remotes(s),
    ensures
        unique_remotes(sweep_remotes(s, now)),
        forall|z: u32, n: u32|
            remote_has(sweep_remotes(s, now), z, n) <==> (remote_has(s, z, n) && remote_live(
                remote_at(s, z, n),
                now,
            )),
        forall|z: u32, n: u32|
            remote_has(sweep_remotes(s, now), z, n) ==> remote_at(sweep_remotes(s, now), z, n)
                == remote_at(s, z, n),
    decreases s.len(),
{
    let out = sweep_remotes(s, now);
    if s.len() == 0 {
    } else {
        let pre = s.drop_last();
        let last = s.last();
        lemma_sweep_remotes(pre, now);
        let outp = sweep_remotes(pre, now);
        assert forall|z: u32, n: u32| remote_has(pre, z, n) implies remote_has(s, z, n)
            && remote_at(s, z, n) == remote_at(pre, z, n) by {
            let j = remote_idx(pre, z, n);
            lemma_remote_idx(pre, z, n);
            assert(s[j].zone == z && s[j].node == n);
            lemma_remote_at_unique(pre, z, n, j);
            lemma_remote_at_unique(s, z, n, j);
        }
        assert forall|z: u32, n: u32| remote_has(s, z, n) && !(z == last.zone && n == last.node)
            implies remote_has(pre, z, n) by {
            let j = remote_idx(s, z, n);
            lemma_remote_idx(s, z, n);
            assert(j < s.len() - 1);
            assert(pre[j].zone == z && pre[j].node == n);
        }
        if remote_live(last, now) {
            assert(out == outp.push(last));
            assert(unique_remotes(out)) by {
                assert forall|i: int, j: int| 0 <= i < j < out.len() implies !(out[i].zone
                    == out[j].zone && out[i].node == out[j].node) by {
                    if j < outp.len() {
                    } else {
                        assert(out[j] == last);
                        assert(outp[i] == out[i]);
                        assert(remote_has(outp, out[i].zone, out[i].node));
                        assert(remote_has(pre, out[i].zone, out[i].node));
                        let k = remote_idx(pre, out[i].zone, out[i].node);
                        lemma_remote_idx(pre, out[i].zone, out[i].node);
                        assert(s[k].zone == out[i].zone && s[k].node == out[i].node && k < s.len()
                            - 1);
                    }
                }
            }
            assert forall|z: u32, n: u32| remote_has(out, z, n) implies (remote_has(s, z, n)
                && remote_live(remote_at(s, z, n), now) && remote_at(out, z, n) == remote_at(
                s,
                z,
                n,
            )) by {
                let j = remote_idx(out, z, n);
                lemma_remote_idx(out, z, n);
                if j < outp.len() {
                    assert(outp[j].zone == z && outp[j].node == n);
                    assert(remote_has(outp, z, n));
                    assert(!(z == last.zone && n == last.node)) by {
                        assert(remote_has(pre, z, n));
                        let k = remote_idx(pre, z, n);
                        lemma_remote_idx(pre, z, n);
                        assert(s[k].zone == z && s[k].node == n && k < s.len() - 1);
                    }
                    lemma_remote_at_unique(out, z, n, j);
                    lemma_remote_at_unique(outp, z, n, j);
                } else {
                    assert(out[j] == last);
                    assert(s[s.len() - 1].zone == z && s[s.len() - 1].node == n);
                    lemma_remote_at_unique(s, z, n, s.len() - 1);
                    lemma_remote_at_unique(out, z, n, j);
                }
            }
            assert forall|z: u32, n: u32| remote_has(s, z, n) && remote_live(
                remote_at(s, z, n),
                now,
            ) implies remote_has(out, z, n) by {
                if z == last.zone && n == last.node {
                    assert(out[outp.len() as int].zone == z && out[outp.len() as int].node == n);
                } else {
                    assert(remote_has(pre, z, n));
                    assert(remote_has(outp, z, n));
                    let k = remote_idx(outp, z, n);
                    lemma_remote_idx(outp, z, n);
                    assert(out[k].zone == z && out[k].node == n);
                }
            }
        } else {
            assert(out == outp);
            assert forall|z: u32, n: u32| remote_has(s, z, n) && remote_live(
                remote_at(s, z, n),
                now,
            ) implies remote_has(out, z, n) by {
                assert(!(z == last.zone && n == last.node)) by {
                    if z == last.zone && n == last.node {
                        lemma_remote_at_unique(s, z, n, s.len() - 1);
                    }
                }
                assert(remote_has(pre, z, n));
                assert(remote_has(outp, z, n));
            }
            assert forall|z: u32, n: u32| remote_has(out, z, n) implies (remote_has(s, z, n)
                && remote_live(remote_at(s, z, n), now) && remote_at(out, z, n) == remote_at(
                s,
                z,
                n,
            )) by {
                assert(remote_has(outp, z, n));
                assert(remote_has(pre, z, n) && remote_live(remote_at(pre, z, n), now));
            }
        }
    }
}

// ---------------------------------------------------------------------
// Local entries: population-wide aggregates.
// ---------------------------------------------------------------------

/// Total session count across a local population.
pub open spec fn sum_live(s: Seq<LocalEntry>) -> int
    decreases s.len(),
{
    if s.len() == 0 {
        0
    } else {
        sum_live(s.drop_last()) + s.last().stats.live as int
    }
}

/// Total session capacity across a local population.
pub open spec fn sum_max(s: Seq<LocalEntry>) -> int
    decreases s.len(),
{
    if s.len() == 0 {
        0
    } else {
        sum_max(s.drop_last()) + s.last().stats.max as int
    }
}

/// Whether any node of the population is accepting sessions.
pub open spec fn any_active(s: Seq<LocalEntry>) -> bool {
    exists|i: int| 0 <= i < s.len() && s[i].stats.active
}

// ---------------------------------------------------------------------
// Normalized scores: an entry only ever exists with a 0-100 usage score.
// ---------------------------------------------------------------------

pub open spec fn locals_bounded(s: Seq<LocalEntry>) -> bool {
    forall|i: int| 0 <= i < s.len() ==> s[i].usage <= 100
}

pub open spec fn remotes_bounded(s: Seq<RemoteEntry>) -> bool {
    forall|i: int| 0 <= i < s.len() ==> s[i].usage <= 100
}

/// A transformation that only keeps (some of) the looked-up entries of its
/// input keeps every usage score normalized.
pub proof fn lemma_locals_bounded_transfer(s: Seq<LocalEntry>, out: Seq<LocalEntry>)
    requires
        locals_bounded(s),
        unique_locals(out),
        forall|n: u32| local_has(out, n) ==> local_has(s, n) && local_at(out, n) == local_at(s, n),
    ensures
        locals_bounded(out),
{
    assert forall|j: int| 0 <= j < out.len() implies out[j].usage <= 100 by {
        let n = out[j].node;
        assert(local_has(out, n));
        lemma_local_at_unique(out, n, j);
        lemma_local_idx(s, n);
    }
}

pub proof fn lemma_remotes_bounded_transfer(s: Seq<RemoteEntry>, out: Seq<RemoteEntry>)
    requires
        remotes_bounded(s),
        unique_remotes(out),
        forall|z: u32, n: u32|
            remote_has(out, z, n) ==> remote_has(s, z, n) && remote_at(out, z, n) == remote_at(
                s,
                z,
                n,
            ),
    ensures
        remotes_bounded(out),
{
    assert forall|j: int| 0 <= j < out.len() implies out[j].usage <= 100 by {
        let z = out[j].zone;
        let n = out[j].node;
        assert(remote_has(out, z, n));
        lemma_remote_at_unique(out, z, n, j);
        lemma_remote_idx(s, z, n);
    }
}

pub proof fn lemma_sums_nonneg(s: Seq<LocalEntry>)
    ensures
        sum_live(s) >= 0,
        sum_max(s) >= 0,
    decreases s.len(),
{
    if s.len() > 0 {
        lemma_sums_nonneg(s.drop_last());
    }
}

} // verus!
