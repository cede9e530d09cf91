//! The usage evaluator: pure functions mapping a load report plus the
//! configured thresholds to a normalized 0-100 score, or "inadmissible".

use vstd::prelude::*;

use crate::store::PingEvent;
use crate::types::ServiceStats;

verus! {

/// Thresholds are an open upper bound: equality already disqualifies.
pub open spec fn below_thresholds(
    cpu: u8,
    memory: u8,
    disk: u8,
    max_cpu: u8,
    max_memory: u8,
    max_disk: u8,
) -> bool {
    cpu < max_cpu && memory < max_memory && disk < max_disk
}

/// Baseline admission: a report past any resource ceiling is inadmissible;
/// otherwise its cpu percentage is the baseline score.
pub open spec fn spec_node_usage(
    ping: PingEvent,
    max_cpu: u8,
    max_memory: u8,
    max_disk: u8,
) -> Option<u8> {
    if below_thresholds(ping.cpu, ping.memory, ping.disk, max_cpu, max_memory, max_disk) {
        Some(ping.cpu)
    } else {
        None
    }
}

/// Session-fill ratio of a service as a saturation percentage.  A capacity
/// of zero counts as fully saturated rather than as undefined arithmetic,
/// and a count past capacity saturates at 100.
pub open spec fn spec_fill(stats: ServiceStats) -> int {
    if stats.max == 0 {
        100
    } else if (stats.live as int) * 100 / (stats.max as int) > 100 {
        100
    } else {
        (stats.live as int) * 100 / (stats.max as int)
    }
}

/// Combined usage score: the binding constraint is whichever of cpu or
/// session-fill saturation is worse, capped at 100 so that every stored
/// score stays a normalized percentage.
pub open spec fn spec_score(cpu: u8, stats: ServiceStats) -> int {
    let fill = spec_fill(stats);
    let base = if cpu as int > fill {
        cpu as int
    } else {
        fill
    };
    if base > 100 {
        100
    } else {
        base
    }
}

/// Full admission rule for one service kind: the baseline gate must pass,
/// the stats must be present, and the service must be accepting.
pub open spec fn spec_service_usage(
    ping: PingEvent,
    stats: Option<ServiceStats>,
    max_cpu: u8,
    max_memory: u8,
    max_disk: u8,
) -> Option<u8> {
    if !below_thresholds(ping.cpu, ping.memory, ping.disk, max_cpu, max_memory, max_disk) {
        None
    } else {
        match stats {
            None => None,
            Some(st) => if st.active {
                Some(spec_score(ping.cpu, st) as u8)
            } else {
                None
            },
        }
    }
}

/// The usage score is always a normalized percentage.
pub proof fn lemma_score_bounded(cpu: u8, stats: ServiceStats)
    ensures
        0 <= spec_score(cpu, stats) <= 100,
{
}

pub fn node_usage(ping: &PingEvent, max_cpu: u8, max_memory: u8, max_disk: u8) -> (r: Option<
    u8,
>)
    ensures
        r == spec_node_usage(*ping, max_cpu, max_memory, max_disk),
{
    if ping.cpu >= max_cpu {
        return None;
    }
    if ping.memory >= max_memory {
        return None;
    }
    if ping.disk >= max_disk {
        return None;
    }
    Some(ping.cpu)
}

pub fn service_usage(
    ping: &PingEvent,
    stats: Option<ServiceStats>,
    max_cpu: u8,
    max_memory: u8,
    max_disk: u8,
) -> (r: Option<u8>)
    ensures
        r == spec_service_usage(*ping, stats, max_cpu, max_memory, max_disk),
{
    if ping.cpu >= max_cpu || ping.memory >= max_memory || ping.disk >= max_disk {
        return None;
    }
    match stats {
        None => None,
        Some(st) => {
            if !st.active {
                return None;
            }
            let fill_raw: u64 = if st.max == 0 {
                100
            } else {
                (st.live as u64) * 100 / (st.max as u64)
            };
            let fill: u64 = if fill_raw > 100 {
                100
            } else {
                fill_raw
            };
            let base: u64 = if (ping.cpu as u64) > fill {
                ping.cpu as u64
            } else {
                fill
            };
            let score: u64 = if base > 100 {
                100
            } else {
                base
            };
            Some(score as u8)
        },
    }
}

} // verus!
