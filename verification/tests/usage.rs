use media_gateway::usage::{node_usage, service_usage};
use media_gateway::{MediaOrigin, Origin, PingEvent, ServiceStats};

fn report(cpu: u8, memory: u8, disk: u8) -> PingEvent {
    PingEvent {
        cpu,
        memory,
        disk,
        origin: Origin::Media(MediaOrigin {}),
        webrtc: None,
        rtpengine: None,
    }
}

#[test]
fn node_usage_gates_each_resource() {
    assert_eq!(node_usage(&report(10, 20, 30), 60, 80, 90), Some(10));
    // Equality already disqualifies: the bound is open.
    assert_eq!(node_usage(&report(60, 20, 30), 60, 80, 90), None);
    assert_eq!(node_usage(&report(10, 80, 30), 60, 80, 90), None);
    assert_eq!(node_usage(&report(10, 20, 90), 60, 80, 90), None);
    assert_eq!(node_usage(&report(0, 0, 0), 60, 80, 90), Some(0));
}

#[test]
fn service_usage_picks_binding_constraint() {
    // Fill dominates: 100 * 100 / 1000 = 10 > cpu 0.
    let stats = ServiceStats { live: 100, max: 1000, active: true };
    assert_eq!(service_usage(&report(0, 0, 0), Some(stats), 60, 80, 90), Some(10));
    // Cpu dominates: 50 > fill 10.
    assert_eq!(service_usage(&report(50, 0, 0), Some(stats), 60, 80, 90), Some(50));
    // Exact fill: 50 sessions of 100.
    let half = ServiceStats { live: 50, max: 100, active: true };
    assert_eq!(service_usage(&report(20, 0, 0), Some(half), 60, 80, 90), Some(50));
}

#[test]
fn service_usage_requires_active_stats() {
    let inactive = ServiceStats { live: 0, max: 100, active: false };
    assert_eq!(service_usage(&report(0, 0, 0), Some(inactive), 60, 80, 90), None);
    assert_eq!(service_usage(&report(0, 0, 0), None, 60, 80, 90), None);
}

#[test]
fn service_usage_applies_node_gate_first() {
    let stats = ServiceStats { live: 0, max: 100, active: true };
    assert_eq!(service_usage(&report(60, 0, 0), Some(stats), 60, 80, 90), None);
    assert_eq!(service_usage(&report(0, 80, 0), Some(stats), 60, 80, 90), None);
    assert_eq!(service_usage(&report(0, 0, 90), Some(stats), 60, 80, 90), None);
}

#[test]
fn zero_capacity_counts_as_saturated() {
    // A zero capacity is fully saturated, not a division error.
    let degenerate = ServiceStats { live: 5, max: 0, active: true };
    assert_eq!(service_usage(&report(0, 0, 0), Some(degenerate), 60, 80, 90), Some(100));
}

#[test]
fn overfull_service_saturates_at_hundred() {
    // More sessions than capacity still reads as a normalized score.
    let overfull = ServiceStats { live: 5000, max: 10, active: true };
    assert_eq!(service_usage(&report(0, 0, 0), Some(overfull), 60, 80, 90), Some(100));
}
