use media_gateway::{
    GatewayOrigin, GatewayStore, Location, MediaOrigin, Origin, PingEvent, ServiceStats, ZoneId,
};
use media_gateway::ServiceKind;

#[test]
fn local_ping() {
    let mut store = GatewayStore::new(ZoneId(0), Location { lat: 1, lon: 1 }, 60, 80, 90);
    store.on_ping(
        0,
        1,
        PingEvent {
            cpu: 0,
            memory: 0,
            disk: 0,
            origin: Origin::Media(MediaOrigin {}),
            webrtc: Some(ServiceStats { live: 100, max: 1000, active: true }),
            rtpengine: None,
        },
    );

    assert_eq!(store.best_for(ServiceKind::Webrtc, None), Some(1));

    assert_eq!(store.pop_output(), None);
    store.on_tick(100);
    assert_eq!(
        store.pop_output(),
        Some(PingEvent {
            cpu: 0,
            memory: 0,
            disk: 0,
            origin: Origin::Gateway(GatewayOrigin {
                location: Some(Location { lat: 1, lon: 1 }),
                zone: 0,
            }),
            webrtc: Some(ServiceStats { live: 100, max: 1000, active: true }),
            rtpengine: None,
        })
    );
}

#[test]
fn local_reject_max_usage() {
    let mut store = GatewayStore::new(ZoneId(0), Location { lat: 1, lon: 1 }, 60, 80, 90);
    store.on_ping(
        0,
        1,
        PingEvent {
            cpu: 10,
            memory: 80,
            disk: 20,
            origin: Origin::Media(MediaOrigin {}),
            webrtc: Some(ServiceStats { live: 100, max: 1000, active: true }),
            rtpengine: None,
        },
    );

    store.on_ping(
        0,
        2,
        PingEvent {
            cpu: 10,
            memory: 20,
            disk: 90,
            origin: Origin::Media(MediaOrigin {}),
            webrtc: Some(ServiceStats { live: 100, max: 1000, active: true }),
            rtpengine: None,
        },
    );

    store.on_ping(
        0,
        3,
        PingEvent {
            cpu: 60,
            memory: 80,
            disk: 20,
            origin: Origin::Media(MediaOrigin {}),
            webrtc: Some(ServiceStats { live: 100, max: 1000, active: true }),
            rtpengine: None,
        },
    );

    assert_eq!(store.best_for(ServiceKind::Webrtc, None), None);
}

#[test]
fn remote_ping() {
    let mut store = GatewayStore::new(ZoneId(0), Location { lat: 1, lon: 1 }, 60, 80, 90);
    store.on_ping(
        0,
        257,
        PingEvent {
            cpu: 0,
            memory: 0,
            disk: 0,
            origin: Origin::Gateway(GatewayOrigin {
                location: Some(Location { lat: 2, lon: 2 }),
                zone: 256,
            }),
            webrtc: Some(ServiceStats { live: 100, max: 1000, active: true }),
            rtpengine: None,
        },
    );

    assert_eq!(store.best_for(ServiceKind::Webrtc, None), Some(257));

    assert_eq!(store.pop_output(), None);
    store.on_tick(100);
    assert_eq!(
        store.pop_output(),
        Some(PingEvent {
            cpu: 0,
            memory: 0,
            disk: 0,
            origin: Origin::Gateway(GatewayOrigin {
                location: Some(Location { lat: 1, lon: 1 }),
                zone: 0,
            }),
            webrtc: None,
            rtpengine: None,
        })
    );
}

#[test]
fn clear_timeout() {
    let mut store = GatewayStore::new(ZoneId(0), Location { lat: 1, lon: 1 }, 60, 80, 90);
    store.on_ping(
        0,
        1,
        PingEvent {
            cpu: 10,
            memory: 20,
            disk: 30,
            origin: Origin::Media(MediaOrigin {}),
            webrtc: Some(ServiceStats { live: 100, max: 1000, active: true }),
            rtpengine: None,
        },
    );

    store.on_ping(
        0,
        257,
        PingEvent {
            cpu: 10,
            memory: 20,
            disk: 30,
            origin: Origin::Gateway(GatewayOrigin {
                location: Some(Location { lat: 2, lon: 2 }),
                zone: 1,
            }),
            webrtc: Some(ServiceStats { live: 100, max: 1000, active: true }),
            rtpengine: None,
        },
    );

    // Verify nodes are registered
    assert_eq!(store.best_for(ServiceKind::Webrtc, None), Some(1));

    // Trigger timeout
    store.on_tick(5000); // PING_TIMEOUT is 5000

    // Verify nodes are cleared
    assert_eq!(store.best_for(ServiceKind::Webrtc, None), None);
}

#[test]
fn clear_timeout_rtpengine() {
    let mut store = GatewayStore::new(ZoneId(0), Location { lat: 1, lon: 1 }, 60, 80, 90);
    store.on_ping(
        0,
        1,
        PingEvent {
            cpu: 10,
            memory: 20,
            disk: 30,
            origin: Origin::Media(MediaOrigin {}),
            webrtc: None,
            rtpengine: Some(ServiceStats { live: 100, max: 1000, active: true }),
        },
    );

    store.on_ping(
        0,
        257,
        PingEvent {
            cpu: 10,
            memory: 20,
            disk: 30,
            origin: Origin::Gateway(GatewayOrigin {
                location: Some(Location { lat: 2, lon: 2 }),
                zone: 1,
            }),
            webrtc: None,
            rtpengine: Some(ServiceStats { live: 100, max: 1000, active: true }),
        },
    );

    // Verify nodes are registered
    assert_eq!(store.best_for(ServiceKind::RtpEngine, None), Some(1));

    // Trigger timeout
    store.on_tick(5000); // PING_TIMEOUT is 5000

    // Verify nodes are cleared
    assert_eq!(store.best_for(ServiceKind::RtpEngine, None), None);
}

fn media_ping(cpu: u8, memory: u8, disk: u8, webrtc: Option<ServiceStats>) -> PingEvent {
    PingEvent {
        cpu,
        memory,
        disk,
        origin: Origin::Media(MediaOrigin {}),
        webrtc,
        rtpengine: None,
    }
}

fn gateway_ping(
    zone: u32,
    location: Option<Location>,
    webrtc: Option<ServiceStats>,
    rtpengine: Option<ServiceStats>,
) -> PingEvent {
    PingEvent {
        cpu: 0,
        memory: 0,
        disk: 0,
        origin: Origin::Gateway(GatewayOrigin { zone, location }),
        webrtc,
        rtpengine,
    }
}

fn ok_stats() -> ServiceStats {
    ServiceStats { live: 100, max: 1000, active: true }
}

#[test]
fn own_zone_report_ignored() {
    let mut store = GatewayStore::new(ZoneId(7), Location { lat: 1, lon: 1 }, 60, 80, 90);
    store.on_ping(0, 42, gateway_ping(7, Some(Location { lat: 5, lon: 5 }), Some(ok_stats()), Some(ok_stats())));
    assert_eq!(store.best_for(ServiceKind::Webrtc, None), None);
    assert_eq!(store.best_for(ServiceKind::RtpEngine, None), None);
    assert_eq!(store.dest_for(ServiceKind::Webrtc, 42), None);
}

#[test]
fn pop_output_drains_once() {
    let mut store = GatewayStore::new(ZoneId(0), Location { lat: 1, lon: 1 }, 60, 80, 90);
    store.on_tick(100);
    assert!(store.pop_output().is_some());
    assert_eq!(store.pop_output(), None);
    store.on_tick(200);
    assert!(store.pop_output().is_some());
}

#[test]
fn report_reflects_latest_metrics() {
    let mut store = GatewayStore::new(ZoneId(0), Location { lat: 1, lon: 1 }, 60, 80, 90);
    store.on_node_metrics(0, media_gateway::NodeMetrics { cpu: 55, memory: 44, disk: 33 });
    store.on_node_metrics(1, media_gateway::NodeMetrics { cpu: 12, memory: 34, disk: 56 });
    store.on_tick(100);
    let report = store.pop_output().unwrap();
    assert_eq!(report.cpu, 12);
    assert_eq!(report.memory, 34);
    assert_eq!(report.disk, 56);
    assert_eq!(
        report.origin,
        Origin::Gateway(GatewayOrigin { zone: 0, location: Some(Location { lat: 1, lon: 1 }) })
    );
}

#[test]
fn undrained_report_overwritten() {
    let mut store = GatewayStore::new(ZoneId(0), Location { lat: 1, lon: 1 }, 60, 80, 90);
    store.on_node_metrics(0, media_gateway::NodeMetrics { cpu: 11, memory: 0, disk: 0 });
    store.on_tick(100);
    store.on_node_metrics(1, media_gateway::NodeMetrics { cpu: 22, memory: 0, disk: 0 });
    store.on_tick(200);
    let report = store.pop_output().unwrap();
    assert_eq!(report.cpu, 22);
    assert_eq!(store.pop_output(), None);
}

#[test]
fn local_tie_breaks_by_lowest_node() {
    let mut store = GatewayStore::new(ZoneId(0), Location { lat: 1, lon: 1 }, 60, 80, 90);
    store.on_ping(0, 5, media_ping(10, 0, 0, Some(ok_stats())));
    store.on_ping(0, 3, media_ping(10, 0, 0, Some(ok_stats())));
    assert_eq!(store.best_for(ServiceKind::Webrtc, None), Some(3));
}

#[test]
fn local_lowest_usage_wins() {
    let mut store = GatewayStore::new(ZoneId(0), Location { lat: 1, lon: 1 }, 60, 80, 90);
    store.on_ping(0, 1, media_ping(40, 0, 0, Some(ok_stats())));
    store.on_ping(0, 2, media_ping(20, 0, 0, Some(ok_stats())));
    assert_eq!(store.best_for(ServiceKind::Webrtc, None), Some(2));
}

#[test]
fn local_beats_remote_regardless_of_score() {
    let mut store = GatewayStore::new(ZoneId(0), Location { lat: 1, lon: 1 }, 60, 80, 90);
    // A heavily loaded local node and an idle remote gateway.
    store.on_ping(0, 9, media_ping(59, 0, 0, Some(ok_stats())));
    store.on_ping(0, 257, gateway_ping(1, Some(Location { lat: 2, lon: 2 }), Some(ok_stats()), None));
    assert_eq!(store.best_for(ServiceKind::Webrtc, None), Some(9));
}

#[test]
fn remote_nearest_wins_with_location() {
    let mut store = GatewayStore::new(ZoneId(0), Location { lat: 1, lon: 1 }, 60, 80, 90);
    store.on_ping(0, 100, gateway_ping(1, Some(Location { lat: 10, lon: 10 }), Some(ok_stats()), None));
    store.on_ping(0, 200, gateway_ping(2, Some(Location { lat: 0, lon: 0 }), Some(ok_stats()), None));
    assert_eq!(
        store.best_for(ServiceKind::Webrtc, Some(Location { lat: 1, lon: 1 })),
        Some(200)
    );
    // Without a location the tie on usage breaks by lowest zone.
    assert_eq!(store.best_for(ServiceKind::Webrtc, None), Some(100));
}

#[test]
fn remote_distance_tie_breaks_by_usage() {
    let mut store = GatewayStore::new(ZoneId(0), Location { lat: 1, lon: 1 }, 60, 80, 90);
    // Equidistant from (0,0): usages 30 and 10.
    let mut busy = media_ping(30, 0, 0, Some(ok_stats()));
    busy.origin = Origin::Gateway(GatewayOrigin { zone: 1, location: Some(Location { lat: 3, lon: 4 }) });
    store.on_ping(0, 100, busy);
    let mut idle = media_ping(10, 0, 0, Some(ok_stats()));
    idle.origin = Origin::Gateway(GatewayOrigin { zone: 2, location: Some(Location { lat: 4, lon: 3 }) });
    store.on_ping(0, 200, idle);
    assert_eq!(
        store.best_for(ServiceKind::Webrtc, Some(Location { lat: 0, lon: 0 })),
        Some(200)
    );
}

#[test]
fn overloaded_refresh_removes_node() {
    let mut store = GatewayStore::new(ZoneId(0), Location { lat: 1, lon: 1 }, 60, 80, 90);
    store.on_ping(0, 1, media_ping(10, 10, 10, Some(ok_stats())));
    assert_eq!(store.best_for(ServiceKind::Webrtc, None), Some(1));
    // The refresh trips the memory threshold: the node must disappear.
    store.on_ping(100, 1, media_ping(10, 80, 10, Some(ok_stats())));
    assert_eq!(store.best_for(ServiceKind::Webrtc, None), None);
    assert_eq!(store.dest_for(ServiceKind::Webrtc, 1), None);
}

#[test]
fn dest_for_tracks_liveness() {
    let mut store = GatewayStore::new(ZoneId(0), Location { lat: 1, lon: 1 }, 60, 80, 90);
    store.on_ping(0, 1, media_ping(10, 10, 10, Some(ok_stats())));
    store.on_ping(0, 257, gateway_ping(1, Some(Location { lat: 2, lon: 2 }), Some(ok_stats()), None));
    assert_eq!(store.dest_for(ServiceKind::Webrtc, 1), Some(1));
    assert_eq!(store.dest_for(ServiceKind::Webrtc, 257), Some(257));
    assert_eq!(store.dest_for(ServiceKind::Webrtc, 2), None);
    assert_eq!(store.dest_for(ServiceKind::RtpEngine, 1), None);
    store.on_tick(5000);
    assert_eq!(store.dest_for(ServiceKind::Webrtc, 1), None);
    assert_eq!(store.dest_for(ServiceKind::Webrtc, 257), None);
}

#[test]
fn gateway_rejection_clears_both_kinds() {
    let mut store = GatewayStore::new(ZoneId(0), Location { lat: 1, lon: 1 }, 60, 80, 90);
    store.on_ping(0, 257, gateway_ping(1, Some(Location { lat: 2, lon: 2 }), Some(ok_stats()), Some(ok_stats())));
    assert_eq!(store.best_for(ServiceKind::Webrtc, None), Some(257));
    assert_eq!(store.best_for(ServiceKind::RtpEngine, None), Some(257));
    // A refresh without any webrtc summary: the webrtc entry must go, the
    // rtpengine entry is re-admitted with the fresh report.
    store.on_ping(100, 257, gateway_ping(1, Some(Location { lat: 2, lon: 2 }), None, Some(ok_stats())));
    assert_eq!(store.best_for(ServiceKind::Webrtc, None), None);
    assert_eq!(store.best_for(ServiceKind::RtpEngine, None), Some(257));
}

#[test]
fn gateway_without_location_rejected() {
    let mut store = GatewayStore::new(ZoneId(0), Location { lat: 1, lon: 1 }, 60, 80, 90);
    store.on_ping(0, 257, gateway_ping(1, None, Some(ok_stats()), Some(ok_stats())));
    assert_eq!(store.best_for(ServiceKind::Webrtc, None), None);
    assert_eq!(store.best_for(ServiceKind::RtpEngine, None), None);
}

#[test]
fn refresh_keeps_entry_alive() {
    let mut store = GatewayStore::new(ZoneId(0), Location { lat: 1, lon: 1 }, 60, 80, 90);
    store.on_ping(0, 1, media_ping(10, 10, 10, Some(ok_stats())));
    store.on_ping(4000, 1, media_ping(10, 10, 10, Some(ok_stats())));
    store.on_tick(5000);
    // Refreshed at 4000, so still alive at 5000.
    assert_eq!(store.best_for(ServiceKind::Webrtc, None), Some(1));
    store.on_tick(9000);
    assert_eq!(store.best_for(ServiceKind::Webrtc, None), None);
}

#[test]
fn report_sums_local_population() {
    let mut store = GatewayStore::new(ZoneId(0), Location { lat: 1, lon: 1 }, 60, 80, 90);
    store.on_ping(0, 1, media_ping(0, 0, 0, Some(ServiceStats { live: 10, max: 100, active: true })));
    store.on_ping(0, 2, media_ping(0, 0, 0, Some(ServiceStats { live: 20, max: 300, active: true })));
    store.on_tick(100);
    let report = store.pop_output().unwrap();
    assert_eq!(report.webrtc, Some(ServiceStats { live: 30, max: 400, active: true }));
    assert_eq!(store.local_stats(), Some(ServiceStats { live: 30, max: 400, active: true }));
}
