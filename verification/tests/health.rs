//! Health state.

use hikvision_unifi_fire_bridge::health::{Health, HealthSnapshot, MAX_UNMATCHED_TYPES};

fn healthy_with_probe() -> HealthSnapshot {
    HealthSnapshot {
        camera_connected: true,
        probe_enabled: true,
        probe_ok: true,
        ..HealthSnapshot::default()
    }
}

#[test]
fn ready_requires_camera_and_probe() {
    assert!(healthy_with_probe().ready());
    assert!(!HealthSnapshot {
        camera_connected: false,
        ..healthy_with_probe()
    }
    .ready());
    assert!(!HealthSnapshot {
        probe_ok: false,
        ..healthy_with_probe()
    }
    .ready());
}

#[test]
fn probe_disabled_does_not_block_readiness() {
    let s = HealthSnapshot {
        camera_connected: true,
        probe_enabled: false,
        probe_ok: false,
        ..HealthSnapshot::default()
    };
    assert!(s.ready());
}

#[test]
fn startup_is_unready_until_first_probe_success() {
    let health = Health::new("0.1.0", 5, true);
    let s = health.snapshot();
    assert!(
        !s.ready(),
        "must not report ready before the path is verified"
    );
}

#[test]
fn failed_delivery_latches_unready_until_a_success() {
    let mut health = Health::new("0.1.0", 5, false);
    health.camera_connected();
    health.webhook_failure("delivery failed".into());
    assert!(!health.snapshot().ready());
    health.webhook_success(7);
    assert!(health.snapshot().ready());
}

#[test]
fn counters_accumulate() {
    let mut health = Health::new("0.1.0", 5, false);
    health.camera_disconnected(Some("boom".into()));
    health.camera_disconnected(None);
    health.malformed_frame();
    health.dropped_event();
    health.alert_sent(9);
    let s = health.snapshot();
    assert_eq!(s.camera_reconnects, 2);
    assert_eq!(s.malformed_frames, 1);
    assert_eq!(s.dropped_events, 1);
    assert_eq!(s.alerts_sent, 1);
    assert_eq!(s.camera_error.as_deref(), Some("boom"));
}

#[test]
fn a_new_bridge_has_done_nothing() {
    let health = Health::new("0.1.0", 5, true);
    let s = health.snapshot();
    assert_eq!(s.version, "0.1.0");
    assert_eq!(s.started_unix, 5);
    assert!(s.probe_enabled && !s.probe_ok && !s.camera_connected);
    assert_eq!(
        (s.camera_reconnects, s.malformed_frames, s.dropped_events, s.alerts_sent, s.webhook_failures),
        (0, 0, 0, 0, 0)
    );
    assert_eq!(s.webhook_error, None);
    assert!(s.unmatched_event_types.is_empty());
}

#[test]
fn a_probe_and_a_camera_make_the_bridge_ready() {
    let mut health = Health::new("0.1.0", 5, true);
    health.camera_connected();
    assert_eq!(health.snapshot().readiness_code(), 503);
    health.probe_result(Ok(()), 11);
    assert_eq!(health.snapshot().readiness_code(), 200);
    assert_eq!(health.snapshot().probe_last_success_unix, Some(11));
    health.probe_result(Err("down".into()), 12);
    assert!(!health.snapshot().ready());
    assert_eq!(health.snapshot().probe_error.as_deref(), Some("down"));
    assert_eq!(health.snapshot().probe_last_success_unix, Some(11));
    health.probe_result(Ok(()), 13);
    assert!(health.snapshot().ready() && health.snapshot().probe_error.is_none());
}

#[test]
fn nothing_but_a_delivery_clears_the_latch() {
    let mut health = Health::new("0.1.0", 5, true);
    health.delivery_finished(Err("Protect returned 500".into()), 1);
    health.camera_connected();
    health.camera_message(2);
    health.probe_result(Ok(()), 3);
    health.alert_sent(4);
    assert!(!health.snapshot().ready());
    assert_eq!(health.snapshot().webhook_error.as_deref(), Some("Protect returned 500"));
    health.delivery_finished(Ok(()), 5);
    assert!(health.snapshot().ready());
    assert_eq!(health.snapshot().webhook_failures, 1);
    assert_eq!(health.snapshot().webhook_last_success_unix, Some(5));
    assert_eq!(health.snapshot().camera_last_message_unix, Some(2));
}

#[test]
fn an_alert_that_cannot_be_queued_is_a_failed_delivery() {
    let mut health = Health::new("0.1.0", 5, false);
    health.camera_connected();
    health.alert_queued(true, 8);
    assert_eq!(health.snapshot().alerts_sent, 1);
    assert_eq!(health.snapshot().last_alert_unix, Some(8));
    assert!(health.snapshot().ready());
    health.alert_queued(false, 9);
    let s = health.snapshot();
    assert!(!s.ready());
    assert_eq!((s.alerts_sent, s.dropped_events, s.webhook_failures), (1, 1, 1));
    assert_eq!(
        s.webhook_error.as_deref(),
        Some("alarm queue unavailable; alert not enqueued")
    );
}

#[test]
fn an_unmatched_type_is_news_once() {
    let mut health = Health::new("0.1.0", 5, false);
    assert!(health.unmatched_event_type("videoloss"));
    assert!(health.unmatched_event_type("VideoLoss"));
    assert!(!health.unmatched_event_type("videoloss"));
    assert_eq!(
        health.snapshot().unmatched_event_types,
        vec!["videoloss".to_owned(), "VideoLoss".to_owned()]
    );
}

#[test]
fn a_reconnect_clears_the_camera_error() {
    let mut health = Health::new("0.1.0", 5, false);
    health.camera_disconnected(Some("refused".into()));
    health.camera_disconnected(None);
    assert_eq!(health.snapshot().camera_error.as_deref(), Some("refused"));
    health.camera_connected();
    assert_eq!(health.snapshot().camera_error, None);
    assert!(health.snapshot().camera_connected);
}

#[test]
fn unmatched_types_are_bounded() {
    let mut health = Health::new("0.1.0", 5, false);
    for i in 0..MAX_UNMATCHED_TYPES {
        assert!(health.unmatched_event_type(&format!("type-{i}")));
    }
    assert_eq!(health.snapshot().unmatched_event_types.len(), 64);
    assert_eq!(health.snapshot().unmatched_event_types_forgotten, 0);
    // A new one is kept and told of all the same; the oldest makes room.
    assert!(health.unmatched_event_type("one more"));
    assert!(!health.unmatched_event_type("one more"));
    assert!(!health.unmatched_event_type("type-1"));
    let s = health.snapshot();
    assert_eq!(s.unmatched_event_types.len(), 64);
    assert_eq!(s.unmatched_event_types[0], "type-1");
    assert_eq!(s.unmatched_event_types[63], "one more");
    assert_eq!(s.unmatched_event_types_forgotten, 1);
    assert!(health.unmatched_event_type("type-0"));
    assert_eq!(health.snapshot().unmatched_event_types_forgotten, 2);
}

#[test]
fn a_full_counter_only_blocks_what_it_counts() {
    let mut health = Health::new("0.1.0", 5, false);
    health.state.webhook_failures = u64::MAX;
    health.state.dropped_events = u64::MAX;
    health.alert_queued(true, 1);
    health.delivery_finished(Ok(()), 2);
    assert_eq!(health.snapshot().alerts_sent, 1);
    health.state.alerts_sent = u64::MAX;
    health.state.webhook_failures = 0;
    health.state.dropped_events = 0;
    health.alert_queued(false, 3);
    assert_eq!(health.snapshot().dropped_events, 1);
}
