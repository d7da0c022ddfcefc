//! The fire tracker.

use hikvision_unifi_fire_bridge::clock::{Duration, Instant};
use hikvision_unifi_fire_bridge::state::{Alert, FireTracker, TrackerConfig};

fn cooldown() -> Duration {
    Duration::from_secs(60)
}

fn realert() -> Duration {
    Duration::from_secs(60)
}

fn ttl() -> Duration {
    Duration::from_secs(300)
}

fn secs(n: u64) -> Duration {
    Duration::from_secs(n)
}

fn start() -> Instant {
    Instant { nanos: 1_000_000_007 }
}

fn tracker() -> FireTracker {
    FireTracker::new(TrackerConfig {
        cooldown: cooldown(),
        realert: Some(realert()),
        active_ttl: ttl(),
    })
}

fn edge_only() -> FireTracker {
    FireTracker::new(TrackerConfig {
        cooldown: cooldown(),
        realert: None,
        active_ttl: ttl(),
    })
}

#[test]
fn first_active_alerts_immediately() {
    let mut t = tracker();
    assert_eq!(t.on_active("1", start()), Some(Alert::NewFire));
}

#[test]
fn repeated_active_within_realert_interval_is_suppressed() {
    let mut t = tracker();
    let t0 = start();
    assert_eq!(t.on_active("1", t0), Some(Alert::NewFire));
    assert_eq!(t.on_active("1", t0.plus(secs(5))), None);
    assert_eq!(t.on_active("1", t0.plus(secs(30))), None);
}

#[test]
fn ongoing_fire_realerts_every_interval() {
    let mut t = tracker();
    let t0 = start();
    assert_eq!(t.on_active("1", t0), Some(Alert::NewFire));
    assert_eq!(
        t.on_active("1", t0.plus(realert())),
        Some(Alert::StillActive),
        "ongoing fire must re-alert after the interval"
    );
    assert_eq!(t.on_active("1", t0.plus(realert()).plus(secs(5))), None);
    assert_eq!(
        t.on_active("1", t0.plus(realert()).plus(realert())),
        Some(Alert::StillActive)
    );
}

#[test]
fn edge_only_mode_never_realerts_while_state_is_fresh() {
    let mut t = edge_only();
    let t0 = start();
    assert_eq!(t.on_active("1", t0), Some(Alert::NewFire));
    // Repeated `active` refreshes that stay within the TTL: never re-alert.
    let mut now = t0;
    for _ in 0..20 {
        now = now.plus(secs(150));
        assert_eq!(t.on_active("1", now), None);
    }
    // But once refreshes STOP for longer than the TTL, the next active is
    // indistinguishable from a new fire and must alert even in edge mode.
    assert_eq!(
        t.on_active("1", now.plus(ttl()).plus(secs(1))),
        Some(Alert::NewFire)
    );
}

#[test]
fn inactive_then_active_after_cooldown_is_a_new_fire() {
    let mut t = edge_only();
    let t0 = start();
    assert_eq!(t.on_active("1", t0), Some(Alert::NewFire));
    t.on_inactive("1");
    assert_eq!(
        t.on_active("1", t0.plus(cooldown())),
        Some(Alert::NewFire),
        "a fresh fire after the cooldown must alert"
    );
}

#[test]
fn inactive_then_active_within_cooldown_is_suppressed_but_recovers() {
    let mut t = tracker();
    let t0 = start();
    assert_eq!(t.on_active("1", t0), Some(Alert::NewFire));
    t.on_inactive("1");
    // New edge 10s later: rate-limited by cooldown, carried as pending.
    assert_eq!(t.on_active("1", t0.plus(secs(10))), None);
    // The pending edge fires as soon as an `active` refresh arrives past
    // the cooldown: a rate-limited edge is delayed, never lost.
    assert_eq!(
        t.on_active("1", t0.plus(cooldown())),
        Some(Alert::NewFire),
        "cooldown suppression must not silence an ongoing fire"
    );
}

#[test]
fn suppressed_edge_is_carried_over_even_in_edge_only_mode() {
    // Edge-only mode, a second fire starts within the cooldown, and the camera
    // keeps refreshing `active` so the state never expires. Without carryover
    // this fire is never alerted.
    let mut t = edge_only();
    let t0 = start();
    assert_eq!(t.on_active("1", t0), Some(Alert::NewFire));
    t.on_inactive("1");
    // Second fire 10s later: suppressed by cooldown -> pending.
    assert_eq!(t.on_active("1", t0.plus(secs(10))), None);
    // Refreshes keep arriving inside the cooldown: still pending.
    assert_eq!(t.on_active("1", t0.plus(secs(30))), None);
    assert_eq!(t.on_active("1", t0.plus(secs(55))), None);
    // First refresh past the cooldown: the pending edge must fire.
    assert_eq!(
        t.on_active("1", t0.plus(cooldown())),
        Some(Alert::NewFire),
        "a rate-limited edge must fire once the cooldown expires"
    );
    // And it fires exactly once.
    assert_eq!(t.on_active("1", t0.plus(cooldown()).plus(secs(5))), None);
}

#[test]
fn reconnect_during_cooldown_cannot_silence_an_ongoing_fire() {
    // Edge-only mode: fire alerts, stream drops 1s later, camera
    // reconnects and keeps reporting `active` (fresh forever, so TTL
    // never expires). The post-reconnect edge is inside the cooldown.
    let mut t = edge_only();
    let t0 = start();
    assert_eq!(t.on_active("1", t0), Some(Alert::NewFire));
    t.on_stream_reset();
    assert_eq!(t.on_active("1", t0.plus(secs(5))), None);
    // Refreshes every 10s keep the state fresh across the cooldown edge.
    let mut now = t0.plus(secs(5));
    let mut alerts = 0;
    for _ in 0..12 {
        now = now.plus(secs(10));
        if t.on_active("1", now).is_some() {
            alerts += 1;
        }
    }
    assert_eq!(
        alerts, 1,
        "the pending post-reconnect edge must fire exactly once after the cooldown"
    );
}

#[test]
fn lost_inactive_cannot_latch_the_alarm_off() {
    // The critical missed-alarm scenario: fire -> stream drop -> fire went
    // inactive unseen -> much later a NEW fire starts.
    let mut t = edge_only();
    let t0 = start();
    assert_eq!(t.on_active("1", t0), Some(Alert::NewFire));
    // No inactive ever arrives. A new fire starts after the TTL.
    let later = t0.plus(ttl()).plus(secs(1));
    assert_eq!(
        t.on_active("1", later),
        Some(Alert::NewFire),
        "expired active state must be treated as a new fire"
    );
}

#[test]
fn stream_reset_rearms_edge_triggering() {
    let mut t = edge_only();
    let t0 = start();
    assert_eq!(t.on_active("1", t0), Some(Alert::NewFire));
    t.on_stream_reset();
    // Active again right after reconnect: same fire, inside cooldown -> no
    // duplicate spam.
    assert_eq!(t.on_active("1", t0.plus(secs(5))), None);
    t.on_stream_reset();
    // Active after reconnect and past cooldown: cannot be distinguished
    // from a new fire, so it must alert (fail toward duplicates).
    assert_eq!(t.on_active("1", t0.plus(cooldown())), Some(Alert::NewFire));
}

#[test]
fn sources_are_tracked_independently() {
    let mut t = tracker();
    let t0 = start();
    assert_eq!(t.on_active("1", t0), Some(Alert::NewFire));
    assert_eq!(
        t.on_active("2", t0.plus(secs(1))),
        Some(Alert::NewFire),
        "a second channel must not be rate-limited by the first"
    );
}

#[test]
fn source_map_is_bounded_and_overflow_still_alerts() {
    let mut t = tracker();
    let t0 = start();
    // A hostile camera invents far more sources than the cap.
    for i in 0..(FireTracker::MAX_SOURCES + 100) {
        t.on_active(&format!("chan-{i}"), t0);
    }
    assert!(
        t.source_count() <= FireTracker::MAX_SOURCES + 1,
        "tracked sources must stay bounded, got {}",
        t.source_count()
    );
    // Overflow sources still alert (rate-limited through one slot).
    assert!(t.knows("overflow"));
}

#[test]
fn inactive_for_unknown_source_is_a_noop() {
    let mut t = tracker();
    t.on_inactive("never-seen");
    assert_eq!(t.on_active("never-seen", start()), Some(Alert::NewFire));
}

#[test]
fn the_edges_of_cooldown_and_ttl_are_exact() {
    let mut t = edge_only();
    let t0 = start();
    assert_eq!(t.on_active("1", t0), Some(Alert::NewFire));
    t.on_inactive("1");
    let just_before = Instant { nanos: t0.plus(cooldown()).nanos - 1 };
    assert_eq!(t.on_active("1", just_before), None);
    assert_eq!(t.on_active("1", t0.plus(cooldown())), Some(Alert::NewFire));
    // Exactly the TTL after the last refresh the state is still fresh.
    let last = t0.plus(cooldown());
    assert_eq!(t.on_active("1", last.plus(ttl())), None);
    let stale = Instant { nanos: last.plus(ttl()).plus(ttl()).nanos + 1 };
    assert_eq!(t.on_active("1", stale), Some(Alert::NewFire));
}

#[test]
fn a_clock_that_runs_backwards_counts_as_no_time_passed() {
    let mut t = tracker();
    let t0 = start();
    assert_eq!(t.on_active("1", t0.plus(secs(100))), Some(Alert::NewFire));
    assert_eq!(t.on_active("1", t0), None);
    assert_eq!(t0.duration_since(t0.plus(secs(1))), secs(0));
}

#[test]
fn pending_edge_survives_inactive_reset_and_expiry() {
    let mut t = edge_only();
    let t0 = start();
    assert_eq!(t.on_active("1", t0), Some(Alert::NewFire));
    t.on_inactive("1");
    assert_eq!(t.on_active("1", t0.plus(secs(1))), None);
    t.on_inactive("1");
    t.on_stream_reset();
    assert_eq!(t.on_active("2", t0.plus(secs(2))), Some(Alert::NewFire));
    assert_eq!(t.on_active("1", t0.plus(secs(61))), Some(Alert::NewFire));
}

#[test]
fn a_full_tracker_evicts_expired_sources_but_no_pending_edge() {
    let mut t = edge_only();
    let t0 = start();
    for i in 0..FireTracker::MAX_SOURCES {
        assert_eq!(t.on_active(&format!("chan-{i}"), t0), Some(Alert::NewFire));
    }
    // One source has an edge pending when the others expire.
    t.on_inactive("chan-7");
    assert_eq!(t.on_active("chan-7", t0.plus(secs(10))), None);
    let later = t0.plus(ttl()).plus(secs(11));
    assert_eq!(t.on_active("new", later), Some(Alert::NewFire));
    assert_eq!(t.source_count(), 2);
    assert!(t.knows("chan-7") && t.knows("new"));
    assert!(!t.knows("chan-0") && !t.knows("overflow"));
    assert_eq!(t.on_active("chan-7", later), Some(Alert::NewFire));
}

#[test]
fn crowded_out_sources_share_one_rate_limit() {
    let mut t = edge_only();
    let t0 = start();
    for i in 0..FireTracker::MAX_SOURCES {
        t.on_active(&format!("chan-{i}"), t0);
    }
    assert_eq!(t.on_active("a", t0), Some(Alert::NewFire));
    assert_eq!(t.on_active("b", t0.plus(secs(1))), None);
    assert!(!t.knows("a") && !t.knows("b"));
}

#[test]
fn alerts_are_labelled() {
    assert_eq!(Alert::NewFire.label(), "NewFire");
    assert_eq!(Alert::StillActive.label(), "StillActive");
}

#[test]
fn durations_convert() {
    assert_eq!(Duration::from_millis(1500).nanos, 1_500_000_000);
    assert_eq!(Duration::from_millis(1500).as_secs(), 1);
    assert!(Duration::from_secs(0).is_zero());
}
