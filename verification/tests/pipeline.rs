//! From events to alarm requests, and how the process ends.

use hikvision_unifi_fire_bridge::camera::{Frame, Session, StreamItem};
use hikvision_unifi_fire_bridge::clock::{Duration, Instant};
use hikvision_unifi_fire_bridge::config::FireMatcher;
use hikvision_unifi_fire_bridge::event::{CameraEvent, EventState};
use hikvision_unifi_fire_bridge::lifecycle::{
    check_health_response, command, run_outcome, Command, TaskExit,
};
use hikvision_unifi_fire_bridge::pipeline::{Outcome, Processor};
use hikvision_unifi_fire_bridge::state::{Alert, TrackerConfig};

fn processor(realert: Option<Duration>) -> Processor {
    Processor::new(
        FireMatcher::default(),
        TrackerConfig {
            cooldown: Duration::from_secs(60),
            realert,
            active_ttl: Duration::from_secs(300),
        },
    )
}

fn at(secs: u64) -> Instant {
    Instant { nanos: 0 }.plus(Duration::from_secs(secs))
}

fn event(event_type: &str, state: EventState, channel: Option<&str>) -> StreamItem {
    StreamItem::Event(CameraEvent {
        event_type: event_type.to_owned(),
        state,
        channel: channel.map(str::to_owned),
    })
}

fn alert(outcome: Outcome) -> Option<Alert> {
    match outcome {
        Outcome::Active { alert, .. } => alert,
        other => panic!("{other:?}"),
    }
}

#[test]
fn other_events_never_trigger() {
    let mut p = processor(None);
    for name in ["videoloss", "motiondetection"] {
        match p.handle(event(name, EventState::Active, Some("1")), at(1)) {
            Outcome::Unmatched { event_type } => assert_eq!(event_type, name),
            other => panic!("{other:?}"),
        }
    }
    let raised = p.handle(event("fireDetection", EventState::Active, Some("1")), at(1));
    assert_eq!(alert(raised), Some(Alert::NewFire));
}

#[test]
fn types_and_states_match_in_any_case() {
    let mut p = processor(None);
    let state = EventState::parse("Active");
    assert_eq!(alert(p.handle(event("FIREALARM", state, None), at(1))), Some(Alert::NewFire));
}

#[test]
fn a_missing_state_counts_as_active() {
    let mut p = processor(None);
    match p.handle(event("fireAlarm", EventState::Missing, None), at(1)) {
        Outcome::Active { event_type, state_missing, source, alert } => {
            assert_eq!(event_type, "fireAlarm");
            assert!(state_missing);
            assert_eq!(source, "default");
            assert_eq!(alert, Some(Alert::NewFire));
        }
        other => panic!("{other:?}"),
    }
    // An event with the state given reaches the same source.
    assert_eq!(alert(p.handle(event("fireAlarm", EventState::Active, Some("default")), at(2))), None);
}

#[test]
fn an_unknown_state_is_ignored() {
    let mut p = processor(None);
    match p.handle(event("fireAlarm", EventState::Unknown("odd".into()), Some("3")), at(1)) {
        Outcome::UnknownState { source, state } => {
            assert_eq!((source.as_str(), state.as_str()), ("3", "odd"));
        }
        other => panic!("{other:?}"),
    }
    assert_eq!(
        alert(p.handle(event("fireAlarm", EventState::Active, Some("3")), at(1))),
        Some(Alert::NewFire)
    );
}

#[test]
fn a_lost_stream_and_an_inactive_event_arm_again() {
    let mut p = processor(None);
    let fire = || event("fireAlarm", EventState::Active, Some("1"));
    assert_eq!(alert(p.handle(fire(), at(0))), Some(Alert::NewFire));
    assert_eq!(alert(p.handle(fire(), at(100))), None);
    assert!(matches!(p.handle(StreamItem::Reset, at(100)), Outcome::Rearmed));
    assert_eq!(alert(p.handle(fire(), at(101))), Some(Alert::NewFire));
    match p.handle(event("fireAlarm", EventState::Inactive, Some("1")), at(102)) {
        Outcome::Inactive { source } => assert_eq!(source, "1"),
        other => panic!("{other:?}"),
    }
    assert_eq!(alert(p.handle(fire(), at(161))), Some(Alert::NewFire));
}

#[test]
fn an_ongoing_fire_is_reported_again() {
    let mut p = processor(Some(Duration::from_secs(10)));
    let fire = || event("fireAlarm", EventState::Active, Some("1"));
    assert_eq!(alert(p.handle(fire(), at(0))), Some(Alert::NewFire));
    assert_eq!(alert(p.handle(fire(), at(9))), None);
    assert_eq!(alert(p.handle(fire(), at(10))), Some(Alert::StillActive));
}

#[test]
fn a_fire_in_the_stream_raises_an_alert() {
    let mut session = Session::new();
    let mut p = processor(None);
    let stream = b"--boundary\r\nContent-Type: application/xml\r\n\r\n\
        <EventNotificationAlert version=\"2.0\"><channelID>1</channelID>\
        <eventType>fireDetection</eventType><eventState>active</eventState>\
        </EventNotificationAlert>\r\n";
    let mut raised = Vec::new();
    for chunk in stream.chunks(11) {
        for frame in session.on_chunk(chunk).unwrap() {
            if let Frame::Event(event) = frame {
                raised.push(alert(p.handle(StreamItem::Event(event), at(1))));
            }
        }
    }
    assert_eq!(raised, vec![Some(Alert::NewFire)]);
}

#[test]
fn the_command_line_is_read() {
    assert!(matches!(command(None), Ok(Command::Serve)));
    assert!(matches!(command(Some("--healthcheck")), Ok(Command::Healthcheck)));
    assert_eq!(
        command(Some("--help")).unwrap_err(),
        "unknown argument '--help' (supported: --healthcheck)"
    );
}

#[test]
fn a_task_that_ends_on_its_own_is_a_failure() {
    let finished = || TaskExit::Finished { name: "webhook worker".into(), result: "Ok(())".into() };
    assert_eq!(run_outcome(true, finished()), Ok(()));
    assert_eq!(
        run_outcome(false, finished()),
        Err("critical task 'webhook worker' exited unexpectedly: Ok(())".to_owned())
    );
    assert_eq!(
        run_outcome(false, TaskExit::Panicked("task 3 panicked".into())),
        Err("critical task panicked: task 3 panicked".to_owned())
    );
    assert_eq!(
        run_outcome(false, TaskExit::NoneLeft),
        Err("all tasks exited unexpectedly".to_owned())
    );
    assert_eq!(run_outcome(true, TaskExit::NoneLeft), Ok(()));
}

#[test]
fn only_a_status_line_with_200_is_healthy() {
    assert_eq!(check_health_response("HTTP/1.1 200 OK\r\n\r\nok"), Ok(()));
    assert_eq!(
        check_health_response("HTTP/1.1 503 Service Unavailable\r\nX: 200 \r\n"),
        Err("unexpected health response: HTTP/1.1 503 Service Unavailable".to_owned())
    );
    assert_eq!(check_health_response(""), Err("unexpected health response: ".to_owned()));
    assert_eq!(check_health_response("a\r"), Err("unexpected health response: a\r".to_owned()));
}
