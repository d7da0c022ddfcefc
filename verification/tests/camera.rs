//! The camera stream.

use hikvision_unifi_fire_bridge::camera::{
    check_camera_status, idle_message, redact, Backoff, Frame, Session, SessionStep,
    StreamItem, StreamRead, Supervisor, MAX_BUFFER,
};
use hikvision_unifi_fire_bridge::clock::Duration;
use hikvision_unifi_fire_bridge::config::{Config, Vars};
use hikvision_unifi_fire_bridge::event::EventState;

fn config(host: &str) -> Config {
    let mut vars = Vars::new();
    for (k, v) in [
        ("HIKVISION_HOST", host),
        ("HIKVISION_USER", "fire-bridge"),
        ("HIKVISION_PASS", "pw"),
        ("PROTECT_BASE_URL", "https://protect.example.com"),
        ("PROTECT_WEBHOOK_ID", "abc"),
        ("PROTECT_API_KEY", "key"),
    ] {
        vars.insert(k.to_owned(), v.to_owned());
    }
    Config::from_map(&vars, Ok(Config::health_bind_text(&vars))).unwrap()
}

#[test]
fn redact_removes_camera_url_and_host_from_errors() {
    let cfg = config("192.0.2.99:8000");
    let raw = format!(
        "error sending request for url ({}): connection refused",
        cfg.hik_url.as_str()
    );
    let cleaned = redact(&raw, &cfg);
    assert!(!cleaned.contains("192.0.2.99"), "cleaned={cleaned}");
    assert!(!cleaned.contains("alertStream"), "cleaned={cleaned}");
    assert!(cleaned.contains("connection refused"));
    assert_eq!(
        cleaned,
        "error sending request for url (<camera>): connection refused"
    );
}

#[test]
fn redact_replaces_every_occurrence_of_the_host() {
    let cfg = config("cam.lan");
    assert_eq!(
        redact("cam.lan:80 and cam.lan.cam.lan", &cfg),
        "<camera-host>:80 and <camera-host>.<camera-host>"
    );
    assert_eq!(redact("nothing here", &cfg), "nothing here");
}

#[test]
fn frames_are_sorted() {
    let mut session = Session::new();
    let frames = session
        .on_chunk(
            b"--b\r\n<EventNotificationAlert><eventType>fire</eventType></EventNotificationAlert>\
              <EventNotificationAlert><x>1</x></EventNotificationAlert>\
              <EventNotificationAlert><x></EventNotificationAlert><EventNotif",
        )
        .unwrap();
    assert_eq!(frames.len(), 3);
    match &frames[0] {
        Frame::Event(event) => {
            assert_eq!(event.event_type, "fire");
            assert_eq!(event.state, EventState::Missing);
        }
        other => panic!("{other:?}"),
    }
    assert!(matches!(frames[1], Frame::NotAnEvent));
    assert!(matches!(frames[2], Frame::Malformed(_)));
    let frames = session
        .on_chunk(b"icationAlert><eventType>a</eventType></EventNotificationAlert>")
        .unwrap();
    assert!(matches!(frames[..], [Frame::Event(_)]));
}

#[test]
fn readings_make_frames() {
    assert!(matches!(Frame::from_reading(Ok(None)), Frame::NotAnEvent));
    assert!(matches!(Frame::from_reading(Err("x".into())), Frame::Malformed(ref e) if e == "x"));
}

#[test]
fn an_endless_document_ends_the_session() {
    let mut session = Session::new();
    let mut chunk = b"<EventNotificationAlert>".to_vec();
    chunk.resize(MAX_BUFFER, b'x');
    assert!(session.on_chunk(&chunk).unwrap().is_empty());
    let err = session.on_chunk(b"x").unwrap_err();
    assert_eq!((err.buffered, err.max), (MAX_BUFFER + 1, 1024 * 1024));
}

#[test]
fn only_success_is_a_stream() {
    assert_eq!(check_camera_status(200), Ok(()));
    assert_eq!(
        check_camera_status(401),
        Err("camera returned 401 Unauthorized".to_owned())
    );
}

#[test]
fn silence_is_told_in_whole_seconds() {
    assert_eq!(
        idle_message(Duration::from_millis(90_900)),
        "camera stream idle for more than 90s"
    );
}

#[test]
fn the_backoff_doubles_up_to_its_maximum() {
    let secs = Duration::from_secs;
    let mut backoff = Backoff::new(secs(1), secs(30));
    let waits: Vec<Duration> = (0..7).map(|_| backoff.session_ended(secs(0))).collect();
    assert_eq!(
        waits,
        vec![secs(1), secs(2), secs(4), secs(8), secs(16), secs(30), secs(30)]
    );
}

#[test]
fn a_healthy_session_resets_the_backoff() {
    let secs = Duration::from_secs;
    let mut backoff = Backoff::new(secs(1), secs(30));
    for _ in 0..5 {
        backoff.session_ended(secs(59));
    }
    assert_eq!(backoff.session_ended(secs(60)), secs(1));
    assert_eq!(backoff.session_ended(Duration::from_millis(59_999)), secs(2));
}

#[test]
fn a_session_ends_with_its_stream() {
    let idle = Duration::from_secs(90);
    let mut session = Session::new();
    match session.on_read(StreamRead::Chunk(b"noise"), idle) {
        SessionStep::Frames(frames) => assert!(frames.is_empty()),
        other => panic!("{other:?}"),
    }
    let over = |read| match Session::new().on_read(read, idle) {
        SessionStep::Over(result) => result,
        other => panic!("{other:?}"),
    };
    assert_eq!(over(StreamRead::Ended), Ok(()));
    assert_eq!(over(StreamRead::Failed("reset".into())), Err("reset".to_owned()));
    assert_eq!(
        over(StreamRead::Silent),
        Err("camera stream idle for more than 90s".to_owned())
    );
    let mut endless = b"<EventNotificationAlert>".to_vec();
    endless.resize(MAX_BUFFER + 1, b'x');
    assert_eq!(
        over(StreamRead::Chunk(&endless)),
        Err("frame buffer exceeded safety limit (1048577 > 1048576 bytes) without a closing tag"
            .to_owned())
    );
}

#[test]
fn every_session_end_sends_one_reset() {
    let cfg = config("192.0.2.99");
    let secs = Duration::from_secs;
    let mut supervisor = Supervisor::new(cfg.reconnect_initial, cfg.reconnect_max);
    let ends = [
        (Err("tcp connect to 192.0.2.99:80".to_owned()), Some("tcp connect to <camera-host>:80"), secs(1), secs(1)),
        (Ok(()), None, secs(1), secs(2)),
        (Err("reset".to_owned()), Some("reset"), secs(61), secs(1)),
        (Ok(()), None, secs(0), secs(2)),
    ];
    for (result, told, lived, wait) in ends {
        let session = supervisor.connect(false).unwrap();
        let (ended, error) = session.ended(&cfg, result);
        assert_eq!(error.as_deref(), told);
        let (item, rearmed) = ended.rearm(false).unwrap();
        assert!(matches!(item, StreamItem::Reset));
        let (waited, next) = rearmed.wait(lived);
        assert_eq!(waited, wait);
        supervisor = next;
    }
}

#[test]
fn a_shutdown_begins_no_session_and_sends_no_reset() {
    let cfg = config("192.0.2.99");
    let supervisor = || Supervisor::new(cfg.reconnect_initial, cfg.reconnect_max);
    assert!(supervisor().connect(true).is_none());
    let (ended, _) = supervisor().connect(false).unwrap().ended(&cfg, Ok(()));
    assert!(ended.rearm(true).is_none());
}
