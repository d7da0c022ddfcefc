//! The delivery policy, against scripted replies.

use hikvision_unifi_fire_bridge::probe::{probe_outcome, ProbeReply};
use hikvision_unifi_fire_bridge::status::{is_retryable_status, is_success_status};
use hikvision_unifi_fire_bridge::webhook::{Action, Delivery, DeliveryResult, Reply};

/// Run a delivery; the last status of the script repeats. Returns the result,
/// the number of requests and the waits between them.
fn deliver(attempts: u32, script: &[u16]) -> (DeliveryResult, usize, Vec<u32>) {
    let mut hits = 0;
    let mut waits = Vec::new();
    let (mut delivery, mut action) = Delivery::start(attempts);
    loop {
        match action {
            Action::Finish(result) => return (result, hits, waits),
            Action::Refused(message) => return (Err(message), hits, waits),
            Action::RetryAfter { secs, error } => {
                assert_eq!(error[..20], format!("Protect returned {}", script.get(hits - 1).unwrap_or(script.last().unwrap())));
                waits.push(secs);
            }
            Action::Send => {}
        }
        let code = *script.get(hits).unwrap_or(script.last().unwrap());
        hits += 1;
        assert_eq!(delivery.attempt() as usize, hits);
        action = delivery.on_reply(Reply::Status(code));
    }
}

#[test]
fn first_attempt_success_delivers_once() {
    let (result, hits, _) = deliver(3, &[200]);
    assert!(result.is_ok());
    assert_eq!(hits, 1);
}

#[test]
fn server_error_is_retried_until_success() {
    let (result, hits, waits) = deliver(3, &[500, 503, 200]);
    assert!(result.is_ok());
    assert_eq!(hits, 3);
    assert_eq!(waits, vec![1, 2]);
}

#[test]
fn permanent_forbidden_is_not_retried() {
    let (result, hits, _) = deliver(3, &[403]);
    let err = result.unwrap_err();
    assert!(err.contains("403"), "err={err}");
    assert_eq!(hits, 1, "403 must not be retried");
    assert_eq!(err, "Protect returned 403 Forbidden");
}

#[test]
fn too_many_requests_is_retried() {
    let (result, hits, _) = deliver(3, &[429, 200]);
    assert!(result.is_ok());
    assert_eq!(hits, 2);
}

#[test]
fn exhausted_attempts_report_sanitised_error() {
    let (result, hits, _) = deliver(2, &[500]);
    let err = result.unwrap_err();
    assert_eq!(hits, 2);
    assert!(err.contains("500"), "err={err}");
    assert!(!err.contains("/hook"), "error must not leak the webhook URL: {err}");
}

#[test]
fn the_last_error_is_reported() {
    let (result, hits, waits) = deliver(4, &[500, 502, 503, 408]);
    assert_eq!(result, Err("Protect returned 408 Request Timeout".to_owned()));
    assert_eq!(hits, 4);
    assert_eq!(waits, vec![1, 2, 3]);
}

#[test]
fn network_errors_and_timeouts_are_retried() {
    let (mut delivery, action) = Delivery::start(3);
    assert!(matches!(action, Action::Send));
    match delivery.on_reply(Reply::Failed("error sending request".into())) {
        Action::RetryAfter { secs: 1, error } => {
            assert_eq!(error, "Protect request failed: error sending request");
        }
        other => panic!("{other:?}"),
    }
    match delivery.on_reply(Reply::TimedOut("2.5".into())) {
        Action::RetryAfter { secs: 2, error } => {
            assert_eq!(error, "Protect request timed out after 2.5s");
        }
        other => panic!("{other:?}"),
    }
    match delivery.on_reply(Reply::TimedOut("2.5".into())) {
        Action::Finish(Err(e)) => assert_eq!(e, "Protect request timed out after 2.5s"),
        other => panic!("{other:?}"),
    }
    let (mut delivery, _) = Delivery::start(1);
    match delivery.on_reply(Reply::Failed("error sending request".into())) {
        Action::Finish(Err(e)) => assert_eq!(e, "Protect request failed: error sending request"),
        other => panic!("{other:?}"),
    }
}

#[test]
fn no_attempts_fail_without_a_request() {
    let (_, action) = Delivery::start(0);
    assert!(matches!(action, Action::Finish(Err(ref e)) if e.is_empty()));
}

#[test]
fn a_status_is_judged_by_its_code() {
    let (mut delivery, _) = Delivery::start(2);
    match delivery.on_status(404, "gone fishing") {
        Action::Refused(e) => assert_eq!(e, "Protect returned gone fishing"),
        other => panic!("{other:?}"),
    }
    for code in [200, 204, 299] {
        assert!(is_success_status(code));
    }
    for code in [199, 300, 500] {
        assert!(!is_success_status(code));
    }
    for code in [500, 599, 408, 429] {
        assert!(is_retryable_status(code));
    }
    for code in [499, 600, 407, 428, 301] {
        assert!(!is_retryable_status(code));
    }
}

#[test]
fn a_status_without_a_name_is_shown_too() {
    let (result, _, _) = deliver(1, &[599]);
    assert_eq!(result.unwrap_err(), "Protect returned 599 <unknown status code>");
}

#[test]
fn any_answer_to_a_probe_is_good() {
    assert_eq!(probe_outcome(ProbeReply::Answered), Ok(()));
    assert_eq!(
        probe_outcome(ProbeReply::Failed("refused".into())),
        Err("Protect probe failed: refused".to_owned())
    );
    assert_eq!(
        probe_outcome(ProbeReply::TimedOut("5".into())),
        Err("Protect probe timed out after 5s".to_owned())
    );
}
