use ping_agent_mail::protocol::{Notification, Request, Status};
use ping_agent_mail::service::{
    after_delivery, check_request_body, check_request_head, client_url, content_type_is_json,
    handle_health_request, handle_notify_request, health_check, http_status, invalid_request,
    not_found, progress_is_too_soon, route, Action, Endpoint, HttpMethod, ProgressLog,
};

const SECOND: u128 = 1_000_000_000;

fn note(task_id: &str, status: Status) -> Notification {
    Notification {
        task_id: task_id.into(),
        status,
        summary: "working".into(),
        details: None,
        progress: None,
    }
}

fn headers(pairs: &[(&str, &str)]) -> Vec<(String, String)> {
    pairs.iter().map(|(f, v)| (f.to_string(), v.to_string())).collect()
}

fn reply_of(action: Action) -> (bool, String) {
    match action {
        Action::Reply(r) => (r.ok, r.message),
        Action::Deliver(_) => panic!("expected a reply"),
    }
}

#[test]
fn only_existing_progress_timestamps_are_throttled() {
    let now: u128 = 5 * SECOND;
    assert!(progress_is_too_soon(Some(now), now, 60));
    assert!(!progress_is_too_soon(None, now, 60));
    assert!(!progress_is_too_soon(Some(now), now, 0));
}

#[test]
fn throttle_interval_is_exact_to_the_nanosecond() {
    assert!(progress_is_too_soon(Some(0), 60 * SECOND - 1, 60));
    assert!(!progress_is_too_soon(Some(0), 60 * SECOND, 60));
    // A clock reading before the record counts as no time passed.
    assert!(progress_is_too_soon(Some(10), 3, 1));
    assert!(progress_is_too_soon(Some(0), 0, u64::MAX));
}

#[test]
fn routes() {
    assert_eq!(route(HttpMethod::Get, "/healthz"), Endpoint::HealthCheck);
    assert_eq!(route(HttpMethod::Post, "/healthz"), Endpoint::HealthRequest);
    assert_eq!(route(HttpMethod::Post, "/v1/notify"), Endpoint::Notify);
    assert_eq!(route(HttpMethod::Get, "/v1/notify"), Endpoint::NotFound);
    assert_eq!(route(HttpMethod::Other, "/healthz"), Endpoint::NotFound);
    assert_eq!(route(HttpMethod::Post, "/healthz/"), Endpoint::NotFound);
}

#[test]
fn content_type_must_be_json() {
    assert!(content_type_is_json(&headers(&[("Content-Type", "application/json")])));
    assert!(content_type_is_json(&headers(&[("content-type", "application/json; charset=utf-8")])));
    assert!(!content_type_is_json(&headers(&[("Content-Type", "application/jsonx")])));
    assert!(!content_type_is_json(&headers(&[("Content-Type", "text/plain")])));
    assert!(!content_type_is_json(&headers(&[("Accept", "application/json")])));
    // Only the first Content-Type header counts.
    assert!(!content_type_is_json(&headers(&[
        ("CONTENT-TYPE", "text/plain"),
        ("Content-Type", "application/json"),
    ])));
    assert!(!content_type_is_json(&Vec::new()));
}

#[test]
fn request_head_and_body_checks() {
    let json = headers(&[("Content-Type", "application/json")]);
    assert_eq!(check_request_head(Some(10), &json), Ok(10));
    assert_eq!(check_request_head(None, &json), Err("Content-Length is required".to_string()));
    assert_eq!(
        check_request_head(Some(65537), &json),
        Err("request exceeds 65536 bytes".to_string())
    );
    assert_eq!(check_request_head(Some(65536), &json), Ok(65536));
    assert_eq!(
        check_request_head(Some(10), &headers(&[("Content-Type", "text/plain")])),
        Err("Content-Type must be application/json".to_string())
    );
    assert_eq!(check_request_body(Ok(65536)), Ok(()));
    assert_eq!(check_request_body(Ok(65537)), Err("request exceeds 65536 bytes".to_string()));
    assert_eq!(
        check_request_body(Err("broken pipe".into())),
        Err("cannot read request: broken pipe".to_string())
    );
    assert_eq!(invalid_request("EOF"), "invalid request: EOF");
}

#[test]
fn health_answers() {
    let r = health_check();
    assert!(r.ok);
    assert_eq!(r.message, "service is ready");
    assert_eq!(http_status(&r), 200);
    let r = handle_health_request(Ok(Request::Health));
    assert!(r.ok);
    assert_eq!(r.message, "service is ready");
    let r = handle_health_request(Ok(Request::Notify(note("t", Status::Started))));
    assert!(!r.ok);
    assert_eq!(r.message, "health endpoint only accepts health requests");
    assert_eq!(http_status(&r), 400);
    let r = handle_health_request(Err("invalid request: x".into()));
    assert_eq!((r.ok, r.message.as_str()), (false, "invalid request: x"));
    let r = not_found();
    assert_eq!((r.ok, r.message.as_str()), (false, "not found"));
}

#[test]
fn notify_refusals() {
    let log = ProgressLog::new();
    assert_eq!(
        reply_of(handle_notify_request(Ok(Request::Health), &log, 900, 0)),
        (false, "notify endpoint only accepts notify requests".to_string())
    );
    assert_eq!(
        reply_of(handle_notify_request(Err("bad".into()), &log, 900, 0)),
        (false, "bad".to_string())
    );
    let mut invalid = note("t", Status::Progress);
    invalid.progress = Some(101);
    assert_eq!(
        reply_of(handle_notify_request(Ok(Request::Notify(invalid)), &log, 900, 0)),
        (false, "progress must be from 0 to 100".to_string())
    );
}

#[test]
fn progress_is_held_back_within_the_interval_only() {
    let mut log = ProgressLog::new();
    let first = note("build", Status::Progress);
    let action = handle_notify_request(Ok(Request::Notify(first)), &log, 60, 0);
    let sent = match action {
        Action::Deliver(n) => n,
        Action::Reply(_) => panic!("first progress mail must go out"),
    };
    let r = after_delivery(&mut log, &sent, Ok(()), 0);
    assert_eq!((r.ok, r.message.as_str()), (true, "notification sent"));
    assert_eq!(log.last_progress("build"), Some(0));

    let again = handle_notify_request(
        Ok(Request::Notify(note("build", Status::Progress))),
        &log,
        60,
        59 * SECOND,
    );
    assert_eq!(
        reply_of(again),
        (true, "progress notification suppressed by service interval".to_string())
    );
    // Another task is not affected.
    let other = handle_notify_request(
        Ok(Request::Notify(note("test", Status::Progress))),
        &log,
        60,
        59 * SECOND,
    );
    assert!(matches!(other, Action::Deliver(_)));
    let later = handle_notify_request(
        Ok(Request::Notify(note("build", Status::Progress))),
        &log,
        60,
        60 * SECOND,
    );
    assert!(matches!(later, Action::Deliver(_)));
}

#[test]
fn final_mails_are_never_held_back_and_end_throttling() {
    let mut log = ProgressLog::new();
    log.record("build", 0);
    for status in [Status::Started, Status::Completed, Status::Failed] {
        let action = handle_notify_request(Ok(Request::Notify(note("build", status))), &log, 60, 1);
        assert!(matches!(action, Action::Deliver(_)));
    }
    let done = note("build", Status::Completed);
    after_delivery(&mut log, &done, Ok(()), 1);
    assert_eq!(log.last_progress("build"), None);
    let action = handle_notify_request(
        Ok(Request::Notify(note("build", Status::Progress))),
        &log,
        60,
        2,
    );
    assert!(matches!(action, Action::Deliver(_)));
}

#[test]
fn failed_delivery_changes_nothing() {
    let mut log = ProgressLog::new();
    let n = note("build", Status::Progress);
    let r = after_delivery(&mut log, &n, Err("Cloudflare returned HTTP 500".into()), 7);
    assert_eq!((r.ok, r.message.as_str()), (false, "Cloudflare returned HTTP 500"));
    assert_eq!(log.last_progress("build"), None);
    log.record("build", 3);
    let started = note("build", Status::Started);
    after_delivery(&mut log, &started, Ok(()), 9);
    assert_eq!(log.last_progress("build"), Some(3));
}

#[test]
fn progress_log_records_and_forgets() {
    let mut log = ProgressLog::new();
    log.record("a", 1);
    log.record("b", 2);
    log.record("a", 5);
    assert_eq!(log.last_progress("a"), Some(5));
    assert_eq!(log.last_progress("b"), Some(2));
    log.forget("a");
    assert_eq!(log.last_progress("a"), None);
    assert_eq!(log.last_progress("b"), Some(2));
    log.forget("missing");
    assert_eq!(log.last_progress("b"), Some(2));
}

#[test]
fn client_urls() {
    assert_eq!(client_url("/healthz"), "http://127.0.0.1:9109/healthz");
}

#[test]
fn throttling_holds_across_a_run_of_requests() {
    let mut log = ProgressLog::new();
    let interval: u64 = 60;
    let mut handle = |n: Notification, now: u128, log: &mut ProgressLog| -> bool {
        match handle_notify_request(Ok(Request::Notify(n)), log, interval, now) {
            Action::Reply(_) => false,
            Action::Deliver(sent) => {
                after_delivery(log, &sent, Ok(()), now + 1);
                true
            }
        }
    };
    assert!(handle(note("build", Status::Progress), 0, &mut log));
    assert!(handle(note("build", Status::Started), 10 * SECOND, &mut log));
    assert!(!handle(note("build", Status::Progress), 30 * SECOND, &mut log));
    assert!(handle(note("other", Status::Progress), 31 * SECOND, &mut log));
    assert!(handle(note("build", Status::Completed), 40 * SECOND, &mut log));
    assert!(handle(note("build", Status::Progress), 41 * SECOND, &mut log));
    assert!(!handle(note("build", Status::Progress), 42 * SECOND, &mut log));
}
