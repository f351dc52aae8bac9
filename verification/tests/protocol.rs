use ping_agent_mail::protocol::{Notification, Response, Status, MAX_REQUEST_BYTES};

fn notification(task_id: &str, summary: &str) -> Notification {
    Notification {
        task_id: task_id.into(),
        status: Status::Progress,
        summary: summary.into(),
        details: None,
        progress: None,
    }
}

#[test]
fn notification_limits_keep_local_requests_bounded() {
    let notification = Notification {
        task_id: "build-42".into(),
        status: Status::Progress,
        summary: "still compiling".into(),
        details: None,
        progress: Some(101),
    };
    assert!(notification.validate().is_err());
}

#[test]
fn validation_messages_name_the_broken_rule() {
    assert_eq!(notification("build-42", "ok").validate(), Ok(()));
    assert_eq!(
        notification(" \t", "ok").validate(),
        Err("task_id must contain 1 to 128 bytes".to_string())
    );
    assert_eq!(
        notification(&"x".repeat(129), "ok").validate(),
        Err("task_id must contain 1 to 128 bytes".to_string())
    );
    assert_eq!(notification(&"x".repeat(128), "ok").validate(), Ok(()));
    // 43 three-byte characters are 129 bytes.
    assert!(notification(&"€".repeat(43), "ok").validate().is_err());
    assert!(notification(&"€".repeat(42), "ok").validate().is_ok());
    assert_eq!(
        notification("a\nb", "ok").validate(),
        Err("task_id must not contain a newline".to_string())
    );
    assert_eq!(
        notification("a", "\u{3000}").validate(),
        Err("summary must contain 1 to 512 bytes".to_string())
    );
    assert_eq!(
        notification("a", &"s".repeat(513)).validate(),
        Err("summary must contain 1 to 512 bytes".to_string())
    );
    assert_eq!(
        notification("a", "x\ry").validate(),
        Err("summary must not contain a newline".to_string())
    );
    let mut long_details = notification("a", "b");
    long_details.details = Some("d".repeat(32 * 1024 + 1));
    assert_eq!(
        long_details.validate(),
        Err("details must not exceed 32768 bytes".to_string())
    );
    long_details.details = Some("d".repeat(32 * 1024));
    assert_eq!(long_details.validate(), Ok(()));
    let mut full = notification("a", "b");
    full.progress = Some(100);
    assert_eq!(full.validate(), Ok(()));
    full.progress = Some(101);
    assert_eq!(full.validate(), Err("progress must be from 0 to 100".to_string()));
}

#[test]
fn status_names_read_back() {
    for status in [Status::Started, Status::Progress, Status::Completed, Status::Failed] {
        assert_eq!(Status::parse(status.as_str()), Ok(status));
        assert_eq!(status.as_str().parse::<Status>(), Ok(status));
    }
    assert_eq!(Status::Completed.as_str(), "completed");
    assert_eq!(
        Status::parse("Started"),
        Err("status must be started, progress, completed, or failed".to_string())
    );
}

#[test]
fn responses_carry_their_message() {
    let ok = Response::ok("fine");
    assert!(ok.ok);
    assert_eq!(ok.message, "fine");
    let error = Response::error("bad");
    assert!(!error.ok);
    assert_eq!(error.message, "bad");
    assert_eq!(MAX_REQUEST_BYTES, 65536);
}
