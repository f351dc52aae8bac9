use ping_agent_mail::config::Config;
use ping_agent_mail::mail::{
    delivery_result, describe_api_error, escape_html, html_body, rejection_message,
    request_parts, subject_line, text_body, ApiEnvelope, ApiError, Delivery, TransportFailure,
};
use ping_agent_mail::protocol::{Notification, Status};

fn config() -> Config {
    Config {
        account_id: "account-from-service".into(),
        api_token: "secret-token".into(),
        from: "agent@example.com".into(),
        to: "owner@example.net".into(),
        listen: "127.0.0.1:9109".into(),
        min_progress_interval_secs: 900,
        subject_prefix: "[Agent]".into(),
    }
}

#[test]
fn user_content_is_escaped_in_html_mail() {
    let notification = Notification {
        task_id: "task<&>".into(),
        status: Status::Progress,
        summary: "<script>alert('x')</script>".into(),
        details: Some("a & b".into()),
        progress: Some(50),
    };
    let html = html_body(&notification);
    assert!(!html.contains("<script>"));
    assert!(html.contains("&lt;script&gt;"));
    assert!(html.contains("a &amp; b"));
}

#[test]
fn cloudflare_routing_comes_only_from_service_config() {
    let notification = Notification {
        task_id: "task-1".into(),
        status: Status::Started,
        summary: "starting".into(),
        details: None,
        progress: None,
    };
    let (url, payload) = request_parts(&config(), &notification);
    assert_eq!(
        url,
        "https://api.cloudflare.com/client/v4/accounts/account-from-service/email/sending/send"
    );
    assert_eq!(payload.get("from").as_deref(), Some("agent@example.com"));
    assert_eq!(payload.get("to").as_deref(), Some("owner@example.net"));
    assert!(payload.get("api_token").is_none());
}

#[test]
fn escape_html_replaces_each_special_character() {
    assert_eq!(escape_html("a&b<c>d\"e'f"), "a&amp;b&lt;c&gt;d&quot;e&#39;f");
    assert_eq!(escape_html(""), "");
    assert_eq!(escape_html("plain ünïcode"), "plain ünïcode");
    // Ampersands are escaped once, not again inside entities.
    assert_eq!(escape_html("&lt;"), "&amp;lt;");
}

#[test]
fn escaped_text_has_no_markup_characters() {
    let escaped = escape_html("<a href=\"x\" onclick='y'>&</a>");
    assert!(!escaped.contains('<'));
    assert!(!escaped.contains('>'));
    assert!(!escaped.contains('"'));
    assert!(!escaped.contains('\''));
}

#[test]
fn text_body_lists_all_fields() {
    let notification = Notification {
        task_id: "build-42".into(),
        status: Status::Progress,
        summary: "still compiling".into(),
        details: Some("step 3 of 5".into()),
        progress: Some(60),
    };
    assert_eq!(
        text_body(&notification),
        "Task: build-42\nStatus: progress\nSummary: still compiling\nProgress: 60%\n\nDetails:\nstep 3 of 5"
    );
    let bare = Notification {
        task_id: "t".into(),
        status: Status::Completed,
        summary: "done".into(),
        details: None,
        progress: None,
    };
    assert_eq!(text_body(&bare), "Task: t\nStatus: completed\nSummary: done");
}

#[test]
fn html_body_has_the_fixed_layout() {
    let notification = Notification {
        task_id: "t1".into(),
        status: Status::Failed,
        summary: "broke".into(),
        details: Some("x<y".into()),
        progress: Some(0),
    };
    assert_eq!(
        html_body(&notification),
        "<h1>Agent task update</h1><p><strong>Task:</strong> t1</p><p><strong>Status:</strong> failed</p><p><strong>Summary:</strong> broke</p><p><strong>Progress:</strong> 0%</p><h2>Details</h2><pre>x&lt;y</pre>"
    );
}

#[test]
fn subject_joins_prefix_status_task_and_summary() {
    let notification = Notification {
        task_id: "build-42".into(),
        status: Status::Started,
        summary: "go".into(),
        details: None,
        progress: None,
    };
    assert_eq!(subject_line(&config(), &notification), "[Agent] [started] build-42: go");
    let (_, payload) = request_parts(&config(), &notification);
    assert_eq!(payload.subject, "[Agent] [started] build-42: go");
    assert_eq!(payload.text, text_body(&notification));
    assert_eq!(payload.html, html_body(&notification));
    assert_eq!(payload.get("subject").as_deref(), Some("[Agent] [started] build-42: go"));
}

#[test]
fn routing_does_not_depend_on_the_notification() {
    let a = Notification {
        task_id: "owner@example.net".into(),
        status: Status::Progress,
        summary: "to: attacker@example.com".into(),
        details: Some("from: attacker@example.com".into()),
        progress: Some(1),
    };
    let b = Notification {
        task_id: "other".into(),
        status: Status::Failed,
        summary: "x".into(),
        details: None,
        progress: None,
    };
    let (url_a, pa) = request_parts(&config(), &a);
    let (url_b, pb) = request_parts(&config(), &b);
    assert_eq!(url_a, url_b);
    assert_eq!(pa.to, pb.to);
    assert_eq!(pa.from, pb.from);
    assert_eq!(pa.to, "owner@example.net");
}

#[test]
fn api_errors_are_described() {
    let both = ApiError { code: Some(-7), message: Some("bad".into()) };
    assert_eq!(describe_api_error(&both), "-7: bad");
    let message_only = ApiError { code: None, message: Some("only".into()) };
    assert_eq!(describe_api_error(&message_only), "only");
    let code_only = ApiError { code: Some(10000), message: None };
    assert_eq!(describe_api_error(&code_only), "unspecified API error");
    let min = ApiError { code: Some(i64::MIN), message: Some("m".into()) };
    assert_eq!(describe_api_error(&min), "-9223372036854775808: m");
}

#[test]
fn rejection_message_joins_errors_or_names_the_status() {
    let errors = vec![
        ApiError { code: Some(1), message: Some("a".into()) },
        ApiError { code: None, message: None },
    ];
    assert_eq!(
        rejection_message(403, &errors),
        "Cloudflare rejected the email: 1: a; unspecified API error"
    );
    assert_eq!(rejection_message(422, &Vec::new()), "Cloudflare rejected the email with HTTP 422");
    let empty_message = vec![ApiError { code: None, message: Some(String::new()) }];
    assert_eq!(
        rejection_message(500, &empty_message),
        "Cloudflare rejected the email with HTTP 500"
    );
}

#[test]
fn delivery_outcomes_give_their_messages() {
    let accepted = Delivery::Answered(200, Ok(ApiEnvelope { success: true, errors: Vec::new() }));
    assert_eq!(delivery_result(&accepted), Ok(()));
    let refused = Delivery::Answered(
        400,
        Ok(ApiEnvelope {
            success: false,
            errors: vec![ApiError { code: Some(42), message: Some("nope".into()) }],
        }),
    );
    assert_eq!(
        delivery_result(&refused),
        Err("Cloudflare rejected the email: 42: nope".to_string())
    );
    assert_eq!(
        delivery_result(&Delivery::Answered(502, Err("eof".into()))),
        Err("Cloudflare returned HTTP 502".to_string())
    );
    assert_eq!(
        delivery_result(&Delivery::Answered(200, Err("expected value".into()))),
        Err("invalid Cloudflare response: expected value".to_string())
    );
    assert_eq!(
        delivery_result(&Delivery::Unreadable("reset".into())),
        Err("cannot read Cloudflare response: reset".to_string())
    );
    assert_eq!(
        delivery_result(&Delivery::Refused(TransportFailure::Status(429))),
        Err("Cloudflare returned HTTP 429".to_string())
    );
    assert_eq!(
        delivery_result(&Delivery::Refused(TransportFailure::Other("timeout".into()))),
        Err("Cloudflare request failed: timeout".to_string())
    );
}

#[test]
fn valid_subjects_have_no_line_break() {
    let mut c = config();
    c.subject_prefix = "[Build bot]".into();
    assert_eq!(c.validate(true), Ok(()));
    let n = Notification {
        task_id: "task".into(),
        status: Status::Failed,
        summary: "tests failed".into(),
        details: Some("line 1\nline 2".into()),
        progress: None,
    };
    assert_eq!(n.validate(), Ok(()));
    let subject = subject_line(&c, &n);
    assert!(!subject.contains('\n') && !subject.contains('\r'));
    assert_eq!(subject, "[Build bot] [failed] task: tests failed");
}
