use ping_agent_mail::cli::{
    notification_from_args, optional_u8, parse_u8, reject_args, reject_unknown_options,
    required_option, response_outcome, single_option, usage,
};
use ping_agent_mail::protocol::{Response, Status};
use ping_agent_mail::text::decimal_string;

fn args(list: &[&str]) -> Vec<String> {
    list.iter().map(|s| s.to_string()).collect()
}

#[test]
fn single_option_reads_one_value() {
    let a = args(&["--task-id", "build-42", "--status", "progress"]);
    assert_eq!(single_option(&a, "--status"), Ok(Some("progress".to_string())));
    assert_eq!(single_option(&a, "--summary"), Ok(None));
    assert_eq!(
        single_option(&args(&["--x", "1", "--x", "2"]), "--x"),
        Err("option --x may only be used once".to_string())
    );
    assert_eq!(
        single_option(&args(&["--x"]), "--x"),
        Err("option --x requires a value".to_string())
    );
    assert_eq!(
        single_option(&args(&["--x", "--y"]), "--x"),
        Err("option --x requires a value".to_string())
    );
    // A value is skipped over, even when it spells the option's name.
    assert_eq!(single_option(&args(&["--a", "b", "b", "c"]), "b"), Ok(Some("b".to_string())));
    assert_eq!(
        single_option(&args(&["--y", "--x"]), "--x"),
        Err("option --x requires a value".to_string())
    );
    assert_eq!(single_option(&args(&["--x", "-1"]), "--x"), Ok(Some("-1".to_string())));
}

#[test]
fn required_options_must_be_present() {
    assert_eq!(
        required_option(&args(&[]), "--summary"),
        Err("missing required option --summary".to_string())
    );
    assert_eq!(required_option(&args(&["--summary", "s"]), "--summary"), Ok("s".to_string()));
}

#[test]
fn u8_parsing_follows_std() {
    for text in ["0", "7", "007", "+5", "255", "256", "", "+", "-1", "1a", " 1", "99999999999"] {
        assert_eq!(parse_u8(text), text.parse::<u8>().ok(), "input {text:?}");
    }
}

#[test]
fn progress_must_be_a_percentage() {
    assert_eq!(optional_u8(&args(&["--progress", "60"]), "--progress"), Ok(Some(60)));
    assert_eq!(optional_u8(&args(&["--progress", "100"]), "--progress"), Ok(Some(100)));
    assert_eq!(optional_u8(&args(&[]), "--progress"), Ok(None));
    for bad in ["101", "255", "256", "x", "-3"] {
        assert_eq!(
            optional_u8(&args(&["--progress", bad]), "--progress"),
            Err("--progress must be an integer from 0 to 100".to_string())
        );
    }
}

#[test]
fn unknown_options_and_arguments_are_refused() {
    let known = ["--a", "--b"];
    assert_eq!(reject_unknown_options(&args(&["--a", "1", "--b", "2"]), &known), Ok(()));
    assert_eq!(
        reject_unknown_options(&args(&["--a", "1", "--c", "2"]), &known),
        Err("unknown option --c".to_string())
    );
    assert_eq!(reject_unknown_options(&args(&["--a", "--c"]), &known), Ok(()));
    assert_eq!(reject_args(&args(&[])), Ok(()));
    assert_eq!(reject_args(&args(&["x", "y"])), Err("unexpected argument x".to_string()));
}

#[test]
fn notify_arguments_become_a_notification() {
    let n = notification_from_args(&args(&[
        "--task-id", "build-42", "--status", "progress", "--progress", "60", "--summary",
        "Release build is still running", "--details", "tests next",
    ]))
    .unwrap();
    assert_eq!(n.task_id, "build-42");
    assert_eq!(n.status, Status::Progress);
    assert_eq!(n.summary, "Release build is still running");
    assert_eq!(n.details.as_deref(), Some("tests next"));
    assert_eq!(n.progress, Some(60));

    assert_eq!(
        notification_from_args(&args(&["--status", "started"])).unwrap_err(),
        "missing required option --task-id"
    );
    assert_eq!(
        notification_from_args(&args(&["--task-id", "t", "--status", "done", "--summary", "s"]))
            .unwrap_err(),
        "status must be started, progress, completed, or failed"
    );
    assert_eq!(
        notification_from_args(&args(&[
            "--task-id", "t", "--status", "started", "--summary", "s", "--to", "x@y.z",
        ]))
        .unwrap_err(),
        "unknown option --to"
    );
    assert_eq!(
        notification_from_args(&args(&["--task-id", "t", "--status", "started", "--summary", " "]))
            .unwrap_err(),
        "summary must contain 1 to 512 bytes"
    );
}

#[test]
fn responses_become_outcomes() {
    assert_eq!(response_outcome(Response::ok("sent")), Ok("sent".to_string()));
    assert_eq!(response_outcome(Response::error("no")), Err("no".to_string()));
}

#[test]
fn usage_names_every_command() {
    let text = usage();
    assert!(text.starts_with("Usage:\n"));
    assert!(text.contains("ping-agent-mail serve [--config PATH]"));
    assert!(text.contains("ping-agent-mail health"));
    assert!(text.contains("--progress 0..100"));
}

#[test]
fn printed_progress_reads_back() {
    for p in 0u8..=255 {
        assert_eq!(parse_u8(&decimal_string(p as u64)), Some(p));
    }
}
