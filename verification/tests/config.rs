use ping_agent_mail::config::{
    check_private_permissions, check_regular_file, default_config_path, default_interval,
    default_listen, default_subject_prefix, looks_like_email, Config,
};

fn config() -> Config {
    Config {
        account_id: "account".into(),
        api_token: "token".into(),
        from: "agent@example.com".into(),
        to: "owner@example.net".into(),
        listen: default_listen(),
        min_progress_interval_secs: default_interval(),
        subject_prefix: default_subject_prefix(),
    }
}

#[test]
fn email_check_rejects_obvious_non_addresses() {
    assert!(looks_like_email("agent@example.com"));
    assert!(!looks_like_email("not-an-address"));
    assert!(!looks_like_email("agent@localhost"));
    assert!(!looks_like_email("agent @example.com"));
}

#[test]
fn email_check_uses_the_last_at_sign() {
    assert!(looks_like_email("a@b@example.com"));
    assert!(!looks_like_email("a.b@example"));
    assert!(!looks_like_email("@example.com"));
    assert!(!looks_like_email("agent@example.com\u{a0}"));
    assert!(!looks_like_email(""));
}

#[test]
fn defaults_are_the_documented_ones() {
    assert_eq!(default_listen(), "127.0.0.1:9109");
    assert_eq!(default_interval(), 900);
    assert_eq!(default_subject_prefix(), "[Agent]");
}

#[test]
fn config_path_lies_below_home() {
    assert_eq!(
        default_config_path(Some("/home/u")),
        "/home/u/.config/ping-agent-mail/config.toml"
    );
    assert_eq!(
        default_config_path(Some("/home/u/")),
        "/home/u/.config/ping-agent-mail/config.toml"
    );
    assert_eq!(default_config_path(None), "./.config/ping-agent-mail/config.toml");
    assert_eq!(default_config_path(Some("")), ".config/ping-agent-mail/config.toml");
}

#[test]
fn config_validation_messages() {
    assert_eq!(config().validate(true), Ok(()));
    let mut c = config();
    c.api_token = "  ".into();
    assert_eq!(c.validate(true), Err("config field api_token must not be empty".to_string()));
    let mut c = config();
    c.account_id = String::new();
    assert_eq!(c.validate(true), Err("config field account_id must not be empty".to_string()));
    let mut c = config();
    c.from = "\n".into();
    assert_eq!(c.validate(true), Err("config field from must not be empty".to_string()));
    let mut c = config();
    c.to = "\t".into();
    assert_eq!(c.validate(true), Err("config field to must not be empty".to_string()));
    let mut c = config();
    c.to = "owner".into();
    assert_eq!(
        c.validate(true),
        Err("config fields from and to must be email addresses".to_string())
    );
    let mut c = config();
    c.subject_prefix = "[A]\r\nBcc: x@y.z".into();
    assert_eq!(c.validate(true), Err("subject_prefix must not contain a newline".to_string()));
    assert_eq!(
        config().validate(false),
        Err("config field listen must be an IP socket address such as 127.0.0.1:9109".to_string())
    );
}

#[test]
fn config_file_checks() {
    assert_eq!(check_regular_file("/c.toml", false, true), Ok(()));
    assert_eq!(
        check_regular_file("/c.toml", true, false),
        Err("config /c.toml must be a regular file, not a symlink".to_string())
    );
    assert!(check_regular_file("/c.toml", false, false).is_err());
    assert_eq!(check_private_permissions("/c.toml", 0o100600), Ok(()));
    assert_eq!(check_private_permissions("/c.toml", 0o400), Ok(()));
    assert_eq!(
        check_private_permissions("/c.toml", 0o100640),
        Err("config /c.toml is accessible by group or others; run chmod 600 /c.toml".to_string())
    );
    assert!(check_private_permissions("/c.toml", 0o601).is_err());
}
