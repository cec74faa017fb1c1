use transmission_controller::logging::{
    format_prefix, EmailLog, Level, LogFilter, FIRST_EMAIL_DELAY_MS, MIN_EMAIL_SENDING_PERIOD_MS,
};

#[test]
fn filter_by_level_and_target() {
    let f = LogFilter { level: Level::Info, target: Some("daemon".to_string()) };
    assert!(f.enabled(Level::Error, "daemon"));
    assert!(f.enabled(Level::Info, "daemon::consumer"));
    assert!(!f.enabled(Level::Debug, "daemon"));
    assert!(!f.enabled(Level::Info, "daemonic"));
    assert!(!f.enabled(Level::Info, "reqwest"));
    let all = LogFilter { level: Level::Trace, target: None };
    assert!(all.enabled(Level::Trace, "anything"));
}

#[test]
fn line_prefixes() {
    assert_eq!(format_prefix(false, "t", Some("src/a.rs"), Some(7), Level::Warn), "W: ");
    assert_eq!(
        format_prefix(true, "t", Some("src/a.rs"), Some(7), Level::Info),
        format!("[{:16.16}:{:04}] I: ", "src/a.rs", 7)
    );
    assert_eq!(
        format_prefix(true, "daemon::x", Some("/abs/path.rs"), Some(12345), Level::Error),
        format!("[{:16.16}:{:04}] E: ", "daemon::x", 12345)
    );
    assert_eq!(
        format_prefix(true, "t", Some("src/a/very/long/path.rs"), Some(1), Level::Debug),
        format!("[{:16.16}:{:04}] D: ", "src/a/very/long/path.rs", 1)
    );
    assert_eq!(format_prefix(true, "t", None, Some(1), Level::Trace), "T: ");
}

#[test]
fn email_batches_keep_their_distance() {
    let mut log = EmailLog::new();
    assert_eq!(log.flush_if_due(0), None);
    log.on_error("first".to_string(), 1_000);
    log.on_error("second".to_string(), 2_000);
    assert_eq!(log.due_time(), Some(1_000 + FIRST_EMAIL_DELAY_MS));
    assert_eq!(log.flush_if_due(1_000 + FIRST_EMAIL_DELAY_MS - 1), None);
    let sent_at = 1_000 + FIRST_EMAIL_DELAY_MS;
    assert_eq!(
        log.flush_if_due(sent_at),
        Some("The following errors has occurred:\n* first\n* second".to_string())
    );
    assert_eq!(log.due_time(), None);
    log.on_error("third".to_string(), sent_at + 10);
    assert_eq!(log.due_time(), Some(sent_at + MIN_EMAIL_SENDING_PERIOD_MS));
    assert_eq!(log.flush_if_due(sent_at + MIN_EMAIL_SENDING_PERIOD_MS - 1), None);
    assert!(log.flush_if_due(sent_at + MIN_EMAIL_SENDING_PERIOD_MS).is_some());
}

#[test]
fn shutdown_flush() {
    let mut log = EmailLog::new();
    assert_eq!(log.flush(5), None);
    log.on_error("only".to_string(), 5);
    assert_eq!(log.flush(6), Some("The following errors has occurred:\n* only".to_string()));
    assert_eq!(log.flush(7), None);
}
