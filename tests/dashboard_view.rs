use healthcheck::config::{Config, ConfigError};
use healthcheck::dashboard::{get_dashboard, sort_newest_first, DisplayColor, TableEntry};
use healthcheck::entry::{EmailResult, PingResult, StatsEntry, Timestamp};

fn at(day: u32, tag: &str) -> StatsEntry {
    StatsEntry::new(
        Timestamp::from_parts(2024, 1, day, 3, 4, 5, 6).unwrap(),
        format!("http://x/{tag}"),
        tag.to_string(),
        PingResult::Success,
        None,
        EmailResult::NotSent,
        None,
    )
}

fn tags(v: &[StatsEntry]) -> Vec<String> {
    v.iter().map(|e| e.request_state.clone()).collect()
}

#[test]
fn sorts_newest_first_and_stably() {
    let v = vec![at(1, "a"), at(3, "b"), at(2, "c"), at(3, "d"), at(1, "e")];
    let sorted = sort_newest_first(v);
    assert_eq!(tags(&sorted), vec!["b", "d", "c", "a", "e"]);
    let again = sort_newest_first(sorted.clone());
    assert_eq!(tags(&again), tags(&sorted));
}

#[test]
fn empty_history_shows_empty_state() {
    let d = get_dashboard(Vec::new());
    assert!(!d.show_table);
    assert!(d.entries.is_empty());
}

#[test]
fn table_lines() {
    let mut failed = at(2, "f");
    failed.ping_result = PingResult::Failure;
    failed.ping_error = Some("got error response 500 from server".to_string());
    failed.email_result = EmailResult::FailedToSend;
    failed.email_error = Some("transport down".to_string());
    let d = get_dashboard(vec![at(1, "ok"), failed]);
    assert!(d.show_table);
    assert_eq!(d.entries.len(), 2);
    let first = &d.entries[0];
    assert_eq!(first.request_state, "f");
    assert_eq!(first.timestamp, "2024-01-02 03:04:05");
    assert_eq!(first.ping_color, DisplayColor::Error);
    assert_eq!(first.email_color, DisplayColor::Error);
    assert_eq!(first.email_error, "transport down");
    let second = &d.entries[1];
    assert_eq!(second.ping_error, "No error");
    assert_eq!(second.email_error, "No error");
    assert_eq!(second.ping_color, DisplayColor::Okay);
    assert_eq!(second.email_color, DisplayColor::Okay);
    assert_eq!(second.full_url, "http://x/ok");
    assert_eq!(second.version, 1);
}

#[test]
fn colors() {
    assert_eq!(DisplayColor::from(PingResult::Success), DisplayColor::Okay);
    assert_eq!(DisplayColor::from(PingResult::Failure), DisplayColor::Error);
    assert_eq!(DisplayColor::from(EmailResult::SentSuccessfully), DisplayColor::Okay);
    assert_eq!(DisplayColor::from(EmailResult::NotSent), DisplayColor::Okay);
    assert_eq!(DisplayColor::from(EmailResult::FailedToSend), DisplayColor::Error);
    let line = TableEntry::from(at(9, "t"));
    assert_eq!(line.timestamp, "2024-01-09 03:04:05");
}

#[test]
fn config_checks_in_order() {
    let some = |s: &str| Some(s.to_string());
    let c = Config::new(some("u"), some("f"), some("t"), some("s"), some("a")).unwrap();
    assert_eq!(c.stats_file, "s");
    match Config::new(some("u"), None, some(""), some("s"), some("a")) {
        Err(ConfigError::EnvVarError(k)) => assert_eq!(k, "SEND_FROM_EMAIL"),
        other => panic!("unexpected {other:?}"),
    }
    match Config::new(some("u"), some("f"), some(""), some("s"), some("a")) {
        Err(ConfigError::VarEmpty(k)) => assert_eq!(k, "SEND_TO_EMAIL"),
        other => panic!("unexpected {other:?}"),
    }
    match healthcheck::dashboard::Config::new(some("")) {
        Err(ConfigError::VarEmpty(k)) => assert_eq!(k, "STATS_FILE"),
        other => panic!("unexpected {other:?}"),
    }
    assert_eq!(healthcheck::dashboard::Config::new(some("p")).unwrap().stats_file, "p");
}
