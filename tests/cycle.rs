use std::cell::RefCell;

use healthcheck::config::Config;
use healthcheck::email_service::{
    cycle_outcome, email_err, failure_body_text, outcome_of, run_cycle, Emailer, FAILURE_SUBJECT,
};
use healthcheck::entry::{EmailResult, PingResult};
use healthcheck::healthcheck::{classify_probe, probe_url, run_healthcheck, ProbeClass, ProbeReply};
use healthcheck::listener::health;
use healthcheck::stats_file::{load_from_file, LogWrite, StatsFileError, StoreState};
use healthcheck::token::{generate_token, TOKEN_LEN};

struct FakeMailer {
    fail: bool,
    sent: RefCell<Vec<(String, String, String)>>,
}

impl FakeMailer {
    fn new(fail: bool) -> Self {
        FakeMailer { fail, sent: RefCell::new(Vec::new()) }
    }
}

impl Emailer for FakeMailer {
    fn send_email(&self, send_to: &str, subject: &str, body: &str) -> Result<(), String> {
        self.sent
            .borrow_mut()
            .push((send_to.to_string(), subject.to_string(), body.to_string()));
        if self.fail {
            Err("transport down".to_string())
        } else {
            Ok(())
        }
    }
}

fn config() -> Config {
    Config::new(
        Some("http://target".to_string()),
        Some("from@example.com".to_string()),
        Some("ops@example.com".to_string()),
        Some("/tmp/stats.csv".to_string()),
        Some("/tmp/account.json".to_string()),
    )
    .unwrap()
}

fn ok_reply(body: &str) -> ProbeReply {
    ProbeReply::Answered(200, Ok(body.to_string()))
}

#[test]
fn token_is_seven_alphanumerics() {
    for _ in 0..50 {
        let t = generate_token();
        assert_eq!(t.chars().count(), TOKEN_LEN);
        assert_eq!(t.len(), 7);
        assert!(t.chars().all(|c| c.is_ascii_alphanumeric()));
    }
}

#[test]
fn probe_url_embeds_token() {
    assert_eq!(probe_url("http://target", "AbC12xZ"), "http://target/api/health?state=AbC12xZ");
}

#[test]
fn probe_classes_in_order() {
    let s = "AbC12xZ".to_string();
    assert_eq!(classify_probe(&s, &ProbeReply::SendFailed("refused".to_string())), ProbeClass::SendFailure);
    assert_eq!(classify_probe(&s, &ProbeReply::Answered(500, Ok(s.clone()))), ProbeClass::StatusFailure);
    assert_eq!(classify_probe(&s, &ProbeReply::Answered(199, Err("bad".to_string()))), ProbeClass::StatusFailure);
    assert_eq!(classify_probe(&s, &ProbeReply::Answered(204, Err("bad".to_string()))), ProbeClass::DecodeFailure);
    assert_eq!(classify_probe(&s, &ok_reply("WRONG")), ProbeClass::Mismatch);
    assert_eq!(classify_probe(&s, &ok_reply("AbC12xZ")), ProbeClass::Success);
    assert_eq!(classify_probe(&s, &ProbeReply::Answered(299, Ok(s.clone()))), ProbeClass::Success);
}

#[test]
fn probe_reasons() {
    let s = "AbC12xZ".to_string();
    assert_eq!(run_healthcheck(&s, &ok_reply("AbC12xZ")), Ok(()));
    assert_eq!(
        run_healthcheck(&s, &ProbeReply::SendFailed("connection refused".to_string())).unwrap_err(),
        "failed to send request: connection refused"
    );
    assert_eq!(
        run_healthcheck(&s, &ProbeReply::Answered(500, Ok(s.clone()))).unwrap_err(),
        "got error response 500 from server"
    );
    assert_eq!(
        run_healthcheck(&s, &ProbeReply::Answered(200, Err("invalid utf-8".to_string()))).unwrap_err(),
        "failed to read text response: invalid utf-8"
    );
    assert_eq!(
        run_healthcheck(&s, &ok_reply("WRONG")).unwrap_err(),
        "got invalid state response, expected AbC12xZ, got WRONG"
    );
}

#[test]
fn scenario_token_echoed() {
    let mailer = FakeMailer::new(false);
    let (e, w) = run_cycle(
        StoreState::File,
        "AbC12xZ".to_string(),
        "http://target/api/health?state=AbC12xZ".to_string(),
        &ok_reply("AbC12xZ"),
        &config(),
        &mailer,
    )
    .unwrap();
    assert_eq!(e.ping_result, PingResult::Success);
    assert_eq!(e.email_result, EmailResult::NotSent);
    assert_eq!(e.ping_error, None);
    assert_eq!(e.email_error, None);
    assert!(mailer.sent.borrow().is_empty());
    assert!(matches!(w, LogWrite::Append(_)));
}

#[test]
fn scenario_server_error() {
    let mailer = FakeMailer::new(false);
    let (e, w) = run_cycle(
        StoreState::Missing,
        "AbC12xZ".to_string(),
        "http://target/api/health?state=AbC12xZ".to_string(),
        &ProbeReply::Answered(500, Ok(String::new())),
        &config(),
        &mailer,
    )
    .unwrap();
    assert_eq!(e.ping_result, PingResult::Failure);
    assert!(e.ping_error.as_ref().unwrap().contains("500"));
    assert_eq!(e.email_result, EmailResult::SentSuccessfully);
    assert_eq!(e.email_error, None);
    let sent = mailer.sent.borrow();
    assert_eq!(sent.len(), 1);
    assert_eq!(sent[0].0, "ops@example.com");
    assert_eq!(sent[0].1, "Healthcheck failed");
    assert_eq!(sent[0].2, "Server healthcheck has failed with error: got error response 500 from server");
    let bytes = match w {
        LogWrite::Create(b) => b,
        LogWrite::Append(_) => panic!("expected a new store"),
    };
    let loaded = load_from_file(StoreState::File, &bytes).unwrap();
    assert_eq!(loaded.len(), 1);
    assert_eq!(loaded[0].ping_error, e.ping_error);
}

#[test]
fn scenario_wrong_token() {
    let mailer = FakeMailer::new(true);
    let (e, _) = run_cycle(
        StoreState::File,
        "AbC12xZ".to_string(),
        "http://target/api/health?state=AbC12xZ".to_string(),
        &ok_reply("WRONG"),
        &config(),
        &mailer,
    )
    .unwrap();
    let reason = e.ping_error.unwrap();
    assert!(reason.contains("AbC12xZ"));
    assert!(reason.contains("WRONG"));
    assert_eq!(e.email_result, EmailResult::FailedToSend);
    assert_eq!(e.email_error, Some("transport down".to_string()));
}

#[test]
fn cycle_on_directory_is_fatal() {
    let mailer = FakeMailer::new(false);
    let r = run_cycle(
        StoreState::NotAFile,
        "AbC12xZ".to_string(),
        "u".to_string(),
        &ok_reply("AbC12xZ"),
        &config(),
        &mailer,
    );
    assert_eq!(r.unwrap_err(), StatsFileError::NotAFile);
}

#[test]
fn outcomes() {
    let o = outcome_of(Ok(()), None);
    assert_eq!(o.ping_result, PingResult::Success);
    assert_eq!(o.email_result, EmailResult::NotSent);
    let o = outcome_of(Err("r".to_string()), Some(Ok(())));
    assert_eq!(o.ping_result, PingResult::Failure);
    assert_eq!(o.ping_error, Some("r".to_string()));
    assert_eq!(o.email_result, EmailResult::SentSuccessfully);
    let o = outcome_of(Err("r".to_string()), Some(Err("x".to_string())));
    assert_eq!(o.email_result, EmailResult::FailedToSend);
    assert_eq!(o.email_error, Some("x".to_string()));
    let mailer = FakeMailer::new(true);
    let o = cycle_outcome(Err("r".to_string()), &config(), &mailer);
    assert_eq!(o.email_result, EmailResult::FailedToSend);
}

#[test]
fn alert_text() {
    assert_eq!(failure_body_text("boom"), "Server healthcheck has failed with error: boom");
    assert_eq!(FAILURE_SUBJECT, "Healthcheck failed");
    let mailer = FakeMailer::new(true);
    assert_eq!(email_err("boom", &config(), &mailer), Err("transport down".to_string()));
}

#[test]
fn health_echoes_state() {
    assert_eq!(health(Some("AbC12xZ".to_string())), "AbC12xZ");
    assert_eq!(health(None), "");
}
