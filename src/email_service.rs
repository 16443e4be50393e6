use vstd::prelude::*;
use crate::config::Config;
use crate::entry::{opt_view, EmailResult, PingResult, StatsEntry, ENTRY_VERSION};
use crate::row::{row_bytes, store_bytes};
use crate::healthcheck::{probe_class, probe_reason, run_healthcheck, ProbeClass, ProbeReply};
use crate::stats_file::{log_entry, LogWrite, StatsFileError, StoreState};
use crate::text::push_str;

verus! {

/// A way to send a message to an operator.
pub trait Emailer {
    /// What the transport answered, `r`, to a request to send `body` under
    /// `subject` to `send_to`. A transport may say what its answers mean; by default
    /// nothing more is known of them than that the request was made.
    closed spec fn sent(&self, send_to: Seq<char>, subject: Seq<char>, body: Seq<char>, r: Result<
        (),
        String,
    >) -> bool {
        true
    }

    /// Sends `body` under `subject` to `send_to`; the error is the transport's
    /// diagnostic.
    fn send_email(&self, send_to: &str, subject: &str, body: &str) -> (r: Result<(), String>)
        ensures
            self.sent(send_to@, subject@, body@, r),
    ;
}

/// The email fields of a record reflect the transport's answer `a`.
pub open spec fn reflects_answer(
    email_result: EmailResult,
    email_error: Option<String>,
    a: Result<(), String>,
) -> bool {
    match a {
        Ok(()) => email_result == EmailResult::SentSuccessfully && email_error is None,
        Err(x) => email_result == EmailResult::FailedToSend && opt_view(email_error) == Some(x@),
    }
}

/// The alert for a probe that failed with `err`, as the transport answered it.
pub open spec fn alerted<T: Emailer>(
    emailer: &T,
    config: &Config,
    err: Seq<char>,
    a: Result<(), String>,
) -> bool {
    emailer.sent(config.send_to_email@, FAILURE_SUBJECT@, failure_body(err), a)
}

/// The subject of a failure alert.
pub const FAILURE_SUBJECT: &'static str = "Healthcheck failed";

pub open spec fn failure_body(err: Seq<char>) -> Seq<char> {
    "Server healthcheck has failed with error: "@ + err
}

/// The body of the alert for a failed probe.
pub fn failure_body_text(err: &str) -> (r: String)
    ensures
        r@ == failure_body(err@),
{
    let mut body = String::new();
    push_str(&mut body, "Server healthcheck has failed with error: ");
    push_str(&mut body, err);
    assert(body@ =~= failure_body(err@));
    body
}

/// Alerts the configured recipient that the probe failed with `err`: one message
/// under the fixed subject, its body embedding `err`; the result is the transport's
/// answer.
pub fn email_err<T: Emailer>(err: &str, config: &Config, emailer: &T) -> (r: Result<(), String>)
    ensures
        alerted(emailer, config, err@, r),
{
    let body = failure_body_text(err);
    emailer.send_email(config.send_to_email.as_str(), FAILURE_SUBJECT, body.as_str())
}

/// What one probe cycle records besides its token and URL.
#[derive(Clone, Debug)]
pub struct CycleOutcome {
    pub ping_result: PingResult,
    pub ping_error: Option<String>,
    pub email_result: EmailResult,
    pub email_error: Option<String>,
}

/// The outcome of a cycle: a passed probe sends nothing; a failed one records its
/// reason and what came of the alert, `sent` (the alert is owed exactly then).
pub fn outcome_of(ping: Result<(), String>, sent: Option<Result<(), String>>) -> (r: CycleOutcome)
    requires
        ping is Err <==> sent is Some,
    ensures
        ping is Ok ==> r.ping_result == PingResult::Success && r.ping_error is None
            && r.email_result == EmailResult::NotSent && r.email_error is None,
        ping matches Err(e) ==> r.ping_result == PingResult::Failure && opt_view(r.ping_error)
            == Some(e@),
        sent matches Some(Ok(())) ==> r.email_result == EmailResult::SentSuccessfully
            && r.email_error is None,
        sent matches Some(Err(x)) ==> r.email_result == EmailResult::FailedToSend && opt_view(
            r.email_error,
        ) == Some(x@),
{
    match ping {
        Ok(()) => CycleOutcome {
            ping_result: PingResult::Success,
            ping_error: None,
            email_result: EmailResult::NotSent,
            email_error: None,
        },
        Err(reason) => {
            let (email_result, email_error) = match sent {
                Some(Ok(())) => (EmailResult::SentSuccessfully, None),
                Some(Err(x)) => (EmailResult::FailedToSend, Some(x)),
                None => (EmailResult::NotSent, None),
            };
            CycleOutcome {
                ping_result: PingResult::Failure,
                ping_error: Some(reason),
                email_result,
                email_error,
            }
        },
    }
}

/// Runs the alerting step of a cycle: on a failed probe, alerts and records the
/// result; on a passed one, sends nothing.
pub fn cycle_outcome<T: Emailer>(ping: Result<(), String>, config: &Config, emailer: &T) -> (r:
    CycleOutcome)
    ensures
        ping is Ok ==> r.ping_result == PingResult::Success && r.ping_error is None
            && r.email_result == EmailResult::NotSent && r.email_error is None,
        ping matches Err(e) ==> r.ping_result == PingResult::Failure && opt_view(r.ping_error)
            == Some(e@) && exists|a: Result<(), String>|
            alerted(emailer, config, e@, a) && reflects_answer(r.email_result, r.email_error, a),
{
    let sent = match &ping {
        Ok(()) => None,
        Err(reason) => Some(email_err(reason.as_str(), config, emailer)),
    };
    let ghost answer = sent;
    let r = outcome_of(ping, sent);
    proof {
        if let Some(a) = answer {
            assert(alerted(emailer, config, ping->Err_0@, a));
            assert(reflects_answer(r.email_result, r.email_error, a));
        }
    }
    r
}

/// One probe cycle after the request: judges the reply, alerts on failure, and
/// records the entry (see `log_entry`), whether or not the alert went out.
pub fn run_cycle<T: Emailer>(
    store: StoreState,
    state: String,
    ping_url: String,
    reply: &ProbeReply,
    config: &Config,
    emailer: &T,
) -> (r: Result<(StatsEntry, LogWrite), StatsFileError>)
    ensures
        store == StoreState::NotAFile ==> r == Err::<(StatsEntry, LogWrite), _>(
            StatsFileError::NotAFile,
        ),
        store != StoreState::NotAFile ==> (r is Ok || r == Err::<(StatsEntry, LogWrite), _>(
            StatsFileError::ClockOutOfRange,
        )),
        r matches Ok((e, _)) ==> {
            &&& e.timestamp.wf()
            &&& e.request_state@ == state@
            &&& e.pinged_url@ == ping_url@
            &&& probe_class(state@, *reply) == ProbeClass::Success ==> e.ping_result
                == PingResult::Success && e.ping_error is None && e.email_result
                == EmailResult::NotSent && e.email_error is None
            &&& probe_class(state@, *reply) != ProbeClass::Success ==> e.ping_result
                == PingResult::Failure && opt_view(e.ping_error) == Some(
                probe_reason(state@, *reply),
            ) && exists|a: Result<(), String>|
                alerted(emailer, config, probe_reason(state@, *reply), a) && reflects_answer(
                    e.email_result,
                    e.email_error,
                    a,
                )
        },
        r matches Ok((e, w)) ==> {
            &&& e.entry_version == ENTRY_VERSION
            &&& store == StoreState::Missing ==> w is Create && w.spec_bytes() == store_bytes(
                seq![e@],
            )
            &&& store == StoreState::File ==> w is Append && w.spec_bytes() == row_bytes(e@)
        },
{
    let ping = run_healthcheck(&state, reply);
    let outcome = cycle_outcome(ping, config, emailer);
    log_entry(
        store,
        state,
        ping_url,
        outcome.ping_result,
        outcome.ping_error,
        outcome.email_result,
        outcome.email_error,
    )
}

} // verus!
