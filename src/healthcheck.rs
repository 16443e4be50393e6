use vstd::prelude::*;
use crate::text::{decimal_text, push_decimal_text, push_str};

verus! {

/// The fixed path of the target's health endpoint, with the query that carries
/// the token.
pub const HEALTH_PATH: &'static str = "/api/health?state=";

/// What came back from one probe request.
#[derive(Debug)]
pub enum ProbeReply {
    /// The request could not be sent; the transport's diagnostic.
    SendFailed(String),
    /// The server answered with this status; the body as text, or why it could not
    /// be read as text.
    Answered(u16, Result<String, String>),
}

/// Which check of the probe decided its outcome.
#[derive(Clone, Copy, Debug, PartialEq, Eq, Structural)]
pub enum ProbeClass {
    Success,
    SendFailure,
    StatusFailure,
    DecodeFailure,
    Mismatch,
}

pub open spec fn is_success_status(status: u16) -> bool {
    200 <= status <= 299
}

/// The checks in order, the first that fails deciding.
pub open spec fn probe_class(state: Seq<char>, reply: ProbeReply) -> ProbeClass {
    match reply {
        ProbeReply::SendFailed(_) => ProbeClass::SendFailure,
        ProbeReply::Answered(status, body) => if !is_success_status(status) {
            ProbeClass::StatusFailure
        } else {
            match body {
                Err(_) => ProbeClass::DecodeFailure,
                Ok(text) => if text@ == state {
                    ProbeClass::Success
                } else {
                    ProbeClass::Mismatch
                },
            }
        },
    }
}

/// The failure reason of a probe, for each class but success.
pub open spec fn probe_reason(state: Seq<char>, reply: ProbeReply) -> Seq<char> {
    match reply {
        ProbeReply::SendFailed(detail) => "failed to send request: "@ + detail@,
        ProbeReply::Answered(status, body) => if !is_success_status(status) {
            "got error response "@ + decimal_text(status as nat) + " from server"@
        } else {
            match body {
                Err(detail) => "failed to read text response: "@ + detail@,
                Ok(text) => "got invalid state response, expected "@ + state + ", got "@ + text@,
            }
        },
    }
}

/// The URL that probes `base_url` with `state`.
pub fn probe_url(base_url: &str, state: &str) -> (r: String)
    ensures
        r@ == base_url@ + HEALTH_PATH@ + state@,
{
    let mut url = String::new();
    push_str(&mut url, base_url);
    push_str(&mut url, HEALTH_PATH);
    push_str(&mut url, state);
    assert(url@ =~= base_url@ + HEALTH_PATH@ + state@);
    url
}

/// Which check decides the probe (see `probe_class`).
pub fn classify_probe(state: &String, reply: &ProbeReply) -> (r: ProbeClass)
    ensures
        r == probe_class(state@, *reply),
{
    match reply {
        ProbeReply::SendFailed(_) => ProbeClass::SendFailure,
        ProbeReply::Answered(status, body) => {
            if *status < 200 || *status > 299 {
                ProbeClass::StatusFailure
            } else {
                match body {
                    Err(_) => ProbeClass::DecodeFailure,
                    Ok(text) => {
                        if text.eq(state) {
                            ProbeClass::Success
                        } else {
                            ProbeClass::Mismatch
                        }
                    },
                }
            }
        },
    }
}

/// Judges a probe's reply against the token it carried: `Ok` exactly when the
/// status is 2xx and the body is the token, else the reason of the first check
/// that failed.
pub fn run_healthcheck(state: &String, reply: &ProbeReply) -> (r: Result<(), String>)
    ensures
        r is Ok <==> probe_class(state@, *reply) == ProbeClass::Success,
        r matches Err(e) ==> e@ == probe_reason(state@, *reply),
{
    let class = classify_probe(state, reply);
    if class == ProbeClass::Success {
        return Ok(());
    }
    let mut reason = String::new();
    match reply {
        ProbeReply::SendFailed(detail) => {
            push_str(&mut reason, "failed to send request: ");
            push_str(&mut reason, detail.as_str());
        },
        ProbeReply::Answered(status, body) => {
            if *status < 200 || *status > 299 {
                push_str(&mut reason, "got error response ");
                push_decimal_text(&mut reason, *status as u32);
                push_str(&mut reason, " from server");
            } else {
                match body {
                    Err(detail) => {
                        push_str(&mut reason, "failed to read text response: ");
                        push_str(&mut reason, detail.as_str());
                    },
                    Ok(text) => {
                        push_str(&mut reason, "got invalid state response, expected ");
                        push_str(&mut reason, state.as_str());
                        push_str(&mut reason, ", got ");
                        push_str(&mut reason, text.as_str());
                    },
                }
            }
        },
    }
    assert(reason@ =~= probe_reason(state@, *reply));
    Err(reason)
}

/// Every reply falls under exactly one class, in the order of the checks: a reply
/// that could not be sent, then a status outside 2xx, then a body that is not text,
/// then a body other than the token; success is what passes all four.
pub proof fn lemma_probe_classes(state: Seq<char>, reply: ProbeReply)
    ensures
        probe_class(state, reply) == ProbeClass::SendFailure <==> reply is SendFailed,
        probe_class(state, reply) == ProbeClass::StatusFailure <==> (reply matches ProbeReply::Answered(
            s,
            _,
        ) && !is_success_status(s)),
        probe_class(state, reply) == ProbeClass::DecodeFailure <==> (reply matches ProbeReply::Answered(
            s,
            Err(_),
        ) && is_success_status(s)),
        probe_class(state, reply) == ProbeClass::Mismatch <==> (reply matches ProbeReply::Answered(
            s,
            Ok(t),
        ) && is_success_status(s) && t@ != state),
        probe_class(state, reply) == ProbeClass::Success <==> (reply matches ProbeReply::Answered(
            s,
            Ok(t),
        ) && is_success_status(s) && t@ == state),
{
}

} // verus!
