//! The conformance suite for `LlmProvider` adapters.
//!
//! `run_suite` probes the two canned prompts an adapter under test must
//! answer: `say hi` with non-empty text and `json please` with a JSON
//! object. The error contract is checked with providers rigged to fail: a
//! failing backend answers with an error, and an empty backend with
//! `EmptyResponse`.

use vstd::prelude::*;

use crate::llm::{LlmError, LlmProvider, LlmRequest, LlmResponse};

verus! {

/// The user prompt the error checks send (with no system prompt). Adapters
/// that fail per prompt must fail this one.
pub const ERROR_PROBE_USER: &'static str = "conformance: force backend failure";

fn request(user: &str, schema: Option<String>, temperature_milli: u32, max_tokens: u32) -> (r:
    LlmRequest)
    ensures
        r.system is None,
        r.user@ == user@,
        r.schema == schema,
        r.temperature_milli == temperature_milli,
        r.max_tokens == max_tokens,
{
    LlmRequest { system: None, user: user.to_owned(), schema, temperature_milli, max_tokens }
}

/// The request the error checks send: the probe prompt alone, with no
/// system prompt or schema, temperature 0 and 16 tokens.
pub open spec fn is_error_probe(q: LlmRequest) -> bool {
    &&& q.system is None
    &&& q.user@ == ERROR_PROBE_USER@
    &&& q.schema is None
    &&& q.temperature_milli == 0
    &&& q.max_tokens == 16
}

/// The request the error checks send.
fn error_probe_request() -> (r: LlmRequest)
    ensures
        is_error_probe(r),
{
    request(ERROR_PROBE_USER, None, 0, 16)
}

/// The verdict on the `say hi` answer: non-empty text.
pub fn text_verdict(answer: &Result<LlmResponse, LlmError>) -> (r: Result<(), String>)
    ensures
        r is Ok <==> (answer matches Ok(LlmResponse::Text(t)) && t@.len() > 0),
{
    match answer {
        Ok(LlmResponse::Text(s)) => if s.as_str().is_empty() {
            Err("empty text response".to_owned())
        } else {
            Ok(())
        },
        Ok(LlmResponse::Json(_)) => Err("expected text, got json".to_owned()),
        Err(_) => Err("complete failed".to_owned()),
    }
}

/// The verdict on the `json please` answer: a JSON object.
pub fn json_verdict(answer: &Result<LlmResponse, LlmError>) -> (r: Result<(), String>)
    ensures
        r is Ok <==> (answer matches Ok(LlmResponse::Json(v)) && v@ is Object),
{
    match answer {
        Ok(LlmResponse::Json(v)) => if v.is_object() {
            Ok(())
        } else {
            Err("not an object".to_owned())
        },
        Ok(LlmResponse::Text(_)) => Err("expected json, got text".to_owned()),
        Err(_) => Err("complete failed".to_owned()),
    }
}

/// The verdict on the error probe's answer from a failing backend: any
/// error.
pub fn error_verdict(answer: &Result<LlmResponse, LlmError>) -> (r: Result<(), String>)
    ensures
        r is Ok <==> answer is Err,
{
    match answer {
        Ok(_) => Err("error-suite provider returned Ok; expected Err(LlmError)".to_owned()),
        Err(_) => Ok(()),
    }
}

/// The verdict on the error probe's answer from an empty backend:
/// `EmptyResponse`.
pub fn empty_verdict(answer: &Result<LlmResponse, LlmError>) -> (r: Result<(), String>)
    ensures
        r is Ok <==> answer matches Err(LlmError::EmptyResponse),
{
    match answer {
        Err(LlmError::EmptyResponse) => Ok(()),
        _ => Err("expected Err(LlmError::EmptyResponse) for an empty backend".to_owned()),
    }
}

/// A passing answer to `say hi`: non-empty text.
pub open spec fn text_ok(a: Result<LlmResponse, LlmError>) -> bool {
    a matches Ok(LlmResponse::Text(t)) && t@.len() > 0
}

/// A passing answer to `json please`: a JSON object.
pub open spec fn json_ok(a: Result<LlmResponse, LlmError>) -> bool {
    a matches Ok(LlmResponse::Json(v)) && v@ is Object
}

/// The request `say hi` the suite sends: no system prompt or schema,
/// temperature 0.2 and 16 tokens.
pub open spec fn is_hi_probe(q: LlmRequest) -> bool {
    &&& q.system is None
    &&& q.user@ == "say hi"@
    &&& q.schema is None
    &&& q.temperature_milli == 200
    &&& q.max_tokens == 16
}

/// The request `json please` the suite sends: no system prompt, the
/// object schema, temperature 0 and 64 tokens.
pub open spec fn is_json_probe(q: LlmRequest) -> bool {
    &&& q.system is None
    &&& q.user@ == "json please"@
    &&& q.schema matches Some(s) && s@ == "{\"type\":\"object\"}"@
    &&& q.temperature_milli == 0
    &&& q.max_tokens == 64
}

/// What the happy path did with the provider, whatever it answered: it sent
/// `say hi`; on a passing answer it sent `json please` and passed exactly
/// when that answer passed; otherwise it failed.
pub open spec fn happy_path_outcome<L: LlmProvider>(provider: &L, passed: bool) -> bool {
    exists|q1: LlmRequest, a1: Result<LlmResponse, LlmError>|
        #[trigger] provider.answers(q1, a1) && is_hi_probe(q1) && if text_ok(a1) {
            exists|q2: LlmRequest, a2: Result<LlmResponse, LlmError>|
                #[trigger] provider.answers(q2, a2) && is_json_probe(q2) && (passed <==> json_ok(a2))
        } else {
            !passed
        }
}

/// Runs the happy-path checks; `Err` names the first that failed.
pub fn run_suite<L: LlmProvider>(provider: &L) -> (r: Result<(), String>)
    ensures
        happy_path_outcome(provider, r is Ok),
{
    let q1 = request("say hi", None, 200, 16);
    let ghost g1 = q1;
    let hi = provider.complete(q1);
    assert(provider.answers(g1, hi));
    if let Err(e) = text_verdict(&hi) {
        return Err(e);
    }
    let schema = "{\"type\":\"object\"}".to_owned();
    let q2 = request("json please", Some(schema), 0, 64);
    let ghost g2 = q2;
    let json = provider.complete(q2);
    let r = json_verdict(&json);
    assert(provider.answers(g2, json));
    r
}

/// Error-path check: a provider whose backend fails answers the probe with
/// an error.
pub fn run_error_suite<L: LlmProvider>(failing: &L) -> (r: Result<(), String>)
    ensures
        exists|q: LlmRequest, a: Result<LlmResponse, LlmError>|
            #[trigger] failing.answers(q, a) && is_error_probe(q) && (r is Ok <==> a is Err),
{
    let q = error_probe_request();
    let ghost gq = q;
    let a = failing.complete(q);
    let r = error_verdict(&a);
    assert(failing.answers(gq, a));
    r
}

/// Empty-backend check: a provider whose backend returned a blank
/// completion answers with `EmptyResponse`.
pub fn assert_empty_response<L: LlmProvider>(empty_provider: &L) -> (r: Result<(), String>)
    ensures
        exists|q: LlmRequest, a: Result<LlmResponse, LlmError>|
            #[trigger] empty_provider.answers(q, a) && is_error_probe(q) && (r is Ok <==> a matches Err(
                LlmError::EmptyResponse,
            )),
{
    let q = error_probe_request();
    let ghost gq = q;
    let a = empty_provider.complete(q);
    let r = empty_verdict(&a);
    assert(empty_provider.answers(gq, a));
    r
}

} // verus!
