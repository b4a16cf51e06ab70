//! Trusted wrappers around the blocking HTTP client. Nothing is promised of
//! a response body: the network decides it, and the callers state what holds
//! of every outcome.

use vstd::prelude::*;

verus! {

/// Relies on `reqwest::blocking`: one GET to `url`, returning the response
/// body as text, or the transport error rendered as text. A non-success
/// status is not an error here; the body is returned as the provider sent it.
#[verifier::external_body]
pub(crate) fn http_get_text(url: &str) -> (r: Result<String, String>) {
    match reqwest::blocking::Client::new().get(url).send() {
        Ok(resp) => match resp.text() {
            Ok(t) => Ok(t),
            Err(e) => Err(e.to_string()),
        },
        Err(e) => Err(e.to_string()),
    }
}

/// Relies on `reqwest::blocking`: one POST to `endpoint` with HTTP Basic
/// authentication and the `hostname` and `myip` query parameters, returning
/// the response body as text, or the transport error rendered as text.
#[verifier::external_body]
pub(crate) fn http_post_update(
    endpoint: &str,
    username: &str,
    password: &str,
    hostname: &str,
    myip: &str,
) -> (r: Result<String, String>) {
    let req = reqwest::blocking::Client::new().post(endpoint).basic_auth(
        username,
        Some(password),
    ).query(&[("hostname", hostname), ("myip", myip)]);
    match req.send() {
        Ok(resp) => match resp.text() {
            Ok(t) => Ok(t),
            Err(e) => Err(e.to_string()),
        },
        Err(e) => Err(e.to_string()),
    }
}

} // verus!
