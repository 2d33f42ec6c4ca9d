//! The outbound requests: small fixed-shape JSON texts.

use vstd::prelude::*;
use vstd::string::StringExecFns;

verus! {

/// The JSON text of the string value `s`, as `serde_json` writes it: `s`
/// between double quotes, with the characters that JSON does not allow in a
/// string escaped.
pub uninterp spec fn json_text(s: Seq<char>) -> Seq<char>;

/// `serde_json::to_value` turns `script` into a JSON string value, which
/// never fails for a string, and the value's `to_string` writes that value
/// as compact JSON text.
#[verifier::external_body]
fn json_string(script: &str) -> (out: Option<String>)
    ensures
        out is Some,
        out->0@ == json_text(script@),
{
    match serde_json::to_value(script) {
        Ok(value) => Some(value.to_string()),
        Err(_) => None,
    }
}

/// The request that evaluates a script, around the script's JSON text.
pub open spec fn evaluate_frame(quoted: Seq<char>) -> Seq<char> {
    "{\"jsonrpc\":\"2.0\",\"method\":\"script.evaluate\",\"params\":{\"script\":"@ + quoted
        + "}}"@
}

/// The heartbeat request.
pub open spec fn poll_frame() -> Seq<char> {
    "{\"jsonrpc\":\"2.0\",\"method\":\"motion.poll\"}"@
}

/// Wraps the JSON text of a script into the request that evaluates it.
pub fn wrap_script(quoted: &str) -> (out: String)
    ensures
        out@ == evaluate_frame(quoted@),
{
    let mut out = String::from_str(
        "{\"jsonrpc\":\"2.0\",\"method\":\"script.evaluate\",\"params\":{\"script\":",
    );
    out.append(quoted);
    out.append("}}");
    out
}

/// The request that evaluates `script`.
pub fn evaluate_request(script: &str) -> (out: Option<String>)
    ensures
        out is Some,
        out->0@ == evaluate_frame(json_text(script@)),
{
    match json_string(script) {
        Some(quoted) => Some(wrap_script(quoted.as_str())),
        None => None,
    }
}

/// The heartbeat request.
pub fn poll_request() -> (out: String)
    ensures
        out@ == poll_frame(),
{
    String::from_str("{\"jsonrpc\":\"2.0\",\"method\":\"motion.poll\"}")
}

} // verus!
