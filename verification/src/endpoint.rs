//! The endpoints of the two protocols, written as text.

use vstd::prelude::*;
use vstd::string::StringExecFns;

verus! {

/// Whether the `url` crate parses `text` as an absolute URL.
pub uninterp spec fn url_accepts(text: Seq<char>) -> bool;

/// `url::Url::parse` parses an absolute URL from a string; this tells
/// whether it succeeded.
#[verifier::external_body]
fn url_parses(text: &str) -> (ok: bool)
    ensures
        ok == url_accepts(text@),
{
    url::Url::parse(text).is_ok()
}

/// The character that writes the digit `d`.
pub open spec fn digit_char(d: nat) -> char {
    if d == 0 {
        '0'
    } else if d == 1 {
        '1'
    } else if d == 2 {
        '2'
    } else if d == 3 {
        '3'
    } else if d == 4 {
        '4'
    } else if d == 5 {
        '5'
    } else if d == 6 {
        '6'
    } else if d == 7 {
        '7'
    } else if d == 8 {
        '8'
    } else {
        '9'
    }
}

/// `n` written in decimal digits, without leading zeros.
pub open spec fn decimal_text(n: nat) -> Seq<char>
    decreases n,
{
    if n < 10 {
        seq![digit_char(n)]
    } else {
        decimal_text(n / 10).push(digit_char(n % 10))
    }
}

fn digit_of(d: u16) -> (c: char)
    requires
        d < 10,
    ensures
        c == digit_char(d as nat),
{
    if d == 0 {
        '0'
    } else if d == 1 {
        '1'
    } else if d == 2 {
        '2'
    } else if d == 3 {
        '3'
    } else if d == 4 {
        '4'
    } else if d == 5 {
        '5'
    } else if d == 6 {
        '6'
    } else if d == 7 {
        '7'
    } else if d == 8 {
        '8'
    } else {
        '9'
    }
}

/// Appends `n` in decimal to `out`.
pub fn push_decimal(out: &mut String, n: u16)
    ensures
        final(out)@ == old(out)@ + decimal_text(n as nat),
    decreases n,
{
    if n >= 10 {
        push_decimal(out, n / 10);
    }
    out.push(digit_of(n % 10));
    assert(final(out)@ =~= old(out)@ + decimal_text(n as nat));
}

/// The endpoint of the text protocol.
pub open spec fn ws_url(ip: Seq<char>, port: u16) -> Seq<char> {
    "ws://"@ + ip + ":"@ + decimal_text(port as nat)
}

/// The endpoint of the register protocol.
pub open spec fn register_address(ip: Seq<char>) -> Seq<char> {
    ip + ":502"@
}

/// The endpoint of the text protocol at `ip` and `port`.
pub fn ws_url_of(ip: &str, port: u16) -> (out: String)
    ensures
        out@ == ws_url(ip@, port),
{
    let mut out = String::from_str("ws://");
    out.append(ip);
    out.append(":");
    push_decimal(&mut out, port);
    out
}

/// The endpoint of the register protocol at `ip`.
pub fn register_address_of(ip: &str) -> (out: String)
    ensures
        out@ == register_address(ip@),
{
    let mut out = String::from_str(ip);
    out.append(":502");
    out
}

/// Whether `ip` and `port` make an endpoint that parses as a URL.
pub fn endpoint_parses(ip: &str, port: u16) -> (ok: bool)
    ensures
        ok == url_accepts(ws_url(ip@, port)),
{
    let url = ws_url_of(ip, port);
    url_parses(url.as_str())
}

} // verus!
