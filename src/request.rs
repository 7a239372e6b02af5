//! The HTTP requests the client sends, built as text.

use vstd::prelude::*;
use crate::json::{quoted, quote};
use crate::text::{chars_of, decimal, decimal_of};
use vstd::utf8::encode_utf8;

verus! {

/// The port of the server where a host names none.
pub const DEFAULT_PORT: u16 = 11434;

/// A connection target: `host` where it holds a colon, else `host` with the
/// default port after a colon.
pub open spec fn host_port_of(host: Seq<char>) -> Seq<char> {
    if host.contains(':') {
        host
    } else {
        host + ":11434"@
    }
}

/// The target `host:port` for a host and a port.
pub open spec fn address_of(host: Seq<char>, port: u16) -> Seq<char> {
    host + seq![':'] + decimal_of(port as nat)
}

/// The JSON object that asks `model` to answer `prompt`, members in key order.
pub open spec fn generate_body_of(model: Seq<char>, prompt: Seq<char>) -> Seq<char> {
    "{\"model\":"@ + quoted(model) + ",\"prompt\":"@ + quoted(prompt) + "}"@
}

/// The generation request sent to `target`, which carries `body`.
pub open spec fn generate_request_of(target: Seq<char>, body: Seq<char>) -> Seq<char> {
    "POST /api/generate HTTP/1.1\r\nHost: "@ + target
        + "\r\nContent-Type: application/json\r\nContent-Length: "@
        + decimal_of(encode_utf8(body).len()) + "\r\nConnection: close\r\n\r\n"@ + body
}

/// The request for the list of models, sent to `target`.
pub open spec fn models_request_of(target: Seq<char>) -> Seq<char> {
    "GET /api/tags HTTP/1.1\r\nHost: "@ + target + "\r\nConnection: close\r\n\r\n"@
}

/// Whether `s` holds the character `c`.
fn holds_char(s: &str, c: char) -> (r: bool)
    ensures
        r == s@.contains(c),
{
    let cs = chars_of(s);
    let mut i: usize = 0;
    while i < cs.len()
        invariant
            cs@ == s@,
            i <= cs@.len(),
            forall|j: int| 0 <= j < i ==> #[trigger] cs@[j] != c,
        decreases cs@.len() - i,
    {
        if cs[i] == c {
            return true;
        }
        i = i + 1;
    }
    false
}

/// The connection target for `host`: unchanged where it names a port after a
/// colon, else with the default port added.
pub fn ensure_host_port(host: &str) -> (r: String)
    ensures
        r@ == host_port_of(host@),
{
    if holds_char(host, ':') {
        String::from_str(host)
    } else {
        let mut r = String::from_str(host);
        r.append(":11434");
        r
    }
}

/// The target `host:port`.
pub fn address(host: &str, port: u16) -> (r: String)
    ensures
        r@ == address_of(host@, port),
{
    let mut r = String::from_str(host);
    r.append(":");
    proof {
        reveal_strlit(":");
    }
    let d = decimal(port as u64);
    r.append(d.as_str());
    r
}

/// The JSON body of a generation request.
pub fn generate_body(model: &str, prompt: &str) -> (r: String)
    ensures
        r@ == generate_body_of(model@, prompt@),
{
    let mut r = String::from_str("{\"model\":");
    let m = quote(model);
    r.append(m.as_str());
    r.append(",\"prompt\":");
    let p = quote(prompt);
    r.append(p.as_str());
    r.append("}");
    r
}

/// The request that asks the server at `host` (the default port added where
/// it names none) to have `model` answer `prompt`.
pub fn generate_request(host: &str, model: &str, prompt: &str) -> (r: String)
    ensures
        r@ == generate_request_of(host_port_of(host@), generate_body_of(model@, prompt@)),
{
    let target = ensure_host_port(host);
    let body = generate_body(model, prompt);
    let length = body.as_str().as_bytes().len();
    let mut r = String::from_str("POST /api/generate HTTP/1.1\r\nHost: ");
    r.append(target.as_str());
    r.append("\r\nContent-Type: application/json\r\nContent-Length: ");
    let d = decimal(length as u64);
    r.append(d.as_str());
    r.append("\r\nConnection: close\r\n\r\n");
    r.append(body.as_str());
    r
}

/// The request for the list of models of the server at `host:port`.
pub fn models_request(host: &str, port: u16) -> (r: String)
    ensures
        r@ == models_request_of(address_of(host@, port)),
{
    let target = address(host, port);
    let mut r = String::from_str("GET /api/tags HTTP/1.1\r\nHost: ");
    r.append(target.as_str());
    r.append("\r\nConnection: close\r\n\r\n");
    r
}

} // verus!
