//! The WebSocket opening handshake: the answer to a request that asks for an
//! upgrade.

use vstd::prelude::*;
use vstd::string::StringExecFns;
use vstd::utf8::encode_utf8;
use crate::base64::{encode, to_base64};
use crate::digest::{sha1_digest, sha1_hash};
use crate::http::{HttpRequest, HttpRequestView};
use crate::text::str_equal;

verus! {

/// The text that the protocol has every server add to a client's key.
pub open spec fn magic() -> Seq<char> {
    "258EAFA5-E914-47DA-95CA-C5AB0DC85B11"@
}

/// The value of `Sec-WebSocket-Accept` for a client's key: the base64 text of
/// the SHA-1 digest of the key followed by the magic text.
pub open spec fn accept_text(key: Seq<char>) -> Seq<char> {
    encode(sha1_hash(encode_utf8(key + magic())))
}

/// The response that switches protocols, for the accept value `accept`.
pub open spec fn switching_response(accept: Seq<char>) -> Seq<char> {
    "HTTP/1.1 101 Switching Protocols\r\nUpgrade: websocket\r\nConnection: Upgrade\r\nSec-WebSocket-Accept: "@
        + accept + "\r\n\r\n"@
}

/// The response to a request that asks for an upgrade to WebSocket and brings
/// a key in ASCII; none to any other request.
pub open spec fn upgrade_response(request: HttpRequestView) -> Option<Seq<char>> {
    if request.header("Upgrade"@) == Some("websocket"@) {
        match request.header("Sec-WebSocket-Key"@) {
            Some(key) => if vstd::utf8::is_ascii_chars(key) {
                Some(switching_response(accept_text(key)))
            } else {
                None
            },
            None => None,
        }
    } else {
        None
    }
}

/// The value of `Sec-WebSocket-Accept` for the key `key`.
pub fn accept_key(key: &str) -> (accept: String)
    ensures
        accept@ == accept_text(key@),
{
    let to_hash = key.to_owned().concat("258EAFA5-E914-47DA-95CA-C5AB0DC85B11");
    let digest = sha1_digest(to_hash.as_str().as_bytes());
    to_base64(digest.as_slice())
}

/// The handshake response to `request`, if it asks for an upgrade.
pub fn handle_deelio(request: &HttpRequest) -> (r: Option<String>)
    ensures
        match upgrade_response(request@) {
            Some(response) => r matches Some(text) && text@ == response,
            None => r is None,
        },
{
    let wanted = match request.get_header_value("Upgrade") {
        Some(value) => str_equal(value, "websocket"),
        None => false,
    };
    if !wanted {
        return None;
    }
    match request.get_header_value("Sec-WebSocket-Key") {
        Some(key) => {
            if !key.is_ascii() {
                return None;
            }
            let accept = accept_key(key);
            let head = "HTTP/1.1 101 Switching Protocols\r\nUpgrade: websocket\r\nConnection: Upgrade\r\nSec-WebSocket-Accept: ".to_owned();
            Some(head.concat(accept.as_str()).concat("\r\n\r\n"))
        },
        None => None,
    }
}

} // verus!
