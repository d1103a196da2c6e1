//! The change to the WebSocket protocol: the headers of the request, and the check of the response, from
//! `edge_http`.

use vstd::prelude::*;

verus! {

/// The `Sec-WebSocket-Key` header that `edge_http::ws` makes of a nonce.
pub uninterp spec fn websocket_key(nonce: Seq<u8>) -> Seq<char>;

/// Whether `edge_http::ws` takes a response with a status and headers for the acceptance of a request
/// to change to the WebSocket protocol, which was made with a nonce.
pub uninterp spec fn accepts_upgrade(
    code: u16,
    headers: Seq<(Seq<char>, Seq<char>)>,
    nonce: Seq<u8>,
) -> bool;

/// Headers as plain values.
pub open spec fn header_texts(headers: Seq<(String, String)>) -> Seq<(Seq<char>, Seq<char>)> {
    Seq::new(
        headers.len(),
        |i: int|
            {
                let (name, value) = headers[i];
                (name@, value@)
            },
    )
}

/// A header.
pub open spec fn is_header(h: (String, String), name: Seq<char>, value: Seq<char>) -> bool {
    let (n, v) = h;
    n@ == name && v@ == value
}

/// `edge_http::ws::upgrade_request_headers`, with a host and an origin and without a version, gives
/// seven headers, of which the last depends on the nonce alone.
#[verifier::external_body]
pub(crate) fn upgrade_request_headers(host: &str, origin: &str, nonce: &[u8; 16]) -> (r: Vec<
    (String, String),
>)
    ensures
        r@.len() == 7,
        is_header(r@[0], "Host"@, host@),
        is_header(r@[1], "Origin"@, origin@),
        is_header(r@[2], "Content-Length"@, "0"@),
        is_header(r@[3], "Connection"@, "Upgrade"@),
        is_header(r@[4], "Upgrade"@, "websocket"@),
        is_header(r@[5], "Sec-WebSocket-Version"@, "13"@),
        is_header(r@[6], "Sec-WebSocket-Key"@, websocket_key(nonce@)),
{
    let mut buf = [0u8; edge_http::ws::MAX_BASE64_KEY_LEN];
    edge_http::ws::upgrade_request_headers(Some(host), Some(origin), None, nonce, &mut buf)
        .iter()
        .map(|(name, value)| (name.to_string(), value.to_string()))
        .collect()
}

/// `edge_http::ws::is_upgrade_accepted` decides by the status, the headers and the nonce alone, and
/// accepts no status but 101.
#[verifier::external_body]
pub(crate) fn is_upgrade_accepted(
    code: u16,
    headers: &Vec<(String, String)>,
    nonce: &[u8; 16],
) -> (r: bool)
    ensures
        r == accepts_upgrade(code, header_texts(headers@), nonce@),
        r ==> code == 101,
{
    let mut buf = [0u8; edge_http::ws::MAX_BASE64_KEY_RESPONSE_LEN];
    let texts = headers.iter().map(|(name, value)| (name.as_str(), value.as_str()));
    edge_http::ws::is_upgrade_accepted(code, texts, nonce, &mut buf)
}

} // verus!
