//! The session handshake: an `AUTH` request on stream 0 at nonce 0, and the
//! peer's answer, which either rejects the client or reseeds both contexts.
use crate::crypto::{method_named, CryptoContext};
use crate::event::{new_auth_event, Event, FLAG_AUTH, MAX_BODY_LEN};
use vstd::bytes::*;
use vstd::prelude::*;
use vstd::string::*;

verus! {

/// Why a session ended or could not start.
#[derive(Clone, Copy, Debug, PartialEq, Eq, Structural)]
pub enum SessionError {
    TransportIo,
    HandshakeIo,
    AuthRejected,
    DecryptFailed,
    ProtocolViolation,
    SessionExpired,
    SessionClosed,
}

/// The peer's answer to the handshake.
#[derive(Clone, Copy, Debug, PartialEq, Eq, Structural)]
pub struct AuthResponse {
    pub success: bool,
    /// The nonce seed for every later event.
    pub rand: u64,
}

/// The request body: the method name as a length-prefixed string.
pub open spec fn auth_request_bytes(method: Seq<u8>) -> Seq<u8> {
    spec_u64_to_le_bytes(method.len() as u64) + method
}

/// The response read from a body, if it holds one: a bool byte (0 or 1),
/// then the seed as a LE u64; later bytes are ignored.
pub open spec fn auth_response_of(body: Seq<u8>) -> Option<AuthResponse> {
    if body.len() >= 9 && body[0] <= 1 {
        Some(AuthResponse { success: body[0] == 1, rand: spec_u64_from_le_bytes(body.subrange(1, 9)) })
    } else {
        None
    }
}

/// Relies on `bincode::serialize` of a `str` in its default fixed-width
/// little-endian form: the byte length as a u64, then the bytes. Writing into
/// a `Vec` cannot fail and no size limit is set, so the result is `Ok`.
#[verifier::external_body]
fn bincode_string(s: &str) -> (r: Vec<u8>)
    ensures
        r@ == spec_u64_to_le_bytes(s.spec_bytes().len() as u64) + s.spec_bytes(),
{
    bincode::serialize(s).unwrap()
}

/// Relies on `bincode::deserialize::<(bool, u64)>` in its default form: one
/// byte for the bool, refused unless 0 or 1; eight LE bytes for the u64;
/// refused when the bytes run short; trailing bytes allowed.
#[verifier::external_body]
fn bincode_bool_u64(b: &[u8]) -> (r: Option<(bool, u64)>)
    ensures
        r == (if b@.len() >= 9 && b@[0] <= 1 {
            Some((b@[0] == 1, spec_u64_from_le_bytes(b@.subrange(1, 9))))
        } else {
            None::<(bool, u64)>
        }),
{
    bincode::deserialize::<(bool, u64)>(b).ok()
}

/// The body of the handshake request naming `method`.
pub fn auth_request_body(method: &str) -> (r: Vec<u8>)
    ensures
        r@ == auth_request_bytes(method.spec_bytes()),
{
    bincode_string(method)
}

/// The `AUTH` event on stream 0 that opens a session with `method`.
pub fn new_auth_request(method: &str) -> (r: Option<Event>)
    ensures
        (r is Some) == (method.spec_bytes().len() + 8 <= MAX_BODY_LEN),
        r matches Some(ev) ==> {
            &&& ev.header.stream_id == 0
            &&& ev.header.spec_flags() == FLAG_AUTH
            &&& ev.body@ == auth_request_bytes(method.spec_bytes())
            &&& ev.wf()
        },
{
    let body = auth_request_body(method);
    proof {
        lemma_auto_spec_u64_to_from_le_bytes();
    }
    if body.len() > MAX_BODY_LEN as usize {
        return None;
    }
    Some(new_auth_event(0, body))
}

/// Reads the peer's answer from a body.
pub fn parse_auth_response(body: &[u8]) -> (r: Option<AuthResponse>)
    ensures
        r == auth_response_of(body@),
{
    match bincode_bool_u64(body) {
        Some((success, rand)) => Some(AuthResponse { success, rand }),
        None => None,
    }
}

/// Takes the peer's answer to the handshake. An answer that is not an `AUTH`
/// event with a readable body is `HandshakeIo`; a refusal is `AuthRejected`.
/// On acceptance both contexts continue with the same method and key, with
/// both nonces at the peer's seed.
pub fn accept_auth_response(rctx: &mut CryptoContext, wctx: &mut CryptoContext, ev: &Event) -> (r: Result<
    u64,
    SessionError,
>)
    ensures
        ev.header.spec_flags() != FLAG_AUTH ==> r == Err::<u64, SessionError>(SessionError::HandshakeIo),
        ev.header.spec_flags() == FLAG_AUTH ==> r == match auth_response_of(ev.body@) {
            None => Err(SessionError::HandshakeIo),
            Some(a) => if a.success {
                Ok(a.rand)
            } else {
                Err(SessionError::AuthRejected)
            },
        },
        r matches Ok(seed) ==> {
            &&& final(rctx).encrypt_nonce == seed && final(rctx).decrypt_nonce == seed
            &&& final(wctx).encrypt_nonce == seed && final(wctx).decrypt_nonce == seed
        },
        r is Err ==> *final(rctx) == *old(rctx) && *final(wctx) == *old(wctx),
        final(rctx).key == old(rctx).key && final(rctx).method == old(rctx).method,
        final(wctx).key == old(wctx).key && final(wctx).method == old(wctx).method,
{
    if ev.header.flags() != FLAG_AUTH {
        return Err(SessionError::HandshakeIo);
    }
    match parse_auth_response(ev.body.as_slice()) {
        None => Err(SessionError::HandshakeIo),
        Some(a) => {
            if !a.success {
                return Err(SessionError::AuthRejected);
            }
            rctx.reset(a.rand);
            wctx.reset(a.rand);
            Ok(a.rand)
        },
    }
}

} // verus!
