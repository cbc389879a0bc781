//! Requests to the signalling endpoint of Bedrock clients.

use crate::text::string_from_utf8;
use vstd::prelude::*;
use vstd::slice::slice_to_vec;
use vstd::utf8::{decode_utf8, valid_utf8};

verus! {

/// The longest offer that is read.
pub const MAX_SDP_SIZE: usize = 1_048_576;

/// What a client is told before a negotiation, or the offer to negotiate.
pub enum JoinRequest {
    /// The request is refused with a text.
    Refused(&'static str),
    /// The offer of the client.
    Offer(String),
}

/// Reads the body of a join request: it must hold an offer, as text.
pub fn read_offer(body: &[u8]) -> (r: JoinRequest)
    ensures
        body@.len() == 0 ==> (r matches JoinRequest::Refused(t) && t@ == "Missing SDP offer"@),
        body@.len() > 0 && !valid_utf8(body@) ==> (r matches JoinRequest::Refused(t) && t@
            == "SDP offer must be UTF-8"@),
        body@.len() > 0 && valid_utf8(body@) ==> (r matches JoinRequest::Offer(o) && o@
            == decode_utf8(body@)),
{
    if body.len() == 0 {
        return JoinRequest::Refused("Missing SDP offer");
    }
    match string_from_utf8(slice_to_vec(body)) {
        None => JoinRequest::Refused("SDP offer must be UTF-8"),
        Some(offer) => {
            proof {
                vstd::utf8::encode_utf8_decode_utf8(offer@);
            }
            JoinRequest::Offer(offer)
        },
    }
}

/// The host that `Authority` of the `http` crate finds in a text, where it reads one.
pub uninterp spec fn authority_host(text: Seq<char>) -> Option<Seq<char>>;

/// `Authority::from_str` and `Authority::host`: whether a text is an authority, and its host
/// then, is a function of the text. What the grammar of authorities is, is not said.
#[verifier::external_body]
pub(crate) fn host_of_authority(text: &str) -> (r: Option<String>)
    ensures
        (match r {
            Some(host) => Some(host@),
            None => None::<Seq<char>>,
        }) == authority_host(text@),
{
    let authority = text.parse::<axum::http::uri::Authority>().ok()?;
    Some(authority.host().to_owned())
}

/// The host that a client asked for, where its host header is readable and names one.
pub fn advertised_host(header: Option<&str>) -> (r: Option<String>)
    ensures
        (match r {
            Some(host) => Some(host@),
            None => None::<Seq<char>>,
        }) == (match header {
            Some(text) => authority_host(text@),
            None => None,
        }),
{
    match header {
        Some(text) => host_of_authority(text),
        None => None,
    }
}

/// An answer of the endpoint.
#[derive(Clone, Copy, Debug, PartialEq, Eq, Structural)]
pub enum HttpStatus {
    Success,
    BadRequest,
    ServiceUnavailable,
    InternalServerError,
}

/// What the endpoint answers with: a status, a content type where it has one, and text.
pub struct EndpointAnswer {
    pub status: HttpStatus,
    pub content_type: Option<&'static str>,
    pub body: String,
}

/// The answer to a negotiation: the server's description, or why there is none.
pub fn join_answer(result: Result<String, String>) -> (r: EndpointAnswer)
    ensures
        match result {
            Ok(answer) => {
                &&& r.status == HttpStatus::Success
                &&& r.content_type matches Some(t) && t@ == "application/sdp"@
                &&& r.body@ == answer@
            },
            Err(error) => {
                &&& r.status == HttpStatus::BadRequest
                &&& r.content_type is None
                &&& r.body@ == error@
            },
        },
{
    match result {
        Ok(answer) => EndpointAnswer {
            status: HttpStatus::Success,
            content_type: Some("application/sdp"),
            body: answer,
        },
        Err(error) => EndpointAnswer {
            status: HttpStatus::BadRequest,
            content_type: None,
            body: error,
        },
    }
}

/// The answer to a status request: the encoded status, nothing where it could not be
/// encoded, and nothing where the server is stopping.
pub fn status_answer(server_running: bool, encoded: Option<String>) -> (r: EndpointAnswer)
    ensures
        r.status == (if !server_running {
            HttpStatus::ServiceUnavailable
        } else if encoded is Some {
            HttpStatus::Success
        } else {
            HttpStatus::InternalServerError
        }),
        r.content_type is Some == (r.status == HttpStatus::Success),
        r.content_type matches Some(t) ==> t@ == "application/json"@,
        r.body@ == (if server_running && encoded is Some {
            encoded->0@
        } else {
            Seq::<char>::empty()
        }),
{
    if !server_running {
        return EndpointAnswer {
            status: HttpStatus::ServiceUnavailable,
            content_type: None,
            body: String::new(),
        };
    }
    match encoded {
        Some(body) => EndpointAnswer {
            status: HttpStatus::Success,
            content_type: Some("application/json"),
            body,
        },
        None => EndpointAnswer {
            status: HttpStatus::InternalServerError,
            content_type: None,
            body: String::new(),
        },
    }
}

/// How many players a status shows.
pub fn online_players(online: Option<u32>) -> (r: u32)
    ensures
        r == (match online {
            Some(n) => n,
            None => 0,
        }),
{
    match online {
        Some(n) => n,
        None => 0,
    }
}

} // verus!
