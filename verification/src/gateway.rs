//! Per-request failures and the responses they become.

use http::HeaderMap;
use vstd::prelude::*;
use vstd::utf8::encode_utf8;
use crate::headers::{
    fields, insert_field, lemma_field_names, lemma_plain_value, new_headers, no_fields, set_header,
    with_header, Fields,
};

verus! {

/// Per-request failure that maps to a specific HTTP status + JSON error body.
#[derive(Debug, Clone, Copy, PartialEq, Eq, Structural)]
pub enum GatewayError {
    RouteNotFound,
    PayloadTooLarge,
    Forbidden,
    RateLimited,
    Unauthorized,
    UpstreamMissing,
    NoHealthyUpstream,
    UpstreamTimeout,
    UpstreamConnect,
    BadGateway,
}

/// The status of the response to a failure.
pub open spec fn status_of(e: GatewayError) -> u16 {
    match e {
        GatewayError::RouteNotFound => 404,
        GatewayError::PayloadTooLarge => 413,
        GatewayError::Forbidden => 403,
        GatewayError::RateLimited => 429,
        GatewayError::Unauthorized => 401,
        GatewayError::NoHealthyUpstream => 503,
        GatewayError::UpstreamTimeout => 504,
        GatewayError::UpstreamConnect => 502,
        GatewayError::UpstreamMissing => 502,
        GatewayError::BadGateway => 502,
    }
}

/// The code in the body of the response to a failure.
pub open spec fn code_of(e: GatewayError) -> Seq<char> {
    match e {
        GatewayError::RouteNotFound => "route_not_found"@,
        GatewayError::PayloadTooLarge => "payload_too_large"@,
        GatewayError::Forbidden => "forbidden"@,
        GatewayError::RateLimited => "rate_limited"@,
        GatewayError::Unauthorized => "unauthorized"@,
        GatewayError::NoHealthyUpstream => "no_healthy_upstream"@,
        GatewayError::UpstreamTimeout => "upstream_timeout"@,
        GatewayError::UpstreamConnect => "upstream_connect_error"@,
        GatewayError::UpstreamMissing => "bad_gateway"@,
        GatewayError::BadGateway => "bad_gateway"@,
    }
}

/// Whether the client, and not an upstream, is at fault.
pub open spec fn client_fault(e: GatewayError) -> bool {
    400 <= status_of(e) < 500
}

impl GatewayError {
    /// Status and error code of the response.
    pub fn parts(self) -> (r: (u16, &'static str))
        ensures
            r.0 == status_of(self),
            r.1@ == code_of(self),
    {
        match self {
            GatewayError::RouteNotFound => (404, "route_not_found"),
            GatewayError::PayloadTooLarge => (413, "payload_too_large"),
            GatewayError::Forbidden => (403, "forbidden"),
            GatewayError::RateLimited => (429, "rate_limited"),
            GatewayError::Unauthorized => (401, "unauthorized"),
            GatewayError::NoHealthyUpstream => (503, "no_healthy_upstream"),
            GatewayError::UpstreamTimeout => (504, "upstream_timeout"),
            GatewayError::UpstreamConnect => (502, "upstream_connect_error"),
            GatewayError::UpstreamMissing | GatewayError::BadGateway => (502, "bad_gateway"),
        }
    }

    /// Client-side rejections (4xx) are not upstream failures and must not be
    /// counted against upstream error metrics.
    pub fn is_client_error(self) -> (r: bool)
        ensures
            r == client_fault(self),
    {
        match self {
            GatewayError::RouteNotFound
            | GatewayError::PayloadTooLarge
            | GatewayError::Forbidden
            | GatewayError::RateLimited
            | GatewayError::Unauthorized => true,
            _ => false,
        }
    }
}

/// A response that the gateway makes itself.
pub struct Reply {
    pub status: u16,
    pub headers: HeaderMap,
    pub body: String,
}

/// The body of the response to a failure.
pub open spec fn error_body(e: GatewayError) -> Seq<char> {
    "{\"error\":\""@ + code_of(e) + "\"}\n"@
}

/// What a client that is asked for credentials is told.
pub open spec fn challenge() -> Seq<char> {
    "Basic realm=\"gatepup\""@
}

/// The header fields of the response to a failure: JSON, the request id where it may
/// stand in a header, when to come back, and what credentials are asked for.
pub open spec fn error_fields(e: GatewayError, request_id: Seq<char>) -> Fields {
    let f = with_header(
        no_fields().insert("content-type"@, seq![encode_utf8("application/json"@)]),
        "x-request-id"@,
        request_id,
    );
    match e {
        GatewayError::RateLimited => f.insert("retry-after"@, seq![encode_utf8("1"@)]),
        GatewayError::Unauthorized => f.insert("www-authenticate"@, seq![encode_utf8(challenge())]),
        _ => f,
    }
}

/// The response to a failure.
pub fn error_response(err: GatewayError, request_id: &str) -> (r: Reply)
    ensures
        r.status == status_of(err),
        r.body@ == error_body(err),
        fields(r.headers) == error_fields(err, request_id@),
{
    let (status, code) = err.parts();
    let mut body = "{\"error\":\"".to_string();
    body.append(code);
    body.append("\"}\n");
    let mut headers = new_headers();
    proof {
        lemma_field_names();
        reveal_strlit("application/json");
        lemma_plain_value("application/json"@);
        reveal_strlit("1");
        lemma_plain_value("1"@);
        reveal_strlit("Basic realm=\"gatepup\"");
        lemma_plain_value("Basic realm=\"gatepup\""@);
    }
    insert_field(&mut headers, "content-type", "application/json".as_bytes());
    assert(fields(headers).dom() =~= set!["content-type"@]);
    set_header(&mut headers, "x-request-id", request_id);
    proof {
        assert(fields(headers).dom() =~= set!["content-type"@] || fields(headers).dom() =~= set![
            "content-type"@,
            "x-request-id"@,
        ]);
    }
    match err {
        GatewayError::RateLimited => insert_field(&mut headers, "retry-after", "1".as_bytes()),
        GatewayError::Unauthorized => insert_field(
            &mut headers,
            "www-authenticate",
            "Basic realm=\"gatepup\"".as_bytes(),
        ),
        _ => {},
    }
    Reply { status, headers, body }
}

/// What a request is counted as, besides as a request.
#[derive(Debug, Clone, Copy, PartialEq, Eq, Structural)]
pub enum Tally {
    /// It was forwarded.
    UpstreamRequest,
    /// It matched no route.
    RouteNotFound,
    /// Its upstream failed.
    UpstreamError,
    /// The client was turned away.
    Nothing,
}

/// What a request is counted as.
pub open spec fn tally_of(failure: Option<GatewayError>) -> Tally {
    match failure {
        None => Tally::UpstreamRequest,
        Some(GatewayError::RouteNotFound) => Tally::RouteNotFound,
        Some(e) => if client_fault(e) {
            Tally::Nothing
        } else {
            Tally::UpstreamError
        },
    }
}

/// What a request is counted as, given how it failed, where it did.
pub fn tally(failure: Option<GatewayError>) -> (r: Tally)
    ensures
        r == tally_of(failure),
{
    match failure {
        None => Tally::UpstreamRequest,
        Some(GatewayError::RouteNotFound) => Tally::RouteNotFound,
        Some(e) => if e.is_client_error() {
            Tally::Nothing
        } else {
            Tally::UpstreamError
        },
    }
}

/// A failure is answered with an error status, and counts against an upstream only
/// where the status is 5xx.
pub proof fn failures_are_errors(e: GatewayError)
    ensures
        400 <= status_of(e) < 600,
        tally_of(Some(e)) == Tally::UpstreamError <==> 500 <= status_of(e),
        tally_of(Some(e)) != Tally::UpstreamRequest,
{
}

}
