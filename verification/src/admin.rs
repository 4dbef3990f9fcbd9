//! Admin / management API: which endpoint a request is for, who may use it, and the
//! answers of the endpoints whose text the library writes.

use http::HeaderMap;
use vstd::prelude::*;
use vstd::utf8::encode_utf8;
use crate::access::{authorized, presents};
use crate::gateway::Reply;
use crate::headers::{
    fields, insert_field, lemma_field_names, lemma_plain_value, new_headers, no_fields, set_header,
    with_header, Fields,
};
use crate::metrics::{exposes, label_slot, leveled, text_of_metrics, Metrics, MetricsView};
use crate::net::SocketAddress;
use crate::snapshot::{healthy_among, NamedUpstream, RuntimeConfig};
use crate::text::{opt_text, text_eq};

verus! {

/// The content type of the metrics endpoint.
pub const PROMETHEUS_CONTENT_TYPE: &'static str = "text/plain; version=0.0.4";

/// What the admin handlers go by.
#[derive(Debug, Clone)]
pub struct AdminState {
    pub bind: SocketAddress,
    /// Metrics endpoint path, or `None` when metrics are disabled.
    pub metrics_path: Option<String>,
    /// Bearer token that every endpoint but `/health` asks for.
    pub token: Option<String>,
}

/// What an admin request is for, or why it is turned away.
#[derive(Debug, Clone, Copy, PartialEq, Eq, Structural)]
pub enum AdminRoute {
    MethodNotAllowed,
    Unauthorized,
    Metrics,
    Health,
    Routes,
    Upstreams,
    EffectiveConfig,
    NotFound,
}

/// Whether a request to this path must carry the token, and does not.
pub open spec fn lacks_token(state: AdminState, path: Seq<char>, headers: HeaderMap) -> bool {
    state.token matches Some(token) && path != "/health"@ && !presents(
        headers,
        "Bearer "@ + token@,
    )
}

/// What an admin request is for. All endpoints are read-only `GET`s. The metrics path
/// goes before the other endpoints.
pub open spec fn admin_route(
    state: AdminState,
    method: Seq<char>,
    path: Seq<char>,
    headers: HeaderMap,
) -> AdminRoute {
    if method != "GET"@ {
        AdminRoute::MethodNotAllowed
    } else if lacks_token(state, path, headers) {
        AdminRoute::Unauthorized
    } else if opt_text(state.metrics_path) == Some(path) {
        AdminRoute::Metrics
    } else if path == "/health"@ {
        AdminRoute::Health
    } else if path == "/routes"@ {
        AdminRoute::Routes
    } else if path == "/upstreams"@ {
        AdminRoute::Upstreams
    } else if path == "/config/effective"@ {
        AdminRoute::EffectiveConfig
    } else {
        AdminRoute::NotFound
    }
}

/// Route an admin request. Bearer auth (when configured) guards everything except
/// `/health`, which the container HEALTHCHECK and liveness probes must reach
/// unauthenticated.
pub fn route(state: &AdminState, method: &str, path: &str, headers: &HeaderMap) -> (r: AdminRoute)
    ensures
        r == admin_route(*state, method@, path@, *headers),
{
    if !text_eq(method, "GET") {
        return AdminRoute::MethodNotAllowed;
    }
    if let Some(token) = &state.token {
        if !text_eq(path, "/health") && !authorized(headers, token.as_str()) {
            return AdminRoute::Unauthorized;
        }
    }
    if let Some(metrics_path) = &state.metrics_path {
        if text_eq(metrics_path.as_str(), path) {
            return AdminRoute::Metrics;
        }
    }
    if text_eq(path, "/health") {
        AdminRoute::Health
    } else if text_eq(path, "/routes") {
        AdminRoute::Routes
    } else if text_eq(path, "/upstreams") {
        AdminRoute::Upstreams
    } else if text_eq(path, "/config/effective") {
        AdminRoute::EffectiveConfig
    } else {
        AdminRoute::NotFound
    }
}

/// The header fields of an answer with this content type.
pub open spec fn typed_fields(content_type: Seq<char>) -> Fields {
    with_header(no_fields(), "content-type"@, content_type)
}

/// An answer with this status, content type and body.
pub fn response(status: u16, content_type: &str, body: String) -> (r: Reply)
    ensures
        r.status == status,
        r.body == body,
        fields(r.headers) == typed_fields(content_type@),
{
    let mut headers = new_headers();
    proof {
        lemma_field_names();
    }
    set_header(&mut headers, "content-type", content_type);
    Reply { status, headers, body }
}

/// A JSON answer with this status and body.
pub fn json(status: u16, body: String) -> (r: Reply)
    ensures
        r.status == status,
        r.body == body,
        fields(r.headers) == typed_fields("application/json"@),
{
    response(status, "application/json", body)
}

/// The answer to a request without the token.
pub fn unauthorized() -> (r: Reply)
    ensures
        r.status == 401,
        r.body@ == "{\"error\":\"unauthorized\"}"@,
        fields(r.headers) == typed_fields("application/json"@).insert(
            "www-authenticate"@,
            seq![encode_utf8("Bearer realm=\"gatepup-admin\""@)],
        ),
{
    let mut reply = json(401, "{\"error\":\"unauthorized\"}".to_string());
    proof {
        lemma_field_names();
        reveal_strlit("application/json");
        lemma_plain_value("application/json"@);
        reveal_strlit("Bearer realm=\"gatepup-admin\"");
        lemma_plain_value("Bearer realm=\"gatepup-admin\""@);
        assert(fields(reply.headers).dom() =~= set!["content-type"@]);
    }
    insert_field(
        &mut reply.headers,
        "www-authenticate",
        "Bearer realm=\"gatepup-admin\"".as_bytes(),
    );
    reply
}

/// The answer to a request that is turned away; `None` where it is not.
pub fn refusal_reply(to: AdminRoute) -> (r: Option<Reply>)
    ensures
        match to {
            AdminRoute::MethodNotAllowed => r matches Some(reply) && reply.status == 405
                && reply.body@ == "{\"error\":\"method_not_allowed\"}"@ && fields(reply.headers)
                == typed_fields("application/json"@),
            AdminRoute::Unauthorized => r matches Some(reply) && reply.status == 401
                && reply.body@ == "{\"error\":\"unauthorized\"}"@ && fields(reply.headers)
                == typed_fields("application/json"@).insert(
                "www-authenticate"@,
                seq![encode_utf8("Bearer realm=\"gatepup-admin\""@)],
            ),
            AdminRoute::NotFound => r matches Some(reply) && reply.status == 404 && reply.body@
                == "{\"error\":\"not_found\"}"@ && fields(reply.headers) == typed_fields(
                "application/json"@,
            ),
            _ => r is None,
        },
{
    match to {
        AdminRoute::MethodNotAllowed => Some(
            json(405, "{\"error\":\"method_not_allowed\"}".to_string()),
        ),
        AdminRoute::Unauthorized => Some(unauthorized()),
        AdminRoute::NotFound => Some(json(404, "{\"error\":\"not_found\"}".to_string())),
        _ => None,
    }
}

/// The gauges of healthy targets once those of the first `n` upstreams have been set to
/// what the upstreams show now.
pub open spec fn refreshed(
    levels: Map<u64, (Seq<char>, i64)>,
    upstreams: Seq<NamedUpstream>,
    n: int,
) -> Map<u64, (Seq<char>, i64)>
    decreases n,
{
    if n <= 0 {
        levels
    } else {
        let upstream = upstreams[n - 1];
        leveled(
            refreshed(levels, upstreams, n - 1),
            label_slot(upstream.name@),
            upstream.name@,
            healthy_among(
                upstream.runtime.targets@,
                upstream.runtime.targets@.len() as int,
            ) as i64,
        )
    }
}

/// The answer of the metrics endpoint. The gauges of healthy targets are refreshed from
/// the live snapshot before the metrics are written out.
pub fn metrics_reply(metrics: &mut Metrics, snapshot: &RuntimeConfig) -> (r: Reply)
    ensures
        final(metrics).wf() == old(metrics).wf(),
        final(metrics)@ == (MetricsView {
            healthy: refreshed(
                old(metrics)@.healthy,
                snapshot.upstreams@,
                snapshot.upstreams@.len() as int,
            ),
            ..old(metrics)@
        }),
        r.status == 200,
        fields(r.headers) == typed_fields(PROMETHEUS_CONTENT_TYPE@),
        final(metrics).wf() && final(metrics)@.durations.len() < 0x8000_0000_0000_0000 ==> r.body@
            == text_of_metrics(final(metrics)@) && exposes(r.body@, final(metrics)@),
{
    let counts = snapshot.healthy_counts();
    let mut i: usize = 0;
    while i < counts.len()
        invariant
            i <= counts.len(),
            counts@.len() == snapshot.upstreams@.len(),
            forall|j: int|
                0 <= j < counts@.len() ==> (#[trigger] counts@[j]).0 == snapshot.upstreams@[j].name
                    && counts@[j].1 == healthy_among(
                    snapshot.upstreams@[j].runtime.targets@,
                    snapshot.upstreams@[j].runtime.targets@.len() as int,
                ) as i64,
            metrics.wf() == old(metrics).wf(),
            metrics@ == (MetricsView {
                healthy: refreshed(old(metrics)@.healthy, snapshot.upstreams@, i as int),
                ..old(metrics)@
            }),
        decreases counts.len() - i,
    {
        metrics.set_upstream_healthy(counts[i].0.as_str(), counts[i].1);
        i += 1;
    }
    response(200, PROMETHEUS_CONTENT_TYPE, metrics.encode())
}

/// What `serde_json` writes for a text: a JSON string.
pub uninterp spec fn json_string_of(text: Seq<char>) -> Seq<char>;

/// `serde_json::Value::from` a text, written out as a JSON string. The result is
/// named: it depends on the text alone.
#[verifier::external_body]
fn json_string(text: &str) -> (r: String)
    ensures
        r@ == json_string_of(text@),
{
    serde_json::Value::from(text).to_string()
}

/// The body of `GET /health`, given the version as a JSON string.
pub open spec fn health_body(version_json: Seq<char>) -> Seq<char> {
    "{\"status\":\"ok\",\"version\":"@ + version_json + "}"@
}

/// The body of `GET /health`, given the version as a JSON string.
pub fn health_document(version_json: &str) -> (r: String)
    ensures
        r@ == health_body(version_json@),
{
    let mut out = "{\"status\":\"ok\",\"version\":".to_string();
    out.append(version_json);
    out.append("}");
    out
}

/// Body for `GET /health`.
pub fn health_payload(version: &str) -> (r: String)
    ensures
        r@ == health_body(json_string_of(version@)),
{
    health_document(json_string(version).as_str())
}

/// Nothing but a `GET` is answered; with a token set, nothing but `/health` is
/// answered without it, and `/health` never asks for it.
pub proof fn token_guards_everything_but_health(
    state: AdminState,
    method: Seq<char>,
    path: Seq<char>,
    headers: HeaderMap,
)
    ensures
        method != "GET"@ ==> admin_route(state, method, path, headers)
            == AdminRoute::MethodNotAllowed,
        path == "/health"@ ==> admin_route(state, method, path, headers)
            != AdminRoute::Unauthorized,
        method == "GET"@ && path != "/health"@ && state.token is Some && !presents(
            headers,
            "Bearer "@ + state.token->0@,
        ) ==> admin_route(state, method, path, headers) == AdminRoute::Unauthorized,
        state.token is None ==> admin_route(state, method, path, headers)
            != AdminRoute::Unauthorized,
{
}

}
