//! What is read out of requests, and what is answered.

use http::HeaderMap;
use vstd::prelude::*;
use vstd::utf8::encode_utf8;
use crate::admin::{json, refusal_reply, response, route, unauthorized, AdminRoute, AdminState};
use crate::gateway::{error_response, tally, GatewayError, Reply, Tally};
use crate::headers::{ascii_text, fields, header_text, lemma_plain_value, set_header, text_of};
use crate::laws::admission::sends_credentials;
use crate::laws::config::{lemma_no_number, no_number};
use crate::laws::forwarding::{printable, says};
use crate::proxy::accepted_encodings;
use crate::request::{
    body_exceeds_limit, content_length, id_text, is_upgrade, request_host, request_id,
    request_ids_are_unique, RequestIds,
};
use crate::text::{before, cut, decimal_of, lemma_cut, lower, split_on, trimmed};

verus! {

/// The first value of a header is this text.
pub open spec fn first_says(headers: HeaderMap, name: Seq<char>, text: Seq<char>) -> bool {
    &&& fields(headers).contains_key(name)
    &&& fields(headers)[name].len() > 0
    &&& fields(headers)[name][0] == encode_utf8(text)
}

/// The host of a request is that of its `Host` header, or else of its address, up to
/// the port and in lower case; it is empty where there is neither.
pub proof fn the_host_goes_without_its_port(
    headers: HeaderMap,
    authority: Option<&str>,
    host: String,
    name: Seq<char>,
    port: Option<Seq<char>>,
)
    requires
        call_ensures(request_host, (&headers, authority), host),
        printable(name),
        !name.contains(':'),
        port matches Some(p) ==> printable(p),
    ensures
        ({
            let written = match port {
                Some(p) => name + seq![':'] + p,
                None => name,
            };
            &&& first_says(headers, "host"@, written) ==> host@ == lower(name)
            &&& !fields(headers).contains_key("host"@) && authority is Some && authority->0@
                == written ==> host@ == lower(name)
            &&& !fields(headers).contains_key("host"@) && authority is None ==> host@.len() == 0
        }),
{
    let written = match port {
        Some(p) => name + seq![':'] + p,
        None => name,
    };
    assert(printable(written)) by {
        if let Some(p) = port {
            assert forall|i: int| 0 <= i < written.len() implies ' ' <= #[trigger] written[i]
                <= '~' by {
                if i < name.len() {
                    assert(written[i] == name[i]);
                } else if i > name.len() {
                    assert(written[i] == p[i - name.len() - 1]);
                }
            }
        }
    }
    lemma_plain_value(written);
    lemma_cut(written, ':');
    assert(before(written, ':') =~= name) by {
        if let Some(p) = port {
            assert(written[name.len() as int] == ':');
            let k = cut(written, ':') as int;
            if k < name.len() {
                assert(name[k] == ':');
            }
        } else {
            assert(!written.contains(':'));
        }
    }
    lemma_cut(Seq::<char>::empty(), ':');
    assert(before(Seq::<char>::empty(), ':').len() == 0);
}

/// A request asks for an upgrade exactly when one of the members of `Connection` is
/// `upgrade`, in any case and with blanks around it, and `Upgrade` is there.
pub proof fn upgrades_are_asked_for_in_connection(
    headers: HeaderMap,
    value: Seq<char>,
    r: bool,
)
    requires
        call_ensures(is_upgrade, (&headers,), r),
        printable(value),
        first_says(headers, "connection"@, value),
    ensures
        r == (fields(headers).contains_key("upgrade"@) && exists|i: int|
            0 <= i < split_on(value, ',').len() && lower(
                trimmed(#[trigger] split_on(value, ',')[i]),
            ) == seq!['u', 'p', 'g', 'r', 'a', 'd', 'e']),
{
    lemma_plain_value(value);
    reveal_strlit("upgrade");
    assert("upgrade"@ =~= seq!['u', 'p', 'g', 'r', 'a', 'd', 'e']);
}

/// A request without `Connection` asks for no upgrade.
pub proof fn no_upgrade_without_connection(headers: HeaderMap, r: bool)
    requires
        call_ensures(is_upgrade, (&headers,), r),
        !fields(headers).contains_key("connection"@) || !fields(headers).contains_key("upgrade"@),
    ensures
        !r,
{
}

/// The length that a message declares is the number that it writes.
pub proof fn lemma_declared(headers: HeaderMap, n: nat, max: nat)
    requires
        first_says(headers, "content-length"@, decimal_of(n)),
    ensures
        crate::compress::declared_length(fields(headers), max) == if n <= max {
            Some(n)
        } else {
            None
        },
{
    crate::laws::texts::lemma_decimal(n);
    let d = decimal_of(n);
    assert(printable(d)) by {
        assert forall|i: int| 0 <= i < d.len() implies ' ' <= #[trigger] d[i] <= '~' by {
            assert(crate::text::is_digit(d[i]));
        }
    }
    lemma_plain_value(d);
    assert(crate::text::is_digit(d[0]));
}

/// A declared length is read as it is written, where a `usize` holds it, and is over
/// the limit exactly when it is greater; a limit of 0 is none, and a request that
/// declares no length is under any.
pub proof fn declared_lengths_are_held_to_the_limit(
    headers: HeaderMap,
    n: nat,
    limit: u64,
    length: Option<usize>,
    over: bool,
)
    requires
        call_ensures(content_length, (&headers,), length),
        call_ensures(body_exceeds_limit, (&headers, limit), over),
    ensures
        first_says(headers, "content-length"@, decimal_of(n)) && n <= usize::MAX ==> length
            == Some(n as usize) && over == (limit > 0 && n > limit),
        !fields(headers).contains_key("content-length"@) ==> length is None && !over,
        limit == 0 ==> !over,
{
    if first_says(headers, "content-length"@, decimal_of(n)) {
        lemma_declared(headers, n, usize::MAX as nat);
    }
}

/// A request keeps the id that it carries; without one it gets a new one, and each new
/// one uses up a sequence number.
pub proof fn request_ids_are_kept(
    ids: &mut RequestIds,
    headers: HeaderMap,
    id: String,
    had: Seq<char>,
)
    requires
        call_ensures(RequestIds::ensure_request_id, (ids, &headers), id),
        printable(had),
    ensures
        first_says(headers, "x-request-id"@, had) && had.len() > 0 ==> id@ == had && final(ids).next
            == old(ids).next,
        !fields(headers).contains_key("x-request-id"@) ==> final(ids).next == if old(ids).next
            == u64::MAX {
            0
        } else {
            (old(ids).next + 1) as u64
        },
{
    lemma_plain_value(had);
}

/// The status of the response to each failure.
pub proof fn failures_have_their_status(err: GatewayError, request_id: &str, r: Reply)
    requires
        call_ensures(error_response, (err, request_id), r),
    ensures
        err == GatewayError::Unauthorized ==> r.status == 401,
        err == GatewayError::Forbidden ==> r.status == 403,
        err == GatewayError::RouteNotFound ==> r.status == 404,
        err == GatewayError::PayloadTooLarge ==> r.status == 413,
        err == GatewayError::RateLimited ==> r.status == 429,
        err == GatewayError::UpstreamMissing ==> r.status == 502,
        err == GatewayError::UpstreamConnect ==> r.status == 502,
        err == GatewayError::BadGateway ==> r.status == 502,
        err == GatewayError::NoHealthyUpstream ==> r.status == 503,
        err == GatewayError::UpstreamTimeout ==> r.status == 504,
{
}

/// The response to a failure is JSON that names it, and carries the request id. One to
/// a client that is too fast says when to come back, one to a client without
/// credentials asks for them, and no other does.
pub proof fn failures_are_told_in_json(err: GatewayError, request_id: &str, r: Reply)
    requires
        call_ensures(error_response, (err, request_id), r),
        printable(request_id@),
    ensures
        r.body@ == "{\"error\":\""@ + (match err {
            GatewayError::Unauthorized => "unauthorized"@,
            GatewayError::Forbidden => "forbidden"@,
            GatewayError::RouteNotFound => "route_not_found"@,
            GatewayError::PayloadTooLarge => "payload_too_large"@,
            GatewayError::RateLimited => "rate_limited"@,
            GatewayError::UpstreamConnect => "upstream_connect_error"@,
            GatewayError::NoHealthyUpstream => "no_healthy_upstream"@,
            GatewayError::UpstreamTimeout => "upstream_timeout"@,
            GatewayError::UpstreamMissing | GatewayError::BadGateway => "bad_gateway"@,
        }) + "\"}\n"@,
        says(fields(r.headers), "content-type"@, "application/json"@),
        says(fields(r.headers), "x-request-id"@, request_id@),
        fields(r.headers).contains_key("retry-after"@) == (err == GatewayError::RateLimited),
        err == GatewayError::RateLimited ==> says(fields(r.headers), "retry-after"@, "1"@),
        fields(r.headers).contains_key("www-authenticate"@) == (err
            == GatewayError::Unauthorized),
        err == GatewayError::Unauthorized ==> says(
            fields(r.headers),
            "www-authenticate"@,
            "Basic realm=\"gatepup\""@,
        ),
{
    lemma_plain_value(request_id@);
    reveal_strlit("content-type");
    reveal_strlit("x-request-id");
    reveal_strlit("retry-after");
    reveal_strlit("www-authenticate");
    assert("content-type"@.len() == 12 && "x-request-id"@.len() == 12 && "retry-after"@.len() == 11
        && "www-authenticate"@.len() == 16);
    assert("content-type"@[0] == 'c' && "x-request-id"@[0] == 'x');
}

/// A request that went through counts as forwarded, one without a route as such, one
/// that failed upstream against the upstream, and one that was turned away as nothing.
pub proof fn requests_are_counted_once(failure: Option<GatewayError>, r: Tally)
    requires
        call_ensures(tally, (failure,), r),
    ensures
        failure is None <==> r == Tally::UpstreamRequest,
        failure == Some(GatewayError::RouteNotFound) <==> r == Tally::RouteNotFound,
        failure == Some(GatewayError::UpstreamMissing) || failure == Some(
            GatewayError::NoHealthyUpstream,
        ) || failure == Some(GatewayError::UpstreamTimeout) || failure == Some(
            GatewayError::UpstreamConnect,
        ) || failure == Some(GatewayError::BadGateway) <==> r == Tally::UpstreamError,
{
}

/// Where an admin request leads. Only `GET` is answered. With a token set, everything
/// but `/health` asks for it. The metrics are at their own path, which goes before the
/// fixed ones.
pub proof fn admin_requests_find_their_endpoint(
    state: AdminState,
    method: &str,
    path: &str,
    headers: HeaderMap,
    to: AdminRoute,
)
    requires
        call_ensures(route, (&state, method, path, &headers), to),
    ensures
        ({
            let open = path@ == "/health"@ || state.token is None || sends_credentials(
                headers,
                seq!['B', 'e', 'a', 'r', 'e', 'r', ' '] + state.token->0@,
            );
            let metrics = state.metrics_path is Some && state.metrics_path->0@ == path@;
            &&& method@ != "GET"@ <==> to == AdminRoute::MethodNotAllowed
            &&& method@ == "GET"@ && !open <==> to == AdminRoute::Unauthorized
            &&& method@ == "GET"@ && open && metrics <==> to == AdminRoute::Metrics
            &&& method@ == "GET"@ && open && !metrics && path@ == "/health"@ <==> to
                == AdminRoute::Health
            &&& method@ == "GET"@ && open && !metrics && path@ == "/routes"@ <==> to
                == AdminRoute::Routes
            &&& method@ == "GET"@ && open && !metrics && path@ == "/upstreams"@ <==> to
                == AdminRoute::Upstreams
            &&& method@ == "GET"@ && open && !metrics && path@ == "/config/effective"@ <==> to
                == AdminRoute::EffectiveConfig
        }),
{
    reveal_strlit("Bearer ");
    assert("Bearer "@ =~= seq!['B', 'e', 'a', 'r', 'e', 'r', ' ']);
    reveal_strlit("/health");
    reveal_strlit("/routes");
    reveal_strlit("/upstreams");
    reveal_strlit("/config/effective");
    assert("/health"@.len() == 7 && "/routes"@.len() == 7 && "/upstreams"@.len() == 10
        && "/config/effective"@.len() == 17);
    assert("/health"@[1] == 'h' && "/routes"@[1] == 'r');
}

/// An admin request that is turned away is told so in JSON.
pub proof fn admin_refusals_have_their_status(to: AdminRoute, r: Option<Reply>)
    requires
        call_ensures(refusal_reply, (to,), r),
    ensures
        r is Some <==> to == AdminRoute::MethodNotAllowed || to == AdminRoute::Unauthorized || to
            == AdminRoute::NotFound,
        to == AdminRoute::MethodNotAllowed ==> r->0.status == 405 && r->0.body@
            == "{\"error\":\"method_not_allowed\"}"@,
        to == AdminRoute::Unauthorized ==> r->0.status == 401 && r->0.body@
            == "{\"error\":\"unauthorized\"}"@ && says(
            fields(r->0.headers),
            "www-authenticate"@,
            "Bearer realm=\"gatepup-admin\""@,
        ),
        to == AdminRoute::NotFound ==> r->0.status == 404 && r->0.body@
            == "{\"error\":\"not_found\"}"@,
        r is Some ==> says(fields(r->0.headers), "content-type"@, "application/json"@),
{
    reveal_strlit("application/json");
    lemma_plain_value("application/json"@);
    reveal_strlit("content-type");
    reveal_strlit("www-authenticate");
    assert("content-type"@.len() == 12 && "www-authenticate"@.len() == 16);
}

/// An admin answer has the status, the content type and the body that it was given.
pub proof fn admin_answers_are_as_given(status: u16, content_type: &str, body: String, r: Reply)
    requires
        call_ensures(response, (status, content_type, body), r),
        printable(content_type@),
    ensures
        r.status == status,
        r.body@ == body@,
        says(fields(r.headers), "content-type"@, content_type@),
        forall|name: Seq<char>| #[trigger]
            fields(r.headers).contains_key(name) ==> name == "content-type"@,
{
    lemma_plain_value(content_type@);
}

/// The status and the code of a failure are those of its response, and the client is at
/// fault where the status is between 400 and 499.
pub proof fn failures_are_named(
    err: GatewayError,
    parts: (u16, &'static str),
    client: bool,
    request_id: &str,
    r: Reply,
)
    requires
        call_ensures(GatewayError::parts, (err,), parts),
        call_ensures(GatewayError::is_client_error, (err,), client),
        call_ensures(error_response, (err, request_id), r),
    ensures
        r.status == parts.0,
        client == (err is Unauthorized || err is Forbidden || err is RouteNotFound
            || err is PayloadTooLarge || err is RateLimited),
        client <==> 400 <= parts.0 < 500,
        !client ==> 500 <= parts.0 < 600,
{
}

/// A request id is the time and behind it the sequence number with at least eight digits,
/// both in hexadecimal: two ids with different sequence numbers differ while these have
/// no more than eight digits, and one made later goes on counting.
pub proof fn request_ids_differ(
    nanos: u128,
    number: u64,
    other_nanos: u128,
    other_number: u64,
    a: String,
    b: String,
)
    requires
        call_ensures(request_id, (nanos, number), a),
        call_ensures(request_id, (other_nanos, other_number), b),
        number < 0x1_0000_0000,
        other_number < 0x1_0000_0000,
    ensures
        number != other_number ==> a@ != b@,
        a@.len() >= 9,
        number < 16 && nanos < 10 ==> a@ == seq![('0' as u32 + nanos) as char] + seq![
            '0',
            '0',
            '0',
            '0',
            '0',
            '0',
            '0',
        ] + seq![
            if number < 10 {
                ('0' as u32 + number) as char
            } else {
                ('a' as u32 + (number - 10)) as char
            },
        ],
        nanos >= 16 && other_nanos == nanos / 16 && other_number == number ==> a@.len() == b@.len()
            + 1,
{
    if number != other_number {
        request_ids_are_unique(
            nanos as nat,
            number as nat,
            other_nanos as nat,
            other_number as nat,
        );
    }
    if number < 16 && nanos < 10 {
        assert(a@ =~= seq![('0' as u32 + nanos) as char] + seq!['0', '0', '0', '0', '0', '0', '0']
            + seq![
            if number < 10 {
                ('0' as u32 + number) as char
            } else {
                ('a' as u32 + (number - 10)) as char
            },
        ]);
    }
}

/// New ids are made with the numbers from zero on, one after the other.
pub proof fn ids_are_numbered_in_turn(
    fresh: RequestIds,
    ids: &mut RequestIds,
    id: String,
    again: &mut RequestIds,
    next: String,
)
    requires
        call_ensures(RequestIds::new, (), fresh),
        call_ensures(RequestIds::generate_request_id, (ids,), id),
        *old(again) == *final(ids),
        call_ensures(RequestIds::generate_request_id, (again,), next),
        old(ids).next < 0xffff_ffff,
    ensures
        fresh.next == 0,
        final(ids).next == old(ids).next + 1,
        id@ != next@,
{
    let n = choose|n: nat| id@ == #[trigger] id_text(n, old(ids).next as nat);
    let m = choose|m: nat| next@ == #[trigger] id_text(m, old(again).next as nat);
    request_ids_are_unique(n, old(ids).next as nat, m, old(again).next as nat);
}

/// Bytes read as text where they are printable characters of ASCII or tabs, each as its
/// character; one that is not makes the whole unreadable.
pub proof fn header_values_read_as_ascii(value: Vec<u8>, r: Option<String>)
    requires
        call_ensures(ascii_text, (&value,), r),
    ensures
        r is Some <==> forall|i: int|
            0 <= i < value@.len() ==> (32 <= #[trigger] value@[i] <= 126 || value@[i] == 9),
        r matches Some(t) ==> t@.len() == value@.len() && forall|i: int|
            0 <= i < value@.len() ==> t@[i] as u32 == #[trigger] value@[i] as u32,
{
    if let Some(t) = r {
        assert(t@ == value@.map_values(|b: u8| b as char));
    }
    if forall|i: int|
        0 <= i < value@.len() ==> (32 <= #[trigger] value@[i] <= 126 || value@[i] == 9) {
        assert forall|i: int| 0 <= i < value@.len() implies crate::headers::visible_byte(
            #[trigger] value@[i],
        ) by {}
    } else {
        let i = choose|i: int|
            0 <= i < value@.len() && !(32 <= #[trigger] value@[i] <= 126 || value@[i] == 9);
        assert(!crate::headers::visible_byte(value@[i]));
    }
}

/// A header that is set has that one value, and reads back as it; no other header
/// changes. A text that may not stand in a header changes nothing.
pub proof fn headers_are_set_and_read_back(
    headers: &mut HeaderMap,
    name: &str,
    value: &str,
    read: Option<String>,
    had: Option<String>,
    other: Seq<char>,
)
    requires
        call_ensures(set_header, (headers, name, value), ()),
        call_ensures(header_text, (final(headers), name), read),
        call_ensures(header_text, (old(headers), name), had),
    ensures
        printable(value@) ==> says(fields(*final(headers)), name@, value@) && (read matches Some(t)
            && t@ == value@),
        other != name@ ==> fields(*final(headers)).contains_key(other) == fields(
            *old(headers),
        ).contains_key(other) && (fields(*old(headers)).contains_key(other) ==> fields(
            *final(headers),
        )[other] == fields(*old(headers))[other]),
        !fields(*old(headers)).contains_key(name@) ==> had is None,
        (exists|i: int|
            0 <= i < encode_utf8(value@).len() && (#[trigger] encode_utf8(value@)[i] < 32
                && encode_utf8(value@)[i] != 9 || encode_utf8(value@)[i] == 127)) ==> fields(
            *final(headers),
        ) == fields(*old(headers)),
{
    if printable(value@) {
        lemma_plain_value(value@);
    }
    if exists|i: int|
        0 <= i < encode_utf8(value@).len() && (#[trigger] encode_utf8(value@)[i] < 32
            && encode_utf8(value@)[i] != 9 || encode_utf8(value@)[i] == 127) {
        let i = choose|i: int|
            0 <= i < encode_utf8(value@).len() && (#[trigger] encode_utf8(value@)[i] < 32
                && encode_utf8(value@)[i] != 9 || encode_utf8(value@)[i] == 127);
        assert(!crate::headers::value_byte(encode_utf8(value@)[i]));
    }
}

/// What the client accepts is what its `Accept-Encoding` says, and nothing where it says
/// nothing.
pub proof fn accepted_encodings_are_those_of_the_client(
    headers: HeaderMap,
    r: String,
    said: Seq<char>,
)
    requires
        call_ensures(accepted_encodings, (&headers,), r),
        printable(said),
    ensures
        first_says(headers, "accept-encoding"@, said) ==> r@ == said,
        !fields(headers).contains_key("accept-encoding"@) ==> r@.len() == 0,
{
    lemma_plain_value(said);
}

/// The admin server answers in JSON as it is told to, and asks for a bearer token.
pub proof fn admin_documents_are_json(status: u16, body: String, r: Reply, asks: Reply)
    requires
        call_ensures(json, (status, body), r),
        call_ensures(unauthorized, (), asks),
    ensures
        r.status == status,
        r.body == body,
        says(fields(r.headers), "content-type"@, "application/json"@),
        asks.status == 401,
        asks.body@ == "{\"error\":\"unauthorized\"}"@,
        says(fields(asks.headers), "content-type"@, "application/json"@),
        says(fields(asks.headers), "www-authenticate"@, "Bearer realm=\"gatepup-admin\""@),
{
    reveal_strlit("content-type");
    reveal_strlit("www-authenticate");
    assert("content-type"@.len() == 12 && "www-authenticate"@.len() == 16);
    reveal_strlit("application/json");
    lemma_plain_value("application/json"@);
}

/// The first value of a header does not read as text: a byte of it is a control character
/// other than the tab, or no ASCII.
pub open spec fn unreadable(headers: HeaderMap, name: Seq<char>) -> bool {
    &&& fields(headers).contains_key(name)
    &&& fields(headers)[name].len() > 0
    &&& exists|i: int|
        0 <= i < fields(headers)[name][0].len() && (#[trigger] fields(headers)[name][0][i] > 126
            || fields(headers)[name][0][i] < 32 && fields(headers)[name][0][i] != 9)
}

proof fn lemma_unreadable(headers: HeaderMap, name: Seq<char>)
    requires
        unreadable(headers, name),
    ensures
        text_of(headers, name) is None,
{
    let v = fields(headers)[name][0];
    let i = choose|i: int|
        0 <= i < v.len() && (#[trigger] v[i] > 126 || v[i] < 32 && v[i] != 9);
    assert(!crate::headers::visible_byte(v[i]));
}

/// A header that does not read as text counts as if it were not there: the host is that
/// of the address, no upgrade is asked for, no length is declared and no request id is
/// carried.
pub proof fn unreadable_headers_do_not_count(
    headers: HeaderMap,
    authority: Option<&str>,
    host: String,
    upgrade: bool,
    length: Option<usize>,
    ids: &mut RequestIds,
    id: String,
    name: Seq<char>,
)
    requires
        call_ensures(request_host, (&headers, authority), host),
        call_ensures(is_upgrade, (&headers,), upgrade),
        call_ensures(content_length, (&headers,), length),
        call_ensures(RequestIds::ensure_request_id, (ids, &headers), id),
        !name.contains(':'),
        authority matches Some(a) ==> a@ == name,
    ensures
        unreadable(headers, "host"@) && authority is Some ==> host@ == lower(name),
        unreadable(headers, "host"@) && authority is None ==> host@.len() == 0,
        unreadable(headers, "connection"@) ==> !upgrade,
        unreadable(headers, "content-length"@) ==> length is None,
        unreadable(headers, "x-request-id"@) && old(ids).next < u64::MAX ==> final(ids).next
            == old(ids).next + 1,
{
    if unreadable(headers, "host"@) {
        lemma_unreadable(headers, "host"@);
        lemma_cut(name, ':');
        assert(before(name, ':') =~= name);
        lemma_cut(Seq::<char>::empty(), ':');
        assert(before(Seq::<char>::empty(), ':').len() == 0);
    }
    if unreadable(headers, "connection"@) {
        lemma_unreadable(headers, "connection"@);
    }
    if unreadable(headers, "content-length"@) {
        lemma_unreadable(headers, "content-length"@);
    }
    if unreadable(headers, "x-request-id"@) {
        lemma_unreadable(headers, "x-request-id"@);
    }
}

/// A request with an empty request id, or with none, gets one that is made of the time and
/// of the next number, just as any new one is.
pub proof fn missing_request_ids_are_made(
    ids: &mut RequestIds,
    headers: HeaderMap,
    id: String,
    other: &mut RequestIds,
    made: String,
)
    requires
        call_ensures(RequestIds::ensure_request_id, (ids, &headers), id),
        call_ensures(RequestIds::generate_request_id, (other,), made),
        !fields(headers).contains_key("x-request-id"@) || first_says(
            headers,
            "x-request-id"@,
            Seq::empty(),
        ),
        old(ids).next < 0x1_0000_0000,
        old(other).next < 0x1_0000_0000,
    ensures
        old(other).next == old(ids).next ==> final(ids).next == final(other).next,
        old(other).next != old(ids).next ==> id@ != made@,
{
    lemma_plain_value(Seq::<char>::empty());
    let n = choose|n: nat| id@ == #[trigger] id_text(n, old(ids).next as nat);
    let m = choose|m: nat| made@ == #[trigger] id_text(m, old(other).next as nat);
    if old(other).next != old(ids).next {
        request_ids_are_unique(n, old(ids).next as nat, m, old(other).next as nat);
    }
}

/// A `Content-Length` that is no number declares no length, and is under any limit.
pub proof fn lengths_that_are_no_numbers_do_not_count(
    headers: HeaderMap,
    text: Seq<char>,
    limit: u64,
    length: Option<usize>,
    over: bool,
)
    requires
        call_ensures(content_length, (&headers,), length),
        call_ensures(body_exceeds_limit, (&headers, limit), over),
        printable(text),
        first_says(headers, "content-length"@, text),
        no_number(text),
    ensures
        length is None,
        !over,
{
    lemma_plain_value(text);
    lemma_no_number(text, usize::MAX as nat);
}

} // verus!
