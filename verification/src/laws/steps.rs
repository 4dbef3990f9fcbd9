//! How the steps of handling a request are put together.

use http::HeaderMap;
use vstd::prelude::*;
use crate::compress::{choose_encoding, maybe_compress, should_compress, Compression, Encoding};
use crate::gateway::GatewayError;
use crate::headers::{fields, fits};
use crate::laws::forwarding::{is_set_anew, lemma_names, stays_behind};
use crate::laws::plans::first_listener;
use crate::net::IpAddress;
use crate::proxy::{
    finish_response, plan_forward, plan_upgrade, screen, try_finish_response, try_plan_forward,
    try_plan_upgrade, Admitted, ForwardPlan, ReadAhead, RequestHead, UpgradePlan,
};
use crate::rate_limit::RateLimiter;
use crate::rewrite::{dropped_names, rewrite_headers, upgrade_dropped_names, upgrade_headers};
use crate::router::{lemma_without, CompiledRoute, HeaderOps, Router};
use crate::snapshot::RuntimeConfig;
use crate::upstream::{is_listed, UpstreamRuntime};
use crate::uri::parse_authority;

verus! {

/// A header map takes `count` more names.
pub open spec fn takes(headers: HeaderMap, count: nat) -> bool {
    fields(headers).dom().finite() && fields(headers).dom().len() + count <= 6554
}

/// The text of an address, where there is one.
pub open spec fn is_text(original: Option<&str>, text: Option<String>) -> bool {
    match (original, text) {
        (Some(a), Some(b)) => a@ == b@,
        (None, None) => true,
        _ => false,
    }
}

/// A request that goes upstream has its headers rewritten, then the rules of its route
/// applied, and its path and query as the route forwards them.
pub proof fn requests_are_rewritten_then_ruled(
    snapshot: RuntimeConfig,
    to: Admitted,
    head: RequestHead,
    host: &str,
    scheme: &str,
    peer: &str,
    request_id: &str,
    r: Result<ForwardPlan, GatewayError>,
    rewritten: &mut HeaderMap,
    ruled: &mut HeaderMap,
    original: Option<&str>,
    path: String,
)
    requires
        call_ensures(plan_forward, (&snapshot, to, &head, host, scheme, peer, request_id), r),
        fields(*old(rewritten)) == fields(head.headers),
        call_ensures(rewrite_headers, (rewritten, host, scheme, peer, request_id), ()),
        fields(*old(ruled)) == fields(*final(rewritten)),
        call_ensures(
            HeaderOps::apply,
            (
                &snapshot.listeners@[to.listener as int].router.routes@[to.route as int].request_headers,
                ruled,
            ),
            (),
        ),
        is_text(original, head.path_and_query),
        call_ensures(
            CompiledRoute::rewritten_path_and_query,
            (
                &snapshot.listeners@[to.listener as int].router.routes@[to.route as int],
                original,
            ),
            path,
        ),
    ensures
        r matches Ok(plan) ==> fields(plan.headers) == fields(*final(ruled))
            && plan.path_and_query@ == path@,
{
}

/// Trying to plan a request gives its plan, unless its headers are too many to rewrite.
pub proof fn trying_a_request_plans_it(
    snapshot: RuntimeConfig,
    to: Admitted,
    head: RequestHead,
    host: &str,
    scheme: &str,
    peer: &str,
    request_id: &str,
    planned: Result<ForwardPlan, GatewayError>,
    r: Option<Result<ForwardPlan, GatewayError>>,
)
    requires
        call_ensures(plan_forward, (&snapshot, to, &head, host, scheme, peer, request_id), planned),
        call_ensures(try_plan_forward, (&snapshot, to, &head, host, scheme, peer, request_id), r),
    ensures
        r is Some <==> takes(
            head.headers,
            4 + snapshot.listeners@[to.listener as int].router.routes@[to.route as int].request_headers.set@.len(),
        ),
        r matches Some(tried) ==> match (planned, tried) {
            (Ok(a), Ok(b)) => fields(a.headers) == fields(b.headers) && a.path_and_query@
                == b.path_and_query@ && a.replayable == b.replayable,
            (Err(a), Err(b)) => a == b,
            _ => false,
        },
{
}

/// An upgrade request goes to the target whose turn it is, at the host and port of that
/// target, with the headers of an upgrade to it and the path and query that its route
/// forwards. A target or a path that is no address makes a bad gateway.
pub proof fn upgrades_are_addressed_to_their_target(
    upstream: &mut UpstreamRuntime,
    route: CompiledRoute,
    head: RequestHead,
    host: &str,
    scheme: &str,
    peer: &str,
    request_id: &str,
    r: Result<UpgradePlan, GatewayError>,
    picking: &mut UpstreamRuntime,
    picked: Option<usize>,
    url: &str,
    at: Option<(String, u16)>,
    authority: &str,
    headers: HeaderMap,
    original: Option<&str>,
    path: String,
)
    requires
        call_ensures(
            plan_upgrade,
            (upstream, &route, &head, host, scheme, peer, request_id),
            r,
        ),
        old(upstream).wf(),
        *old(picking) == *old(upstream),
        call_ensures(UpstreamRuntime::pick_target, (picking,), picked),
        picked matches Some(i) ==> url@ == old(upstream).targets@[i as int].url@,
        call_ensures(parse_authority, (url,), at),
        at matches Some((name, port)) ==> authority@ == name@ + ":"@ + crate::text::decimal_of(
            port as nat,
        ),
        call_ensures(
            upgrade_headers,
            (&head.headers, authority, host, scheme, peer, request_id),
            headers,
        ),
        is_text(original, head.path_and_query),
        call_ensures(CompiledRoute::rewritten_path_and_query, (&route, original), path),
    ensures
        *final(upstream) == *final(picking),
        picked is None ==> r == Err::<UpgradePlan, GatewayError>(GatewayError::NoHealthyUpstream),
        picked is Some && at is None ==> r == Err::<UpgradePlan, GatewayError>(
            GatewayError::BadGateway,
        ),
        r matches Err(e) ==> e == GatewayError::NoHealthyUpstream || e == GatewayError::BadGateway,
        r matches Ok(plan) ==> {
            &&& picked == Some(plan.target)
            &&& at matches Some((name, port)) && plan.host@ == name@ && plan.port == port
            &&& fields(plan.headers) == fields(headers)
            &&& plan.path_and_query@ == path@
        },
        picked is Some && at is Some && crate::uri::uri_of(path@) is Some ==> r is Ok,
{
}

/// Trying to plan an upgrade gives its plan, unless its headers are too many to rewrite;
/// then no target has taken its turn.
pub proof fn trying_an_upgrade_plans_it(
    upstream: &mut UpstreamRuntime,
    planning: &mut UpstreamRuntime,
    route: CompiledRoute,
    head: RequestHead,
    host: &str,
    scheme: &str,
    peer: &str,
    request_id: &str,
    planned: Result<UpgradePlan, GatewayError>,
    r: Option<Result<UpgradePlan, GatewayError>>,
)
    requires
        *old(upstream) == *old(planning),
        call_ensures(
            plan_upgrade,
            (planning, &route, &head, host, scheme, peer, request_id),
            planned,
        ),
        call_ensures(
            try_plan_upgrade,
            (upstream, &route, &head, host, scheme, peer, request_id),
            r,
        ),
    ensures
        r is Some <==> takes(head.headers, 5),
        r is None ==> *final(upstream) == *old(upstream),
        r is Some ==> *final(upstream) == *final(planning),
        r matches Some(tried) ==> match (planned, tried) {
            (Ok(a), Ok(b)) => fields(a.headers) == fields(b.headers) && a.path_and_query@
                == b.path_and_query@ && a.target == b.target && a.host@ == b.host@ && a.port
                == b.port,
            (Err(a), Err(b)) => a == b,
            _ => false,
        },
{
}

/// An upgrade request tells where it came from as any other request does.
pub proof fn upgrades_tell_the_origin_too(
    headers: HeaderMap,
    authority: &str,
    host: &str,
    scheme: &str,
    peer: &str,
    request_id: &str,
    out: HeaderMap,
    plain: &mut HeaderMap,
    name: Seq<char>,
)
    requires
        call_ensures(
            upgrade_headers,
            (&headers, authority, host, scheme, peer, request_id),
            out,
        ),
        fields(*old(plain)) == fields(headers),
        call_ensures(rewrite_headers, (plain, host, scheme, peer, request_id), ()),
        is_set_anew(name),
    ensures
        fields(out).contains_key(name) == fields(*final(plain)).contains_key(name),
        fields(out).contains_key(name) ==> fields(out)[name] == fields(*final(plain))[name],
{
    lemma_names();
    let f = fields(headers);
    let d = dropped_names();
    let u = upgrade_dropped_names();
    assert(d.take(9) =~= d);
    assert(u.take(7) =~= u);
    let hops = "x-forwarded-for"@;
    assert(is_set_anew(hops));
    assert(!stays_behind(name) && !stays_behind(hops));
    assert(d.contains(name) == stays_behind(name));
    assert(d.contains(hops) == stays_behind(hops));
    assert(u.contains(name) == (stays_behind(name) && name != "connection"@ && name
        != "upgrade"@));
    assert(u.contains(hops) == (stays_behind(hops) && hops != "connection"@ && hops
        != "upgrade"@));
    lemma_without(f, d, 9, name);
    lemma_without(f, d, 9, hops);
    lemma_without(f, u, 7, name);
    lemma_without(f, u, 7, hops);
    assert(stays_behind("host"@));
}

/// A response is compressed in the encoding that was agreed on, where it is fit for it.
pub proof fn responses_are_compressed_as_agreed(
    headers: &mut HeaderMap,
    accept: &str,
    comp: Compression,
    fit: bool,
    chosen: Option<Encoding>,
    r: Option<Encoding>,
)
    requires
        call_ensures(maybe_compress, (headers, accept, &comp), r),
        call_ensures(should_compress, (old(headers), &comp), fit),
        call_ensures(choose_encoding, (accept, &comp), chosen),
    ensures
        r == (if fit {
            chosen
        } else {
            None
        }),
{
}

/// A response has the rules of its route applied, and is compressed after that where
/// compression is on.
pub proof fn responses_are_ruled_then_compressed(
    headers: &mut HeaderMap,
    route: CompiledRoute,
    compression: Option<Compression>,
    accept: &str,
    r: Option<Encoding>,
    ruled: &mut HeaderMap,
    squeezed: &mut HeaderMap,
    agreed: Option<Encoding>,
)
    requires
        call_ensures(finish_response, (headers, &route, &compression, accept), r),
        fields(*old(ruled)) == fields(*old(headers)),
        call_ensures(HeaderOps::apply, (&route.response_headers, ruled), ()),
        fields(*old(squeezed)) == fields(*final(ruled)),
        compression matches Some(comp) ==> call_ensures(
            maybe_compress,
            (squeezed, accept, &comp),
            agreed,
        ),
    ensures
        compression is Some ==> r == agreed && fields(*final(headers)) == fields(*final(squeezed)),
        compression is None ==> r is None && fields(*final(headers)) == fields(*final(ruled)),
{
}

/// Trying to finish a response finishes it, unless its headers are too many; then it is
/// left alone.
pub proof fn trying_a_response_finishes_it(
    headers: &mut HeaderMap,
    route: CompiledRoute,
    compression: Option<Compression>,
    accept: &str,
    r: Option<Option<Encoding>>,
    finished: &mut HeaderMap,
    encoding: Option<Encoding>,
)
    requires
        call_ensures(try_finish_response, (headers, &route, &compression, accept), r),
        *old(finished) == *old(headers),
        call_ensures(finish_response, (finished, &route, &compression, accept), encoding),
    ensures
        r is Some <==> takes(*old(headers), route.response_headers.set@.len() + 2),
        r is None ==> *final(headers) == *old(headers),
        r matches Some(e) ==> e == encoding && fields(*final(headers)) == fields(*final(finished)),
{
}

/// A request that comes as far as the rate limit of its route is charged there, to its
/// client, whatever becomes of it.
pub proof fn requests_are_charged_to_their_client(
    snapshot: RuntimeConfig,
    limiter: &mut RateLimiter,
    listener: &str,
    host: &str,
    head: RequestHead,
    client: IpAddress,
    now_ns: u64,
    r: Result<Admitted, GatewayError>,
    l: int,
    i: int,
    name: &str,
    charging: &mut RateLimiter,
    passes: bool,
)
    requires
        call_ensures(screen, (&snapshot, limiter, listener, host, &head, client, now_ns), r),
        first_listener(snapshot, l, listener@),
        snapshot.listeners@[l].router.chosen(host@, head.path@) == Some(i),
        snapshot.listeners@[l].router.routes@[i].rate_limit is Some,
        name@ == snapshot.listeners@[l].router.routes@[i].name@,
        old(charging)@ == old(limiter)@,
        call_ensures(
            RateLimiter::check,
            (
                charging,
                name,
                client,
                snapshot.listeners@[l].router.routes@[i].rate_limit->0.nano_requests_per_second,
                snapshot.listeners@[l].router.routes@[i].rate_limit->0.burst,
                now_ns,
            ),
            passes,
        ),
        r is Ok || r == Err::<Admitted, GatewayError>(GatewayError::RateLimited) || r == Err::<
            Admitted,
            GatewayError,
        >(GatewayError::Unauthorized),
    ensures
        final(limiter)@ == final(charging)@,
        r == Err::<Admitted, GatewayError>(GatewayError::RateLimited) <==> !passes,
{
    crate::laws::plans::lemma_listener_at(
        snapshot,
        snapshot.listeners@.len() as int,
        listener@,
    );
    let found = snapshot.listener_at(snapshot.listeners@.len() as int, listener@);
    if let Some(k) = found {
        if k < l {
            assert(snapshot.listeners@[k].name@ != listener@);
        }
        if l < k {
            assert(snapshot.listeners@[l].name@ != listener@);
        }
    }
    assert(found == Some(l));
}

/// The route that a router gives is the one that it finds.
pub proof fn the_matched_route_is_the_found_one(
    router: Router,
    host: &str,
    path: &str,
    found: Option<usize>,
    matched: Option<&CompiledRoute>,
)
    requires
        call_ensures(Router::find_route, (&router, host, path), found),
        call_ensures(Router::match_route, (&router, host, path), matched),
    ensures
        found is Some == matched is Some,
        found matches Some(i) ==> matched == Some(&router.routes@[i as int]),
{
}

/// A header map has room up to 6554 names.
pub proof fn header_maps_take_so_many_names(headers: HeaderMap, count: usize, room: bool)
    requires
        call_ensures(fits, (&headers, count), room),
    ensures
        room == takes(headers, count as nat),
{
}

/// Reading ahead starts with nothing read.
pub proof fn nothing_is_read_at_first(reading: ReadAhead)
    requires
        call_ensures(ReadAhead::new, (), reading),
    ensures
        reading.buffered == 0,
{
}

/// A list names exactly what stands in it.
pub proof fn lists_name_what_stands_in_them(list: Vec<String>, text: &str, found: bool)
    requires
        call_ensures(is_listed, (&list, text), found),
    ensures
        found == exists|i: int| 0 <= i < list@.len() && #[trigger] list@[i]@ == text@,
{
}

} // verus!
