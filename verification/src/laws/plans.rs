//! What becomes of a request: who is turned away, what goes upstream and what comes back.

use http::HeaderMap;
use vstd::prelude::*;
use crate::compress::{Compression, Encoding};
use crate::gateway::GatewayError;
use crate::headers::{fields, Fields};
use crate::laws::admission::sends_credentials;
use crate::laws::forwarding::{passes_on, printable, says, stays_behind};
use crate::laws::messages::{first_says, lemma_declared};
use crate::laws::rates::{elapsed, tokens_after};
use crate::net::IpAddress;
use crate::proxy::{
    finish_response, plan_forward, plan_upgrade, screen, Admitted, BodyEvent, BodyKind, ForwardPlan,
    ReadAhead, RequestHead, UpgradePlan,
};
use crate::rate_limit::{Bucket, RateLimiter};
use crate::rewrite::{dropped_names, rewritten};
use crate::router::{lemma_without, set_wins_over_remove, CompiledRoute, HeaderOps};
use crate::snapshot::RuntimeConfig;
use crate::text::decimal_of;
use crate::upstream::UpstreamRuntime;
use crate::uri::uri_of;

verus! {

/// The first listener of a name is at `l`.
pub open spec fn first_listener(snapshot: RuntimeConfig, l: int, name: Seq<char>) -> bool {
    &&& 0 <= l < snapshot.listeners@.len()
    &&& snapshot.listeners@[l].name@ == name
    &&& forall|k: int| 0 <= k < l ==> #[trigger] snapshot.listeners@[k].name@ != name
}

pub proof fn lemma_listener_at(snapshot: RuntimeConfig, n: int, name: Seq<char>)
    requires
        0 <= n <= snapshot.listeners@.len(),
    ensures
        match snapshot.listener_at(n, name) {
            Some(l) => 0 <= l < n && first_listener(snapshot, l, name),
            None => forall|k: int| 0 <= k < n ==> #[trigger] snapshot.listeners@[k].name@ != name,
        },
    decreases n,
{
    if n > 0 {
        lemma_listener_at(snapshot, n - 1, name);
    }
}

/// A client address that the lists of a route do not let in.
pub open spec fn is_shut_out(route: CompiledRoute, ip: IpAddress) -> bool {
    ||| exists|j: int|
        0 <= j < route.ip_access.deny@.len() && (#[trigger] route.ip_access.deny@[j]).holds(ip)
    ||| route.ip_access.allow@.len() > 0 && forall|i: int|
        0 <= i < route.ip_access.allow@.len() ==> !(#[trigger] route.ip_access.allow@[i]).holds(ip)
}

/// The tokens that a client has on a route at this time.
pub open spec fn tokens_left(
    buckets: Map<(Seq<char>, IpAddress), Bucket>,
    route: CompiledRoute,
    ip: IpAddress,
    now_ns: u64,
) -> nat {
    let key = (route.name@, ip);
    let limit = route.rate_limit->0;
    if buckets.contains_key(key) {
        tokens_after(
            buckets[key].tokens as nat,
            limit.nano_requests_per_second,
            limit.burst,
            elapsed(buckets[key].last_ns, now_ns),
        )
    } else {
        limit.burst as nat * 1_000_000_000_000_000_000
    }
}

/// Credentials that a route does not take.
pub open spec fn lacks_credentials(route: CompiledRoute, headers: HeaderMap) -> bool {
    route.basic_auth matches Some(auth) && forall|i: int|
        0 <= i < auth.accepted@.len() ==> !sends_credentials(
            headers,
            #[trigger] auth.accepted@[i]@,
        )
}

/// A request is turned away for the first of these that holds: there is no route for it,
/// its route leads to no upstream, its address is shut out, its client is too fast, its
/// credentials are missing. Otherwise it is let in, to the route and the upstream that
/// the route names. Only a client that may come in by its address is charged.
pub proof fn requests_are_turned_away_in_order(
    snapshot: RuntimeConfig,
    limiter: &mut RateLimiter,
    listener: &str,
    host: &str,
    head: RequestHead,
    client: IpAddress,
    now_ns: u64,
    r: Result<Admitted, GatewayError>,
    l: int,
    i: int,
)
    requires
        call_ensures(screen, (&snapshot, limiter, listener, host, &head, client, now_ns), r),
        first_listener(snapshot, l, listener@),
        snapshot.listeners@[l].router.chosen(host@, head.path@) == Some(i),
    ensures
        ({
            let route = snapshot.listeners@[l].router.routes@[i];
            let missing = forall|k: int|
                0 <= k < snapshot.upstreams@.len() ==> #[trigger] snapshot.upstreams@[k].name@
                    != route.upstream@;
            let shut_out = is_shut_out(route, client);
            let too_fast = route.rate_limit is Some && tokens_left(
                old(limiter)@,
                route,
                client,
                now_ns,
            ) < 1_000_000_000_000_000_000;
            let unknown = lacks_credentials(route, head.headers);
            &&& missing ==> r == Err::<Admitted, GatewayError>(GatewayError::UpstreamMissing)
            &&& !missing && shut_out ==> r == Err::<Admitted, GatewayError>(
                GatewayError::Forbidden,
            )
            &&& !missing && !shut_out && too_fast ==> r == Err::<Admitted, GatewayError>(
                GatewayError::RateLimited,
            )
            &&& !missing && !shut_out && !too_fast && unknown ==> r == Err::<
                Admitted,
                GatewayError,
            >(GatewayError::Unauthorized)
            &&& !missing && !shut_out && !too_fast && !unknown ==> (r matches Ok(a) && a.listener
                == l && a.route == i && snapshot.upstreams@[a.upstream as int].name@
                == route.upstream@)
            &&& missing || shut_out || route.rate_limit is None ==> final(limiter)@ == old(limiter)@
        }),
{
    let route = snapshot.listeners@[l].router.routes@[i];
    lemma_listener_at(snapshot, snapshot.listeners@.len() as int, listener@);
    let found = snapshot.listener_at(snapshot.listeners@.len() as int, listener@);
    assert(found == Some(l)) by {
        if let Some(k) = found {
            if k < l {
                assert(snapshot.listeners@[k].name@ != listener@);
            }
            if l < k {
                assert(snapshot.listeners@[l].name@ != listener@);
            }
        } else {
            assert(snapshot.listeners@[l].name@ != listener@);
        }
    }
    assert((forall|k: int| !snapshot.has_upstream_at(k, route.upstream@)) == (forall|k: int|
        0 <= k < snapshot.upstreams@.len() ==> #[trigger] snapshot.upstreams@[k].name@
            != route.upstream@)) by {
        if forall|k: int|
            0 <= k < snapshot.upstreams@.len() ==> #[trigger] snapshot.upstreams@[k].name@
                != route.upstream@ {
            assert forall|k: int| !snapshot.has_upstream_at(k, route.upstream@) by {
                if 0 <= k < snapshot.upstreams@.len() {
                    assert(snapshot.upstreams@[k].name@ != route.upstream@);
                }
            }
        }
        if forall|k: int| !snapshot.has_upstream_at(k, route.upstream@) {
            assert forall|k: int| 0 <= k < snapshot.upstreams@.len() implies #[trigger]
            snapshot.upstreams@[k].name@ != route.upstream@ by {
                assert(!snapshot.has_upstream_at(k, route.upstream@));
            }
        }
    }
    if let Some(limit) = route.rate_limit {
        let key = (route.name@, client);
        let rate = limit.nano_requests_per_second;
        let b = if old(limiter)@.contains_key(key) {
            old(limiter)@[key]
        } else {
            Bucket::fresh(rate, limit.burst, now_ns)
        };
        crate::laws::rates::lemma_refilled(Bucket { rate, capacity: limit.burst, ..b }, now_ns);
        assert(rate as nat * 0 == 0) by (nonlinear_arith);
    }
    assert(route.ip_access.admits(client) == !is_shut_out(route, client));
    if let Some(auth) = route.basic_auth {
        assert(auth.admits(head.headers) == !lacks_credentials(route, head.headers)) by {
            if auth.admits(head.headers) {
                let k = choose|k: int|
                    0 <= k < auth.accepted@.len() && crate::access::presents(
                        head.headers,
                        #[trigger] auth.accepted@[k]@,
                    );
                assert(sends_credentials(head.headers, auth.accepted@[k]@));
            }
            if !lacks_credentials(route, head.headers) {
                let k = choose|k: int|
                    0 <= k < auth.accepted@.len() && sends_credentials(
                        head.headers,
                        #[trigger] auth.accepted@[k]@,
                    );
                assert(crate::access::presents(head.headers, auth.accepted@[k]@));
            }
        }
    }
}

/// A request to a listener that is not there, or that no route takes, has no route, and
/// nobody is charged for it.
pub proof fn requests_without_a_route_are_not_found(
    snapshot: RuntimeConfig,
    limiter: &mut RateLimiter,
    listener: &str,
    host: &str,
    head: RequestHead,
    client: IpAddress,
    now_ns: u64,
    r: Result<Admitted, GatewayError>,
)
    requires
        call_ensures(screen, (&snapshot, limiter, listener, host, &head, client, now_ns), r),
        forall|l: int|
            first_listener(snapshot, l, listener@) ==> #[trigger] snapshot.listeners@[l].router.chosen(
                host@,
                head.path@,
            ) is None,
    ensures
        r == Err::<Admitted, GatewayError>(GatewayError::RouteNotFound),
        final(limiter)@ == old(limiter)@,
{
    lemma_listener_at(snapshot, snapshot.listeners@.len() as int, listener@);
    if let Some(l) = snapshot.listener_at(snapshot.listeners@.len() as int, listener@) {
        assert(snapshot.listeners@[l].router.chosen(host@, head.path@) is None);
    }
}

/// Whether the rules set or remove this header.
pub open spec fn ruled(ops: HeaderOps, name: Seq<char>) -> bool {
    ||| exists|i: int| 0 <= i < ops.set@.len() && (#[trigger] ops.set@[i]).0@ == name
    ||| exists|i: int| 0 <= i < ops.remove@.len() && #[trigger] ops.remove@[i]@ == name
}

/// What header rules do to one header.
proof fn lemma_rules(ops: HeaderOps, f: Fields, name: Seq<char>)
    ensures
        !ruled(ops, name) ==> passes_on(f, ops.applied(f), name),
        forall|i: int|
            0 <= i < ops.set@.len() && (#[trigger] ops.set@[i]).0@ == name && (forall|j: int|
                i < j < ops.set@.len() ==> (#[trigger] ops.set@[j]).0@ != name) ==> says(
                ops.applied(f),
                name,
                ops.set@[i].1@,
            ),
        (forall|i: int| 0 <= i < ops.set@.len() ==> (#[trigger] ops.set@[i]).0@ != name) && (
        exists|i: int| 0 <= i < ops.remove@.len() && #[trigger] ops.remove@[i]@ == name)
            ==> !ops.applied(f).contains_key(name),
{
    set_wins_over_remove(ops, f, name);
    let pairs = ops.pairs();
    let names = ops.names();
    assert forall|i: int| 0 <= i < ops.set@.len() implies (#[trigger] pairs[i]).0
        == ops.set@[i].0@ && pairs[i].1 == ops.set@[i].1@ by {}
    assert forall|i: int| 0 <= i < ops.remove@.len() implies #[trigger] names[i]
        == ops.remove@[i]@ by {}
    if names.contains(name) {
        let k = choose|k: int| 0 <= k < names.len() && names[k] == name;
        assert(ops.remove@[k]@ == name);
    }
    if exists|i: int| 0 <= i < ops.remove@.len() && #[trigger] ops.remove@[i]@ == name {
        let k = choose|k: int| 0 <= k < ops.remove@.len() && #[trigger] ops.remove@[k]@ == name;
        assert(names[k] == name);
    }
    assert forall|i: int|
        0 <= i < ops.set@.len() && (#[trigger] ops.set@[i]).0@ == name && (forall|j: int|
            i < j < ops.set@.len() ==> (#[trigger] ops.set@[j]).0@ != name) implies says(
        ops.applied(f),
        name,
        ops.set@[i].1@,
    ) by {
        assert(pairs[i].0 == name);
        assert forall|j: int| i < j < pairs.len() implies (#[trigger] pairs[j]).0 != name by {
            assert(ops.set@[j].0@ != name);
        }
    }
    if forall|i: int| 0 <= i < ops.set@.len() ==> (#[trigger] ops.set@[i]).0@ != name {
        assert forall|i: int| 0 <= i < pairs.len() implies (#[trigger] pairs[i]).0 != name by {
            assert(ops.set@[i].0@ != name);
        }
    }
}

/// A request goes upstream with the path that its route forwards and with its headers,
/// without those of the connection; the rules of the route have the last word, also over
/// the forwarding headers. One that declares a body over the limit does not go at all.
pub proof fn requests_go_upstream_as_planned(
    snapshot: RuntimeConfig,
    to: Admitted,
    head: RequestHead,
    host: &str,
    scheme: &str,
    peer: &str,
    request_id: &str,
    r: Result<ForwardPlan, GatewayError>,
    name: Seq<char>,
)
    requires
        call_ensures(plan_forward, (&snapshot, to, &head, host, scheme, peer, request_id), r),
    ensures
        ({
            let route = snapshot.listeners@[to.listener as int].router.routes@[to.route as int];
            let ops = route.request_headers;
            r matches Ok(plan) ==> {
                &&& !ruled(ops, name) && stays_behind(name) ==> !fields(
                    plan.headers,
                ).contains_key(name)
                &&& !ruled(ops, name) && !stays_behind(name)
                    && !crate::laws::forwarding::is_set_anew(name) ==> passes_on(
                    fields(head.headers),
                    fields(plan.headers),
                    name,
                )
                &&& !ruled(ops, "x-forwarded-host"@) && printable(host@) ==> says(
                    fields(plan.headers),
                    "x-forwarded-host"@,
                    host@,
                )
                &&& !ruled(ops, "x-forwarded-proto"@) && printable(scheme@) ==> says(
                    fields(plan.headers),
                    "x-forwarded-proto"@,
                    scheme@,
                )
                &&& !ruled(ops, "x-request-id"@) && printable(request_id@) ==> says(
                    fields(plan.headers),
                    "x-request-id"@,
                    request_id@,
                )
                &&& forall|i: int|
                    0 <= i < ops.set@.len() && (#[trigger] ops.set@[i]).0@ == name && (forall|
                        j: int,
                    |
                        i < j < ops.set@.len() ==> (#[trigger] ops.set@[j]).0@ != name) ==> says(
                        fields(plan.headers),
                        name,
                        ops.set@[i].1@,
                    )
                &&& (forall|i: int| 0 <= i < ops.set@.len() ==> (#[trigger] ops.set@[i]).0@ != name)
                    && (exists|i: int|
                    0 <= i < ops.remove@.len() && #[trigger] ops.remove@[i]@ == name) ==> !fields(
                    plan.headers,
                ).contains_key(name)
                &&& !route.strip_prefix && head.path_and_query is Some ==> plan.path_and_query@
                    == head.path_and_query->0@
            }
        }),
        r matches Err(e) ==> e == GatewayError::PayloadTooLarge,
{
    let route = snapshot.listeners@[to.listener as int].router.routes@[to.route as int];
    let ops = route.request_headers;
    let f = fields(head.headers);
    let g = rewritten(f, host@, scheme@, peer@, request_id@);
    crate::laws::forwarding::lemma_names();
    let d = dropped_names();
    assert(d.take(9) =~= d);
    assert(d.contains(name) == stays_behind(name));
    lemma_without(f, d, 9, name);
    lemma_rules(ops, g, name);
    lemma_rules(ops, g, "x-forwarded-host"@);
    lemma_rules(ops, g, "x-forwarded-proto"@);
    lemma_rules(ops, g, "x-request-id"@);
    if printable(host@) {
        crate::headers::lemma_plain_value(host@);
    }
    if printable(scheme@) {
        crate::headers::lemma_plain_value(scheme@);
    }
    if printable(request_id@) {
        crate::headers::lemma_plain_value(request_id@);
    }
}

/// A request that declares its length is refused exactly when that is over the limit,
/// and one that does not, or has no limit, never. It may be sent again exactly when its
/// upstream has more than one attempt, lists its method, and its declared length, if it
/// declares one, is at most 64 KiB.
pub proof fn lengths_decide_what_is_sent(
    snapshot: RuntimeConfig,
    to: Admitted,
    head: RequestHead,
    host: &str,
    scheme: &str,
    peer: &str,
    request_id: &str,
    r: Result<ForwardPlan, GatewayError>,
    length: Option<nat>,
)
    requires
        call_ensures(plan_forward, (&snapshot, to, &head, host, scheme, peer, request_id), r),
        match length {
            Some(n) => n <= usize::MAX && first_says(
                head.headers,
                "content-length"@,
                decimal_of(n),
            ),
            None => !fields(head.headers).contains_key("content-length"@),
        },
    ensures
        r is Err <==> snapshot.max_body_bytes > 0 && length is Some && length->0
            > snapshot.max_body_bytes,
        r matches Ok(plan) ==> plan.replayable == (snapshot.upstreams@[to.upstream as int].runtime.retry
            is Some && ({
            let policy = snapshot.upstreams@[to.upstream as int].runtime.retry->0;
            &&& policy.max_attempts >= 2
            &&& exists|i: int|
                0 <= i < policy.methods@.len() && #[trigger] policy.methods@[i]@ == head.method@
            &&& length is Some ==> length->0 <= 65536
        })),
{
    if let Some(n) = length {
        lemma_declared(head.headers, n, usize::MAX as nat);
    }
}

/// A body is buffered while it fits 64 KiB, whatever the pieces; the piece that goes
/// over makes it stream.
pub proof fn bodies_are_buffered_up_to_64_kib(
    reading: &mut ReadAhead,
    event: BodyEvent,
    r: Option<BodyKind>,
)
    requires
        call_ensures(ReadAhead::take, (reading, event), r),
    ensures
        event matches BodyEvent::Data(n) ==> (old(reading).buffered + n <= 65536 ==> r is None
            && final(reading).buffered == old(reading).buffered + n),
        event matches BodyEvent::Data(n) ==> (old(reading).buffered + n > 65536 ==> r == Some(
            BodyKind::Streamed,
        )),
        event == BodyEvent::End ==> r == Some(BodyKind::Buffered),
        event == BodyEvent::OverLimit ==> r == Some(BodyKind::TooLarge),
        event == BodyEvent::Broken ==> r == Some(BodyKind::Lost),
{
}

/// An upgrade request goes to the next healthy target, at its host and port, 80 where
/// the target gives none, and is addressed to it.
pub proof fn upgrades_go_to_their_target(
    upstream: &mut UpstreamRuntime,
    route: CompiledRoute,
    head: RequestHead,
    host: &str,
    scheme: &str,
    peer: &str,
    request_id: &str,
    r: Result<UpgradePlan, GatewayError>,
    target_host: Seq<char>,
    port: Option<u16>,
)
    requires
        call_ensures(
            plan_upgrade,
            (upstream, &route, &head, host, scheme, peer, request_id),
            r,
        ),
    ensures
        old(upstream).pick() is None <==> r == Err::<UpgradePlan, GatewayError>(
            GatewayError::NoHealthyUpstream,
        ),
        *final(upstream) == old(upstream).picked(),
        r matches Ok(plan) ==> old(upstream).pick() == Some(plan.target as int),
        r matches Ok(plan) ==> (uri_of(old(upstream).targets@[plan.target as int].url@) matches Some(
            u,
        ) && u.2 == Some(plan.host@) && (u.3 is Some ==> plan.port == u.3->0) && (u.3 is None
            ==> plan.port == 80)),
        r matches Ok(plan) ==> (printable(plan.host@) ==> says(
            fields(plan.headers),
            "host"@,
            plan.host@ + seq![':'] + decimal_of(plan.port as nat),
        )),
        r matches Ok(plan) ==> passes_on(fields(head.headers), fields(plan.headers), "upgrade"@)
            && passes_on(fields(head.headers), fields(plan.headers), "connection"@),
        r matches Ok(plan) ==> (!route.strip_prefix && head.path_and_query is Some
            ==> plan.path_and_query@ == head.path_and_query->0@),
{
    if let Ok(plan) = r {
        reveal_strlit(":");
        assert(":"@ =~= seq![':']);
        crate::laws::forwarding::lemma_names();
        let u = crate::rewrite::upgrade_dropped_names();
        let f = fields(head.headers);
        assert(u.take(7) =~= u);
        assert(!u.contains("upgrade"@) && !u.contains("connection"@));
        assert(stays_behind("upgrade"@) && stays_behind("connection"@) && stays_behind("host"@));
        lemma_without(f, u, 7, "upgrade"@);
        lemma_without(f, u, 7, "connection"@);
        reveal_strlit("upgrade");
        reveal_strlit("connection");
        reveal_strlit("host");
        assert("upgrade"@[0] == 'u' && "connection"@[0] == 'c' && "host"@[0] == 'h');
        let authority = plan.host@ + seq![':'] + decimal_of(plan.port as nat);
        if printable(plan.host@) {
            crate::laws::texts::lemma_decimal(plan.port as nat);
            let d = decimal_of(plan.port as nat);
            assert forall|i: int| 0 <= i < authority.len() implies ' ' <= #[trigger] authority[i]
                <= '~' by {
                if i < plan.host@.len() {
                    assert(authority[i] == plan.host@[i]);
                } else if i > plan.host@.len() {
                    assert(authority[i] == d[i - plan.host@.len() - 1]);
                    assert(crate::text::is_digit(d[i - plan.host@.len() - 1]));
                }
            }
            crate::headers::lemma_plain_value(authority);
        }
    }
}

/// A response has the rules of its route run over its headers, and without compression
/// nothing else happens to it.
pub proof fn responses_follow_the_rules(
    headers: &mut HeaderMap,
    route: CompiledRoute,
    compression: Option<Compression>,
    accept: &str,
    r: Option<Encoding>,
    name: Seq<char>,
)
    requires
        call_ensures(finish_response, (headers, &route, &compression, accept), r),
        name != "content-encoding"@ && name != "content-length"@ && name != "vary"@ || compression
            is None,
    ensures
        compression is None ==> r is None,
        !ruled(route.response_headers, name) ==> passes_on(
            fields(*old(headers)),
            fields(*final(headers)),
            name,
        ),
        forall|i: int|
            0 <= i < route.response_headers.set@.len() && (
            #[trigger] route.response_headers.set@[i]).0@ == name && (forall|j: int|
                i < j < route.response_headers.set@.len() ==> (
                #[trigger] route.response_headers.set@[j]).0@ != name) ==> says(
                fields(*final(headers)),
                name,
                route.response_headers.set@[i].1@,
            ),
        (forall|i: int|
            0 <= i < route.response_headers.set@.len() ==> (
            #[trigger] route.response_headers.set@[i]).0@ != name) && (exists|i: int|
            0 <= i < route.response_headers.remove@.len()
                && #[trigger] route.response_headers.remove@[i]@ == name) ==> !fields(
            *final(headers),
        ).contains_key(name),
{
    lemma_rules(route.response_headers, fields(*old(headers)), name);
}

} // verus!
