//! What happens to a request between its arrival and the response: whether it is
//! let in, where it is sent, when it is tried again and what the client gets.
//!
//! The functions here decide; sending, waiting and copying bytes is left to the
//! caller, which tells how each attempt went.

use http::HeaderMap;
use vstd::prelude::*;
use crate::compress::{
    compressed_fields, declared_length, eligible, maybe_compress, negotiated, Compression, Encoding,
};
use crate::gateway::GatewayError;
use crate::headers::{
    copy_headers, fields, fits, has_room, header_text, lemma_field_names, text_of, Fields,
    MAX_FIELD_NAMES,
};
use crate::health::HealthState;
use crate::net::IpAddress;
use crate::rate_limit::{bucket_of, checked, Bucket, Key, RateLimiter};
use crate::request::{body_exceeds_limit, content_length, over_limit};
use crate::rewrite::{rewrite_headers, rewritten, upgrade_headers, upgrade_rewritten};
use crate::router::{CompiledRoute, HeaderOps};
use crate::snapshot::RuntimeConfig;
use crate::text::{decimal_of, opt_text, push_decimal};
use crate::upstream::{another_target_is_picked, RetryPolicy, UpstreamRuntime};
use crate::uri::{
    authority_spec, build_upstream_uri, is_uri, parse_authority, upstream_uri, uri_of, TargetUri,
};

verus! {

/// Max request body buffered to make a request replayable for retries. Idempotent
/// methods are normally body-less; larger bodies fall back to a single streamed
/// attempt (no retry).
pub const BODY_BUFFER_CAP: usize = 65536;

/// What is known of a request before its body is read.
pub struct RequestHead {
    pub method: String,
    pub path: String,
    pub path_and_query: Option<String>,
    pub headers: HeaderMap,
}

/// Where a request that was let in goes.
#[derive(Debug, Clone, Copy, PartialEq, Eq, Structural)]
pub struct Admitted {
    pub listener: usize,
    pub route: usize,
    pub upstream: usize,
}

/// The route that a request to a listener takes, with the listener's position.
pub open spec fn route_at(
    snapshot: RuntimeConfig,
    listener: Seq<char>,
    host: Seq<char>,
    path: Seq<char>,
) -> Option<(int, int)> {
    match snapshot.listener_at(snapshot.listeners@.len() as int, listener) {
        Some(l) => match snapshot.listeners@[l].router.chosen(host, path) {
            Some(r) => Some((l, r)),
            None => None,
        },
        None => None,
    }
}

/// Whether the rate limit of a route turns a client away.
pub open spec fn rate_refuses(
    route: CompiledRoute,
    m: Map<Key, Bucket>,
    client: IpAddress,
    now_ns: u64,
) -> bool {
    route.rate_limit matches Some(limit) && !bucket_of(
        m,
        (route.name@, client),
        limit.nano_requests_per_second,
        limit.burst,
        now_ns,
    ).ready(limit.nano_requests_per_second, limit.burst, now_ns).passes()
}

/// Why a route turns a request away: the client's address, its rate, or missing
/// credentials, in this order.
pub open spec fn refusal(
    route: CompiledRoute,
    headers: HeaderMap,
    m: Map<Key, Bucket>,
    client: IpAddress,
    now_ns: u64,
) -> Option<GatewayError> {
    if !route.ip_access.admits(client) {
        Some(GatewayError::Forbidden)
    } else if rate_refuses(route, m, client, now_ns) {
        Some(GatewayError::RateLimited)
    } else if route.basic_auth matches Some(auth) && !auth.admits(headers) {
        Some(GatewayError::Unauthorized)
    } else {
        None
    }
}

/// The buckets after a request was weighed by a route: a client whose address may
/// pass is charged where the route has a rate limit.
pub open spec fn weighed(
    route: CompiledRoute,
    m: Map<Key, Bucket>,
    client: IpAddress,
    now_ns: u64,
) -> Map<Key, Bucket> {
    match route.rate_limit {
        Some(limit) if route.ip_access.admits(client) => checked(
            m,
            (route.name@, client),
            limit.nano_requests_per_second,
            limit.burst,
            now_ns,
        ),
        _ => m,
    }
}

/// Decide whether a request is let in. `host` is the host that it asks for,
/// `client` the address of the client that it came from.
pub fn screen(
    snapshot: &RuntimeConfig,
    limiter: &mut RateLimiter,
    listener_name: &str,
    host: &str,
    head: &RequestHead,
    client: IpAddress,
    now_ns: u64,
) -> (r: Result<Admitted, GatewayError>)
    requires
        snapshot.wf(),
        old(limiter).wf(),
    ensures
        final(limiter).wf(),
        match route_at(*snapshot, listener_name@, host@, head.path@) {
            None => r == Err::<Admitted, GatewayError>(GatewayError::RouteNotFound)
                && final(limiter)@ == old(limiter)@,
            Some((l, i)) => {
                let route = snapshot.listeners@[l].router.routes@[i];
                if forall|k: int| !snapshot.has_upstream_at(k, route.upstream@) {
                    r == Err::<Admitted, GatewayError>(GatewayError::UpstreamMissing)
                        && final(limiter)@ == old(limiter)@
                } else {
                    &&& final(limiter)@ == weighed(route, old(limiter)@, client, now_ns)
                    &&& match refusal(route, head.headers, old(limiter)@, client, now_ns) {
                        Some(e) => r == Err::<Admitted, GatewayError>(e),
                        None => r matches Ok(a) && a.listener == l && a.route == i
                            && snapshot.has_upstream_at(a.upstream as int, route.upstream@),
                    }
                }
            },
        },
        r matches Ok(a) ==> a.listener < snapshot.listeners@.len() && a.route
            < snapshot.listeners@[a.listener as int].router.routes@.len() && a.upstream
            < snapshot.upstreams@.len(),
{
    let listener: usize = match snapshot.find_listener(listener_name) {
        Some(l) => l,
        None => return Err(GatewayError::RouteNotFound),
    };
    let router = &snapshot.listeners[listener].router;
    let index: usize = match router.find_route(host, head.path.as_str()) {
        Some(i) => i,
        None => return Err(GatewayError::RouteNotFound),
    };
    let route = &router.routes[index];
    assert(route.wf());
    let upstream: usize = match snapshot.find_upstream(route.upstream.as_str()) {
        Some(k) => k,
        None => return Err(GatewayError::UpstreamMissing),
    };
    if !route.ip_access.allows(client) {
        return Err(GatewayError::Forbidden);
    }
    if let Some(limit) = &route.rate_limit {
        if !limiter.check(
            route.name.as_str(),
            client,
            limit.nano_requests_per_second,
            limit.burst,
            now_ns,
        ) {
            return Err(GatewayError::RateLimited);
        }
    }
    if let Some(auth) = &route.basic_auth {
        if !auth.allows(&head.headers) {
            return Err(GatewayError::Unauthorized);
        }
    }
    Ok(Admitted { listener, route: index, upstream })
}

/// What goes upstream of a request: its path and query, its headers, and whether its
/// body may be buffered so that it can be sent again.
pub struct ForwardPlan {
    pub path_and_query: String,
    pub headers: HeaderMap,
    pub replayable: bool,
}

/// Whether a request may be sent again: retries are on for its upstream and its
/// method, and its body is not known to be over the cap.
pub open spec fn may_replay(
    retry: Option<RetryPolicy>,
    method: Seq<char>,
    headers: HeaderMap,
) -> bool {
    retry matches Some(policy) && policy.max_attempts > 1 && policy.allows(method) && (
    declared_length(fields(headers), usize::MAX as nat) matches Some(n) ==> n <= BODY_BUFFER_CAP)
}

/// The route of a request that was let in.
pub open spec fn route_to(snapshot: RuntimeConfig, to: Admitted) -> CompiledRoute {
    snapshot.listeners@[to.listener as int].router.routes@[to.route as int]
}

/// `r` is how a request goes upstream: with the path and query that its route forwards,
/// the gateway's headers and then the rules of the route, unless it declares a body that
/// is over the limit.
pub open spec fn is_forward_plan(
    snapshot: RuntimeConfig,
    to: Admitted,
    head: RequestHead,
    host: Seq<char>,
    scheme: Seq<char>,
    peer: Seq<char>,
    request_id: Seq<char>,
    r: Result<ForwardPlan, GatewayError>,
) -> bool {
    let route = route_to(snapshot, to);
    let retry = snapshot.upstreams@[to.upstream as int].runtime.retry;
    match r {
        Err(e) => e == GatewayError::PayloadTooLarge && over_limit(
            head.headers,
            snapshot.max_body_bytes,
        ),
        Ok(plan) => {
            &&& !over_limit(head.headers, snapshot.max_body_bytes)
            &&& plan.path_and_query@ == route.forwarded(opt_text(head.path_and_query))
            &&& fields(plan.headers) == route.request_headers.applied(
                rewritten(fields(head.headers), host, scheme, peer, request_id),
            )
            &&& plan.replayable == may_replay(retry, head.method@, head.headers)
        },
    }
}

/// Plan how a request that was let in goes upstream. A declared-oversize body is
/// rejected before the upstream is touched. The rules of the route apply after the
/// gateway's own rewrite.
pub fn plan_forward(
    snapshot: &RuntimeConfig,
    to: Admitted,
    head: &RequestHead,
    host: &str,
    scheme: &str,
    peer: &str,
    request_id: &str,
) -> (r: Result<ForwardPlan, GatewayError>)
    requires
        snapshot.wf(),
        to.listener < snapshot.listeners@.len(),
        to.route < snapshot.listeners@[to.listener as int].router.routes@.len(),
        to.upstream < snapshot.upstreams@.len(),
        has_room(head.headers, 4 + route_to(*snapshot, to).request_headers.set@.len()),
    ensures
        is_forward_plan(*snapshot, to, *head, host@, scheme@, peer@, request_id@, r),
{
    let route = &snapshot.listeners[to.listener].router.routes[to.route];
    assert(snapshot.listeners@[to.listener as int].router.wf());
    assert(route.wf());
    if body_exceeds_limit(&head.headers, snapshot.max_body_bytes) {
        return Err(GatewayError::PayloadTooLarge);
    }
    let original: Option<&str> = match &head.path_and_query {
        Some(t) => Some(t.as_str()),
        None => None,
    };
    let path_and_query = route.rewritten_path_and_query(original);
    let replayable = match &snapshot.upstreams[to.upstream].runtime.retry {
        Some(policy) => policy.max_attempts > 1 && policy.allows_method(head.method.as_str())
            && match content_length(&head.headers) {
            Some(len) => len <= BODY_BUFFER_CAP,
            None => true,
        },
        None => false,
    };
    let mut headers = copy_headers(&head.headers);
    let ghost copied = headers;
    rewrite_headers(&mut headers, host, scheme, peer, request_id);
    proof {
        lemma_rewrite_room(
            copied,
            headers,
            host@,
            scheme@,
            peer@,
            request_id@,
            route.request_headers.set@.len(),
        );
    }
    route.request_headers.apply(&mut headers);
    Ok(ForwardPlan { path_and_query, headers, replayable })
}

/// Whether `extra` more fields, besides those that a rewrite sets, fit.
fn fits_rules(headers: &HeaderMap, rules: &HeaderOps, extra: usize) -> (r: bool)
    requires
        extra <= 5,
    ensures
        r == has_room(*headers, extra as nat + rules.set@.len()),
{
    let count: usize = rules.set.len();
    if count > MAX_FIELD_NAMES + 1 {
        return false;
    }
    fits(headers, extra + count)
}

/// [`plan_forward`] for a request whose header fields may be too many to rewrite: `None`
/// where they are.
pub fn try_plan_forward(
    snapshot: &RuntimeConfig,
    to: Admitted,
    head: &RequestHead,
    host: &str,
    scheme: &str,
    peer: &str,
    request_id: &str,
) -> (r: Option<Result<ForwardPlan, GatewayError>>)
    requires
        snapshot.wf(),
        to.listener < snapshot.listeners@.len(),
        to.route < snapshot.listeners@[to.listener as int].router.routes@.len(),
        to.upstream < snapshot.upstreams@.len(),
    ensures
        match r {
            Some(plan) => has_room(
                head.headers,
                4 + route_to(*snapshot, to).request_headers.set@.len(),
            ) && is_forward_plan(*snapshot, to, *head, host@, scheme@, peer@, request_id@, plan),
            None => !has_room(
                head.headers,
                4 + route_to(*snapshot, to).request_headers.set@.len(),
            ),
        },
{
    let route = &snapshot.listeners[to.listener].router.routes[to.route];
    if fits_rules(&head.headers, &route.request_headers, 4) {
        Some(plan_forward(snapshot, to, head, host, scheme, peer, request_id))
    } else {
        None
    }
}

/// The rewrite adds at most four names.
proof fn lemma_rewrite_room(
    before: HeaderMap,
    after: HeaderMap,
    host: Seq<char>,
    scheme: Seq<char>,
    peer: Seq<char>,
    request_id: Seq<char>,
    n: nat,
)
    requires
        has_room(before, 4 + n),
        fields(after) == rewritten(fields(before), host, scheme, peer, request_id),
    ensures
        has_room(after, n),
{
    let old_dom = fields(before).dom();
    let four = set![
        "x-forwarded-for"@,
        "x-forwarded-host"@,
        "x-forwarded-proto"@,
        "x-request-id"@,
    ];
    let bound = old_dom.union(four);
    let g = crate::router::without(fields(before), crate::rewrite::dropped_names(), 9);
    lemma_without_shrinks(fields(before), crate::rewrite::dropped_names(), 9);
    assert(fields(after).dom().subset_of(bound)) by {
        assert forall|k: Seq<char>| fields(after).dom().contains(k) implies bound.contains(k) by {
            if !four.contains(k) {
                assert(g.contains_key(k));
                assert(old_dom.contains(k));
            }
        }
    }
    assert(four.finite() && four.len() <= 4);
    vstd::set_lib::lemma_len_union(old_dom, four);
    vstd::set_lib::lemma_len_subset(fields(after).dom(), bound);
}

proof fn lemma_without_shrinks(f: Fields, names: Seq<Seq<char>>, n: int)
    ensures
        crate::router::without(f, names, n).dom().subset_of(f.dom()),
    decreases n,
{
    if n > 0 {
        lemma_without_shrinks(f, names, n - 1);
    }
}

/// The body that goes with the attempts.
#[derive(Debug, Clone, Copy, PartialEq, Eq, Structural)]
pub enum BodyKind {
    /// It was buffered whole, and can be sent any number of times.
    Buffered,
    /// It streams through, and can be sent once.
    Streamed,
    /// It is over the limit, and is not sent at all.
    TooLarge,
    /// It could not be read, and cannot be sent at all.
    Lost,
}

/// What comes next of a body that is read ahead.
#[derive(Debug, Clone, Copy, PartialEq, Eq, Structural)]
pub enum BodyEvent {
    /// This many more bytes.
    Data(usize),
    /// Nothing more.
    End,
    /// The body ran over the limit.
    OverLimit,
    /// The client went away.
    Broken,
}

/// Reading a body ahead so that it can be sent again.
#[derive(Debug, Clone, Copy, PartialEq, Eq, Structural)]
pub struct ReadAhead {
    /// Bytes in the buffer.
    pub buffered: usize,
}

impl ReadAhead {
    /// The buffer holds no more than the cap.
    pub open spec fn wf(self) -> bool {
        self.buffered <= BODY_BUFFER_CAP
    }

    /// An empty buffer.
    pub fn new() -> (r: Self)
        ensures
            r.buffered == 0,
            r.wf(),
    {
        ReadAhead { buffered: 0 }
    }

    /// Take in what comes next. A body that ends within the cap is buffered whole; one
    /// that goes over it streams on from there. `None` means to read on.
    pub fn take(&mut self, event: BodyEvent) -> (r: Option<BodyKind>)
        requires
            old(self).wf(),
        ensures
            final(self).wf(),
            match event {
                BodyEvent::Data(n) => if old(self).buffered + n <= BODY_BUFFER_CAP {
                    r is None && final(self).buffered == old(self).buffered + n
                } else {
                    r == Some(BodyKind::Streamed) && *final(self) == *old(self)
                },
                BodyEvent::End => r == Some(BodyKind::Buffered) && *final(self) == *old(self),
                BodyEvent::OverLimit => r == Some(BodyKind::TooLarge) && *final(self) == *old(
                    self,
                ),
                BodyEvent::Broken => r == Some(BodyKind::Lost) && *final(self) == *old(self),
            },
    {
        match event {
            BodyEvent::Data(n) => {
                if n > BODY_BUFFER_CAP - self.buffered {
                    Some(BodyKind::Streamed)
                } else {
                    self.buffered = self.buffered + n;
                    None
                }
            },
            BodyEvent::End => Some(BodyKind::Buffered),
            BodyEvent::OverLimit => Some(BodyKind::TooLarge),
            BodyEvent::Broken => Some(BodyKind::Lost),
        }
    }
}

/// How an attempt went.
#[derive(Debug, Clone, Copy, PartialEq, Eq, Structural)]
pub enum Outcome {
    /// The time for the whole round-trip ran out.
    TimedOut,
    /// The upstream could not be reached, or the connection broke.
    Failed,
    /// The body turned out to be over the limit while it was sent.
    BodyTooLarge,
    /// The upstream answered with this status.
    Answered(u16),
}

/// What follows from how an attempt went.
#[derive(Debug, Clone, Copy, PartialEq, Eq, Structural)]
pub enum Verdict {
    /// Hand the answer to the client.
    Respond,
    /// Try again.
    Retry,
    /// Give up.
    Fail(GatewayError),
}

/// What to do next.
pub enum Step {
    /// Send the request to this target, at this address.
    Send(usize, TargetUri),
    /// Give up.
    Fail(GatewayError),
}

/// The attempts to forward one request.
#[derive(Debug, Clone, Copy, PartialEq, Eq, Structural)]
pub struct Forwarding {
    pub max_attempts: u32,
    /// Attempts made so far.
    pub attempt: u32,
    pub body: BodyKind,
    /// The failure that is reported if no attempt is left.
    pub last: GatewayError,
    /// The target of the latest attempt.
    pub last_target: Option<usize>,
    pub on_connect_failure: bool,
    pub on_5xx: bool,
}

/// What follows from how the latest attempt went. A timeout is never tried again
/// (the backend may have processed the request); a failed connection or a 5xx
/// answer is, where the policy says so and an attempt is left.
pub open spec fn verdict_of(f: Forwarding, outcome: Outcome) -> Verdict {
    match outcome {
        Outcome::TimedOut => Verdict::Fail(GatewayError::UpstreamTimeout),
        Outcome::BodyTooLarge => Verdict::Fail(GatewayError::PayloadTooLarge),
        Outcome::Failed => if f.attempt < f.max_attempts && f.on_connect_failure {
            Verdict::Retry
        } else {
            Verdict::Fail(GatewayError::UpstreamConnect)
        },
        Outcome::Answered(status) => if status >= 500 && f.attempt < f.max_attempts && f.on_5xx {
            Verdict::Retry
        } else {
            Verdict::Respond
        },
    }
}

/// What an outcome says of the health of the target; `None` where it says nothing.
pub open spec fn health_of(outcome: Outcome) -> Option<bool> {
    match outcome {
        Outcome::TimedOut => Some(false),
        Outcome::Failed => Some(false),
        Outcome::BodyTooLarge => None,
        Outcome::Answered(status) => Some(status < 500),
    }
}

impl Forwarding {
    pub open spec fn wf(self) -> bool {
        self.attempt <= self.max_attempts
    }

    /// The attempts before the first one. Only a buffered body is sent more than
    /// once.
    pub open spec fn started(retry: Option<RetryPolicy>, replayable: bool, body: BodyKind) -> Self {
        Forwarding {
            max_attempts: match retry {
                Some(policy) if replayable && body == BodyKind::Buffered => policy.max_attempts,
                _ => 1,
            },
            attempt: 0,
            body,
            last: GatewayError::NoHealthyUpstream,
            last_target: None,
            on_connect_failure: retry matches Some(policy) && policy.on_connect_failure,
            on_5xx: retry matches Some(policy) && policy.on_5xx,
        }
    }

    /// The attempts once another one goes to this target.
    pub open spec fn sent(self, target: usize) -> Self {
        Forwarding {
            attempt: (self.attempt + 1) as u32,
            last_target: Some(target),
            ..self
        }
    }

    /// The attempts once the latest went like this.
    pub open spec fn settled(self, outcome: Outcome) -> Self {
        match outcome {
            Outcome::Failed => Forwarding { last: GatewayError::UpstreamConnect, ..self },
            _ => self,
        }
    }

    /// Start the attempts for a request whose body is at hand like this.
    pub fn start(retry: &Option<RetryPolicy>, replayable: bool, body: BodyKind) -> (r: Self)
        ensures
            r == Forwarding::started(*retry, replayable, body),
            r.wf(),
    {
        let (max_attempts, on_connect_failure, on_5xx) = match retry {
            Some(policy) => {
                let max: u32 = if replayable && body == BodyKind::Buffered {
                    policy.max_attempts
                } else {
                    1
                };
                (max, policy.on_connect_failure, policy.on_5xx)
            },
            None => (1u32, false, false),
        };
        Forwarding {
            max_attempts,
            attempt: 0,
            body,
            last: GatewayError::NoHealthyUpstream,
            last_target: None,
            on_connect_failure,
            on_5xx,
        }
    }

    /// Take the next step: pick a target, other than that of the latest attempt where
    /// there is one, and send, or give up where the body is over the
    /// limit, where no attempt, no healthy target or no body is left, or where the target
    /// has no usable address.
    pub fn next_step(&mut self, upstream: &mut UpstreamRuntime, path_and_query: &str) -> (r: Step)
        requires
            old(self).wf(),
            old(upstream).wf(),
        ensures
            final(self).wf(),
            final(upstream).wf(),
            old(self).body == BodyKind::TooLarge ==> {
                &&& r == Step::Fail(GatewayError::PayloadTooLarge)
                &&& *final(self) == *old(self)
                &&& *final(upstream) == *old(upstream)
            },
            old(self).body != BodyKind::TooLarge && old(self).attempt == old(self).max_attempts
                ==> {
                &&& r == Step::Fail(old(self).last)
                &&& *final(self) == *old(self)
                &&& *final(upstream) == *old(upstream)
            },
            old(self).body != BodyKind::TooLarge && old(self).attempt < old(self).max_attempts
                ==> {
                &&& *final(upstream) == old(upstream).picked_other(old(self).last_target)
                &&& match old(upstream).pick_other(old(self).last_target) {
                    None => r == Step::Fail(GatewayError::NoHealthyUpstream) && *final(self)
                        == *old(self),
                    Some(i) => if old(self).body == BodyKind::Lost {
                        r == Step::Fail(old(self).last) && *final(self) == *old(self)
                    } else {
                        match r {
                            Step::Send(target, uri) => {
                                &&& target == i
                                &&& upstream_uri(
                                    old(upstream).targets@[i].url@,
                                    path_and_query@,
                                    Ok(uri),
                                )
                                &&& *final(self) == old(self).sent(target)
                            },
                            Step::Fail(e) => {
                                &&& e == GatewayError::BadGateway
                                &&& upstream_uri(
                                    old(upstream).targets@[i].url@,
                                    path_and_query@,
                                    Err(()),
                                )
                                &&& *final(self) == *old(self)
                            },
                        }
                    },
                }
            },
    {
        if self.body == BodyKind::TooLarge {
            return Step::Fail(GatewayError::PayloadTooLarge);
        }
        if self.attempt >= self.max_attempts {
            return Step::Fail(self.last);
        }
        let target: usize = match upstream.pick_other_target(self.last_target) {
            Some(i) => i,
            None => return Step::Fail(GatewayError::NoHealthyUpstream),
        };
        if self.body == BodyKind::Lost {
            return Step::Fail(self.last);
        }
        match build_upstream_uri(upstream.targets[target].url.as_str(), path_and_query) {
            Ok(uri) => {
                self.attempt = self.attempt + 1;
                self.last_target = Some(target);
                Step::Send(target, uri)
            },
            Err(_) => Step::Fail(GatewayError::BadGateway),
        }
    }

    /// Take in how the latest attempt went, at `now_ms`: feed it into the health of
    /// the target, and decide what follows.
    pub fn settle(&mut self, state: &mut HealthState, outcome: Outcome, now_ms: u64) -> (r: Verdict)
        requires
            old(self).wf(),
        ensures
            r == verdict_of(*old(self), outcome),
            *final(self) == old(self).settled(outcome),
            final(self).wf(),
            final(state)@ == match health_of(outcome) {
                Some(success) => old(state)@.observed(success, now_ms),
                None => old(state)@,
            },
    {
        match outcome {
            Outcome::TimedOut => {
                state.observe_at(false, now_ms);
                Verdict::Fail(GatewayError::UpstreamTimeout)
            },
            Outcome::BodyTooLarge => Verdict::Fail(GatewayError::PayloadTooLarge),
            Outcome::Failed => {
                state.observe_at(false, now_ms);
                self.last = GatewayError::UpstreamConnect;
                if self.attempt < self.max_attempts && self.on_connect_failure {
                    Verdict::Retry
                } else {
                    Verdict::Fail(GatewayError::UpstreamConnect)
                }
            },
            Outcome::Answered(status) => {
                state.observe_at(status < 500, now_ms);
                if status >= 500 && self.attempt < self.max_attempts && self.on_5xx {
                    Verdict::Retry
                } else {
                    Verdict::Respond
                }
            },
        }
    }
}

/// A retry goes to another target: whatever came of an attempt, and whatever happened to
/// the upstream since, the next target is a healthy one that the attempt did not go to,
/// where the schedule names such a target and the counter does not go round within the
/// pass.
pub proof fn retry_goes_to_another_target(
    f: Forwarding,
    target: usize,
    outcome: Outcome,
    upstream: UpstreamRuntime,
    other: int,
)
    requires
        upstream.wf(),
        0 <= other < upstream.schedule@.len(),
        upstream.schedule@[other] != target,
        upstream.targets@[upstream.schedule@[other] as int].state@.healthy,
        upstream.next + upstream.schedule@.len() <= usize::MAX,
    ensures
        upstream.pick_other(f.sent(target).settled(outcome).last_target) matches Some(i) && i
            != target && upstream.targets@[i].state@.healthy,
{
    another_target_is_picked(upstream, target, other);
}

/// How often a request is sent, where its attempts go like this one after the
/// other.
pub open spec fn sends(f: Forwarding, outcomes: Seq<Outcome>) -> nat
    decreases outcomes.len(),
{
    if f.attempt >= f.max_attempts || outcomes.len() == 0 {
        0
    } else {
        let tried = Forwarding { attempt: (f.attempt + 1) as u32, ..f };
        if verdict_of(tried, outcomes[0]) == Verdict::Retry {
            1 + sends(tried.settled(outcomes[0]), outcomes.drop_first())
        } else {
            1
        }
    }
}

/// A request is sent at most as often as its policy says.
pub proof fn attempts_are_bounded(f: Forwarding, outcomes: Seq<Outcome>)
    requires
        f.wf(),
    ensures
        sends(f, outcomes) <= f.max_attempts - f.attempt,
    decreases outcomes.len(),
{
    if f.attempt < f.max_attempts && outcomes.len() > 0 {
        let tried = Forwarding { attempt: (f.attempt + 1) as u32, ..f };
        attempts_are_bounded(tried.settled(outcomes[0]), outcomes.drop_first());
    }
}

/// A request is sent once and no more where its upstream has no retries, its method
/// is not listed, its body is over the cap or streams through.
pub proof fn unlisted_requests_are_sent_once(
    retry: Option<RetryPolicy>,
    method: Seq<char>,
    headers: HeaderMap,
    body: BodyKind,
    outcomes: Seq<Outcome>,
)
    requires
        retry is None || !(retry->0).allows(method) || body != BodyKind::Buffered || (
        declared_length(fields(headers), usize::MAX as nat) matches Some(n) && n > BODY_BUFFER_CAP),
    ensures
        sends(
            Forwarding::started(retry, may_replay(retry, method, headers), body),
            outcomes,
        ) <= 1,
{
    attempts_are_bounded(
        Forwarding::started(retry, may_replay(retry, method, headers), body),
        outcomes,
    );
}

/// A timeout is never tried again, whatever the policy; nor is anything once the
/// attempts are used up, or on a condition that the policy does not list.
pub proof fn no_retry_without_leave(f: Forwarding, outcome: Outcome)
    ensures
        outcome == Outcome::TimedOut ==> verdict_of(f, outcome) != Verdict::Retry,
        f.attempt >= f.max_attempts ==> verdict_of(f, outcome) != Verdict::Retry,
        outcome == Outcome::Failed && !f.on_connect_failure ==> verdict_of(f, outcome)
            != Verdict::Retry,
        outcome is Answered && !f.on_5xx ==> verdict_of(f, outcome) == Verdict::Respond,
        outcome matches Outcome::Answered(status) ==> (status < 500 ==> verdict_of(f, outcome)
            == Verdict::Respond),
{
}

/// Where an upgrade request goes: the target, what to connect to, and the request.
pub struct UpgradePlan {
    pub target: usize,
    pub host: String,
    pub port: u16,
    pub path_and_query: String,
    pub headers: HeaderMap,
}

/// `host:port`.
pub open spec fn authority_text(host: Seq<char>, port: u16) -> Seq<char> {
    host + ":"@ + decimal_of(port as nat)
}

/// `r` is how an upgrade request goes to the next healthy target of `upstream`.
pub open spec fn is_upgrade_plan(
    upstream: UpstreamRuntime,
    route: CompiledRoute,
    head: RequestHead,
    host: Seq<char>,
    scheme: Seq<char>,
    peer: Seq<char>,
    request_id: Seq<char>,
    r: Result<UpgradePlan, GatewayError>,
) -> bool {
    match upstream.pick() {
        None => r matches Err(e) && e == GatewayError::NoHealthyUpstream,
        Some(i) => {
            let pq = route.forwarded(opt_text(head.path_and_query));
            match authority_spec(uri_of(upstream.targets@[i].url@)) {
                None => r matches Err(e) && e == GatewayError::BadGateway,
                Some((target_host, port)) => if uri_of(pq) is None {
                    r matches Err(e) && e == GatewayError::BadGateway
                } else {
                    &&& r matches Ok(plan)
                    &&& plan.target == i
                    &&& plan.host@ == target_host
                    &&& plan.port == port
                    &&& plan.path_and_query@ == pq
                    &&& fields(plan.headers) == upgrade_rewritten(
                        fields(head.headers),
                        authority_text(target_host, port),
                        host,
                        scheme,
                        peer,
                        request_id,
                    )
                },
            }
        },
    }
}

/// Plan how an upgrade request that was let in goes to the next healthy target.
pub fn plan_upgrade(
    upstream: &mut UpstreamRuntime,
    route: &CompiledRoute,
    head: &RequestHead,
    host: &str,
    scheme: &str,
    peer: &str,
    request_id: &str,
) -> (r: Result<UpgradePlan, GatewayError>)
    requires
        old(upstream).wf(),
        has_room(head.headers, 5),
    ensures
        *final(upstream) == old(upstream).picked(),
        final(upstream).wf(),
        is_upgrade_plan(*old(upstream), *route, *head, host@, scheme@, peer@, request_id@, r),
{
    let target: usize = match upstream.pick_target() {
        Some(i) => i,
        None => return Err(GatewayError::NoHealthyUpstream),
    };
    let (target_host, port) = match parse_authority(upstream.targets[target].url.as_str()) {
        Some(pair) => pair,
        None => return Err(GatewayError::BadGateway),
    };
    let mut authority = target_host.clone();
    authority.append(":");
    push_decimal(&mut authority, port as u64);
    assert(authority@ == authority_text(target_host@, port));
    let original: Option<&str> = match &head.path_and_query {
        Some(t) => Some(t.as_str()),
        None => None,
    };
    let path_and_query = route.rewritten_path_and_query(original);
    if !is_uri(path_and_query.as_str()) {
        return Err(GatewayError::BadGateway);
    }
    let headers = upgrade_headers(
        &head.headers,
        authority.as_str(),
        host,
        scheme,
        peer,
        request_id,
    );
    Ok(UpgradePlan { target, host: target_host, port, path_and_query, headers })
}

/// [`plan_upgrade`] for a request whose header fields may be too many to rewrite: `None`
/// where they are, and no target is picked then.
pub fn try_plan_upgrade(
    upstream: &mut UpstreamRuntime,
    route: &CompiledRoute,
    head: &RequestHead,
    host: &str,
    scheme: &str,
    peer: &str,
    request_id: &str,
) -> (r: Option<Result<UpgradePlan, GatewayError>>)
    requires
        old(upstream).wf(),
    ensures
        final(upstream).wf(),
        match r {
            Some(plan) => has_room(head.headers, 5) && *final(upstream) == old(upstream).picked()
                && is_upgrade_plan(
                *old(upstream),
                *route,
                *head,
                host@,
                scheme@,
                peer@,
                request_id@,
                plan,
            ),
            None => !has_room(head.headers, 5) && *final(upstream) == *old(upstream),
        },
{
    if fits(&head.headers, 5) {
        Some(plan_upgrade(upstream, route, head, host, scheme, peer, request_id))
    } else {
        None
    }
}

/// How an upgrade request went.
#[derive(Debug, Clone, Copy, PartialEq, Eq, Structural)]
pub enum UpgradeOutcome {
    /// The target could not be reached, or the connection broke.
    Failed,
    /// The target answered with this status.
    Answered(u16),
}

/// What the client gets of an upgrade request.
#[derive(Debug, Clone, Copy, PartialEq, Eq, Structural)]
pub enum UpgradeVerdict {
    /// Relay the handshake and copy bytes both ways from then on.
    Tunnel,
    /// The target declined the upgrade: hand its answer to the client.
    Respond,
    Fail(GatewayError),
}

/// What follows from how an upgrade request went. It is never tried again.
pub open spec fn upgrade_verdict(outcome: UpgradeOutcome) -> UpgradeVerdict {
    match outcome {
        UpgradeOutcome::Failed => UpgradeVerdict::Fail(GatewayError::UpstreamConnect),
        UpgradeOutcome::Answered(status) => if status == 101 {
            UpgradeVerdict::Tunnel
        } else {
            UpgradeVerdict::Respond
        },
    }
}

/// Take in how an upgrade request went, at `now_ms`: feed it into the health of the
/// target, and decide what the client gets.
pub fn settle_upgrade(state: &mut HealthState, outcome: UpgradeOutcome, now_ms: u64) -> (r:
    UpgradeVerdict)
    ensures
        r == upgrade_verdict(outcome),
        final(state)@ == old(state)@.observed(
            outcome matches UpgradeOutcome::Answered(status) && status < 500,
            now_ms,
        ),
{
    match outcome {
        UpgradeOutcome::Failed => {
            state.observe_at(false, now_ms);
            UpgradeVerdict::Fail(GatewayError::UpstreamConnect)
        },
        UpgradeOutcome::Answered(status) => {
            state.observe_at(status < 500, now_ms);
            if status == 101 {
                UpgradeVerdict::Tunnel
            } else {
                UpgradeVerdict::Respond
            }
        },
    }
}

/// What a client accepts as encodings; empty where it does not say.
pub open spec fn accepted_of(headers: HeaderMap) -> Seq<char> {
    match text_of(headers, "accept-encoding"@) {
        Some(v) => v,
        None => Seq::empty(),
    }
}

/// What a client accepts as encodings.
pub fn accepted_encodings(headers: &HeaderMap) -> (r: String)
    ensures
        r@ == accepted_of(*headers),
{
    proof {
        lemma_field_names();
    }
    match header_text(headers, "accept-encoding") {
        Some(v) => v,
        None => String::new(),
    }
}

/// `after` and `r` are the fields of a response and its encoding once it is finished: the
/// rules of the route have run, then it was compressed where that is on and applies.
pub open spec fn is_finished(
    before: Fields,
    route: CompiledRoute,
    compression: Option<Compression>,
    accept_encoding: Seq<char>,
    after: Fields,
    r: Option<Encoding>,
) -> bool {
    let ruled = route.response_headers.applied(before);
    &&& r == (match compression {
        Some(comp) if eligible(ruled, comp) => negotiated(accept_encoding, comp),
        _ => None,
    })
    &&& after == match r {
        Some(e) => compressed_fields(ruled, e),
        None => ruled,
    }
}

/// Finish the headers of a response: the rules of the route run, then the response is
/// compressed where that is on and applies. Gives the encoder for the body.
pub fn finish_response(
    headers: &mut HeaderMap,
    route: &CompiledRoute,
    compression: &Option<Compression>,
    accept_encoding: &str,
) -> (r: Option<Encoding>)
    requires
        route.wf(),
        has_room(*old(headers), route.response_headers.set@.len() + 2),
    ensures
        is_finished(
            fields(*old(headers)),
            *route,
            *compression,
            accept_encoding@,
            fields(*final(headers)),
            r,
        ),
{
    let ghost before = *headers;
    route.response_headers.apply(headers);
    let ghost ruled = *headers;
    proof {
        lemma_rules_room(*route, before, ruled);
    }
    match compression {
        Some(comp) => maybe_compress(headers, accept_encoding, comp),
        None => None,
    }
}

/// [`finish_response`] for a response whose header fields may be too many to rewrite:
/// `None` where they are, and they stay as they are then.
pub fn try_finish_response(
    headers: &mut HeaderMap,
    route: &CompiledRoute,
    compression: &Option<Compression>,
    accept_encoding: &str,
) -> (r: Option<Option<Encoding>>)
    requires
        route.wf(),
    ensures
        match r {
            Some(encoding) => has_room(*old(headers), route.response_headers.set@.len() + 2)
                && is_finished(
                fields(*old(headers)),
                *route,
                *compression,
                accept_encoding@,
                fields(*final(headers)),
                encoding,
            ),
            None => !has_room(*old(headers), route.response_headers.set@.len() + 2)
                && *final(headers) == *old(headers),
        },
{
    if fits_rules(headers, &route.response_headers, 2) {
        Some(finish_response(headers, route, compression, accept_encoding))
    } else {
        None
    }
}

/// The rules of a route add at most one name for each header that they set.
proof fn lemma_rules_room(route: CompiledRoute, before: HeaderMap, after: HeaderMap)
    requires
        has_room(before, route.response_headers.set@.len() + 2),
        fields(after) == route.response_headers.applied(fields(before)),
    ensures
        has_room(after, 2),
{
    let ops = route.response_headers;
    let g = crate::router::without(fields(before), ops.names(), ops.names().len() as int);
    lemma_without_shrinks(fields(before), ops.names(), ops.names().len() as int);
    vstd::set_lib::lemma_len_subset(g.dom(), fields(before).dom());
    lemma_with_all_grows(g, ops.pairs(), ops.pairs().len() as int);
}

proof fn lemma_with_all_grows(f: Fields, pairs: Seq<(Seq<char>, Seq<char>)>, n: int)
    requires
        f.dom().finite(),
        0 <= n,
    ensures
        crate::router::with_all(f, pairs, n).dom().finite(),
        crate::router::with_all(f, pairs, n).dom().len() <= f.dom().len() + n,
    decreases n,
{
    if n > 0 {
        lemma_with_all_grows(f, pairs, n - 1);
        let shorter = crate::router::with_all(f, pairs, n - 1);
        assert(crate::router::with_all(f, pairs, n).dom() =~= shorter.dom().insert(
            pairs[n - 1].0,
        ));
    }
}

}
