//! Which route a request takes, and which path goes upstream.

use vstd::prelude::*;
use vstd::utf8::encode_utf8;
use crate::access::{BasicAuth, IpAccess};
use crate::model::{is_blank, MatchConfig, RouteConfig};
use crate::router::{CompiledRoute, HeaderOps, HostMatch, RouteSummary, Router};
use crate::text::{after, before, cut, lemma_cut};
use crate::validator::{effective_prefix, is_valid_wildcard_host};

verus! {

/// How exactly the host of a route matches: 2 for one host, 1 for the subdomains of a
/// domain, 0 for any host.
pub open spec fn host_kind(host: Option<String>) -> int {
    match host {
        Some(h) if h@.len() > 0 => if h@.len() >= 2 && h@[0] == '*' && h@[1] == '.' {
            1
        } else {
            2
        },
        _ => 0,
    }
}

/// Whether a request for `host` is one for the host of a route: the host itself or,
/// for `*.domain`, a name that ends in `.domain` with something before it.
pub open spec fn host_fits(wanted: Option<String>, host: Seq<char>) -> bool {
    if host_kind(wanted) == 2 {
        host == wanted->0@
    } else if host_kind(wanted) == 1 {
        host.len() >= wanted->0@.len() && host.skip(host.len() - wanted->0@.len() + 1)
            == wanted->0@.skip(1)
    } else {
        true
    }
}

/// The path prefix that a route asks for, `/` where it gives none.
pub open spec fn wanted_prefix(prefix: Option<String>) -> Seq<char> {
    match prefix {
        Some(p) if p@.len() > 0 => p@,
        _ => seq!['/'],
    }
}

/// Whether a request for this host and path fits a route.
pub open spec fn request_fits(cfg: RouteConfig, host: Seq<char>, path: Seq<char>) -> bool {
    let prefix = wanted_prefix(cfg.matcher.path_prefix);
    &&& host_fits(cfg.matcher.host, host)
    &&& path.len() >= prefix.len()
    &&& path.take(prefix.len() as int) == prefix
}

/// A compiled route takes the requests that fit its config, and ranks by its host kind
/// and the length of its prefix in bytes.
proof fn lemma_compiled_route(
    route: CompiledRoute,
    cfg: RouteConfig,
    host: Seq<char>,
    path: Seq<char>,
)
    requires
        route.follows(cfg),
    ensures
        route.accepts(host, path) == request_fits(cfg, host, path),
        route.weight().0 == host_kind(cfg.matcher.host),
        route.weight().1 == encode_utf8(wanted_prefix(cfg.matcher.path_prefix)).len() as usize,
{
    reveal_strlit("*.");
    reveal_strlit("/");
    let prefix = wanted_prefix(cfg.matcher.path_prefix);
    assert(route.path_prefix@ =~= prefix);
    assert(prefix.is_prefix_of(path) == (path.len() >= prefix.len() && path.take(
        prefix.len() as int,
    ) == prefix)) by {
        if path.len() >= prefix.len() {
            assert(path.take(prefix.len() as int) =~= path.subrange(0, prefix.len() as int));
        }
    }
    if let Some(h) = cfg.matcher.host {
        let w = h@;
        assert("*."@.is_prefix_of(w) == (w.len() >= 2 && w[0] == '*' && w[1] == '.')) by {
            if w.len() >= 2 {
                assert(w.subrange(0, 2) =~= seq![w[0], w[1]]);
                assert("*."@ =~= seq!['*', '.']);
                if "*."@.is_prefix_of(w) {
                    assert("*."@[0] == w.subrange(0, 2)[0] && "*."@[1] == w.subrange(0, 2)[1]);
                }
            }
        }
        if host_kind(cfg.matcher.host) == 1 {
            let suffix = w.skip(1);
            if host.len() >= w.len() {
                assert(host.subrange(host.len() - suffix.len(), host.len() as int) =~= host.skip(
                    host.len() - w.len() + 1,
                ));
            }
        }
    }
}

/// The route that a request takes fits it, and no route that fits it too is more
/// specific: an exact host goes before a wildcard host, that before any host, and with
/// hosts of one kind the longer prefix goes first. Of routes that are equally specific
/// it is the last. Where no route is taken, none fits.
pub proof fn the_most_specific_route_is_taken(
    routes: Vec<RouteConfig>,
    router: Router,
    host: &str,
    path: &str,
    taken: Option<usize>,
)
    requires
        call_ensures(Router::build, (&routes,), router),
        call_ensures(Router::find_route, (&router, host, path), taken),
    ensures
        taken is None ==> forall|j: int|
            0 <= j < routes@.len() ==> !request_fits(#[trigger] routes@[j], host@, path@),
        taken matches Some(i) ==> {
            &&& i < routes@.len()
            &&& request_fits(routes@[i as int], host@, path@)
            &&& forall|j: int|
                0 <= j < routes@.len() && request_fits(#[trigger] routes@[j], host@, path@) ==> {
                    let kind_i = host_kind(routes@[i as int].matcher.host);
                    let kind_j = host_kind(routes@[j].matcher.host);
                    let len_i = encode_utf8(
                        wanted_prefix(routes@[i as int].matcher.path_prefix),
                    ).len() as usize;
                    let len_j = encode_utf8(
                        wanted_prefix(routes@[j].matcher.path_prefix),
                    ).len() as usize;
                    &&& kind_i >= kind_j
                    &&& kind_i == kind_j ==> len_i >= len_j
                    &&& kind_i == kind_j && len_i == len_j ==> j <= i
                }
        },
{
    assert forall|j: int| 0 <= j < routes@.len() implies {
        &&& router.routes@[j].accepts(host@, path@) == request_fits(
            #[trigger] routes@[j],
            host@,
            path@,
        )
        &&& router.routes@[j].weight().0 == host_kind(routes@[j].matcher.host)
        &&& router.routes@[j].weight().1 == encode_utf8(
            wanted_prefix(routes@[j].matcher.path_prefix),
        ).len() as usize
    } by {
        assert(router.routes@[j].follows(routes@[j]));
        lemma_compiled_route(router.routes@[j], routes@[j], host@, path@);
    }
    lemma_taken(router, router.routes@.len() as int, host@, path@);
}

proof fn lemma_taken(router: Router, n: int, host: Seq<char>, path: Seq<char>)
    requires
        0 <= n <= router.routes@.len(),
    ensures
        match router.best(n, host, path) {
            Some(i) => {
                &&& 0 <= i < n
                &&& router.routes@[i].accepts(host, path)
                &&& forall|j: int|
                    0 <= j < n && (#[trigger] router.routes@[j]).accepts(host, path) ==> {
                        let a = router.routes@[i].weight();
                        let b = router.routes@[j].weight();
                        a.0 > b.0 || a.0 == b.0 && (a.1 > b.1 || a.1 == b.1 && j <= i)
                    }
            },
            None => forall|j: int|
                0 <= j < n ==> !(#[trigger] router.routes@[j]).accepts(host, path),
        },
    decreases n,
{
    if n > 0 {
        lemma_taken(router, n - 1, host, path);
    }
}

/// A compiled route ranks and matches by its host and prefix alone: an exact host over
/// a wildcard over any, then the longer prefix in bytes.
pub proof fn routes_rank_by_host_and_prefix(
    router: Router,
    host: &str,
    path: &str,
    taken: Option<usize>,
    j: int,
)
    requires
        call_ensures(Router::find_route, (&router, host, path), taken),
        0 <= j < router.routes@.len(),
        router.routes@[j].path_prefix@.is_prefix_of(path@),
        match router.routes@[j].host_match {
            HostMatch::Any => true,
            HostMatch::Exact(h) => h@ == host@,
            HostMatch::Wildcard(suffix) => host@.len() > suffix@.len() && suffix@.is_suffix_of(
                host@,
            ),
        },
    ensures
        taken matches Some(i) && ({
            let a = router.routes@[i as int];
            let b = router.routes@[j];
            let len_a = encode_utf8(a.path_prefix@).len() as usize;
            let len_b = encode_utf8(b.path_prefix@).len() as usize;
            match (a.host_match, b.host_match) {
                (HostMatch::Exact(_), HostMatch::Exact(_)) => len_a >= len_b,
                (HostMatch::Exact(_), _) => true,
                (HostMatch::Wildcard(_), HostMatch::Exact(_)) => false,
                (HostMatch::Wildcard(_), HostMatch::Wildcard(_)) => len_a >= len_b,
                (HostMatch::Wildcard(_), HostMatch::Any) => true,
                (HostMatch::Any, HostMatch::Any) => len_a >= len_b,
                (HostMatch::Any, _) => false,
            }
        }),
{
    lemma_taken(router, router.routes@.len() as int, host@, path@);
    assert(router.routes@[j].accepts(host@, path@));
}

/// With `stripPrefix`, what goes upstream is what stands behind the prefix, made to
/// start with `/`, and the query as it came.
pub proof fn the_prefix_is_stripped(
    route: CompiledRoute,
    original: &str,
    rest: Seq<char>,
    query: Option<Seq<char>>,
    forwarded: String,
)
    requires
        call_ensures(
            CompiledRoute::rewritten_path_and_query,
            (&route, Some(original)),
            forwarded,
        ),
        route.strip_prefix,
        !route.path_prefix@.contains('?'),
        !rest.contains('?'),
        match query {
            Some(q) => original@ == route.path_prefix@ + rest + seq!['?'] + q,
            None => original@ == route.path_prefix@ + rest,
        },
    ensures
        ({
            let path = if rest.len() > 0 && rest[0] == '/' {
                rest
            } else {
                seq!['/'] + rest
            };
            match query {
                Some(q) => forwarded@ == path + seq!['?'] + q,
                None => forwarded@ == path,
            }
        }),
{
    reveal_strlit("/");
    reveal_strlit("?");
    let prefix = route.path_prefix@;
    let whole = prefix + rest;
    assert("/"@ =~= seq!['/'] && "?"@ =~= seq!['?']);
    lemma_cut(original@, '?');
    assert(!whole.contains('?')) by {
        if whole.contains('?') {
            let k = choose|k: int| 0 <= k < whole.len() && whole[k] == '?';
            if k < prefix.len() {
                assert(prefix[k] == '?');
            } else {
                assert(rest[k - prefix.len()] == '?');
            }
        }
    }
    match query {
        Some(q) => {
            assert(original@[whole.len() as int] == '?');
            lemma_first_cut(original@, '?', whole.len() as int);
            assert(before(original@, '?') =~= whole);
            assert(after(original@, '?') =~= q);
            assert(original@.contains('?'));
        },
        None => {
            assert(original@ =~= whole);
            assert(before(original@, '?') =~= whole);
        },
    }
    assert(whole.subrange(0, prefix.len() as int) =~= prefix);
    assert(prefix.is_prefix_of(whole));
    assert(whole.skip(prefix.len() as int) =~= rest);
}

/// The first `c` stands at `k` where there is none before it.
proof fn lemma_first_cut(s: Seq<char>, c: char, k: int)
    requires
        0 <= k < s.len(),
        s[k] == c,
        forall|i: int| 0 <= i < k ==> s[i] != c,
    ensures
        cut(s, c) == k,
    decreases s.len(),
{
    if k > 0 {
        lemma_first_cut(s.drop_first(), c, k - 1);
    }
}

/// Without `stripPrefix` the path and query go upstream as they came; a request without
/// any asks for `/`.
pub proof fn other_paths_are_kept(
    route: CompiledRoute,
    original: Option<&str>,
    forwarded: String,
)
    requires
        call_ensures(CompiledRoute::rewritten_path_and_query, (&route, original), forwarded),
        !route.strip_prefix,
    ensures
        original matches Some(text) ==> forwarded@ == text@,
        original is None ==> forwarded@ == seq!['/'],
{
    reveal_strlit("/");
    assert("/"@ =~= seq!['/']);
}

/// A route with the name, the upstream, the match, the rate limit and the kind of
/// credentials of its config.
pub open spec fn stands_for(route: CompiledRoute, cfg: RouteConfig) -> bool {
    &&& route.name == cfg.name
    &&& route.upstream == cfg.upstream
    &&& route.strip_prefix == cfg.strip_prefix
    &&& route.path_prefix@ == wanted_prefix(cfg.matcher.path_prefix)
    &&& route.host == (if host_kind(cfg.matcher.host) == 0 {
        None
    } else {
        cfg.matcher.host
    })
    &&& route.rate_limit == cfg.rate_limit
    &&& route.basic_auth is Some == cfg.basic_auth is Some
}

/// What follows its config stands for it.
pub proof fn lemma_stands_for(route: CompiledRoute, cfg: RouteConfig)
    requires
        route.follows(cfg),
    ensures
        stands_for(route, cfg),
{
    reveal_strlit("/");
    assert("/"@ =~= seq!['/']);
}

/// A host pattern: nothing or an empty text fits every host, `*.domain` the names under
/// the domain, and any other text the host of that name. One host ranks over the names
/// under a domain, and those over any host.
pub proof fn hosts_match_by_their_pattern(
    pattern: Option<String>,
    compiled: HostMatch,
    host: &str,
    fits: bool,
    rank: u8,
)
    requires
        call_ensures(HostMatch::compile, (&pattern,), compiled),
        call_ensures(HostMatch::matches, (&compiled, host), fits),
        call_ensures(HostMatch::rank, (&compiled,), rank),
    ensures
        fits == host_fits(pattern, host@),
        rank == host_kind(pattern),
{
    reveal_strlit("*.");
    if let Some(h) = pattern {
        let w = h@;
        assert("*."@.is_prefix_of(w) == (w.len() >= 2 && w[0] == '*' && w[1] == '.')) by {
            if w.len() >= 2 {
                assert(w.subrange(0, 2) =~= seq![w[0], w[1]]);
                assert("*."@ =~= seq!['*', '.']);
                if "*."@.is_prefix_of(w) {
                    assert("*."@[0] == w.subrange(0, 2)[0] && "*."@[1] == w.subrange(0, 2)[1]);
                }
            }
        }
        if host_kind(pattern) == 1 {
            let suffix = w.skip(1);
            if host@.len() >= w.len() {
                assert(host@.subrange(host@.len() - suffix.len(), host@.len() as int)
                    =~= host@.skip(host@.len() - w.len() + 1));
            }
        }
    }
}

/// A compiled route is that of its config: name, upstream, host, prefix, rate limit, and
/// credentials where there are any; it takes the requests that fit it.
pub proof fn routes_are_compiled_as_configured(
    cfg: RouteConfig,
    route: CompiledRoute,
    host: &str,
    path: &str,
    fits: bool,
    weight: (u8, usize),
)
    requires
        call_ensures(CompiledRoute::compile, (&cfg,), route),
        call_ensures(CompiledRoute::matches, (&route, host, path), fits),
        call_ensures(CompiledRoute::specificity, (&route,), weight),
    ensures
        fits == request_fits(cfg, host@, path@),
        weight.0 == host_kind(cfg.matcher.host),
        weight.1 == encode_utf8(wanted_prefix(cfg.matcher.path_prefix)).len() as usize,
        stands_for(route, cfg),
        route.basic_auth matches Some(auth) ==> auth.accepted@.len()
            == cfg.basic_auth->0.users@.len(),
        cfg.ip_access is None ==> route.ip_access.allow@.len() == 0 && route.ip_access.deny@.len()
            == 0,
        cfg.headers is None ==> route.request_headers.set@.len() == 0
            && route.request_headers.remove@.len() == 0 && route.response_headers.set@.len() == 0
            && route.response_headers.remove@.len() == 0,
{
    lemma_stands_for(route, cfg);
    lemma_compiled_route(route, cfg, host@, path@);
    assert(route.request_headers.names().len() == route.request_headers.remove@.len());
    assert(route.request_headers.pairs().len() == route.request_headers.set@.len());
    assert(route.response_headers.names().len() == route.response_headers.remove@.len());
    assert(route.response_headers.pairs().len() == route.response_headers.set@.len());
}

/// The header rules of a route are those of its config, and so are its lists of addresses
/// and its credentials: they do what these, compiled on their own, do.
pub proof fn route_rules_are_those_of_the_config(
    cfg: RouteConfig,
    route: CompiledRoute,
    request: HeaderOps,
    response: HeaderOps,
    access: IpAccess,
    auth: BasicAuth,
    i: int,
)
    requires
        call_ensures(CompiledRoute::compile, (&cfg,), route),
        cfg.headers matches Some(h) ==> call_ensures(HeaderOps::compile, (&h.request,), request),
        cfg.headers matches Some(h) ==> call_ensures(HeaderOps::compile, (&h.response,), response),
        cfg.ip_access matches Some(a) ==> call_ensures(IpAccess::compile, (&a,), access),
        cfg.basic_auth matches Some(b) ==> call_ensures(BasicAuth::compile, (&b,), auth),
    ensures
        cfg.headers is Some ==> route.request_headers.pairs() == request.pairs()
            && route.request_headers.names() == request.names() && route.response_headers.pairs()
            == response.pairs() && route.response_headers.names() == response.names(),
        cfg.ip_access is Some ==> route.ip_access.allow@ == access.allow@ && route.ip_access.deny@
            == access.deny@,
        cfg.basic_auth is Some && 0 <= i < cfg.basic_auth->0.users@.len() ==> (
        route.basic_auth matches Some(a) && a.accepted@[i]@ == auth.accepted@[i]@),
{
}

/// What is shown of the routes of a router: each in its place, with its name, its match
/// and its upstream.
pub proof fn summaries_show_every_route(router: Router, r: Vec<RouteSummary>, i: int)
    requires
        call_ensures(Router::summaries, (&router,), r),
    ensures
        r@.len() == router.routes@.len(),
        0 <= i < r@.len() ==> r@[i].name == router.routes@[i].name && r@[i].host
            == router.routes@[i].host && r@[i].path_prefix == router.routes@[i].path_prefix
            && r@[i].upstream == router.routes@[i].upstream,
{
}

/// A match is empty where it gives neither a host nor a prefix, and its prefix is `/`
/// where it gives none. A wildcard host is `*.` and a domain without another `*`.
pub proof fn matches_are_read_leniently(
    matcher: MatchConfig,
    empty: bool,
    prefix: String,
    text: Option<String>,
    missing: bool,
    host: &str,
    wildcard: bool,
)
    requires
        call_ensures(MatchConfig::is_empty, (&matcher,), empty),
        call_ensures(effective_prefix, (&matcher,), prefix),
        call_ensures(is_blank, (&text,), missing),
        call_ensures(is_valid_wildcard_host, (host,), wildcard),
    ensures
        empty == (!(matcher.host matches Some(h) && h@.len() > 0) && !(
        matcher.path_prefix matches Some(p) && p@.len() > 0)),
        prefix@ == wanted_prefix(matcher.path_prefix),
        missing == !(text matches Some(t) && t@.len() > 0),
        wildcard == (host@.len() > 2 && host@[0] == '*' && host@[1] == '.' && forall|i: int|
            2 <= i < host@.len() ==> host@[i] != '*'),
{
    reveal_strlit("/");
    assert("/"@ =~= seq!['/']);
    if host@.len() > 2 {
        let rest = host@.skip(2);
        if rest.contains('*') {
            let i = choose|i: int| 0 <= i < rest.len() && rest[i] == '*';
            assert(host@[i + 2] == '*');
        } else {
            assert forall|i: int| 2 <= i < host@.len() implies host@[i] != '*' by {
                assert(rest[i - 2] == host@[i]);
            }
        }
    }
}

} // verus!
