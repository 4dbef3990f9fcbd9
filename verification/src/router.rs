//! Routing: which route a request takes, and what the route does to its path and
//! headers.

use http::HeaderMap;
use vstd::prelude::*;
use vstd::utf8::encode_utf8;
use crate::access::{networks, BasicAuth, IpAccess};
use crate::headers::{
    fields, has_room, insert_field, is_field_name, is_field_value, is_value, parse_name,
    remove_field, Fields,
};
use crate::model::{blank, HeaderOpsConfig, RateLimitConfig, RouteConfig};
use crate::text::{
    after, before, chars_of, ends_with, lemma_cut, lower, opt_text, split_once, starts_with,
    string_of_range, text_eq,
};
use crate::validator::{effective_prefix, header_name, prefix_of};

verus! {

/// Compiled header rewrite for one direction: `remove` runs, then `set` (so an
/// explicit `set` always wins). Names are in lower case.
#[derive(Debug, Clone)]
pub struct HeaderOps {
    pub set: Vec<(String, String)>,
    pub remove: Vec<String>,
}

impl Default for HeaderOps {
    fn default() -> (r: Self)
        ensures
            r.wf(),
            r.set@.len() == 0,
            r.remove@.len() == 0,
    {
        HeaderOps { set: Vec::new(), remove: Vec::new() }
    }
}

/// The names, in lower case, of the first `n` entries that are valid names.
pub open spec fn valid_names(entries: Seq<String>, n: int) -> Seq<Seq<char>>
    decreases n,
{
    if n <= 0 {
        Seq::empty()
    } else if header_name(entries[n - 1]@) {
        valid_names(entries, n - 1).push(lower(entries[n - 1]@))
    } else {
        valid_names(entries, n - 1)
    }
}

/// Name, in lower case, and value of the first `n` entries that are valid.
pub open spec fn valid_pairs(entries: Seq<(String, String)>, n: int) -> Seq<(Seq<char>, Seq<char>)>
    decreases n,
{
    if n <= 0 {
        Seq::empty()
    } else if header_name(entries[n - 1].0@) && is_field_value(encode_utf8(entries[n - 1].1@)) {
        valid_pairs(entries, n - 1).push((lower(entries[n - 1].0@), entries[n - 1].1@))
    } else {
        valid_pairs(entries, n - 1)
    }
}

/// The fields without the first `n` of these names.
pub open spec fn without(f: Fields, names: Seq<Seq<char>>, n: int) -> Fields
    decreases n,
{
    if n <= 0 {
        f
    } else {
        without(f, names, n - 1).remove(names[n - 1])
    }
}

/// The fields with the first `n` of these set.
pub open spec fn with_all(f: Fields, pairs: Seq<(Seq<char>, Seq<char>)>, n: int) -> Fields
    decreases n,
{
    if n <= 0 {
        f
    } else {
        with_all(f, pairs, n - 1).insert(pairs[n - 1].0, seq![encode_utf8(pairs[n - 1].1)])
    }
}

/// A valid name in lower case is a field name.
pub proof fn lemma_lower_name(s: Seq<char>)
    requires
        header_name(s),
    ensures
        is_field_name(lower(s)),
{
    let l = lower(s);
    assert forall|i: int| 0 <= i < l.len() implies crate::uri::token_char(#[trigger] l[i]) by {
        assert(crate::uri::token_char(s[i]));
    }
    assert(lower(l) =~= l);
}

impl HeaderOps {
    /// Names and values are such as a header map takes.
    pub open spec fn wf(self) -> bool {
        &&& forall|i: int| 0 <= i < self.remove@.len() ==> is_field_name(#[trigger] self.remove@[i]@)
        &&& forall|i: int|
            0 <= i < self.set@.len() ==> is_field_name((#[trigger] self.set@[i]).0@)
                && is_field_value(encode_utf8(self.set@[i].1@))
    }

    pub open spec fn names(self) -> Seq<Seq<char>> {
        self.remove@.map_values(|s: String| s@)
    }

    pub open spec fn pairs(self) -> Seq<(Seq<char>, Seq<char>)> {
        self.set@.map_values(|p: (String, String)| (p.0@, p.1@))
    }

    /// The fields after the rewrite.
    pub open spec fn applied(self, f: Fields) -> Fields {
        with_all(
            without(f, self.names(), self.names().len() as int),
            self.pairs(),
            self.pairs().len() as int,
        )
    }

    /// The rewrite that a config asks for. Built from already-validated config; any
    /// name/value that is not valid is dropped defensively.
    pub fn compile(cfg: &HeaderOpsConfig) -> (r: Self)
        ensures
            r.wf(),
            r.names() == valid_names(cfg.remove@, cfg.remove@.len() as int),
            r.pairs() == valid_pairs(cfg.set@, cfg.set@.len() as int),
    {
        let mut remove: Vec<String> = Vec::new();
        let mut i: usize = 0;
        assert(remove@.map_values(|s: String| s@) == Seq::<Seq<char>>::empty());
        while i < cfg.remove.len()
            invariant
                i <= cfg.remove.len(),
                remove@.map_values(|s: String| s@) == valid_names(cfg.remove@, i as int),
                forall|j: int| 0 <= j < remove.len() ==> is_field_name(#[trigger] remove@[j]@),
            decreases cfg.remove.len() - i,
        {
            if let Some(name) = parse_name(cfg.remove[i].as_str()) {
                proof {
                    lemma_lower_name(cfg.remove@[i as int]@);
                }
                let ghost done = remove@.map_values(|s: String| s@);
                remove.push(name);
                assert(remove@.map_values(|s: String| s@) == done.push(name@));
            }
            i += 1;
        }
        let mut set: Vec<(String, String)> = Vec::new();
        let mut k: usize = 0;
        assert(set@.map_values(|p: (String, String)| (p.0@, p.1@)) == Seq::<
            (Seq<char>, Seq<char>),
        >::empty());
        while k < cfg.set.len()
            invariant
                k <= cfg.set.len(),
                set@.map_values(|p: (String, String)| (p.0@, p.1@)) == valid_pairs(
                    cfg.set@,
                    k as int,
                ),
                forall|j: int|
                    0 <= j < set.len() ==> is_field_name((#[trigger] set@[j]).0@)
                        && is_field_value(encode_utf8(set@[j].1@)),
            decreases cfg.set.len() - k,
        {
            let entry = &cfg.set[k];
            if let Some(name) = parse_name(entry.0.as_str()) {
                if is_value(entry.1.as_str()) {
                    proof {
                        lemma_lower_name(cfg.set@[k as int].0@);
                    }
                    let ghost done = set@.map_values(|p: (String, String)| (p.0@, p.1@));
                    let pair = (name, entry.1.clone());
                    set.push(pair);
                    assert(set@.map_values(|p: (String, String)| (p.0@, p.1@)) == done.push(
                        (pair.0@, pair.1@),
                    ));
                }
            }
            k += 1;
        }
        HeaderOps { set, remove }
    }

    /// Rewrite the headers: `remove` runs, then `set`.
    pub fn apply(&self, headers: &mut HeaderMap)
        requires
            self.wf(),
            has_room(*old(headers), self.set@.len()),
        ensures
            fields(*final(headers)) == self.applied(fields(*old(headers))),
    {
        let ghost f = fields(*headers);
        let mut i: usize = 0;
        while i < self.remove.len()
            invariant
                i <= self.remove.len(),
                self.wf(),
                fields(*headers) == without(f, self.names(), i as int),
                has_room(*headers, self.set@.len()),
            decreases self.remove.len() - i,
        {
            let ghost before = fields(*headers);
            remove_field(headers, self.remove[i].as_str());
            assert(self.names()[i as int] == self.remove@[i as int]@);
            assert(fields(*headers).dom() =~= before.dom().remove(self.remove@[i as int]@));
            i += 1;
        }
        let ghost g = fields(*headers);
        let mut k: usize = 0;
        while k < self.set.len()
            invariant
                k <= self.set.len(),
                self.wf(),
                fields(*headers) == with_all(g, self.pairs(), k as int),
                has_room(*headers, (self.set@.len() - k) as nat),
            decreases self.set.len() - k,
        {
            let ghost before = fields(*headers);
            let entry = &self.set[k];
            insert_field(headers, entry.0.as_str(), entry.1.as_str().as_bytes());
            assert(self.pairs()[k as int] == (entry.0@, entry.1@));
            assert(fields(*headers).dom() =~= before.dom().insert(entry.0@));
            k += 1;
        }
    }
}

/// What is left of one field once these names are taken out.
pub proof fn lemma_without(f: Fields, names: Seq<Seq<char>>, n: int, name: Seq<char>)
    requires
        0 <= n <= names.len(),
    ensures
        names.take(n).contains(name) ==> !without(f, names, n).contains_key(name),
        !names.take(n).contains(name) ==> (without(f, names, n).contains_key(name)
            == f.contains_key(name) && (f.contains_key(name) ==> without(f, names, n)[name]
            == f[name])),
    decreases n,
{
    if n > 0 {
        lemma_without(f, names, n - 1, name);
        let shorter = names.take(n - 1);
        let longer = names.take(n);
        assert(longer == shorter.push(names[n - 1]));
        if longer.contains(name) {
            let i = choose|i: int| 0 <= i < longer.len() && longer[i] == name;
            if i < n - 1 {
                assert(shorter[i] == name);
            }
        } else {
            if shorter.contains(name) {
                let i = choose|i: int| 0 <= i < shorter.len() && shorter[i] == name;
                assert(longer[i] == name);
            }
            assert(longer[n - 1] == names[n - 1]);
        }
    }
}

proof fn lemma_with_all(f: Fields, pairs: Seq<(Seq<char>, Seq<char>)>, n: int, name: Seq<char>)
    requires
        0 <= n <= pairs.len(),
    ensures
        (forall|i: int| 0 <= i < n ==> (#[trigger] pairs[i]).0 != name) ==> (with_all(
            f,
            pairs,
            n,
        ).contains_key(name) == f.contains_key(name) && (f.contains_key(name) ==> with_all(
            f,
            pairs,
            n,
        )[name] == f[name])),
    decreases n,
{
    if n > 0 {
        lemma_with_all(f, pairs, n - 1, name);
    }
}

/// What a rewrite does to one header, of whatever name. A header that is set has
/// just the value of its last `set`, even where it is removed too; one that is
/// only removed is gone; any other is as it was.
pub proof fn set_wins_over_remove(ops: HeaderOps, f: Fields, name: Seq<char>)
    ensures
        forall|i: int|
            0 <= i < ops.pairs().len() && (#[trigger] ops.pairs()[i]).0 == name && (forall|j: int|
                i < j < ops.pairs().len() ==> (#[trigger] ops.pairs()[j]).0 != name)
                ==> ops.applied(f).contains_key(name) && ops.applied(f)[name] == seq![
                encode_utf8(ops.pairs()[i].1),
            ],
        (forall|i: int| 0 <= i < ops.pairs().len() ==> (#[trigger] ops.pairs()[i]).0 != name)
            && ops.names().contains(name) ==> !ops.applied(f).contains_key(name),
        (forall|i: int| 0 <= i < ops.pairs().len() ==> (#[trigger] ops.pairs()[i]).0 != name)
            && !ops.names().contains(name) ==> (ops.applied(f).contains_key(name)
            == f.contains_key(name) && (f.contains_key(name) ==> ops.applied(f)[name] == f[name])),
{
    let names = ops.names();
    let pairs = ops.pairs();
    let g = without(f, names, names.len() as int);
    lemma_without(f, names, names.len() as int, name);
    assert(names.take(names.len() as int) == names);
    lemma_with_all(g, pairs, pairs.len() as int, name);
    assert forall|i: int|
        0 <= i < pairs.len() && (#[trigger] pairs[i]).0 == name && (forall|j: int|
            i < j < pairs.len() ==> (#[trigger] pairs[j]).0 != name) implies ops.applied(
        f,
    ).contains_key(name) && ops.applied(f)[name] == seq![encode_utf8(pairs[i].1)] by {
        lemma_last_set(g, pairs, i, pairs.len() as int);
    }
}

proof fn lemma_last_set(f: Fields, pairs: Seq<(Seq<char>, Seq<char>)>, i: int, n: int)
    requires
        0 <= i < n <= pairs.len(),
        forall|j: int| i < j < n ==> (#[trigger] pairs[j]).0 != pairs[i].0,
    ensures
        with_all(f, pairs, n).contains_key(pairs[i].0),
        with_all(f, pairs, n)[pairs[i].0] == seq![encode_utf8(pairs[i].1)],
    decreases n,
{
    if i < n - 1 {
        lemma_last_set(f, pairs, i, n - 1);
        assert(pairs[n - 1].0 != pairs[i].0);
    }
}

/// How a route matches the request host.
#[derive(Debug, Clone)]
pub enum HostMatch {
    /// Matches any host.
    Any,
    /// Matches one exact host.
    Exact(String),
    /// Matches any subdomain: `*.example.com` -> suffix `.example.com`.
    Wildcard(String),
}

impl HostMatch {
    /// Whether a host matches. Before the suffix of a wildcard a non-empty label
    /// must stand (which leaves the bare domain out).
    pub open spec fn accepts(self, host: Seq<char>) -> bool {
        match self {
            HostMatch::Any => true,
            HostMatch::Exact(h) => h@ == host,
            HostMatch::Wildcard(suffix) => host.len() > suffix@.len() && suffix@.is_suffix_of(host),
        }
    }

    /// Specificity rank: exact > wildcard > any.
    pub open spec fn rank_of(self) -> u8 {
        match self {
            HostMatch::Exact(_) => 2,
            HostMatch::Wildcard(_) => 1,
            HostMatch::Any => 0,
        }
    }

    /// `self` matches as the host of a route says: nothing or an empty text matches
    /// any host, `*.` with a suffix matches subdomains, anything else itself.
    pub open spec fn follows(self, host: Option<Seq<char>>) -> bool {
        match host {
            None => self is Any,
            Some(h) => if h.len() == 0 {
                self is Any
            } else if "*."@.is_prefix_of(h) {
                self matches HostMatch::Wildcard(suffix) && suffix@ == h.skip(1)
            } else {
                self matches HostMatch::Exact(e) && e@ == h
            },
        }
    }

    pub fn compile(host: &Option<String>) -> (r: Self)
        ensures
            r.follows(opt_text(*host)),
    {
        match host {
            None => HostMatch::Any,
            Some(h) => {
                if h.as_str().is_empty() {
                    HostMatch::Any
                } else if starts_with(h.as_str(), "*.") {
                    let x = chars_of(h.as_str());
                    proof {
                        reveal_strlit("*.");
                    }
                    let suffix = string_of_range(&x, 1, x.len());
                    assert(suffix@ == h@.skip(1));
                    HostMatch::Wildcard(suffix)
                } else {
                    HostMatch::Exact(h.clone())
                }
            },
        }
    }

    pub fn matches(&self, host: &str) -> (r: bool)
        ensures
            r == self.accepts(host@),
    {
        match self {
            HostMatch::Any => true,
            HostMatch::Exact(h) => text_eq(h.as_str(), host),
            HostMatch::Wildcard(suffix) => {
                chars_of(host).len() > chars_of(suffix.as_str()).len() && ends_with(
                    host,
                    suffix.as_str(),
                )
            },
        }
    }

    /// Specificity rank: exact > wildcard > any.
    pub fn rank(&self) -> (r: u8)
        ensures
            r == self.rank_of(),
    {
        match self {
            HostMatch::Exact(_) => 2,
            HostMatch::Wildcard(_) => 1,
            HostMatch::Any => 0,
        }
    }
}

/// A route compiled for fast matching at request time.
#[derive(Debug, Clone)]
pub struct CompiledRoute {
    pub name: String,
    pub upstream: String,
    /// Original host string, kept for admin introspection.
    pub host: Option<String>,
    pub host_match: HostMatch,
    /// Path prefix; defaults to `/` (matches every path).
    pub path_prefix: String,
    pub strip_prefix: bool,
    /// Header rewrites for the upstream request and the client response.
    pub request_headers: HeaderOps,
    pub response_headers: HeaderOps,
    /// Client-IP access control (allow/deny).
    pub ip_access: IpAccess,
    pub rate_limit: Option<RateLimitConfig>,
    pub basic_auth: Option<BasicAuth>,
}

/// Read-only view of a route for admin/introspection.
#[derive(Debug, Clone, PartialEq, Eq)]
pub struct RouteSummary {
    pub name: String,
    pub host: Option<String>,
    pub path_prefix: String,
    pub upstream: String,
}

/// A path made to start with `/`.
pub open spec fn rooted(path: Seq<char>) -> Seq<char> {
    if path.len() > 0 && path[0] == '/' {
        path
    } else {
        "/"@ + path
    }
}

/// A path and query with `prefix` taken off the path, where the path has it.
pub open spec fn stripped(original: Seq<char>, prefix: Seq<char>) -> Seq<char> {
    let path = before(original, '?');
    let rest = if prefix.is_prefix_of(path) {
        path.skip(prefix.len() as int)
    } else {
        path
    };
    if original.contains('?') {
        rooted(rest) + "?"@ + after(original, '?')
    } else {
        rooted(rest)
    }
}

/// A route goes before another where its host matches more exactly or, with
/// hosts of one kind, where its path prefix is longer.
pub open spec fn more_specific(a: (u8, usize), b: (u8, usize)) -> bool {
    a.0 > b.0 || a.0 == b.0 && a.1 > b.1
}

impl CompiledRoute {
    pub open spec fn wf(self) -> bool {
        self.request_headers.wf() && self.response_headers.wf() && self.ip_access.wf()
    }

    /// Whether a request for this host and path may take the route.
    pub open spec fn accepts(self, host: Seq<char>, path: Seq<char>) -> bool {
        self.host_match.accepts(host) && self.path_prefix@.is_prefix_of(path)
    }

    /// Host rank and length of the path prefix in bytes.
    pub open spec fn weight(self) -> (u8, usize) {
        (self.host_match.rank_of(), encode_utf8(self.path_prefix@).len() as usize)
    }

    /// The path and query that go upstream.
    pub open spec fn forwarded(self, original: Option<Seq<char>>) -> Seq<char> {
        let text = match original {
            Some(t) => t,
            None => "/"@,
        };
        if self.strip_prefix {
            stripped(text, self.path_prefix@)
        } else {
            text
        }
    }

    pub fn matches(&self, host: &str, path: &str) -> (r: bool)
        ensures
            r == self.accepts(host@, path@),
    {
        self.host_match.matches(host) && starts_with(path, self.path_prefix.as_str())
    }

    /// Higher is more specific: exact host > wildcard host > any host, then a
    /// longer path prefix beats a shorter one.
    pub fn specificity(&self) -> (r: (u8, usize))
        ensures
            r == self.weight(),
    {
        (self.host_match.rank(), self.path_prefix.as_str().len())
    }

    /// The path + query to forward upstream, applying `stripPrefix` if set.
    /// Strips the matched `path_prefix` and normalizes to a leading `/`. `original`
    /// is what the request URI has, `None` where it has no path.
    pub fn rewritten_path_and_query(&self, original: Option<&str>) -> (r: String)
        ensures
            r@ == self.forwarded(
                match original {
                    Some(t) => Some(t@),
                    None => None,
                },
            ),
    {
        let original = match original {
            Some(t) => t,
            None => "/",
        };
        if !self.strip_prefix {
            return original.to_string();
        }
        let (path, query) = match split_once(original, '?') {
            Some((p, q)) => (p, Some(q)),
            None => {
                proof {
                    lemma_cut(original@, '?');
                    assert(before(original@, '?') == original@);
                }
                (original.to_string(), None)
            },
        };
        let x = chars_of(path.as_str());
        let prefix_len: usize = chars_of(self.path_prefix.as_str()).len();
        let from: usize = if starts_with(path.as_str(), self.path_prefix.as_str()) {
            prefix_len
        } else {
            0
        };
        let rest = string_of_range(&x, from, x.len());
        assert(from == 0 ==> rest@ == path@);
        assert(rest@ == x@.skip(from as int));
        let mut out = String::new();
        if !(from < x.len() && x[from] == '/') {
            out.append("/");
        }
        out.append(rest.as_str());
        assert(out@ == rooted(rest@));
        if let Some(q) = query {
            out.append("?");
            out.append(q.as_str());
        }
        out
    }
}

/// The path and query that go upstream start with `/` wherever the prefix is
/// stripped, and are the original ones where it is not.
pub proof fn forwarded_path_is_rooted(route: CompiledRoute, original: Seq<char>)
    ensures
        route.strip_prefix ==> route.forwarded(Some(original)).len() > 0 && route.forwarded(
            Some(original),
        )[0] == '/',
        !route.strip_prefix ==> route.forwarded(Some(original)) == original,
{
    reveal_strlit("/");
}

/// Stripping the prefix keeps the query as it is.
pub proof fn query_is_preserved(route: CompiledRoute, original: Seq<char>)
    requires
        original.contains('?'),
    ensures
        ("?"@ + after(original, '?')).is_suffix_of(route.forwarded(Some(original))),
{
    reveal_strlit("?");
    lemma_cut(original, '?');
    let f = route.forwarded(Some(original));
    let tail = "?"@ + after(original, '?');
    if route.strip_prefix {
        assert(f.subrange(f.len() - tail.len(), f.len() as int) =~= tail);
    } else {
        assert(f.subrange(f.len() - tail.len(), f.len() as int) =~= tail);
    }
}

/// `ops` is the rewrite that `cfg` asks for.
pub open spec fn ops_follow(ops: HeaderOps, cfg: Option<HeaderOpsConfig>) -> bool {
    match cfg {
        Some(c) => ops.names() == valid_names(c.remove@, c.remove@.len() as int) && ops.pairs()
            == valid_pairs(c.set@, c.set@.len() as int),
        None => ops.names().len() == 0 && ops.pairs().len() == 0,
    }
}

impl CompiledRoute {
    /// `self` is what `cfg` compiles to.
    pub open spec fn follows(self, cfg: RouteConfig) -> bool {
        &&& self.wf()
        &&& self.name == cfg.name
        &&& self.upstream == cfg.upstream
        &&& self.host == if blank(cfg.matcher.host) {
            None
        } else {
            cfg.matcher.host
        }
        &&& self.host_match.follows(opt_text(cfg.matcher.host))
        &&& self.path_prefix@ == prefix_of(cfg.matcher)
        &&& self.strip_prefix == cfg.strip_prefix
        &&& ops_follow(
            self.request_headers,
            match cfg.headers {
                Some(h) => Some(h.request),
                None => None,
            },
        )
        &&& ops_follow(
            self.response_headers,
            match cfg.headers {
                Some(h) => Some(h.response),
                None => None,
            },
        )
        &&& match cfg.ip_access {
            Some(a) => self.ip_access.allow@ == networks(a.allow@, a.allow@.len() as int)
                && self.ip_access.deny@ == networks(a.deny@, a.deny@.len() as int),
            None => self.ip_access.allow@.len() == 0 && self.ip_access.deny@.len() == 0,
        }
        &&& self.rate_limit == cfg.rate_limit
        &&& match cfg.basic_auth {
            Some(b) => self.basic_auth matches Some(a) && a.follows(b),
            None => self.basic_auth is None,
        }
    }

    /// Compile one route.
    pub fn compile(cfg: &RouteConfig) -> (r: Self)
        ensures
            r.follows(*cfg),
    {
        let host: Option<String> = match &cfg.matcher.host {
            Some(h) => if h.as_str().is_empty() {
                None
            } else {
                Some(h.clone())
            },
            None => None,
        };
        let (request_headers, response_headers) = match &cfg.headers {
            Some(h) => (HeaderOps::compile(&h.request), HeaderOps::compile(&h.response)),
            None => (HeaderOps::default(), HeaderOps::default()),
        };
        let ip_access = match &cfg.ip_access {
            Some(a) => IpAccess::compile(a),
            None => IpAccess::default(),
        };
        let basic_auth: Option<BasicAuth> = match &cfg.basic_auth {
            Some(b) => Some(BasicAuth::compile(b)),
            None => None,
        };
        CompiledRoute {
            name: cfg.name.clone(),
            upstream: cfg.upstream.clone(),
            host_match: HostMatch::compile(&host),
            host,
            path_prefix: effective_prefix(&cfg.matcher),
            strip_prefix: cfg.strip_prefix,
            request_headers,
            response_headers,
            ip_access,
            rate_limit: cfg.rate_limit,
            basic_auth,
        }
    }
}

/// Per-listener routing table. Picks the most specific matching route.
#[derive(Debug, Clone)]
pub struct Router {
    pub routes: Vec<CompiledRoute>,
}

impl Router {
    pub open spec fn wf(self) -> bool {
        forall|i: int| 0 <= i < self.routes@.len() ==> (#[trigger] self.routes@[i]).wf()
    }

    /// The route that a request takes, of the first `n`: the most specific one that
    /// accepts it, and of equally specific ones the last.
    pub open spec fn best(self, n: int, host: Seq<char>, path: Seq<char>) -> Option<int>
        decreases n,
    {
        if n <= 0 {
            None
        } else {
            let rest = self.best(n - 1, host, path);
            if !self.routes@[n - 1].accepts(host, path) {
                rest
            } else {
                match rest {
                    Some(i) => if more_specific(
                        self.routes@[i].weight(),
                        self.routes@[n - 1].weight(),
                    ) {
                        Some(i)
                    } else {
                        Some(n - 1)
                    },
                    None => Some(n - 1),
                }
            }
        }
    }

    /// The route that a request takes.
    pub open spec fn chosen(self, host: Seq<char>, path: Seq<char>) -> Option<int> {
        self.best(self.routes@.len() as int, host, path)
    }

    /// `self` holds what the routes of a listener compile to, in order.
    pub open spec fn follows(self, routes: Seq<RouteConfig>) -> bool {
        self.routes@.len() == routes.len() && forall|i: int|
            0 <= i < routes.len() ==> (#[trigger] self.routes@[i]).follows(routes[i])
    }

    pub fn build(routes: &Vec<RouteConfig>) -> (r: Self)
        ensures
            r.follows(routes@),
            r.wf(),
    {
        let mut out: Vec<CompiledRoute> = Vec::new();
        let mut i: usize = 0;
        while i < routes.len()
            invariant
                i <= routes.len(),
                out.len() == i,
                forall|j: int| 0 <= j < i ==> (#[trigger] out@[j]).follows(routes@[j]),
            decreases routes.len() - i,
        {
            out.push(CompiledRoute::compile(&routes[i]));
            i += 1;
        }
        Router { routes: out }
    }

    /// Position of the route that a request takes.
    pub fn find_route(&self, host: &str, path: &str) -> (r: Option<usize>)
        ensures
            match r {
                Some(i) => i < self.routes@.len() && self.chosen(host@, path@) == Some(i as int),
                None => self.chosen(host@, path@) is None,
            },
    {
        let mut best: Option<usize> = None;
        let mut i: usize = 0;
        while i < self.routes.len()
            invariant
                i <= self.routes.len(),
                match best {
                    Some(k) => k < i && self.best(i as int, host@, path@) == Some(k as int),
                    None => self.best(i as int, host@, path@) is None,
                },
            decreases self.routes.len() - i,
        {
            if self.routes[i].matches(host, path) {
                best = match best {
                    Some(k) => {
                        let (old_rank, old_len) = self.routes[k].specificity();
                        let (new_rank, new_len) = self.routes[i].specificity();
                        if old_rank > new_rank || old_rank == new_rank && old_len > new_len {
                            Some(k)
                        } else {
                            Some(i)
                        }
                    },
                    None => Some(i),
                };
            }
            i += 1;
        }
        best
    }

    /// The route that a request takes.
    pub fn match_route(&self, host: &str, path: &str) -> (r: Option<&CompiledRoute>)
        ensures
            match r {
                Some(route) => self.chosen(host@, path@) matches Some(i) && 0 <= i
                    < self.routes@.len() && *route == self.routes@[i],
                None => self.chosen(host@, path@) is None,
            },
    {
        match self.find_route(host, path) {
            Some(i) => Some(&self.routes[i]),
            None => None,
        }
    }

    /// What the admin API shows of the routes, in order.
    pub fn summaries(&self) -> (r: Vec<RouteSummary>)
        ensures
            r@.len() == self.routes@.len(),
            forall|i: int| 0 <= i < r@.len() ==> #[trigger] r@[i] == summary(self.routes@[i]),
    {
        let mut out: Vec<RouteSummary> = Vec::new();
        let mut i: usize = 0;
        while i < self.routes.len()
            invariant
                i <= self.routes.len(),
                out.len() == i,
                forall|j: int| 0 <= j < i ==> #[trigger] out@[j] == summary(self.routes@[j]),
            decreases self.routes.len() - i,
        {
            let route = &self.routes[i];
            let host: Option<String> = match &route.host {
                Some(h) => Some(h.clone()),
                None => None,
            };
            out.push(
                RouteSummary {
                    name: route.name.clone(),
                    host,
                    path_prefix: route.path_prefix.clone(),
                    upstream: route.upstream.clone(),
                },
            );
            i += 1;
        }
        out
    }
}

/// What the admin API shows of a route.
pub open spec fn summary(route: CompiledRoute) -> RouteSummary {
    RouteSummary {
        name: route.name,
        host: route.host,
        path_prefix: route.path_prefix,
        upstream: route.upstream,
    }
}

proof fn lemma_best(router: Router, n: int, host: Seq<char>, path: Seq<char>)
    requires
        0 <= n <= router.routes@.len(),
    ensures
        match router.best(n, host, path) {
            Some(i) => {
                &&& 0 <= i < n
                &&& router.routes@[i].accepts(host, path)
                &&& forall|j: int|
                    0 <= j < n && (#[trigger] router.routes@[j]).accepts(host, path)
                        ==> !more_specific(router.routes@[j].weight(), router.routes@[i].weight())
            },
            None => forall|j: int|
                0 <= j < n ==> !(#[trigger] router.routes@[j]).accepts(host, path),
        },
    decreases n,
{
    if n > 0 {
        lemma_best(router, n - 1, host, path);
    }
}

/// The route that is chosen accepts the request, and no route that accepts it is
/// more specific; where none is chosen, none accepts it. An exact host thus beats
/// a wildcard host, which beats any host, and then a longer path prefix wins.
pub proof fn most_specific_route_wins(router: Router, host: Seq<char>, path: Seq<char>)
    ensures
        match router.chosen(host, path) {
            Some(i) => {
                &&& 0 <= i < router.routes@.len()
                &&& router.routes@[i].accepts(host, path)
                &&& forall|j: int|
                    0 <= j < router.routes@.len() && (#[trigger] router.routes@[j]).accepts(
                        host,
                        path,
                    ) ==> !more_specific(router.routes@[j].weight(), router.routes@[i].weight())
            },
            None => forall|j: int|
                0 <= j < router.routes@.len() ==> !(#[trigger] router.routes@[j]).accepts(
                    host,
                    path,
                ),
        },
{
    lemma_best(router, router.routes@.len() as int, host, path);
}

/// A wildcard host accepts subdomains at any depth, and not the bare domain: for
/// `*.suffix`, exactly the hosts that end in `.suffix` with something before it.
pub proof fn wildcard_needs_a_label(m: HostMatch, pattern: Seq<char>, host: Seq<char>)
    requires
        m.follows(Some(pattern)),
        "*."@.is_prefix_of(pattern),
    ensures
        m.accepts(host) == (host.len() >= pattern.len() && pattern.skip(1).is_suffix_of(host)),
{
    reveal_strlit("*.");
}

}
