//! Target URLs and request methods, as the `http` and `url` crates read them.

use vstd::prelude::*;
use crate::text::{opt_text, text_eq};

verus! {

/// What the library reads of a parsed URI.
#[derive(Debug, Clone, PartialEq, Eq)]
pub struct UriParts {
    pub scheme: Option<String>,
    pub authority: Option<String>,
    pub host: Option<String>,
    pub port: Option<u16>,
}

/// The parts of a URI as text: scheme, authority, host and port.
pub type UriText = (Option<Seq<char>>, Option<Seq<char>>, Option<Seq<char>>, Option<u16>);

impl UriParts {
    pub open spec fn text(self) -> UriText {
        (opt_text(self.scheme), opt_text(self.authority), opt_text(self.host), self.port)
    }
}

/// What `http::Uri` makes of a text: `None` where it is no URI.
pub uninterp spec fn uri_of(text: Seq<char>) -> Option<
    (Option<Seq<char>>, Option<Seq<char>>, Option<Seq<char>>, Option<u16>),
>;

/// `http::Uri::from_str`, and what the parsed URI gives as its scheme, its
/// authority, its host and its port. All four are named together: the result is
/// what the crate makes of the text, and depends on the text alone.
#[verifier::external_body]
fn parse_uri(text: &str) -> (r: Option<UriParts>)
    ensures
        match r {
            Some(p) => uri_of(text@) == Some(p.text()),
            None => uri_of(text@) is None,
        },
{
    let uri: http::Uri = text.parse().ok()?;
    Some(UriParts {
        scheme: uri.scheme_str().map(|s| s.to_string()),
        authority: uri.authority().map(|a| a.to_string()),
        host: uri.host().map(|h| h.to_string()),
        port: uri.port_u16(),
    })
}

/// Whether a text is a URI.
pub fn is_uri(text: &str) -> (r: bool)
    ensures
        r == (uri_of(text@) is Some),
{
    parse_uri(text).is_some()
}

/// What `http::uri::PathAndQuery` makes of a text: its path and its query, or
/// `None` where it is no path and query.
pub uninterp spec fn path_and_query_of(text: Seq<char>) -> Option<(Seq<char>, Option<Seq<char>>)>;

/// `http::uri::PathAndQuery::try_from`, and the path and the query of what it
/// read. The result is named: it depends on the text alone.
#[verifier::external_body]
fn parse_path_and_query(text: &str) -> (r: Option<(String, Option<String>)>)
    ensures
        match r {
            Some((path, query)) => path_and_query_of(text@) == Some((path@, opt_text(query))),
            None => path_and_query_of(text@) is None,
        },
{
    let pq = http::uri::PathAndQuery::try_from(text).ok()?;
    Some((pq.path().to_string(), pq.query().map(|q| q.to_string())))
}

/// What `url::Url` makes of a text: the scheme, and whether there is a host.
pub uninterp spec fn url_of(text: Seq<char>) -> Option<(Seq<char>, bool)>;

/// `url::Url::parse`, the scheme of the URL and whether it has a host. The result
/// is named: it depends on the text alone.
#[verifier::external_body]
fn parse_url(text: &str) -> (r: Option<(String, bool)>)
    ensures
        match r {
            Some((scheme, has_host)) => url_of(text@) == Some((scheme@, has_host)),
            None => url_of(text@) is None,
        },
{
    let url = url::Url::parse(text).ok()?;
    Some((url.scheme().to_string(), url.host().is_some()))
}

/// A character that may stand in a token: a letter, a digit or one of
/// ``!#$%&'*+-.^_`|~``.
pub open spec fn token_char(c: char) -> bool {
    ||| '0' <= c <= '9'
    ||| 'A' <= c <= 'Z'
    ||| '^' <= c <= 'z'
    ||| '#' <= c <= '\''
    ||| c == '!'
    ||| c == '*'
    ||| c == '+'
    ||| c == '-'
    ||| c == '.'
    ||| c == '|'
    ||| c == '~'
}

/// A token: token characters alone, at least one.
pub open spec fn is_token(s: Seq<char>) -> bool {
    s.len() > 0 && forall|i: int| 0 <= i < s.len() ==> token_char(#[trigger] s[i])
}

/// `http::Method::from_bytes` accepts exactly the tokens. (Two methods are equal
/// where their texts are, so the text stands for the method.)
#[verifier::external_body]
pub(crate) fn is_method(text: &str) -> (r: bool)
    ensures
        r == is_token(text@),
{
    http::Method::from_bytes(text.as_bytes()).is_ok()
}

/// The address that a request is sent to.
#[derive(Debug, Clone, PartialEq, Eq)]
pub struct TargetUri {
    pub scheme: Option<String>,
    pub authority: Option<String>,
    pub path: String,
    pub query: Option<String>,
}

impl TargetUri {
    /// The address written out: `scheme://authority/path?query`.
    pub open spec fn written(self) -> Seq<char> {
        let scheme = match self.scheme {
            Some(s) => s@ + "://"@,
            None => Seq::empty(),
        };
        let authority = match self.authority {
            Some(a) => a@,
            None => Seq::empty(),
        };
        let query = match self.query {
            Some(q) => "?"@ + q@,
            None => Seq::empty(),
        };
        scheme + authority + self.path@ + query
    }

    /// The address as text.
    pub fn text(&self) -> (r: String)
        ensures
            r@ == self.written(),
    {
        let mut out = String::new();
        if let Some(s) = &self.scheme {
            out.append(s.as_str());
            out.append("://");
        }
        if let Some(a) = &self.authority {
            out.append(a.as_str());
        }
        out.append(self.path.as_str());
        if let Some(q) = &self.query {
            out.append("?");
            out.append(q.as_str());
        }
        assert(out@ == self.written());
        out
    }
}

/// Whether a URI with a path may have this scheme and authority: both, or
/// neither.
pub open spec fn joinable(base: UriText) -> bool {
    base.0 is Some == base.1 is Some
}

/// `target` is `base` with its path and query replaced.
pub open spec fn joined(
    base: UriText,
    path: (Seq<char>, Option<Seq<char>>),
    target: TargetUri,
) -> bool {
    &&& opt_text(target.scheme) == base.0
    &&& opt_text(target.authority) == base.1
    &&& target.path@ == path.0
    &&& opt_text(target.query) == path.1
}

/// Put a path and query behind the scheme and authority of a base address. A
/// base with a scheme but no authority, or the reverse, is refused.
pub fn join_uri(
    base: Option<UriParts>,
    path: Option<(String, Option<String>)>,
) -> (r: Result<TargetUri, ()>)
    ensures
        match (base, path) {
            (Some(b), Some((p, q))) => match r {
                Ok(target) => joinable(b.text()) && joined(b.text(), (p@, opt_text(q)), target),
                Err(_) => !joinable(b.text()),
            },
            _ => r is Err,
        },
{
    match (base, path) {
        (Some(b), Some((path, query))) => {
            if b.scheme.is_some() != b.authority.is_some() {
                return Err(());
            }
            Ok(TargetUri { scheme: b.scheme, authority: b.authority, path, query })
        },
        _ => Err(()),
    }
}

/// `r` is the address for `path_and_query` at `target_url`, or `Err` where there
/// is none.
pub open spec fn upstream_uri(
    target_url: Seq<char>,
    path_and_query: Seq<char>,
    r: Result<TargetUri, ()>,
) -> bool {
    match (uri_of(target_url), path_and_query_of(path_and_query)) {
        (Some(base), Some(path)) => match r {
            Ok(target) => joinable(base) && joined(base, path, target),
            Err(_) => !joinable(base),
        },
        _ => r is Err,
    }
}

/// The address to forward to: the target's scheme and authority with the given
/// path and query. The target's own path, if any, is replaced.
pub fn build_upstream_uri(target_url: &str, path_and_query: &str) -> (r: Result<TargetUri, ()>)
    ensures
        upstream_uri(target_url@, path_and_query@, r),
{
    join_uri(parse_uri(target_url), parse_path_and_query(path_and_query))
}

/// The path that a health probe asks for: `/` in place of an empty one.
pub open spec fn probe_path(path: Seq<char>) -> Seq<char> {
    if path.len() == 0 {
        "/"@
    } else {
        path
    }
}

/// The address of a health probe.
pub fn probe_uri(base_url: &str, path: &str) -> (r: Result<TargetUri, ()>)
    ensures
        upstream_uri(base_url@, probe_path(path@), r),
{
    let path = if path.is_empty() {
        "/"
    } else {
        path
    };
    build_upstream_uri(base_url, path)
}

/// Host and port to connect to: port 80 where the address names none.
pub open spec fn authority_spec(base: Option<UriText>) -> Option<(Seq<char>, u16)> {
    match base {
        Some((_, _, Some(host), port)) => Some((
            host,
            match port {
                Some(p) => p,
                None => 80,
            },
        )),
        _ => None,
    }
}

/// Host and port of a parsed target address.
pub fn authority_of(base: Option<UriParts>) -> (r: Option<(String, u16)>)
    ensures
        match r {
            Some((host, port)) => base is Some && authority_spec(Some(base->0.text())) == Some(
                (host@, port),
            ),
            None => base is None || authority_spec(Some(base->0.text())) is None,
        },
{
    match base {
        Some(parts) => match parts.host {
            Some(host) => {
                let port: u16 = match parts.port {
                    Some(p) => p,
                    None => 80,
                };
                Some((host, port))
            },
            None => None,
        },
        None => None,
    }
}

/// Host and port of a target address, `None` where it is no URI or has no host.
pub fn parse_authority(target_url: &str) -> (r: Option<(String, u16)>)
    ensures
        match r {
            Some((host, port)) => authority_spec(uri_of(target_url@)) == Some((host@, port)),
            None => authority_spec(uri_of(target_url@)) is None,
        },
{
    authority_of(parse_uri(target_url))
}

/// Whether a URL that was read may stand as a target: `http` or `https`, with a
/// host.
pub open spec fn http_url(url: Option<(Seq<char>, bool)>) -> bool {
    match url {
        Some((scheme, has_host)) => (scheme == "http"@ || scheme == "https"@) && has_host,
        None => false,
    }
}

/// Whether a URL that was read may stand as a target.
pub fn is_http_url(url: Option<(String, bool)>) -> (r: bool)
    ensures
        r == (match url {
            Some((scheme, has_host)) => http_url(Some((scheme@, has_host))),
            None => false,
        }),
{
    match url {
        Some((scheme, has_host)) => {
            (text_eq(scheme.as_str(), "http") || text_eq(scheme.as_str(), "https")) && has_host
        },
        None => false,
    }
}

/// Whether `raw` is a URL that a target may have.
pub fn is_valid_target_url(raw: &str) -> (r: bool)
    ensures
        r == http_url(url_of(raw@)),
{
    is_http_url(parse_url(raw))
}

}
