//! Who may use a route or the admin API: client addresses, basic credentials and
//! bearer tokens.

use http::HeaderMap;
use vstd::prelude::*;
use vstd::utf8::encode_utf8;
use crate::headers::{first, first_value, lemma_field_names};
use crate::model::{BasicAuthConfig, IpAccessConfig};
use crate::net::{cidr_of, network_of, parse_trusted_proxy, IpAddress, IpNetwork};

verus! {

/// The networks that the first `n` entries name; entries that name none are left
/// out.
pub open spec fn networks(entries: Seq<String>, n: int) -> Seq<IpNetwork>
    decreases n,
{
    if n <= 0 {
        Seq::empty()
    } else {
        match network_of(cidr_of(entries[n - 1]@), entries[n - 1]@) {
            Some(net) => networks(entries, n - 1).push(net),
            None => networks(entries, n - 1),
        }
    }
}

/// Every network has a prefix that fits its address.
pub open spec fn all_wf(nets: Seq<IpNetwork>) -> bool {
    forall|i: int| 0 <= i < nets.len() ==> (#[trigger] nets[i]).wf()
}

/// The networks that a list of entries names.
pub fn parse_networks(entries: &Vec<String>) -> (r: Vec<IpNetwork>)
    ensures
        r@ == networks(entries@, entries@.len() as int),
        all_wf(r@),
{
    let mut out: Vec<IpNetwork> = Vec::new();
    let mut i: usize = 0;
    while i < entries.len()
        invariant
            i <= entries.len(),
            out@ == networks(entries@, i as int),
            all_wf(out@),
        decreases entries.len() - i,
    {
        if let Some(net) = parse_trusted_proxy(entries[i].as_str()) {
            out.push(net);
        }
        i += 1;
    }
    out
}

/// Whether one of the networks holds the address.
pub open spec fn any_holds(nets: Seq<IpNetwork>, ip: IpAddress) -> bool {
    exists|i: int| 0 <= i < nets.len() && (#[trigger] nets[i]).holds(ip)
}

/// Whether one of the networks holds the address.
pub fn in_any(nets: &Vec<IpNetwork>, ip: IpAddress) -> (r: bool)
    requires
        all_wf(nets@),
    ensures
        r == any_holds(nets@, ip),
{
    let mut i: usize = 0;
    while i < nets.len()
        invariant
            i <= nets.len(),
            all_wf(nets@),
            forall|j: int| 0 <= j < i ==> !(#[trigger] nets@[j]).holds(ip),
        decreases nets.len() - i,
    {
        if nets[i].contains(ip) {
            return true;
        }
        i += 1;
    }
    false
}

/// Client-IP access control for a route. `deny` always blocks (precedence); a
/// non-empty `allow` restricts to listed networks (default-deny). Empty = allow
/// all.
#[derive(Debug, Clone)]
pub struct IpAccess {
    pub allow: Vec<IpNetwork>,
    pub deny: Vec<IpNetwork>,
}

impl Default for IpAccess {
    fn default() -> (r: Self)
        ensures
            r.allow@.len() == 0,
            r.deny@.len() == 0,
            r.wf(),
    {
        IpAccess { allow: Vec::new(), deny: Vec::new() }
    }
}

impl IpAccess {
    pub open spec fn wf(self) -> bool {
        all_wf(self.allow@) && all_wf(self.deny@)
    }

    /// Whether a client with this address may pass.
    pub open spec fn admits(self, ip: IpAddress) -> bool {
        !any_holds(self.deny@, ip) && (self.allow@.len() == 0 || any_holds(self.allow@, ip))
    }

    /// The access control that a config asks for. Built from already-validated
    /// config; entries that name no network are dropped.
    pub fn compile(cfg: &IpAccessConfig) -> (r: Self)
        ensures
            r.wf(),
            r.allow@ == networks(cfg.allow@, cfg.allow@.len() as int),
            r.deny@ == networks(cfg.deny@, cfg.deny@.len() as int),
    {
        IpAccess { allow: parse_networks(&cfg.allow), deny: parse_networks(&cfg.deny) }
    }

    /// Whether a client with this address may pass.
    pub fn allows(&self, ip: IpAddress) -> (r: bool)
        requires
            self.wf(),
        ensures
            r == self.admits(ip),
    {
        if in_any(&self.deny, ip) {
            return false;
        }
        if self.allow.len() > 0 && !in_any(&self.allow, ip) {
            return false;
        }
        true
    }
}

/// A denied address is blocked, whatever the allow list says; with no lists at
/// all everyone passes.
pub proof fn deny_wins(access: IpAccess, ip: IpAddress)
    ensures
        any_holds(access.deny@, ip) ==> !access.admits(ip),
        access.allow@.len() == 0 && access.deny@.len() == 0 ==> access.admits(ip),
        access.allow@.len() > 0 && !any_holds(access.allow@, ip) ==> !access.admits(ip),
{
}

proof fn lemma_difference(d: u8, x: u8, y: u8)
    by (bit_vector)
    ensures
        (d | (x ^ y)) == 0 <==> (d == 0 && x == y),
{
}

/// Whether two byte strings are the same. Every byte is looked at, wherever the
/// first difference lies, so that the time taken does not tell.
pub fn constant_time_eq(a: &[u8], b: &[u8]) -> (r: bool)
    ensures
        r == (a@ == b@),
{
    if a.len() != b.len() {
        return false;
    }
    let mut diff: u8 = 0;
    let mut i: usize = 0;
    while i < a.len()
        invariant
            i <= a.len(),
            a.len() == b.len(),
            diff == 0 <==> (forall|j: int| 0 <= j < i ==> a@[j] == b@[j]),
        decreases a.len() - i,
    {
        proof {
            lemma_difference(diff, a@[i as int], b@[i as int]);
        }
        diff = diff | (a[i] ^ b[i]);
        i += 1;
    }
    assert(diff == 0 ==> a@ =~= b@);
    diff == 0
}

/// Whether the first `Authorization` value is this text.
pub open spec fn presents(headers: HeaderMap, credentials: Seq<char>) -> bool {
    first(headers, "authorization"@) == Some(encode_utf8(credentials))
}

/// Whether the first `Authorization` value is this text.
fn carries(headers: &HeaderMap, credentials: &str) -> (r: bool)
    ensures
        r == presents(*headers, credentials@),
{
    proof {
        lemma_field_names();
    }
    match first_value(headers, "authorization") {
        Some(value) => constant_time_eq(value.as_slice(), credentials.as_bytes()),
        None => false,
    }
}

/// True when the request carries `Authorization: Bearer <token>` matching the
/// configured token (compared in constant time to avoid leaking it via timing).
pub fn authorized(headers: &HeaderMap, token: &str) -> (r: bool)
    ensures
        r == presents(*headers, "Bearer "@ + token@),
{
    let mut expected = "Bearer ".to_string();
    expected.append(token);
    carries(headers, expected.as_str())
}

/// What `base64` makes of bytes with the standard alphabet and padding.
pub uninterp spec fn base64_of(bytes: Seq<u8>) -> Seq<char>;

/// `base64::Engine::encode` with the standard engine. The result is named: it
/// depends on the bytes alone.
#[verifier::external_body]
fn encode_base64(bytes: &[u8]) -> (r: String)
    ensures
        r@ == base64_of(bytes@),
{
    base64::Engine::encode(&base64::engine::general_purpose::STANDARD, bytes)
}

/// What a client sends in `Authorization` for a user's base64-encoded
/// `name:password`.
pub open spec fn basic_value(encoded: Seq<char>) -> Seq<char> {
    "Basic "@ + encoded
}

/// `name:password`.
pub open spec fn user_pass(user: (String, String)) -> Seq<char> {
    user.0@ + ":"@ + user.1@
}

/// Credentials that a route asks for: the `Authorization` values that it takes.
#[derive(Debug, Clone)]
pub struct BasicAuth {
    pub accepted: Vec<String>,
}

impl BasicAuth {
    /// `self` takes exactly the credentials of the configured users.
    pub open spec fn follows(self, cfg: BasicAuthConfig) -> bool {
        self.accepted@.len() == cfg.users@.len() && forall|i: int|
            0 <= i < cfg.users@.len() ==> #[trigger] self.accepted@[i]@ == basic_value(
                base64_of(encode_utf8(user_pass(cfg.users@[i]))),
            )
    }

    /// Whether the request carries one of the accepted values.
    pub open spec fn admits(self, headers: HeaderMap) -> bool {
        exists|i: int|
            0 <= i < self.accepted@.len() && presents(headers, #[trigger] self.accepted@[i]@)
    }

    /// The credentials of the configured users.
    pub fn compile(cfg: &BasicAuthConfig) -> (r: Self)
        ensures
            r.follows(*cfg),
    {
        let mut accepted: Vec<String> = Vec::new();
        let mut i: usize = 0;
        while i < cfg.users.len()
            invariant
                i <= cfg.users.len(),
                accepted.len() == i,
                forall|j: int|
                    0 <= j < i ==> #[trigger] accepted@[j]@ == basic_value(
                        base64_of(encode_utf8(user_pass(cfg.users@[j]))),
                    ),
            decreases cfg.users.len() - i,
        {
            let user = &cfg.users[i];
            let mut pair = user.0.clone();
            pair.append(":");
            pair.append(user.1.as_str());
            assert(pair@ == user_pass(*user));
            let mut value = "Basic ".to_string();
            value.append(encode_base64(pair.as_str().as_bytes()).as_str());
            accepted.push(value);
            i += 1;
        }
        BasicAuth { accepted }
    }

    /// Whether the request carries one of the accepted values.
    pub fn allows(&self, headers: &HeaderMap) -> (r: bool)
        ensures
            r == self.admits(*headers),
    {
        let mut i: usize = 0;
        while i < self.accepted.len()
            invariant
                i <= self.accepted.len(),
                forall|j: int|
                    0 <= j < i ==> !presents(*headers, #[trigger] self.accepted@[j]@),
            decreases self.accepted.len() - i,
        {
            if carries(headers, self.accepted[i].as_str()) {
                return true;
            }
            i += 1;
        }
        false
    }
}

}
