//! Who is let in: client addresses, credentials and the client behind proxies.

use http::HeaderMap;
use vstd::arithmetic::power2::{lemma_pow2_pos, pow2};
use vstd::prelude::*;
use vstd::utf8::encode_utf8;
use crate::access::{
    authorized, base64_of, constant_time_eq, in_any, networks, parse_networks, BasicAuth, IpAccess,
};
use crate::headers::fields;
use crate::model::{BasicAuthConfig, IpAccessConfig};
use crate::net::{cidr_of, ip_of, network_of, parse_trusted_proxy, IpAddress, IpNetwork};
use crate::request::{all_hops, client_among, hops_of, resolve_client_ip};
use crate::text::{split_on, trimmed};

verus! {

/// The first and the last number of the block of `size` numbers that `a` lies in.
pub open spec fn in_block(a: nat, b: nat, size: nat) -> bool
    recommends
        size > 0,
{
    a - a % size <= b < a - a % size + size
}

proof fn lemma_in_block(a: nat, b: nat, size: nat)
    requires
        size > 0,
    ensures
        (a / size == b / size) == in_block(a, b, size),
{
    assert((a / size == b / size) == (a - a % size <= b < a - a % size + size))
        by (nonlinear_arith)
        requires
            size > 0,
    {
        vstd::arithmetic::div_mod::lemma_fundamental_div_mod(a as int, size as int);
        vstd::arithmetic::div_mod::lemma_fundamental_div_mod(b as int, size as int);
        vstd::arithmetic::div_mod::lemma_mod_bound(a as int, size as int);
        vstd::arithmetic::div_mod::lemma_mod_bound(b as int, size as int);
        let qa = a as int / size as int;
        let qb = b as int / size as int;
        let d = size as int;
        assert(d * (qa + 1) == d * qa + d);
        assert(d * (qb + 1) == d * qb + d);
        if qa < qb {
            assert(d * qb >= d * (qa + 1));
        }
        if qb < qa {
            assert(d * qa >= d * (qb + 1));
        }
    }
}

/// A network of prefix length `p` is the aligned block of 2^(32-p) IPv4 addresses, or
/// 2^(128-p) IPv6 addresses, that its own address lies in; it holds no address of the
/// other family.
pub proof fn networks_are_aligned_blocks(net: IpNetwork, ip: IpAddress)
    requires
        net.wf(),
    ensures
        match (net.ip, ip) {
            (IpAddress::V4(a), IpAddress::V4(b)) => net.holds(ip) == in_block(
                a as nat,
                b as nat,
                pow2((32 - net.prefix) as nat),
            ),
            (IpAddress::V6(a), IpAddress::V6(b)) => net.holds(ip) == in_block(
                a as nat,
                b as nat,
                pow2((128 - net.prefix) as nat),
            ),
            _ => !net.holds(ip),
        },
{
    match (net.ip, ip) {
        (IpAddress::V4(a), IpAddress::V4(b)) => {
            lemma_pow2_pos((32 - net.prefix) as nat);
            lemma_in_block(a as nat, b as nat, pow2((32 - net.prefix) as nat));
        },
        (IpAddress::V6(a), IpAddress::V6(b)) => {
            lemma_pow2_pos((128 - net.prefix) as nat);
            lemma_in_block(a as nat, b as nat, pow2((128 - net.prefix) as nat));
        },
        _ => {},
    }
}

/// A bare address names the network of that one host.
pub proof fn a_bare_address_is_one_host(
    entry: &str,
    named: Option<IpNetwork>,
    ip: IpAddress,
    other: IpAddress,
)
    requires
        call_ensures(parse_trusted_proxy, (entry,), named),
        cidr_of(entry@) is None,
        ip_of(entry@) == Some(ip),
    ensures
        named matches Some(net) && net.wf() && net.holds(other) == (other == ip),
{
    let net = named->0;
    networks_are_aligned_blocks(net, other);
    vstd::arithmetic::power2::lemma2_to64();
    assert(pow2(0) == 1);
}

/// A CIDR block names the network of its address and prefix length; what is neither a
/// block nor an address names none.
pub proof fn a_block_is_its_address_and_prefix(entry: &str, named: Option<IpNetwork>)
    requires
        call_ensures(parse_trusted_proxy, (entry,), named),
    ensures
        cidr_of(entry@) matches Some((v6, bits, prefix)) ==> (named matches Some(net)
            && net.prefix == prefix && (v6 ==> net.ip == IpAddress::V6(bits)) && (!v6 ==> net.ip
            == IpAddress::V4(bits as u32))),
        cidr_of(entry@) is None && ip_of(entry@) is None ==> named is None,
{
}

proof fn lemma_networks(entries: Seq<String>, n: int, ip: IpAddress)
    requires
        0 <= n <= entries.len(),
    ensures
        (exists|k: int|
            0 <= k < networks(entries, n).len() && (#[trigger] networks(entries, n)[k]).holds(ip))
            == (exists|i: int| 0 <= i < n && entry_holds(#[trigger] entries[i]@, ip)),
        networks(entries, n).len() == 0 <==> forall|i: int|
            0 <= i < n ==> !entry_names(#[trigger] entries[i]@),
    decreases n,
{
    if n > 0 {
        lemma_networks(entries, n - 1, ip);
        let shorter = networks(entries, n - 1);
        let longer = networks(entries, n);
        let last = entries[n - 1]@;
        if exists|k: int| 0 <= k < longer.len() && (#[trigger] longer[k]).holds(ip) {
            let k = choose|k: int| 0 <= k < longer.len() && (#[trigger] longer[k]).holds(ip);
            if k < shorter.len() {
                assert(shorter[k].holds(ip));
                let i = choose|i: int| 0 <= i < n - 1 && entry_holds(#[trigger] entries[i]@, ip);
                assert(entry_holds(entries[i]@, ip));
            } else {
                assert(entry_holds(entries[n - 1]@, ip));
            }
        }
        if exists|i: int| 0 <= i < n && entry_holds(#[trigger] entries[i]@, ip) {
            let i = choose|i: int| 0 <= i < n && entry_holds(#[trigger] entries[i]@, ip);
            if i < n - 1 {
                assert(entry_holds(entries[i]@, ip));
                let k = choose|k: int| 0 <= k < shorter.len() && (#[trigger] shorter[k]).holds(ip);
                assert(longer[k].holds(ip));
            } else {
                assert(longer[longer.len() - 1].holds(ip));
            }
        }
        if longer.len() == 0 {
            assert forall|i: int| 0 <= i < n implies !entry_names(#[trigger] entries[i]@) by {}
        }
        if forall|i: int| 0 <= i < n ==> !entry_names(#[trigger] entries[i]@) {
            assert(!entry_names(entries[n - 1]@));
        }
    }
}

/// Whether an entry of a list names a network at all.
pub open spec fn entry_names(entry: Seq<char>) -> bool {
    network_of(cidr_of(entry), entry) is Some
}

/// Whether an entry of a list names a network that holds the address.
pub open spec fn entry_holds(entry: Seq<char>, ip: IpAddress) -> bool {
    network_of(cidr_of(entry), entry) matches Some(net) && net.holds(ip)
}

/// An address that some network of the allow list holds, whatever its position, and
/// that no network of the deny list holds, is let in. With no allow list everyone is
/// that the deny list does not hold.
pub proof fn listed_clients_are_let_in(access: IpAccess, ip: IpAddress, allowed: bool)
    requires
        call_ensures(IpAccess::allows, (&access, ip), allowed),
    ensures
        (exists|i: int| 0 <= i < access.allow@.len() && (#[trigger] access.allow@[i]).holds(ip))
            && (forall|j: int|
            0 <= j < access.deny@.len() ==> !(#[trigger] access.deny@[j]).holds(ip)) ==> allowed,
        access.allow@.len() == 0 && (forall|j: int|
            0 <= j < access.deny@.len() ==> !(#[trigger] access.deny@[j]).holds(ip)) ==> allowed,
        (exists|j: int| 0 <= j < access.deny@.len() && (#[trigger] access.deny@[j]).holds(ip))
            ==> !allowed,
        access.allow@.len() > 0 && (forall|i: int|
            0 <= i < access.allow@.len() ==> !(#[trigger] access.allow@[i]).holds(ip))
            ==> !allowed,
{
}

/// Access follows the lists of the config: every entry that names a network counts,
/// wherever it stands.
pub proof fn access_follows_the_lists(
    cfg: IpAccessConfig,
    access: IpAccess,
    ip: IpAddress,
    allowed: bool,
)
    requires
        call_ensures(IpAccess::compile, (&cfg,), access),
        call_ensures(IpAccess::allows, (&access, ip), allowed),
    ensures
        ({
            let denied = exists|j: int|
                0 <= j < cfg.deny@.len() && entry_holds(#[trigger] cfg.deny@[j]@, ip);
            let listed = exists|i: int|
                0 <= i < cfg.allow@.len() && entry_holds(#[trigger] cfg.allow@[i]@, ip);
            let open = forall|i: int|
                0 <= i < cfg.allow@.len() ==> !entry_names(#[trigger] cfg.allow@[i]@);
            allowed == (!denied && (open || listed))
        }),
{
    lemma_networks(cfg.allow@, cfg.allow@.len() as int, ip);
    lemma_networks(cfg.deny@, cfg.deny@.len() as int, ip);
}

/// Two byte strings are the same where they have the same length and the same bytes.
pub proof fn same_bytes_are_equal(a: &[u8], b: &[u8], equal: bool)
    requires
        call_ensures(constant_time_eq, (a, b), equal),
    ensures
        equal == (a@.len() == b@.len() && forall|i: int|
            0 <= i < a@.len() ==> #[trigger] a@[i] == b@[i]),
{
    if a@.len() == b@.len() && forall|i: int| 0 <= i < a@.len() ==> #[trigger] a@[i] == b@[i] {
        assert(a@ =~= b@);
    }
}

/// Whether the first `Authorization` value is this text.
pub open spec fn sends_credentials(headers: HeaderMap, text: Seq<char>) -> bool {
    &&& fields(headers).contains_key("authorization"@)
    &&& fields(headers)["authorization"@].len() > 0
    &&& fields(headers)["authorization"@][0] == encode_utf8(text)
}

/// A token is presented as `Bearer` and the token, and not otherwise.
pub proof fn a_token_is_a_bearer_token(headers: HeaderMap, token: &str, passes: bool)
    requires
        call_ensures(authorized, (&headers, token), passes),
    ensures
        passes == sends_credentials(
            headers,
            seq!['B', 'e', 'a', 'r', 'e', 'r', ' '] + token@,
        ),
{
    reveal_strlit("Bearer ");
    assert("Bearer "@ =~= seq!['B', 'e', 'a', 'r', 'e', 'r', ' ']);
}

/// Every configured user passes with `Basic` and the base64 of `name:password`,
/// whatever its position, and nobody else does.
pub proof fn every_user_passes(
    cfg: BasicAuthConfig,
    auth: BasicAuth,
    headers: HeaderMap,
    passes: bool,
)
    requires
        call_ensures(BasicAuth::compile, (&cfg,), auth),
        call_ensures(BasicAuth::allows, (&auth, &headers), passes),
    ensures
        passes == exists|i: int|
            0 <= i < cfg.users@.len() && sends_credentials(
                headers,
                seq!['B', 'a', 's', 'i', 'c', ' '] + base64_of(
                    encode_utf8((#[trigger] cfg.users@[i]).0@ + seq![':'] + cfg.users@[i].1@),
                ),
            ),
{
    reveal_strlit("Basic ");
    reveal_strlit(":");
    assert("Basic "@ =~= seq!['B', 'a', 's', 'i', 'c', ' ']);
    assert(":"@ =~= seq![':']);
    if passes {
        let i = choose|i: int|
            0 <= i < auth.accepted@.len() && crate::access::presents(
                headers,
                #[trigger] auth.accepted@[i]@,
            );
        let u = cfg.users@[i];
        assert(sends_credentials(
            headers,
            seq!['B', 'a', 's', 'i', 'c', ' '] + base64_of(
                encode_utf8(u.0@ + seq![':'] + u.1@),
            ),
        ));
    }
    if exists|i: int|
        0 <= i < cfg.users@.len() && sends_credentials(
            headers,
            seq!['B', 'a', 's', 'i', 'c', ' '] + base64_of(
                encode_utf8((#[trigger] cfg.users@[i]).0@ + seq![':'] + cfg.users@[i].1@),
            ),
        ) {
        let i = choose|i: int|
            0 <= i < cfg.users@.len() && sends_credentials(
                headers,
                seq!['B', 'a', 's', 'i', 'c', ' '] + base64_of(
                    encode_utf8((#[trigger] cfg.users@[i]).0@ + seq![':'] + cfg.users@[i].1@),
                ),
            );
        assert(crate::access::presents(headers, auth.accepted@[i]@));
    }
}

/// Whether a hop is an address of one of the trusted networks.
pub open spec fn is_trusted_hop(hop: Seq<char>, trusted: Seq<IpNetwork>) -> bool {
    ip_of(trimmed(hop)) matches Some(ip) && exists|i: int|
        0 <= i < trusted.len() && (#[trigger] trusted[i]).holds(ip)
}

/// Behind a trusted peer the client is the rightmost hop that is not a trusted proxy:
/// with only trusted hops to its right, hop `k` is the client if it is an address that
/// no trusted network holds; where it is no address, or no hop is left, it is the peer.
pub proof fn the_client_is_the_rightmost_untrusted_hop(
    headers: HeaderMap,
    trusted: Vec<IpNetwork>,
    peer: IpAddress,
    client: IpAddress,
    k: int,
)
    requires
        call_ensures(resolve_client_ip, (&headers, &trusted, peer), client),
        exists|i: int| 0 <= i < trusted@.len() && (#[trigger] trusted@[i]).holds(peer),
        -1 <= k < all_hops(headers).len(),
        forall|j: int|
            k < j < all_hops(headers).len() ==> is_trusted_hop(
                #[trigger] all_hops(headers)[j],
                trusted@,
            ),
        k >= 0 ==> !is_trusted_hop(all_hops(headers)[k], trusted@),
    ensures
        k >= 0 ==> (ip_of(trimmed(all_hops(headers)[k])) matches Some(ip) ==> client == ip),
        k >= 0 && ip_of(trimmed(all_hops(headers)[k])) is None ==> client == peer,
        k == -1 ==> client == peer,
{
    lemma_client(all_hops(headers), all_hops(headers).len() as int, trusted@, peer, k);
}

proof fn lemma_client(
    hops: Seq<Seq<char>>,
    n: int,
    trusted: Seq<IpNetwork>,
    peer: IpAddress,
    k: int,
)
    requires
        -1 <= k < hops.len(),
        k < n <= hops.len(),
        forall|j: int| k < j < n ==> is_trusted_hop(#[trigger] hops[j], trusted),
        k >= 0 ==> !is_trusted_hop(hops[k], trusted),
    ensures
        client_among(hops, n, trusted, peer) == if k >= 0 {
            match ip_of(trimmed(hops[k])) {
                Some(ip) => ip,
                None => peer,
            }
        } else {
            peer
        },
    decreases n,
{
    if n - 1 > k {
        assert(is_trusted_hop(hops[n - 1], trusted));
        lemma_client(hops, n - 1, trusted, peer, k);
    }
}

/// Where the peer is in no trusted network, it is the client, whatever the headers say.
pub proof fn headers_of_strangers_do_not_count(
    headers: HeaderMap,
    trusted: Vec<IpNetwork>,
    peer: IpAddress,
    client: IpAddress,
)
    requires
        call_ensures(resolve_client_ip, (&headers, &trusted, peer), client),
        forall|i: int| 0 <= i < trusted@.len() ==> !(#[trigger] trusted@[i]).holds(peer),
    ensures
        client == peer,
{
}

/// The hops are those between the commas of each `X-Forwarded-For` line, line after
/// line: a line that is added brings its hops behind all others.
pub proof fn hops_come_line_by_line(lines: Seq<Seq<u8>>, line: Seq<char>)
    requires
        forall|i: int| 0 <= i < line.len() ==> ' ' <= #[trigger] line[i] <= '~',
    ensures
        hops_of(Seq::empty(), 0).len() == 0,
        hops_of(lines.push(encode_utf8(line)), lines.len() + 1int) == hops_of(
            lines,
            lines.len() as int,
        ) + split_on(line, ','),
{
    crate::headers::lemma_plain_value(line);
    let longer = lines.push(encode_utf8(line));
    lemma_hops_prefix(lines, longer, lines.len() as int);
}

/// A line of `X-Forwarded-For` that does not read as text counts as one hop that is no
/// address.
pub proof fn unreadable_lines_hide_what_is_before_them(lines: Seq<Seq<u8>>, line: Seq<u8>, i: int)
    requires
        0 <= i < line.len(),
        line[i] > 126 || line[i] < 32 && line[i] != 9,
    ensures
        ({
            let before = hops_of(lines, lines.len() as int);
            let after = hops_of(lines.push(line), lines.len() + 1int);
            &&& after.len() == before.len() + 1
            &&& after.drop_last() == before
            &&& ip_of(trimmed(after.last())) is None
        }),
{
    assert(!crate::headers::visible_byte(line[i]));
    let longer = lines.push(line);
    lemma_hops_prefix(lines, longer, lines.len() as int);
    let none = Seq::<char>::empty();
    assert(hops_of(longer, lines.len() + 1int).drop_last() =~= hops_of(
        lines,
        lines.len() as int,
    ));
    assert(trimmed(none) == none);
    crate::text::lemma_cut(none, '.');
    crate::text::lemma_cut(none, ':');
    assert(split_on(none, '.') =~= seq![none]);
    assert(split_on(none, ':') =~= seq![none]);
    assert(split_on(none, ':').last() == none);
}

proof fn lemma_hops_prefix(a: Seq<Seq<u8>>, b: Seq<Seq<u8>>, n: int)
    requires
        0 <= n <= a.len(),
        n <= b.len(),
        forall|i: int| 0 <= i < n ==> a[i] == b[i],
    ensures
        hops_of(a, n) == hops_of(b, n),
    decreases n,
{
    if n > 0 {
        lemma_hops_prefix(a, b, n - 1);
    }
}

/// The hops of a request are those of all its `X-Forwarded-For` lines.
pub proof fn hops_are_those_of_the_header(headers: HeaderMap)
    ensures
        fields(headers).contains_key("x-forwarded-for"@) ==> all_hops(headers) == hops_of(
            fields(headers)["x-forwarded-for"@],
            fields(headers)["x-forwarded-for"@].len() as int,
        ),
        !fields(headers).contains_key("x-forwarded-for"@) ==> all_hops(headers).len() == 0,
{
}

/// A list of entries holds an address exactly when one of the entries does; entries that
/// name no network count for nothing.
pub proof fn any_entry_counts(
    entries: Vec<String>,
    nets: Vec<IpNetwork>,
    ip: IpAddress,
    r: bool,
)
    requires
        call_ensures(parse_networks, (&entries,), nets),
        call_ensures(in_any, (&nets, ip), r),
    ensures
        r == exists|i: int| 0 <= i < entries@.len() && entry_holds(#[trigger] entries@[i]@, ip),
        (forall|i: int| 0 <= i < entries@.len() ==> entry_names(#[trigger] entries@[i]@))
            ==> nets@.len() == entries@.len(),
{
    lemma_networks(entries@, entries@.len() as int, ip);
    if forall|i: int| 0 <= i < entries@.len() ==> entry_names(#[trigger] entries@[i]@) {
        lemma_all_named(entries@, entries@.len() as int);
    }
}

proof fn lemma_all_named(entries: Seq<String>, n: int)
    requires
        0 <= n <= entries.len(),
        forall|i: int| 0 <= i < n ==> entry_names(#[trigger] entries[i]@),
    ensures
        networks(entries, n).len() == n,
    decreases n,
{
    if n > 0 {
        lemma_all_named(entries, n - 1);
        assert(entry_names(entries[n - 1]@));
    }
}

} // verus!
