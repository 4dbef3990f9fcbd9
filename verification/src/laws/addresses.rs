//! What addresses and networks are written as, and what becomes of target addresses.

use vstd::prelude::*;
use crate::laws::texts::{joined, lemma_decimal, lemma_split};
use crate::net::{
    gap, groups_of, hex_value, ipv4_of, is_group, is_hex, is_octet, joined_groups, network_from,
    parse_ip, parse_ipv4, parse_ipv6, parse_socket_address, IpAddress, IpNetwork, SocketAddress,
};
use crate::text::{
    after, all_digits, before, cut, decimal_of, decimal_value, is_digit, lemma_cut, split_on,
};
use crate::uri::{
    authority_of, build_upstream_uri, is_http_url, is_uri, is_valid_target_url, join_uri,
    parse_authority, path_and_query_of, probe_uri, uri_of, url_of, TargetUri, UriParts,
};

verus! {

/// Two optional texts are the same.
pub open spec fn same_option(a: Option<String>, b: Option<String>) -> bool {
    match (a, b) {
        (Some(x), Some(y)) => x@ == y@,
        (None, None) => true,
        _ => false,
    }
}

/// An optional text is this.
pub open spec fn is_option(a: Option<String>, b: Option<Seq<char>>) -> bool {
    match (a, b) {
        (Some(x), Some(y)) => x@ == y,
        (None, None) => true,
        _ => false,
    }
}

/// An address for a request has the scheme and authority of its base and the given path
/// and query; there is one exactly where both parse and the base has either both a scheme
/// and an authority or neither.
pub proof fn paths_are_put_behind_their_base(
    base: Option<UriParts>,
    path: Option<(String, Option<String>)>,
    r: Result<TargetUri, ()>,
)
    requires
        call_ensures(join_uri, (base, path), r),
    ensures
        r is Ok <==> path is Some && (base matches Some(b) && (b.scheme is Some
            == b.authority is Some)),
        r matches Ok(target) ==> same_option(target.scheme, base->0.scheme) && same_option(
            target.authority,
            base->0.authority,
        ) && target.path@ == (path->0).0@ && same_option(target.query, (path->0).1),
{
}

/// The address of a request at a target keeps the scheme and authority of the target and
/// takes the path and query of the request, whatever path the target has itself. So does
/// that of a probe, which asks for `/` where it has no path.
pub proof fn targets_lend_scheme_and_authority(
    target_url: &str,
    path: &str,
    r: Result<TargetUri, ()>,
    probe: Result<TargetUri, ()>,
)
    requires
        call_ensures(build_upstream_uri, (target_url, path), r),
        call_ensures(probe_uri, (target_url, path), probe),
    ensures
        r is Ok <==> path_and_query_of(path@) is Some && (uri_of(target_url@) matches Some(base)
            && (base.0 is Some == base.1 is Some)),
        r matches Ok(target) ==> {
            &&& is_option(target.scheme, (uri_of(target_url@)->0).0)
            &&& is_option(target.authority, (uri_of(target_url@)->0).1)
            &&& target.path@ == (path_and_query_of(path@)->0).0
            &&& is_option(target.query, (path_and_query_of(path@)->0).1)
        },
        path@.len() > 0 ==> (probe is Ok == r is Ok),
        path@.len() > 0 ==> (probe matches Ok(target) ==> target.path@ == r->Ok_0.path@
            && same_option(target.query, r->Ok_0.query) && same_option(
            target.scheme,
            r->Ok_0.scheme,
        ) && same_option(target.authority, r->Ok_0.authority)),
        path@.len() == 0 ==> (probe matches Ok(target) ==> path_and_query_of(seq!['/']) is Some
            && target.path@ == (path_and_query_of(seq!['/'])->0).0),
{
    reveal_strlit("/");
    assert("/"@ =~= seq!['/']);
}

/// An address is written as its scheme, `://`, its authority, its path and, behind a `?`,
/// its query.
pub proof fn addresses_are_written_out(target: TargetUri, r: String)
    requires
        call_ensures(TargetUri::text, (&target,), r),
    ensures
        target.scheme is Some && target.authority is Some && target.query is None ==> r@
            == target.scheme->0@ + seq![':', '/', '/'] + target.authority->0@ + target.path@,
        target.scheme is Some && target.authority is Some && target.query is Some ==> r@
            == target.scheme->0@ + seq![':', '/', '/'] + target.authority->0@ + target.path@
            + seq!['?'] + target.query->0@,
        target.scheme is None && target.authority is None && target.query is None ==> r@
            == target.path@,
{
    reveal_strlit("://");
    reveal_strlit("?");
    assert("://"@ =~= seq![':', '/', '/']);
    assert("?"@ =~= seq!['?']);
    if target.query is None {
        if target.scheme is Some && target.authority is Some {
            assert(r@ =~= target.scheme->0@ + seq![':', '/', '/'] + target.authority->0@
                + target.path@);
        }
        if target.scheme is None && target.authority is None {
            assert(r@ =~= target.path@);
        }
    } else if target.scheme is Some && target.authority is Some {
        assert(r@ =~= target.scheme->0@ + seq![':', '/', '/'] + target.authority->0@ + target.path@
            + seq!['?'] + target.query->0@);
    }
}

/// A target is connected to at its host and its port, 80 where it gives none; without a
/// host there is nothing to connect to.
pub proof fn targets_are_connected_to_at_their_port(
    parts: Option<UriParts>,
    r: Option<(String, u16)>,
    url: &str,
    parsed: Option<(String, u16)>,
    is_one: bool,
)
    requires
        call_ensures(authority_of, (parts,), r),
        call_ensures(parse_authority, (url,), parsed),
        call_ensures(is_uri, (url,), is_one),
    ensures
        r is Some <==> (parts matches Some(p) && p.host is Some),
        r matches Some((host, port)) ==> host@ == parts->0.host->0@ && port == (
        match parts->0.port {
            Some(p) => p,
            None => 80,
        }),
        is_one == (uri_of(url@) is Some),
        parsed is Some <==> (uri_of(url@) matches Some((_, _, host, _)) && host is Some),
        parsed matches Some((host, port)) ==> (uri_of(url@) matches Some((_, _, Some(h), p))
            && host@ == h && port == (match p {
            Some(n) => n,
            None => 80,
        })),
{
}

/// A target is an `http` or `https` address with a host.
pub proof fn targets_are_http_addresses(
    url: Option<(String, bool)>,
    r: bool,
    raw: &str,
    valid: bool,
)
    requires
        call_ensures(is_http_url, (url,), r),
        call_ensures(is_valid_target_url, (raw,), valid),
    ensures
        r == (url matches Some((scheme, has_host)) && has_host && (scheme@ == seq![
            'h',
            't',
            't',
            'p',
        ] || scheme@ == seq!['h', 't', 't', 'p', 's'])),
        valid == (url_of(raw@) matches Some((scheme, has_host)) && has_host && (scheme == seq![
            'h',
            't',
            't',
            'p',
        ] || scheme == seq!['h', 't', 't', 'p', 's'])),
{
    reveal_strlit("http");
    reveal_strlit("https");
    assert("http"@ =~= seq!['h', 't', 't', 'p']);
    assert("https"@ =~= seq!['h', 't', 't', 'p', 's']);
}

/// Digits without a leading zero are the decimal form of their value.
proof fn lemma_canonical(s: Seq<char>)
    requires
        s.len() > 0,
        all_digits(s),
        s[0] == '0' ==> s.len() == 1,
    ensures
        s == decimal_of(decimal_value(s)),
        s.len() > 1 ==> decimal_value(s) >= 10,
    decreases s.len(),
{
    reveal_with_fuel(decimal_value, 2);
    let last = s.last();
    assert(is_digit(last));
    let d = (last as u32 - '0' as u32) as nat;
    if s.len() == 1 {
        assert(s.drop_last() =~= Seq::<char>::empty());
        assert(s =~= decimal_of(d));
    } else {
        let front = s.drop_last();
        assert(front[0] == s[0]);
        assert forall|i: int| 0 <= i < front.len() implies is_digit(#[trigger] front[i]) by {
            assert(front[i] == s[i]);
        }
        if front[0] == '0' {
            assert(s[0] == '0');
        }
        lemma_canonical(front);
        let v = decimal_value(front);
        assert(v > 0) by {
            if front.len() == 1 {
                assert(front.drop_last() =~= Seq::<char>::empty());
                assert(is_digit(front[0]));
            }
        }
        assert(decimal_value(s) == v * 10 + d);
        assert((v * 10 + d) / 10 == v && (v * 10 + d) % 10 == d);
        assert(s =~= front.push(last));
    }
}

/// Four numbers with dots between them.
pub open spec fn dotted(a: nat, b: nat, c: nat, d: nat) -> Seq<char> {
    decimal_of(a) + seq!['.'] + decimal_of(b) + seq!['.'] + decimal_of(c) + seq!['.'] + decimal_of(
        d,
    )
}

/// A piece without the separator is cut off a text that goes on behind it.
proof fn lemma_split_step(piece: Seq<char>, rest: Seq<char>, c: char)
    requires
        !piece.contains(c),
    ensures
        split_on(piece + seq![c] + rest, c) == seq![piece] + split_on(rest, c),
{
    let s = piece + seq![c] + rest;
    lemma_cut(s, c);
    let n = piece.len() as int;
    assert(s[n] == c);
    assert forall|i: int| 0 <= i < n implies s[i] != c by {
        assert(s[i] == piece[i]);
    }
    assert(cut(s, c) == n);
    assert(before(s, c) =~= piece);
    assert(after(s, c) =~= rest);
}

proof fn lemma_split_last(piece: Seq<char>, c: char)
    requires
        !piece.contains(c),
    ensures
        split_on(piece, c) == seq![piece],
{
    lemma_cut(piece, c);
    assert(cut(piece, c) == piece.len());
}

proof fn lemma_octet(n: nat)
    requires
        n <= 255,
    ensures
        is_octet(decimal_of(n)),
        !decimal_of(n).contains('.'),
        !decimal_of(n).contains(':'),
{
    lemma_decimal(n);
    reveal_with_fuel(decimal_of, 4);
    let s = decimal_of(n);
    assert(s.len() <= 3);
    if s.contains('.') {
        let i = choose|i: int| 0 <= i < s.len() && s[i] == '.';
        assert(is_digit(s[i]));
    }
    if s.contains(':') {
        let i = choose|i: int| 0 <= i < s.len() && s[i] == ':';
        assert(is_digit(s[i]));
    }
}

proof fn lemma_dotted(a: nat, b: nat, c: nat, d: nat)
    requires
        a <= 255,
        b <= 255,
        c <= 255,
        d <= 255,
    ensures
        ipv4_of(dotted(a, b, c, d)) == Some(((a * 256 + b) * 256 + c) * 256 + d),
        !dotted(a, b, c, d).contains(':'),
{
    lemma_octet(a);
    lemma_octet(b);
    lemma_octet(c);
    lemma_octet(d);
    lemma_decimal(a);
    lemma_decimal(b);
    lemma_decimal(c);
    lemma_decimal(d);
    let (x, y, z, w) = (decimal_of(a), decimal_of(b), decimal_of(c), decimal_of(d));
    let s3 = z + seq!['.'] + w;
    let s2 = y + seq!['.'] + s3;
    let s1 = dotted(a, b, c, d);
    assert(s1 =~= x + seq!['.'] + s2);
    lemma_split_step(x, s2, '.');
    lemma_split_step(y, s3, '.');
    lemma_split_step(z, w, '.');
    lemma_split_last(w, '.');
    assert(split_on(s1, '.') =~= seq![x, y, z, w]);
    if s1.contains(':') {
        let i = choose|i: int| 0 <= i < s1.len() && s1[i] == ':';
        let n1 = x.len() as int;
        let n2 = n1 + 1 + y.len();
        let n3 = n2 + 1 + z.len();
        if i < n1 {
            assert(x[i] == ':');
        } else if n1 < i < n2 {
            assert(y[i - n1 - 1] == ':');
        } else if n2 < i < n3 {
            assert(z[i - n2 - 1] == ':');
        } else if n3 < i {
            assert(w[i - n3 - 1] == ':');
        }
    }
}

/// An IPv4 address is written as four numbers from 0 to 255 with dots between them,
/// without leading zeros, the first most significant; and nothing else is one.
pub proof fn ipv4_addresses_are_dotted_numbers(s: &str, r: Option<u32>, a: u8, b: u8, c: u8, d: u8)
    requires
        call_ensures(parse_ipv4, (s,), r),
    ensures
        s@ == dotted(a as nat, b as nat, c as nat, d as nat) ==> (r matches Some(v) && v
            == a * 16777216 + b * 65536 + c * 256 + d),
        r matches Some(v) ==> s@ == dotted(
            v as nat / 16777216,
            v as nat / 65536 % 256,
            v as nat / 256 % 256,
            v as nat % 256,
        ),
{
    lemma_dotted(a as nat, b as nat, c as nat, d as nat);
    if let Some(v) = r {
        let (x, y, z, w) = lemma_v4_text(s@);
        lemma_quarters(v as nat, x, y, z, w);
    }
}

proof fn lemma_quarters(v: nat, x: nat, y: nat, z: nat, w: nat)
    requires
        x <= 255,
        y <= 255,
        z <= 255,
        w <= 255,
        v == ((x * 256 + y) * 256 + z) * 256 + w,
    ensures
        v / 16777216 == x,
        v / 65536 % 256 == y,
        v / 256 % 256 == z,
        v % 256 == w,
{
}

/// A group of an IPv6 address: one to four hexadecimal digits, in either case.
pub open spec fn is_hex_group(s: Seq<char>) -> bool {
    1 <= s.len() <= 4 && forall|i: int|
        0 <= i < s.len() ==> ('0' <= #[trigger] s[i] <= '9' || 'a' <= s[i] <= 'f' || 'A' <= s[i]
            <= 'F')
}

/// The value of hexadecimal digits.
pub open spec fn hex_number(s: Seq<char>) -> nat
    decreases s.len(),
{
    if s.len() == 0 {
        0
    } else {
        let c = s.last();
        let digit = if c <= '9' {
            c as u32 - 48
        } else if c <= 'F' {
            c as u32 - 55
        } else {
            c as u32 - 87
        };
        (16 * hex_number(s.drop_last()) + digit) as nat
    }
}

/// The value of groups of 16 bits, the first most significant.
pub open spec fn groups_number(groups: Seq<nat>) -> nat
    decreases groups.len(),
{
    if groups.len() == 0 {
        0
    } else {
        65536 * groups_number(groups.drop_last()) + groups.last()
    }
}

/// The values of some groups.
pub open spec fn group_numbers(pieces: Seq<Seq<char>>) -> Seq<nat> {
    pieces.map_values(|s: Seq<char>| hex_number(s))
}

/// All pieces are groups.
pub open spec fn all_hex_groups(pieces: Seq<Seq<char>>) -> bool {
    forall|i: int| 0 <= i < pieces.len() ==> is_hex_group(#[trigger] pieces[i])
}

proof fn lemma_hex_number(s: Seq<char>)
    requires
        forall|i: int|
            0 <= i < s.len() ==> ('0' <= #[trigger] s[i] <= '9' || 'a' <= s[i] <= 'f' || 'A'
                <= s[i] <= 'F'),
    ensures
        hex_value(s) == hex_number(s),
    decreases s.len(),
{
    if s.len() > 0 {
        let front = s.drop_last();
        assert forall|i: int| 0 <= i < front.len() implies ('0' <= #[trigger] front[i] <= '9'
            || 'a' <= front[i] <= 'f' || 'A' <= front[i] <= 'F') by {
            assert(front[i] == s[i]);
        }
        lemma_hex_number(front);
        assert(s.last() == s[s.len() - 1]);
    }
}

proof fn lemma_groups_number(groups: Seq<nat>)
    ensures
        joined_groups(groups) == groups_number(groups),
    decreases groups.len(),
{
    if groups.len() > 0 {
        lemma_groups_number(groups.drop_last());
    }
}

/// A group holds no separator, and is no dotted address.
proof fn lemma_group(s: Seq<char>)
    requires
        is_hex_group(s),
    ensures
        is_group(s),
        !s.contains(':'),
        ipv4_of(s) is None,
        hex_value(s) == hex_number(s),
{
    lemma_hex_number(s);
    assert forall|i: int| 0 <= i < s.len() implies is_hex(#[trigger] s[i]) by {}
    if s.contains(':') {
        let i = choose|i: int| 0 <= i < s.len() && s[i] == ':';
        assert(is_hex(s[i]));
    }
    if s.contains('.') {
        let i = choose|i: int| 0 <= i < s.len() && s[i] == '.';
        assert(is_hex(s[i]));
    }
    lemma_split_last(s, '.');
}

proof fn lemma_groups(pieces: Seq<Seq<char>>, dotted_end: bool)
    requires
        all_hex_groups(pieces),
    ensures
        groups_of(pieces, dotted_end) == Some(group_numbers(pieces)),
    decreases pieces.len(),
{
    if pieces.len() > 0 {
        let front = pieces.drop_last();
        lemma_group(pieces.last());
        assert forall|i: int| 0 <= i < front.len() implies is_hex_group(#[trigger] front[i]) by {
            assert(front[i] == pieces[i]);
        }
        lemma_groups(front, false);
        assert(group_numbers(pieces) =~= group_numbers(front).push(hex_value(pieces.last())));
    } else {
        assert(group_numbers(pieces) =~= Seq::<nat>::empty());
    }
}

/// Groups with colons between them: no two colons in a row, none at either end, and they
/// come apart as they were.
proof fn lemma_joined_groups(pieces: Seq<Seq<char>>)
    requires
        pieces.len() > 0,
        all_hex_groups(pieces),
    ensures
        ({
            let s = joined(pieces, ':');
            &&& split_on(s, ':') == pieces
            &&& s.len() > 0
            &&& s[0] != ':'
            &&& s[s.len() - 1] != ':'
            &&& forall|i: int| 0 <= i < s.len() - 1 ==> !(#[trigger] s[i] == ':' && s[i + 1] == ':')
        }),
    decreases pieces.len(),
{
    let first = pieces[0];
    lemma_group(first);
    assert(is_hex(first[0]) && is_hex(first[first.len() - 1]));
    let s = joined(pieces, ':');
    if pieces.len() == 1 {
        lemma_split_last(first, ':');
        assert(pieces =~= seq![first]);
        assert forall|i: int| 0 <= i < s.len() - 1 implies !(#[trigger] s[i] == ':' && s[i + 1]
            == ':') by {
            assert(is_hex(first[i]));
        }
    } else {
        let rest = pieces.drop_first();
        assert forall|i: int| 0 <= i < rest.len() implies is_hex_group(#[trigger] rest[i]) by {
            assert(rest[i] == pieces[i + 1]);
        }
        lemma_joined_groups(rest);
        let t = joined(rest, ':');
        assert(s == first + seq![':'] + t);
        lemma_split_step(first, t, ':');
        assert(seq![first] + rest =~= pieces);
        let n = first.len() as int;
        assert(s[s.len() - 1] == t[t.len() - 1]);
        assert forall|i: int| 0 <= i < s.len() - 1 implies !(#[trigger] s[i] == ':' && s[i + 1]
            == ':') by {
            if i < n {
                assert(s[i] == first[i]);
                assert(is_hex(first[i]));
            } else if i == n {
                assert(s[i + 1] == t[0]);
            } else {
                assert(s[i] == t[i - n - 1] && s[i + 1] == t[i - n]);
            }
        }
    }
}

proof fn lemma_no_gap(s: Seq<char>)
    requires
        forall|i: int| 0 <= i < s.len() - 1 ==> !(#[trigger] s[i] == ':' && s[i + 1] == ':'),
    ensures
        gap(s) == s.len(),
    decreases s.len(),
{
    if s.len() >= 2 {
        assert(!(s[0] == ':' && s[1] == ':'));
        let t = s.drop_first();
        assert forall|i: int| 0 <= i < t.len() - 1 implies !(#[trigger] t[i] == ':' && t[i + 1]
            == ':') by {
            assert(t[i] == s[i + 1] && t[i + 1] == s[i + 1 + 1]);
            assert(!(s[i + 1] == ':' && s[i + 1 + 1] == ':'));
        }
        lemma_no_gap(t);
    }
}

proof fn lemma_gap(s: Seq<char>, n: int)
    requires
        0 <= n < s.len() - 1,
        s[n] == ':',
        s[n + 1] == ':',
        forall|i: int| 0 <= i < n ==> !(#[trigger] s[i] == ':' && s[i + 1] == ':'),
    ensures
        gap(s) == n,
    decreases n,
{
    if n > 0 {
        assert(!(s[0] == ':' && s[1] == ':'));
        let t = s.drop_first();
        assert forall|i: int| 0 <= i < n - 1 implies !(#[trigger] t[i] == ':' && t[i + 1]
            == ':') by {
            assert(t[i] == s[i + 1] && t[i + 1] == s[i + 1 + 1]);
            assert(!(s[i + 1] == ':' && s[i + 1 + 1] == ':'));
        }
        lemma_gap(t, n - 1);
    }
}

/// An IPv6 address is written as eight groups with colons between them; with fewer it is
/// none.
pub proof fn ipv6_addresses_are_eight_groups(s: &str, r: Option<u128>, pieces: Seq<Seq<char>>)
    requires
        call_ensures(parse_ipv6, (s,), r),
        pieces.len() > 0,
        all_hex_groups(pieces),
        s@ == joined(pieces, ':'),
    ensures
        pieces.len() == 8 ==> (r matches Some(v) && v == groups_number(group_numbers(pieces))),
        pieces.len() != 8 ==> r is None,
{
    lemma_joined_groups(pieces);
    lemma_no_gap(s@);
    lemma_groups(pieces, true);
    lemma_groups_number(group_numbers(pieces));
}

/// Once in an address `::` stands for as many groups of zero as are missing, at least one.
pub proof fn a_double_colon_stands_for_zeros(
    s: &str,
    r: Option<u128>,
    head: Seq<Seq<char>>,
    tail: Seq<Seq<char>>,
)
    requires
        call_ensures(parse_ipv6, (s,), r),
        all_hex_groups(head),
        all_hex_groups(tail),
        s@ == joined(head, ':') + seq![':', ':'] + joined(tail, ':'),
    ensures
        head.len() + tail.len() <= 7 ==> (r matches Some(v) && v == groups_number(
            group_numbers(head) + Seq::new((8 - head.len() - tail.len()) as nat, |i: int| 0nat)
                + group_numbers(tail),
        )),
        head.len() + tail.len() > 7 ==> r is None,
{
    let a = joined(head, ':');
    let b = joined(tail, ':');
    let n = a.len() as int;
    if head.len() > 0 {
        lemma_joined_groups(head);
    }
    assert forall|i: int| 0 <= i < n implies !(#[trigger] s@[i] == ':' && s@[i + 1] == ':') by {
        assert(s@[i] == a[i]);
        if i < n - 1 {
            assert(s@[i + 1] == a[i + 1]);
        }
    }
    assert(s@[n] == ':' && s@[n + 1] == ':');
    lemma_gap(s@, n);
    assert(s@.take(n) =~= a);
    assert(s@.skip(n + 2) =~= b);
    lemma_groups(head, false);
    lemma_groups(tail, true);
    if head.len() == 0 {
        assert(group_numbers(head) =~= Seq::<nat>::empty());
    }
    if tail.len() > 0 {
        lemma_joined_groups(tail);
    } else {
        assert(group_numbers(tail) =~= Seq::<nat>::empty());
    }
    if head.len() + tail.len() <= 7 {
        let all = group_numbers(head) + Seq::new(
            (8 - head.len() - tail.len()) as nat,
            |i: int| 0nat,
        ) + group_numbers(tail);
        lemma_groups_number(all);
        assert(group_numbers(head) + crate::net::zeros((8 - head.len() - tail.len()) as nat)
            + group_numbers(tail) =~= all);
    }
}

/// The last two groups of an IPv6 address may be written as an IPv4 address: behind six
/// groups, or behind a `::` alone.
pub proof fn ipv6_addresses_may_end_in_ipv4(
    s: &str,
    r: Option<u128>,
    pieces: Seq<Seq<char>>,
    quad: &str,
    v4: Option<u32>,
)
    requires
        call_ensures(parse_ipv6, (s,), r),
        call_ensures(parse_ipv4, (quad,), v4),
        v4 is Some,
        all_hex_groups(pieces),
    ensures
        pieces.len() == 6 && s@ == joined(pieces, ':') + seq![':'] + quad@ ==> (r matches Some(v)
            && v == groups_number(
            group_numbers(pieces).push(v4->0 as nat / 65536).push(v4->0 as nat % 65536),
        )),
        s@ == seq![':', ':'] + quad@ ==> (r matches Some(v) && v == v4->0),
{
    lemma_v4_text(quad@);
    let a = (v4->0 as nat) / 65536;
    let b = (v4->0 as nat) % 65536;
    if pieces.len() == 6 && s@ == joined(pieces, ':') + seq![':'] + quad@ {
        lemma_joined_groups(pieces);
        let t = joined(pieces, ':');
        let n = t.len() as int;
        assert forall|i: int| 0 <= i < s@.len() - 1 implies !(#[trigger] s@[i] == ':' && s@[i + 1]
            == ':') by {
            if i < n - 1 {
                assert(s@[i] == t[i] && s@[i + 1] == t[i + 1]);
            } else if i == n - 1 {
                assert(s@[i] == t[i]);
            } else {
                let k = if i == n {
                    i + 1
                } else {
                    i
                };
                assert(s@[k] == quad@[k - n - 1]);
                assert(quad@[k - n - 1] != ':') by {
                    if quad@[k - n - 1] == ':' {
                        assert(quad@.contains(':'));
                    }
                }
            }
        }
        lemma_no_gap(s@);
        lemma_split_behind(pieces, quad@);
        let all = pieces.push(quad@);
        assert(all.drop_last() =~= pieces);
        lemma_groups(pieces, false);
        lemma_groups_number(group_numbers(pieces).push(a).push(b));
    }
    if s@ == seq![':', ':'] + quad@ {
        lemma_gap(s@, 0);
        let none = Seq::<char>::empty();
        assert(s@.take(0) =~= none);
        assert(s@.skip(2) =~= quad@);
        lemma_split_last(quad@, ':');
        let one = seq![quad@];
        assert(one.drop_last() =~= Seq::<Seq<char>>::empty());
        assert(groups_of(Seq::<Seq<char>>::empty(), false) == Some(Seq::<nat>::empty()));
        assert(one.last() == quad@);
        assert(groups_of(one, true) == Some(Seq::<nat>::empty().push(a).push(b)));
        let head = Seq::<nat>::empty();
        let tail = head.push(a).push(b);
        let all = head + crate::net::zeros(6) + tail;
        lemma_groups_number(all);
        lemma_leading_zeros(6, tail);
        assert(all =~= crate::net::zeros(6) + tail);
        reveal_with_fuel(groups_number, 3);
        assert(tail.drop_last() =~= head.push(a));
        assert(tail.drop_last().drop_last() =~= head);
    }
}

proof fn lemma_leading_zeros(n: nat, groups: Seq<nat>)
    ensures
        groups_number(crate::net::zeros(n) + groups) == groups_number(groups),
    decreases groups.len(), n,
{
    let z = crate::net::zeros(n);
    if groups.len() > 0 {
        assert((z + groups).drop_last() =~= z + groups.drop_last());
        lemma_leading_zeros(n, groups.drop_last());
    } else if n > 0 {
        assert((z + groups).drop_last() =~= crate::net::zeros((n - 1) as nat) + groups);
        lemma_leading_zeros((n - 1) as nat, groups);
    } else {
        assert(z + groups =~= groups);
    }
}

/// Groups and one more piece behind them come apart as they were.
proof fn lemma_split_behind(pieces: Seq<Seq<char>>, last: Seq<char>)
    requires
        pieces.len() > 0,
        all_hex_groups(pieces),
        !last.contains(':'),
    ensures
        split_on(joined(pieces, ':') + seq![':'] + last, ':') == pieces.push(last),
    decreases pieces.len(),
{
    let first = pieces[0];
    lemma_group(first);
    if pieces.len() == 1 {
        lemma_split_step(first, last, ':');
        lemma_split_last(last, ':');
        assert(seq![first] + seq![last] =~= pieces.push(last));
    } else {
        let rest = pieces.drop_first();
        assert forall|i: int| 0 <= i < rest.len() implies is_hex_group(#[trigger] rest[i]) by {
            assert(rest[i] == pieces[i + 1]);
        }
        lemma_split_behind(rest, last);
        let t = joined(rest, ':') + seq![':'] + last;
        assert(joined(pieces, ':') + seq![':'] + last =~= first + seq![':'] + t);
        lemma_split_step(first, t, ':');
        assert(seq![first] + rest.push(last) =~= pieces.push(last));
    }
}

/// An address is an IPv4 address where it is written as one, and else an IPv6 address.
pub proof fn addresses_are_of_one_family(
    s: &str,
    v4: Option<u32>,
    v6: Option<u128>,
    r: Option<IpAddress>,
)
    requires
        call_ensures(parse_ipv4, (s,), v4),
        call_ensures(parse_ipv6, (s,), v6),
        call_ensures(parse_ip, (s,), r),
    ensures
        v4 matches Some(a) ==> r == Some(IpAddress::V4(a)),
        v4 is None ==> (v6 matches Some(a) ==> r == Some(IpAddress::V6(a))),
        v4 is None && v6 is None ==> r is None,
{
}

/// A socket address is an IPv4 address and a port behind a colon, or an IPv6 address in
/// square brackets and a port; a port is a number below 65536 without a sign.
pub proof fn socket_addresses_have_a_port(
    s: &str,
    address: &str,
    port: &str,
    v4: Option<u32>,
    v6: Option<u128>,
    n: u64,
    r: Option<SocketAddress>,
)
    requires
        call_ensures(parse_socket_address, (s,), r),
        call_ensures(parse_ipv4, (address,), v4),
        call_ensures(parse_ipv6, (address,), v6),
        port@ == decimal_of(n as nat),
    ensures
        s@ == address@ + seq![':'] + port@ && v4 is Some && n < 65536 ==> r == Some(
            SocketAddress { ip: IpAddress::V4(v4->0), port: n as u16, scope: 0 },
        ),
        s@ == address@ + seq![':'] + port@ && v4 is Some && n >= 65536 ==> r is None,
        s@ == seq!['['] + address@ + seq![']', ':'] + port@ && v6 is Some && n < 65536
            && !address@.contains(']') && !address@.contains('%') ==> r == Some(
            SocketAddress { ip: IpAddress::V6(v6->0), port: n as u16, scope: 0 },
        ),
        s@ == seq!['['] + address@ + seq![']', ':'] + port@ && v6 is Some && n >= 65536
            && !address@.contains(']') && !address@.contains('%') ==> r is None,
        !s@.contains(':') ==> r is None,
{
    lemma_decimal(n as nat);
    assert(is_digit(port@[0]));
    if s@ == address@ + seq![':'] + port@ && v4 is Some {
        lemma_v4_text(address@);
        lemma_cut(s@, ':');
        let k = address@.len() as int;
        assert(s@[k] == ':');
        assert forall|i: int| 0 <= i < k implies s@[i] != ':' by {
            assert(s@[i] == address@[i]);
        }
        assert(cut(s@, ':') == k);
        assert(before(s@, ':') =~= address@);
        assert(after(s@, ':') =~= port@);
        assert(s@.contains(':'));
        assert(s@[0] == address@[0]);
    }
    if s@ == seq!['['] + address@ + seq![']', ':'] + port@ && !address@.contains(']')
        && !address@.contains('%') {
        let body = s@.drop_first();
        assert(body =~= address@ + seq![']', ':'] + port@);
        lemma_cut(body, ']');
        let k = address@.len() as int;
        assert(body[k] == ']');
        assert forall|i: int| 0 <= i < k implies body[i] != ']' by {
            assert(body[i] == address@[i]);
        }
        assert(cut(body, ']') == k);
        assert(before(body, ']') =~= address@);
        assert(after(body, ']') =~= seq![':'] + port@);
        assert(body.contains(']'));
        lemma_cut(address@, '%');
        assert(before(address@, '%') =~= address@);
        let rest = after(body, ']');
        assert(rest.drop_first() =~= port@);
    }
    if !s@.contains(':') && s@.len() > 0 && s@[0] == '[' {
        let body = s@.drop_first();
        let rest = after(body, ']');
        lemma_cut(body, ']');
        if rest.len() > 0 && rest[0] == ':' && body.contains(']') {
            let k = cut(body, ']') as int;
            assert(rest[0] == s@[k + 2]);
        }
    }
}

proof fn lemma_v4_text(s: Seq<char>) -> (r: (nat, nat, nat, nat))
    requires
        ipv4_of(s) is Some,
    ensures
        r.0 <= 255 && r.1 <= 255 && r.2 <= 255 && r.3 <= 255,
        s == dotted(r.0, r.1, r.2, r.3),
        ipv4_of(s) == Some(((r.0 * 256 + r.1) * 256 + r.2) * 256 + r.3),
        !s.contains(':'),
        s.len() > 0,
        s[0] != '[',
{
    let p = split_on(s, '.');
    lemma_split(s, '.');
    lemma_canonical(p[0]);
    lemma_canonical(p[1]);
    lemma_canonical(p[2]);
    lemma_canonical(p[3]);
    let (x, y, z, w) = (
        decimal_value(p[0]),
        decimal_value(p[1]),
        decimal_value(p[2]),
        decimal_value(p[3]),
    );
    assert(p =~= seq![p[0], p[1], p[2], p[3]]);
    reveal_with_fuel(joined, 5);
    assert(p.drop_first() =~= seq![p[1], p[2], p[3]]);
    assert(p.drop_first().drop_first() =~= seq![p[2], p[3]]);
    assert(p.drop_first().drop_first().drop_first() =~= seq![p[3]]);
    assert(s =~= dotted(x, y, z, w));
    lemma_dotted(x, y, z, w);
    assert(s[0] == p[0][0]);
    assert(is_digit(p[0][0]));
    (x, y, z, w)
}

/// A network is the block that was read, or else the one address.
pub proof fn networks_are_blocks_or_hosts(
    cidr: Option<(bool, u128, u8)>,
    s: &str,
    ip: Option<IpAddress>,
    r: Option<IpNetwork>,
)
    requires
        call_requires(network_from, (cidr, s)),
        call_ensures(network_from, (cidr, s), r),
        call_ensures(parse_ip, (s,), ip),
    ensures
        cidr matches Some((false, a, p)) ==> (a <= u32::MAX ==> r == Some(
            IpNetwork { ip: IpAddress::V4(a as u32), prefix: p },
        )),
        cidr matches Some((true, a, p)) ==> r == Some(
            IpNetwork { ip: IpAddress::V6(a), prefix: p },
        ),
        cidr is None ==> (ip matches Some(IpAddress::V4(a)) ==> r == Some(
            IpNetwork { ip: IpAddress::V4(a), prefix: 32 },
        )),
        cidr is None ==> (ip matches Some(IpAddress::V6(a)) ==> r == Some(
            IpNetwork { ip: IpAddress::V6(a), prefix: 128 },
        )),
        cidr is None && ip is None ==> r is None,
{
}

} // verus!
