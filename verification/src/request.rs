//! What the gateway reads out of a request: its host, its id, its declared length,
//! whether it asks for an upgrade, and which client it came from.

use http::HeaderMap;
use vstd::prelude::*;
use crate::access::{all_wf, any_holds, in_any};
use crate::clock::now_nanos;
use crate::compress::declared_length;
use crate::headers::{
    all_values, ascii_of, ascii_text, fields, first_value, header_text, lemma_field_names, text_of,
    value_bytes, values,
};
use crate::net::{hex_value, ip_of, parse_ip, IpAddress, IpNetwork};
use crate::text::{
    before, lower, parse_number, split_on, split_text, text_before, text_eq, texts, to_lower, trim,
    trimmed,
};

verus! {

/// The host that a request is for: that of the `Host` header or else of the URI,
/// without a port and in lower case; empty where neither is there.
pub open spec fn host_of(headers: HeaderMap, authority: Option<Seq<char>>) -> Seq<char> {
    let raw = match text_of(headers, "host"@) {
        Some(h) => h,
        None => match authority {
            Some(a) => a,
            None => Seq::empty(),
        },
    };
    lower(before(raw, ':'))
}

/// The host that a request is for. `authority` is that of the request URI.
pub fn request_host(headers: &HeaderMap, authority: Option<&str>) -> (r: String)
    ensures
        r@ == host_of(
            *headers,
            match authority {
                Some(a) => Some(a@),
                None => None,
            },
        ),
{
    proof {
        lemma_field_names();
    }
    let raw = match header_text(headers, "host") {
        Some(h) => h,
        None => match authority {
            Some(a) => a.to_string(),
            None => String::new(),
        },
    };
    let host = text_before(raw.as_str(), ':');
    to_lower(host.as_str())
}

/// Whether `Connection` lists `upgrade`, in any case.
pub open spec fn connection_upgrades(value: Seq<char>) -> bool {
    exists|i: int|
        0 <= i < split_on(value, ',').len() && lower(
            trimmed(#[trigger] split_on(value, ',')[i]),
        ) == "upgrade"@
}

/// Whether a request asks for an upgrade.
pub open spec fn upgrades(headers: HeaderMap) -> bool {
    &&& text_of(headers, "connection"@) matches Some(v) && connection_upgrades(v)
    &&& fields(headers).contains_key("upgrade"@)
}

/// True when the request is an HTTP Upgrade (e.g. WebSocket): `Connection`
/// contains an `upgrade` token and an `Upgrade` header is present.
pub fn is_upgrade(headers: &HeaderMap) -> (r: bool)
    ensures
        r == upgrades(*headers),
{
    proof {
        lemma_field_names();
    }
    let value = match header_text(headers, "connection") {
        Some(v) => v,
        None => return false,
    };
    let pieces = split_text(value.as_str(), ',');
    let ghost all = split_on(value@, ',');
    let mut listed = false;
    let mut i: usize = 0;
    while i < pieces.len()
        invariant
            i <= pieces.len(),
            texts(pieces@) == all,
            listed == exists|j: int|
                0 <= j < i && lower(trimmed(#[trigger] all[j])) == "upgrade"@,
        decreases pieces.len() - i,
    {
        let piece = trim(pieces[i].as_str());
        let piece = to_lower(piece.as_str());
        assert(all[i as int] == pieces@[i as int]@);
        if text_eq(piece.as_str(), "upgrade") {
            listed = true;
        }
        i += 1;
    }
    listed && first_value(headers, "upgrade").is_some()
}

/// The length that a request declares, where it declares one that a `usize` holds.
pub fn content_length(headers: &HeaderMap) -> (r: Option<usize>)
    ensures
        match r {
            Some(n) => declared_length(fields(*headers), usize::MAX as nat) == Some(n as nat),
            None => declared_length(fields(*headers), usize::MAX as nat) is None,
        },
{
    proof {
        lemma_field_names();
    }
    match header_text(headers, "content-length") {
        Some(v) => match parse_number(v.as_str(), usize::MAX as u64) {
            Some(n) => Some(n as usize),
            None => None,
        },
        None => None,
    }
}

/// Whether a declared length is over the limit; a limit of 0 is none.
pub open spec fn over_limit(headers: HeaderMap, max_body_bytes: u64) -> bool {
    max_body_bytes > 0 && (declared_length(fields(headers), usize::MAX as nat) matches Some(n) && n
        > max_body_bytes)
}

/// True when a declared `Content-Length` exceeds the configured cap. `0` means
/// no cap. Undeclared (e.g. chunked) bodies pass here and are bounded mid-stream.
pub fn body_exceeds_limit(headers: &HeaderMap, max_body_bytes: u64) -> (r: bool)
    ensures
        r == over_limit(*headers, max_body_bytes),
{
    max_body_bytes > 0 && match content_length(headers) {
        Some(len) => len as u64 > max_body_bytes,
        None => false,
    }
}

/// One hexadecimal digit.
pub open spec fn hex_char(d: nat) -> char {
    if d < 10 {
        ('0' as u32 + d) as char
    } else {
        ('a' as u32 + (d - 10)) as char
    }
}

/// A number in hexadecimal, without leading zeros.
pub open spec fn hex_of(n: nat) -> Seq<char>
    decreases n,
{
    if n < 16 {
        seq![hex_char(n)]
    } else {
        hex_of(n / 16).push(hex_char(n % 16))
    }
}

/// A text filled up with zeros in front to at least eight characters.
pub open spec fn padded(s: Seq<char>) -> Seq<char> {
    if s.len() < 8 {
        Seq::new((8 - s.len()) as nat, |i: int| '0') + s
    } else {
        s
    }
}

/// A request id: the time in nanoseconds and a sequence number, in hexadecimal.
pub open spec fn id_text(nanos: nat, seq: nat) -> Seq<char> {
    hex_of(nanos) + padded(hex_of(seq))
}

/// Append a number in hexadecimal.
fn push_hex(out: &mut String, n: u128)
    ensures
        final(out)@ == old(out)@ + hex_of(n as nat),
    decreases n,
{
    if n >= 16 {
        push_hex(out, n / 16);
    }
    let d: u8 = (n % 16) as u8;
    let c: char = if d < 10 {
        ('0' as u8 + d) as char
    } else {
        ('a' as u8 + (d - 10)) as char
    };
    out.push(c);
}

/// The request id for a time and a sequence number.
pub fn request_id(nanos: u128, seq: u64) -> (r: String)
    ensures
        r@ == id_text(nanos as nat, seq as nat),
{
    let mut out = String::new();
    push_hex(&mut out, nanos);
    let mut tail = String::new();
    push_hex(&mut tail, seq as u128);
    let len: usize = tail.as_str().unicode_len();
    let mut i: usize = len;
    let ghost head = out@;
    while i < 8
        invariant
            len <= i,
            i <= 8 || i == len,
            out@ == head + Seq::new((i - len) as nat, |i: int| '0'),
        decreases 8 - i,
    {
        out.push('0');
        i += 1;
        assert(out@ == head + Seq::new((i - len) as nat, |i: int| '0'));
    }
    out.append(tail.as_str());
    out
}

/// Source of request ids: each gets the next sequence number.
#[derive(Debug, Clone, Copy)]
pub struct RequestIds {
    pub next: u64,
}

impl RequestIds {
    pub fn new() -> (r: Self)
        ensures
            r.next == 0,
    {
        RequestIds { next: 0 }
    }

    /// A new request id. The sequence number goes round behind its last value.
    pub fn generate_request_id(&mut self) -> (r: String)
        ensures
            exists|nanos: nat| r@ == #[trigger] id_text(nanos, old(self).next as nat),
            final(self).next == if old(self).next == u64::MAX {
                0
            } else {
                (old(self).next + 1) as u64
            },
    {
        let seq: u64 = self.next;
        self.next = if seq == u64::MAX { 0 } else { seq + 1 };
        request_id(now_nanos(), seq)
    }

    /// The id of a request: the one that it carries, or a new one where it carries
    /// none or an empty one.
    pub fn ensure_request_id(&mut self, headers: &HeaderMap) -> (r: String)
        ensures
            match text_of(*headers, "x-request-id"@) {
                Some(id) if id.len() > 0 => r@ == id && *final(self) == *old(self),
                _ => final(self).next == (if old(self).next == u64::MAX {
                    0
                } else {
                    (old(self).next + 1) as u64
                }) && exists|nanos: nat| r@ == #[trigger] id_text(nanos, old(self).next as nat),
            },
    {
        proof {
            lemma_field_names();
        }
        if let Some(id) = header_text(headers, "x-request-id") {
            if !id.as_str().is_empty() {
                return id;
            }
        }
        self.generate_request_id()
    }
}

proof fn lemma_hex_char(d: nat)
    requires
        d < 16,
    ensures
        crate::net::hex_digit(hex_char(d)) == d,
{
}

proof fn lemma_hex_round_trip(n: nat)
    ensures
        hex_value(hex_of(n)) == n,
    decreases n,
{
    reveal_with_fuel(hex_value, 2);
    lemma_hex_char(n % 16);
    if n < 16 {
        assert(hex_of(n).drop_last() =~= Seq::<char>::empty());
        assert(n % 16 == n);
    } else {
        lemma_hex_round_trip(n / 16);
        assert(hex_of(n).drop_last() =~= hex_of(n / 16));
    }
}

proof fn lemma_hex_len(n: nat, k: nat)
    requires
        k > 0,
        n < power16(k),
    ensures
        hex_of(n).len() <= k,
    decreases n,
{
    if n >= 16 {
        if k == 1 {
            assert(power16(1) == 16) by {
                reveal_with_fuel(power16, 2);
            }
        } else {
            assert(power16(k) == power16((k - 1) as nat) * 16);
            lemma_hex_len(n / 16, (k - 1) as nat);
        }
    }
}

spec fn power16(k: nat) -> nat
    decreases k,
{
    if k == 0 {
        1
    } else {
        power16((k - 1) as nat) * 16
    }
}

proof fn lemma_zeros_in_front(n: nat, s: Seq<char>)
    ensures
        hex_value(Seq::new(n, |i: int| '0') + s) == hex_value(s),
    decreases s.len(), n,
{
    let z = Seq::new(n, |i: int| '0');
    if s.len() > 0 {
        assert((z + s).drop_last() =~= z + s.drop_last());
        lemma_zeros_in_front(n, s.drop_last());
    } else if n > 0 {
        assert(z + s =~= z);
        assert(z.drop_last() =~= Seq::new((n - 1) as nat, |i: int| '0') + s);
        lemma_zeros_in_front((n - 1) as nat, s);
        assert(crate::net::hex_digit('0') == 0);
    } else {
        assert(z + s =~= s);
    }
}

/// Ids with different sequence numbers differ, whatever the times, while the
/// sequence number fits eight hexadecimal digits.
pub proof fn request_ids_are_unique(nanos1: nat, seq1: nat, nanos2: nat, seq2: nat)
    requires
        seq1 < 0x1_0000_0000,
        seq2 < 0x1_0000_0000,
        seq1 != seq2,
    ensures
        id_text(nanos1, seq1) != id_text(nanos2, seq2),
{
    reveal_with_fuel(power16, 9);
    assert(power16(8) == 0x1_0000_0000);
    lemma_hex_len(seq1, 8);
    lemma_hex_len(seq2, 8);
    let a = padded(hex_of(seq1));
    let b = padded(hex_of(seq2));
    assert(a.len() == 8 && b.len() == 8);
    lemma_hex_round_trip(seq1);
    lemma_hex_round_trip(seq2);
    lemma_zeros_in_front((8 - hex_of(seq1).len()) as nat, hex_of(seq1));
    lemma_zeros_in_front((8 - hex_of(seq2).len()) as nat, hex_of(seq2));
    let x = id_text(nanos1, seq1);
    let y = id_text(nanos2, seq2);
    if x == y {
        assert(x.skip(x.len() - 8) =~= a);
        assert(y.skip(y.len() - 8) =~= b);
        assert(hex_value(a) == hex_value(b));
    }
}

/// The client behind trusted proxies: the last of the first `n` hops that is not
/// one of them. A hop that is no address hides what is before it.
pub open spec fn client_among(
    hops: Seq<Seq<char>>,
    n: int,
    trusted: Seq<IpNetwork>,
    peer: IpAddress,
) -> IpAddress
    decreases n,
{
    if n <= 0 {
        peer
    } else {
        match ip_of(trimmed(hops[n - 1])) {
            None => peer,
            Some(ip) => if any_holds(trusted, ip) {
                client_among(hops, n - 1, trusted, peer)
            } else {
                ip
            },
        }
    }
}

/// The hops that a line of `X-Forwarded-For` lists. A line that does not read as text
/// counts as one hop that is no address.
pub open spec fn line_hops(line: Seq<u8>) -> Seq<Seq<char>> {
    match ascii_of(line) {
        Some(list) => split_on(list, ','),
        None => seq![Seq::empty()],
    }
}

/// The hops that the first `n` lines list, one behind the other.
pub open spec fn hops_of(lines: Seq<Seq<u8>>, n: int) -> Seq<Seq<char>>
    decreases n,
{
    if n <= 0 {
        Seq::empty()
    } else {
        hops_of(lines, n - 1) + line_hops(lines[n - 1])
    }
}

/// The hops of `X-Forwarded-For`, over all of its lines.
pub open spec fn all_hops(headers: HeaderMap) -> Seq<Seq<char>> {
    let lines = values(fields(headers), "x-forwarded-for"@);
    hops_of(lines, lines.len() as int)
}

/// The client that a request came from. Where the direct peer is a trusted proxy,
/// that is the rightmost hop of `X-Forwarded-For` that is none; else, or where
/// there is no such hop, it is the peer.
pub open spec fn client_of(
    headers: HeaderMap,
    trusted: Seq<IpNetwork>,
    peer: IpAddress,
) -> IpAddress {
    if any_holds(trusted, peer) {
        client_among(all_hops(headers), all_hops(headers).len() as int, trusted, peer)
    } else {
        peer
    }
}

/// The hops of `X-Forwarded-For`, over all of its lines.
fn forwarded_hops(headers: &HeaderMap) -> (r: Vec<String>)
    ensures
        texts(r@) == all_hops(*headers),
{
    proof {
        lemma_field_names();
    }
    let lines = all_values(headers, "x-forwarded-for");
    let ghost all = values(fields(*headers), "x-forwarded-for"@);
    let mut out: Vec<String> = Vec::new();
    let mut i: usize = 0;
    assert(texts(out@) =~= hops_of(all, 0));
    while i < lines.len()
        invariant
            i <= lines.len(),
            value_bytes(lines@) == all,
            texts(out@) == hops_of(all, i as int),
        decreases lines.len() - i,
    {
        let mut hops = match ascii_text(&lines[i]) {
            Some(list) => split_text(list.as_str(), ','),
            None => {
                let mut unread: Vec<String> = Vec::new();
                unread.push(String::new());
                assert(texts(unread@) =~= seq![Seq::<char>::empty()]);
                unread
            },
        };
        assert(all[i as int] == lines@[i as int]@);
        assert(texts(hops@) == line_hops(all[i as int]));
        let ghost before = out@;
        let ghost more = hops@;
        out.append(&mut hops);
        assert(texts(out@) =~= texts(before) + texts(more));
        i += 1;
    }
    out
}

/// Resolve the client IP by walking `X-Forwarded-For` right-to-left and taking the
/// first hop that is not a trusted proxy. If the direct peer is not trusted, the
/// header is ignored entirely.
pub fn resolve_client_ip(headers: &HeaderMap, trusted: &Vec<IpNetwork>, peer: IpAddress) -> (r:
    IpAddress)
    requires
        all_wf(trusted@),
    ensures
        r == client_of(*headers, trusted@, peer),
{
    if !in_any(trusted, peer) {
        return peer;
    }
    let hops = forwarded_hops(headers);
    let ghost all = all_hops(*headers);
    let mut n: usize = hops.len();
    while n > 0
        invariant
            n <= hops.len(),
            all_wf(trusted@),
            texts(hops@) == all,
            client_among(all, n as int, trusted@, peer) == client_among(
                all,
                all.len() as int,
                trusted@,
                peer,
            ),
            all == all_hops(*headers),
            any_holds(trusted@, peer),
        decreases n,
    {
        let hop = trim(hops[n - 1].as_str());
        assert(all[n - 1] == hops@[n - 1]@);
        match parse_ip(hop.as_str()) {
            None => return peer,
            Some(ip) => {
                if !in_any(trusted, ip) {
                    return ip;
                }
            },
        }
        n -= 1;
    }
    peer
}

/// A header cannot override the source address of a peer that is not trusted; with
/// no trusted proxies the peer is always the client.
pub proof fn untrusted_peer_is_the_client(
    headers: HeaderMap,
    trusted: Seq<IpNetwork>,
    peer: IpAddress,
)
    ensures
        !any_holds(trusted, peer) ==> client_of(headers, trusted, peer) == peer,
        trusted.len() == 0 ==> client_of(headers, trusted, peer) == peer,
{
}

proof fn lemma_client_among(
    hops: Seq<Seq<char>>,
    n: int,
    trusted: Seq<IpNetwork>,
    peer: IpAddress,
)
    ensures
        client_among(hops, n, trusted, peer) == peer || !any_holds(
            trusted,
            client_among(hops, n, trusted, peer),
        ),
    decreases n,
{
    if n > 0 {
        lemma_client_among(hops, n - 1, trusted, peer);
    }
}

/// The client is the peer, or an address that is not a trusted proxy's.
pub proof fn client_is_no_trusted_hop(
    headers: HeaderMap,
    trusted: Seq<IpNetwork>,
    peer: IpAddress,
)
    ensures
        client_of(headers, trusted, peer) == peer || !any_holds(
            trusted,
            client_of(headers, trusted, peer),
        ),
{
    lemma_client_among(all_hops(headers), all_hops(headers).len() as int, trusted, peer);
}

}
