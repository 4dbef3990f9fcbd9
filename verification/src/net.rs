//! Internet addresses, socket addresses and networks: their text forms, and
//! which addresses a network holds.

use vstd::arithmetic::power2::pow2;
use vstd::prelude::*;
use crate::text::{
    all_digits, before, after, chars_of, is_digit, decimal_value, lemma_cut, parse_decimal,
    parse_number, split_on, split_once, split_text, string_of_range, texts,
};

verus! {

/// An IP address: 32 bits or 128 bits, most significant first.
#[derive(Debug, Clone, Copy, PartialEq, Eq, Hash, Structural)]
pub enum IpAddress {
    V4(u32),
    V6(u128),
}

/// An address and a port to listen on. `scope` is the scope id of an IPv6
/// address, 0 where none was written.
#[derive(Debug, Clone, Copy, PartialEq, Eq, Structural)]
pub struct SocketAddress {
    pub ip: IpAddress,
    pub port: u16,
    pub scope: u32,
}

/// The addresses that agree with `ip` in their first `prefix` bits.
#[derive(Debug, Clone, Copy, PartialEq, Eq, Structural)]
pub struct IpNetwork {
    pub ip: IpAddress,
    pub prefix: u8,
}

/// One part of a dotted address: 1 to 3 digits, at most 255, no leading zero.
pub open spec fn is_octet(s: Seq<char>) -> bool {
    &&& 1 <= s.len() <= 3
    &&& all_digits(s)
    &&& decimal_value(s) <= 255
    &&& s[0] == '0' ==> s.len() == 1
}

/// The number that a dotted IPv4 address writes.
pub open spec fn ipv4_of(s: Seq<char>) -> Option<nat> {
    let parts = split_on(s, '.');
    if parts.len() == 4 && is_octet(parts[0]) && is_octet(parts[1]) && is_octet(parts[2])
        && is_octet(parts[3]) {
        Some(
            ((decimal_value(parts[0]) * 256 + decimal_value(parts[1])) * 256 + decimal_value(
                parts[2],
            )) * 256 + decimal_value(parts[3]),
        )
    } else {
        None
    }
}

pub open spec fn is_hex(c: char) -> bool {
    ||| '0' <= c <= '9'
    ||| 'a' <= c <= 'f'
    ||| 'A' <= c <= 'F'
}

/// The value of one hexadecimal digit.
pub open spec fn hex_digit(c: char) -> nat {
    if '0' <= c <= '9' {
        (c as u32 - '0' as u32) as nat
    } else if 'a' <= c <= 'f' {
        (c as u32 - 'a' as u32 + 10) as nat
    } else {
        (c as u32 - 'A' as u32 + 10) as nat
    }
}

/// The number that hexadecimal digits write.
pub open spec fn hex_value(s: Seq<char>) -> nat
    decreases s.len(),
{
    if s.len() == 0 {
        0
    } else {
        hex_value(s.drop_last()) * 16 + hex_digit(s.last())
    }
}

/// One group of an IPv6 address: 1 to 4 hexadecimal digits.
pub open spec fn is_group(s: Seq<char>) -> bool {
    &&& 1 <= s.len() <= 4
    &&& forall|i: int| 0 <= i < s.len() ==> is_hex(#[trigger] s[i])
}

/// The groups that colon-separated pieces write. With `dotted`, the last piece
/// may be an IPv4 address, which stands for two groups.
pub open spec fn groups_of(pieces: Seq<Seq<char>>, dotted: bool) -> Option<Seq<nat>>
    decreases pieces.len(),
{
    if pieces.len() == 0 {
        Some(Seq::empty())
    } else if dotted && ipv4_of(pieces.last()) is Some {
        match groups_of(pieces.drop_last(), false) {
            Some(front) => Some(
                front.push(ipv4_of(pieces.last())->0 / 0x10000).push(
                    ipv4_of(pieces.last())->0 % 0x10000,
                ),
            ),
            None => None,
        }
    } else if is_group(pieces.last()) {
        match groups_of(pieces.drop_last(), false) {
            Some(front) => Some(front.push(hex_value(pieces.last()))),
            None => None,
        }
    } else {
        None
    }
}

/// The groups of a part of an address that may be empty.
pub open spec fn side_of(s: Seq<char>, dotted: bool) -> Option<Seq<nat>> {
    if s.len() == 0 {
        Some(Seq::empty())
    } else {
        groups_of(split_on(s, ':'), dotted)
    }
}

/// Position of the first `::`, or the length of `s` where there is none.
pub open spec fn gap(s: Seq<char>) -> nat
    decreases s.len(),
{
    if s.len() < 2 {
        s.len()
    } else if s[0] == ':' && s[1] == ':' {
        0
    } else {
        1 + gap(s.drop_first())
    }
}

/// The number that 16-bit groups write, the first most significant.
pub open spec fn joined_groups(s: Seq<nat>) -> nat
    decreases s.len(),
{
    if s.len() == 0 {
        0
    } else {
        joined_groups(s.drop_last()) * 0x10000 + s.last()
    }
}

/// `n` groups of zero.
pub open spec fn zeros(n: nat) -> Seq<nat> {
    Seq::new(n, |i: int| 0nat)
}

/// The number that an IPv6 address writes: eight groups, or fewer with one `::`
/// that stands for the missing ones, at least one.
pub open spec fn ipv6_of(s: Seq<char>) -> Option<nat> {
    if gap(s) >= s.len() {
        match groups_of(split_on(s, ':'), true) {
            Some(all) if all.len() == 8 => Some(joined_groups(all)),
            _ => None,
        }
    } else {
        match (side_of(s.take(gap(s) as int), false), side_of(s.skip((gap(s) + 2) as int), true)) {
            (Some(head), Some(tail)) if head.len() + tail.len() <= 7 => Some(
                joined_groups(head + zeros((8 - head.len() - tail.len()) as nat) + tail),
            ),
            _ => None,
        }
    }
}

/// The address that a text writes.
pub open spec fn ip_of(s: Seq<char>) -> Option<IpAddress> {
    match ipv4_of(s) {
        Some(v) => Some(IpAddress::V4(v as u32)),
        None => match ipv6_of(s) {
            Some(v) => Some(IpAddress::V6(v as u128)),
            None => None,
        },
    }
}

/// A decimal number without a sign.
pub open spec fn unsigned_of(s: Seq<char>, max: nat) -> Option<nat> {
    if s.len() > 0 && s[0] == '+' {
        None
    } else {
        parse_decimal(s, max)
    }
}

/// The socket address that a text writes: `a.b.c.d:port` or `[v6]:port`, where
/// the IPv6 address may be followed by `%` and a scope id.
pub open spec fn socket_of(s: Seq<char>) -> Option<SocketAddress> {
    if s.len() > 0 && s[0] == '[' {
        let inner = before(s.drop_first(), ']');
        let rest = after(s.drop_first(), ']');
        let address = before(inner, '%');
        let scope = if inner.contains('%') {
            unsigned_of(after(inner, '%'), u32::MAX as nat)
        } else {
            Some(0)
        };
        if s.drop_first().contains(']') && rest.len() > 0 && rest[0] == ':' {
            match (ipv6_of(address), scope, unsigned_of(rest.drop_first(), u16::MAX as nat)) {
                (Some(ip), Some(scope), Some(port)) => Some(
                    SocketAddress {
                        ip: IpAddress::V6(ip as u128),
                        port: port as u16,
                        scope: scope as u32,
                    },
                ),
                _ => None,
            }
        } else {
            None
        }
    } else if s.contains(':') {
        match (ipv4_of(before(s, ':')), unsigned_of(after(s, ':'), u16::MAX as nat)) {
            (Some(ip), Some(port)) => Some(
                SocketAddress { ip: IpAddress::V4(ip as u32), port: port as u16, scope: 0 },
            ),
            _ => None,
        }
    } else {
        None
    }
}

/// What `ipnet::IpNet` makes of a text: whether it is an IPv6 network, its
/// address and its prefix length.
pub uninterp spec fn cidr_of(text: Seq<char>) -> Option<(bool, u128, u8)>;

/// `ipnet::IpNet::from_str`, and the address and prefix length of the network
/// that it read. The result is named: it depends on the text alone. The prefix is
/// no longer than the address, and an IPv4 address has 32 bits.
#[verifier::external_body]
fn parse_cidr(text: &str) -> (r: Option<(bool, u128, u8)>)
    ensures
        r == cidr_of(text@),
        match r {
            Some((false, addr, prefix)) => addr <= u32::MAX && prefix <= 32,
            Some((true, addr, prefix)) => prefix <= 128,
            None => true,
        },
{
    match text.parse::<ipnet::IpNet>().ok()? {
        ipnet::IpNet::V4(n) => Some((false, u32::from(n.addr()) as u128, n.prefix_len())),
        ipnet::IpNet::V6(n) => Some((true, u128::from(n.addr()), n.prefix_len())),
    }
}

impl IpNetwork {
    /// The prefix is no longer than the address.
    pub open spec fn wf(self) -> bool {
        match self.ip {
            IpAddress::V4(_) => self.prefix <= 32,
            IpAddress::V6(_) => self.prefix <= 128,
        }
    }

    /// Whether the network holds `ip`: same family, same first `prefix` bits.
    pub open spec fn holds(self, ip: IpAddress) -> bool {
        match (self.ip, ip) {
            (IpAddress::V4(a), IpAddress::V4(b)) => {
                let host = pow2((32 - self.prefix) as nat);
                a as nat / host == b as nat / host
            },
            (IpAddress::V6(a), IpAddress::V6(b)) => {
                let host = pow2((128 - self.prefix) as nat);
                a as nat / host == b as nat / host
            },
            _ => false,
        }
    }

    /// `ipnet::IpNet::contains`, with the address as the network of that one host: it is
    /// in a network of its family where it lies between the first and the last address
    /// that share the prefix, that is where its first `prefix` bits agree. An address of
    /// the other family is in no network.
    #[verifier::external_body]
    pub(crate) fn contains(&self, ip: IpAddress) -> (r: bool)
        requires
            self.wf(),
        ensures
            r == self.holds(ip),
    {
        let net = match self.ip {
            IpAddress::V4(a) => ipnet::Ipv4Net::new(a.into(), self.prefix).map(ipnet::IpNet::V4),
            IpAddress::V6(a) => ipnet::Ipv6Net::new(a.into(), self.prefix).map(ipnet::IpNet::V6),
        };
        let host = match ip {
            IpAddress::V4(b) => ipnet::Ipv4Net::new(b.into(), 32).map(ipnet::IpNet::V4),
            IpAddress::V6(b) => ipnet::Ipv6Net::new(b.into(), 128).map(ipnet::IpNet::V6),
        };
        net.is_ok_and(|n| host.is_ok_and(|h| n.contains(&h)))
    }
}

/// A part of a dotted address has a value below 256.
fn parse_octet(s: &str) -> (r: Option<u32>)
    ensures
        match r {
            Some(n) => is_octet(s@) && n == decimal_value(s@) && n <= 255,
            None => !is_octet(s@),
        },
{
    let x = chars_of(s);
    if x.len() == 0 || x.len() > 3 || x[0] == '+' || (x[0] == '0' && x.len() > 1) {
        proof {
            if is_octet(s@) {
                assert(is_digit(s@[0]));
            }
        }
        return None;
    }
    match parse_number(s, 255) {
        Some(n) => Some(n as u32),
        None => None,
    }
}

/// The IPv4 address that `s` writes.
pub fn parse_ipv4(s: &str) -> (r: Option<u32>)
    ensures
        match r {
            Some(v) => ipv4_of(s@) == Some(v as nat),
            None => ipv4_of(s@) is None,
        },
{
    let parts = split_text(s, '.');
    let ghost pieces = split_on(s@, '.');
    if parts.len() != 4 {
        return None;
    }
    assert(pieces[0] == parts@[0]@ && pieces[1] == parts@[1]@ && pieces[2] == parts@[2]@
        && pieces[3] == parts@[3]@);
    match (
        parse_octet(parts[0].as_str()),
        parse_octet(parts[1].as_str()),
        parse_octet(parts[2].as_str()),
        parse_octet(parts[3].as_str()),
    ) {
        (Some(a), Some(b), Some(c), Some(d)) => Some(((a * 256 + b) * 256 + c) * 256 + d),
        _ => None,
    }
}

/// One group of an IPv6 address.
fn parse_group(s: &str) -> (r: Option<u16>)
    ensures
        match r {
            Some(n) => is_group(s@) && n == hex_value(s@),
            None => !is_group(s@),
        },
{
    let x = chars_of(s);
    if x.len() == 0 || x.len() > 4 {
        return None;
    }
    let mut value: u32 = 0;
    let mut i: usize = 0;
    while i < x.len()
        invariant
            i <= x.len() <= 4,
            x@ == s@,
            value == hex_value(s@.take(i as int)),
            i == 0 ==> value == 0,
            i == 1 ==> value < 0x10,
            i == 2 ==> value < 0x100,
            i == 3 ==> value < 0x1000,
            i == 4 ==> value < 0x10000,
            forall|j: int| 0 <= j < i ==> is_hex(#[trigger] s@[j]),
        decreases x.len() - i,
    {
        let c = x[i];
        let digit: u32 = if '0' <= c && c <= '9' {
            c as u32 - '0' as u32
        } else if 'a' <= c && c <= 'f' {
            c as u32 - 'a' as u32 + 10
        } else if 'A' <= c && c <= 'F' {
            c as u32 - 'A' as u32 + 10
        } else {
            assert(!is_hex(s@[i as int]));
            return None;
        };
        assert(s@.take(i + 1).drop_last() == s@.take(i as int));
        value = value * 16 + digit;
        i += 1;
    }
    assert(s@.take(s@.len() as int) == s@);
    Some(value as u16)
}

/// A list of groups as numbers.
spec fn group_values(v: Seq<u16>) -> Seq<nat> {
    v.map_values(|g: u16| g as nat)
}

/// The first `n` pieces write groups, none of them dotted.
proof fn lemma_groups_prefix(pieces: Seq<Seq<char>>, n: int)
    requires
        0 <= n <= pieces.len(),
        groups_of(pieces.take(n), false) is None,
    ensures
        groups_of(pieces, false) is None,
        n < pieces.len() ==> groups_of(pieces, true) is None,
    decreases pieces.len(),
{
    if n < pieces.len() {
        let front = pieces.drop_last();
        assert(front.take(n) == pieces.take(n));
        lemma_groups_prefix(front, n);
    } else {
        assert(pieces.take(n) == pieces);
    }
}

/// The groups that colon-separated pieces write.
fn parse_groups(pieces: &Vec<String>, dotted: bool) -> (r: Option<Vec<u16>>)
    ensures
        match r {
            Some(v) => groups_of(texts(pieces@), dotted) == Some(group_values(v@)),
            None => groups_of(texts(pieces@), dotted) is None,
        },
{
    let ghost all = texts(pieces@);
    let mut out: Vec<u16> = Vec::new();
    let mut i: usize = 0;
    assert(all.take(0) == Seq::<Seq<char>>::empty());
    assert(group_values(out@) == Seq::<nat>::empty());
    while i < pieces.len()
        invariant
            i <= pieces.len(),
            all == texts(pieces@),
            groups_of(all.take(i as int), false) == Some(group_values(out@)),
            i == pieces.len() ==> groups_of(all, dotted) == Some(group_values(out@)),
        decreases pieces.len() - i,
    {
        let piece = pieces[i].as_str();
        let ghost front = group_values(out@);
        let ghost head = all.take(i + 1);
        assert(head.drop_last() == all.take(i as int));
        assert(head.last() == piece@);
        if dotted && i + 1 == pieces.len() {
            assert(head == all);
            if let Some(v) = parse_ipv4(piece) {
                let hi: u16 = (v / 0x10000) as u16;
                let lo: u16 = (v % 0x10000) as u16;
                out.push(hi);
                out.push(lo);
                assert(group_values(out@) == front.push(hi as nat).push(lo as nat));
                return Some(out);
            }
        }
        match parse_group(piece) {
            Some(g) => {
                out.push(g);
                assert(group_values(out@) == front.push(g as nat));
            },
            None => {
                proof {
                    assert(groups_of(head, false) is None);
                    lemma_groups_prefix(all, i + 1);
                    if i + 1 == pieces.len() {
                        assert(head == all);
                    }
                }
                return None;
            },
        }
        i += 1;
        proof {
            if i == pieces.len() {
                assert(head == all);
            }
        }
    }
    proof {
        if pieces.len() == 0 {
            assert(all == Seq::<Seq<char>>::empty());
        }
    }
    Some(out)
}

/// The groups of a part of an address that may be empty.
fn parse_side(s: &str, dotted: bool) -> (r: Option<Vec<u16>>)
    ensures
        match r {
            Some(v) => side_of(s@, dotted) == Some(group_values(v@)),
            None => side_of(s@, dotted) is None,
        },
{
    if s.is_empty() {
        let out: Vec<u16> = Vec::new();
        assert(group_values(out@) == Seq::<nat>::empty());
        Some(out)
    } else {
        let pieces = split_text(s, ':');
        parse_groups(&pieces, dotted)
    }
}

/// Position of the first `::`, or the length.
fn find_gap(x: &Vec<char>) -> (r: usize)
    ensures
        r == gap(x@),
        r <= x.len(),
        r < x.len() ==> r + 2 <= x.len(),
{
    let mut i: usize = 0;
    assert(x@.skip(0) == x@);
    while x.len() - i >= 2
        invariant
            i <= x.len(),
            gap(x@) == i + gap(x@.skip(i as int)),
        decreases x.len() - i,
    {
        assert(x@.skip(i as int).drop_first() == x@.skip(i + 1));
        if x[i] == ':' && x[i + 1] == ':' {
            return i;
        }
        i += 1;
    }
    x.len()
}

/// The values that `n` groups can write.
spec fn group_limit(n: nat) -> nat
    decreases n,
{
    if n == 0 {
        1
    } else {
        group_limit((n - 1) as nat) * 0x10000
    }
}

/// The number that eight groups write.
fn join_groups(groups: &Vec<u16>) -> (r: u128)
    requires
        groups.len() == 8,
    ensures
        r == joined_groups(group_values(groups@)),
{
    let ghost all = group_values(groups@);
    let mut value: u128 = 0;
    let mut i: usize = 0;
    assert(group_limit(8) == 0x1_0000_0000_0000_0000_0000_0000_0000_0000int) by {
        reveal_with_fuel(group_limit, 9);
    }
    while i < 8
        invariant
            i <= 8,
            groups.len() == 8,
            all == group_values(groups@),
            value == joined_groups(all.take(i as int)),
            value < group_limit(i as nat),
            group_limit(8) == 0x1_0000_0000_0000_0000_0000_0000_0000_0000int,
        decreases 8 - i,
    {
        assert(all.take(i + 1).drop_last() == all.take(i as int));
        proof {
            lemma_group_limit((i + 1) as nat, 8);
            assert(group_limit((i + 1) as nat) == group_limit(i as nat) * 0x10000);
        }
        value = value * 0x10000 + groups[i] as u128;
        i += 1;
    }
    assert(all.take(8) == all);
    value
}

proof fn lemma_group_limit(a: nat, b: nat)
    requires
        a <= b,
    ensures
        group_limit(a) <= group_limit(b),
    decreases b,
{
    if a < b {
        lemma_group_limit(a, (b - 1) as nat);
    }
}

/// The IPv6 address that `s` writes.
pub fn parse_ipv6(s: &str) -> (r: Option<u128>)
    ensures
        match r {
            Some(v) => ipv6_of(s@) == Some(v as nat),
            None => ipv6_of(s@) is None,
        },
{
    let x = chars_of(s);
    let k = find_gap(&x);
    if k == x.len() {
        let pieces = split_text(s, ':');
        return match parse_groups(&pieces, true) {
            Some(all) => if all.len() == 8 {
                Some(join_groups(&all))
            } else {
                None
            },
            None => None,
        };
    }
    let head_text = string_of_range(&x, 0, k);
    let tail_text = string_of_range(&x, k + 2, x.len());
    assert(head_text@ == s@.take(k as int));
    assert(tail_text@ == s@.skip(k + 2));
    match (parse_side(head_text.as_str(), false), parse_side(tail_text.as_str(), true)) {
        (Some(head), Some(tail)) => {
            if head.len() > 7 || tail.len() > 7 - head.len() {
                return None;
            }
            let mut all = head;
            let ghost left = group_values(head@);
            let missing: usize = 8 - all.len() - tail.len();
            let mut i: usize = 0;
            while i < missing
                invariant
                    i <= missing,
                    group_values(all@) == left + zeros(i as nat),
                decreases missing - i,
            {
                let ghost done = group_values(all@);
                all.push(0);
                i += 1;
                assert(group_values(all@) == done.push(0));
                assert(done.push(0) == left + zeros(i as nat));
            }
            let ghost middle = group_values(all@);
            let mut j: usize = 0;
            while j < tail.len()
                invariant
                    j <= tail.len(),
                    group_values(all@) == middle + group_values(tail@).take(j as int),
                decreases tail.len() - j,
            {
                let ghost done = group_values(all@);
                all.push(tail[j]);
                assert(group_values(all@) == done.push(tail@[j as int] as nat));
                j += 1;
                assert(group_values(all@) == middle + group_values(tail@).take(j as int));
            }
            assert(group_values(tail@).take(tail.len() as int) == group_values(tail@));
            assert(group_values(all@).len() == 8);
            Some(join_groups(&all))
        },
        _ => None,
    }
}

/// The address that `s` writes.
pub fn parse_ip(s: &str) -> (r: Option<IpAddress>)
    ensures
        r == ip_of(s@),
{
    match parse_ipv4(s) {
        Some(v) => Some(IpAddress::V4(v)),
        None => match parse_ipv6(s) {
            Some(v) => Some(IpAddress::V6(v)),
            None => None,
        },
    }
}

/// A decimal number without a sign.
fn parse_unsigned(s: &str, max: u64) -> (r: Option<u64>)
    ensures
        match r {
            Some(n) => unsigned_of(s@, max as nat) == Some(n as nat),
            None => unsigned_of(s@, max as nat) is None,
        },
{
    let x = chars_of(s);
    if x.len() > 0 && x[0] == '+' {
        None
    } else {
        parse_number(s, max)
    }
}

/// The socket address that `s` writes.
pub fn parse_socket_address(s: &str) -> (r: Option<SocketAddress>)
    ensures
        r == socket_of(s@),
{
    let x = chars_of(s);
    if x.len() > 0 && x[0] == '[' {
        let body = string_of_range(&x, 1, x.len());
        assert(body@ == s@.drop_first());
        let (inner, rest) = match split_once(body.as_str(), ']') {
            Some(parts) => parts,
            None => return None,
        };
        let (address, scope) = match split_once(inner.as_str(), '%') {
            Some((address, scope)) => {
                let scope: u64 = match parse_unsigned(scope.as_str(), u32::MAX as u64) {
                    Some(n) => n,
                    None => return None,
                };
                (address, scope)
            },
            None => {
                proof {
                    lemma_cut(inner@, '%');
                    assert(before(inner@, '%') == inner@);
                }
                (inner, 0u64)
            },
        };
        let tail = chars_of(rest.as_str());
        if tail.len() == 0 || tail[0] != ':' {
            return None;
        }
        let port_text = string_of_range(&tail, 1, tail.len());
        assert(port_text@ == rest@.drop_first());
        match (
            parse_ipv6(address.as_str()),
            parse_unsigned(port_text.as_str(), u16::MAX as u64),
        ) {
            (Some(ip), Some(port)) => Some(
                SocketAddress { ip: IpAddress::V6(ip), port: port as u16, scope: scope as u32 },
            ),
            _ => None,
        }
    } else {
        match split_once(s, ':') {
            Some((address, port_text)) => match (
                parse_ipv4(address.as_str()),
                parse_unsigned(port_text.as_str(), u16::MAX as u64),
            ) {
                (Some(ip), Some(port)) => Some(
                    SocketAddress { ip: IpAddress::V4(ip), port: port as u16, scope: 0 },
                ),
                _ => None,
            },
            None => None,
        }
    }
}

/// The network that `s` names: a CIDR block, or a bare address as a single host.
pub open spec fn network_of(cidr: Option<(bool, u128, u8)>, s: Seq<char>) -> Option<IpNetwork> {
    match cidr {
        Some((false, addr, prefix)) => Some(
            IpNetwork { ip: IpAddress::V4(addr as u32), prefix },
        ),
        Some((true, addr, prefix)) => Some(IpNetwork { ip: IpAddress::V6(addr), prefix }),
        None => match ip_of(s) {
            Some(IpAddress::V4(a)) => Some(IpNetwork { ip: IpAddress::V4(a), prefix: 32 }),
            Some(IpAddress::V6(a)) => Some(IpNetwork { ip: IpAddress::V6(a), prefix: 128 }),
            None => None,
        },
    }
}

/// The network for what was read as a CIDR block, or else for the bare address
/// in `s`.
pub fn network_from(cidr: Option<(bool, u128, u8)>, s: &str) -> (r: Option<IpNetwork>)
    requires
        match cidr {
            Some((false, addr, prefix)) => addr <= u32::MAX && prefix <= 32,
            Some((true, addr, prefix)) => prefix <= 128,
            None => true,
        },
    ensures
        r == network_of(cidr, s@),
        r matches Some(n) ==> n.wf(),
{
    match cidr {
        Some((v6, addr, prefix)) => if v6 {
            Some(IpNetwork { ip: IpAddress::V6(addr), prefix })
        } else {
            Some(IpNetwork { ip: IpAddress::V4(addr as u32), prefix })
        },
        None => match parse_ip(s) {
            Some(IpAddress::V4(a)) => Some(IpNetwork { ip: IpAddress::V4(a), prefix: 32 }),
            Some(IpAddress::V6(a)) => Some(IpNetwork { ip: IpAddress::V6(a), prefix: 128 }),
            None => None,
        },
    }
}

/// Parse a trusted-proxy or access-list entry: a CIDR block or a bare IP (which
/// is a single host).
pub fn parse_trusted_proxy(s: &str) -> (r: Option<IpNetwork>)
    ensures
        r == network_of(cidr_of(s@), s@),
        r matches Some(n) ==> n.wf(),
{
    network_from(parse_cidr(s), s)
}

}
