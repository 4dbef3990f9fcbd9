//! Which headers go upstream.

use http::HeaderMap;
use vstd::prelude::*;
use vstd::utf8::encode_utf8;
use crate::headers::{fields, lemma_plain_value, Fields};
use crate::rewrite::{
    append_forwarded_for, dropped_names, rewrite_headers, upgrade_dropped_names, upgrade_headers,
};
use crate::router::lemma_without;

verus! {

/// A header that speaks of one connection only, or of the host that was connected to.
pub open spec fn stays_behind(name: Seq<char>) -> bool {
    ||| name == "connection"@
    ||| name == "keep-alive"@
    ||| name == "proxy-authenticate"@
    ||| name == "proxy-authorization"@
    ||| name == "te"@
    ||| name == "trailer"@
    ||| name == "transfer-encoding"@
    ||| name == "upgrade"@
    ||| name == "host"@
}

/// A header that the gateway sets itself.
pub open spec fn is_set_anew(name: Seq<char>) -> bool {
    ||| name == "x-forwarded-for"@
    ||| name == "x-forwarded-host"@
    ||| name == "x-forwarded-proto"@
    ||| name == "x-request-id"@
}

/// Printable ASCII text.
pub open spec fn printable(s: Seq<char>) -> bool {
    forall|i: int| 0 <= i < s.len() ==> ' ' <= #[trigger] s[i] <= '~'
}

/// `after` has the field as `before` has it.
pub open spec fn passes_on(before: Fields, after: Fields, name: Seq<char>) -> bool {
    &&& after.contains_key(name) == before.contains_key(name)
    &&& before.contains_key(name) ==> after[name] == before[name]
}

/// The name has this text as its one value.
pub open spec fn says(f: Fields, name: Seq<char>, text: Seq<char>) -> bool {
    f.contains_key(name) && f[name] == seq![encode_utf8(text)]
}

/// The names that are dropped, and the forwarding headers, are these and differ.
pub proof fn lemma_names()
    ensures
        forall|name: Seq<char>| #[trigger] stays_behind(name) ==> !is_set_anew(name),
        forall|name: Seq<char>| #[trigger] dropped_names().contains(name) == stays_behind(name),
        forall|name: Seq<char>| #[trigger]
            upgrade_dropped_names().contains(name) == (stays_behind(name) && name != "connection"@
                && name != "upgrade"@),
        "x-forwarded-for"@ != "x-forwarded-host"@,
        "x-forwarded-for"@ != "x-forwarded-proto"@,
        "x-forwarded-for"@ != "x-request-id"@,
        "x-forwarded-host"@ != "x-forwarded-proto"@,
        "x-forwarded-host"@ != "x-request-id"@,
        "x-forwarded-proto"@ != "x-request-id"@,
{
    reveal_strlit("connection");
    reveal_strlit("keep-alive");
    reveal_strlit("proxy-authenticate");
    reveal_strlit("proxy-authorization");
    reveal_strlit("te");
    reveal_strlit("trailer");
    reveal_strlit("transfer-encoding");
    reveal_strlit("upgrade");
    reveal_strlit("host");
    reveal_strlit("x-forwarded-for");
    reveal_strlit("x-forwarded-host");
    reveal_strlit("x-forwarded-proto");
    reveal_strlit("x-request-id");
    assert("x-forwarded-for"@.len() == 15 && "x-forwarded-host"@.len() == 16
        && "x-forwarded-proto"@.len() == 17 && "x-request-id"@.len() == 12);
    assert("connection"@[0] == 'c' && "upgrade"@[0] == 'u');
    assert forall|name: Seq<char>| #[trigger] stays_behind(name) implies !is_set_anew(name) by {
        assert(name[0] != 'x');
        if is_set_anew(name) {
            assert(name[0] == 'x');
        }
    }
    let d = dropped_names();
    assert forall|name: Seq<char>| #[trigger] d.contains(name) == stays_behind(name) by {
        assert(d[0] == "connection"@ && d[1] == "keep-alive"@ && d[2] == "proxy-authenticate"@
            && d[3] == "proxy-authorization"@ && d[4] == "te"@ && d[5] == "trailer"@ && d[6]
            == "transfer-encoding"@ && d[7] == "upgrade"@ && d[8] == "host"@);
        if d.contains(name) {
            let i = choose|i: int| 0 <= i < d.len() && d[i] == name;
        }
    }
    let u = upgrade_dropped_names();
    assert forall|name: Seq<char>| #[trigger]
        u.contains(name) == (stays_behind(name) && name != "connection"@ && name
            != "upgrade"@) by {
        assert(u[0] == "keep-alive"@ && u[1] == "proxy-authenticate"@ && u[2]
            == "proxy-authorization"@ && u[3] == "te"@ && u[4] == "trailer"@ && u[5]
            == "transfer-encoding"@ && u[6] == "host"@);
        assert(u[0][0] == 'k' && u[1][0] == 'p' && u[2][0] == 'p' && u[3][0] == 't' && u[4][0]
            == 't' && u[5][0] == 't' && u[6][0] == 'h');
        if u.contains(name) {
            let i = choose|i: int| 0 <= i < u.len() && u[i] == name;
        }
    }
}

/// A forwarded request leaves `Connection`, `Keep-Alive`, `Proxy-Authenticate`,
/// `Proxy-Authorization`, `TE`, `Trailer`, `Transfer-Encoding`, `Upgrade` and `Host`
/// behind; every other header goes upstream as it came, but for the forwarding headers.
pub proof fn only_connection_headers_stay_behind(
    headers: &mut HeaderMap,
    host: &str,
    scheme: &str,
    peer: &str,
    request_id: &str,
    name: Seq<char>,
)
    requires
        call_ensures(rewrite_headers, (headers, host, scheme, peer, request_id), ()),
    ensures
        stays_behind(name) ==> !fields(*final(headers)).contains_key(name),
        !stays_behind(name) && !is_set_anew(name) ==> passes_on(
            fields(*old(headers)),
            fields(*final(headers)),
            name,
        ),
{
    lemma_names();
    let d = dropped_names();
    let f = fields(*old(headers));
    assert(d.take(9) =~= d);
    assert(d.contains(name) == stays_behind(name));
    lemma_without(f, d, 9, name);
}

/// A forwarded request says who it came from and what it asked for: the host, the
/// scheme, the request id and, behind the hops that are listed, the peer.
pub proof fn forwarding_headers_tell_the_origin(
    headers: &mut HeaderMap,
    host: &str,
    scheme: &str,
    peer: &str,
    request_id: &str,
    hops: Seq<char>,
)
    requires
        call_ensures(rewrite_headers, (headers, host, scheme, peer, request_id), ()),
        printable(peer@),
        printable(hops),
    ensures
        printable(host@) ==> says(fields(*final(headers)), "x-forwarded-host"@, host@),
        printable(scheme@) ==> says(fields(*final(headers)), "x-forwarded-proto"@, scheme@),
        printable(request_id@) ==> says(fields(*final(headers)), "x-request-id"@, request_id@),
        !fields(*old(headers)).contains_key("x-forwarded-for"@) ==> says(
            fields(*final(headers)),
            "x-forwarded-for"@,
            peer@,
        ),
        fields(*old(headers)).contains_key("x-forwarded-for"@) && fields(
            *old(headers),
        )["x-forwarded-for"@].len() > 0 && fields(*old(headers))["x-forwarded-for"@][0]
            == encode_utf8(hops) ==> says(
            fields(*final(headers)),
            "x-forwarded-for"@,
            hops + seq![',', ' '] + peer@,
        ),
{
    lemma_names();
    let d = dropped_names();
    let f = fields(*old(headers));
    assert(d.take(9) =~= d);
    assert(is_set_anew("x-forwarded-for"@));
    assert(!d.contains("x-forwarded-for"@)) by {
        assert(d.contains("x-forwarded-for"@) == stays_behind("x-forwarded-for"@));
    }
    lemma_without(f, d, 9, "x-forwarded-for"@);
    reveal_strlit(", ");
    assert(", "@ =~= seq![',', ' ']);
    lemma_plain_value(peer@);
    lemma_plain_value(hops);
    let all = hops + seq![',', ' '] + peer@;
    assert(printable(all)) by {
        assert forall|i: int| 0 <= i < all.len() implies ' ' <= #[trigger] all[i] <= '~' by {
            if i < hops.len() {
                assert(all[i] == hops[i]);
            } else if i >= hops.len() + 2 {
                assert(all[i] == peer@[i - hops.len() - 2]);
            }
        }
    }
    lemma_plain_value(all);
    if printable(host@) {
        lemma_plain_value(host@);
    }
    if printable(scheme@) {
        lemma_plain_value(scheme@);
    }
    if printable(request_id@) {
        lemma_plain_value(request_id@);
    }
}

/// An upgrade request keeps its handshake, `Connection` and `Upgrade`, and is addressed
/// to the target; otherwise it leaves behind and passes on what any request does.
pub proof fn upgrades_keep_their_handshake(
    headers: HeaderMap,
    authority: &str,
    host: &str,
    scheme: &str,
    peer: &str,
    request_id: &str,
    name: Seq<char>,
    out: HeaderMap,
)
    requires
        call_ensures(
            upgrade_headers,
            (&headers, authority, host, scheme, peer, request_id),
            out,
        ),
    ensures
        name == "connection"@ || name == "upgrade"@ ==> passes_on(
            fields(headers),
            fields(out),
            name,
        ),
        stays_behind(name) && name != "connection"@ && name != "upgrade"@ && name != "host"@
            ==> !fields(out).contains_key(name),
        printable(authority@) ==> says(fields(out), "host"@, authority@),
        !stays_behind(name) && !is_set_anew(name) ==> passes_on(fields(headers), fields(out), name),
        printable(host@) ==> says(fields(out), "x-forwarded-host"@, host@),
        printable(scheme@) ==> says(fields(out), "x-forwarded-proto"@, scheme@),
        printable(request_id@) ==> says(fields(out), "x-request-id"@, request_id@),
{
    lemma_names();
    let u = upgrade_dropped_names();
    assert(u.take(7) =~= u);
    assert(u.contains(name) == (stays_behind(name) && name != "connection"@ && name
        != "upgrade"@));
    assert(stays_behind("connection"@) && stays_behind("upgrade"@) && stays_behind("host"@));
    assert(u.contains("host"@)) by {
        assert(u[6] == "host"@);
    }
    lemma_without(fields(headers), u, 7, name);
    if printable(authority@) {
        lemma_plain_value(authority@);
    }
    if printable(host@) {
        lemma_plain_value(host@);
    }
    if printable(scheme@) {
        lemma_plain_value(scheme@);
    }
    if printable(request_id@) {
        lemma_plain_value(request_id@);
    }
}

/// The peer is put behind the hops that are listed, with a comma and a blank between; it
/// stands alone where none are listed. No other header changes.
pub proof fn the_peer_comes_last(
    headers: &mut HeaderMap,
    peer: &str,
    hops: Seq<char>,
    name: Seq<char>,
)
    requires
        call_ensures(append_forwarded_for, (headers, peer), ()),
        printable(peer@),
        printable(hops),
    ensures
        !fields(*old(headers)).contains_key("x-forwarded-for"@) ==> says(
            fields(*final(headers)),
            "x-forwarded-for"@,
            peer@,
        ),
        fields(*old(headers)).contains_key("x-forwarded-for"@) && fields(
            *old(headers),
        )["x-forwarded-for"@].len() > 0 && fields(*old(headers))["x-forwarded-for"@][0]
            == encode_utf8(hops) ==> says(
            fields(*final(headers)),
            "x-forwarded-for"@,
            hops + seq![',', ' '] + peer@,
        ),
        name != "x-forwarded-for"@ ==> passes_on(
            fields(*old(headers)),
            fields(*final(headers)),
            name,
        ),
{
    reveal_strlit(", ");
    assert(", "@ =~= seq![',', ' ']);
    lemma_plain_value(peer@);
    lemma_plain_value(hops);
    let all = hops + seq![',', ' '] + peer@;
    assert(printable(all)) by {
        assert forall|i: int| 0 <= i < all.len() implies ' ' <= #[trigger] all[i] <= '~' by {
            if i < hops.len() {
                assert(all[i] == hops[i]);
            } else if i >= hops.len() + 2 {
                assert(all[i] == peer@[i - hops.len() - 2]);
            }
        }
    }
    lemma_plain_value(all);
}

} // verus!
