//! The headers of a request on its way upstream.

use http::HeaderMap;
use vstd::prelude::*;
use vstd::utf8::encode_utf8;
use crate::headers::{
    copy_headers, fields, has_room, header_text, is_field_name, is_field_value, lemma_field_names,
    remove_field, set_header, text_in, with_header, Fields,
};
use crate::router::{lemma_without, without};

verus! {

/// Hop-by-hop headers that must not be forwarded to the upstream, and `Host`, which
/// the upstream request has anew.
pub open spec fn dropped_names() -> Seq<Seq<char>> {
    seq![
        "connection"@,
        "keep-alive"@,
        "proxy-authenticate"@,
        "proxy-authorization"@,
        "te"@,
        "trailer"@,
        "transfer-encoding"@,
        "upgrade"@,
        "host"@,
    ]
}

/// The same for an upgrade request: `connection` and `upgrade` are intentionally
/// PRESERVED so the upstream sees the handshake.
pub open spec fn upgrade_dropped_names() -> Seq<Seq<char>> {
    seq![
        "keep-alive"@,
        "proxy-authenticate"@,
        "proxy-authorization"@,
        "te"@,
        "trailer"@,
        "transfer-encoding"@,
        "host"@,
    ]
}

/// Texts of a list of names.
pub open spec fn name_texts(names: Seq<&'static str>) -> Seq<Seq<char>> {
    names.map_values(|s: &'static str| s@)
}

/// The names that are dropped are field names.
proof fn lemma_dropped_names()
    ensures
        forall|i: int| 0 <= i < 9 ==> is_field_name(#[trigger] dropped_names()[i]),
        forall|i: int| 0 <= i < 7 ==> is_field_name(#[trigger] upgrade_dropped_names()[i]),
{
    lemma_field_names();
    let d = dropped_names();
    let u = upgrade_dropped_names();
    assert(is_field_name(d[0]) && is_field_name(d[1]) && is_field_name(d[2]) && is_field_name(d[3])
        && is_field_name(d[4]) && is_field_name(d[5]) && is_field_name(d[6]) && is_field_name(d[7])
        && is_field_name(d[8]));
    assert(is_field_name(u[0]) && is_field_name(u[1]) && is_field_name(u[2]) && is_field_name(u[3])
        && is_field_name(u[4]) && is_field_name(u[5]) && is_field_name(u[6]));
}

fn dropped() -> (r: Vec<&'static str>)
    ensures
        name_texts(r@) == dropped_names(),
{
    let mut v: Vec<&'static str> = Vec::new();
    v.push("connection");
    v.push("keep-alive");
    v.push("proxy-authenticate");
    v.push("proxy-authorization");
    v.push("te");
    v.push("trailer");
    v.push("transfer-encoding");
    v.push("upgrade");
    v.push("host");
    assert(name_texts(v@) =~= dropped_names());
    v
}

fn upgrade_dropped() -> (r: Vec<&'static str>)
    ensures
        name_texts(r@) == upgrade_dropped_names(),
{
    let mut v: Vec<&'static str> = Vec::new();
    v.push("keep-alive");
    v.push("proxy-authenticate");
    v.push("proxy-authorization");
    v.push("te");
    v.push("trailer");
    v.push("transfer-encoding");
    v.push("host");
    assert(name_texts(v@) =~= upgrade_dropped_names());
    v
}

/// Take these fields out.
fn drop_fields(headers: &mut HeaderMap, names: &Vec<&'static str>, Ghost(room): Ghost<nat>)
    requires
        forall|i: int| 0 <= i < names@.len() ==> is_field_name(#[trigger] names@[i]@),
        has_room(*old(headers), room),
    ensures
        fields(*final(headers)) == without(
            fields(*old(headers)),
            name_texts(names@),
            names@.len() as int,
        ),
        has_room(*final(headers), room),
{
    let ghost f = fields(*headers);
    let mut i: usize = 0;
    while i < names.len()
        invariant
            i <= names.len(),
            forall|i: int| 0 <= i < names@.len() ==> is_field_name(#[trigger] names@[i]@),
            fields(*headers) == without(f, name_texts(names@), i as int),
            has_room(*headers, room),
        decreases names.len() - i,
    {
        let ghost before = fields(*headers);
        remove_field(headers, names[i]);
        assert(name_texts(names@)[i as int] == names@[i as int]@);
        assert(fields(*headers).dom() =~= before.dom().remove(names@[i as int]@));
        i += 1;
    }
}

/// `X-Forwarded-For` with one more hop.
pub open spec fn forwarded_for(f: Fields, peer: Seq<char>) -> Seq<char> {
    match text_in(f, "x-forwarded-for"@) {
        Some(existing) => existing + ", "@ + peer,
        None => peer,
    }
}

/// Append the peer to `X-Forwarded-For`.
pub fn append_forwarded_for(headers: &mut HeaderMap, peer: &str)
    requires
        has_room(*old(headers), 1),
    ensures
        fields(*final(headers)) == with_header(
            fields(*old(headers)),
            "x-forwarded-for"@,
            forwarded_for(fields(*old(headers)), peer@),
        ),
{
    proof {
        lemma_field_names();
    }
    let value = match header_text(headers, "x-forwarded-for") {
        Some(existing) => {
            let mut v = existing;
            v.append(", ");
            v.append(peer);
            v
        },
        None => peer.to_string(),
    };
    assert(value@ =~= forwarded_for(fields(*headers), peer@));
    set_header(headers, "x-forwarded-for", value.as_str());
}

/// The fields with the forwarding headers set: the peer behind the hops that are
/// listed already, the host that was asked for, the scheme and the request id.
pub open spec fn with_forwarding(
    f: Fields,
    host: Seq<char>,
    scheme: Seq<char>,
    peer: Seq<char>,
    request_id: Seq<char>,
) -> Fields {
    with_header(
        with_header(
            with_header(
                with_header(f, "x-forwarded-for"@, forwarded_for(f, peer)),
                "x-forwarded-host"@,
                host,
            ),
            "x-forwarded-proto"@,
            scheme,
        ),
        "x-request-id"@,
        request_id,
    )
}

/// Room for one more name is left after one was set.
proof fn lemma_room(before: HeaderMap, after: HeaderMap, name: Seq<char>, value: Seq<char>, n: nat)
    requires
        has_room(before, n + 1),
        fields(after) == with_header(fields(before), name, value),
    ensures
        has_room(after, n),
{
    if is_field_value(encode_utf8(value)) {
        assert(fields(after).dom() =~= fields(before).dom().insert(name));
    }
}

/// Set the forwarding headers.
fn set_forwarding(
    headers: &mut HeaderMap,
    fwd_host: &str,
    scheme: &str,
    peer: &str,
    request_id: &str,
)
    requires
        has_room(*old(headers), 4),
    ensures
        fields(*final(headers)) == with_forwarding(
            fields(*old(headers)),
            fwd_host@,
            scheme@,
            peer@,
            request_id@,
        ),
{
    let ghost a = *headers;
    append_forwarded_for(headers, peer);
    let ghost b = *headers;
    proof {
        lemma_field_names();
        lemma_room(a, b, "x-forwarded-for"@, forwarded_for(fields(a), peer@), 3);
    }
    set_header(headers, "x-forwarded-host", fwd_host);
    let ghost c = *headers;
    proof {
        lemma_room(b, c, "x-forwarded-host"@, fwd_host@, 2);
    }
    set_header(headers, "x-forwarded-proto", scheme);
    proof {
        lemma_room(c, *headers, "x-forwarded-proto"@, scheme@, 1);
    }
    set_header(headers, "x-request-id", request_id);
}

/// The fields of a request as they go upstream, before the rules of its route.
pub open spec fn rewritten(
    f: Fields,
    host: Seq<char>,
    scheme: Seq<char>,
    peer: Seq<char>,
    request_id: Seq<char>,
) -> Fields {
    with_forwarding(without(f, dropped_names(), 9), host, scheme, peer, request_id)
}

/// Strip hop-by-hop and Host headers, then set the forwarding headers. `peer` is the
/// address of the direct peer as text.
pub fn rewrite_headers(
    headers: &mut HeaderMap,
    fwd_host: &str,
    scheme: &str,
    peer: &str,
    request_id: &str,
)
    requires
        has_room(*old(headers), 4),
    ensures
        fields(*final(headers)) == rewritten(
            fields(*old(headers)),
            fwd_host@,
            scheme@,
            peer@,
            request_id@,
        ),
{
    let names = dropped();
    proof {
        lemma_field_names();
        lemma_dropped_names();
        assert(names@.len() == name_texts(names@).len() == 9);
        assert forall|i: int| 0 <= i < names@.len() implies is_field_name(
            #[trigger] names@[i]@,
        ) by {
            assert(name_texts(names@)[i] == names@[i]@);
            assert(is_field_name(dropped_names()[i]));
        }
    }
    drop_fields(headers, &names, Ghost(4));
    set_forwarding(headers, fwd_host, scheme, peer, request_id);
}

/// The fields of an upgrade request as they go upstream.
pub open spec fn upgrade_rewritten(
    f: Fields,
    authority: Seq<char>,
    host: Seq<char>,
    scheme: Seq<char>,
    peer: Seq<char>,
    request_id: Seq<char>,
) -> Fields {
    with_forwarding(
        with_header(without(f, upgrade_dropped_names(), 7), "host"@, authority),
        host,
        scheme,
        peer,
        request_id,
    )
}

/// The headers of an upgrade request to `authority`.
pub fn upgrade_headers(
    headers: &HeaderMap,
    authority: &str,
    fwd_host: &str,
    scheme: &str,
    peer: &str,
    request_id: &str,
) -> (r: HeaderMap)
    requires
        has_room(*headers, 5),
    ensures
        fields(r) == upgrade_rewritten(
            fields(*headers),
            authority@,
            fwd_host@,
            scheme@,
            peer@,
            request_id@,
        ),
{
    let mut out = copy_headers(headers);
    let names = upgrade_dropped();
    proof {
        lemma_field_names();
        lemma_dropped_names();
        assert(names@.len() == name_texts(names@).len() == 7);
        assert forall|i: int| 0 <= i < names@.len() implies is_field_name(
            #[trigger] names@[i]@,
        ) by {
            assert(name_texts(names@)[i] == names@[i]@);
            assert(is_field_name(upgrade_dropped_names()[i]));
        }
    }
    drop_fields(&mut out, &names, Ghost(5));
    let ghost before = out;
    set_header(&mut out, "host", authority);
    proof {
        lemma_room(before, out, "host"@, authority@, 4);
    }
    set_forwarding(&mut out, fwd_host, scheme, peer, request_id);
    out
}

/// Whether a name is one of the forwarding headers that the gateway sets.
pub open spec fn is_forwarding_name(name: Seq<char>) -> bool {
    ||| name == "x-forwarded-for"@
    ||| name == "x-forwarded-host"@
    ||| name == "x-forwarded-proto"@
    ||| name == "x-request-id"@
}

/// The forwarding headers have different names, which begin with `x`.
proof fn lemma_forwarding_names()
    ensures
        "x-forwarded-for"@.len() == 15,
        "x-forwarded-host"@.len() == 16,
        "x-forwarded-proto"@.len() == 17,
        "x-request-id"@.len() == 12,
        forall|name: Seq<char>|
            #![trigger is_forwarding_name(name)]
            is_forwarding_name(name) ==> name[0] == 'x',
{
    reveal_strlit("x-forwarded-for");
    reveal_strlit("x-forwarded-host");
    reveal_strlit("x-forwarded-proto");
    reveal_strlit("x-request-id");
}

/// No dropped name is that of a forwarding header.
proof fn lemma_dropped_are_others(i: int)
    ensures
        0 <= i < 9 ==> !is_forwarding_name(dropped_names()[i]),
        0 <= i < 7 ==> !is_forwarding_name(upgrade_dropped_names()[i]),
{
    lemma_forwarding_names();
    reveal_strlit("connection");
    reveal_strlit("keep-alive");
    reveal_strlit("proxy-authenticate");
    reveal_strlit("proxy-authorization");
    reveal_strlit("te");
    reveal_strlit("trailer");
    reveal_strlit("transfer-encoding");
    reveal_strlit("upgrade");
    reveal_strlit("host");
    let d = dropped_names();
    let u = upgrade_dropped_names();
    assert(d[0][0] != 'x' && d[1][0] != 'x' && d[2][0] != 'x' && d[3][0] != 'x' && d[4][0] != 'x'
        && d[5][0] != 'x' && d[6][0] != 'x' && d[7][0] != 'x' && d[8][0] != 'x');
    assert(u[0][0] != 'x' && u[1][0] != 'x' && u[2][0] != 'x' && u[3][0] != 'x' && u[4][0] != 'x'
        && u[5][0] != 'x' && u[6][0] != 'x');
}

proof fn lemma_forwarding_keeps(
    f: Fields,
    host: Seq<char>,
    scheme: Seq<char>,
    peer: Seq<char>,
    request_id: Seq<char>,
    name: Seq<char>,
)
    requires
        !is_forwarding_name(name),
    ensures
        with_forwarding(f, host, scheme, peer, request_id).contains_key(name) == f.contains_key(
            name,
        ),
        f.contains_key(name) ==> with_forwarding(f, host, scheme, peer, request_id)[name]
            == f[name],
{
}

/// No hop-by-hop header, and no `Host`, goes upstream with a forwarded request.
pub proof fn hop_by_hop_headers_stay_behind(
    f: Fields,
    host: Seq<char>,
    scheme: Seq<char>,
    peer: Seq<char>,
    request_id: Seq<char>,
    i: int,
)
    requires
        0 <= i < dropped_names().len(),
    ensures
        !rewritten(f, host, scheme, peer, request_id).contains_key(dropped_names()[i]),
{
    let names = dropped_names();
    lemma_dropped_are_others(i);
    assert(names.take(9) =~= names);
    assert(names.contains(names[i]));
    lemma_without(f, names, 9, names[i]);
    lemma_forwarding_keeps(without(f, names, 9), host, scheme, peer, request_id, names[i]);
}

/// Every header that is neither dropped nor set by the gateway goes upstream as it
/// came.
pub proof fn other_headers_pass(
    f: Fields,
    host: Seq<char>,
    scheme: Seq<char>,
    peer: Seq<char>,
    request_id: Seq<char>,
    name: Seq<char>,
)
    requires
        !dropped_names().contains(name),
        !is_forwarding_name(name),
    ensures
        rewritten(f, host, scheme, peer, request_id).contains_key(name) == f.contains_key(name),
        f.contains_key(name) ==> rewritten(f, host, scheme, peer, request_id)[name] == f[name],
{
    let names = dropped_names();
    assert(names.take(9) =~= names);
    lemma_without(f, names, 9, name);
    lemma_forwarding_keeps(without(f, names, 9), host, scheme, peer, request_id, name);
}

/// A forwarded request carries the host, the scheme and the id that it came with,
/// and names the peer last in `X-Forwarded-For`, wherever these may stand in a
/// header.
pub proof fn forwarding_headers_are_set(
    f: Fields,
    host: Seq<char>,
    scheme: Seq<char>,
    peer: Seq<char>,
    request_id: Seq<char>,
)
    ensures
        ({
            let r = rewritten(f, host, scheme, peer, request_id);
            let hops = forwarded_for(without(f, dropped_names(), 9), peer);
            &&& is_field_value(encode_utf8(host)) ==> r.contains_key("x-forwarded-host"@)
                && r["x-forwarded-host"@] == seq![encode_utf8(host)]
            &&& is_field_value(encode_utf8(scheme)) ==> r.contains_key("x-forwarded-proto"@)
                && r["x-forwarded-proto"@] == seq![encode_utf8(scheme)]
            &&& is_field_value(encode_utf8(request_id)) ==> r.contains_key("x-request-id"@)
                && r["x-request-id"@] == seq![encode_utf8(request_id)]
            &&& is_field_value(encode_utf8(hops)) ==> r.contains_key("x-forwarded-for"@)
                && r["x-forwarded-for"@] == seq![encode_utf8(hops)]
            &&& peer.is_suffix_of(hops)
        }),
{
    lemma_forwarding_names();
    let g = without(f, dropped_names(), 9);
    let hops = forwarded_for(g, peer);
    assert(hops.subrange(hops.len() - peer.len(), hops.len() as int) =~= peer);
    assert("x-forwarded-for"@ != "x-forwarded-host"@);
    assert("x-forwarded-for"@ != "x-forwarded-proto"@);
    assert("x-forwarded-for"@ != "x-request-id"@);
    assert("x-forwarded-host"@ != "x-forwarded-proto"@);
    assert("x-forwarded-host"@ != "x-request-id"@);
    assert("x-forwarded-proto"@ != "x-request-id"@);
}

/// An upgrade request keeps its handshake: `Connection` and `Upgrade` go upstream
/// as they came.
pub proof fn upgrade_keeps_the_handshake(
    f: Fields,
    authority: Seq<char>,
    host: Seq<char>,
    scheme: Seq<char>,
    peer: Seq<char>,
    request_id: Seq<char>,
    name: Seq<char>,
)
    requires
        name == "connection"@ || name == "upgrade"@,
    ensures
        ({
            let r = upgrade_rewritten(f, authority, host, scheme, peer, request_id);
            r.contains_key(name) == f.contains_key(name) && (f.contains_key(name) ==> r[name]
                == f[name])
        }),
{
    let names = upgrade_dropped_names();
    lemma_dropped_are_others(0);
    lemma_dropped_are_others(7);
    reveal_strlit("connection");
    reveal_strlit("upgrade");
    reveal_strlit("host");
    reveal_strlit("keep-alive");
    reveal_strlit("proxy-authenticate");
    reveal_strlit("proxy-authorization");
    reveal_strlit("te");
    reveal_strlit("trailer");
    reveal_strlit("transfer-encoding");
    assert(!names.contains(name)) by {
        if names.contains(name) {
            let i = choose|i: int| 0 <= i < names.len() && names[i] == name;
            assert(names[0][0] == 'k' && names[1][0] == 'p' && names[2][0] == 'p' && names[3][0]
                == 't' && names[4][0] == 't' && names[5][0] == 't' && names[6][0] == 'h');
            assert(name[0] == 'c' || name[0] == 'u');
        }
    }
    assert(names.take(7) =~= names);
    lemma_without(f, names, 7, name);
    assert(name != "host"@);
    assert(dropped_names()[0] == "connection"@ && dropped_names()[7] == "upgrade"@);
    let g = with_header(without(f, names, 7), "host"@, authority);
    lemma_forwarding_keeps(g, host, scheme, peer, request_id, name);
}

}
