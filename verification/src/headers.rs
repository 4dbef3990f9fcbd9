//! Header fields: `http::HeaderMap` and what the library does with one.
//!
//! A header map holds, under each lower-case field name, the values of that
//! field in the order in which they came.

use http::{HeaderMap, HeaderValue};
use vstd::prelude::*;
use vstd::utf8::encode_utf8;
use crate::text::lower;
use crate::uri::is_token;

verus! {

/// `http::HeaderMap`, the map of header fields that the `http` crate keeps. Its
/// contents are spoken of through [`fields`].
#[verifier::external_type_specification]
#[verifier::external_body]
#[verifier::reject_recursive_types(T)]
pub struct ExHeaderMap<T>(http::HeaderMap<T>);

/// `http::HeaderValue`, the value type of a header map.
#[verifier::external_type_specification]
#[verifier::external_body]
pub struct ExHeaderValue(http::HeaderValue);

/// What a header map holds: under each field name, its values in order.
pub uninterp spec fn fields(map: http::HeaderMap<http::HeaderValue>) -> Map<Seq<char>, Seq<Seq<u8>>>;

/// A field name as a map holds it: a lower-case token of at most 65535 characters.
pub open spec fn is_field_name(name: Seq<char>) -> bool {
    is_token(name) && name.len() <= 0xffff && lower(name) == name
}

/// A byte that may stand in a field value: any but the control characters, of
/// which the tab is allowed.
pub open spec fn value_byte(b: u8) -> bool {
    b >= 32 && b != 127 || b == 9
}

/// Bytes that may stand as a field value.
pub open spec fn is_field_value(value: Seq<u8>) -> bool {
    forall|i: int| 0 <= i < value.len() ==> value_byte(#[trigger] value[i])
}

/// How many different field names a map may hold for one more to fit for
/// certain.
pub const MAX_FIELD_NAMES: usize = 6553;

/// Whether a map takes in `count` more field names for certain.
pub open spec fn has_room(map: HeaderMap, count: nat) -> bool {
    fields(map).dom().finite() && fields(map).dom().len() + count <= MAX_FIELD_NAMES + 1
}

/// The first value of a field among these.
pub open spec fn first_in(f: Fields, name: Seq<char>) -> Option<Seq<u8>> {
    if f.contains_key(name) && f[name].len() > 0 {
        Some(f[name][0])
    } else {
        None
    }
}

/// The first value of a field.
pub open spec fn first(map: HeaderMap, name: Seq<char>) -> Option<Seq<u8>> {
    first_in(fields(map), name)
}

/// Header fields by name.
pub type Fields = Map<Seq<char>, Seq<Seq<u8>>>;

pub open spec fn no_fields() -> Fields {
    Map::empty()
}

/// `http::HeaderMap::new` gives a map that holds no field.
#[verifier::external_body]
pub(crate) fn new_headers() -> (r: HeaderMap)
    ensures
        fields(r) == no_fields(),
{
    HeaderMap::new()
}

/// Whether a map holds exactly `count` field names.
pub open spec fn has_names(map: HeaderMap, count: nat) -> bool {
    fields(map).dom().finite() && fields(map).dom().len() == count
}

/// `http::HeaderMap::keys_len` gives the number of field names.
#[verifier::external_body]
pub(crate) fn name_count(map: &HeaderMap) -> (r: usize)
    ensures
        has_names(*map, r as nat),
{
    map.keys_len()
}

/// `http::HeaderMap::get` gives the first value of a field, where the map holds
/// the field.
#[verifier::external_body]
pub(crate) fn first_value(map: &HeaderMap, name: &str) -> (r: Option<Vec<u8>>)
    requires
        is_field_name(name@),
    ensures
        match r {
            Some(v) => first(*map, name@) == Some(v@),
            None => first(*map, name@) is None,
        },
        r is Some == fields(*map).contains_key(name@),
{
    map.get(name).map(|v| v.as_bytes().to_vec())
}

/// The bytes of a list of values.
pub open spec fn value_bytes(list: Seq<Vec<u8>>) -> Seq<Seq<u8>> {
    list.map_values(|v: Vec<u8>| v@)
}

/// `http::HeaderMap::get_all` gives the values of a field in their order, none where the
/// map does not hold the field.
#[verifier::external_body]
pub(crate) fn all_values(map: &HeaderMap, name: &str) -> (r: Vec<Vec<u8>>)
    requires
        is_field_name(name@),
    ensures
        value_bytes(r@) == values(fields(*map), name@),
{
    map.get_all(name).iter().map(|v| v.as_bytes().to_vec()).collect()
}

/// `http::HeaderMap::remove` takes the field out, with all of its values.
#[verifier::external_body]
pub(crate) fn remove_field(map: &mut HeaderMap, name: &str)
    requires
        is_field_name(name@),
    ensures
        fields(*final(map)) == fields(*old(map)).remove(name@),
{
    map.remove(name);
}

/// `http::HeaderMap::insert` gives the field this one value, in place of any that
/// it had. It panics where its table would have to grow over 32768 slots, which
/// needs more than [`MAX_FIELD_NAMES`] names.
#[verifier::external_body]
pub(crate) fn insert_field(map: &mut HeaderMap, name: &str, value: &[u8])
    requires
        is_field_name(name@),
        is_field_value(value@),
        has_room(*old(map), 1),
    ensures
        fields(*final(map)) == fields(*old(map)).insert(name@, seq![value@]),
{
    if let (Ok(n), Ok(v)) = (http::HeaderName::try_from(name), HeaderValue::from_bytes(value)) {
        map.insert(n, v);
    }
}

/// `http::HeaderMap::append` puts the value behind those that the field has. It
/// panics as `insert` does.
#[verifier::external_body]
pub(crate) fn append_field(map: &mut HeaderMap, name: &str, value: &[u8])
    requires
        is_field_name(name@),
        is_field_value(value@),
        has_room(*old(map), 1),
    ensures
        fields(*final(map)) == fields(*old(map)).insert(
            name@,
            values(fields(*old(map)), name@).push(value@),
        ),
{
    if let (Ok(n), Ok(v)) = (http::HeaderName::try_from(name), HeaderValue::from_bytes(value)) {
        map.append(n, v);
    }
}

/// `http::HeaderMap::clone` gives a map that holds the same fields.
#[verifier::external_body]
pub(crate) fn copy_headers(map: &HeaderMap) -> (r: HeaderMap)
    ensures
        fields(r) == fields(*map),
{
    map.clone()
}

/// `http::HeaderName::try_from` reads a token of at most 65535 characters, in any
/// case, and gives it in lower case.
#[verifier::external_body]
pub(crate) fn parse_name(text: &str) -> (r: Option<String>)
    ensures
        match r {
            Some(n) => is_token(text@) && text@.len() <= 0xffff && n@ == lower(text@),
            None => !(is_token(text@) && text@.len() <= 0xffff),
        },
{
    http::HeaderName::try_from(text).ok().map(|n| n.as_str().to_string())
}

/// `http::HeaderValue::from_str` accepts a text whose bytes may all stand in a
/// field value, and keeps the bytes as they are.
#[verifier::external_body]
pub(crate) fn is_value(text: &str) -> (r: bool)
    ensures
        r == is_field_value(encode_utf8(text@)),
{
    HeaderValue::from_str(text).is_ok()
}

/// The values of a field among these, none where it is not there.
pub open spec fn values(f: Fields, name: Seq<char>) -> Seq<Seq<u8>> {
    if f.contains_key(name) {
        f[name]
    } else {
        Seq::empty()
    }
}

/// Whether `count` more field names fit.
pub fn fits(map: &HeaderMap, count: usize) -> (r: bool)
    ensures
        r == has_room(*map, count as nat),
{
    let n = name_count(map);
    n <= MAX_FIELD_NAMES + 1 && count <= MAX_FIELD_NAMES + 1 - n
}

/// A byte that reads as text: visible ASCII, a space or a tab.
pub open spec fn visible_byte(b: u8) -> bool {
    32 <= b < 127 || b == 9
}

/// A value as text, where every byte of it reads as text.
pub open spec fn ascii_of(value: Seq<u8>) -> Option<Seq<char>> {
    if forall|i: int| 0 <= i < value.len() ==> visible_byte(#[trigger] value[i]) {
        Some(value.map_values(|b: u8| b as char))
    } else {
        None
    }
}

/// The first value of a field among these as text: `None` where the field is not
/// there, or the value does not read as text.
pub open spec fn text_in(f: Fields, name: Seq<char>) -> Option<Seq<char>> {
    match first_in(f, name) {
        Some(v) => ascii_of(v),
        None => None,
    }
}

/// The first value of a field as text.
pub open spec fn text_of(map: HeaderMap, name: Seq<char>) -> Option<Seq<char>> {
    text_in(fields(map), name)
}

/// A value as text, where every byte of it reads as text.
pub fn ascii_text(value: &Vec<u8>) -> (r: Option<String>)
    ensures
        match r {
            Some(t) => ascii_of(value@) == Some(t@),
            None => ascii_of(value@) is None,
        },
{
    let mut out = String::new();
    let mut i: usize = 0;
    while i < value.len()
        invariant
            i <= value.len(),
            out@ == value@.take(i as int).map_values(|b: u8| b as char),
            forall|j: int| 0 <= j < i ==> visible_byte(#[trigger] value@[j]),
        decreases value.len() - i,
    {
        let b = value[i];
        if !(32 <= b && b < 127 || b == 9) {
            assert(!visible_byte(value@[i as int]));
            return None;
        }
        out.push(b as char);
        i += 1;
        assert(out@ == value@.take(i as int).map_values(|b: u8| b as char));
    }
    assert(value@.take(value@.len() as int) == value@);
    Some(out)
}

/// The first value of a field as text.
pub fn header_text(map: &HeaderMap, name: &str) -> (r: Option<String>)
    requires
        is_field_name(name@),
    ensures
        match r {
            Some(t) => text_of(*map, name@) == Some(t@),
            None => text_of(*map, name@) is None,
        },
{
    match first_value(map, name) {
        Some(v) => ascii_text(&v),
        None => None,
    }
}

/// The fields after `set_header`.
pub open spec fn with_header(
    map: Fields,
    name: Seq<char>,
    value: Seq<char>,
) -> Fields {
    if is_field_value(encode_utf8(value)) {
        map.insert(name, seq![encode_utf8(value)])
    } else {
        map
    }
}

/// Give the field this one value. A text that may not stand as a value leaves the
/// map as it is.
pub fn set_header(map: &mut HeaderMap, name: &str, value: &str)
    requires
        is_field_name(name@),
        has_room(*old(map), 1),
    ensures
        fields(*final(map)) == with_header(fields(*old(map)), name@, value@),
{
    if is_value(value) {
        insert_field(map, name, value.as_bytes());
    }
}

/// Plain text: visible ASCII characters and spaces.
pub open spec fn is_plain(s: Seq<char>) -> bool {
    forall|i: int| 0 <= i < s.len() ==> ' ' <= #[trigger] s[i] <= '~'
}

/// Plain text may stand as a value, and reads back as it was.
pub proof fn lemma_plain_value(s: Seq<char>)
    requires
        is_plain(s),
    ensures
        is_field_value(encode_utf8(s)),
        ascii_of(encode_utf8(s)) == Some(s),
{
    vstd::utf8::is_ascii_chars_encode_utf8(s);
    let bytes = encode_utf8(s);
    assert(bytes =~= Seq::new(s.len(), |i: int| s[i] as u8));
    assert forall|i: int| 0 <= i < bytes.len() implies value_byte(#[trigger] bytes[i])
        && visible_byte(bytes[i]) && bytes[i] as char == s[i] by {
        assert(' ' <= s[i] <= '~');
    }
    assert(bytes.map_values(|b: u8| b as char) =~= s);
}

/// The names of the fields that the library reads and writes are field names.
pub proof fn lemma_field_names()
    ensures
        is_field_name("accept-encoding"@),
        is_field_name("authorization"@),
        is_field_name("connection"@),
        is_field_name("content-encoding"@),
        is_field_name("content-length"@),
        is_field_name("content-type"@),
        is_field_name("host"@),
        is_field_name("keep-alive"@),
        is_field_name("proxy-authenticate"@),
        is_field_name("proxy-authorization"@),
        is_field_name("retry-after"@),
        is_field_name("te"@),
        is_field_name("trailer"@),
        is_field_name("transfer-encoding"@),
        is_field_name("upgrade"@),
        is_field_name("vary"@),
        is_field_name("www-authenticate"@),
        is_field_name("x-forwarded-for"@),
        is_field_name("x-forwarded-host"@),
        is_field_name("x-forwarded-proto"@),
        is_field_name("x-request-id"@),
{
    assert(is_field_name("accept-encoding"@)) by {
        reveal_strlit("accept-encoding");
        assert(lower("accept-encoding"@) =~= "accept-encoding"@);
    }
    assert(is_field_name("authorization"@)) by {
        reveal_strlit("authorization");
        assert(lower("authorization"@) =~= "authorization"@);
    }
    assert(is_field_name("connection"@)) by {
        reveal_strlit("connection");
        assert(lower("connection"@) =~= "connection"@);
    }
    assert(is_field_name("content-encoding"@)) by {
        reveal_strlit("content-encoding");
        assert(lower("content-encoding"@) =~= "content-encoding"@);
    }
    assert(is_field_name("content-length"@)) by {
        reveal_strlit("content-length");
        assert(lower("content-length"@) =~= "content-length"@);
    }
    assert(is_field_name("content-type"@)) by {
        reveal_strlit("content-type");
        assert(lower("content-type"@) =~= "content-type"@);
    }
    assert(is_field_name("host"@)) by {
        reveal_strlit("host");
        assert(lower("host"@) =~= "host"@);
    }
    assert(is_field_name("keep-alive"@)) by {
        reveal_strlit("keep-alive");
        assert(lower("keep-alive"@) =~= "keep-alive"@);
    }
    assert(is_field_name("proxy-authenticate"@)) by {
        reveal_strlit("proxy-authenticate");
        assert(lower("proxy-authenticate"@) =~= "proxy-authenticate"@);
    }
    assert(is_field_name("proxy-authorization"@)) by {
        reveal_strlit("proxy-authorization");
        assert(lower("proxy-authorization"@) =~= "proxy-authorization"@);
    }
    assert(is_field_name("retry-after"@)) by {
        reveal_strlit("retry-after");
        assert(lower("retry-after"@) =~= "retry-after"@);
    }
    assert(is_field_name("te"@)) by {
        reveal_strlit("te");
        assert(lower("te"@) =~= "te"@);
    }
    assert(is_field_name("trailer"@)) by {
        reveal_strlit("trailer");
        assert(lower("trailer"@) =~= "trailer"@);
    }
    assert(is_field_name("transfer-encoding"@)) by {
        reveal_strlit("transfer-encoding");
        assert(lower("transfer-encoding"@) =~= "transfer-encoding"@);
    }
    assert(is_field_name("upgrade"@)) by {
        reveal_strlit("upgrade");
        assert(lower("upgrade"@) =~= "upgrade"@);
    }
    assert(is_field_name("vary"@)) by {
        reveal_strlit("vary");
        assert(lower("vary"@) =~= "vary"@);
    }
    assert(is_field_name("www-authenticate"@)) by {
        reveal_strlit("www-authenticate");
        assert(lower("www-authenticate"@) =~= "www-authenticate"@);
    }
    assert(is_field_name("x-forwarded-for"@)) by {
        reveal_strlit("x-forwarded-for");
        assert(lower("x-forwarded-for"@) =~= "x-forwarded-for"@);
    }
    assert(is_field_name("x-forwarded-host"@)) by {
        reveal_strlit("x-forwarded-host");
        assert(lower("x-forwarded-host"@) =~= "x-forwarded-host"@);
    }
    assert(is_field_name("x-forwarded-proto"@)) by {
        reveal_strlit("x-forwarded-proto");
        assert(lower("x-forwarded-proto"@) =~= "x-forwarded-proto"@);
    }
    assert(is_field_name("x-request-id"@)) by {
        reveal_strlit("x-request-id");
        assert(lower("x-request-id"@) =~= "x-request-id"@);
    }
}

}
