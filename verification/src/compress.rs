//! Response compression (gzip / brotli), negotiated via `Accept-Encoding`: which
//! responses are compressed, with what, and what that does to their headers.
//! Already-encoded responses, content types that are not eligible and small bodies
//! of known length are skipped.

use http::HeaderMap;
use vstd::prelude::*;
use vstd::utf8::encode_utf8;
use crate::headers::{
    append_field, fields, first_value, has_room, header_text, insert_field, lemma_field_names,
    lemma_plain_value, remove_field, text_in, values, Fields,
};
use crate::model::CompressionConfig;
use crate::text::{
    before, contains_text, lower, occurs, parse_decimal, parse_number, split_on, split_text,
    text_before, text_eq, texts, to_lower, trim, trimmed,
};
use crate::upstream::{is_listed, listed};

verus! {

#[derive(Debug, Clone, Copy, PartialEq, Eq, Structural)]
pub enum Encoding {
    Gzip,
    Br,
}

/// Compression settings: which encodings are on, from which known body size on,
/// and for which content types (in lower case).
#[derive(Debug, Clone)]
pub struct Compression {
    pub gzip: bool,
    pub br: bool,
    pub min_bytes: u64,
    pub types: Vec<String>,
}

/// The content coding's name.
pub open spec fn token_of(e: Encoding) -> Seq<char> {
    match e {
        Encoding::Gzip => "gzip"@,
        Encoding::Br => "br"@,
    }
}

impl Encoding {
    pub fn token(self) -> (r: &'static str)
        ensures
            r@ == token_of(self),
    {
        match self {
            Encoding::Gzip => "gzip",
            Encoding::Br => "br",
        }
    }
}

impl Compression {
    /// `self` is what an enabled config asks for.
    pub open spec fn follows(self, cfg: CompressionConfig) -> bool {
        &&& self.gzip == listed(cfg.algorithms@, "gzip"@)
        &&& self.br == listed(cfg.algorithms@, "br"@)
        &&& self.min_bytes == cfg.min_bytes
        &&& self.types@.len() == cfg.types@.len()
        &&& forall|i: int|
            0 <= i < cfg.types@.len() ==> #[trigger] self.types@[i]@ == lower(cfg.types@[i]@)
    }

    /// The settings of an enabled config.
    pub fn from_config(cfg: &CompressionConfig) -> (r: Option<Self>)
        ensures
            match r {
                Some(c) => cfg.enabled && c.follows(*cfg),
                None => !cfg.enabled,
            },
    {
        if !cfg.enabled {
            return None;
        }
        let mut types: Vec<String> = Vec::new();
        let mut i: usize = 0;
        while i < cfg.types.len()
            invariant
                i <= cfg.types.len(),
                types.len() == i,
                forall|j: int| 0 <= j < i ==> #[trigger] types@[j]@ == lower(cfg.types@[j]@),
            decreases cfg.types.len() - i,
        {
            types.push(to_lower(cfg.types[i].as_str()));
            i += 1;
        }
        Some(
            Compression {
                gzip: is_listed(&cfg.algorithms, "gzip"),
                br: is_listed(&cfg.algorithms, "br"),
                min_bytes: cfg.min_bytes,
                types,
            },
        )
    }
}

/// A list member without its parameters, in lower case.
pub open spec fn bare(member: Seq<char>) -> Seq<char> {
    lower(trimmed(before(member, ';')))
}

/// Whether a comma-separated list names `token`; parameters do not count.
pub open spec fn offers(list: Seq<char>, token: Seq<char>) -> bool {
    exists|i: int|
        0 <= i < split_on(list, ',').len() && bare(#[trigger] split_on(list, ',')[i]) == token
}

/// The encoding for a client that accepts these: brotli where both sides have it,
/// else gzip where both have it. `*` accepts either. Weights do not count.
pub open spec fn negotiated(accept: Seq<char>, comp: Compression) -> Option<Encoding> {
    if comp.br && (offers(accept, "br"@) || offers(accept, "*"@)) {
        Some(Encoding::Br)
    } else if comp.gzip && (offers(accept, "gzip"@) || offers(accept, "*"@)) {
        Some(Encoding::Gzip)
    } else {
        None
    }
}

/// A list member without its parameters, in lower case.
fn bare_text(member: &str) -> (r: String)
    ensures
        r@ == bare(member@),
{
    let name = text_before(member, ';');
    let name = trim(name.as_str());
    to_lower(name.as_str())
}

/// Pick an encoding the client accepts and we have enabled, preferring brotli.
/// q-values are not parsed; presence of the token (or `*`) means acceptable.
pub fn choose_encoding(accept_encoding: &str, comp: &Compression) -> (r: Option<Encoding>)
    ensures
        r == negotiated(accept_encoding@, *comp),
{
    let pieces = split_text(accept_encoding, ',');
    let ghost all = split_on(accept_encoding@, ',');
    let mut br = false;
    let mut gzip = false;
    let mut any = false;
    let mut i: usize = 0;
    while i < pieces.len()
        invariant
            i <= pieces.len(),
            texts(pieces@) == all,
            br == exists|j: int| 0 <= j < i && bare(#[trigger] all[j]) == "br"@,
            gzip == exists|j: int| 0 <= j < i && bare(#[trigger] all[j]) == "gzip"@,
            any == exists|j: int| 0 <= j < i && bare(#[trigger] all[j]) == "*"@,
        decreases pieces.len() - i,
    {
        let name = bare_text(pieces[i].as_str());
        assert(all[i as int] == pieces@[i as int]@);
        if text_eq(name.as_str(), "br") {
            br = true;
        }
        if text_eq(name.as_str(), "gzip") {
            gzip = true;
        }
        if text_eq(name.as_str(), "*") {
            any = true;
        }
        i += 1;
    }
    if comp.br && (br || any) {
        Some(Encoding::Br)
    } else if comp.gzip && (gzip || any) {
        Some(Encoding::Gzip)
    } else {
        None
    }
}

/// The content type of a response without its parameters, in lower case; empty
/// where there is none.
pub open spec fn media_type(f: Fields) -> Seq<char> {
    match text_in(f, "content-type"@) {
        Some(v) => bare(v),
        None => Seq::empty(),
    }
}

/// The length that a message declares, where it declares one.
pub open spec fn declared_length(f: Fields, max: nat) -> Option<nat> {
    match text_in(f, "content-length"@) {
        Some(v) => parse_decimal(v, max),
        None => None,
    }
}

/// Whether a response is to be compressed: it is not encoded yet, its content type
/// is one of those listed and, where its length is known, it is long enough.
pub open spec fn eligible(f: Fields, comp: Compression) -> bool {
    &&& !f.contains_key("content-encoding"@)
    &&& listed(comp.types@, media_type(f))
    &&& declared_length(f, u64::MAX as nat) matches Some(n) ==> n >= comp.min_bytes
}

/// Eligible when not already encoded, the content type is allowed, and (if the
/// length is known) it is at least `min_bytes`.
pub fn should_compress(headers: &HeaderMap, comp: &Compression) -> (r: bool)
    ensures
        r == eligible(fields(*headers), *comp),
{
    proof {
        lemma_field_names();
    }
    if first_value(headers, "content-encoding").is_some() {
        return false;
    }
    let content_type = match header_text(headers, "content-type") {
        Some(v) => bare_text(v.as_str()),
        None => String::new(),
    };
    assert(content_type@ == media_type(fields(*headers)));
    if !is_listed(&comp.types, content_type.as_str()) {
        return false;
    }
    if let Some(v) = header_text(headers, "content-length") {
        if let Some(len) = parse_number(v.as_str(), u64::MAX) {
            if len < comp.min_bytes {
                return false;
            }
        }
    }
    true
}

/// Whether the first `Vary` value speaks of `Accept-Encoding` already.
pub open spec fn varies(f: Fields) -> bool {
    text_in(f, "vary"@) matches Some(v) && occurs("accept-encoding"@, lower(v))
}

/// The fields of a response once it is compressed: the length is not known up front,
/// the coding is marked, and caches are told that the response varies.
pub open spec fn compressed_fields(f: Fields, e: Encoding) -> Fields {
    let marked = f.remove("content-length"@).insert(
        "content-encoding"@,
        seq![encode_utf8(token_of(e))],
    );
    if varies(f) {
        marked
    } else {
        marked.insert("vary"@, values(f, "vary"@).push(encode_utf8("Accept-Encoding"@)))
    }
}

/// Mark a response as varying by `Accept-Encoding`, where it is not marked yet.
pub fn append_vary_accept_encoding(headers: &mut HeaderMap)
    requires
        has_room(*old(headers), 1),
    ensures
        fields(*final(headers)) == if varies(fields(*old(headers))) {
            fields(*old(headers))
        } else {
            fields(*old(headers)).insert(
                "vary"@,
                values(fields(*old(headers)), "vary"@).push(encode_utf8("Accept-Encoding"@)),
            )
        },
{
    proof {
        lemma_field_names();
    }
    let already = match header_text(headers, "vary") {
        Some(v) => {
            let v = to_lower(v.as_str());
            contains_text(v.as_str(), "accept-encoding")
        },
        None => false,
    };
    if !already {
        proof {
            reveal_strlit("Accept-Encoding");
            lemma_plain_value("Accept-Encoding"@);
        }
        append_field(headers, "vary", "Accept-Encoding".as_bytes());
    }
}

/// The names of the fields that compression touches differ.
proof fn lemma_names_differ()
    ensures
        "vary"@ != "content-length"@,
        "vary"@ != "content-encoding"@,
        "content-length"@ != "content-encoding"@,
{
    reveal_strlit("vary");
    reveal_strlit("content-length");
    reveal_strlit("content-encoding");
    assert("vary"@.len() == 4 && "content-length"@.len() == 14 && "content-encoding"@.len() == 16);
}

/// Decide whether a response is compressed per the client's `Accept-Encoding` and,
/// where it is, rewrite its headers. The body then goes through the encoder that
/// is given back; with `None` the response stays as it is.
pub fn maybe_compress(headers: &mut HeaderMap, accept_encoding: &str, comp: &Compression) -> (r:
    Option<Encoding>)
    requires
        has_room(*old(headers), 2),
    ensures
        r == if eligible(fields(*old(headers)), *comp) {
            negotiated(accept_encoding@, *comp)
        } else {
            None
        },
        fields(*final(headers)) == match r {
            Some(e) => compressed_fields(fields(*old(headers)), e),
            None => fields(*old(headers)),
        },
{
    if !should_compress(headers, comp) {
        return None;
    }
    let encoding = match choose_encoding(accept_encoding, comp) {
        Some(e) => e,
        None => return None,
    };
    let ghost start = *headers;
    proof {
        lemma_field_names();
        lemma_names_differ();
        reveal_strlit("gzip");
        reveal_strlit("br");
        lemma_plain_value(token_of(encoding));
    }
    remove_field(headers, "content-length");
    assert(fields(*headers).dom() =~= fields(start).dom().remove("content-length"@));
    insert_field(headers, "content-encoding", encoding.token().as_bytes());
    assert(fields(*headers).dom() =~= fields(start).dom().remove("content-length"@).insert(
        "content-encoding"@,
    ));
    let ghost middle = fields(*headers);
    append_vary_accept_encoding(headers);
    assert(varies(middle) == varies(fields(start)));
    assert(values(middle, "vary"@) == values(fields(start), "vary"@));
    Some(encoding)
}

/// A response that was compressed is marked with its coding and carries no length,
/// and is not compressed a second time.
pub proof fn compressed_once(f: Fields, comp: Compression, e: Encoding)
    ensures
        compressed_fields(f, e).contains_key("content-encoding"@),
        compressed_fields(f, e)["content-encoding"@] == seq![encode_utf8(token_of(e))],
        !compressed_fields(f, e).contains_key("content-length"@),
        !eligible(compressed_fields(f, e), comp),
{
    lemma_names_differ();
}

/// An encoding is picked only where it is turned on and the client accepts it.
pub proof fn encoding_is_enabled_and_accepted(accept: Seq<char>, comp: Compression)
    ensures
        negotiated(accept, comp) matches Some(e) ==> (offers(accept, token_of(e)) || offers(
            accept,
            "*"@,
        )) && (match e {
            Encoding::Gzip => comp.gzip,
            Encoding::Br => comp.br,
        }),
        negotiated(accept, comp) is None ==> (comp.br ==> !offers(accept, "br"@)) && (comp.gzip
            ==> !offers(accept, "gzip"@)),
{
}

}
