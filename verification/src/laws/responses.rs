//! Header rules, and which responses are compressed.

use http::HeaderMap;
use vstd::prelude::*;
use vstd::utf8::encode_utf8;
use crate::compress::{
    append_vary_accept_encoding, bare, choose_encoding, maybe_compress, offers, should_compress,
    Compression, Encoding,
};
use crate::headers::{fields, is_field_value, lemma_plain_value};
use crate::laws::forwarding::{passes_on, printable, says};
use crate::laws::messages::first_says;
use crate::model::{CompressionConfig, HeaderOpsConfig};
use crate::router::{set_wins_over_remove, valid_names, valid_pairs, HeaderOps};
use crate::text::{before, decimal_of, lower, occurs, split_on, trimmed};
use crate::validator::header_name;

verus! {

/// A `set` rule for this header, in lower case, that can be followed.
pub open spec fn sets(entry: (String, String), name: Seq<char>) -> bool {
    header_name(entry.0@) && is_field_value(encode_utf8(entry.1@)) && lower(entry.0@) == name
}

/// A `remove` rule for this header, in lower case, that can be followed.
pub open spec fn removes(entry: String, name: Seq<char>) -> bool {
    header_name(entry@) && lower(entry@) == name
}

proof fn lemma_valid_names(entries: Seq<String>, n: int, name: Seq<char>)
    requires
        0 <= n <= entries.len(),
    ensures
        valid_names(entries, n).contains(name) == exists|i: int|
            0 <= i < n && removes(#[trigger] entries[i], name),
    decreases n,
{
    if n > 0 {
        lemma_valid_names(entries, n - 1, name);
        let shorter = valid_names(entries, n - 1);
        let longer = valid_names(entries, n);
        if longer.contains(name) {
            let k = choose|k: int| 0 <= k < longer.len() && longer[k] == name;
            if k < shorter.len() {
                assert(shorter[k] == name);
                assert(shorter.contains(name));
                let i = choose|i: int| 0 <= i < n - 1 && removes(#[trigger] entries[i], name);
                assert(removes(entries[i], name));
            } else {
                assert(removes(entries[n - 1], name));
            }
        }
        if exists|i: int| 0 <= i < n && removes(#[trigger] entries[i], name) {
            let i = choose|i: int| 0 <= i < n && removes(#[trigger] entries[i], name);
            if i < n - 1 {
                assert(removes(entries[i], name));
                assert(shorter.contains(name));
                let k = choose|k: int| 0 <= k < shorter.len() && shorter[k] == name;
                assert(longer[k] == name);
            } else {
                assert(longer[longer.len() - 1] == name);
            }
        }
    }
}

/// Where no entry sets the name no pair does; where entry `i` is the last that sets it,
/// its pair is the last with that name.
proof fn lemma_valid_pairs(entries: Seq<(String, String)>, n: int, name: Seq<char>) -> (k: int)
    requires
        0 <= n <= entries.len(),
    ensures
        (forall|i: int| 0 <= i < n ==> !sets(#[trigger] entries[i], name)) ==> forall|j: int|
            0 <= j < valid_pairs(entries, n).len() ==> (#[trigger] valid_pairs(entries, n)[j]).0
                != name,
        forall|i: int|
            0 <= i < n && sets(#[trigger] entries[i], name) && (forall|j: int|
                i < j < n ==> !sets(#[trigger] entries[j], name)) ==> {
                &&& 0 <= k < valid_pairs(entries, n).len()
                &&& valid_pairs(entries, n)[k] == (name, entries[i].1@)
                &&& forall|j: int|
                    k < j < valid_pairs(entries, n).len() ==> (#[trigger] valid_pairs(
                        entries,
                        n,
                    )[j]).0 != name
            },
    decreases n,
{
    if n <= 0 {
        0
    } else {
        let k = lemma_valid_pairs(entries, n - 1, name);
        let shorter = valid_pairs(entries, n - 1);
        let longer = valid_pairs(entries, n);
        let last = entries[n - 1];
        if sets(last, name) {
            assert(longer == shorter.push((name, last.1@)));
            longer.len() - 1
        } else {
            assert forall|j: int| 0 <= j < longer.len() implies (j < shorter.len() ==> (
            #[trigger] longer[j]) == shorter[j]) && (j >= shorter.len() ==> longer[j].0 != name) by {}
            assert forall|i: int|
                0 <= i < n && sets(#[trigger] entries[i], name) && (forall|j: int|
                    i < j < n ==> !sets(#[trigger] entries[j], name)) implies {
                &&& 0 <= k < longer.len()
                &&& longer[k] == (name, entries[i].1@)
                &&& forall|j: int| k < j < longer.len() ==> (#[trigger] longer[j]).0 != name
            } by {
                assert(i < n - 1);
                assert(0 <= k < shorter.len() && shorter[k] == (name, entries[i].1@));
                assert forall|j: int| k < j < longer.len() implies (#[trigger] longer[j]).0
                    != name by {
                    if j < shorter.len() {
                        assert(shorter[j].0 != name);
                    }
                }
            }
            if forall|i: int| 0 <= i < n ==> !sets(#[trigger] entries[i], name) {
                assert forall|j: int| 0 <= j < longer.len() implies (#[trigger] longer[j]).0
                    != name by {
                    if j < shorter.len() {
                        assert(shorter[j].0 != name);
                    }
                }
            }
            k
        }
    }
}

/// Header rules do to each header what the config says, in whatever case it names it:
/// the last `set` gives its value, in place of any the header had and whatever is
/// removed; else a `remove` takes it out; else it stays as it was.
pub proof fn header_rules_follow_the_config(
    cfg: HeaderOpsConfig,
    ops: HeaderOps,
    headers: &mut HeaderMap,
    name: Seq<char>,
)
    requires
        call_ensures(HeaderOps::compile, (&cfg,), ops),
        call_ensures(HeaderOps::apply, (&ops, headers), ()),
    ensures
        forall|i: int|
            0 <= i < cfg.set@.len() && sets(#[trigger] cfg.set@[i], name) && (forall|j: int|
                i < j < cfg.set@.len() ==> !sets(#[trigger] cfg.set@[j], name)) ==> says(
                fields(*final(headers)),
                name,
                cfg.set@[i].1@,
            ),
        (forall|i: int| 0 <= i < cfg.set@.len() ==> !sets(#[trigger] cfg.set@[i], name)) && (
        exists|i: int| 0 <= i < cfg.remove@.len() && removes(#[trigger] cfg.remove@[i], name))
            ==> !fields(*final(headers)).contains_key(name),
        (forall|i: int| 0 <= i < cfg.set@.len() ==> !sets(#[trigger] cfg.set@[i], name)) && (
        forall|i: int| 0 <= i < cfg.remove@.len() ==> !removes(#[trigger] cfg.remove@[i], name))
            ==> passes_on(fields(*old(headers)), fields(*final(headers)), name),
{
    let f = fields(*old(headers));
    lemma_valid_names(cfg.remove@, cfg.remove@.len() as int, name);
    let k = lemma_valid_pairs(cfg.set@, cfg.set@.len() as int, name);
    set_wins_over_remove(ops, f, name);
    assert forall|i: int|
        0 <= i < cfg.set@.len() && sets(#[trigger] cfg.set@[i], name) && (forall|j: int|
            i < j < cfg.set@.len() ==> !sets(#[trigger] cfg.set@[j], name)) implies says(
        fields(*final(headers)),
        name,
        cfg.set@[i].1@,
    ) by {
        assert(ops.pairs()[k] == (name, cfg.set@[i].1@));
    }
}

/// Brotli is chosen where it is on and the client lists it or `*`; else gzip where that
/// is on and the client lists it or `*`; else nothing. Parameters and case do not count.
pub proof fn brotli_goes_before_gzip(accept: &str, comp: Compression, chosen: Option<Encoding>)
    requires
        call_ensures(choose_encoding, (accept, &comp), chosen),
    ensures
        ({
            let br = exists|i: int|
                0 <= i < split_on(accept@, ',').len() && (lower(
                    trimmed(before(#[trigger] split_on(accept@, ',')[i], ';')),
                ) == seq!['b', 'r'] || lower(trimmed(before(split_on(accept@, ',')[i], ';')))
                    == seq!['*']);
            let gzip = exists|i: int|
                0 <= i < split_on(accept@, ',').len() && (lower(
                    trimmed(before(#[trigger] split_on(accept@, ',')[i], ';')),
                ) == seq!['g', 'z', 'i', 'p'] || lower(
                    trimmed(before(split_on(accept@, ',')[i], ';')),
                ) == seq!['*']);
            &&& comp.br && br ==> chosen == Some(Encoding::Br)
            &&& !(comp.br && br) && comp.gzip && gzip ==> chosen == Some(Encoding::Gzip)
            &&& !(comp.br && br) && !(comp.gzip && gzip) ==> chosen is None
        }),
{
    reveal_strlit("br");
    reveal_strlit("gzip");
    reveal_strlit("*");
    assert("br"@ =~= seq!['b', 'r'] && "gzip"@ =~= seq!['g', 'z', 'i', 'p'] && "*"@ =~= seq!['*']);
    let all = split_on(accept@, ',');
    if offers(accept@, "br"@) {
        let i = choose|i: int| 0 <= i < all.len() && bare(#[trigger] all[i]) == "br"@;
        assert(lower(trimmed(before(all[i], ';'))) == seq!['b', 'r']);
    }
    if offers(accept@, "gzip"@) {
        let i = choose|i: int| 0 <= i < all.len() && bare(#[trigger] all[i]) == "gzip"@;
        assert(lower(trimmed(before(all[i], ';'))) == seq!['g', 'z', 'i', 'p']);
    }
    if offers(accept@, "*"@) {
        let i = choose|i: int| 0 <= i < all.len() && bare(#[trigger] all[i]) == "*"@;
        assert(lower(trimmed(before(all[i], ';'))) == seq!['*']);
    }
    assert forall|i: int| 0 <= i < all.len() implies bare(#[trigger] all[i]) == lower(
        trimmed(before(all[i], ';')),
    ) by {}
}

/// The settings are those of a config that is enabled: the algorithms that it lists,
/// wherever they stand, its least size, and its types in lower case.
pub proof fn compression_follows_the_config(cfg: CompressionConfig, r: Option<Compression>)
    requires
        call_ensures(Compression::from_config, (&cfg,), r),
    ensures
        r is Some == cfg.enabled,
        r matches Some(c) ==> {
            &&& c.gzip == exists|i: int|
                0 <= i < cfg.algorithms@.len() && #[trigger] cfg.algorithms@[i]@ == "gzip"@
            &&& c.br == exists|i: int|
                0 <= i < cfg.algorithms@.len() && #[trigger] cfg.algorithms@[i]@ == "br"@
            &&& c.min_bytes == cfg.min_bytes
            &&& c.types@.len() == cfg.types@.len()
            &&& forall|i: int|
                0 <= i < cfg.types@.len() ==> #[trigger] c.types@[i]@ == lower(cfg.types@[i]@)
        },
{
}

/// A response is compressed exactly when it is not encoded yet, its content type is one
/// of the types, wherever that stands, and its length is unknown or at least the least
/// size.
pub proof fn eligible_responses_are_compressed(
    headers: HeaderMap,
    comp: Compression,
    content_type: Seq<char>,
    length: Option<u64>,
    r: bool,
)
    requires
        call_ensures(should_compress, (&headers, &comp), r),
        printable(content_type),
        first_says(headers, "content-type"@, content_type),
        match length {
            Some(n) => first_says(headers, "content-length"@, decimal_of(n as nat)),
            None => !fields(headers).contains_key("content-length"@),
        },
    ensures
        r == (!fields(headers).contains_key("content-encoding"@) && (exists|i: int|
            0 <= i < comp.types@.len() && #[trigger] comp.types@[i]@ == lower(
                trimmed(before(content_type, ';')),
            )) && (length matches Some(n) ==> n >= comp.min_bytes)),
{
    lemma_plain_value(content_type);
    if let Some(n) = length {
        crate::laws::messages::lemma_declared(headers, n as nat, u64::MAX as nat);
    }
}

/// A response that is compressed carries its encoding in place of its length and says
/// that it varies by `Accept-Encoding`; one that is not is left alone, and so is every
/// other header.
pub proof fn compressed_responses_are_marked(
    headers: &mut HeaderMap,
    accept: &str,
    comp: Compression,
    r: Option<Encoding>,
    name: Seq<char>,
)
    requires
        call_ensures(maybe_compress, (headers, accept, &comp), r),
    ensures
        r is None ==> fields(*final(headers)) == fields(*old(headers)),
        r matches Some(e) ==> {
            let before = fields(*old(headers));
            let after = fields(*final(headers));
            &&& !before.contains_key("content-encoding"@)
            &&& e == Encoding::Gzip ==> says(after, "content-encoding"@, "gzip"@)
            &&& e == Encoding::Br ==> says(after, "content-encoding"@, "br"@)
            &&& !after.contains_key("content-length"@)
            &&& !before.contains_key("vary"@) ==> says(after, "vary"@, "Accept-Encoding"@)
            &&& before.contains_key("vary"@) && !passes_on(before, after, "vary"@) ==> after[
                "vary"@
            ] == before["vary"@].push(encode_utf8("Accept-Encoding"@))
            &&& name != "content-encoding"@ && name != "content-length"@ && name != "vary"@
                ==> passes_on(before, after, name)
        },
{
    reveal_strlit("vary");
    reveal_strlit("content-length");
    reveal_strlit("content-encoding");
    assert("vary"@.len() == 4 && "content-length"@.len() == 14 && "content-encoding"@.len() == 16);
}

/// `Vary` is extended exactly when its first value does not speak of `Accept-Encoding`,
/// in whatever case.
pub proof fn vary_names_accept_encoding_once(
    headers: &mut HeaderMap,
    accept: &str,
    comp: Compression,
    r: Option<Encoding>,
    vary: Seq<char>,
)
    requires
        call_ensures(maybe_compress, (headers, accept, &comp), r),
        r is Some,
        printable(vary),
        first_says(*old(headers), "vary"@, vary),
    ensures
        ({
            let before = fields(*old(headers))["vary"@];
            let after = fields(*final(headers))["vary"@];
            &&& occurs("accept-encoding"@, lower(vary)) ==> after == before
            &&& !occurs("accept-encoding"@, lower(vary)) ==> after == before.push(
                encode_utf8("Accept-Encoding"@),
            )
        }),
{
    lemma_plain_value(vary);
    reveal_strlit("vary");
    reveal_strlit("content-length");
    reveal_strlit("content-encoding");
    assert("vary"@.len() == 4 && "content-length"@.len() == 14 && "content-encoding"@.len() == 16);
}

/// The names of the encodings, and `Vary` on its own: it is extended exactly when its
/// first value does not speak of `Accept-Encoding`, and no other header changes.
pub proof fn vary_is_extended_where_it_must_be(
    e: Encoding,
    token: &'static str,
    headers: &mut HeaderMap,
    vary: Seq<char>,
    name: Seq<char>,
)
    requires
        call_ensures(Encoding::token, (e,), token),
        call_ensures(append_vary_accept_encoding, (headers,), ()),
        printable(vary),
    ensures
        token@ == (match e {
            Encoding::Gzip => seq!['g', 'z', 'i', 'p'],
            Encoding::Br => seq!['b', 'r'],
        }),
        !fields(*old(headers)).contains_key("vary"@) ==> says(
            fields(*final(headers)),
            "vary"@,
            "Accept-Encoding"@,
        ),
        first_says(*old(headers), "vary"@, vary) && occurs("accept-encoding"@, lower(vary))
            ==> fields(*final(headers)) == fields(*old(headers)),
        first_says(*old(headers), "vary"@, vary) && !occurs("accept-encoding"@, lower(vary))
            ==> fields(*final(headers))["vary"@] == fields(*old(headers))["vary"@].push(
            encode_utf8("Accept-Encoding"@),
        ),
        name != "vary"@ ==> passes_on(fields(*old(headers)), fields(*final(headers)), name),
{
    reveal_strlit("gzip");
    reveal_strlit("br");
    assert("br"@ =~= seq!['b', 'r'] && "gzip"@ =~= seq!['g', 'z', 'i', 'p']);
    lemma_plain_value(vary);
    if !fields(*old(headers)).contains_key("vary"@) {
        assert(Seq::<Seq<u8>>::empty().push(encode_utf8("Accept-Encoding"@)) =~= seq![
            encode_utf8("Accept-Encoding"@),
        ]);
    }
}

/// A response without a content type, or with one that is none of the types, is not
/// compressed, and neither is one that is encoded already.
pub proof fn other_responses_are_left_alone(
    headers: HeaderMap,
    comp: Compression,
    content_type: Seq<char>,
    r: bool,
)
    requires
        call_ensures(should_compress, (&headers, &comp), r),
        printable(content_type),
    ensures
        !fields(headers).contains_key("content-type"@) && (forall|i: int|
            0 <= i < comp.types@.len() ==> (#[trigger] comp.types@[i])@.len() > 0) ==> !r,
        first_says(headers, "content-type"@, content_type) && (forall|i: int|
            0 <= i < comp.types@.len() ==> #[trigger] comp.types@[i]@ != lower(
                trimmed(before(content_type, ';')),
            )) ==> !r,
        fields(headers).contains_key("content-encoding"@) ==> !r,
{
    lemma_plain_value(content_type);
}

} // verus!
