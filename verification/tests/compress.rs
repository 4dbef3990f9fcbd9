//! Which responses are compressed, and how.

use gatepup::compress::{
    append_vary_accept_encoding, choose_encoding, maybe_compress, should_compress, Compression,
    Encoding,
};
use gatepup::model::CompressionConfig;
use http::{HeaderMap, HeaderValue};

fn comp(gzip: bool, br: bool, min_bytes: u64) -> Compression {
    Compression {
        gzip,
        br,
        min_bytes,
        types: vec!["text/html".to_string()],
    }
}

#[test]
fn prefers_brotli_when_both_offered_and_enabled() {
    assert!(matches!(
        choose_encoding("gzip, br", &comp(true, true, 0)),
        Some(Encoding::Br)
    ));
}

#[test]
fn falls_back_to_gzip_when_br_disabled() {
    assert!(matches!(
        choose_encoding("gzip, br", &comp(true, false, 0)),
        Some(Encoding::Gzip)
    ));
}

#[test]
fn none_when_client_accepts_nothing_enabled() {
    assert!(choose_encoding("identity", &comp(true, true, 0)).is_none());
    assert!(choose_encoding("gzip", &comp(false, true, 0)).is_none());
}

#[test]
fn wildcard_accepts_preferred() {
    assert!(matches!(
        choose_encoding("*", &comp(true, true, 0)),
        Some(Encoding::Br)
    ));
}

fn headers(pairs: &[(&str, &str)]) -> HeaderMap {
    let mut h = HeaderMap::new();
    for (k, v) in pairs {
        h.append(
            http::HeaderName::from_bytes(k.as_bytes()).unwrap(),
            HeaderValue::from_str(v).unwrap(),
        );
    }
    h
}

#[test]
fn skips_already_encoded() {
    let h = headers(&[("content-type", "text/html"), ("content-encoding", "gzip")]);
    assert!(!should_compress(&h, &comp(true, true, 0)));
}

#[test]
fn skips_disallowed_type() {
    let h = headers(&[("content-type", "application/octet-stream")]);
    assert!(!should_compress(&h, &comp(true, true, 0)));
}

#[test]
fn skips_small_known_length() {
    let h = headers(&[("content-type", "text/html"), ("content-length", "100")]);
    assert!(!should_compress(&h, &comp(true, true, 1024)));
}

#[test]
fn compresses_eligible_type_with_charset_and_unknown_length() {
    let h = headers(&[("content-type", "text/html; charset=utf-8")]);
    assert!(should_compress(&h, &comp(true, true, 1024)));
}

#[test]
fn compresses_from_the_minimum_length_on() {
    let at = headers(&[("content-type", "Text/HTML"), ("content-length", "1024")]);
    assert!(should_compress(&at, &comp(true, true, 1024)));
    let below = headers(&[("content-type", "text/html"), ("content-length", "1023")]);
    assert!(!should_compress(&below, &comp(true, true, 1024)));
    let untyped = headers(&[]);
    assert!(!should_compress(&untyped, &comp(true, true, 0)));
}

#[test]
fn weights_of_encodings_are_ignored() {
    assert!(matches!(
        choose_encoding("gzip;q=0.5", &comp(true, true, 0)),
        Some(Encoding::Gzip)
    ));
    assert!(choose_encoding("", &comp(true, true, 0)).is_none());
    assert!(choose_encoding("*", &comp(false, false, 0)).is_none());
}

#[test]
fn a_compressed_response_is_not_compressed_again() {
    let mut h = headers(&[("content-type", "text/html"), ("content-length", "5000")]);
    let first = maybe_compress(&mut h, "gzip", &comp(true, true, 1024));
    assert_eq!(first, Some(Encoding::Gzip));
    assert_eq!(h.get("content-encoding").unwrap(), "gzip");
    assert!(h.get("content-length").is_none());
    assert_eq!(h.get("vary").unwrap(), "Accept-Encoding");
    assert_eq!(maybe_compress(&mut h, "gzip", &comp(true, true, 1024)), None);
    assert_eq!(h.get_all("vary").iter().count(), 1);
}

#[test]
fn an_ineligible_response_stays_as_it_is() {
    let mut h = headers(&[("content-type", "image/png")]);
    let before = h.clone();
    assert_eq!(maybe_compress(&mut h, "br", &comp(true, true, 0)), None);
    assert_eq!(h, before);
    let mut html = headers(&[("content-type", "text/html")]);
    assert_eq!(
        maybe_compress(&mut html, "identity", &comp(true, true, 0)),
        None
    );
    assert!(html.get("content-encoding").is_none());
}

#[test]
fn vary_is_extended_where_it_lacks_the_token() {
    let mut h = headers(&[("vary", "Origin")]);
    append_vary_accept_encoding(&mut h);
    let all: Vec<&str> = h
        .get_all("vary")
        .iter()
        .map(|v| v.to_str().unwrap())
        .collect();
    assert_eq!(all, vec!["Origin", "Accept-Encoding"]);
    let mut has = headers(&[("vary", "origin, ACCEPT-ENCODING")]);
    let before = has.clone();
    append_vary_accept_encoding(&mut has);
    assert_eq!(has, before);
}

#[test]
fn settings_are_read_from_the_config() {
    let mut cfg = CompressionConfig {
        enabled: true,
        algorithms: vec!["gzip".to_string()],
        min_bytes: 7,
        types: vec!["Text/Plain".to_string()],
    };
    let c = Compression::from_config(&cfg).unwrap();
    assert!(c.gzip && !c.br);
    assert_eq!(c.min_bytes, 7);
    assert_eq!(c.types, vec!["text/plain".to_string()]);
    cfg.enabled = false;
    assert!(Compression::from_config(&cfg).is_none());
}

#[test]
fn encodings_have_tokens() {
    assert_eq!(Encoding::Gzip.token(), "gzip");
    assert_eq!(Encoding::Br.token(), "br");
}
