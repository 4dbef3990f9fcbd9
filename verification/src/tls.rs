//! TLS material of a listener: certificates and private key out of PEM text.

use vstd::prelude::*;
use crate::error::TlsError;

verus! {

/// How a private key is encoded.
#[derive(Debug, Clone, Copy, PartialEq, Eq, Structural)]
pub enum KeyKind {
    Pkcs1,
    Pkcs8,
    Sec1,
}

/// Byte strings of a list.
pub open spec fn byte_strings(v: Seq<Vec<u8>>) -> Seq<Seq<u8>> {
    v.map_values(|b: Vec<u8>| b@)
}

/// The certificates that `rustls_pemfile` finds in PEM text, `None` where a section
/// is broken.
pub uninterp spec fn pem_certificates(pem: Seq<u8>) -> Option<Seq<Seq<u8>>>;

/// `rustls_pemfile::certs` over the whole text: the certificates in order, or the
/// first problem. The certificates are named: they depend on the text alone.
/// Nothing is claimed of the wording of a problem.
#[verifier::external_body]
fn read_certificates(pem: &[u8]) -> (r: Result<Vec<Vec<u8>>, String>)
    ensures
        match r {
            Ok(certs) => pem_certificates(pem@) == Some(byte_strings(certs@)),
            Err(_) => pem_certificates(pem@) is None,
        },
{
    let mut reader = pem;
    rustls_pemfile::certs(&mut reader)
        .map(|c| c.map(|der| der.as_ref().to_vec()))
        .collect::<Result<Vec<Vec<u8>>, _>>()
        .map_err(|e| e.to_string())
}

/// The first private key that `rustls_pemfile` finds in PEM text: `None` where a
/// section is broken, `Some(None)` where there is no key.
pub uninterp spec fn pem_key(pem: Seq<u8>) -> Option<Option<(u8, Seq<u8>)>>;

/// A kind of key as a number.
pub open spec fn kind_number(kind: KeyKind) -> u8 {
    match kind {
        KeyKind::Pkcs1 => 1,
        KeyKind::Pkcs8 => 8,
        KeyKind::Sec1 => 2,
    }
}

/// `rustls_pemfile::private_key`: the first private key of any kind, or the first
/// problem. The key is named: it depends on the text alone. Nothing is claimed of
/// the wording of a problem.
#[verifier::external_body]
fn read_key(pem: &[u8]) -> (r: Result<Option<(KeyKind, Vec<u8>)>, String>)
    ensures
        match r {
            Ok(Some((kind, der))) => pem_key(pem@) == Some(Some((kind_number(kind), der@))),
            Ok(None) => pem_key(pem@) == Some(None::<(u8, Seq<u8>)>),
            Err(_) => pem_key(pem@) is None,
        },
{
    let mut reader = pem;
    match rustls_pemfile::private_key(&mut reader).map_err(|e| e.to_string())? {
        Some(tokio_rustls::rustls::pki_types::PrivateKeyDer::Pkcs1(k)) => {
            Ok(Some((KeyKind::Pkcs1, k.secret_pkcs1_der().to_vec())))
        },
        Some(tokio_rustls::rustls::pki_types::PrivateKeyDer::Sec1(k)) => {
            Ok(Some((KeyKind::Sec1, k.secret_sec1_der().to_vec())))
        },
        Some(k) => Ok(Some((KeyKind::Pkcs8, k.secret_der().to_vec()))),
        None => Ok(None),
    }
}

/// What the certificates that were read give: an error where there is none.
pub fn require_certs(path: &str, read: Result<Vec<Vec<u8>>, String>) -> (r: Result<
    Vec<Vec<u8>>,
    TlsError,
>)
    ensures
        match read {
            Ok(certs) => if certs@.len() == 0 {
                r matches Err(TlsError::NoCerts { path: p }) && p@ == path@
            } else {
                r == Ok::<Vec<Vec<u8>>, TlsError>(certs)
            },
            Err(message) => r matches Err(TlsError::Read { path: p, message: m }) && p@ == path@
                && m == message,
        },
{
    match read {
        Ok(certs) => if certs.len() == 0 {
            Err(TlsError::NoCerts { path: path.to_string() })
        } else {
            Ok(certs)
        },
        Err(message) => Err(TlsError::Read { path: path.to_string(), message }),
    }
}

/// What the key that was read gives: an error where there is none.
pub fn require_key(path: &str, read: Result<Option<(KeyKind, Vec<u8>)>, String>) -> (r: Result<
    (KeyKind, Vec<u8>),
    TlsError,
>)
    ensures
        match read {
            Ok(Some(key)) => r == Ok::<(KeyKind, Vec<u8>), TlsError>(key),
            Ok(None) => r matches Err(TlsError::NoKey { path: p }) && p@ == path@,
            Err(message) => r matches Err(TlsError::Read { path: p, message: m }) && p@ == path@
                && m == message,
        },
{
    match read {
        Ok(Some(key)) => Ok(key),
        Ok(None) => Err(TlsError::NoKey { path: path.to_string() }),
        Err(message) => Err(TlsError::Read { path: path.to_string(), message }),
    }
}

/// The certificates in the file at `path`, whose contents are `pem`.
pub fn load_certs(path: &str, pem: &[u8]) -> (r: Result<Vec<Vec<u8>>, TlsError>)
    ensures
        match pem_certificates(pem@) {
            Some(certs) => if certs.len() == 0 {
                r matches Err(TlsError::NoCerts { path: p }) && p@ == path@
            } else {
                r matches Ok(v) && byte_strings(v@) == certs
            },
            None => r matches Err(TlsError::Read { path: p, .. }) && p@ == path@,
        },
{
    require_certs(path, read_certificates(pem))
}

/// The private key in the file at `path`, whose contents are `pem`.
pub fn load_key(path: &str, pem: &[u8]) -> (r: Result<(KeyKind, Vec<u8>), TlsError>)
    ensures
        match pem_key(pem@) {
            Some(Some((kind, der))) => r matches Ok((k, d)) && kind_number(k) == kind && d@ == der,
            Some(None) => r matches Err(TlsError::NoKey { path: p }) && p@ == path@,
            None => r matches Err(TlsError::Read { path: p, .. }) && p@ == path@,
        },
{
    require_key(path, read_key(pem))
}

}
