//! What a config is taken in for: the checks before it, the admin server, TLS material.

use vstd::prelude::*;
use crate::admin::{health_document, health_payload, json_string_of, AdminState};
use crate::clock::millis;
use crate::error::{ConfigError, CoreError, TlsError, ValidationError};
use crate::laws::snapshots::{lemma_mirrors, mirrors};
use crate::laws::validation::{no_problems_means_sound, sound};
use crate::model::{
    default_connect_timeout_ms, default_header_read_timeout_ms, default_log_level,
    default_request_timeout_ms, default_retry_attempts, default_retry_methods, default_retry_on,
    default_weight, GatePupConfig, LimitsConfig, TimeoutConfig,
};
use crate::net::{parse_socket_address, SocketAddress};
use crate::service::{admin_state, load_validated, reload_snapshot};
use crate::snapshot::RuntimeConfig;
use crate::tls::{
    load_certs, load_key, pem_certificates, pem_key, require_certs, require_key, KeyKind,
};

verus! {

/// A config is taken in, as it is, exactly when it was loaded and is sound. One that could
/// not be loaded says why, and one that is not sound says what is wrong with it.
pub proof fn only_sound_configs_are_taken_in(
    loaded: Result<GatePupConfig, ConfigError>,
    r: Result<GatePupConfig, CoreError>,
)
    requires
        call_ensures(load_validated, (loaded,), r),
    ensures
        loaded matches Err(e) ==> r == Err::<GatePupConfig, CoreError>(CoreError::Config(e)),
        loaded matches Ok(config) ==> (r is Ok <==> sound(config)),
        r matches Ok(c) ==> loaded == Ok::<GatePupConfig, ConfigError>(c),
        loaded is Ok && r is Err ==> (r matches Err(CoreError::Invalid(errors)) && errors@.len()
            > 0),
{
    if let Ok(config) = loaded {
        no_problems_means_sound(config);
    }
}

/// A reload replaces the running snapshot exactly when the new config was loaded and is
/// sound, by one that mirrors it without TLS.
pub proof fn only_sound_configs_are_reloaded(
    loaded: Result<GatePupConfig, ConfigError>,
    r: Result<RuntimeConfig, CoreError>,
)
    requires
        call_ensures(reload_snapshot, (loaded,), r),
    ensures
        loaded matches Err(e) ==> r == Err::<RuntimeConfig, CoreError>(CoreError::Config(e)),
        loaded matches Ok(config) ==> (r is Ok <==> sound(config)),
        loaded matches Ok(config) ==> (r matches Ok(snapshot) ==> mirrors(
            snapshot,
            config,
            false,
        )),
        loaded is Ok && r is Err ==> (r matches Err(CoreError::Invalid(errors)) && errors@.len()
            > 0),
{
    if let Ok(config) = loaded {
        no_problems_means_sound(config);
        if let Ok(snapshot) = r {
            lemma_mirrors(snapshot, config, false);
        }
    }
}

/// The admin server runs where its section is there and enabled, at its address and with
/// its token; it serves the metrics where they are enabled too. An address that does not
/// parse is an error that names it.
pub proof fn the_admin_server_follows_its_section(
    config: GatePupConfig,
    r: Result<Option<AdminState>, CoreError>,
    text: &str,
    bind: Option<SocketAddress>,
)
    requires
        call_ensures(admin_state, (&config,), r),
        call_ensures(parse_socket_address, (text,), bind),
        config.admin matches Some(admin) ==> admin.bind@ == text@,
    ensures
        !(config.admin matches Some(admin) && admin.enabled) ==> r matches Ok(None),
        config.admin matches Some(admin) ==> (admin.enabled && bind is Some ==> (r matches Ok(
            Some(state),
        ) && Some(state.bind) == bind && state.token == admin.token && (
        state.metrics_path is Some == (config.metrics matches Some(m) && m.enabled)) && (
        state.metrics_path matches Some(p) ==> config.metrics->0.path == p))),
        config.admin matches Some(admin) ==> (admin.enabled && bind is None ==> r == Err::<
            Option<AdminState>,
            CoreError,
        >(CoreError::AdminBind(admin.bind))),
{
}

/// The problems of a config are told where it was not valid, all of them, and only there.
pub proof fn problems_are_told(e: CoreError, r: Option<&[ValidationError]>)
    requires
        call_ensures(CoreError::validation_errors, (&e,), r),
    ensures
        r is Some <==> e is Invalid,
        e matches CoreError::Invalid(errors) ==> (r matches Some(s) && s@ == errors@),
{
}

/// Certificates are taken as they were read, in their order; no certificate at all, or one
/// that could not be read, is an error that names the file.
pub proof fn certificates_are_required(
    path: &str,
    read: Result<Vec<Vec<u8>>, String>,
    r: Result<Vec<Vec<u8>>, TlsError>,
)
    requires
        call_ensures(require_certs, (path, read), r),
    ensures
        r is Ok <==> (read matches Ok(certs) && certs@.len() > 0),
        r matches Ok(certs) ==> read == Ok::<Vec<Vec<u8>>, String>(certs),
        read matches Ok(certs) ==> (certs@.len() == 0 ==> (r matches Err(TlsError::NoCerts {
            path: p,
        }) && p@ == path@)),
        read matches Err(why) ==> (r matches Err(TlsError::Read { path: p, message }) && p@
            == path@ && message == why),
{
}

/// A key is taken as it was read; no key, or one that could not be read, is an error that
/// names the file.
pub proof fn a_key_is_required(
    path: &str,
    read: Result<Option<(KeyKind, Vec<u8>)>, String>,
    r: Result<(KeyKind, Vec<u8>), TlsError>,
)
    requires
        call_ensures(require_key, (path, read), r),
    ensures
        r is Ok <==> (read matches Ok(Some(_))),
        r matches Ok(key) ==> read == Ok::<Option<(KeyKind, Vec<u8>)>, String>(Some(key)),
        read matches Ok(None) ==> (r matches Err(TlsError::NoKey { path: p }) && p@ == path@),
        read matches Err(why) ==> (r matches Err(TlsError::Read { path: p, message }) && p@
            == path@ && message == why),
{
}

/// The TLS material in a file is what the PEM text in it holds: at least one certificate,
/// byte by byte and in order, and the first key.
pub proof fn tls_material_is_that_of_the_file(
    path: &str,
    pem: &[u8],
    certs: Result<Vec<Vec<u8>>, TlsError>,
    key: Result<(KeyKind, Vec<u8>), TlsError>,
)
    requires
        call_ensures(load_certs, (path, pem), certs),
        call_ensures(load_key, (path, pem), key),
    ensures
        certs is Ok <==> (pem_certificates(pem@) matches Some(found) && found.len() > 0),
        certs matches Ok(v) ==> v@.len() == pem_certificates(pem@)->0.len() && forall|i: int|
            0 <= i < v@.len() ==> (#[trigger] v@[i])@ == pem_certificates(pem@)->0[i],
        pem_certificates(pem@) matches Some(found) ==> (found.len() == 0 ==> (certs matches Err(
            TlsError::NoCerts { path: p },
        ) && p@ == path@)),
        key is Ok <==> (pem_key(pem@) matches Some(Some(_))),
        key matches Ok((kind, der)) ==> (pem_key(pem@) matches Some(Some((number, bytes))) && der@
            == bytes && number == (match kind {
            KeyKind::Pkcs1 => 1u8,
            KeyKind::Sec1 => 2u8,
            KeyKind::Pkcs8 => 8u8,
        })),
        pem_key(pem@) matches Some(None) ==> (key matches Err(TlsError::NoKey { path: p }) && p@
            == path@),
{
    if let Ok(v) = certs {
        let strings = v@.map_values(|b: Vec<u8>| b@);
        assert forall|i: int| 0 <= i < v@.len() implies (#[trigger] v@[i])@ == pem_certificates(
            pem@,
        )->0[i] by {
            assert(strings[i] == v@[i]@);
        }
    }
}

/// A time in nanoseconds is so many whole milliseconds and a rest below one, as long as
/// the milliseconds fit.
pub proof fn milliseconds_are_whole(nanos: u128, r: u64)
    requires
        call_ensures(millis, (nanos,), r),
        nanos < 0x1_0000_0000_0000_0000 * 1_000_000,
    ensures
        r * 1_000_000 <= nanos < (r + 1) * 1_000_000,
{
}

/// What a config says where it says nothing: fifteen seconds for a header section, five
/// to connect and thirty for a request, the log level `info`, two attempts, for `GET`,
/// `HEAD` and `OPTIONS`, on failed connections and on failures of the upstream, a weight
/// of one, and no limits.
pub proof fn defaults_are_these(
    header_ms: u64,
    connect_ms: u64,
    request_ms: u64,
    level: String,
    attempts: u32,
    methods: Vec<String>,
    conditions: Vec<String>,
    weight: u32,
    limits: LimitsConfig,
    timeouts: TimeoutConfig,
)
    requires
        call_ensures(default_header_read_timeout_ms, (), header_ms),
        call_ensures(default_connect_timeout_ms, (), connect_ms),
        call_ensures(default_request_timeout_ms, (), request_ms),
        call_ensures(default_log_level, (), level),
        call_ensures(default_retry_attempts, (), attempts),
        call_ensures(default_retry_methods, (), methods),
        call_ensures(default_retry_on, (), conditions),
        call_ensures(default_weight, (), weight),
        call_ensures(LimitsConfig::default, (), limits),
        call_ensures(TimeoutConfig::default, (), timeouts),
    ensures
        header_ms == 15000 && connect_ms == 5000 && request_ms == 30000,
        level@ == "info"@,
        attempts == 2,
        methods@.len() == 3 && methods@[0]@ == "GET"@ && methods@[1]@ == "HEAD"@ && methods@[2]@
            == "OPTIONS"@,
        conditions@.len() == 2 && conditions@[0]@ == "connect_error"@ && conditions@[1]@
            == "upstream_5xx"@,
        weight == 1,
        limits.max_body_bytes == 0 && limits.max_header_bytes == 0
            && limits.header_read_timeout_ms == header_ms,
        timeouts.connect_timeout_ms == connect_ms && timeouts.request_timeout_ms == request_ms,
{
}

/// The health document says that all is well, and the version.
pub proof fn health_tells_the_version(
    version: &str,
    version_json: &str,
    document: String,
    payload: String,
)
    requires
        call_ensures(health_document, (version_json,), document),
        call_ensures(health_payload, (version,), payload),
    ensures
        document@ == "{\"status\":\"ok\",\"version\":"@ + version_json@ + "}"@,
        version_json@ == json_string_of(version@) ==> payload@ == document@,
{
}

} // verus!
