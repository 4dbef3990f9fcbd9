//! What can go wrong with a configuration and with standing up the proxy.

use vstd::prelude::*;
use crate::net::SocketAddress;

verus! {

/// Failure while reading, parsing or resolving a config. Validation failures are
/// reported separately via [`ValidationError`].
#[derive(Debug, Clone, PartialEq, Eq)]
pub enum ConfigError {
    /// The config file could not be read.
    Read { path: String, message: String },
    /// The config file is no config document.
    Parse { path: String, message: String },
    /// The inline config is no config document.
    ParseInline { message: String },
    /// Neither a file, nor inline text, nor environment variables give a config.
    NoConfigSource,
    /// An environment variable has a value that cannot be used.
    BadEnvValue { var: &'static str, value: String, reason: &'static str },
}

/// A single, user-facing config validation problem. Each names the offending
/// listener / route / upstream so the user can fix it directly.
#[allow(inconsistent_fields)]
#[derive(Debug, Clone, PartialEq, Eq)]
pub enum ValidationError {
    DuplicateListenerName(String),
    DuplicateUpstreamName(String),
    DuplicateRouteName { listener: String, route: String },
    UnknownUpstream { route: String, upstream: String },
    InvalidBind { listener: String, bind: String },
    InvalidAdminBind { bind: String },
    InvalidTargetUrl { upstream: String, url: String },
    EmptyTargets { upstream: String },
    EmptyRouteMatch { listener: String, route: String },
    HealthTimeoutNotLessThanInterval { upstream: String, timeout_ms: u64, interval_ms: u64 },
    ZeroTimeout { field: &'static str },
    ZeroWeight { upstream: String, url: String },
    InvalidLogLevel { value: String },
    InvalidPathPrefix { listener: String, route: String, prefix: String },
    InvalidWildcardHost { listener: String, route: String, host: String },
    ConflictingRoutes { listener: String, first: String, second: String },
    MissingTls { listener: String },
    UnexpectedTls { listener: String },
    EmptyTlsPath { listener: String, field: &'static str },
    InvalidRetryAttempts { upstream: String },
    EmptyRetryList { upstream: String, field: &'static str },
    InvalidRetryMethod { upstream: String, method: String },
    InvalidRetryOn { upstream: String, value: String },
    /// `maxHeaderBytes` is set below 8192.
    MaxHeaderBytesTooSmall { value: usize },
    /// A trusted proxy is neither a CIDR block nor an address.
    InvalidTrustedProxy { value: String },
    /// An access-list entry is neither a CIDR block nor an address.
    InvalidIpAccess { listener: String, route: String, value: String },
    /// A header rule names no valid header.
    InvalidHeaderName { listener: String, route: String, name: String },
    /// A header rule sets a value that may not stand in a header.
    InvalidHeaderValue { listener: String, route: String, name: String },
}

/// Failure while standing up the proxy runtime (binding listeners, building the
/// snapshot). Per-request failures are mapped to HTTP responses instead.
#[allow(inconsistent_fields)]
#[derive(Debug, Clone, PartialEq, Eq)]
pub enum ProxyError {
    InvalidBind { name: String, bind: String },
    Bind { name: String, bind: SocketAddress, message: String },
    Tls { listener: String, message: String },
    UpstreamTls(String),
    Metrics(String),
}

/// Failure to bind the admin server.
#[derive(Debug, Clone, PartialEq, Eq)]
pub enum AdminError {
    Bind { bind: SocketAddress, message: String },
}

/// Failure to set up the metrics.
#[derive(Debug, Clone, PartialEq, Eq)]
pub struct MetricsError(pub String);

/// Failure to load TLS material.
#[derive(Debug, Clone, PartialEq, Eq)]
pub enum TlsError {
    Read { path: String, message: String },
    NoCerts { path: String },
    NoKey { path: String },
    Invalid(String),
}

/// Failure of a top-level use case. Wraps lower-level config errors and carries
/// the full set of validation problems so the caller can render all of them.
#[derive(Debug, Clone, PartialEq, Eq)]
pub enum CoreError {
    Config(ConfigError),
    Invalid(Vec<ValidationError>),
    Serialize(String),
    Proxy(ProxyError),
    Metrics(MetricsError),
    Admin(AdminError),
    AdminBind(String),
}

impl CoreError {
    /// The individual validation problems, if this is a validation failure.
    pub fn validation_errors(&self) -> (r: Option<&[ValidationError]>)
        ensures
            match *self {
                CoreError::Invalid(errors) => r matches Some(s) && s@ == errors@,
                _ => r is None,
            },
    {
        match self {
            CoreError::Invalid(errors) => Some(errors.as_slice()),
            _ => None,
        }
    }
}

}
