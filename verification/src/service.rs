//! Application use cases: load and validate a config, decide what the admin server
//! serves, and take in a reloaded config.

use vstd::prelude::*;
use crate::admin::AdminState;
use crate::error::{ConfigError, CoreError};
use crate::model::GatePupConfig;
use crate::net::{parse_socket_address, socket_of};
use crate::snapshot::{build_reload_snapshot, valid_config_builds, RuntimeConfig};
use crate::validator::{problems, validate};

verus! {

/// What a config that was loaded gives: itself where it passed every check.
pub fn load_validated(loaded: Result<GatePupConfig, ConfigError>) -> (r: Result<
    GatePupConfig,
    CoreError,
>)
    ensures
        match loaded {
            Err(e) => r == Err::<GatePupConfig, CoreError>(CoreError::Config(e)),
            Ok(config) => match r {
                Ok(c) => c == config && problems(config).len() == 0,
                Err(e) => e matches CoreError::Invalid(errors) && errors@ == problems(config)
                    && errors@.len() > 0,
            },
        },
{
    let config = match loaded {
        Ok(config) => config,
        Err(e) => return Err(CoreError::Config(e)),
    };
    match validate(&config) {
        Ok(_) => Ok(config),
        Err(errors) => Err(CoreError::Invalid(errors)),
    }
}

/// What the admin server goes by, where it is enabled. Metrics are served only where
/// they are enabled too.
pub fn admin_state(config: &GatePupConfig) -> (r: Result<Option<AdminState>, CoreError>)
    ensures
        match config.admin {
            Some(admin) if admin.enabled => match socket_of(admin.bind@) {
                Some(bind) => {
                    &&& r matches Ok(Some(state))
                    &&& state.bind == bind
                    &&& state.token == admin.token
                    &&& state.metrics_path == match config.metrics {
                        Some(m) if m.enabled => Some(m.path),
                        _ => None,
                    }
                },
                None => r == Err::<Option<AdminState>, CoreError>(CoreError::AdminBind(admin.bind)),
            },
            _ => r matches Ok(None),
        },
{
    let admin = match &config.admin {
        Some(admin) => admin,
        None => return Ok(None),
    };
    if !admin.enabled {
        return Ok(None);
    }
    let bind = match parse_socket_address(admin.bind.as_str()) {
        Some(bind) => bind,
        None => return Err(CoreError::AdminBind(admin.bind.clone())),
    };
    let metrics_path: Option<String> = match &config.metrics {
        Some(m) => if m.enabled {
            Some(m.path.clone())
        } else {
            None
        },
        None => None,
    };
    let token: Option<String> = match &admin.token {
        Some(t) => Some(t.clone()),
        None => None,
    };
    Ok(Some(AdminState { bind, metrics_path, token }))
}

/// The snapshot to swap in for a config that was loaded again, or why the running one
/// is kept: a config that cannot be loaded or is not valid never replaces it.
pub fn reload_snapshot(loaded: Result<GatePupConfig, ConfigError>) -> (r: Result<
    RuntimeConfig,
    CoreError,
>)
    ensures
        match loaded {
            Err(e) => r == Err::<RuntimeConfig, CoreError>(CoreError::Config(e)),
            Ok(config) => match r {
                Ok(snapshot) => problems(config).len() == 0 && snapshot.follows(config, false),
                Err(e) => e matches CoreError::Invalid(errors) && errors@ == problems(config)
                    && errors@.len() > 0,
            },
        },
{
    let config = match load_validated(loaded) {
        Ok(config) => config,
        Err(e) => return Err(e),
    };
    proof {
        valid_config_builds(config, false, Seq::empty(), config.listeners@.len() as int);
    }
    match build_reload_snapshot(&config) {
        Ok(snapshot) => Ok(snapshot),
        Err(e) => Err(CoreError::Proxy(e)),
    }
}

/// An enabled admin section of a config without problems has an address to bind.
pub proof fn valid_admin_binds(config: GatePupConfig)
    requires
        problems(config).len() == 0,
    ensures
        config.admin matches Some(admin) ==> socket_of(admin.bind@) is Some,
{
    assert(crate::validator::admin_problems(config).len() == 0);
}

}
