//! GatePup, a small reverse proxy: its rules, proved.
//!
//! The library decides; the program around it reads, sends and waits.
//!
//! - Configuration: [`model`] is the document, [`resolve`] finds it and lays the
//!   environment over it, [`validator`] lists its problems, [`service`] admits it.
//! - Snapshot: [`snapshot`] turns a config into what requests go by: [`router`] with the
//!   routes of a listener, [`upstream`] with targets, their [`health`] and the weighted
//!   [`schedule`] over them.
//! - Requests: [`request`] reads one, [`proxy`] screens, forwards and retries it,
//!   [`access`] and [`rate_limit`] turn it away, [`rewrite`] prepares its headers,
//!   [`compress`] decides on the encoding of the response, [`gateway`] words failures.
//! - Operation: [`admin`] routes the management endpoints, [`metrics`] counts, [`tls`]
//!   reads key material.
//! - Ground: [`text`], [`net`], [`uri`] and [`headers`] hold the notions that the rest is
//!   stated over.
//! - Promises: [`laws`] says what the operations give, call by call.

pub mod access;
pub mod admin;
pub mod clock;
pub mod compress;
pub mod error;
pub mod gateway;
pub mod headers;
pub mod health;
pub mod laws;
pub mod metrics;
pub mod model;
pub mod net;
pub mod proxy;
pub mod rate_limit;
pub mod request;
pub mod resolve;
pub mod rewrite;
pub mod router;
pub mod schedule;
pub mod service;
pub mod snapshot;
pub mod text;
pub mod tls;
pub mod upstream;
pub mod uri;
pub mod validator;
