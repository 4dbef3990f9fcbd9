//! What the operations of the gateway promise, stated of what goes in and what comes
//! out of a call.
//!
//! Each law takes the arguments and the result of a call and says how they relate.

pub mod addresses;
pub mod admission;
pub mod balance;
pub mod complaints;
pub mod config;
pub mod counters;
pub mod forwarding;
pub mod health;
pub mod messages;
pub mod plans;
pub mod rates;
pub mod responses;
pub mod retries;
pub mod routing;
pub mod snapshots;
pub mod startup;
pub mod steps;
pub mod texts;
pub mod turns;
pub mod validation;
