//! Client side of a solar/battery vendor's cloud service: password encryption
//! for its login, the session credentials and their stored form, the refresh
//! cycle that logs in again once when a session is refused, and the
//! projection of site telemetry into labelled gauges.

pub mod api;
pub mod auth;
pub mod credentials;
pub mod data;
pub mod metrics;
