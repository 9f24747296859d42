//! Admin gateway for a filtering proxy: a small JSON API for reading runtime
//! statistics and toggling the blocking flag, a static-asset fallback for the
//! bundled dashboard, and the typed client the dashboard uses to call the API.

pub mod blocking;
pub mod client;
pub mod decode;
pub mod json;
pub mod gateway;
pub mod stats;
