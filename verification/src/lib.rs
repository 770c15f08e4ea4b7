//! Session gateway library.

pub mod branding;
pub mod config;
pub mod guacd;
pub mod json;
pub mod metrics;
pub mod migrate;
pub mod net_util;
pub mod oidc;
pub mod oidc_laws;
pub mod outside;
pub mod password;
pub mod protocol;
pub mod protocol_laws;
pub mod providers_db;
pub mod pve;
pub mod pve_laws;
pub mod rbac;
pub mod rbac_laws;
pub mod recording;
pub mod role;
pub mod server;
pub mod server_laws;
pub mod session;
pub mod store_laws;
pub mod text;
pub mod text_laws;
pub mod time;
