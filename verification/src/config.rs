//! The settings that the session logic reads.

use vstd::prelude::*;

verus! {

/// RDP client-name template where none is configured.
pub const DEFAULT_RDP_CLIENT_NAME_TEMPLATE: &'static str = "{user}@{host}";

/// `[drive]`: file transfer.
#[derive(Debug)]
pub struct DriveConfig {
    pub enabled: bool,
    pub drive_name: String,
    pub allow_download: bool,
    pub allow_upload: bool,
    pub cleanup_on_close: bool,
    pub retention_secs: u64,
}

impl Default for DriveConfig {
    fn default() -> (r: Self)
        ensures
            !r.enabled,
            r.drive_name@.len() == 0,
            r.allow_download,
            r.allow_upload,
            r.cleanup_on_close,
            r.retention_secs == 0,
    {
        DriveConfig {
            enabled: false,
            drive_name: String::new(),
            allow_download: true,
            allow_upload: true,
            cleanup_on_close: true,
            retention_secs: 0,
        }
    }
}

/// `[rdp]`: defaults of RDP sessions.
#[derive(Debug)]
pub struct RdpConfig {
    pub default_auth_pkg: Option<String>,
    pub client_name_template: Option<String>,
}

/// `[vdi]`: desktop containers.
#[derive(Debug)]
pub struct VdiConfig {
    pub enabled: bool,
    pub allowed_images: Vec<String>,
    /// The CPU limit of a container without one of its own, as the bits of a
    /// 64-bit float.
    pub default_cpu_limit: u64,
    /// The memory limit of a container without one of its own, in MiB.
    pub default_memory_limit: u64,
    pub home_base: Option<String>,
    pub port_range_start: Option<u16>,
    pub port_range_end: Option<u16>,
}

/// `[recording]`, as far as SSH typescripts go: the directory, the name
/// template, and whether the directory is created.
#[derive(Debug)]
pub struct TypescriptConfig {
    pub path: String,
    pub name: Option<String>,
    pub create_path: bool,
}

/// The settings that the session logic reads.
#[derive(Debug)]
pub struct Config {
    pub instance_id: String,
    pub ha_base_url: Option<String>,
    pub guacd_addr: String,
    pub recording_dir: String,
    pub recording_enabled: bool,
    /// Minimum password length in characters.
    pub password_min_length: usize,
    /// Number of recent passwords that may not be used again.
    pub password_history_len: usize,
    pub max_sessions: usize,
    pub max_sessions_per_user: usize,
    pub session_pending_timeout_secs: u64,
    pub session_max_duration_secs: u64,
    pub session_idle_timeout_secs: u64,
    pub session_cleanup_delay_secs: u64,
    pub ssh_allowed_networks: Vec<String>,
    pub rdp_allowed_networks: Vec<String>,
    pub vnc_allowed_networks: Vec<String>,
    pub web_allowed_networks: Vec<String>,
    pub ssh_scrollback: Option<u32>,
    pub ssh_tmux_detach: bool,
    pub ssh_typescript: Option<TypescriptConfig>,
    pub drive: Option<DriveConfig>,
    pub rdp: Option<RdpConfig>,
    pub vdi: Option<VdiConfig>,
}

} // verus!
