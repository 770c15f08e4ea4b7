//! Session requests, records and outcomes.

use crate::guacd::ConnectionParams;
use crate::json::{read_string, string_in};
use crate::outside::{
    lowercase, parse_registry_time, parse_uuid, registry_second, to_lowercase, uuid_of, uuid_string,
    uuid_text,
};
use crate::text::{
    borrow_opt, copy_opt, decimal, digits, join2, join3, opt_str, opt_text, same_text,
};
use crate::time::{MAX_UTC_SECS, Timestamp};
use vstd::prelude::*;
use vstd::string::*;

verus! {

/// Session type: SSH terminal, web browser, RDP, VNC, VDI container, direct
/// SPICE, or Proxmox VE console.
#[derive(Debug, Clone, Copy, PartialEq, Eq, Structural)]
pub enum SessionType {
    /// SSH terminal session.
    Ssh,
    /// Web browser session (headless Chromium on Xvnc).
    Web,
    /// Remote desktop protocol session.
    Rdp,
    /// VNC session.
    Vnc,
    /// Docker desktop container session (RDP to xrdp).
    Vdi,
    /// Direct SPICE session.
    Spice,
    /// Proxmox VE console session.
    Proxmox,
}

impl Default for SessionType {
    fn default() -> (r: Self)
        ensures
            r == SessionType::Ssh,
    {
        SessionType::Ssh
    }
}

impl SessionType {
    /// The lower-case name of the type.
    pub open spec fn name(self) -> Seq<char> {
        match self {
            SessionType::Ssh => "ssh"@,
            SessionType::Web => "web"@,
            SessionType::Rdp => "rdp"@,
            SessionType::Vnc => "vnc"@,
            SessionType::Vdi => "vdi"@,
            SessionType::Spice => "spice"@,
            SessionType::Proxmox => "proxmox"@,
        }
    }

    /// The lower-case name of the type.
    pub fn as_str(&self) -> (r: &'static str)
        ensures
            r@ == self.name(),
    {
        match self {
            SessionType::Ssh => "ssh",
            SessionType::Web => "web",
            SessionType::Rdp => "rdp",
            SessionType::Vnc => "vnc",
            SessionType::Vdi => "vdi",
            SessionType::Spice => "spice",
            SessionType::Proxmox => "proxmox",
        }
    }
}

/// SSH-only request fields.
#[derive(Debug, Default)]
pub struct SshParams {
    pub private_key: Option<String>,
    pub generate_keypair: Option<bool>,
    pub record_typescript: Option<bool>,
}

/// RDP-only request fields.
#[derive(Debug, Default)]
pub struct RdpParams {
    pub domain: Option<String>,
    pub security: Option<String>,
    pub auth_pkg: Option<String>,
    pub kdc_url: Option<String>,
    pub kerberos_cache: Option<String>,
    pub remote_app: Option<String>,
    pub remote_app_dir: Option<String>,
    pub remote_app_args: Option<String>,
    pub enable_gfx: Option<bool>,
    pub enable_desktop_composition: Option<bool>,
    pub enable_wallpaper: Option<bool>,
    pub enable_theming: Option<bool>,
    pub enable_full_window_drag: Option<bool>,
    pub force_lossless: Option<bool>,
    pub enable_h264: Option<bool>,
}

/// VNC-only request fields (the colour depth also serves SPICE).
#[derive(Debug, Default)]
pub struct VncParams {
    pub color_depth: Option<u8>,
}

/// Web-only request fields.
#[derive(Debug, Default)]
pub struct WebParams {
    pub url: Option<String>,
    pub login_script: Option<String>,
    pub autofill: Option<String>,
    pub allowed_domains: Option<Vec<String>>,
}

/// VDI-only request fields.
#[derive(Debug, Default)]
pub struct VdiParams {
    pub container_image: Option<String>,
    /// The CPU limit, as the bits of a 64-bit float.
    pub container_cpu_limit: Option<u64>,
    /// The memory limit in MiB.
    pub container_memory_limit: Option<u64>,
    pub container_env: Option<Vec<(String, String)>>,
    pub container_idle_timeout_mins: Option<u64>,
    pub container_username: Option<String>,
    pub container_password: Option<String>,
}

/// SPICE-only request fields.
#[derive(Debug, Default)]
pub struct SpiceParams {
    pub spice_tls: Option<bool>,
    pub spice_tls_port: Option<u16>,
    pub spice_ca_cert: Option<String>,
    pub spice_cert_subject: Option<String>,
    pub spice_proxy: Option<String>,
}

/// Proxmox-only request fields.
#[derive(Debug, Default)]
pub struct ProxmoxParams {
    pub proxmox_url: Option<String>,
    pub proxmox_node: Option<String>,
    pub proxmox_vmid: Option<u32>,
    pub proxmox_token_id: Option<String>,
    pub proxmox_token_secret: Option<String>,
    pub proxmox_verify_tls: Option<bool>,
}

/// One hop of a jump-host chain.
#[derive(Debug)]
pub struct JumpHost {
    pub hostname: String,
    pub port: u16,
    pub username: String,
    pub password: Option<String>,
    pub private_key: Option<String>,
    pub host_key: Option<String>,
}

/// Request to create a session.
#[derive(Debug, Default)]
pub struct CreateSessionRequest {
    pub session_type: SessionType,
    pub hostname: Option<String>,
    pub port: Option<u16>,
    pub username: Option<String>,
    pub password: Option<String>,
    pub ignore_cert: Option<bool>,
    pub max_monitors: Option<u32>,
    pub jump_hosts: Option<Vec<JumpHost>>,
    pub jump_host: Option<String>,
    pub jump_port: Option<u16>,
    pub jump_username: Option<String>,
    pub jump_password: Option<String>,
    pub jump_private_key: Option<String>,
    pub width: Option<u32>,
    pub height: Option<u32>,
    pub dpi: Option<u32>,
    pub banner: Option<String>,
    pub enable_drive: Option<bool>,
    pub disable_copy: Option<bool>,
    pub disable_paste: Option<bool>,
    pub enable_recording: Option<bool>,
    pub address_book_entry: Option<String>,
    pub address_book_folder: Option<String>,
    pub entry_display_name: Option<String>,
    pub max_recordings: Option<u32>,
    pub allow_sharing: Option<bool>,
    pub fullscreen_on_connect: Option<bool>,
    pub autohide_side_tabs: Option<bool>,
    /// Why the user connects, for the session history.
    pub reason: Option<String>,
    pub ssh: Option<SshParams>,
    pub rdp: Option<RdpParams>,
    pub vnc: Option<VncParams>,
    pub web: Option<WebParams>,
    pub vdi: Option<VdiParams>,
    pub spice: Option<SpiceParams>,
    pub proxmox: Option<ProxmoxParams>,
}

/// Session status in the lifecycle.
#[derive(Debug, Clone, Copy, PartialEq, Eq, Hash, Structural)]
pub enum SessionStatus {
    /// guacd connected, waiting for browser
    Pending,
    /// Browser connected, session active
    Active,
    /// Session ended normally
    Completed,
    /// Session ended due to error
    Error,
    /// Session expired (no browser connected in time)
    Expired,
    /// Browser disconnected but session remains in manager for reconnection
    Disconnected,
    /// The owner logged out of the remote session
    LoggedOut,
}

impl SessionStatus {
    /// Whether a status ends a session for good.
    pub open spec fn terminal(self) -> bool {
        self == SessionStatus::Completed || self == SessionStatus::Error || self
            == SessionStatus::Expired
    }

    /// Whether a session in this status holds a live connection.
    pub open spec fn live(self) -> bool {
        self == SessionStatus::Pending || self == SessionStatus::Active
    }

    /// True for terminal states (completed/error/expired): the session can
    /// no longer be joined or resumed.
    pub fn is_terminal(&self) -> (r: bool)
        ensures
            r == self.terminal(),
    {
        matches!(self, SessionStatus::Completed | SessionStatus::Error | SessionStatus::Expired)
    }

    /// True for the states that hold a live connection (pending/active).
    pub fn is_live(&self) -> (r: bool)
        ensures
            r == self.live(),
    {
        matches!(self, SessionStatus::Pending | SessionStatus::Active)
    }
}

/// What the API shows of a session.
#[derive(Debug)]
pub struct SessionInfo {
    pub session_id: u128,
    pub session_type: SessionType,
    pub status: SessionStatus,
    pub created_at: Timestamp,
    pub last_activity: Option<Timestamp>,
    pub ended_at: Option<Timestamp>,
    pub client_url: String,
    pub share_url: Option<String>,
    pub ws_url: String,
    pub hostname: String,
    pub username: String,
    pub active_connections: u32,
    pub created_by: String,
    pub banner: Option<String>,
    pub url: Option<String>,
    pub address_book_entry: Option<String>,
    pub address_book_folder: Option<String>,
    pub entry_display_name: Option<String>,
    pub thumbnail_url: Option<String>,
    pub fullscreen_on_connect: bool,
    pub autohide_side_tabs: bool,
    pub drive_enabled: bool,
    pub owner_instance: Option<String>,
    pub owner_base_url: Option<String>,
    pub remote: bool,
}

/// The kind of a session lifecycle event.
#[derive(Debug, Clone, Copy, PartialEq, Eq, Structural)]
pub enum SessionEventKind {
    SessionStarted,
    StatusChanged,
    SessionEnded,
}

impl SessionEventKind {
    /// The name of the kind.
    pub open spec fn name(self) -> Seq<char> {
        match self {
            SessionEventKind::SessionStarted => "session_started"@,
            SessionEventKind::StatusChanged => "status_changed"@,
            SessionEventKind::SessionEnded => "session_ended"@,
        }
    }

    /// The name of the kind.
    pub fn as_str(&self) -> (r: &'static str)
        ensures
            r@ == self.name(),
    {
        match self {
            SessionEventKind::SessionStarted => "session_started",
            SessionEventKind::StatusChanged => "status_changed",
            SessionEventKind::SessionEnded => "session_ended",
        }
    }
}

/// One session lifecycle event.
#[derive(Debug)]
pub struct SessionEvent {
    pub id: u64,
    pub event: SessionEventKind,
    pub session_id: u128,
    pub session_type: SessionType,
    pub status: SessionStatus,
    pub created_by: String,
    pub timestamp: Timestamp,
}

impl SessionEvent {
    /// A copy of the event.
    pub fn copy(&self) -> (r: Self)
        ensures
            r == *self,
    {
        SessionEvent {
            id: self.id,
            event: self.event,
            session_id: self.session_id,
            session_type: self.session_type,
            status: self.status,
            created_by: self.created_by.clone(),
            timestamp: self.timestamp,
        }
    }
}

/// A short-lived admin token for watching a session.
#[derive(Debug)]
pub struct ShadowToken {
    /// SHA-256 of the token, in hexadecimal digits.
    pub token_hash: String,
    pub issued_by: String,
    pub expires_at: Timestamp,
}

/// A session. Streams, browsers, login scripts and tunnel chains are held by
/// the process under numbers; the session records the numbers.
#[derive(Debug)]
pub struct Session {
    pub id: u128,
    pub session_type: SessionType,
    pub status: SessionStatus,
    pub created_at: Timestamp,
    pub hostname: String,
    pub username: String,
    pub url: Option<String>,
    pub banner: Option<String>,
    pub guacd_stream: Option<u64>,
    pub connection_id: String,
    pub share_token: String,
    pub width: u32,
    pub height: u32,
    pub active_connections: u32,
    pub created_by: String,
    /// Whether everything that runs for the session was told to stop.
    pub cancelled: bool,
    pub browser_session: Option<u64>,
    pub deferred_params: Option<ConnectionParams>,
    pub drive_path: Option<String>,
    pub drive_enabled: bool,
    pub tunnels: Option<u64>,
    pub container_id: Option<String>,
    pub container_name: Option<String>,
    pub recording_enabled: bool,
    pub address_book_entry: Option<String>,
    pub address_book_folder: Option<String>,
    pub entry_display_name: Option<String>,
    pub max_recordings: Option<u32>,
    pub login_script_handle: Option<u64>,
    pub shadow_tokens: Vec<ShadowToken>,
    pub share_allowed: bool,
    pub fullscreen_on_connect: bool,
    pub autohide_side_tabs: bool,
    /// Seconds since 1970-01-01 00:00:00 UTC.
    pub last_activity: i64,
    pub source_ip: Option<String>,
    pub user_id: Option<String>,
}

/// Which token of a session a presented token is.
#[derive(Debug, PartialEq)]
pub enum ShareTokenValidation {
    /// Neither the owner's token nor a live shadow token.
    Invalid,
    /// The owner's long-lived share token.
    Owner,
    /// A live shadow token.
    Shadow {
        /// The admin who minted it.
        issued_by: String,
    },
}

impl ShareTokenValidation {
    /// Whether the token opens the session.
    pub fn is_valid(&self) -> (r: bool)
        ensures
            r == !(self is Invalid),
    {
        !matches!(self, ShareTokenValidation::Invalid)
    }
}

/// Why a session operation failed.
#[derive(Debug)]
#[must_use]
pub enum SessionError {
    GuacdConnection(String),
    NotFound,
    NotActive,
    ValidationError(String),
    BrowserSpawn(String),
    VdiError(String),
    /// The session has as many viewers as it may have.
    ViewerLimit { viewers: u32, max: u32 },
}

impl SessionError {
    /// The message of each error.
    pub open spec fn message_spec(self) -> Seq<char> {
        match self {
            SessionError::GuacdConnection(m) => "guacd connection failed: "@ + m@,
            SessionError::NotFound => "session not found"@,
            SessionError::NotActive => "session is not active"@,
            SessionError::ValidationError(m) => "validation error: "@ + m@,
            SessionError::BrowserSpawn(m) => "browser spawn failed: "@ + m@,
            SessionError::VdiError(m) => "VDI error: "@ + m@,
            SessionError::ViewerLimit { viewers, max } => "viewer limit reached ("@ + digits(
                viewers as nat,
            ) + " of "@ + digits(max as nat) + ")"@,
        }
    }

    /// The error in words.
    pub fn message(&self) -> (r: String)
        ensures
            r@ == self.message_spec(),
    {
        match self {
            SessionError::GuacdConnection(m) => join2("guacd connection failed: ", m.as_str()),
            SessionError::NotFound => "session not found".to_owned(),
            SessionError::NotActive => "session is not active".to_owned(),
            SessionError::ValidationError(m) => join2("validation error: ", m.as_str()),
            SessionError::BrowserSpawn(m) => join2("browser spawn failed: ", m.as_str()),
            SessionError::VdiError(m) => join2("VDI error: ", m.as_str()),
            SessionError::ViewerLimit { viewers, max } => {
                let mut s = join3(
                    "viewer limit reached (",
                    decimal(*viewers as u64).as_str(),
                    " of ",
                );
                s.append(decimal(*max as u64).as_str());
                s.append(")");
                s
            },
        }
    }
}

/// Whether `e` is a validation error with the given message.
pub open spec fn invalid(e: SessionError, message: Seq<char>) -> bool {
    e is ValidationError && e->ValidationError_0@ == message
}

/// A validation error with the given message.
pub fn validation_error(message: &str) -> (r: SessionError)
    ensures
        invalid(r, message@),
{
    SessionError::ValidationError(message.to_owned())
}

/// A guacd error with the words of an I/O error.
pub fn join_io_error(e: &str) -> (r: SessionError)
    ensures
        r is GuacdConnection,
        r->GuacdConnection_0@ == "guacd I/O error: "@ + e@,
{
    SessionError::GuacdConnection(join2("guacd I/O error: ", e))
}

impl Session {
    /// Note client activity at `now`.
    pub fn touch_activity(&mut self, now: Timestamp)
        ensures
            *final(self) == (Session { last_activity: now.secs, ..*old(self) }),
    {
        self.last_activity = now.secs;
    }

    /// The second of the last client activity.
    pub fn last_activity_secs(&self) -> (r: i64)
        ensures
            r == self.last_activity,
    {
        self.last_activity
    }

    /// Whether `info` shows this session, as it stands in the manager's map.
    pub open spec fn shown_by(&self, info: SessionInfo) -> bool {
        &&& info.session_id == self.id
        &&& info.session_type == self.session_type
        &&& info.status == self.status
        &&& info.created_at == self.created_at
        &&& info.last_activity == if 0 < self.last_activity <= MAX_UTC_SECS {
            Some(Timestamp { secs: self.last_activity, nanos: 0 })
        } else {
            None
        }
        &&& info.client_url@ == "/client/"@ + uuid_text(self.id)
        &&& opt_text(info.share_url) == if self.share_allowed {
            Some("/client/"@ + uuid_text(self.id) + "?token="@ + self.share_token@)
        } else {
            None
        }
        &&& info.ws_url@ == "/ws/"@ + uuid_text(self.id)
        &&& info.hostname == self.hostname
        &&& info.username == self.username
        &&& info.active_connections == self.active_connections
        &&& info.created_by == self.created_by
        &&& info.banner == self.banner
        &&& info.url == self.url
        &&& info.address_book_entry == self.address_book_entry
        &&& info.address_book_folder == self.address_book_folder
        &&& info.entry_display_name == self.entry_display_name
        &&& opt_text(info.thumbnail_url) == Some(
            "/api/sessions/"@ + uuid_text(self.id) + "/thumbnail"@,
        )
        &&& info.fullscreen_on_connect == self.fullscreen_on_connect
        &&& info.autohide_side_tabs == self.autohide_side_tabs
        &&& info.drive_enabled == self.drive_enabled
        &&& info.owner_instance is None
        &&& info.owner_base_url is None
        &&& !info.remote
    }

    /// What the API shows of the session. The end time is attached by the
    /// manager.
    pub fn info(&self) -> (r: SessionInfo)
        ensures
            self.shown_by(r),
            r.ended_at is None,
    {
        let id = uuid_string(self.id);
        let client_url = join2("/client/", id.as_str());
        let share_url = if self.share_allowed {
            let mut s = join2("/client/", id.as_str());
            s.append("?token=");
            s.append(self.share_token.as_str());
            Some(s)
        } else {
            None
        };
        SessionInfo {
            session_id: self.id,
            session_type: self.session_type,
            status: self.status,
            created_at: self.created_at,
            last_activity: if self.last_activity > 0 && self.last_activity <= MAX_UTC_SECS {
                Some(Timestamp::at_second(self.last_activity))
            } else {
                None
            },
            ended_at: None,
            client_url,
            share_url,
            ws_url: join2("/ws/", id.as_str()),
            hostname: self.hostname.clone(),
            username: self.username.clone(),
            active_connections: self.active_connections,
            created_by: self.created_by.clone(),
            banner: copy_opt(&self.banner),
            url: copy_opt(&self.url),
            address_book_entry: copy_opt(&self.address_book_entry),
            address_book_folder: copy_opt(&self.address_book_folder),
            entry_display_name: copy_opt(&self.entry_display_name),
            thumbnail_url: Some(join3("/api/sessions/", id.as_str(), "/thumbnail")),
            fullscreen_on_connect: self.fullscreen_on_connect,
            autohide_side_tabs: self.autohide_side_tabs,
            drive_enabled: self.drive_enabled,
            owner_instance: None,
            owner_base_url: None,
            remote: false,
        }
    }
}

// ── Sessions of other instances ──
/// A row of the session registry that instances share.
#[derive(Debug)]
pub struct SessionRegistryRow {
    pub session_id: String,
    pub owner_instance: String,
    pub owner_base_url: String,
    pub session_type: String,
    pub status: String,
    pub hostname: String,
    pub username: String,
    pub created_by: String,
    pub created_at: String,
    pub shadow_token_hash: Option<String>,
    pub shadow_issued_by: Option<String>,
    pub shadow_expires_at: Option<String>,
}

/// The text of a name in a registry row: the lower-case name, read as the
/// inside of a JSON string.
pub open spec fn row_name(text: Seq<char>) -> Option<Seq<char>> {
    string_in("\""@ + lowercase(text) + "\""@)
}

fn read_row_name(text: &str) -> (r: Option<String>)
    ensures
        opt_text(r) == row_name(text@),
{
    let low = to_lowercase(text);
    let literal = join3("\"", low.as_str(), "\"");
    read_string(literal.as_str())
}

/// The session type of a name; SSH for a name that is none.
pub open spec fn named_type(name: Option<Seq<char>>) -> SessionType {
    if name == Some("web"@) {
        SessionType::Web
    } else if name == Some("rdp"@) {
        SessionType::Rdp
    } else if name == Some("vnc"@) {
        SessionType::Vnc
    } else if name == Some("vdi"@) {
        SessionType::Vdi
    } else if name == Some("spice"@) {
        SessionType::Spice
    } else if name == Some("proxmox"@) {
        SessionType::Proxmox
    } else {
        SessionType::Ssh
    }
}

/// The session type of a name; SSH for a name that is none.
pub fn type_of_name(name: Option<&str>) -> (r: SessionType)
    ensures
        r == named_type(opt_str(name)),
{
    match name {
        None => SessionType::Ssh,
        Some(n) => {
            if same_text(n, "web") {
                SessionType::Web
            } else if same_text(n, "rdp") {
                SessionType::Rdp
            } else if same_text(n, "vnc") {
                SessionType::Vnc
            } else if same_text(n, "vdi") {
                SessionType::Vdi
            } else if same_text(n, "spice") {
                SessionType::Spice
            } else if same_text(n, "proxmox") {
                SessionType::Proxmox
            } else {
                SessionType::Ssh
            }
        },
    }
}

/// The status of a name; `Error` for a name that is none.
pub open spec fn named_status(name: Option<Seq<char>>) -> SessionStatus {
    if name == Some("pending"@) {
        SessionStatus::Pending
    } else if name == Some("active"@) {
        SessionStatus::Active
    } else if name == Some("completed"@) {
        SessionStatus::Completed
    } else if name == Some("expired"@) {
        SessionStatus::Expired
    } else if name == Some("disconnected"@) {
        SessionStatus::Disconnected
    } else if name == Some("loggedout"@) {
        SessionStatus::LoggedOut
    } else {
        SessionStatus::Error
    }
}

/// The status of a name; `Error` for a name that is none.
pub fn status_of_name(name: Option<&str>) -> (r: SessionStatus)
    ensures
        r == named_status(opt_str(name)),
{
    match name {
        None => SessionStatus::Error,
        Some(n) => {
            if same_text(n, "pending") {
                SessionStatus::Pending
            } else if same_text(n, "active") {
                SessionStatus::Active
            } else if same_text(n, "completed") {
                SessionStatus::Completed
            } else if same_text(n, "expired") {
                SessionStatus::Expired
            } else if same_text(n, "disconnected") {
                SessionStatus::Disconnected
            } else if same_text(n, "loggedout") {
                SessionStatus::LoggedOut
            } else {
                SessionStatus::Error
            }
        },
    }
}

impl SessionRegistryRow {
    /// Whether `info` shows this row as a session of another instance, where
    /// the row's identifier, names and creation time read as given.
    pub open spec fn shown_by(
        &self,
        info: SessionInfo,
        id: u128,
        kind_name: Option<Seq<char>>,
        status_name: Option<Seq<char>>,
        created: Option<i64>,
        now: Timestamp,
    ) -> bool {
        &&& info.session_id == id
        &&& info.session_type == named_type(kind_name)
        &&& info.status == named_status(status_name)
        &&& info.created_at == match created {
            Some(secs) => Timestamp { secs, nanos: 0 },
            None => now,
        }
        &&& info.last_activity is None
        &&& info.ended_at is None
        &&& info.client_url@ == "/client/"@ + uuid_text(id)
        &&& info.share_url is None
        &&& info.ws_url@ == "/ws/"@ + uuid_text(id)
        &&& info.hostname == self.hostname
        &&& info.username == self.username
        &&& info.active_connections == 0
        &&& info.created_by == self.created_by
        &&& info.banner is None
        &&& info.url is None
        &&& info.address_book_entry is None
        &&& info.address_book_folder is None
        &&& info.entry_display_name is None
        &&& info.thumbnail_url is None
        &&& !info.fullscreen_on_connect
        &&& !info.autohide_side_tabs
        &&& !info.drive_enabled
        &&& info.owner_instance == Some(self.owner_instance)
        &&& info.owner_base_url == if self.owner_base_url@.len() == 0 {
            None
        } else {
            Some(self.owner_base_url)
        }
        &&& info.remote
    }
}

impl SessionInfo {
    /// What the API shows of a registry row, once its identifier, names and
    /// creation time are read.
    pub fn of_row(
        row: &SessionRegistryRow,
        id: u128,
        kind_name: Option<&str>,
        status_name: Option<&str>,
        created: Option<i64>,
        now: Timestamp,
    ) -> (r: SessionInfo)
        ensures
            row.shown_by(r, id, opt_str(kind_name), opt_str(status_name), created, now),
    {
        let text = uuid_string(id);
        SessionInfo {
            session_id: id,
            session_type: type_of_name(kind_name),
            status: status_of_name(status_name),
            created_at: match created {
                Some(secs) => Timestamp::at_second(secs),
                None => now,
            },
            last_activity: None,
            ended_at: None,
            client_url: join2("/client/", text.as_str()),
            share_url: None,
            ws_url: join2("/ws/", text.as_str()),
            hostname: row.hostname.clone(),
            username: row.username.clone(),
            active_connections: 0,
            created_by: row.created_by.clone(),
            banner: None,
            url: None,
            address_book_entry: None,
            address_book_folder: None,
            entry_display_name: None,
            thumbnail_url: None,
            fullscreen_on_connect: false,
            autohide_side_tabs: false,
            drive_enabled: false,
            owner_instance: Some(row.owner_instance.clone()),
            owner_base_url: if row.owner_base_url.as_str().is_empty() {
                None
            } else {
                Some(row.owner_base_url.clone())
            },
            remote: true,
        }
    }

    /// What the API shows of a registry row; nothing where the row's
    /// identifier is none.
    pub fn from_registry(row: &SessionRegistryRow, now: Timestamp) -> (r: Option<SessionInfo>)
        ensures
            r is Some <==> uuid_of(row.session_id@) is Some,
            r is Some ==> row.shown_by(
                r->0,
                uuid_of(row.session_id@)->0,
                row_name(row.session_type@),
                row_name(row.status@),
                registry_second(row.created_at@),
                now,
            ),
    {
        let kind_name = read_row_name(row.session_type.as_str());
        let status_name = read_row_name(row.status.as_str());
        let created = parse_registry_time(row.created_at.as_str());
        match parse_uuid(row.session_id.as_str()) {
            None => None,
            Some(id) => Some(
                SessionInfo::of_row(
                    row,
                    id,
                    borrow_opt(&kind_name),
                    borrow_opt(&status_name),
                    created,
                    now,
                ),
            ),
        }
    }
}

} // verus!
