//! What a plan makes of a request: what was asked for is what guacd is told,
//! and a default is used only where nothing was asked for.

use crate::config::{Config, DriveConfig, VdiConfig};
use crate::guacd;
use crate::json::{json_of, string_member, JsonText};
use crate::net_util::UrlParts;
use crate::outside::{percent_bytes, percent_encoded, unreserved, upper_hex_char};
use crate::pve::PveSpiceConfig;
use crate::session::create::ProtocolDefaults;
use crate::session::names::container_user;
use crate::session::plan::{
    allowed_for, autofill_credentials, autofill_of, client_template, connection_name, container_for,
    env_value, extra_monitors, file_transfer, hops_verdict, image_allowed, key_banner, not_blank,
    proxmox_of, proxmox_params_for, proxmox_refusal, rdp_params_for, session_for, spice_params_for,
    ssh_params_for, template_refusal, tunnelled_url, vdi_params_for, vdi_refusal, web_endpoint_of,
    web_tunnel_target, web_url_of, with_credentials, ContainerInfo, ContainerSpec, DisplaySize,
    EntryTexts, EphemeralKey, SessionParts, SessionPlan, Typescript,
};
use crate::session::types::{
    CreateSessionRequest, JumpHost, ProxmoxParams, Session, SessionError, SessionStatus,
    SessionType,
};
use crate::text::{digits, has_sub, lemma_replaced_absent, occurs_at, replaced, trimmed};
use crate::text_laws::law_replacing;
use crate::time::Timestamp;
use vstd::prelude::*;
use vstd::string::*;
use vstd::utf8::*;

verus! {

// ── SSH ──
/// An SSH session logs in at the requested host with the request's own
/// credentials: its password, and its private key unless a key pair was made
/// for the session.
pub proof fn law_ssh_logs_in_as_asked(
    p: guacd::SshParams,
    req: CreateSessionRequest,
    config: Config,
    size: DisplaySize,
    drive_enabled: bool,
    drive: DriveConfig,
    key: Option<EphemeralKey>,
    typescript: Option<Typescript>,
)
    requires
        ssh_params_for(p, req, config, size, drive_enabled, drive, key, typescript),
        req.hostname is Some,
    ensures
        p.hostname == req.hostname->0,
        req.port is Some ==> p.port == req.port->0,
        req.port is None ==> p.port == 22,
        req.username is Some ==> p.username@ == req.username->0@,
        req.username is None ==> p.username@.len() == 0,
        p.password is Some <==> req.password is Some,
        req.password is Some ==> p.password->0 == req.password->0,
        key is Some ==> p.private_key == Some(key->0.private_key),
        key is None && req.ssh is Some ==> p.private_key == req.ssh->0.private_key,
        key is None && req.ssh is None ==> p.private_key is None,
{
}

/// An SSH session shows the size that was settled, moves files and the
/// clipboard only as allowed, and keeps a typescript where there is one.
pub proof fn law_ssh_keeps_to_its_limits(
    p: guacd::SshParams,
    req: CreateSessionRequest,
    config: Config,
    size: DisplaySize,
    drive_enabled: bool,
    drive: DriveConfig,
    key: Option<EphemeralKey>,
    typescript: Option<Typescript>,
)
    requires
        ssh_params_for(p, req, config, size, drive_enabled, drive, key, typescript),
    ensures
        p.width == size.width && p.height == size.height && p.dpi == size.dpi,
        p.enable_sftp <==> drive_enabled,
        p.sftp_disable_download <==> !drive.allow_download,
        p.sftp_disable_upload <==> !drive.allow_upload,
        p.disable_copy <==> req.disable_copy == Some(true),
        p.disable_paste <==> req.disable_paste == Some(true),
        p.scrollback == config.ssh_scrollback,
        typescript is Some ==> p.typescript_path == Some(typescript->0.path) && p.typescript_name
            == Some(typescript->0.name) && p.create_typescript_path == typescript->0.create_path,
        typescript is None ==> p.typescript_path is None && p.typescript_name is None
            && !p.create_typescript_path,
        p.command is Some <==> config.ssh_tmux_detach,
        p.command is Some ==> p.command->0@
            == "tmux attach-session -d 2>/dev/null || tmux new-session"@,
{
}

/// The banner of a key pair names the key to install and the account to
/// install it for, behind the request's own banner.
pub proof fn law_key_banner_shows_the_key(
    username: Seq<char>,
    public_key: Seq<char>,
    banner: Option<Seq<char>>,
)
    ensures
        has_sub(key_banner(username, public_key, banner), public_key + " persea-ephemeral"@),
        banner is Some ==> banner->0.is_prefix_of(key_banner(username, public_key, banner)),
        username.len() > 0 ==> has_sub(
            key_banner(username, public_key, banner),
            "~"@ + username + "/.ssh/authorized_keys"@,
        ),
        username.len() == 0 ==> has_sub(
            key_banner(username, public_key, banner),
            "~/.ssh/authorized_keys"@,
        ),
        has_sub(key_banner(username, public_key, banner), "Do not click Continue"@),
{
    let path = if username.len() == 0 {
        "~/.ssh/authorized_keys"@
    } else {
        "~"@ + username + "/.ssh/authorized_keys"@
    };
    let head = match banner {
        Some(b) => b + "\n\n"@,
        None => Seq::empty(),
    };
    let a = "Add this public key to "@;
    let b = " on the target host:\n\n"@;
    let own = public_key + " persea-ephemeral"@;
    let last = "\n\nDo not click Continue until the key is installed — authentication will fail."@;
    let all = key_banner(username, public_key, banner);
    assert(all =~= head + a + path + b + own + last);
    let at = (head + a + path + b).len() as int;
    assert(all.subrange(at, at + own.len()) =~= own);
    assert(occurs_at(all, own, at));
    let at2 = (head + a).len() as int;
    assert(all.subrange(at2, at2 + path.len()) =~= path);
    assert(occurs_at(all, path, at2));
    if banner is Some {
        assert(all.subrange(0, banner->0.len() as int) =~= banner->0);
    }
    reveal_strlit("Do not click Continue");
    reveal_strlit("\n\nDo not click Continue until the key is installed — authentication will fail.");
    let word = "Do not click Continue"@;
    let at3 = at + own.len() + 2;
    assert(all.subrange(at3, at3 + word.len()) =~= word);
    assert(occurs_at(all, word, at3));
}

/// The connection of a typescript is the entry's own name, or its host.
pub proof fn law_connection_name(entry_name: Option<String>, hostname: Seq<char>)
    ensures
        entry_name is Some && entry_name->0@.len() > 0 ==> connection_name(entry_name, hostname)
            == entry_name->0@,
        entry_name is None || entry_name->0@.len() == 0 ==> connection_name(entry_name, hostname)
            == hostname,
{
}

// ── RDP ──
/// An RDP session logs in at the requested host with the request's own
/// credentials: the password that guacd gets is there exactly where the
/// request has one, and is that one.
pub proof fn law_rdp_logs_in_as_asked(
    p: guacd::RdpParams,
    req: CreateSessionRequest,
    config: Config,
    defaults: ProtocolDefaults,
    size: DisplaySize,
    drive_path: Option<String>,
    drive: DriveConfig,
    client_name: Option<String>,
)
    requires
        rdp_params_for(p, req, config, defaults, size, drive_path, drive, client_name),
        req.hostname is Some,
    ensures
        p.hostname == req.hostname->0,
        req.port is Some ==> p.port == req.port->0,
        req.port is None ==> p.port == 3389,
        req.username is Some ==> p.username@ == req.username->0@,
        req.username is None ==> p.username@.len() == 0,
        p.password is Some <==> req.password is Some,
        req.password is Some ==> p.password->0 == req.password->0,
        req.rdp is Some ==> p.domain == req.rdp->0.domain,
        req.rdp is None ==> p.domain is None,
        p.client_name == client_name,
{
}

/// What an RDP request says wins over the administrator's default, which wins
/// over what the program would do.
pub proof fn law_rdp_prefers_the_request(
    p: guacd::RdpParams,
    req: CreateSessionRequest,
    config: Config,
    defaults: ProtocolDefaults,
    size: DisplaySize,
    drive_path: Option<String>,
    drive: DriveConfig,
    client_name: Option<String>,
)
    requires
        rdp_params_for(p, req, config, defaults, size, drive_path, drive, client_name),
    ensures
        req.rdp is Some && req.rdp->0.security is Some ==> p.security == req.rdp->0.security,
        req.rdp is None || req.rdp->0.security is None ==> p.security == defaults.rdp_security,
        req.rdp is Some && req.rdp->0.enable_gfx is Some ==> p.enable_gfx
            == req.rdp->0.enable_gfx->0,
        req.rdp is None || req.rdp->0.enable_gfx is None ==> p.enable_gfx == defaults.rdp_gfx,
        req.rdp is Some && req.rdp->0.enable_h264 is Some ==> p.enable_h264
            == req.rdp->0.enable_h264->0,
        req.rdp is None || req.rdp->0.enable_h264 is None ==> p.enable_h264 == defaults.rdp_h264,
        p.ignore_cert <==> req.ignore_cert == Some(true),
        p.enable_desktop_composition <==> req.rdp is Some
            && req.rdp->0.enable_desktop_composition == Some(true),
        p.enable_wallpaper <==> req.rdp is Some && req.rdp->0.enable_wallpaper == Some(true),
        p.enable_theming <==> req.rdp is Some && req.rdp->0.enable_theming == Some(true),
        p.enable_full_window_drag <==> req.rdp is Some && req.rdp->0.enable_full_window_drag
            == Some(true),
        p.force_lossless <==> req.rdp is Some && req.rdp->0.force_lossless == Some(true),
        req.rdp is Some ==> p.kdc_url == req.rdp->0.kdc_url && p.kerberos_cache
            == req.rdp->0.kerberos_cache,
        req.rdp is Some ==> p.remote_app == req.rdp->0.remote_app && p.remote_app_dir
            == req.rdp->0.remote_app_dir && p.remote_app_args == req.rdp->0.remote_app_args,
        req.rdp is None ==> p.kdc_url is None && p.kerberos_cache is None && p.remote_app is None
            && p.remote_app_dir is None && p.remote_app_args is None,
        req.max_monitors is Some && req.max_monitors->0 > 0 ==> p.secondary_monitors + 1
            == req.max_monitors->0,
        req.max_monitors is None || req.max_monitors->0 == 0 ==> p.secondary_monitors == 0,
{
}

/// The authentication package of an RDP session: the request's, else the
/// server's, else NTLM; a blank one counts for nothing.
pub proof fn law_rdp_auth_package(
    p: guacd::RdpParams,
    req: CreateSessionRequest,
    config: Config,
    defaults: ProtocolDefaults,
    size: DisplaySize,
    drive_path: Option<String>,
    drive: DriveConfig,
    client_name: Option<String>,
)
    requires
        rdp_params_for(p, req, config, defaults, size, drive_path, drive, client_name),
    ensures
        p.auth_pkg is Some,
        ({
            let own = req.rdp is Some && req.rdp->0.auth_pkg is Some && trimmed(
                req.rdp->0.auth_pkg->0@,
            ).len() > 0;
            let server = config.rdp is Some && config.rdp->0.default_auth_pkg is Some && trimmed(
                config.rdp->0.default_auth_pkg->0@,
            ).len() > 0;
            &&& own ==> p.auth_pkg->0@ == trimmed(req.rdp->0.auth_pkg->0@)
            &&& !own && server ==> p.auth_pkg->0@ == trimmed(config.rdp->0.default_auth_pkg->0@)
            &&& !own && !server ==> p.auth_pkg->0@ == "ntlm"@
        }),
{
}

/// An RDP session shows the size that was settled, and moves files and the
/// clipboard only as allowed: without a directory there is no drive.
pub proof fn law_rdp_keeps_to_its_limits(
    p: guacd::RdpParams,
    req: CreateSessionRequest,
    config: Config,
    defaults: ProtocolDefaults,
    size: DisplaySize,
    drive_path: Option<String>,
    drive: DriveConfig,
    client_name: Option<String>,
)
    requires
        rdp_params_for(p, req, config, defaults, size, drive_path, drive, client_name),
    ensures
        p.width == size.width && p.height == size.height && p.dpi == size.dpi,
        p.enable_drive <==> drive_path is Some,
        p.drive_path == drive_path,
        p.drive_name == drive.drive_name,
        p.disable_download <==> !drive.allow_download,
        p.disable_upload <==> !drive.allow_upload,
        p.disable_copy <==> req.disable_copy == Some(true),
        p.disable_paste <==> req.disable_paste == Some(true),
{
}

/// Without a template of its own a configuration names clients by user and
/// host.
pub proof fn law_client_template(config: Config)
    ensures
        config.rdp is Some && config.rdp->0.client_name_template is Some ==> client_template(config)
            == config.rdp->0.client_name_template->0@,
        config.rdp is None || config.rdp->0.client_name_template is None ==> client_template(config)
            == "{user}@{host}"@,
{
}

// ── SPICE and Proxmox ──
/// A SPICE session goes to the requested host with the request's own
/// credentials and TLS settings.
pub proof fn law_spice_connects_as_asked(req: CreateSessionRequest, size: DisplaySize)
    requires
        req.hostname is Some,
    ensures
        ({
            let p = spice_params_for(req, size);
            &&& p.hostname == req.hostname->0
            &&& req.port is Some ==> p.port == req.port->0
            &&& req.port is None ==> p.port == 5900
            &&& p.password == req.password
            &&& p.username == req.username
            &&& p.tls <==> req.spice is Some && req.spice->0.spice_tls == Some(true)
            &&& req.spice is Some ==> p.tls_port == req.spice->0.spice_tls_port && p.ca_cert
                == req.spice->0.spice_ca_cert && p.cert_subject == req.spice->0.spice_cert_subject
                && p.proxy == req.spice->0.spice_proxy
            &&& req.spice is None ==> p.tls_port is None && p.ca_cert is None && p.cert_subject
                is None && p.proxy is None
            &&& p.ignore_cert <==> req.ignore_cert == Some(true)
            &&& req.vnc is Some ==> p.color_depth == req.vnc->0.color_depth
            &&& req.vnc is None ==> p.color_depth is None
            &&& p.width == size.width && p.height == size.height && p.dpi == size.dpi
            &&& p.disable_copy <==> req.disable_copy == Some(true)
            &&& p.disable_paste <==> req.disable_paste == Some(true)
            &&& !p.enable_audio
            &&& req.max_monitors is Some && req.max_monitors->0 > 0 ==> p.secondary_monitors + 1
                == req.max_monitors->0
            &&& req.max_monitors is None || req.max_monitors->0 == 0 ==> p.secondary_monitors == 0
        }),
{
}

/// A Proxmox console is opened with what the broker handed out: over TLS, with
/// the ticket as its password, through the broker's proxy or the tunnel to it.
/// The certificate is checked exactly where that was asked for.
pub proof fn law_proxmox_uses_the_ticket(
    p: guacd::SpiceParams,
    req: CreateSessionRequest,
    size: DisplaySize,
    verify_tls: bool,
    cfg: PveSpiceConfig,
    tunnel: Option<Seq<char>>,
)
    requires
        proxmox_params_for(p, req, size, verify_tls, cfg, tunnel),
    ensures
        p.password is Some && p.password->0 == cfg.ticket,
        p.hostname == cfg.host,
        p.port == 0,
        p.tls && p.tls_port == Some(cfg.tls_port),
        p.username == req.username,
        p.ignore_cert <==> !verify_tls,
        verify_tls ==> p.ca_cert == Some(cfg.ca_cert) && p.cert_subject == Some(cfg.host_subject),
        !verify_tls ==> p.ca_cert is None && p.cert_subject is None,
        p.proxy is Some,
        tunnel is None ==> p.proxy->0@ == cfg.proxy@,
        tunnel is Some ==> p.proxy->0@ == "http://"@ + tunnel->0,
        p.width == size.width && p.height == size.height && p.dpi == size.dpi,
        p.disable_copy <==> req.disable_copy == Some(true),
        p.disable_paste <==> req.disable_paste == Some(true),
        req.vnc is Some ==> p.color_depth == req.vnc->0.color_depth,
        req.vnc is None ==> p.color_depth is None,
        !p.enable_audio,
        req.max_monitors is Some && req.max_monitors->0 > 0 ==> p.secondary_monitors + 1
            == req.max_monitors->0,
        req.max_monitors is None || req.max_monitors->0 == 0 ==> p.secondary_monitors == 0,
{
}

/// A Proxmox request is refused exactly where it names no machine, or lacks
/// either half of its API token.
pub proof fn law_proxmox_needs_machine_and_token(p: ProxmoxParams)
    ensures
        proxmox_refusal(p) is None <==> {
            &&& p.proxmox_vmid is Some && p.proxmox_vmid->0 != 0
            &&& p.proxmox_token_id is Some && p.proxmox_token_id->0@.len() > 0
            &&& p.proxmox_token_secret is Some && p.proxmox_token_secret->0@.len() > 0
        },
{
}

/// A node counts where it is not blank.
pub proof fn law_blank_is_no_node(o: Option<String>)
    ensures
        not_blank(o) is Some <==> o is Some && trimmed(o->0@).len() > 0,
        not_blank(o) is Some ==> not_blank(o) == o,
{
}

// ── VDI ──
/// A VDI session logs into its own container with the container's credentials,
/// and moves no files.
pub proof fn law_vdi_logs_into_its_container(
    p: guacd::RdpParams,
    req: CreateSessionRequest,
    size: DisplaySize,
    spec: ContainerSpec,
    info: ContainerInfo,
)
    requires
        vdi_params_for(p, req, size, spec, info),
    ensures
        p.hostname == info.rdp_host,
        p.port == info.rdp_port,
        p.username == spec.username,
        p.password is Some && p.password->0 == spec.password,
        p.ignore_cert,
        !p.enable_drive && p.drive_path is None && p.disable_download && p.disable_upload,
        p.domain is None && p.security is None && p.client_name is None && p.auth_pkg is None,
        p.remote_app is None && p.remote_app_dir is None && p.remote_app_args is None,
        p.kdc_url is None && p.kerberos_cache is None,
        p.width == size.width && p.height == size.height && p.dpi == size.dpi,
        p.disable_copy <==> req.disable_copy == Some(true),
        p.disable_paste <==> req.disable_paste == Some(true),
        p.enable_gfx && p.enable_desktop_composition && p.enable_h264,
        !p.enable_wallpaper && !p.enable_theming && !p.enable_full_window_drag
            && !p.force_lossless,
        p.drive_name@.len() == 0,
        req.max_monitors is Some && req.max_monitors->0 > 0 ==> p.secondary_monitors + 1
            == req.max_monitors->0,
        req.max_monitors is None || req.max_monitors->0 == 0 ==> p.secondary_monitors == 0,
{
}

/// The container of a VDI session runs the requested image under the limits of
/// the request, or else of the configuration. Its password is the request's
/// own, or the one that was made for it; what the container is told about its
/// account is what guacd logs in with.
pub proof fn law_container_is_as_asked(
    spec: ContainerSpec,
    config: Config,
    req: CreateSessionRequest,
    created_by: Seq<char>,
    generated: String,
)
    requires
        container_for(spec, config, req, created_by, generated),
        config.vdi is Some,
        req.vdi is Some,
    ensures
        req.vdi->0.container_image == Some(spec.image),
        req.vdi->0.container_password is Some && req.vdi->0.container_password->0@.len() > 0
            ==> spec.password == req.vdi->0.container_password->0,
        req.vdi->0.container_password is None || req.vdi->0.container_password->0@.len() == 0
            ==> spec.password == generated,
        req.vdi->0.container_cpu_limit is Some ==> spec.cpu_limit
            == req.vdi->0.container_cpu_limit->0,
        req.vdi->0.container_cpu_limit is None ==> spec.cpu_limit
            == config.vdi->0.default_cpu_limit,
        req.vdi->0.container_memory_limit is Some ==> spec.memory_limit
            == req.vdi->0.container_memory_limit->0 * 1_048_576,
        req.vdi->0.container_memory_limit is None ==> spec.memory_limit
            == config.vdi->0.default_memory_limit * 1_048_576,
        env_value(spec.env@, "VDI_USERNAME"@) == Some(spec.username@),
        env_value(spec.env@, "VDI_PASSWORD"@) == Some(spec.password@),
        forall|k: Seq<char>|
            req.vdi->0.container_env is Some && k != "VDI_USERNAME"@ && k != "VDI_PASSWORD"@
                ==> #[trigger] env_value(spec.env@, k) == env_value(
                req.vdi->0.container_env->0@,
                k,
            ),
        spec.home_base == config.vdi->0.home_base,
        spec.entry_key == req.address_book_entry,
        spec.idle_timeout_mins == req.vdi->0.container_idle_timeout_mins,
        container_user(
            match req.vdi->0.container_username {
                Some(u) => Some(u@),
                None => None,
            },
            created_by,
        ) == Ok::<Seq<char>, Seq<char>>(spec.username@),
{
}

/// A variable has the value that the first pair with its name gives it.
pub proof fn law_first_variable_counts(env: Seq<(String, String)>, key: Seq<char>, k: int)
    requires
        0 <= k <= env.len(),
        forall|i: int| 0 <= i < k ==> (#[trigger] env[i]).0@ != key,
    ensures
        k < env.len() && env[k].0@ == key ==> env_value(env, key) == Some(env[k].1@),
        k == env.len() ==> env_value(env, key) is None,
    decreases k,
{
    if k > 0 {
        assert(env[0].0@ != key);
        assert forall|i: int| 0 <= i < k - 1 implies (#[trigger] env.skip(1)[i]).0@ != key by {
            assert(env.skip(1)[i] == env[i + 1]);
        }
        law_first_variable_counts(env.skip(1), key, k - 1);
    }
}

/// VDI sessions run only where the feature is on and its driver is ready, and
/// an allowlist of images, where there is one, is kept to.
pub proof fn law_vdi_is_guarded(
    config: Config,
    req: CreateSessionRequest,
    ready: bool,
    vdi: VdiConfig,
    image: Seq<char>,
)
    ensures
        vdi_refusal(config, req, ready) is None <==> config.vdi is Some && config.vdi->0.enabled
            && ready,
        image_allowed(vdi, image) <==> vdi.allowed_images@.len() == 0 || exists|i: int|
            0 <= i < vdi.allowed_images@.len() && (#[trigger] vdi.allowed_images@[i])@ == image,
{
    let t = crate::text::texts(vdi.allowed_images@);
    if t.contains(image) {
        let i = choose|i: int| 0 <= i < t.len() && t[i] == image;
        assert(vdi.allowed_images@[i]@ == image);
    }
    if exists|i: int|
        0 <= i < vdi.allowed_images@.len() && (#[trigger] vdi.allowed_images@[i])@ == image {
        let i = choose|i: int|
            0 <= i < vdi.allowed_images@.len() && (#[trigger] vdi.allowed_images@[i])@ == image;
        assert(t[i] == image);
    }
}

// ── Web ──
/// Only pages over HTTP and HTTPS are opened, and only where the address names
/// a host. The port is the one that the address writes, or its scheme's.
pub proof fn law_web_addresses(u: UrlParts, e: Seq<char>)
    ensures
        template_refusal(Err(e)) is Some,
        template_refusal(Ok(u)) is None <==> u.scheme == "http"@ || u.scheme == "https"@,
        web_endpoint_of(Err(e)) is Err,
        web_endpoint_of(Ok(u)) is Ok <==> (u.scheme == "http"@ || u.scheme == "https"@) && u.host
            is Some,
        web_endpoint_of(Ok(u)) is Ok ==> web_endpoint_of(Ok(u))->Ok_0.0 == u.host->0,
        web_endpoint_of(Ok(u)) is Ok && u.port is Some ==> web_endpoint_of(Ok(u))->Ok_0.1
            == u.port->0,
        web_endpoint_of(Ok(u)) is Ok && u.port is None && u.scheme == "https"@
            ==> web_endpoint_of(Ok(u))->Ok_0.1 == 443,
        web_endpoint_of(Ok(u)) is Ok && u.port is None && u.scheme == "http"@
            ==> web_endpoint_of(Ok(u))->Ok_0.1 == 80,
{
    reveal_strlit("http");
    reveal_strlit("https");
    assert("http"@.len() == 4 && "https"@.len() == 5);
}

/// The tunnel of a web session leads to the host and port of its address, and
/// the browser asks the tunnel's local end for the same page.
pub proof fn law_web_tunnel_leads_to_the_page(u: UrlParts, port: u16)
    ensures
        u.host is Some ==> web_tunnel_target(u).0 == u.host->0,
        u.host is None ==> web_tunnel_target(u).0 == "localhost"@,
        u.known_port is Some ==> web_tunnel_target(u).1 == u.known_port->0,
        u.known_port is None ==> web_tunnel_target(u).1 == 80,
        (u.scheme + "://127.0.0.1:"@ + digits(port as nat)).is_prefix_of(tunnelled_url(u, port)),
        tunnelled_url(u, port).skip(
            (u.scheme + "://127.0.0.1:"@ + digits(port as nat)).len() as int,
        ) == match u.query {
            Some(q) => u.path + "?"@ + q,
            None => u.path,
        },
{
    let head = u.scheme + "://127.0.0.1:"@ + digits(port as nat);
    let all = tunnelled_url(u, port);
    assert(all.subrange(0, head.len() as int) =~= head);
    assert(all.skip(head.len() as int) =~= match u.query {
        Some(q) => u.path + "?"@ + q,
        None => u.path,
    });
}

/// The page of a web request is the one that it names.
pub proof fn law_web_page_is_the_requested(req: CreateSessionRequest)
    ensures
        req.web is Some && req.web->0.url is Some ==> web_url_of(req) == Some(req.web->0.url->0@),
        req.web is None || req.web->0.url is None ==> web_url_of(req) is None,
{
}

/// The entries for autofill are those of the request's list, each by its URL,
/// user name and password; what is no list has none.
pub proof fn law_autofill_is_read(json: Seq<char>, v: Seq<Seq<char>>, i: int)
    ensures
        json_of(json) == Ok::<JsonText, Seq<char>>(JsonText::List(v)) ==> autofill_of(json) is Some
            && autofill_of(json)->0.len() == v.len() && (0 <= i < v.len() && json_of(v[i]) is Ok ==> {
            let e = autofill_of(json)->0[i];
            &&& e.0 == string_member(json_of(v[i])->Ok_0, "url"@)
            &&& e.1 == string_member(json_of(v[i])->Ok_0, "username"@)
            &&& e.2 == string_member(json_of(v[i])->Ok_0, "password"@)
        }),
        !(json_of(json) is Ok && json_of(json)->Ok_0 is List) ==> autofill_of(json) is None,
{
}

/// A request's Proxmox machine is the one it names; without any, nothing is
/// known of it.
pub proof fn law_proxmox_of_a_request(req: CreateSessionRequest)
    ensures
        req.proxmox is Some ==> proxmox_of(req) == req.proxmox->0,
        req.proxmox is None ==> proxmox_of(req).proxmox_url is None && proxmox_of(
            req,
        ).proxmox_node is None && proxmox_of(req).proxmox_vmid is None && proxmox_of(
            req,
        ).proxmox_token_id is None && proxmox_of(req).proxmox_token_secret is None && proxmox_of(
            req,
        ).proxmox_verify_tls is None,
{
}

/// A web address gets the user name and the password where it names them,
/// percent-encoded, and an address that names neither is left as it is.
pub proof fn law_web_login(a: Seq<char>, b: Seq<char>, user: Seq<char>, pass: Seq<char>)
    requires
        !a.contains('$'),
        !b.contains('$'),
    ensures
        with_credentials(a, user, pass) == a,
        with_credentials(a + "$RUSTGUAC_USERNAME"@ + b, user, pass) == a + percent_encoded(user)
            + b,
        with_credentials(a + "$RUSTGUAC_PASSWORD"@ + b, user, pass) == a + percent_encoded(pass)
            + b,
{
    let u = "$RUSTGUAC_USERNAME"@;
    let p = "$RUSTGUAC_PASSWORD"@;
    let eu = percent_encoded(user);
    reveal_strlit("$RUSTGUAC_USERNAME");
    reveal_strlit("$RUSTGUAC_PASSWORD");
    lemma_no_dollar_no_name(a, u);
    lemma_no_dollar_no_name(a, p);
    lemma_no_dollar_no_name(b, u);
    lemma_no_dollar_no_name(b, p);
    lemma_percent_has_no_dollar(encode_utf8(user));
    lemma_only_there(a, u, b, u);
    law_replacing(a, u, b, eu);
    assert(replaced(a + u + b, u, eu) == a + eu + b);
    let t = a + eu + b;
    assert(!t.contains('$')) by {
        if t.contains('$') {
            let k = choose|k: int| 0 <= k < t.len() && t[k] == '$';
            if k < a.len() {
                assert(a[k] == '$');
            } else if k < a.len() + eu.len() {
                assert(eu[k - a.len()] == '$');
            } else {
                assert(b[k - a.len() - eu.len()] == '$');
            }
        }
    }
    lemma_no_dollar_no_name(t, p);
    lemma_only_there(a, p, b, p);
    law_replacing(a, p, b, percent_encoded(pass));
    let w = a + p + b;
    assert(!has_sub(w, u)) by {
        if has_sub(w, u) {
            let k = choose|k: int| occurs_at(w, u, k);
            let x = w.subrange(k, k + u.len() as int);
            assert(x[0] == '$' && x[10] == 'U');
            assert(w[k] == '$' && w[k + 10] == 'U');
            if k < a.len() {
                assert(a[k] == '$');
            } else if k >= a.len() + p.len() {
                assert(b[k - a.len() - p.len()] == '$');
            } else {
                assert(p[k - a.len()] == '$');
                assert(k == a.len());
                assert(w[k + 10] == p[10]);
            }
        }
    }
    lemma_replaced_absent(w, u, eu);
}

proof fn lemma_no_dollar_no_name(s: Seq<char>, pat: Seq<char>)
    requires
        !s.contains('$'),
        pat.len() > 0,
        pat[0] == '$',
    ensures
        !has_sub(s, pat),
        forall|with: Seq<char>| #[trigger] replaced(s, pat, with) == s,
{
    if has_sub(s, pat) {
        let k = choose|k: int| occurs_at(s, pat, k);
        assert(s.subrange(k, k + pat.len() as int)[0] == '$');
        assert(s[k] == '$');
    }
    assert forall|with: Seq<char>| #[trigger] replaced(s, pat, with) == s by {
        lemma_replaced_absent(s, pat, with);
    }
}

proof fn lemma_only_there(a: Seq<char>, m: Seq<char>, b: Seq<char>, pat: Seq<char>)
    requires
        !a.contains('$'),
        pat.len() > 0,
        pat[0] == '$',
    ensures
        forall|i: int| 0 <= i < a.len() ==> !#[trigger] occurs_at(a + m + b, pat, i),
{
    assert forall|i: int| 0 <= i < a.len() implies !#[trigger] occurs_at(a + m + b, pat, i) by {
        if occurs_at(a + m + b, pat, i) {
            assert((a + m + b).subrange(i, i + pat.len() as int)[0] == '$');
            assert((a + m + b)[i] == '$');
            assert(a[i] == '$');
        }
    }
}

proof fn lemma_percent_has_no_dollar(b: Seq<u8>)
    ensures
        !percent_bytes(b).contains('$'),
    decreases b.len(),
{
    if b.len() > 0 {
        lemma_percent_has_no_dollar(b.drop_last());
        let front = percent_bytes(b.drop_last());
        let t = percent_bytes(b);
        let c = b.last();
        if t.contains('$') {
            let k = choose|k: int| 0 <= k < t.len() && t[k] == '$';
            if k < front.len() {
                assert(front[k] == '$');
            } else if unreserved(c) {
                assert(t[k] == (c as u32) as char);
                assert((c as u32) as char != '$');
            } else {
                assert(upper_hex_char(c as int / 16) != '$');
                assert(upper_hex_char(c as int % 16) != '$');
            }
        }
    }
}

/// Beside the first monitor, a session has one less than it asks for.
pub proof fn law_further_monitors(n: u32)
    ensures
        extra_monitors(None) == 0,
        extra_monitors(Some(0)) == 0,
        n > 0 ==> extra_monitors(Some(n)) == n - 1,
{
}

/// What is said where a plan cannot be made.
pub proof fn law_plan_refusals_in_words(
    config: Config,
    req: CreateSessionRequest,
    ready: bool,
    p: ProxmoxParams,
    u: UrlParts,
    e: Seq<char>,
    why: SessionError,
    hops: Vec<JumpHost>,
    host: Option<String>,
    port: Option<u16>,
    user: Option<String>,
    pass: Option<String>,
    key: Option<String>,
)
    ensures
        config.vdi is None || !config.vdi->0.enabled ==> vdi_refusal(config, req, ready) == Some(
            "VDI feature is not enabled"@,
        ),
        config.vdi is Some && config.vdi->0.enabled && !ready ==> vdi_refusal(config, req, ready)
            == Some("VDI driver not initialized"@),
        p.proxmox_vmid is None || p.proxmox_vmid == Some(0u32) ==> proxmox_refusal(p) == Some(
            "Proxmox sessions require proxmox_vmid"@,
        ),
        p.proxmox_vmid is Some && p.proxmox_vmid->0 > 0 && p.proxmox_token_id is None
            ==> proxmox_refusal(p) == Some(
            "Proxmox API token ID is required (format user@realm!tokenid, e.g. root@pam!persea)"@,
        ),
        p.proxmox_vmid is Some && p.proxmox_vmid->0 > 0 && p.proxmox_token_id is Some
            && p.proxmox_token_id->0@.len() > 0 && p.proxmox_token_secret is None
            ==> proxmox_refusal(p) == Some("Proxmox API token secret is required"@),
        template_refusal(Err(e)) == Some("invalid URL: "@ + e),
        u.scheme != "http"@ && u.scheme != "https"@ ==> template_refusal(Ok(u)) == Some(
            "URL scheme '"@ + u.scheme + "' not allowed (must be http or https)"@,
        ),
        web_endpoint_of(Err(e)) == Err::<(Seq<char>, u16), Seq<char>>(
            "URL invalid after credential substitution: "@ + e,
        ),
        u.scheme != "http"@ && u.scheme != "https"@ ==> web_endpoint_of(Ok(u)) == Err::<
            (Seq<char>, u16),
            Seq<char>,
        >("URL scheme '"@ + u.scheme + "' after substitution not allowed"@),
        (u.scheme == "http"@ || u.scheme == "https"@) && u.host is None ==> web_endpoint_of(Ok(u))
            == Err::<(Seq<char>, u16), Seq<char>>("URL has no host"@),
        hops_verdict(Err(why), Some(hops), host, port, user, pass, key) ==> hops@.len() > 8 && why
            is ValidationError && why->ValidationError_0@
            == "jump host chain is too long: at most 8 hops are supported (got "@ + digits(
            hops@.len(),
        ) + ")"@,
{
}

/// Autofill gives the browser every complete entry, in order, with the
/// session's own user name and password where the entry leaves room for them,
/// and no other.
pub proof fn law_autofill_is_the_complete_entries(
    entries: Seq<EntryTexts>,
    user: Seq<char>,
    pass: Seq<char>,
)
    ensures
        autofill_credentials(entries, user, pass) == entries.filter(
            |e: EntryTexts| e.0 is Some && e.1 is Some && e.2 is Some,
        ).map_values(
            |e: EntryTexts|
                (
                    e.0->0,
                    replaced(e.1->0, "$USERNAME"@, user),
                    replaced(e.2->0, "$PASSWORD"@, pass),
                ),
        ),
    decreases entries.len(),
{
    reveal(Seq::filter);
    let complete = |e: EntryTexts| e.0 is Some && e.1 is Some && e.2 is Some;
    let filled = |e: EntryTexts|
        (
            e.0->0,
            replaced(e.1->0, "$USERNAME"@, user),
            replaced(e.2->0, "$PASSWORD"@, pass),
        );
    if entries.len() > 0 {
        let front = entries.drop_last();
        law_autofill_is_the_complete_entries(front, user, pass);
        let f = front.filter(complete);
        if complete(entries.last()) {
            assert(f.push(entries.last()).map_values(filled) =~= f.map_values(filled).push(
                filled(entries.last()),
            ));
        }
    } else {
        assert(entries.filter(complete).map_values(filled) =~= Seq::empty());
    }
}

// ── Every protocol ──
/// Sessions of a type are opened to the networks that are configured for it.
pub proof fn law_allowlist_of_each_type(config: Config)
    ensures
        allowed_for(config, SessionType::Ssh) == config.ssh_allowed_networks,
        allowed_for(config, SessionType::Rdp) == config.rdp_allowed_networks,
        allowed_for(config, SessionType::Vnc) == config.vnc_allowed_networks,
        allowed_for(config, SessionType::Spice) == config.vnc_allowed_networks,
        allowed_for(config, SessionType::Web) == config.web_allowed_networks,
        allowed_for(config, SessionType::Proxmox) == config.web_allowed_networks,
        allowed_for(config, SessionType::Vdi) == config.web_allowed_networks,
{
}

/// A display has the size that was asked for, or the default, as far as it is
/// within what guacd takes; otherwise the nearest that is.
pub proof fn law_display_is_as_asked(
    size: DisplaySize,
    req: CreateSessionRequest,
    defaults: ProtocolDefaults,
)
    requires
        size.suits(req, defaults),
    ensures
        640 <= size.width <= 8192 && 480 <= size.height <= 8192 && 16 <= size.dpi <= 384,
        req.width is Some && 640 <= req.width->0 <= 8192 ==> size.width == req.width->0,
        req.height is Some && 480 <= req.height->0 <= 8192 ==> size.height == req.height->0,
        req.dpi is Some && 16 <= req.dpi->0 <= 384 ==> size.dpi == req.dpi->0,
        req.width is None && 640 <= defaults.width <= 8192 ==> size.width == defaults.width,
        req.height is None && 480 <= defaults.height <= 8192 ==> size.height == defaults.height,
        req.dpi is None && 16 <= defaults.dpi <= 384 ==> size.dpi == defaults.dpi,
        req.width is Some && req.width->0 < 640 ==> size.width == 640,
        req.width is Some && req.width->0 > 8192 ==> size.width == 8192,
        req.height is Some && req.height->0 < 480 ==> size.height == 480,
        req.height is Some && req.height->0 > 8192 ==> size.height == 8192,
        req.dpi is Some && req.dpi->0 < 16 ==> size.dpi == 16,
        req.dpi is Some && req.dpi->0 > 384 ==> size.dpi == 384,
{
}

/// Files move only where the configuration, the administrator and the request
/// all agree, and where they do they move.
pub proof fn law_files_move_where_all_agree(
    config: Config,
    req: CreateSessionRequest,
    defaults: ProtocolDefaults,
    allowed: bool,
)
    ensures
        file_transfer(config, req, defaults, allowed) ==> allowed && config.drive is Some
            && config.drive->0.enabled && req.enable_drive != Some(false) && (req.session_type
            == SessionType::Ssh || req.session_type == SessionType::Rdp),
        allowed && config.drive is Some && config.drive->0.enabled && req.enable_drive == Some(
            true,
        ) && (req.session_type == SessionType::Ssh || req.session_type == SessionType::Rdp)
            ==> file_transfer(config, req, defaults, allowed),
        allowed && config.drive is Some && config.drive->0.enabled && req.enable_drive is None
            && req.session_type == SessionType::Ssh ==> file_transfer(
            config,
            req,
            defaults,
            allowed,
        ),
        allowed && config.drive is Some && config.drive->0.enabled && req.enable_drive is None
            && req.session_type == SessionType::Rdp ==> (file_transfer(
            config,
            req,
            defaults,
            allowed,
        ) <==> defaults.rdp_drive != Some(false)),
{
}

/// The hops of a session are the request's chain, or the one host of its flat
/// fields with the credentials that belong to it; none are lost or added, and
/// a chain of up to eight is never refused.
pub proof fn law_hops_are_the_requested(
    r: Result<Vec<JumpHost>, SessionError>,
    jump_hosts: Option<Vec<JumpHost>>,
    jump_host: Option<String>,
    jump_port: Option<u16>,
    jump_username: Option<String>,
    jump_password: Option<String>,
    jump_private_key: Option<String>,
)
    requires
        hops_verdict(
            r,
            jump_hosts,
            jump_host,
            jump_port,
            jump_username,
            jump_password,
            jump_private_key,
        ),
    ensures
        r is Err <==> jump_hosts is Some && jump_hosts->0@.len() > 8,
        r is Ok && jump_hosts is Some ==> r->Ok_0 == jump_hosts->0,
        jump_hosts is None && (jump_host is None || jump_host->0@.len() == 0)
            ==> r->Ok_0@.len() == 0,
        jump_hosts is None && jump_host is Some && jump_host->0@.len() > 0 ==> {
            &&& r->Ok_0@.len() == 1
            &&& r->Ok_0@[0].hostname == jump_host->0
            &&& jump_port is Some ==> r->Ok_0@[0].port == jump_port->0
            &&& jump_port is None ==> r->Ok_0@[0].port == 22
            &&& jump_username is Some ==> r->Ok_0@[0].username@ == jump_username->0@
            &&& jump_username is None ==> r->Ok_0@[0].username@.len() == 0
            &&& r->Ok_0@[0].password == jump_password
            &&& r->Ok_0@[0].private_key == jump_private_key
            &&& r->Ok_0@[0].host_key is None
        },
{
}

/// A new session belongs to whoever created it, holds the connection that was
/// made for it, and waits for its owner; nobody is connected to it and no
/// shadow token opens it.
pub proof fn law_new_session_is_its_creators(
    s: Session,
    req: CreateSessionRequest,
    plan: SessionPlan,
    parts: SessionParts,
    size: DisplaySize,
    now: Timestamp,
)
    requires
        session_for(s, req, plan, parts, size, now),
    ensures
        s.id == parts.id && s.session_type == req.session_type,
        s.status == SessionStatus::Pending,
        s.created_by == parts.created_by && s.user_id == Some(parts.created_by),
        s.source_ip == parts.client_ip,
        s.created_at == now && s.last_activity == now.secs,
        s.active_connections == 0 && !s.cancelled && s.shadow_tokens@.len() == 0,
        s.share_token == parts.share_token,
        s.width == size.width && s.height == size.height,
        match parts.connection {
            Some((stream, id)) => s.guacd_stream == Some(stream) && s.connection_id == id
                && s.deferred_params is None,
            None => s.guacd_stream is None,
        },
        parts.connection is None && plan.banner is Some ==> s.deferred_params == Some(plan.params),
{
}

/// A session shows what its plan says, keeps what was opened for it, and is
/// filed under its address book entry.
pub proof fn law_new_session_keeps_its_plan(
    s: Session,
    req: CreateSessionRequest,
    plan: SessionPlan,
    parts: SessionParts,
    size: DisplaySize,
    now: Timestamp,
)
    requires
        session_for(s, req, plan, parts, size, now),
    ensures
        s.hostname == plan.hostname && s.username == plan.username && s.url == plan.url,
        plan.banner is Some ==> s.banner == plan.banner,
        plan.banner is None ==> s.banner == req.banner,
        s.browser_session == parts.browser && s.tunnels == parts.tunnels && s.login_script_handle
            == parts.login_script,
        s.drive_path == plan.drive_path && s.container_id == plan.container_id && s.container_name
            == plan.container_name,
        s.address_book_entry == req.address_book_entry && s.address_book_folder
            == req.address_book_folder && s.entry_display_name == req.entry_display_name
            && s.max_recordings == req.max_recordings,
        plan.params is Ssh ==> s.drive_enabled == plan.params->Ssh_0.enable_sftp,
        plan.params is Rdp ==> (s.drive_enabled <==> plan.drive_path is Some),
        !(plan.params is Ssh) && !(plan.params is Rdp) ==> !s.drive_enabled,
        s.fullscreen_on_connect <==> req.fullscreen_on_connect == Some(true),
        s.autohide_side_tabs <==> req.autohide_side_tabs == Some(true),
{
}

/// Who may be shown a session, and whether it is recorded: the request decides,
/// within what the administrator allows. Where it says nothing, recordings
/// follow the configuration, and only sessions outside the address book are
/// shared.
pub proof fn law_sharing_and_recording(
    s: Session,
    req: CreateSessionRequest,
    plan: SessionPlan,
    parts: SessionParts,
    size: DisplaySize,
    now: Timestamp,
)
    requires
        session_for(s, req, plan, parts, size, now),
    ensures
        s.recording_enabled ==> parts.recordings_allowed,
        parts.recordings_allowed && req.enable_recording is Some ==> s.recording_enabled
            == req.enable_recording->0,
        parts.recordings_allowed && req.enable_recording is None ==> s.recording_enabled
            == parts.recording_default,
        req.allow_sharing is Some ==> s.share_allowed == req.allow_sharing->0,
        req.allow_sharing is None ==> (s.share_allowed <==> req.address_book_entry is None),
{
}

} // verus!
