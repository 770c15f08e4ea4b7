//! What guacd is told: connection parameters and the join handshake.

use crate::text::{decimal, digits, join3, same_text, texts};
use crate::protocol::{
    frame_outcome, frame_outcomes, frames, outcome, outcomes, remainder, Instruction, InstructionParser,
    ParseError, MAX_PROTOCOL_BUFFER_LEN,
};
use vstd::prelude::*;
use vstd::string::*;

verus! {

/// Parameters of an SSH connection.
#[derive(Debug)]
pub struct SshParams {
    pub hostname: String,
    pub port: u16,
    pub username: String,
    pub password: Option<String>,
    pub private_key: Option<String>,
    pub width: u32,
    pub height: u32,
    pub dpi: u32,
    pub enable_sftp: bool,
    pub sftp_disable_download: bool,
    pub sftp_disable_upload: bool,
    pub disable_copy: bool,
    pub disable_paste: bool,
    pub scrollback: Option<u32>,
    pub typescript_path: Option<String>,
    pub typescript_name: Option<String>,
    pub create_typescript_path: bool,
    pub command: Option<String>,
}

/// Parameters of an RDP connection.
#[derive(Debug)]
pub struct RdpParams {
    pub hostname: String,
    pub port: u16,
    pub username: String,
    pub password: Option<String>,
    pub domain: Option<String>,
    pub security: Option<String>,
    pub client_name: Option<String>,
    pub width: u32,
    pub height: u32,
    pub dpi: u32,
    pub ignore_cert: bool,
    pub enable_drive: bool,
    pub drive_path: Option<String>,
    pub drive_name: String,
    pub disable_download: bool,
    pub disable_upload: bool,
    pub auth_pkg: Option<String>,
    pub kdc_url: Option<String>,
    pub kerberos_cache: Option<String>,
    pub remote_app: Option<String>,
    pub remote_app_dir: Option<String>,
    pub remote_app_args: Option<String>,
    pub disable_copy: bool,
    pub disable_paste: bool,
    pub enable_gfx: bool,
    pub enable_desktop_composition: bool,
    pub enable_wallpaper: bool,
    pub enable_theming: bool,
    pub enable_full_window_drag: bool,
    pub force_lossless: bool,
    pub enable_h264: bool,
    pub secondary_monitors: u32,
}

/// Parameters of a VNC connection.
#[derive(Debug)]
pub struct VncParams {
    pub hostname: String,
    pub port: u16,
    pub password: Option<String>,
    pub color_depth: Option<u8>,
    pub width: u32,
    pub height: u32,
    pub dpi: u32,
    pub disable_copy: bool,
    pub disable_paste: bool,
}

/// Parameters of a SPICE connection.
#[derive(Debug)]
pub struct SpiceParams {
    pub hostname: String,
    pub port: u16,
    pub password: Option<String>,
    pub username: Option<String>,
    pub tls: bool,
    pub tls_port: Option<u16>,
    pub ca_cert: Option<String>,
    pub cert_subject: Option<String>,
    pub ignore_cert: bool,
    pub proxy: Option<String>,
    pub color_depth: Option<u8>,
    pub width: u32,
    pub height: u32,
    pub dpi: u32,
    pub disable_copy: bool,
    pub disable_paste: bool,
    pub enable_audio: bool,
    pub secondary_monitors: u32,
}

/// Parameters of a connection, by protocol.
#[derive(Debug)]
pub enum ConnectionParams {
    Ssh(SshParams),
    Rdp(RdpParams),
    Vnc(VncParams),
    Spice(SpiceParams),
}

impl ConnectionParams {
    /// The host and port that the connection dials: SPICE over TLS uses its
    /// TLS port where it has one.
    pub open spec fn target_spec(self) -> (Seq<char>, u16) {
        match self {
            ConnectionParams::Ssh(p) => (p.hostname@, p.port),
            ConnectionParams::Rdp(p) => (p.hostname@, p.port),
            ConnectionParams::Vnc(p) => (p.hostname@, p.port),
            ConnectionParams::Spice(p) => (
                p.hostname@,
                if p.tls && p.tls_port is Some {
                    p.tls_port->0
                } else {
                    p.port
                },
            ),
        }
    }

    /// The host and port that the connection dials.
    pub fn target(&self) -> (r: (String, u16))
        ensures
            (r.0@, r.1) == self.target_spec(),
    {
        match self {
            ConnectionParams::Ssh(p) => (p.hostname.clone(), p.port),
            ConnectionParams::Rdp(p) => (p.hostname.clone(), p.port),
            ConnectionParams::Vnc(p) => (p.hostname.clone(), p.port),
            ConnectionParams::Spice(p) => {
                let port: u16 = if p.tls {
                    match p.tls_port {
                        Some(t) => t,
                        None => p.port,
                    }
                } else {
                    p.port
                };
                (p.hostname.clone(), port)
            },
        }
    }

    /// The same connection through a tunnel that ends at `host` and `port`:
    /// the host and the port that is dialled are replaced, nothing else.
    pub open spec fn through_spec(self, host: String, port: u16) -> ConnectionParams {
        match self {
            ConnectionParams::Ssh(p) => ConnectionParams::Ssh(
                SshParams { hostname: host, port, ..p },
            ),
            ConnectionParams::Rdp(p) => ConnectionParams::Rdp(
                RdpParams { hostname: host, port, ..p },
            ),
            ConnectionParams::Vnc(p) => ConnectionParams::Vnc(
                VncParams { hostname: host, port, ..p },
            ),
            ConnectionParams::Spice(p) => ConnectionParams::Spice(
                if p.tls {
                    SpiceParams { hostname: host, tls_port: Some(port), ..p }
                } else {
                    SpiceParams { hostname: host, port, ..p }
                },
            ),
        }
    }

    /// Point the connection at the end of a tunnel.
    pub fn through(self, host: String, port: u16) -> (r: ConnectionParams)
        ensures
            r == self.through_spec(host, port),
            r.target_spec() == (host@, port),
    {
        match self {
            ConnectionParams::Ssh(p) => {
                let mut p = p;
                p.hostname = host;
                p.port = port;
                ConnectionParams::Ssh(p)
            },
            ConnectionParams::Rdp(p) => {
                let mut p = p;
                p.hostname = host;
                p.port = port;
                ConnectionParams::Rdp(p)
            },
            ConnectionParams::Vnc(p) => {
                let mut p = p;
                p.hostname = host;
                p.port = port;
                ConnectionParams::Vnc(p)
            },
            ConnectionParams::Spice(p) => {
                let mut p = p;
                p.hostname = host;
                if p.tls {
                    p.tls_port = Some(port);
                } else {
                    p.port = port;
                }
                ConnectionParams::Spice(p)
            },
        }
    }

    /// Whether files can be moved over the connection: SSH offers it where
    /// SFTP is on, RDP where the session has a drive directory.
    pub fn drive_available(&self, has_drive_path: bool) -> (r: bool)
        ensures
            r == match self {
                ConnectionParams::Ssh(p) => p.enable_sftp,
                ConnectionParams::Rdp(_) => has_drive_path,
                _ => false,
            },
    {
        match self {
            ConnectionParams::Ssh(p) => p.enable_sftp,
            ConnectionParams::Rdp(_) => has_drive_path,
            _ => false,
        }
    }
}

// ── Joining an existing connection ──
/// The value for one argument of a join: only the per-user read-only flag
/// has a meaning there.
pub open spec fn join_arg(name: Seq<char>, read_only: bool) -> Seq<char> {
    if name == "read-only"@ {
        if read_only {
            "true"@
        } else {
            "false"@
        }
    } else {
        ""@
    }
}

/// The connect arguments of a join, one for each name that guacd asks for.
pub fn join_arg_values(args: &Vec<String>, read_only: bool) -> (r: Vec<String>)
    ensures
        texts(r@) == texts(args@).map_values(|n: Seq<char>| join_arg(n, read_only)),
{
    let mut r: Vec<String> = Vec::new();
    let mut i: usize = 0;
    while i < args.len()
        invariant
            i <= args@.len(),
            r@.len() == i,
            forall|j: int| 0 <= j < i ==> (#[trigger] r@[j])@ == join_arg(args@[j]@, read_only),
        decreases args@.len() - i,
    {
        if same_text(args[i].as_str(), "read-only") {
            if read_only {
                r.push("true".to_owned());
            } else {
                r.push("false".to_owned());
            }
        } else {
            r.push("".to_owned());
        }
        i = i + 1;
    }
    proof {
        assert(texts(r@) =~= texts(args@).map_values(|n: Seq<char>| join_arg(n, read_only)));
    }
    r
}

/// The instructions that a join sends between `select` and `connect`.
pub open spec fn handshake_elements(width: u32, height: u32, dpi: u32) -> Seq<Seq<Seq<char>>> {
    seq![
        seq!["size"@, digits(width as nat), digits(height as nat), digits(dpi as nat)],
        seq!["audio"@, "audio/L16"@, "audio/L8"@],
        seq!["video"@],
        seq!["image"@, "image/png"@, "image/jpeg"@, "image/webp"@],
        seq!["timezone"@, "Australia/Brisbane"@],
    ]
}

/// The elements of each instruction.
pub open spec fn all_elements(v: Seq<Instruction>) -> Seq<Seq<Seq<char>>> {
    v.map_values(|i: Instruction| i.elements())
}

fn instruction1(opcode: &str, a: String) -> (r: Instruction)
    ensures
        r.elements() == seq![opcode@, a@],
{
    let mut args: Vec<String> = Vec::new();
    args.push(a);
    let r = Instruction::new(opcode, args);
    proof {
        assert(r.elements() =~= seq![opcode@, a@]);
    }
    r
}

fn instruction2(opcode: &str, a: String, b: String) -> (r: Instruction)
    ensures
        r.elements() == seq![opcode@, a@, b@],
{
    let mut args: Vec<String> = Vec::new();
    args.push(a);
    args.push(b);
    let r = Instruction::new(opcode, args);
    proof {
        assert(r.elements() =~= seq![opcode@, a@, b@]);
    }
    r
}

fn instruction3(opcode: &str, a: String, b: String, c: String) -> (r: Instruction)
    ensures
        r.elements() == seq![opcode@, a@, b@, c@],
{
    let mut args: Vec<String> = Vec::new();
    args.push(a);
    args.push(b);
    args.push(c);
    let r = Instruction::new(opcode, args);
    proof {
        assert(r.elements() =~= seq![opcode@, a@, b@, c@]);
    }
    r
}

/// The common join handshake: size, audio, video, image, timezone.
pub fn join_handshake(width: u32, height: u32, dpi: u32) -> (r: Vec<Instruction>)
    ensures
        all_elements(r@) == handshake_elements(width, height, dpi),
{
    let mut r: Vec<Instruction> = Vec::new();
    r.push(
        instruction3(
            "size",
            decimal(width as u64),
            decimal(height as u64),
            decimal(dpi as u64),
        ),
    );
    r.push(instruction2("audio", "audio/L16".to_owned(), "audio/L8".to_owned()));
    let video = Instruction::new("video", Vec::new());
    proof {
        assert(video.elements() =~= seq!["video"@]);
    }
    r.push(video);
    r.push(
        instruction3(
            "image",
            "image/png".to_owned(),
            "image/jpeg".to_owned(),
            "image/webp".to_owned(),
        ),
    );
    r.push(instruction1("timezone", "Australia/Brisbane".to_owned()));
    proof {
        assert(all_elements(r@) =~= handshake_elements(width, height, dpi));
    }
    r
}

/// The instruction that selects the connection to join.
pub fn join_select(connection_id: &str) -> (r: Instruction)
    ensures
        r.elements() == seq!["select"@, connection_id@],
{
    instruction1("select", connection_id.to_owned())
}

/// What a join sends once guacd has named its arguments: the handshake, and
/// a `connect` with one value for each name. Anything but `args` is refused.
pub fn join_answer(
    reply: &Instruction,
    width: u32,
    height: u32,
    dpi: u32,
    read_only: bool,
) -> (r: Result<Vec<Instruction>, String>)
    ensures
        match r {
            Ok(v) => reply.opcode@ == "args"@ && all_elements(v@) == handshake_elements(
                width,
                height,
                dpi,
            ).push(
                seq!["connect"@] + texts(reply.args@).map_values(
                    |n: Seq<char>| join_arg(n, read_only),
                ),
            ),
            Err(e) => reply.opcode@ != "args"@ && e@ == "expected 'args' from join, got '"@
                + reply.opcode@ + "'"@,
        },
{
    if !same_text(reply.opcode.as_str(), "args") {
        return Err(join3("expected 'args' from join, got '", reply.opcode.as_str(), "'"));
    }
    let values = join_arg_values(&reply.args, read_only);
    let connect = Instruction::new("connect", values);
    let mut out = join_handshake(width, height, dpi);
    let ghost before = out@;
    out.push(connect);
    proof {
        assert(all_elements(out@) =~= all_elements(before).push(connect.elements()));
    }
    Ok(out)
}

/// A list of strings as `[..]` shows it, each between double quotes.
pub open spec fn listed(v: Seq<Seq<char>>) -> Seq<char>
    decreases v.len(),
{
    if v.len() == 0 {
        Seq::empty()
    } else if v.len() == 1 {
        quoted(v[0])
    } else {
        listed(v.drop_last()) + ", "@ + quoted(v.last())
    }
}

/// The text of a string literal, between double quotes.
pub uninterp spec fn quoted(s: Seq<char>) -> Seq<char>;

/// `str`'s `Debug`: the text between double quotes, with escapes.
#[verifier::external_body]
fn quote(s: &str) -> (r: String)
    ensures
        r@ == quoted(s@),
{
    format!("{:?}", s)
}

/// A list of strings as `[..]` shows it, without the brackets.
fn list_quoted(v: &Vec<String>) -> (r: String)
    ensures
        r@ == listed(texts(v@)),
{
    let mut out = String::new();
    let mut i: usize = 0;
    while i < v.len()
        invariant
            i <= v@.len(),
            out@ == listed(texts(v@).take(i as int)),
        decreases v@.len() - i,
    {
        let q = quote(v[i].as_str());
        let ghost before = out@;
        if i > 0 {
            out.append(", ");
        }
        out.append(q.as_str());
        proof {
            let t = texts(v@).take(i + 1);
            assert(t.drop_last() =~= texts(v@).take(i as int));
            assert(t.last() == v@[i as int]@);
            if i == 0 {
                assert(Seq::<char>::empty() + q@ =~= q@);
            }
        }
        i = i + 1;
    }
    proof {
        assert(texts(v@).take(i as int) =~= texts(v@));
    }
    out
}

/// Whether guacd is ready: anything but `ready` ends the join.
pub fn join_ready(reply: &Instruction) -> (r: Result<(), String>)
    ensures
        match r {
            Ok(_) => reply.opcode@ == "ready"@,
            Err(e) => reply.opcode@ != "ready"@ && e@ == "expected 'ready' from join, got '"@
                + reply.opcode@ + "' (args: ["@ + listed(texts(reply.args@)) + "])"@,
        },
{
    if same_text(reply.opcode.as_str(), "ready") {
        return Ok(());
    }
    let mut e = join3("expected 'ready' from join, got '", reply.opcode.as_str(), "' (args: [");
    e.append(list_quoted(&reply.args).as_str());
    e.append("])");
    Err(e)
}

/// The host part of a guacd address, up to the last colon: the name that its
/// certificate is checked against.
pub fn tls_server_name(addr: &str) -> (r: String)
    ensures
        r@ == crate::net_util::host_part(addr@),
{
    crate::net_util::split_host_port(addr).0.to_owned()
}

/// Feed what guacd sent to a parser and take the first instruction, if it is
/// complete.
pub fn first_instruction(parser: &mut InstructionParser, data: &str) -> (r: Option<
    Result<Instruction, ParseError>,
>)
    ensures
        ({
            let all = old(parser).pending() + data.spec_bytes();
            final(parser).pending() == if all.len() > MAX_PROTOCOL_BUFFER_LEN {
                Seq::<u8>::empty()
            } else {
                remainder(all)
            }
        }),
        ({
            let all = old(parser).pending() + data.spec_bytes();
            if all.len() > MAX_PROTOCOL_BUFFER_LEN || frames(all).len() == 0 {
                r is None
            } else {
                r is Some && outcome(r->0) == frame_outcome(frames(all)[0])
            }
        }),
{
    let ghost all = old(parser).pending() + data.spec_bytes();
    let mut results = parser.receive(data);
    if results.len() == 0 {
        proof {
            if all.len() <= MAX_PROTOCOL_BUFFER_LEN {
                assert(outcomes(results@).len() == frame_outcomes(frames(all)).len());
            }
        }
        None
    } else {
        proof {
            assert(outcomes(results@).len() == results@.len());
            assert(frames(all).len() == frame_outcomes(frames(all)).len());
            assert(outcomes(results@)[0] == frame_outcomes(frames(all))[0]);
            assert(frame_outcomes(frames(all))[0] == frame_outcome(frames(all)[0]));
        }
        Some(results.remove(0))
    }
}

} // verus!
