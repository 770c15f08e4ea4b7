//! Proxmox VE: console configurations and what the API answers.
//!
//! Tickets and tokens are credentials: they appear in no error message.

use crate::json::{
    json_of, member, member_text, pair_texts, parse_json, read_member, string_member, Json,
    JsonText,
};
use crate::net_util::port_number;
use crate::session::names::first_chars;
use crate::text::{
    chars, decimal, digits, join, join2, join3, joined, opt_text, replace_all, replaced, same_text,
    slice_text, texts, trim, trim_end_char, trimmed, without_trailing,
};
use vstd::prelude::*;
use vstd::string::*;

verus! {

/// A just-in-time SPICE connection config from the PVE `spiceproxy` endpoint.
#[derive(Debug)]
pub struct PveSpiceConfig {
    /// Opaque proxy-routing token PVE returns as `host`. Passed to guacd as
    /// the SPICE hostname; the SPICE proxy uses it to route to the real VM.
    pub host: String,
    /// The actual connect endpoint, e.g. `http://pve.example.com:3128`.
    pub proxy: String,
    /// TLS port on the proxy (typically 61000+).
    pub tls_port: u16,
    /// Single-use SPICE ticket, valid ~30s.
    pub ticket: String,
    /// Cluster CA certificate (PEM, with real newlines).
    pub ca_cert: String,
    /// Expected TLS certificate subject of the host.
    pub host_subject: String,
}

/// VM type in PVE; determines which API sub-path to use.
#[derive(Debug, Clone, Copy, PartialEq, Eq, Structural)]
pub enum PveVmType {
    /// A QEMU/KVM virtual machine.
    Qemu,
    /// An LXC container.
    Lxc,
}

impl PveVmType {
    /// The name of the type in API paths.
    pub open spec fn name(self) -> Seq<char> {
        match self {
            PveVmType::Qemu => "qemu"@,
            PveVmType::Lxc => "lxc"@,
        }
    }

    /// The name of the type in API paths.
    pub fn as_str(&self) -> (r: &'static str)
        ensures
            r@ == self.name(),
    {
        match self {
            PveVmType::Qemu => "qemu",
            PveVmType::Lxc => "lxc",
        }
    }
}

/// A just-in-time VNC connection config from the PVE `vncproxy` endpoint.
#[derive(Debug)]
pub struct VncConfig {
    /// Hostname/IP of the node running the VNC proxy.
    pub host: String,
    /// TCP port the VNC proxy is listening on.
    pub port: u16,
    /// Single-use ticket (used as VNC password). Valid ~30s.
    pub ticket: String,
    /// TLS certificate of the VNC proxy (PEM), if TLS is required.
    pub cert: String,
}

/// A just-in-time serial/termproxy config from the PVE `termproxy` endpoint.
#[derive(Debug)]
pub struct SerialConfig {
    /// Hostname/IP of the node running the serial proxy.
    pub host: String,
    /// TCP port the serial proxy is listening on.
    pub port: u16,
    /// Single-use ticket. Valid ~30s.
    pub ticket: String,
}

/// Config for an xterm.js WebSocket terminal from the PVE `xtermjs` endpoint.
#[derive(Debug)]
pub struct XtermConfig {
    /// Single-use ticket for the WebSocket session.
    pub ticket: String,
    /// WebSocket port.
    pub port: u16,
}

/// A VM or container resource as reported by `/cluster/resources?type=vm`.
#[derive(Debug)]
pub struct PveVm {
    /// Numeric VM/CT ID.
    pub vmid: u32,
    /// User-assigned name.
    pub name: String,
    /// Cluster node hosting this resource.
    pub node: String,
    /// Current status: "running", "stopped", "paused", etc.
    pub status: String,
    /// Whether this is a Qemu VM or LXC container.
    pub vm_type: PveVmType,
    /// OS type hint if provided by PVE.
    pub os_type: String,
    /// Primary IP address, if PVE reports it.
    pub ip_address: String,
}

/// A configured Proxmox VE API target (host + API token).
pub struct PveBroker {
    /// Base URL of the PVE API, e.g. `https://pve.example.com:8006`.
    pub base_url: String,
    /// API token, formatted `USER@REALM!TOKENID=SECRET`.
    pub api_token: String,
    /// Verify the PVE API server's TLS certificate.
    pub verify_tls: bool,
}

/// Errors from Proxmox VE API calls.
#[derive(Debug)]
#[must_use]
pub enum PveError {
    /// Transport-level failure (connect, TLS, timeout).
    Transport(String),
    /// The API returned a non-success status, with its reason.
    Api(u16, String),
    /// The response could not be parsed / was missing an expected field.
    Parse(String),
}

impl PveError {
    /// The message of each error.
    pub open spec fn message_spec(self) -> Seq<char> {
        match self {
            PveError::Transport(m) => "PVE API transport error: "@ + m@,
            PveError::Api(code, m) => if m@.len() == 0 {
                "PVE API returned HTTP "@ + digits(code as nat)
            } else {
                "PVE API returned HTTP "@ + digits(code as nat) + ": "@ + m@
            },
            PveError::Parse(m) => "PVE API response parse error: "@ + m@,
        }
    }

    /// The error in words.
    pub fn message(&self) -> (r: String)
        ensures
            r@ == self.message_spec(),
    {
        match self {
            PveError::Transport(m) => join2("PVE API transport error: ", m.as_str()),
            PveError::Api(code, m) => {
                let mut s = join2("PVE API returned HTTP ", decimal(*code as u64).as_str());
                if !m.as_str().is_empty() {
                    s.append(": ");
                    s.append(m.as_str());
                }
                s
            },
            PveError::Parse(m) => join2("PVE API response parse error: ", m.as_str()),
        }
    }
}

/// Whether `e` is a parse error with the given words.
pub open spec fn unparsed(e: PveError, message: Seq<char>) -> bool {
    e is Parse && e->Parse_0@ == message
}

/// Render the messages of an error and of its causes, outermost first.
pub fn err_chain(messages: &Vec<String>) -> (r: String)
    ensures
        r@ == joined(texts(messages@), ": "@),
{
    join(messages, ": ")
}

// ── Requests ──
/// How an endpoint is called.
#[derive(Debug, Clone, Copy, PartialEq, Eq, Structural)]
pub enum ApiMethod {
    Get,
    Post,
}

/// The method of a name.
pub fn api_method(method: &str) -> (r: Result<ApiMethod, PveError>)
    ensures
        match r {
            Ok(ApiMethod::Get) => method@ == "GET"@,
            Ok(ApiMethod::Post) => method@ == "POST"@,
            Err(e) => method@ != "GET"@ && method@ != "POST"@ && unparsed(
                e,
                "unsupported API method '"@ + method@ + "'"@,
            ),
        },
{
    if same_text(method, "POST") {
        Ok(ApiMethod::Post)
    } else if same_text(method, "GET") {
        Ok(ApiMethod::Get)
    } else {
        Err(PveError::Parse(join3("unsupported API method '", method, "'")))
    }
}

/// The path of a VM, relative to the base URL.
pub open spec fn vm_path_of(node: Seq<char>, vm_type: PveVmType, vmid: u32) -> Seq<char> {
    "/api2/json/nodes/"@ + node + "/"@ + vm_type.name() + "/"@ + digits(vmid as nat)
}

/// Whether an action can be sent to a VM.
pub open spec fn power_verb(action: Seq<char>) -> bool {
    action == "start"@ || action == "stop"@ || action == "shutdown"@ || action == "suspend"@
        || action == "resume"@ || action == "reboot"@
}

impl PveBroker {
    /// The full URL of a path: one slash between them.
    pub fn request_url(&self, path: &str) -> (r: String)
        ensures
            r@ == without_trailing(self.base_url@, '/') + path@,
    {
        let base = trim_end_char(self.base_url.as_str(), '/');
        join2(base.as_str(), path)
    }

    /// The value of the authorization header.
    pub fn authorization(&self) -> (r: String)
        ensures
            r@ == "PVEAPIToken="@ + self.api_token@,
    {
        join2("PVEAPIToken=", self.api_token.as_str())
    }

    /// API path for a node and VM (relative to the base URL).
    pub fn vm_path(&self, node: &str, vm_type: PveVmType, vmid: u32) -> (r: String)
        ensures
            r@ == vm_path_of(node@, vm_type, vmid),
    {
        let mut s = join3("/api2/json/nodes/", node, "/");
        s.append(vm_type.as_str());
        s.append("/");
        s.append(decimal(vmid as u64).as_str());
        s
    }

    /// API path of a console endpoint of a VM, such as `spiceproxy`,
    /// `vncproxy`, `termproxy` or `xtermjs`.
    pub fn console_path(&self, node: &str, vm_type: PveVmType, vmid: u32, endpoint: &str) -> (r:
        String)
        ensures
            r@ == vm_path_of(node@, vm_type, vmid) + "/"@ + endpoint@,
    {
        join3(self.vm_path(node, vm_type, vmid).as_str(), "/", endpoint)
    }

    /// API path of a power action; unknown actions are refused.
    pub fn power_path(&self, node: &str, vm_type: PveVmType, vmid: u32, action: &str) -> (r: Result<
        String,
        PveError,
    >)
        ensures
            match r {
                Ok(p) => power_verb(action@) && p@ == vm_path_of(node@, vm_type, vmid)
                    + "/status/"@ + action@,
                Err(e) => !power_verb(action@) && unparsed(
                    e,
                    "invalid power action '"@ + action@
                        + "'; valid: [\"start\", \"stop\", \"shutdown\", \"suspend\", \"resume\", \"reboot\"]"@,
                ),
            },
    {
        if same_text(action, "start") || same_text(action, "stop") || same_text(action, "shutdown")
            || same_text(action, "suspend") || same_text(action, "resume") || same_text(
            action,
            "reboot",
        ) {
            Ok(join3(self.vm_path(node, vm_type, vmid).as_str(), "/status/", action))
        } else {
            Err(
                PveError::Parse(
                    join3(
                        "invalid power action '",
                        action,
                        "'; valid: [\"start\", \"stop\", \"shutdown\", \"suspend\", \"resume\", \"reboot\"]",
                    ),
                ),
            )
        }
    }
}

// ── Responses ──
/// A field of a response object.
#[derive(Debug)]
pub enum PveValue {
    Text(String),
    /// A number without sign or fraction.
    Number(u64),
    Other,
}

/// A field of a response object over character sequences.
pub ghost enum PveField {
    Text(Seq<char>),
    Number(u64),
    Other,
}

/// The fields of a response object.
pub type Fields = Vec<(String, PveValue)>;

/// The fields of a response object over character sequences.
pub type FieldTexts = Seq<(Seq<char>, PveField)>;

/// The `data` member of a response.
#[derive(Debug)]
pub enum PveData {
    Object(Fields),
    List(Vec<Fields>),
    Text(String),
    Other,
}

/// The `data` member of a response over character sequences.
pub ghost enum PveDataText {
    Object(FieldTexts),
    List(Seq<FieldTexts>),
    Text(Seq<char>),
    Other,
}

/// A field over character sequences.
pub open spec fn field_text(v: PveValue) -> PveField {
    match v {
        PveValue::Text(s) => PveField::Text(s@),
        PveValue::Number(n) => PveField::Number(n),
        PveValue::Other => PveField::Other,
    }
}

/// Fields over character sequences.
pub open spec fn field_texts(v: Seq<(String, PveValue)>) -> FieldTexts {
    Seq::new(v.len(), |i: int| (v[i].0@, field_text(v[i].1)))
}

impl PveData {
    /// The `data` member over character sequences.
    pub open spec fn texts(&self) -> PveDataText {
        match self {
            PveData::Object(v) => PveDataText::Object(field_texts(v@)),
            PveData::List(v) => PveDataText::List(
                Seq::new(v@.len(), |i: int| field_texts(v@[i]@)),
            ),
            PveData::Text(s) => PveDataText::Text(s@),
            PveData::Other => PveDataText::Other,
        }
    }
}

/// A field of a response object from its JSON text.
pub open spec fn field_of(json: Seq<char>) -> PveField {
    match json_of(json) {
        Ok(JsonText::Number(Some(n))) => PveField::Number(n),
        Ok(JsonText::Text(s)) => PveField::Text(s),
        _ => PveField::Other,
    }
}

/// The fields of a response object from its members.
pub open spec fn fields_in(members: Seq<(Seq<char>, Seq<char>)>) -> FieldTexts {
    Seq::new(members.len(), |i: int| (members[i].0, field_of(members[i].1)))
}

/// The fields of an item of a response list; an item that is no object has
/// none.
pub open spec fn item_fields(json: Seq<char>) -> FieldTexts {
    match json_of(json) {
        Ok(JsonText::Object(m)) => fields_in(m),
        _ => Seq::empty(),
    }
}

/// A `data` member from its JSON text.
pub open spec fn data_in(json: Seq<char>) -> PveDataText {
    match json_of(json) {
        Ok(JsonText::Object(m)) => PveDataText::Object(fields_in(m)),
        Ok(JsonText::List(v)) => PveDataText::List(Seq::new(v.len(), |i: int| item_fields(v[i]))),
        Ok(JsonText::Text(s)) => PveDataText::Text(s),
        _ => PveDataText::Other,
    }
}

/// The `data` member of a JSON response body; the reason where the body is
/// no JSON.
pub open spec fn data_of(body: Seq<char>) -> Result<PveDataText, Seq<char>> {
    match json_of(body) {
        Err(e) => Err(e),
        Ok(v) => Ok(
            match member_text(v, "data"@) {
                Some(t) => data_in(t),
                None => PveDataText::Other,
            },
        ),
    }
}

fn read_fields(members: &Vec<(String, String)>) -> (r: Fields)
    ensures
        field_texts(r@) == fields_in(pair_texts(members@)),
{
    let mut out: Fields = Vec::new();
    let mut i: usize = 0;
    while i < members.len()
        invariant
            i <= members@.len(),
            out@.len() == i,
            forall|j: int|
                0 <= j < i ==> #[trigger] field_texts(out@)[j] == (
                    members@[j].0@,
                    field_of(members@[j].1@),
                ),
        decreases members@.len() - i,
    {
        let value = match parse_json(members[i].1.as_str()) {
            Ok(Json::Number(Some(n))) => PveValue::Number(n),
            Ok(Json::Text(s)) => PveValue::Text(s),
            _ => PveValue::Other,
        };
        let ghost before = out@;
        out.push((members[i].0.clone(), value));
        proof {
            assert forall|j: int| 0 <= j < i + 1 implies #[trigger] field_texts(out@)[j] == (
                members@[j].0@,
                field_of(members@[j].1@),
            ) by {
                if j < i {
                    assert(field_texts(before)[j] == field_texts(out@)[j]);
                }
            }
        }
        i = i + 1;
    }
    proof {
        assert(field_texts(out@) =~= fields_in(pair_texts(members@)));
    }
    out
}

fn read_item(json: &str) -> (r: Fields)
    ensures
        field_texts(r@) == item_fields(json@),
{
    match parse_json(json) {
        Ok(Json::Object(m)) => read_fields(&m),
        _ => {
            let none: Fields = Vec::new();
            proof {
                assert(field_texts(none@) =~= Seq::empty());
            }
            none
        },
    }
}

fn read_list(items: &Vec<String>) -> (r: Vec<Fields>)
    ensures
        r@.len() == items@.len(),
        forall|i: int|
            0 <= i < items@.len() ==> field_texts((#[trigger] r@[i])@) == item_fields(items@[i]@),
{
    let mut out: Vec<Fields> = Vec::new();
    let mut i: usize = 0;
    while i < items.len()
        invariant
            i <= items@.len(),
            out@.len() == i,
            forall|j: int|
                0 <= j < i ==> field_texts((#[trigger] out@[j])@) == item_fields(items@[j]@),
        decreases items@.len() - i,
    {
        out.push(read_item(items[i].as_str()));
        i = i + 1;
    }
    out
}

fn read_data(json: &str) -> (r: PveData)
    ensures
        r.texts() == data_in(json@),
{
    match parse_json(json) {
        Ok(Json::Object(m)) => PveData::Object(read_fields(&m)),
        Ok(Json::List(v)) => {
            let rows = read_list(&v);
            proof {
                assert(Seq::new(rows@.len(), |i: int| field_texts(rows@[i]@)) =~= Seq::new(
                    texts(v@).len(),
                    |i: int| item_fields(texts(v@)[i]),
                ));
            }
            PveData::List(rows)
        },
        Ok(Json::Text(s)) => PveData::Text(s),
        _ => PveData::Other,
    }
}

/// Read the `data` member of a successful response.
pub fn read_response(body: &str) -> (r: Result<PveData, PveError>)
    ensures
        match r {
            Ok(d) => data_of(body@) == Ok::<PveDataText, Seq<char>>(d.texts()),
            Err(e) => data_of(body@) is Err && unparsed(e, data_of(body@)->Err_0),
        },
{
    match parse_json(body) {
        Ok(v) => Ok(
            match member(&v, "data") {
                Some(t) => read_data(t.as_str()),
                None => PveData::Other,
            },
        ),
        Err(e) => Err(PveError::Parse(e)),
    }
}

/// The reason in the JSON body of a failed response: its message, or else its
/// errors as JSON.
pub open spec fn reason_of(body: Seq<char>) -> Option<Seq<char>> {
    match json_of(body) {
        Ok(v) => match string_member(v, "message"@) {
            Some(m) => Some(m),
            None => member_text(v, "errors"@),
        },
        Err(_) => None,
    }
}

fn read_reason(body: &str) -> (r: Option<String>)
    ensures
        opt_text(r) == reason_of(body@),
{
    match parse_json(body) {
        Ok(v) => match read_member(&v, "message") {
            Some(m) => Some(m),
            None => member(&v, "errors"),
        },
        Err(_) => None,
    }
}

/// What a failed response says: its reason, or the beginning of its body.
pub open spec fn failure_text(reason: Option<Seq<char>>, body: Seq<char>) -> Seq<char> {
    trimmed(
        match reason {
            Some(m) => m,
            None => first_chars(body, 200),
        },
    )
}

/// The error of a failed response, from its reason and body.
pub fn failure(code: u16, reason: Option<String>, body: &str) -> (r: PveError)
    ensures
        r is Api,
        r->Api_0 == code,
        r->Api_1@ == failure_text(opt_text(reason), body@),
{
    let text = match reason {
        Some(m) => m,
        None => {
            let v = chars(body);
            let n: usize = if v.len() <= 200 {
                v.len()
            } else {
                200
            };
            proof {
                assert(body@.subrange(0, n as int) =~= first_chars(body@, 200));
            }
            slice_text(&v, 0, n)
        },
    };
    PveError::Api(code, trim(text.as_str()))
}

/// The error of a failed response: PVE's own reason, or the beginning of the
/// body.
pub fn api_error(code: u16, body: &str) -> (r: PveError)
    ensures
        r is Api,
        r->Api_0 == code,
        r->Api_1@ == failure_text(reason_of(body@), body@),
{
    let reason = read_reason(body);
    failure(code, reason, body)
}

/// The value of a field.
pub open spec fn get_field(v: FieldTexts, key: Seq<char>) -> Option<PveField>
    decreases v.len(),
{
    if v.len() == 0 {
        None
    } else if v[0].0 == key {
        Some(v[0].1)
    } else {
        get_field(v.skip(1), key)
    }
}

fn find_field<'a>(fields: &'a Fields, key: &str) -> (r: Option<&'a PveValue>)
    ensures
        match r {
            Some(v) => get_field(field_texts(fields@), key@) == Some(field_text(*v)),
            None => get_field(field_texts(fields@), key@) is None,
        },
{
    let ghost t = field_texts(fields@);
    let mut i: usize = 0;
    proof {
        assert(t.skip(0) =~= t);
    }
    while i < fields.len()
        invariant
            i <= fields@.len(),
            t == field_texts(fields@),
            get_field(t, key@) == get_field(t.skip(i as int), key@),
        decreases fields@.len() - i,
    {
        proof {
            assert(t.skip(i as int)[0] == t[i as int]);
            assert(t.skip(i as int).skip(1) =~= t.skip(i + 1));
        }
        if same_text(fields[i].0.as_str(), key) {
            return Some(&fields[i].1);
        }
        i = i + 1;
    }
    None
}

/// The text of a field; nothing where it is absent or no text.
pub open spec fn text_field(v: FieldTexts, key: Seq<char>) -> Option<Seq<char>> {
    match get_field(v, key) {
        Some(PveField::Text(s)) => Some(s),
        _ => None,
    }
}

/// The port in a field: a number, taken modulo 65536, or a text that writes
/// one.
pub open spec fn port_field(v: FieldTexts, key: Seq<char>) -> Option<u16> {
    match get_field(v, key) {
        Some(PveField::Number(n)) => Some((n % 65536) as u16),
        Some(PveField::Text(s)) => port_number(trimmed(s)),
        _ => None,
    }
}

/// String field value; absent or no string yields `None`.
pub fn field(fields: &Fields, key: &str) -> (r: Option<String>)
    ensures
        opt_text(r) == text_field(field_texts(fields@), key@),
{
    match find_field(fields, key) {
        Some(PveValue::Text(s)) => Some(s.clone()),
        _ => None,
    }
}

/// Required string field; a missing one is an error.
pub fn require(fields: &Fields, key: &str) -> (r: Result<String, PveError>)
    ensures
        match r {
            Ok(s) => text_field(field_texts(fields@), key@) == Some(s@),
            Err(e) => text_field(field_texts(fields@), key@) is None && unparsed(
                e,
                "missing '"@ + key@ + "'"@,
            ),
        },
{
    match field(fields, key) {
        Some(s) => Ok(s),
        None => Err(PveError::Parse(join3("missing '", key, "'"))),
    }
}

/// Port field: a JSON string or number depending on PVE version.
pub fn port(fields: &Fields, key: &str) -> (r: Result<u16, PveError>)
    ensures
        match r {
            Ok(p) => port_field(field_texts(fields@), key@) == Some(p),
            Err(e) => port_field(field_texts(fields@), key@) is None && unparsed(
                e,
                "missing or invalid '"@ + key@ + "'"@,
            ),
        },
{
    let found: Option<u16> = match find_field(fields, key) {
        Some(PveValue::Number(n)) => Some((*n % 65536) as u16),
        Some(PveValue::Text(s)) => {
            let t = trim(s.as_str());
            crate::net_util::parse_port(t.as_str())
        },
        _ => None,
    };
    match found {
        Some(p) => Ok(p),
        None => Err(PveError::Parse(join3("missing or invalid '", key, "'"))),
    }
}

/// The fields of a response; none where its data is no object.
pub open spec fn fields_of(d: PveDataText) -> FieldTexts {
    match d {
        PveDataText::Object(v) => v,
        _ => Seq::empty(),
    }
}

fn take_fields(d: PveData) -> (r: Fields)
    ensures
        field_texts(r@) == fields_of(d.texts()),
{
    match d {
        PveData::Object(v) => v,
        _ => {
            let v: Fields = Vec::new();
            proof {
                assert(field_texts(v@) =~= Seq::empty());
            }
            v
        },
    }
}

/// A text, or the empty text.
pub open spec fn or_empty(o: Option<Seq<char>>) -> Seq<char> {
    match o {
        Some(s) => s,
        None => Seq::empty(),
    }
}

fn text_or_default(o: Option<String>) -> (r: String)
    ensures
        r@ == or_empty(opt_text(o)),
{
    match o {
        Some(s) => s,
        None => String::new(),
    }
}

/// Whether an error names the first of three fields that is missing.
pub open spec fn console_error(
    e: PveError,
    v: FieldTexts,
    port_key: Seq<char>,
    required: Seq<Seq<char>>,
) -> bool {
    if port_field(v, port_key) is None {
        unparsed(e, "missing or invalid '"@ + port_key + "'"@)
    } else {
        exists|k: int|
            0 <= k < required.len() && text_field(v, #[trigger] required[k]) is None && unparsed(
                e,
                "missing '"@ + required[k] + "'"@,
            ) && forall|j: int|
                0 <= j < k ==> text_field(v, #[trigger] required[j]) is Some
    }
}

/// What a `spiceproxy` response gives.
pub open spec fn spice_outcome(r: Result<PveSpiceConfig, PveError>, data: PveDataText) -> bool {
    let v = fields_of(data);
    match r {
        Ok(c) => {
            &&& port_field(v, "tls-port"@) == Some(c.tls_port)
            &&& text_field(v, "host"@) == Some(c.host@)
            &&& text_field(v, "proxy"@) == Some(c.proxy@)
            &&& text_field(v, "password"@) == Some(c.ticket@)
            &&& c.ca_cert@ == replaced(or_empty(text_field(v, "ca"@)), "\\n"@, "\n"@)
            &&& c.host_subject@ == or_empty(text_field(v, "host-subject"@))
        },
        Err(e) => console_error(e, v, "tls-port"@, seq!["host"@, "proxy"@, "password"@]),
    }
}

/// The SPICE config in a `spiceproxy` response. Escaped newlines in the CA
/// certificate become real ones.
pub fn spice_config(data: PveData) -> (r: Result<PveSpiceConfig, PveError>)
    ensures
        spice_outcome(r, data.texts()),
{
    proof {
        reveal_strlit("\\n");
    }
    let fields = take_fields(data);
    let ghost v = field_texts(fields@);
    let ghost required = seq!["host"@, "proxy"@, "password"@];
    let tls_port: u16 = match port(&fields, "tls-port") {
        Ok(p) => p,
        Err(e) => return Err(e),
    };
    let host = match require(&fields, "host") {
        Ok(s) => s,
        Err(e) => {
            proof {
                assert(text_field(v, required[0]) is None);
            }
            return Err(e);
        },
    };
    let proxy = match require(&fields, "proxy") {
        Ok(s) => s,
        Err(e) => {
            proof {
                assert(text_field(v, required[1]) is None);
            }
            return Err(e);
        },
    };
    let ticket = match require(&fields, "password") {
        Ok(s) => s,
        Err(e) => {
            proof {
                assert(text_field(v, required[2]) is None);
            }
            return Err(e);
        },
    };
    let ca = text_or_default(field(&fields, "ca"));
    Ok(
        PveSpiceConfig {
            host,
            proxy,
            tls_port,
            ticket,
            ca_cert: replace_all(ca.as_str(), "\\n", "\n"),
            host_subject: text_or_default(field(&fields, "host-subject")),
        },
    )
}

/// The port and the ticket that every console endpoint but SPICE returns.
fn port_and_ticket(fields: &Fields) -> (r: Result<(u16, String), PveError>)
    ensures
        match r {
            Ok((p, t)) => port_field(field_texts(fields@), "port"@) == Some(p) && text_field(
                field_texts(fields@),
                "ticket"@,
            ) == Some(t@),
            Err(e) => console_error(e, field_texts(fields@), "port"@, seq!["ticket"@]),
        },
{
    let ghost required = seq!["ticket"@];
    let p: u16 = match port(fields, "port") {
        Ok(p) => p,
        Err(e) => return Err(e),
    };
    match require(fields, "ticket") {
        Ok(t) => Ok((p, t)),
        Err(e) => {
            proof {
                assert(text_field(field_texts(fields@), required[0]) is None);
            }
            Err(e)
        },
    }
}

/// What a `vncproxy` response gives for a node.
pub open spec fn vnc_outcome(
    r: Result<VncConfig, PveError>,
    node: Seq<char>,
    data: PveDataText,
) -> bool {
    let v = fields_of(data);
    match r {
        Ok(c) => {
            &&& c.host@ == node
            &&& port_field(v, "port"@) == Some(c.port)
            &&& text_field(v, "ticket"@) == Some(c.ticket@)
            &&& c.cert@ == or_empty(text_field(v, "cert"@))
        },
        Err(e) => console_error(e, v, "port"@, seq!["ticket"@]),
    }
}

/// The VNC config in a `vncproxy` response for a node.
pub fn vnc_config(node: &str, data: PveData) -> (r: Result<VncConfig, PveError>)
    ensures
        vnc_outcome(r, node@, data.texts()),
{
    let fields = take_fields(data);
    match port_and_ticket(&fields) {
        Ok((port, ticket)) => Ok(
            VncConfig {
                host: node.to_owned(),
                port,
                ticket,
                cert: text_or_default(field(&fields, "cert")),
            },
        ),
        Err(e) => Err(e),
    }
}

/// What a `termproxy` response gives for a node.
pub open spec fn serial_outcome(
    r: Result<SerialConfig, PveError>,
    node: Seq<char>,
    data: PveDataText,
) -> bool {
    let v = fields_of(data);
    match r {
        Ok(c) => c.host@ == node && port_field(v, "port"@) == Some(c.port) && text_field(
            v,
            "ticket"@,
        ) == Some(c.ticket@),
        Err(e) => console_error(e, v, "port"@, seq!["ticket"@]),
    }
}

/// The serial config in a `termproxy` response for a node.
pub fn serial_config(node: &str, data: PveData) -> (r: Result<SerialConfig, PveError>)
    ensures
        serial_outcome(r, node@, data.texts()),
{
    let fields = take_fields(data);
    match port_and_ticket(&fields) {
        Ok((port, ticket)) => Ok(SerialConfig { host: node.to_owned(), port, ticket }),
        Err(e) => Err(e),
    }
}

/// What an `xtermjs` response gives.
pub open spec fn xterm_outcome(r: Result<XtermConfig, PveError>, data: PveDataText) -> bool {
    let v = fields_of(data);
    match r {
        Ok(c) => port_field(v, "port"@) == Some(c.port) && text_field(v, "ticket"@) == Some(
            c.ticket@,
        ),
        Err(e) => console_error(e, v, "port"@, seq!["ticket"@]),
    }
}

/// The terminal config in an `xtermjs` response.
pub fn xterm_config(data: PveData) -> (r: Result<XtermConfig, PveError>)
    ensures
        xterm_outcome(r, data.texts()),
{
    let fields = take_fields(data);
    match port_and_ticket(&fields) {
        Ok((port, ticket)) => Ok(XtermConfig { ticket, port }),
        Err(e) => Err(e),
    }
}

/// What the response to a power action gives.
pub open spec fn task_outcome(r: Result<String, PveError>, data: PveDataText) -> bool {
    match r {
        Ok(s) => data == PveDataText::Text(s@),
        Err(e) => !(data is Text) && unparsed(e, "power action returned no task id"@),
    }
}

/// The task of a power action.
pub fn power_task(data: PveData) -> (r: Result<String, PveError>)
    ensures
        task_outcome(r, data.texts()),
{
    match data {
        PveData::Text(s) => Ok(s),
        _ => Err(PveError::Parse("power action returned no task id".to_owned())),
    }
}

/// The number in a field.
pub open spec fn number_field(v: FieldTexts, key: Seq<char>) -> Option<u64> {
    match get_field(v, key) {
        Some(PveField::Number(n)) => Some(n),
        _ => None,
    }
}

fn number(fields: &Fields, key: &str) -> (r: Option<u64>)
    ensures
        r == number_field(field_texts(fields@), key@),
{
    match find_field(fields, key) {
        Some(PveValue::Number(n)) => Some(*n),
        _ => None,
    }
}

/// The node of the first resource with a VM's id that names one.
pub open spec fn node_of(items: Seq<FieldTexts>, vmid: u32) -> Option<Seq<char>>
    decreases items.len(),
{
    if items.len() == 0 {
        None
    } else if number_field(items[0], "vmid"@) == Some(vmid as u64) && text_field(
        items[0],
        "node"@,
    ) is Some {
        text_field(items[0], "node"@)
    } else {
        node_of(items.skip(1), vmid)
    }
}

/// Which node the cluster's resources give for a VM.
pub open spec fn node_outcome(r: Result<String, PveError>, data: PveDataText, vmid: u32) -> bool {
    match data {
        PveDataText::List(items) => match r {
            Ok(s) => node_of(items, vmid) == Some(s@),
            Err(e) => node_of(items, vmid) is None && unparsed(
                e,
                "VM "@ + digits(vmid as nat)
                    + " not found in the cluster (check the VM id, or that the token can see it)"@,
            ),
        },
        _ => r is Err && unparsed(r->Err_0, "cluster/resources missing 'data' array"@),
    }
}

/// Which cluster node hosts a VM or container, from the cluster's resources.
pub fn find_node(data: &PveData, vmid: u32) -> (r: Result<String, PveError>)
    ensures
        node_outcome(r, data.texts(), vmid),
{
    let items = match data {
        PveData::List(v) => v,
        _ => return Err(PveError::Parse("cluster/resources missing 'data' array".to_owned())),
    };
    let ghost t = Seq::new(items@.len(), |i: int| field_texts(items@[i]@));
    let mut i: usize = 0;
    proof {
        assert(t.skip(0) =~= t);
    }
    while i < items.len()
        invariant
            i <= items@.len(),
            t == Seq::new(items@.len(), |i: int| field_texts(items@[i]@)),
            data.texts() == PveDataText::List(t),
            node_of(t, vmid) == node_of(t.skip(i as int), vmid),
        decreases items@.len() - i,
    {
        proof {
            assert(t.skip(i as int)[0] == t[i as int]);
            assert(t.skip(i as int).skip(1) =~= t.skip(i + 1));
        }
        let item = &items[i];
        if let Some(n) = number(item, "vmid") {
            if n == vmid as u64 {
                if let Some(node) = field(item, "node") {
                    return Ok(node);
                }
            }
        }
        i = i + 1;
    }
    Err(
        PveError::Parse(
            join3(
                "VM ",
                decimal(vmid as u64).as_str(),
                " not found in the cluster (check the VM id, or that the token can see it)",
            ),
        ),
    )
}

/// The type of a resource, if it is a VM or a container.
pub open spec fn resource_type(v: FieldTexts) -> Option<PveVmType> {
    if text_field(v, "type"@) == Some("qemu"@) {
        Some(PveVmType::Qemu)
    } else if text_field(v, "type"@) == Some("lxc"@) {
        Some(PveVmType::Lxc)
    } else {
        None
    }
}

/// Whether a resource is listed: it has an id and is a VM or a container.
pub open spec fn is_listed(v: FieldTexts) -> bool {
    number_field(v, "vmid"@) is Some && resource_type(v) is Some
}

/// Whether `vm` shows a resource.
pub open spec fn shows_resource(vm: PveVm, v: FieldTexts) -> bool {
    &&& is_listed(v)
    &&& vm.vmid == (number_field(v, "vmid"@)->0 % 0x1_0000_0000) as u32
    &&& vm.name@ == or_empty(text_field(v, "name"@))
    &&& vm.node@ == or_empty(text_field(v, "node"@))
    &&& vm.status@ == or_empty(text_field(v, "status"@))
    &&& vm.vm_type == resource_type(v)->0
    &&& vm.os_type@ == or_empty(text_field(v, "ostype"@))
    &&& vm.ip_address@ == or_empty(text_field(v, "ip_address"@))
}

/// The resources that are listed, in order.
pub open spec fn listed_resources(items: Seq<FieldTexts>) -> Seq<FieldTexts>
    decreases items.len(),
{
    if items.len() == 0 {
        items
    } else if is_listed(items.last()) {
        listed_resources(items.drop_last()).push(items.last())
    } else {
        listed_resources(items.drop_last())
    }
}

/// Which VMs and containers the cluster's resources give.
pub open spec fn vms_outcome(r: Result<Vec<PveVm>, PveError>, data: PveDataText) -> bool {
    match data {
        PveDataText::List(items) => {
            let listed = listed_resources(items);
            r is Ok && r->Ok_0@.len() == listed.len() && forall|i: int|
                0 <= i < listed.len() ==> shows_resource(#[trigger] r->Ok_0@[i], listed[i])
        },
        _ => r is Err && unparsed(r->Err_0, "cluster/resources missing 'data' array"@),
    }
}

/// All VMs and containers among the cluster's resources.
pub fn list_vms(data: &PveData) -> (r: Result<Vec<PveVm>, PveError>)
    ensures
        vms_outcome(r, data.texts()),
{
    let items = match data {
        PveData::List(v) => v,
        _ => return Err(PveError::Parse("cluster/resources missing 'data' array".to_owned())),
    };
    let ghost t = Seq::new(items@.len(), |i: int| field_texts(items@[i]@));
    let mut vms: Vec<PveVm> = Vec::new();
    let mut i: usize = 0;
    while i < items.len()
        invariant
            i <= items@.len(),
            t == Seq::new(items@.len(), |i: int| field_texts(items@[i]@)),
            data.texts() == PveDataText::List(t),
            vms@.len() == listed_resources(t.take(i as int)).len(),
            forall|k: int|
                0 <= k < vms@.len() ==> shows_resource(
                    #[trigger] vms@[k],
                    listed_resources(t.take(i as int))[k],
                ),
        decreases items@.len() - i,
    {
        proof {
            assert(t.take(i + 1).drop_last() =~= t.take(i as int));
            assert(t.take(i + 1).last() == t[i as int]);
        }
        let item = &items[i];
        let vm_type = match field(item, "type") {
            Some(s) => if same_text(s.as_str(), "qemu") {
                Some(PveVmType::Qemu)
            } else if same_text(s.as_str(), "lxc") {
                Some(PveVmType::Lxc)
            } else {
                None
            },
            None => None,
        };
        if let Some(n) = number(item, "vmid") {
            if let Some(vm_type) = vm_type {
                vms.push(
                    PveVm {
                        vmid: (n % 0x1_0000_0000) as u32,
                        name: text_or_default(field(item, "name")),
                        node: text_or_default(field(item, "node")),
                        status: text_or_default(field(item, "status")),
                        vm_type,
                        os_type: text_or_default(field(item, "ostype")),
                        ip_address: text_or_default(field(item, "ip_address")),
                    },
                );
            }
        }
        i = i + 1;
    }
    proof {
        assert(t.take(i as int) =~= t);
    }
    Ok(vms)
}

impl PveBroker {
    /// Which node hosts a VM, from the body of a cluster resources response.
    pub fn resolve_node(&self, vmid: u32, body: &str) -> (r: Result<String, PveError>)
        ensures
            match data_of(body@) {
                Ok(d) => node_outcome(r, d, vmid),
                Err(m) => r is Err && unparsed(r->Err_0, m),
            },
    {
        match read_response(body) {
            Ok(d) => find_node(&d, vmid),
            Err(e) => Err(e),
        }
    }

    /// The SPICE config in the body of a `spiceproxy` response.
    pub fn fetch_spice_config(&self, body: &str) -> (r: Result<PveSpiceConfig, PveError>)
        ensures
            match data_of(body@) {
                Ok(d) => spice_outcome(r, d),
                Err(m) => r is Err && unparsed(r->Err_0, m),
            },
    {
        match read_response(body) {
            Ok(d) => spice_config(d),
            Err(e) => Err(e),
        }
    }

    /// The VNC config in the body of a `vncproxy` response for a node.
    pub fn fetch_vnc_config(&self, node: &str, body: &str) -> (r: Result<VncConfig, PveError>)
        ensures
            match data_of(body@) {
                Ok(d) => vnc_outcome(r, node@, d),
                Err(m) => r is Err && unparsed(r->Err_0, m),
            },
    {
        match read_response(body) {
            Ok(d) => vnc_config(node, d),
            Err(e) => Err(e),
        }
    }

    /// The serial config in the body of a `termproxy` response for a node.
    pub fn fetch_serial_config(&self, node: &str, body: &str) -> (r: Result<SerialConfig, PveError>)
        ensures
            match data_of(body@) {
                Ok(d) => serial_outcome(r, node@, d),
                Err(m) => r is Err && unparsed(r->Err_0, m),
            },
    {
        match read_response(body) {
            Ok(d) => serial_config(node, d),
            Err(e) => Err(e),
        }
    }

    /// The terminal config in the body of an `xtermjs` response.
    pub fn fetch_xtermjs_config(&self, body: &str) -> (r: Result<XtermConfig, PveError>)
        ensures
            match data_of(body@) {
                Ok(d) => xterm_outcome(r, d),
                Err(m) => r is Err && unparsed(r->Err_0, m),
            },
    {
        match read_response(body) {
            Ok(d) => xterm_config(d),
            Err(e) => Err(e),
        }
    }

    /// All VMs and containers in the body of a cluster resources response.
    pub fn list_all_vms(&self, body: &str) -> (r: Result<Vec<PveVm>, PveError>)
        ensures
            match data_of(body@) {
                Ok(d) => vms_outcome(r, d),
                Err(m) => r is Err && unparsed(r->Err_0, m),
            },
    {
        match read_response(body) {
            Ok(d) => list_vms(&d),
            Err(e) => Err(e),
        }
    }

    /// The task in the body of the response to a power action.
    pub fn power_action(&self, body: &str) -> (r: Result<String, PveError>)
        ensures
            match data_of(body@) {
                Ok(d) => task_outcome(r, d),
                Err(m) => r is Err && unparsed(r->Err_0, m),
            },
    {
        match read_response(body) {
            Ok(d) => power_task(d),
            Err(e) => Err(e),
        }
    }
}

} // verus!
