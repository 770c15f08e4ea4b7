//! What is read from the answers of the Proxmox VE API.

use crate::json::{json_of, member_text, string_member, JsonText};
use crate::net_util::port_number;
use crate::pve::{
    data_of, failure_text, field_of, fields_of, get_field, item_fields, listed_resources, node_of,
    node_outcome, number_field, or_empty, port_field, power_verb, reason_of, serial_outcome,
    shows_resource, spice_outcome, task_outcome, text_field, unparsed, vm_path_of, vms_outcome,
    vnc_outcome, xterm_outcome, FieldTexts, PveDataText, PveError, PveField, PveSpiceConfig, PveVm,
    PveVmType, SerialConfig, VncConfig, XtermConfig,
};
use crate::text::{digits, replaced, trimmed};
use vstd::prelude::*;
use vstd::string::*;

verus! {

/// Whether the first field with a key stands at `k`.
pub open spec fn first_with(v: FieldTexts, key: Seq<char>, k: int) -> bool {
    0 <= k < v.len() && v[k].0 == key && forall|j: int| 0 <= j < k ==> (#[trigger] v[j]).0 != key
}

/// A field is the first one with its key. A text is read from a text, a number
/// from a number, and a port from either: the lower 16 bits of a number, or
/// what a text writes between white space.
pub proof fn law_fields_are_read(v: FieldTexts, key: Seq<char>, k: int, n: u64)
    ensures
        first_with(v, key, k) ==> match v[k].1 {
            PveField::Text(s) => text_field(v, key) == Some(s) && number_field(v, key) is None
                && port_field(v, key) == port_number(trimmed(s)),
            PveField::Number(n) => text_field(v, key) is None && number_field(v, key) == Some(n)
                && port_field(v, key) is Some && port_field(v, key)->0 == n % 65536,
            PveField::Other => text_field(v, key) is None && number_field(v, key) is None
                && port_field(v, key) is None,
        },
        (forall|j: int| 0 <= j < v.len() ==> (#[trigger] v[j]).0 != key) ==> text_field(
            v,
            key,
        ) is None && number_field(v, key) is None && port_field(v, key) is None,
        or_empty(None).len() == 0,
        or_empty(Some(key)) == key,
{
    if first_with(v, key, k) {
        lemma_get_field(v, key, k);
    }
    if forall|j: int| 0 <= j < v.len() ==> (#[trigger] v[j]).0 != key {
        lemma_get_field(v, key, v.len() as int);
    }
}

proof fn lemma_get_field(v: FieldTexts, key: Seq<char>, k: int)
    requires
        0 <= k <= v.len(),
        forall|j: int| 0 <= j < k ==> (#[trigger] v[j]).0 != key,
    ensures
        k < v.len() && v[k].0 == key ==> get_field(v, key) == Some(v[k].1),
        k == v.len() ==> get_field(v, key) is None,
    decreases k,
{
    if k > 0 {
        assert(v[0].0 != key);
        let t = v.skip(1);
        assert forall|j: int| 0 <= j < k - 1 implies (#[trigger] t[j]).0 != key by {
            assert(t[j] == v[j + 1]);
        }
        lemma_get_field(t, key, k - 1);
    }
}

/// A SPICE config comes exactly of a reply with a port, a host, a proxy and a
/// password, and holds them; the certificate has real line feeds.
pub proof fn law_spice_is_as_replied(r: Result<PveSpiceConfig, PveError>, v: FieldTexts)
    requires
        spice_outcome(r, PveDataText::Object(v)),
    ensures
        r is Ok <==> port_field(v, "tls-port"@) is Some && text_field(v, "host"@) is Some
            && text_field(v, "proxy"@) is Some && text_field(v, "password"@) is Some,
        r is Ok ==> {
            let c = r->Ok_0;
            &&& c.tls_port == port_field(v, "tls-port"@)->0
            &&& c.host@ == text_field(v, "host"@)->0
            &&& c.proxy@ == text_field(v, "proxy"@)->0
            &&& c.ticket@ == text_field(v, "password"@)->0
            &&& c.ca_cert@ == replaced(or_empty(text_field(v, "ca"@)), "\\n"@, "\n"@)
            &&& c.host_subject@ == or_empty(text_field(v, "host-subject"@))
        },
        port_field(v, "tls-port"@) is None ==> r is Err && unparsed(
            r->Err_0,
            "missing or invalid '"@ + "tls-port"@ + "'"@,
        ),
        port_field(v, "tls-port"@) is Some && text_field(v, "host"@) is None ==> r is Err
            && unparsed(r->Err_0, "missing '"@ + "host"@ + "'"@),
        port_field(v, "tls-port"@) is Some && text_field(v, "host"@) is Some && text_field(
            v,
            "proxy"@,
        ) is None ==> r is Err && unparsed(r->Err_0, "missing '"@ + "proxy"@ + "'"@),
        port_field(v, "tls-port"@) is Some && text_field(v, "host"@) is Some && text_field(
            v,
            "proxy"@,
        ) is Some && text_field(v, "password"@) is None ==> r is Err && unparsed(
            r->Err_0,
            "missing '"@ + "password"@ + "'"@,
        ),
{
    let q = seq!["host"@, "proxy"@, "password"@];
    assert(q[0] == "host"@ && q[1] == "proxy"@ && q[2] == "password"@);
}

/// A VNC config comes exactly of a reply with a port and a ticket. Its host is
/// the node.
pub proof fn law_vnc_is_as_replied(
    r: Result<VncConfig, PveError>,
    node: Seq<char>,
    v: FieldTexts,
)
    requires
        vnc_outcome(r, node, PveDataText::Object(v)),
    ensures
        r is Ok <==> port_field(v, "port"@) is Some && text_field(v, "ticket"@) is Some,
        r is Ok ==> r->Ok_0.host@ == node && r->Ok_0.port == port_field(v, "port"@)->0
            && r->Ok_0.ticket@ == text_field(v, "ticket"@)->0 && r->Ok_0.cert@ == or_empty(
            text_field(v, "cert"@),
        ),
        port_field(v, "port"@) is None ==> r is Err && unparsed(
            r->Err_0,
            "missing or invalid '"@ + "port"@ + "'"@,
        ),
        port_field(v, "port"@) is Some && text_field(v, "ticket"@) is None ==> r is Err && unparsed(
            r->Err_0,
            "missing '"@ + "ticket"@ + "'"@,
        ),
{
    let q = seq!["ticket"@];
    assert(q[0] == "ticket"@);
}

/// A serial config comes exactly of a reply with a port and a ticket. Its host
/// is the node.
pub proof fn law_serial_is_as_replied(
    r: Result<SerialConfig, PveError>,
    node: Seq<char>,
    v: FieldTexts,
)
    requires
        serial_outcome(r, node, PveDataText::Object(v)),
    ensures
        r is Ok <==> port_field(v, "port"@) is Some && text_field(v, "ticket"@) is Some,
        r is Ok ==> r->Ok_0.host@ == node && r->Ok_0.port == port_field(v, "port"@)->0
            && r->Ok_0.ticket@ == text_field(v, "ticket"@)->0,
        port_field(v, "port"@) is None ==> r is Err && unparsed(
            r->Err_0,
            "missing or invalid '"@ + "port"@ + "'"@,
        ),
        port_field(v, "port"@) is Some && text_field(v, "ticket"@) is None ==> r is Err && unparsed(
            r->Err_0,
            "missing '"@ + "ticket"@ + "'"@,
        ),
{
    let q = seq!["ticket"@];
    assert(q[0] == "ticket"@);
}

/// A terminal config comes exactly of a reply with a port and a ticket.
pub proof fn law_terminal_is_as_replied(r: Result<XtermConfig, PveError>, v: FieldTexts)
    requires
        xterm_outcome(r, PveDataText::Object(v)),
    ensures
        r is Ok <==> port_field(v, "port"@) is Some && text_field(v, "ticket"@) is Some,
        r is Ok ==> r->Ok_0.port == port_field(v, "port"@)->0 && r->Ok_0.ticket@ == text_field(
            v,
            "ticket"@,
        )->0,
        port_field(v, "port"@) is None ==> r is Err && unparsed(
            r->Err_0,
            "missing or invalid '"@ + "port"@ + "'"@,
        ),
        port_field(v, "port"@) is Some && text_field(v, "ticket"@) is None ==> r is Err && unparsed(
            r->Err_0,
            "missing '"@ + "ticket"@ + "'"@,
        ),
{
    let q = seq!["ticket"@];
    assert(q[0] == "ticket"@);
}

/// A reply without an object gives no console config: its fields are missing.
pub proof fn law_consoles_need_an_object(
    data: PveDataText,
    s: Result<PveSpiceConfig, PveError>,
    n: Result<VncConfig, PveError>,
    t: Result<SerialConfig, PveError>,
    x: Result<XtermConfig, PveError>,
    node: Seq<char>,
)
    requires
        !(data is Object),
    ensures
        spice_outcome(s, data) ==> s is Err,
        vnc_outcome(n, node, data) ==> n is Err,
        serial_outcome(t, node, data) ==> t is Err,
        xterm_outcome(x, data) ==> x is Err,
{
    assert(get_field(Seq::empty(), "port"@) is None);
    assert(get_field(Seq::empty(), "tls-port"@) is None);
    assert(fields_of(data) =~= Seq::empty());
}

/// A power action gives the text it is answered with as its task.
pub proof fn law_task_is_as_replied(r: Result<String, PveError>, data: PveDataText)
    requires
        task_outcome(r, data),
    ensures
        r is Ok <==> data is Text,
        r is Ok ==> r->Ok_0@ == data->Text_0,
        r is Err ==> unparsed(r->Err_0, "power action returned no task id"@),
{
}

/// A machine's node is that of the first resource with its id that names one.
pub proof fn law_node_of_a_machine(
    r: Result<String, PveError>,
    items: Seq<FieldTexts>,
    vmid: u32,
    k: int,
)
    requires
        node_outcome(r, PveDataText::List(items), vmid),
        0 <= k <= items.len(),
        forall|j: int|
            0 <= j < k ==> number_field(#[trigger] items[j], "vmid"@) != Some(vmid as u64)
                || text_field(items[j], "node"@) is None,
    ensures
        k < items.len() && number_field(items[k], "vmid"@) == Some(vmid as u64) && text_field(
            items[k],
            "node"@,
        ) is Some ==> r is Ok && r->Ok_0@ == text_field(items[k], "node"@)->0,
        k == items.len() ==> r is Err && unparsed(
            r->Err_0,
            "VM "@ + digits(vmid as nat)
                + " not found in the cluster (check the VM id, or that the token can see it)"@,
        ),
{
    lemma_node_of(items, vmid, k);
}

proof fn lemma_node_of(items: Seq<FieldTexts>, vmid: u32, k: int)
    requires
        0 <= k <= items.len(),
        forall|j: int|
            0 <= j < k ==> number_field(#[trigger] items[j], "vmid"@) != Some(vmid as u64)
                || text_field(items[j], "node"@) is None,
    ensures
        k < items.len() && number_field(items[k], "vmid"@) == Some(vmid as u64) && text_field(
            items[k],
            "node"@,
        ) is Some ==> node_of(items, vmid) == text_field(items[k], "node"@),
        k == items.len() ==> node_of(items, vmid) is None,
    decreases k,
{
    if k > 0 {
        let t = items.skip(1);
        assert(number_field(items[0], "vmid"@) != Some(vmid as u64) || text_field(
            items[0],
            "node"@,
        ) is None);
        assert forall|j: int| 0 <= j < k - 1 implies number_field(#[trigger] t[j], "vmid"@) != Some(
            vmid as u64,
        ) || text_field(t[j], "node"@) is None by {
            assert(t[j] == items[j + 1]);
        }
        lemma_node_of(t, vmid, k - 1);
    }
}

/// The machines are the resources with an id that are a VM or a container, in
/// their order.
pub proof fn law_machines_are_the_resources(items: Seq<FieldTexts>)
    ensures
        listed_resources(items) == items.filter(
            |v: FieldTexts|
                number_field(v, "vmid"@) is Some && (text_field(v, "type"@) == Some("qemu"@)
                    || text_field(v, "type"@) == Some("lxc"@)),
        ),
    decreases items.len(),
{
    reveal(Seq::filter);
    if items.len() > 0 {
        law_machines_are_the_resources(items.drop_last());
    } else {
        assert(listed_resources(items) =~= Seq::empty());
    }
}

/// A machine shows its resource, field by field, and each is shown.
pub proof fn law_machine_shows_its_resource(
    r: Result<Vec<PveVm>, PveError>,
    items: Seq<FieldTexts>,
    i: int,
)
    requires
        vms_outcome(r, PveDataText::List(items)),
    ensures
        r is Ok,
        r->Ok_0@.len() == listed_resources(items).len(),
        0 <= i < r->Ok_0@.len() ==> {
            let vm = r->Ok_0@[i];
            let v = listed_resources(items)[i];
            &&& number_field(v, "vmid"@) is Some && vm.vmid == number_field(v, "vmid"@)->0
                % 0x1_0000_0000
            &&& vm.name@ == or_empty(text_field(v, "name"@))
            &&& vm.node@ == or_empty(text_field(v, "node"@))
            &&& vm.status@ == or_empty(text_field(v, "status"@))
            &&& vm.vm_type == PveVmType::Qemu <==> text_field(v, "type"@) == Some("qemu"@)
            &&& vm.vm_type == PveVmType::Lxc <==> text_field(v, "type"@) == Some("lxc"@)
            &&& vm.os_type@ == or_empty(text_field(v, "ostype"@))
            &&& vm.ip_address@ == or_empty(text_field(v, "ip_address"@))
        },
{
    reveal_strlit("qemu");
    reveal_strlit("lxc");
    assert("qemu"@.len() == 4 && "lxc"@.len() == 3);
    if 0 <= i < r->Ok_0@.len() {
        assert(shows_resource(r->Ok_0@[i], listed_resources(items)[i]));
    }
}

/// The machines and the node need a list.
pub proof fn law_resources_need_a_list(
    n: Result<String, PveError>,
    m: Result<Vec<PveVm>, PveError>,
    data: PveDataText,
    vmid: u32,
)
    requires
        !(data is List),
    ensures
        node_outcome(n, data, vmid) ==> n is Err && unparsed(
            n->Err_0,
            "cluster/resources missing 'data' array"@,
        ),
        vms_outcome(m, data) ==> m is Err && unparsed(
            m->Err_0,
            "cluster/resources missing 'data' array"@,
        ),
{
}

/// A reply's data is what its `data` member holds: an object by its members, a
/// list by its items, or a text.
pub proof fn law_data_is_the_member(
    body: Seq<char>,
    value: JsonText,
    t: Seq<char>,
    m: Seq<(Seq<char>, Seq<char>)>,
    items: Seq<Seq<char>>,
    s: Seq<char>,
    i: int,
)
    requires
        json_of(body) == Ok::<JsonText, Seq<char>>(value),
    ensures
        data_of(body) is Ok,
        member_text(value, "data"@) is None ==> data_of(body)->Ok_0 is Other,
        member_text(value, "data"@) == Some(t) && json_of(t) == Ok::<JsonText, Seq<char>>(
            JsonText::Text(s),
        ) ==> data_of(body)->Ok_0 == PveDataText::Text(s),
        member_text(value, "data"@) == Some(t) && json_of(t) == Ok::<JsonText, Seq<char>>(
            JsonText::Object(m),
        ) ==> data_of(body)->Ok_0 is Object && data_of(body)->Ok_0->Object_0.len() == m.len() && (0
            <= i < m.len() ==> data_of(body)->Ok_0->Object_0[i].0 == m[i].0
            && data_of(body)->Ok_0->Object_0[i].1 == field_of(m[i].1)),
        member_text(value, "data"@) == Some(t) && json_of(t) == Ok::<JsonText, Seq<char>>(
            JsonText::List(items),
        ) ==> data_of(body)->Ok_0 is List && data_of(body)->Ok_0->List_0.len() == items.len() && (0
            <= i < items.len() ==> data_of(body)->Ok_0->List_0[i] == item_fields(items[i])),
        json_of(t) == Ok::<JsonText, Seq<char>>(JsonText::Object(m)) ==> item_fields(t).len()
            == m.len() && (0 <= i < m.len() ==> item_fields(t)[i].0 == m[i].0 && item_fields(t)[i].1
            == field_of(m[i].1)),
        json_of(t) == Ok::<JsonText, Seq<char>>(JsonText::Text(s)) ==> field_of(t)
            == PveField::Text(s),
        !(json_of(t) is Ok && json_of(t)->Ok_0 is Object) ==> item_fields(t).len() == 0,
{
}

/// A field that is a whole number is read as it; one that is neither a whole
/// number nor a text as something else. A body that is no JSON has no data.
pub proof fn law_numbers_in_replies(json: Seq<char>, n: u64)
    ensures
        json_of(json) == Ok::<JsonText, Seq<char>>(JsonText::Number(Some(n))) ==> field_of(json)
            == PveField::Number(n),
        json_of(json) is Err ==> field_of(json) is Other && data_of(json) is Err
            && data_of(json)->Err_0 == json_of(json)->Err_0,
        json_of(json) is Ok && (json_of(json)->Ok_0 is Object || json_of(json)->Ok_0 is List)
            ==> field_of(json) is Other,
{
}

/// A failed request says why: by its message, else by its errors, else by the
/// first 200 characters of its body.
pub proof fn law_failures_give_their_reason(body: Seq<char>)
    ensures
        json_of(body) is Ok && string_member(json_of(body)->Ok_0, "message"@) is Some
            ==> failure_text(reason_of(body), body) == trimmed(
            string_member(json_of(body)->Ok_0, "message"@)->0,
        ),
        json_of(body) is Ok && string_member(json_of(body)->Ok_0, "message"@) is None
            && member_text(json_of(body)->Ok_0, "errors"@) is Some ==> failure_text(
            reason_of(body),
            body,
        ) == trimmed(member_text(json_of(body)->Ok_0, "errors"@)->0),
        json_of(body) is Err && body.len() <= 200 ==> failure_text(reason_of(body), body)
            == trimmed(body),
        json_of(body) is Err && body.len() > 200 ==> failure_text(reason_of(body), body) == trimmed(
            body.take(200),
        ),
        json_of(body) is Ok && string_member(json_of(body)->Ok_0, "message"@) is None
            && member_text(json_of(body)->Ok_0, "errors"@) is None && body.len() <= 200
            ==> failure_text(reason_of(body), body) == trimmed(body),
{
    assert(body.take(body.len() as int) =~= body);
}

/// Where a machine is found, which actions it takes and how errors read.
pub proof fn law_paths_and_messages(
    node: Seq<char>,
    vmid: u32,
    action: Seq<char>,
    m: String,
    code: u16,
)
    ensures
        vm_path_of(node, PveVmType::Qemu, vmid) == "/api2/json/nodes/"@ + node + "/"@ + "qemu"@
            + "/"@ + digits(vmid as nat),
        vm_path_of(node, PveVmType::Lxc, vmid) == "/api2/json/nodes/"@ + node + "/"@ + "lxc"@
            + "/"@ + digits(vmid as nat),
        power_verb(action) <==> action == "start"@ || action == "stop"@ || action == "shutdown"@
            || action == "suspend"@ || action == "resume"@ || action == "reboot"@,
        PveError::Transport(m).message_spec() == "PVE API transport error: "@ + m@,
        PveError::Parse(m).message_spec() == "PVE API response parse error: "@ + m@,
        m@.len() == 0 ==> PveError::Api(code, m).message_spec() == "PVE API returned HTTP "@
            + digits(code as nat),
        m@.len() > 0 ==> PveError::Api(code, m).message_spec() == "PVE API returned HTTP "@
            + digits(code as nat) + ": "@ + m@,
        unparsed(PveError::Parse(m), m@),
        unparsed(PveError::Parse(m), action) ==> m@ == action,
        !unparsed(PveError::Transport(m), action) && !unparsed(PveError::Api(code, m), action),
{
}

} // verus!
