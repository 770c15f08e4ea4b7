use persea::pve::{
    api_error, api_method, err_chain, failure, find_node, list_vms, power_task, read_response,
    serial_config, spice_config, vnc_config, xterm_config, ApiMethod, PveBroker, PveData,
    PveError, PveValue, PveVmType,
};

fn broker() -> PveBroker {
    PveBroker {
        base_url: "https://pve.example.com:8006".into(),
        api_token: "user@pam!tok=secret".into(),
        verify_tls: false,
    }
}

#[test]
fn parses_spiceproxy_style_fields_and_unescapes_ca() {
    let body = r#"{"data":{
        "type":"spice",
        "host":"pvespiceproxy:687ea156:10016:pve::abc",
        "proxy":"http://pve.example.com:3128",
        "tls-port":61002,
        "password":"one-time-ticket",
        "host-subject":"OU=PVE Cluster Node,CN=pve.example.com",
        "ca":"-----BEGIN CERTIFICATE-----\nMIIB\n-----END CERTIFICATE-----\n"
    }}"#;
    let config = broker().fetch_spice_config(body).unwrap();
    assert!(config.host.contains("pvespiceproxy"));
    assert_eq!(config.tls_port, 61002);
    assert!(config.ca_cert.contains("-----BEGIN CERTIFICATE-----\n"));
    assert!(!config.ca_cert.contains("\\n"));
    assert_eq!(config.proxy, "http://pve.example.com:3128");
    assert_eq!(config.ticket, "one-time-ticket");
    assert_eq!(config.host_subject, "OU=PVE Cluster Node,CN=pve.example.com");
}

#[test]
fn vm_path_is_base_relative() {
    assert_eq!(
        broker().vm_path("pve1", PveVmType::Qemu, 101),
        "/api2/json/nodes/pve1/qemu/101"
    );
}

fn text(k: &str, v: &str) -> (String, PveValue) {
    (k.to_string(), PveValue::Text(v.to_string()))
}

fn number(k: &str, n: u64) -> (String, PveValue) {
    (k.to_string(), PveValue::Number(n))
}

#[test]
fn escaped_newlines_in_the_ca() {
    let data = PveData::Object(vec![
        number("tls-port", 61000),
        text("host", "h"),
        text("proxy", "p"),
        text("password", "t"),
        text("ca", "a\\nb"),
    ]);
    let c = spice_config(data).unwrap();
    assert_eq!(c.ca_cert, "a\nb");
    assert_eq!(c.host_subject, "");
}

#[test]
fn fields_of_a_console() {
    // Missing fields are named.
    {
        let e = spice_config(PveData::Object(vec![number("tls-port", 1), text("host", "h")]))
            .unwrap_err();
        assert_eq!(e.message(), "PVE API response parse error: missing 'proxy'");
        let e = vnc_config("n", PveData::Object(vec![text("ticket", "t")])).unwrap_err();
        assert!(e.message().ends_with("missing or invalid 'port'"));
        assert!(xterm_config(PveData::Other).is_err());
    }
    // Console configs.
    {
        let fields = || PveData::Object(vec![number("port", 5900), text("ticket", "t")]);
        let v = vnc_config("node1", fields()).unwrap();
        assert_eq!((v.host.as_str(), v.port, v.ticket.as_str(), v.cert.as_str()), ("node1", 5900, "t", ""));
        let s = serial_config("node1", fields()).unwrap();
        assert_eq!((s.host.as_str(), s.port, s.ticket.as_str()), ("node1", 5900, "t"));
        let x = xterm_config(fields()).unwrap();
        assert_eq!((x.port, x.ticket.as_str()), (5900, "t"));
        let b = broker();
        let body = r#"{"data":{"port":"5901","ticket":"t2","cert":"c"}}"#;
        assert_eq!(b.fetch_vnc_config("n", body).unwrap().port, 5901);
        assert_eq!(b.fetch_serial_config("n", body).unwrap().ticket, "t2");
        assert_eq!(b.fetch_xtermjs_config(body).unwrap().port, 5901);
    }
}

#[test]
fn requests_and_responses() {
    // Requests.
    {
        let b = broker();
        assert_eq!(b.request_url("/x"), "https://pve.example.com:8006/x");
        assert_eq!(b.authorization(), "PVEAPIToken=user@pam!tok=secret");
        assert_eq!(
            b.console_path("pve1", PveVmType::Lxc, 7, "vncproxy"),
            "/api2/json/nodes/pve1/lxc/7/vncproxy"
        );
        assert_eq!(
            b.power_path("pve1", PveVmType::Qemu, 7, "start").unwrap(),
            "/api2/json/nodes/pve1/qemu/7/status/start"
        );
        assert!(b.power_path("pve1", PveVmType::Qemu, 7, "explode").is_err());
        assert_eq!(api_method("GET").unwrap(), ApiMethod::Get);
        assert_eq!(api_method("POST").unwrap(), ApiMethod::Post);
        assert!(api_method("PUT").is_err());
    }
    // Responses.
    {
        let b = broker();
        let body = r#"{"data":[
            {"vmid":100,"name":"web","node":"pve1","status":"running","type":"qemu"},
            {"vmid":101,"name":"ct","node":"pve2","status":"stopped","type":"lxc"},
            {"id":"storage/x","type":"storage"}
        ]}"#;
        assert_eq!(b.resolve_node(101, body).unwrap(), "pve2");
        assert_eq!(
            b.resolve_node(102, body).unwrap_err().message(),
            "PVE API response parse error: VM 102 not found in the cluster (check the VM id, or that the token can see it)"
        );
        let vms = b.list_all_vms(body).unwrap();
        assert_eq!(vms.len(), 2);
        assert_eq!((vms[0].vmid, vms[0].name.as_str(), vms[0].vm_type), (100, "web", PveVmType::Qemu));
        assert_eq!((vms[1].node.as_str(), vms[1].vm_type), ("pve2", PveVmType::Lxc));
        assert_eq!(b.power_action(r#"{"data":"UPID:1"}"#).unwrap(), "UPID:1");
        assert!(b.power_action(r#"{"data":{}}"#).is_err());
        assert!(read_response("not json").is_err());
        let rows = PveData::List(vec![vec![number("vmid", 5), text("node", "n"), text("type", "qemu")]]);
        assert_eq!(find_node(&rows, 5).unwrap(), "n");
        assert_eq!(list_vms(&rows).unwrap().len(), 1);
        assert_eq!(power_task(PveData::Text("t".to_string())).unwrap(), "t");
    }
    // Errors in words.
    {
        assert_eq!(
            PveError::Transport("refused".to_string()).message(),
            "PVE API transport error: refused"
        );
        assert_eq!(PveError::Api(500, String::new()).message(), "PVE API returned HTTP 500");
        assert_eq!(
            api_error(403, r#"{"message":"Permission check failed\n"}"#).message(),
            "PVE API returned HTTP 403: Permission check failed"
        );
        assert_eq!(
            api_error(400, "plain body ").message(),
            "PVE API returned HTTP 400: plain body"
        );
        assert_eq!(
            failure(400, Some(" why ".to_string()), "body").message(),
            "PVE API returned HTTP 400: why"
        );
        assert_eq!(
            err_chain(&vec!["a".to_string(), "b".to_string()]),
            "a: b"
        );
    }
}
