use persea::net_util::{
    endpoint, has_valid_trailing_port, parse_host_port, parse_port, split_host_port, ParsedUrl,
};

#[test]
fn split_host_and_port() {
    assert_eq!(split_host_port("example.com:22"), ("example.com", "22"));
    assert_eq!(split_host_port("127.0.0.1:4822"), ("127.0.0.1", "4822"));
}

#[test]
fn split_without_port_is_all_host() {
    assert_eq!(split_host_port("example.com"), ("example.com", ""));
}

#[test]
fn bracketed_ipv6_keeps_host_intact() {
    assert_eq!(split_host_port("[::1]:22"), ("[::1]", "22"));
    assert_eq!(
        split_host_port("[2001:db8::1]:4822"),
        ("[2001:db8::1]", "4822")
    );
}

#[test]
fn bare_ipv6_follows_last_colon_semantics() {
    // Without brackets the cut is the last colon.
    assert_eq!(split_host_port("::1"), (":", "1"));
}

#[test]
fn parts_of_an_address() {
    // Split parts make up the address.
    {
        for addr in ["example.com:22", "a:b:c", "[::1]:22", "ü:7"] {
            let (host, port) = split_host_port(addr);
            assert_eq!(format!("{host}:{port}"), addr);
        }
    }
    // Parse port takes a plus sign.
    {
        assert_eq!(parse_port("+22"), Some(22));
        assert_eq!(parse_port("+"), None);
        assert_eq!(parse_port("0000000000000022"), Some(22));
    }
}

#[test]
fn parse_port_variants() {
    assert_eq!(parse_port("4822"), Some(4822));
    assert_eq!(parse_port("0"), Some(0));
    assert_eq!(parse_port("65535"), Some(65535));
    assert_eq!(parse_port("65536"), None);
    assert_eq!(parse_port("-1"), None);
    assert_eq!(parse_port("abc"), None);
    assert_eq!(parse_port(""), None);
}

#[test]
fn trailing_port_check() {
    assert!(has_valid_trailing_port("127.0.0.1:4822"));
    assert!(has_valid_trailing_port("[::1]:4822"));
    assert!(!has_valid_trailing_port("host:99999"));
    assert!(!has_valid_trailing_port("host:nonsense"));
}

#[test]
fn parse_host_port_urls_and_authorities() {
    assert_eq!(
        parse_host_port("https://pve.example.com:8006", 443).unwrap(),
        ("pve.example.com".to_string(), 8006)
    );
    assert_eq!(
        parse_host_port("proxy.example.com:3128", 3128).unwrap(),
        ("proxy.example.com".to_string(), 3128)
    );
    assert_eq!(
        parse_host_port("bare-host", 3128).unwrap(),
        ("bare-host".to_string(), 3128)
    );
    assert!(parse_host_port("://bad", 1).is_err());
}

#[test]
fn ports_of_endpoints() {
    // Endpoint of a parsed url.
    {
        let url = |host: Option<&str>, port: Option<u16>| ParsedUrl {
            scheme: "https".to_string(),
            host: host.map(|h| h.to_string()),
            port,
            known_port: port,
            path: "/".to_string(),
            query: None,
        };
        assert_eq!(
            endpoint(Ok(url(Some("h"), Some(8006))), "in", 443),
            Ok(("h".to_string(), 8006))
        );
        assert_eq!(
            endpoint(Ok(url(Some("h"), None)), "in", 443),
            Ok(("h".to_string(), 443))
        );
        assert_eq!(
            endpoint(Ok(url(None, None)), "in", 443),
            Err("no host in 'in'".to_string())
        );
    }
    // A written port is used also where it is the scheme s own.
    {
        let port = |input: &str| parse_host_port(input, 8006).unwrap().1;
        assert_eq!(port("https://pve.example.com:443"), 443);
        assert_eq!(port("http://pve.example.com:80/x?y=1"), 80);
        assert_eq!(port("https://user:9@pve.example.com:443/"), 443);
        assert_eq!(port("https://[::1]:443"), 443);
        assert_eq!(port("https://pve.example.com"), 8006);
        assert_eq!(port("https://pve.example.com:"), 8006);
        assert_eq!(port("https://user:9@pve.example.com/a:443"), 8006);
        assert_eq!(port("https://pve.example.com?a:443"), 8006);
        assert_eq!(port("https://[::1]"), 8006);
        assert_eq!(port("pve.example.com"), 8006);
        let own = ParsedUrl {
            scheme: "https".to_string(),
            host: Some("h".to_string()),
            port: None,
            known_port: Some(443),
            path: "/".to_string(),
            query: None,
        };
        assert_eq!(endpoint(Ok(own), "https://h:443", 8006), Ok(("h".to_string(), 443)));
    }
}
