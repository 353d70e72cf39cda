use capable_broker::net::{
    absorb, build_request, canonical_request_target, is_blocked_ip, parse_http_response, path_matches,
    resolve_checked, valid_host, HostAddr, Ip,
};

fn v4(text: &str) -> Ip {
    let p: Vec<u8> = text.split('.').map(|s| s.parse().unwrap()).collect();
    Ip::V4([p[0], p[1], p[2], p[3]])
}

fn addr(text: &str) -> HostAddr {
    HostAddr { ip: v4(text), port: 80, shown: text.to_string() }
}

/// What a lookup of a host that is an address, or `localhost`, finds.
fn look_up(host: &str, port: u16) -> Result<Vec<HostAddr>, String> {
    let ip = match host {
        "localhost" => "127.0.0.1",
        "metadata.google.internal" => "93.184.216.34",
        other => other,
    };
    resolve_checked(host, Ok(vec![HostAddr { ip: v4(ip), port, shown: ip.to_string() }]))
}

#[test]
fn blocks_metadata_and_private() {
    assert!(look_up("metadata.google.internal", 80).is_err());
    assert!(look_up("169.254.169.254", 80).is_err());
    assert!(look_up("10.0.0.1", 80).is_err());
    assert!(look_up("192.168.1.1", 80).is_err());
    assert!(look_up("127.0.0.1", 80).is_err());
    assert!(look_up("localhost", 80).is_err());
}

#[test]
fn ip_classification() {
    assert!(is_blocked_ip(v4("169.254.169.254")));
    assert!(is_blocked_ip(v4("10.1.2.3")));
    assert!(is_blocked_ip(Ip::V6([0, 0, 0, 0, 0, 0, 0, 1]))); // ::1
    assert!(is_blocked_ip(Ip::V6([0xfe80, 0, 0, 0, 0, 0, 0, 1]))); // fe80::1
    assert!(!is_blocked_ip(v4("93.184.216.34")));
    assert!(!is_blocked_ip(v4("8.8.8.8")));
}

#[test]
fn path_glob() {
    assert!(path_matches("/v1/*", "/v1/models"));
    assert!(!path_matches("/v1/*", "/v1/models/x"));
    assert!(path_matches("/v1/**", "/v1/a/b/c"));
    assert!(path_matches("/v1/**", "/v1"));
    assert!(!path_matches("/v1/*", "/v2/models"));
}

#[test]
fn canonical_target_and_injection_and_normalization() {
    assert_eq!(canonical_request_target("/v1/models").unwrap(), "/v1/models");
    assert_eq!(canonical_request_target("/v1/a/../b").unwrap(), "/v1/b");
    assert_eq!(canonical_request_target("/v1//models").unwrap(), "/v1/models");
    assert_eq!(canonical_request_target("/v1/models?x=1").unwrap(), "/v1/models?x=1");
    assert!(canonical_request_target("/a\r\nX-Original-URL: /admin").is_err());
    assert!(canonical_request_target("/a\0b").is_err());
    assert!(canonical_request_target("/a b").is_err());
    assert!(canonical_request_target("http://evil/").is_err());
    assert!(canonical_request_target("admin").is_err());
    assert!(canonical_request_target("//host/x").is_err());
    assert!(canonical_request_target("/v1/%2e%2e/admin").is_err());
    assert!(canonical_request_target("/v1/%2f..%2fadmin").is_err());
    assert!(canonical_request_target("/v1/%5c..%5cadmin").is_err());
    assert!(canonical_request_target("/v1/\\..\\admin").is_err());
    assert!(canonical_request_target("/%GG").is_err());
    assert!(canonical_request_target("/..").is_err());
    assert!(valid_host("api.example.com").is_ok());
    assert!(valid_host("a-b.example.com").is_ok());
    assert!(valid_host("x1.y2.z3").is_ok());
    assert!(valid_host("[2001:db8::1]").is_ok());
    assert!(valid_host("93.184.216.34").is_ok());
    assert!(valid_host("evil\r\nHost: x").is_err());
    assert!(valid_host("a b").is_err());
    assert!(valid_host("a..b").is_err());
    assert!(valid_host(".example.com").is_err());
    assert!(valid_host("example.com.").is_err());
    assert!(valid_host("-a.example.com").is_err());
    assert!(valid_host("a-.example.com").is_err());
    assert!(valid_host("under_score.example.com").is_err());
    assert!(valid_host("1.2.3.4.5").is_err());
    assert!(valid_host("999.1").is_err());
    assert!(valid_host("[2001:db8::1").is_err());
    assert!(valid_host("[not-an-ip]").is_err());
    assert!(valid_host("a]b").is_err());
    assert!(valid_host("host:8080").is_err());
    assert!(valid_host(&"a".repeat(64)).is_err());
}

#[test]
fn blocks_reserved_and_multicast() {
    assert!(is_blocked_ip(v4("0.0.0.1")));
    assert!(is_blocked_ip(v4("224.0.0.1")));
    assert!(is_blocked_ip(v4("239.255.255.250")));
    assert!(is_blocked_ip(v4("240.0.0.1")));
    assert!(is_blocked_ip(v4("255.255.255.255")));
    assert!(is_blocked_ip(v4("192.0.2.1")));
    assert!(is_blocked_ip(Ip::V6([0xff02, 0, 0, 0, 0, 0, 0, 1]))); // ff02::1
    assert!(!is_blocked_ip(v4("93.184.216.34")));
}

#[test]
fn range_edges_are_blocked_exactly() {
    for t in ["100.64.0.0", "100.127.255.255", "172.16.0.1", "172.31.255.255", "192.88.99.1", "198.51.100.7"] {
        assert!(is_blocked_ip(v4(t)), "{}", t);
    }
    for t in ["100.63.255.255", "100.128.0.0", "172.15.0.1", "172.32.0.1", "223.255.255.255", "192.1.2.3"] {
        assert!(!is_blocked_ip(v4(t)), "{}", t);
    }
}

#[test]
fn mapped_addresses_are_judged_by_the_inner_one() {
    assert!(is_blocked_ip(Ip::V6([0, 0, 0, 0, 0, 0xffff, 0x7f00, 1])));
    assert!(!is_blocked_ip(Ip::V6([0, 0, 0, 0, 0, 0xffff, 0x0808, 0x0808])));
    assert!(is_blocked_ip(Ip::V6([0; 8])));
    assert!(is_blocked_ip(Ip::V6([0xfc00, 0, 0, 0, 0, 0, 0, 1])));
    assert!(!is_blocked_ip(Ip::V6([0x2606, 0x2800, 0, 0, 0, 0, 0, 1])));
}

#[test]
fn one_address_out_of_bounds_refuses_all() {
    let both = vec![addr("93.184.216.34"), addr("10.0.0.1")];
    match resolve_checked("mixed.example", Ok(both)) {
        Err(e) => assert_eq!(
            e,
            "egress 拒绝:mixed.example 解析到被禁 IP 10.0.0.1(private/loopback/link-local/metadata)"
        ),
        Ok(_) => panic!("must be refused"),
    }
    match resolve_checked("none.example", Ok(vec![])) {
        Err(e) => assert_eq!(e, "egress 拒绝:none.example 无解析结果"),
        Ok(_) => panic!("must be refused"),
    }
    match resolve_checked("lost.example", Err("no such host".to_string())) {
        Err(e) => assert_eq!(e, "DNS 解析失败: no such host"),
        Ok(_) => panic!("must be refused"),
    }
    match resolve_checked("MetaData", Ok(vec![addr("93.184.216.34")])) {
        Err(e) => assert_eq!(e, "egress 拒绝:metadata 主机 MetaData"),
        Ok(_) => panic!("must be refused"),
    }
    assert_eq!(resolve_checked("good.example", Ok(vec![addr("93.184.216.34")])).unwrap_or_default().len(), 1);
}

#[test]
fn a_canonical_target_stays_as_it_is() {
    for raw in ["/", "/a/b/../c/./d?q=/../x", "/a/%41b/", "//"] {
        if let Ok(once) = canonical_request_target(raw) {
            assert_eq!(canonical_request_target(&once).unwrap(), once);
        }
    }
    assert_eq!(canonical_request_target("/a/b/../c/./d?q=/../x").unwrap(), "/a/c/d?q=/../x");
    assert_eq!(
        canonical_request_target("admin").unwrap_err(),
        "request-target 必须以 / 起始: \"admin\""
    );
}

#[test]
fn requests_are_written_in_one_form() {
    assert_eq!(
        build_request("example.com:8080", "/v1?x=1").unwrap(),
        "GET /v1?x=1 HTTP/1.0\r\nHost: example.com:8080\r\nUser-Agent: capable/0.1\r\nAccept: */*\r\nConnection: close\r\n\r\n"
    );
    assert!(build_request("example.com", "/a\r\nX: y").is_err());
    assert!(build_request("example.com x", "/a").is_err());
}

#[test]
fn answers_are_cut_at_the_limit() {
    let mut raw: Vec<u8> = Vec::new();
    assert!(!absorb(&mut raw, b"abcd", 6));
    assert!(absorb(&mut raw, b"efgh", 6));
    assert_eq!(raw, b"abcdef");
}

#[test]
fn answers_are_read() {
    let r = parse_http_response(b"HTTP/1.0 200 OK\r\nA: b\r\n\r\nbody\r\n\r\nmore");
    match r {
        Ok(h) => {
            assert_eq!(h.status, 200);
            assert_eq!(h.body, b"body\r\n\r\nmore");
        }
        Err(e) => panic!("{}", e),
    }
    assert!(parse_http_response(b"HTTP/1.0 200 OK\r\nno end").is_err());
    match parse_http_response(b"HTTP/1.0 abc\r\n\r\n") {
        Err(e) => assert_eq!(e, "无法解析 HTTP status"),
        Ok(_) => panic!("must be refused"),
    }
}
