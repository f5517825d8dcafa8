use curlite::{build_request, decimal_string, parse_url, plan_call, ParsedArgs, UrlSections, METHOD};

fn sections(protocol: &str, host: &str, port: Option<u16>, path: &str) -> UrlSections {
    UrlSections {
        protocol: protocol.to_string(),
        host: host.to_string(),
        port,
        path: path.to_string(),
    }
}

#[test]
fn get_request_is_exact() {
    let s = sections("http", "example.com", None, "/");
    let r = build_request(METHOD::GET, &s, &None, &None);
    assert_eq!(
        r,
        "GET / HTTP/1.1\r\nHost: example.com \r\n Accept: */*\r\nConnection: close\r\n\r\n"
    );
}

#[test]
fn body_brings_content_length_in_bytes() {
    let s = sections("http", "example.com", None, "/post");
    let body = Some("héllo".to_string());
    let r = build_request(METHOD::POST, &s, &None, &body);
    assert!(r.contains("Content-Length: 6\r\n"));
    assert!(r.ends_with("\r\n\r\nhéllo"));
    assert_eq!(
        r,
        "POST /post HTTP/1.1\r\nHost: example.com \r\nContent-Length: 6\r\n Accept: */*\r\nConnection: close\r\n\r\nhéllo"
    );
}

#[test]
fn empty_body_has_zero_length() {
    let s = sections("http", "h", None, "/");
    let r = build_request(METHOD::PUT, &s, &None, &Some(String::new()));
    assert!(r.contains("Content-Length: 0\r\n"));
    assert!(r.ends_with("\r\n\r\n"));
}

#[test]
fn header_block_is_kept_verbatim() {
    let s = sections("https", "api.test", Some(8443), "/v1");
    let header = Some("X-Token: abc\r\nX-Other: 1\r\n".to_string());
    let r = build_request(METHOD::DELETE, &s, &header, &None);
    assert_eq!(
        r,
        "DELETE /v1 HTTP/1.1\r\nHost: api.test \r\nX-Token: abc\r\nX-Other: 1\r\n Accept: */*\r\nConnection: close\r\n\r\n"
    );
    assert!(!r.contains("Content-Length"));
}

#[test]
fn decimal_values() {
    assert_eq!(decimal_string(0), "0");
    assert_eq!(decimal_string(7), "7");
    assert_eq!(decimal_string(10), "10");
    assert_eq!(decimal_string(1234567890), "1234567890");
}

#[test]
fn plan_uses_protocol_default_ports() {
    let plain = ParsedArgs {
        url_sections: parse_url("http://example.com/x".to_string()).unwrap(),
        verbose: false,
        method: METHOD::GET,
        data: None,
        header: None,
    };
    let p = plan_call(&plain);
    assert_eq!(p.port, 80);
    assert!(!p.tls);
    assert_eq!(p.host, "example.com");
    assert!(p.request.starts_with("GET /x HTTP/1.1\r\n"));

    let secure = ParsedArgs {
        url_sections: parse_url("https://example.com".to_string()).unwrap(),
        verbose: true,
        method: METHOD::POST,
        data: Some("{}".to_string()),
        header: None,
    };
    let p = plan_call(&secure);
    assert_eq!(p.port, 443);
    assert!(p.tls);
    assert!(p.request.contains("Content-Length: 2\r\n"));
}

#[test]
fn plan_keeps_explicit_port() {
    let req = ParsedArgs {
        url_sections: parse_url("https://example.com:8080".to_string()).unwrap(),
        verbose: false,
        method: METHOD::GET,
        data: None,
        header: None,
    };
    let p = plan_call(&req);
    assert_eq!(p.port, 8080);
    assert!(p.tls);
}
