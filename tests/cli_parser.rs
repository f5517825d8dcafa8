use curlite::{parse_url, UrlSections, METHOD};

#[test]
fn should_parse_url_with_port_and_path() {
    let url = "http://ogzhanolguncu.com:80/best-typescript-types".to_string();

    assert_eq!(
        parse_url(url).unwrap(),
        UrlSections {
            host: "ogzhanolguncu.com".to_string(),
            path: "/best-typescript-types".to_string(),
            protocol: "http".to_string(),
            port: Some(80)
        }
    )
}

#[test]
fn should_parse_url_without_port_and_path() {
    let url = "https://ogzhanolguncu.com".to_string();

    assert_eq!(
        parse_url(url).unwrap(),
        UrlSections {
            host: "ogzhanolguncu.com".to_string(),
            path: "/".to_string(),
            protocol: "https".to_string(),
            port: None
        }
    )
}

#[test]
fn parses_port_without_path() {
    let s = parse_url("http://localhost:8080".to_string()).unwrap();
    assert_eq!(s.protocol, "http");
    assert_eq!(s.host, "localhost");
    assert_eq!(s.port, Some(8080));
    assert_eq!(s.path, "/");
}

#[test]
fn parses_path_without_port() {
    let s = parse_url("https://example.com/a/b?q=1".to_string()).unwrap();
    assert_eq!(s.protocol, "https");
    assert_eq!(s.host, "example.com");
    assert_eq!(s.port, None);
    assert_eq!(s.path, "/a/b?q=1");
}

#[test]
fn port_too_large_is_absent() {
    let s = parse_url("http://example.com:70000/x".to_string()).unwrap();
    assert_eq!(s.port, None);
    assert_eq!(s.path, "/x");
    let s = parse_url("http://example.com:65535".to_string()).unwrap();
    assert_eq!(s.port, Some(65535));
}

#[test]
fn colon_without_digits_gives_no_port_and_root_path() {
    let s = parse_url("http://example.com:/x".to_string()).unwrap();
    assert_eq!(s.host, "example.com");
    assert_eq!(s.port, None);
    assert_eq!(s.path, "/");
}

#[test]
fn port_zero_is_kept() {
    let s = parse_url("http://h:0".to_string()).unwrap();
    assert_eq!(s.port, Some(0));
}

#[test]
fn rejects_missing_scheme() {
    assert!(parse_url("example.com/path".to_string()).is_err());
    assert!(parse_url("ftp://example.com".to_string()).is_err());
    assert!(parse_url("HTTP://example.com".to_string()).is_err());
    assert!(parse_url("".to_string()).is_err());
}

#[test]
fn rejects_empty_host() {
    assert!(parse_url("http://".to_string()).is_err());
    assert!(parse_url("https:///path".to_string()).is_err());
    assert!(parse_url("http://:80/".to_string()).is_err());
}

#[test]
fn method_names() {
    assert_eq!(METHOD::GET.as_str(), "GET");
    assert_eq!(METHOD::POST.as_str(), "POST");
    assert_eq!(METHOD::PUT.as_str(), "PUT");
    assert_eq!(METHOD::DELETE.as_str(), "DELETE");
}
