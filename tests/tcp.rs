use curlite::{add_incoming_sign, frame_response, remove_headers, render_response, split_http_response};

const SAMPLE: &str = "HTTP/1.1 200 OK\r\nContent-Type: text/plain\r\n\r\nhello";

#[test]
fn verbose_prefixes_head_lines() {
    assert_eq!(
        add_incoming_sign(SAMPLE),
        "< HTTP/1.1 200 OK\n< Content-Type: text/plain\n<\nhello"
    );
}

#[test]
fn verbose_without_marker_is_empty() {
    assert_eq!(add_incoming_sign("HTTP/1.1 200 OK\r\nno end"), "");
}

#[test]
fn verbose_rendering_is_not_applied_twice() {
    let once = add_incoming_sign(SAMPLE);
    assert_eq!(add_incoming_sign(&once), "");
    assert!(!add_incoming_sign(&once).contains("< <"));
}

#[test]
fn split_at_first_marker() {
    let (head, body) = split_http_response("a\r\n\r\nb\r\n\r\nc").unwrap();
    assert_eq!(head, "a");
    assert_eq!(body, "b\r\n\r\nc");
    assert!(split_http_response("a\r\nb").is_none());
    let (head, body) = split_http_response("\r\n\r\n").unwrap();
    assert_eq!(head, "");
    assert_eq!(body, "");
}

#[test]
fn compact_starts_at_first_brace() {
    let r = "HTTP/1.1 200 OK\r\nContent-Type: application/json\r\n\r\n{\"headers\":{\"a\":\"b\"},\"x\":1}";
    assert_eq!(remove_headers(r), Some("{\"headers\":{\"a\":\"b\"},\"x\":1}"));
}

#[test]
fn compact_without_brace_shows_nothing() {
    assert_eq!(remove_headers(SAMPLE), None);
    let shown = render_response(SAMPLE, false);
    assert!(shown.display.is_none());
    assert_eq!(shown.response, SAMPLE);
}

#[test]
fn verbose_render_shows_and_returns_signed_text() {
    let shown = render_response(SAMPLE, true);
    let signed = "< HTTP/1.1 200 OK\n< Content-Type: text/plain\n<\nhello";
    assert_eq!(shown.response, signed);
    assert_eq!(shown.display.as_deref(), Some(signed));
}

#[test]
fn framing_decodes_invalid_bytes_lossily() {
    let mut raw = b"HTTP/1.1 200 OK\r\n\r\n{\"k\":\"".to_vec();
    raw.push(0xff);
    raw.extend_from_slice(b"\"}");
    let shown = frame_response(&raw, false);
    assert_eq!(shown.display.as_deref(), Some("{\"k\":\"\u{fffd}\"}"));
    assert!(shown.response.starts_with("HTTP/1.1 200 OK"));
}

#[test]
fn framing_valid_bytes_verbose() {
    let shown = frame_response(&SAMPLE.as_bytes().to_vec(), true);
    assert_eq!(
        shown.response,
        "< HTTP/1.1 200 OK\n< Content-Type: text/plain\n<\nhello"
    );
}
