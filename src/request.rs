use vstd::prelude::*;
use vstd::string::*;
use vstd::utf8::encode_utf8;

use crate::cli_parser::{method_name, UrlSections, METHOD};
use crate::text::push_char;

verus! {

/// The character that writes the decimal digit `d`.
pub open spec fn digit_char(d: nat) -> char {
    if d == 0 {
        '0'
    } else if d == 1 {
        '1'
    } else if d == 2 {
        '2'
    } else if d == 3 {
        '3'
    } else if d == 4 {
        '4'
    } else if d == 5 {
        '5'
    } else if d == 6 {
        '6'
    } else if d == 7 {
        '7'
    } else if d == 8 {
        '8'
    } else {
        '9'
    }
}

/// `n` in decimal, without leading zeros.
pub open spec fn decimal(n: nat) -> Seq<char>
    decreases n,
{
    if n < 10 {
        seq![digit_char(n)]
    } else {
        decimal(n / 10).push(digit_char(n % 10))
    }
}

/// The length in bytes of the UTF-8 encoding of `s`.
pub open spec fn byte_len(s: Seq<char>) -> nat {
    encode_utf8(s).len()
}

/// The `Content-Length` line for a body of `n` bytes.
pub open spec fn content_length_line(n: nat) -> Seq<char> {
    "Content-Length: "@ + decimal(n) + "\r\n"@
}

/// Everything a request holds before its body: request line, `Host`, the
/// caller's header block, `Content-Length` when there is a body, `Accept`,
/// `Connection: close` and the blank line.
pub open spec fn request_head(
    m: METHOD,
    host: Seq<char>,
    path: Seq<char>,
    header: Option<Seq<char>>,
    body: Option<Seq<char>>,
) -> Seq<char> {
    method_name(m) + " "@ + path + " HTTP/1.1\r\n"@ + "Host: "@ + host + " \r\n"@ + match header {
        Some(h) => h,
        None => Seq::empty(),
    } + match body {
        Some(b) => content_length_line(byte_len(b)),
        None => Seq::empty(),
    } + " Accept: */*\r\nConnection: close\r\n\r\n"@
}

/// The whole request: its head, then the body unchanged.
pub open spec fn request_text(
    m: METHOD,
    host: Seq<char>,
    path: Seq<char>,
    header: Option<Seq<char>>,
    body: Option<Seq<char>>,
) -> Seq<char> {
    request_head(m, host, path, header, body) + match body {
        Some(b) => b,
        None => Seq::empty(),
    }
}

fn digit_to_char(d: usize) -> (c: char)
    requires
        d < 10,
    ensures
        c == digit_char(d as nat),
{
    if d == 0 {
        '0'
    } else if d == 1 {
        '1'
    } else if d == 2 {
        '2'
    } else if d == 3 {
        '3'
    } else if d == 4 {
        '4'
    } else if d == 5 {
        '5'
    } else if d == 6 {
        '6'
    } else if d == 7 {
        '7'
    } else if d == 8 {
        '8'
    } else {
        '9'
    }
}

/// `n` written in decimal.
pub fn decimal_string(n: usize) -> (r: String)
    ensures
        r@ == decimal(n as nat),
    decreases n,
{
    if n < 10 {
        let mut s = String::new();
        push_char(&mut s, digit_to_char(n));
        assert(s@ =~= decimal(n as nat));
        s
    } else {
        let mut s = decimal_string(n / 10);
        push_char(&mut s, digit_to_char(n % 10));
        s
    }
}

/// Writes the request for `method` on `sections`, with the caller's header
/// block (already ending in CRLF) and body, if any. Lines end in CRLF; a body
/// brings a `Content-Length` with its length in bytes, and follows the blank
/// line unchanged.
pub fn build_request(
    method: METHOD,
    sections: &UrlSections,
    header: &Option<String>,
    body: &Option<String>,
) -> (r: String)
    requires
        body matches Some(b) ==> byte_len(b@) <= usize::MAX,
    ensures
        r@ == request_text(
            method,
            sections.host@,
            sections.path@,
            match header {
                Some(h) => Some(h@),
                None => None,
            },
            match body {
                Some(b) => Some(b@),
                None => None,
            },
        ),
{
    let mut r = String::from_str(method.as_str());
    r.append(" ");
    r.append(sections.path.as_str());
    r.append(" HTTP/1.1\r\n");
    r.append("Host: ");
    r.append(sections.host.as_str());
    r.append(" \r\n");
    match header {
        Some(h) => r.append(h.as_str()),
        None => {},
    }
    match body {
        Some(b) => {
            r.append("Content-Length: ");
            let len = decimal_string(b.as_str().len());
            r.append(len.as_str());
            r.append("\r\n");
        },
        None => {},
    }
    r.append(" Accept: */*\r\nConnection: close\r\n\r\n");
    match body {
        Some(b) => r.append(b.as_str()),
        None => {},
    }
    assert(r@ =~= request_text(
        method,
        sections.host@,
        sections.path@,
        match header {
            Some(h) => Some(h@),
            None => None,
        },
        match body {
            Some(b) => Some(b@),
            None => None,
        },
    ));
    r
}

/// A request with a body carries, in its head, a `Content-Length` line with
/// the body's length in bytes; the head ends with the blank line, and the
/// body follows it unchanged.
pub proof fn lemma_body_framed(
    m: METHOD,
    host: Seq<char>,
    path: Seq<char>,
    header: Option<Seq<char>>,
    body: Seq<char>,
)
    ensures
        ({
            let head = request_head(m, host, path, header, Some(body));
            let cl = content_length_line(byte_len(body));
            &&& request_text(m, host, path, header, Some(body)) == head + body
            &&& exists|k: int|
                0 <= k && k + cl.len() <= head.len() && #[trigger] head.subrange(k, k + cl.len())
                    == cl
            &&& head.len() >= 4
            &&& head.subrange(head.len() - 4, head.len() as int) == seq!['\r', '\n', '\r', '\n']
        }),
{
    let head = request_head(m, host, path, header, Some(body));
    let cl = content_length_line(byte_len(body));
    let tail = " Accept: */*\r\nConnection: close\r\n\r\n"@;
    let before = method_name(m) + " "@ + path + " HTTP/1.1\r\n"@ + "Host: "@ + host + " \r\n"@
        + match header {
        Some(h) => h,
        None => Seq::empty(),
    };
    assert(head =~= before + cl + tail);
    let k = before.len() as int;
    assert(head.subrange(k, k + cl.len()) =~= cl);
    reveal_strlit(" Accept: */*\r\nConnection: close\r\n\r\n");
    assert(head.subrange(head.len() - 4, head.len() as int) =~= seq!['\r', '\n', '\r', '\n']);
}

} // verus!
