use vstd::prelude::*;
use vstd::string::*;

use crate::text::chars_of;

verus! {

/// The request methods a call can use.
#[derive(Clone, Copy, Debug, PartialEq, Eq, Structural)]
#[allow(non_camel_case_types, clippy::upper_case_acronyms)]
pub enum METHOD {
    DELETE,
    GET,
    POST,
    PUT,
}

/// The name of a method as it stands in a request line.
pub open spec fn method_name(m: METHOD) -> Seq<char> {
    match m {
        METHOD::DELETE => seq!['D', 'E', 'L', 'E', 'T', 'E'],
        METHOD::GET => seq!['G', 'E', 'T'],
        METHOD::POST => seq!['P', 'O', 'S', 'T'],
        METHOD::PUT => seq!['P', 'U', 'T'],
    }
}

impl METHOD {
    /// The method's name, as written in a request line.
    pub fn as_str(&self) -> (r: &'static str)
        ensures
            r@ == method_name(*self),
    {
        match self {
            METHOD::DELETE => {
                proof { reveal_strlit("DELETE"); }
                "DELETE"
            },
            METHOD::GET => {
                proof { reveal_strlit("GET"); }
                "GET"
            },
            METHOD::POST => {
                proof { reveal_strlit("POST"); }
                "POST"
            },
            METHOD::PUT => {
                proof { reveal_strlit("PUT"); }
                "PUT"
            },
        }
    }
}

} // verus!

verus! {

/// What a `UrlSections` holds, as sequences of characters.
pub ghost struct UrlView {
    pub protocol: Seq<char>,
    pub host: Seq<char>,
    pub port: Option<u16>,
    pub path: Seq<char>,
}

/// The parts of a URL of the form `protocol://host[:port][/path]`.
#[derive(Debug, Clone, PartialEq)]
pub struct UrlSections {
    pub protocol: String,
    pub host: String,
    pub port: Option<u16>,
    pub path: String,
}

impl View for UrlSections {
    type V = UrlView;

    open spec fn view(&self) -> UrlView {
        UrlView { protocol: self.protocol@, host: self.host@, port: self.port, path: self.path@ }
    }
}

pub open spec fn http_sep() -> Seq<char> {
    seq!['h', 't', 't', 'p', ':', '/', '/']
}

pub open spec fn https_sep() -> Seq<char> {
    seq!['h', 't', 't', 'p', 's', ':', '/', '/']
}

pub open spec fn starts_with(s: Seq<char>, p: Seq<char>) -> bool {
    p.len() <= s.len() && s.subrange(0, p.len() as int) == p
}

/// Length of the `http://` or `https://` that opens `u`; 0 when neither does.
pub open spec fn scheme_len(u: Seq<char>) -> int {
    if starts_with(u, https_sep()) {
        8
    } else if starts_with(u, http_sep()) {
        7
    } else {
        0
    }
}

pub open spec fn is_host_char(c: char) -> bool {
    c != ':' && c != '/'
}

pub open spec fn is_digit(c: char) -> bool {
    '0' <= c && c <= '9'
}

/// End of the run of host characters of `u` that starts at `i`.
pub open spec fn host_end(u: Seq<char>, i: int) -> int
    decreases u.len() - i,
{
    if 0 <= i < u.len() && is_host_char(u[i]) {
        host_end(u, i + 1)
    } else {
        i
    }
}

/// End of the run of decimal digits of `u` that starts at `i`.
pub open spec fn digits_end(u: Seq<char>, i: int) -> int
    decreases u.len() - i,
{
    if 0 <= i < u.len() && is_digit(u[i]) {
        digits_end(u, i + 1)
    } else {
        i
    }
}

pub open spec fn digit_value(c: char) -> nat {
    ((c as int) - ('0' as int)) as nat
}

/// The number that a run of decimal digits writes.
pub open spec fn digits_value(d: Seq<char>) -> nat
    decreases d.len(),
{
    if d.len() == 0 {
        0
    } else {
        digits_value(d.drop_last()) * 10 + digit_value(d.last())
    }
}

/// Whether a port follows the host that ends at `h`: a `:` and at least one digit.
pub open spec fn has_port(u: Seq<char>, h: int) -> bool {
    0 <= h < u.len() && u[h] == ':' && digits_end(u, h + 1) > h + 1
}

/// Where the path may start, after the host that ends at `h` and its port.
pub open spec fn path_start(u: Seq<char>, h: int) -> int {
    if has_port(u, h) {
        digits_end(u, h + 1)
    } else {
        h
    }
}

/// The port after the host that ends at `h`; absent when none is written or
/// when the digits do not fit in 16 bits.
pub open spec fn port_of(u: Seq<char>, h: int) -> Option<u16> {
    if has_port(u, h) && digits_value(u.subrange(h + 1, digits_end(u, h + 1))) <= 65535 {
        Some(digits_value(u.subrange(h + 1, digits_end(u, h + 1))) as u16)
    } else {
        None
    }
}

/// The path from `p` to the end when one starts there with `/`, else `/`.
pub open spec fn path_of(u: Seq<char>, p: int) -> Seq<char> {
    if 0 <= p < u.len() && u[p] == '/' {
        u.subrange(p, u.len() as int)
    } else {
        seq!['/']
    }
}

/// The sections of `u`, or `None` when it does not open with a known scheme
/// followed by a non-empty host.
pub open spec fn url_model(u: Seq<char>) -> Option<UrlView> {
    let k = scheme_len(u);
    let h = host_end(u, k);
    if k == 0 || h == k {
        None
    } else {
        Some(
            UrlView {
                protocol: u.subrange(0, k - 3),
                host: u.subrange(k, h),
                port: port_of(u, h),
                path: path_of(u, path_start(u, h)),
            },
        )
    }
}

/// Whether `v` opens with `p`.
fn has_prefix(v: &Vec<char>, p: &[char]) -> (r: bool)
    ensures
        r == starts_with(v@, p@),
{
    if p.len() > v.len() {
        return false;
    }
    let mut i: usize = 0;
    while i < p.len()
        invariant
            p@.len() <= v@.len(),
            i <= p@.len(),
            forall|j: int| 0 <= j < i ==> v@[j] == p@[j],
        decreases p@.len() - i,
    {
        if v[i] != p[i] {
            assert(v@.subrange(0, p@.len() as int)[i as int] != p@[i as int]);
            return false;
        }
        i = i + 1;
    }
    assert(v@.subrange(0, p@.len() as int) =~= p@);
    true
}

/// Splits `url` into protocol, host, optional port and path.
///
/// The URL must open with `http://` or `https://` and a non-empty host, which
/// runs up to the first `:` or `/`. A `:` with digits after the host gives the
/// port; digits that do not fit in 16 bits give no port. A `/` after that
/// starts the path, which runs to the end; without one the path is `/`.
pub fn parse_url(url: String) -> (r: Result<UrlSections, &'static str>)
    ensures
        r is Err <==> url_model(url@) is None,
        r is Err <==> scheme_len(url@) == 0 || host_end(url@, scheme_len(url@))
            == scheme_len(url@),
        r matches Ok(s) ==> url_model(url@) == Some(s@),
{
    let s = url.as_str();
    let v = chars_of(s);
    let n = v.len();
    let https: [char; 8] = ['h', 't', 't', 'p', 's', ':', '/', '/'];
    let http: [char; 7] = ['h', 't', 't', 'p', ':', '/', '/'];
    assert(https@ =~= https_sep());
    assert(http@ =~= http_sep());
    let k: usize = if has_prefix(&v, &https) {
        8
    } else if has_prefix(&v, &http) {
        7
    } else {
        return Err("ERR - Couldn't find anything to parse");
    };
    assert(k == scheme_len(v@));
    // the host
    let mut h: usize = k;
    while h < n && v[h] != ':' && v[h] != '/'
        invariant
            n == v@.len(),
            k <= h <= n,
            host_end(v@, k as int) == host_end(v@, h as int),
        decreases n - h,
    {
        h = h + 1;
    }
    if h == k {
        return Err("ERR - Couldn't find anything to parse");
    }
    // the port
    let mut port: Option<u16> = None;
    let mut rest: usize = h;
    if h < n && v[h] == ':' {
        let mut e: usize = h + 1;
        let mut val: u32 = 0;
        let mut over: bool = false;
        while e < n && '0' <= v[e] && v[e] <= '9'
            invariant
                n == v@.len(),
                h + 1 <= e <= n,
                digits_end(v@, h + 1) == digits_end(v@, e as int),
                forall|j: int| h + 1 <= j < e ==> is_digit(#[trigger] v@[j]),
                !over ==> val == digits_value(v@.subrange(h + 1, e as int)) && val <= 65535,
                over ==> digits_value(v@.subrange(h + 1, e as int)) > 65535,
            decreases n - e,
        {
            let ghost prev = v@.subrange(h + 1, e as int);
            assert(v@.subrange(h + 1, e + 1).drop_last() =~= prev);
            if !over {
                let d = (v[e] as u32) - ('0' as u32);
                val = val * 10 + d;
                if val > 65535 {
                    over = true;
                }
            }
            e = e + 1;
        }
        if e > h + 1 {
            rest = e;
            if !over {
                port = Some(val as u16);
            }
        }
    }
    // the path
    let path = if rest < n && v[rest] == '/' {
        String::from_str(s.substring_char(rest, n))
    } else {
        proof { reveal_strlit("/"); }
        String::from_str("/")
    };
    let protocol = String::from_str(s.substring_char(0, k - 3));
    let host = String::from_str(s.substring_char(k, h));
    let r = UrlSections { protocol, host, port, path };
    assert(r@.path =~= path_of(v@, path_start(v@, h as int)));
    Ok(r)
}

/// What a call is made of: the URL's sections, whether to render verbosely,
/// the method, and the optional body and header block.
pub struct ParsedArgs {
    pub url_sections: UrlSections,
    pub verbose: bool,
    pub method: METHOD,
    pub data: Option<String>,
    pub header: Option<String>,
}

pub open spec fn http_name() -> Seq<char> {
    seq!['h', 't', 't', 'p']
}

pub open spec fn https_name() -> Seq<char> {
    seq!['h', 't', 't', 'p', 's']
}

/// The URL `protocol://host[:port][path]`.
pub open spec fn url_text(
    protocol: Seq<char>,
    host: Seq<char>,
    port: Option<Seq<char>>,
    path: Option<Seq<char>>,
) -> Seq<char> {
    protocol + seq![':', '/', '/'] + host + match port {
        Some(d) => seq![':'] + d,
        None => Seq::empty(),
    } + match path {
        Some(p) => p,
        None => Seq::empty(),
    }
}

/// The port that the digits `d` write, when it fits in 16 bits.
pub open spec fn port_value(d: Seq<char>) -> Option<u16> {
    if digits_value(d) <= 65535 {
        Some(digits_value(d) as u16)
    } else {
        None
    }
}

proof fn lemma_host_end_at(u: Seq<char>, i: int, e: int)
    requires
        0 <= i <= e <= u.len(),
        forall|j: int| i <= j < e ==> is_host_char(#[trigger] u[j]),
        e < u.len() ==> !is_host_char(u[e]),
    ensures
        host_end(u, i) == e,
    decreases e - i,
{
    if i < e {
        lemma_host_end_at(u, i + 1, e);
    }
}

proof fn lemma_digits_end_at(u: Seq<char>, i: int, e: int)
    requires
        0 <= i <= e <= u.len(),
        forall|j: int| i <= j < e ==> is_digit(#[trigger] u[j]),
        e < u.len() ==> !is_digit(u[e]),
    ensures
        digits_end(u, i) == e,
    decreases e - i,
{
    if i < e {
        lemma_digits_end_at(u, i + 1, e);
    }
}

/// Parsing a well-formed URL `protocol://host[:port][/path]` gives back its
/// protocol and host as written, the port its digits write (none when there
/// are none, or when they do not fit in 16 bits), and its path, or `/` when
/// it has none.
pub proof fn lemma_parse_well_formed(
    protocol: Seq<char>,
    host: Seq<char>,
    port: Option<Seq<char>>,
    path: Option<Seq<char>>,
)
    requires
        protocol == http_name() || protocol == https_name(),
        host.len() > 0,
        forall|j: int| 0 <= j < host.len() ==> is_host_char(#[trigger] host[j]),
        port matches Some(d) ==> d.len() > 0 && forall|j: int|
            0 <= j < d.len() ==> is_digit(#[trigger] d[j]),
        path matches Some(p) ==> p.len() > 0 && p[0] == '/',
    ensures
        url_model(url_text(protocol, host, port, path)) == Some(
            UrlView {
                protocol,
                host,
                port: match port {
                    Some(d) => port_value(d),
                    None => None,
                },
                path: match path {
                    Some(p) => p,
                    None => seq!['/'],
                },
            },
        ),
{
    let u = url_text(protocol, host, port, path);
    let k: int = protocol.len() as int + 3;
    let h: int = k + host.len() as int;
    let pd: Seq<char> = match port {
        Some(d) => seq![':'] + d,
        None => Seq::empty(),
    };
    let pp: Seq<char> = match path {
        Some(p) => p,
        None => Seq::empty(),
    };
    let rest: int = h + pd.len() as int;
    assert(u =~= protocol + seq![':', '/', '/'] + host + pd + pp);
    // the scheme
    if protocol == https_name() {
        assert(u.subrange(0, 8) =~= https_sep());
    } else {
        assert(u[4] == ':');
        assert(u.subrange(0, 8) != https_sep());
        assert(u.subrange(0, 7) =~= http_sep());
    }
    assert(scheme_len(u) == k);
    assert(u.subrange(0, k - 3) =~= protocol);
    // the host
    assert forall|j: int| k <= j < h implies is_host_char(#[trigger] u[j]) by {
        assert(u[j] == host[j - k]);
    }
    if h < u.len() {
        if port is Some {
            assert(u[h] == ':');
        } else {
            assert(u[h] == pp[0]);
        }
    }
    lemma_host_end_at(u, k, h);
    assert(u.subrange(k, h) =~= host);
    // the port
    match port {
        Some(d) => {
            assert forall|j: int| h + 1 <= j < rest implies is_digit(#[trigger] u[j]) by {
                assert(u[j] == d[j - h - 1]);
            }
            if rest < u.len() {
                assert(u[rest] == pp[0]);
            }
            lemma_digits_end_at(u, h + 1, rest);
            assert(u.subrange(h + 1, rest) =~= d);
            assert(has_port(u, h));
        },
        None => {
            assert(!has_port(u, h));
        },
    }
    assert(path_start(u, h) == rest);
    // the path
    match path {
        Some(p) => {
            assert(u[rest] == p[0]);
            assert(u.subrange(rest, u.len() as int) =~= p);
        },
        None => {
            assert(rest == u.len());
        },
    }
}

} // verus!
