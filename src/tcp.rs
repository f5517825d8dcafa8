use vstd::prelude::*;
use vstd::string::*;
use vstd::utf8::{decode_utf8, valid_utf8};

use crate::cli_parser::{https_name, ParsedArgs};
use crate::request::{build_request, byte_len, request_text};
use crate::text::chars_of;

verus! {

/// Whether the blank-line marker `\r\n\r\n` starts at `i` in `s`.
pub open spec fn blank_at(s: Seq<char>, i: int) -> bool {
    0 <= i && i + 4 <= s.len() && s[i] == '\r' && s[i + 1] == '\n' && s[i + 2] == '\r' && s[i
        + 3] == '\n'
}

/// Whether `i` is where the first blank-line marker of `s` starts.
pub open spec fn is_first_blank(s: Seq<char>, i: int) -> bool {
    blank_at(s, i) && forall|j: int| 0 <= j < i ==> !blank_at(s, j)
}

pub open spec fn has_blank(s: Seq<char>) -> bool {
    exists|i: int| blank_at(s, i)
}

/// Position of the first `\n` of `s` at or after `i`; `s.len()` when none.
pub open spec fn nl_pos(s: Seq<char>, i: int) -> int
    decreases s.len() - i,
{
    if 0 <= i < s.len() && s[i] != '\n' {
        nl_pos(s, i + 1)
    } else {
        i
    }
}

proof fn lemma_nl_pos(s: Seq<char>, i: int)
    requires
        0 <= i <= s.len(),
    ensures
        i <= nl_pos(s, i) <= s.len(),
        forall|j: int| i <= j < nl_pos(s, i) ==> #[trigger] s[j] != '\n',
        nl_pos(s, i) < s.len() ==> s[nl_pos(s, i)] == '\n',
    decreases s.len() - i,
{
    if i < s.len() && s[i] != '\n' {
        lemma_nl_pos(s, i + 1);
    }
}

/// A line that ended with `\n`, without a `\r` just before that `\n`.
pub open spec fn strip_cr(l: Seq<char>) -> Seq<char> {
    if l.len() > 0 && l.last() == '\r' {
        l.drop_last()
    } else {
        l
    }
}

/// The lines of `s` from `i` on, each as `< ` + line + `\n`. Lines end at
/// `\n` (a `\r` just before it is dropped); a last line without `\n` counts,
/// an empty rest gives no line.
pub open spec fn signed_from(s: Seq<char>, i: int) -> Seq<char>
    decreases s.len() - i,
    via signed_from_decreases
{
    if i < 0 || i >= s.len() {
        Seq::empty()
    } else if nl_pos(s, i) >= s.len() {
        "< "@ + s.subrange(i, s.len() as int) + "\n"@
    } else {
        "< "@ + strip_cr(s.subrange(i, nl_pos(s, i))) + "\n"@ + signed_from(s, nl_pos(s, i) + 1)
    }
}

#[via_fn]
proof fn signed_from_decreases(s: Seq<char>, i: int) {
    if 0 <= i < s.len() {
        lemma_nl_pos(s, i);
    }
}

/// Verbose rendering of a response: each line of the head (before the first
/// blank-line marker) prefixed with `< `, a line holding only `<`, then the
/// body as it is. Without a marker there is nothing to render.
pub open spec fn verbose_text(s: Seq<char>) -> Seq<char> {
    if has_blank(s) {
        let i = choose|i: int| is_first_blank(s, i);
        signed_from(s.subrange(0, i), 0) + "<\n"@ + s.subrange(i + 4, s.len() as int)
    } else {
        Seq::empty()
    }
}

/// Compact rendering of a response: everything from its first `{` on, when
/// it has one.
pub open spec fn compact_text(s: Seq<char>) -> Option<Seq<char>> {
    if exists|i: int| 0 <= i < s.len() && s[i] == '{' {
        let i = choose|i: int| 0 <= i < s.len() && s[i] == '{' && forall|j: int| 0 <= j < i ==> s[j] != '{';
        Some(s.subrange(i, s.len() as int))
    } else {
        None
    }
}

/// Where the first blank-line marker of `v` starts, if it has one.
fn find_blank(v: &Vec<char>) -> (r: Option<usize>)
    ensures
        r is None <==> !has_blank(v@),
        r matches Some(i) ==> is_first_blank(v@, i as int),
{
    let n = v.len();
    let mut i: usize = 0;
    while 4 <= n && i <= n - 4
        invariant
            n == v@.len(),
            forall|j: int| 0 <= j < i ==> !blank_at(v@, j),
        decreases n - i,
    {
        if v[i] == '\r' && v[i + 1] == '\n' && v[i + 2] == '\r' && v[i + 3] == '\n' {
            assert(blank_at(v@, i as int));
            return Some(i);
        }
        i = i + 1;
    }
    assert(!has_blank(v@));
    None
}

/// Splits a response at its first blank-line marker `\r\n\r\n` into the head
/// before it and the body after it; `None` when there is no marker.
pub fn split_http_response(http_response: &str) -> (r: Option<(&str, &str)>)
    ensures
        r is None <==> !has_blank(http_response@),
        r matches Some((head, body)) ==> is_first_blank(http_response@, head@.len() as int)
            && head@ == http_response@.subrange(0, head@.len() as int) && body@
            == http_response@.subrange(head@.len() as int + 4, http_response@.len() as int),
{
    let v = chars_of(http_response);
    match find_blank(&v) {
        Some(i) => {
            let n = v.len();
            Some((http_response.substring_char(0, i), http_response.substring_char(i + 4, n)))
        },
        None => None,
    }
}

/// Everything from the first `{` of the response on; `None` when it has none.
/// The text found there is shown as it is: it is neither parsed nor changed.
pub fn remove_headers(response: &str) -> (r: Option<&str>)
    ensures
        r is None <==> compact_text(response@) is None,
        r matches Some(t) ==> compact_text(response@) == Some(t@),
{
    let v = chars_of(response);
    let n = v.len();
    let mut i: usize = 0;
    while i < n
        invariant
            n == v@.len(),
            v@ == response@,
            forall|j: int| 0 <= j < i ==> v@[j] != '{',
        decreases n - i,
    {
        if v[i] == '{' {
            let ghost s = response@;
            assert(forall|k: int|
                0 <= k < s.len() && s[k] == '{' && (forall|j: int| 0 <= j < k ==> s[j] != '{')
                    ==> k == i);
            return Some(response.substring_char(i, n));
        }
        i = i + 1;
    }
    None
}

proof fn lemma_first_blank_unique(s: Seq<char>, i: int)
    requires
        is_first_blank(s, i),
    ensures
        has_blank(s),
        (choose|k: int| is_first_blank(s, k)) == i,
{
    assert(blank_at(s, i));
    let k = choose|k: int| is_first_blank(s, k);
    assert(is_first_blank(s, k));
    if k < i {
        assert(!blank_at(s, k));
    } else if k > i {
        assert(!blank_at(s, i));
    }
}

/// Verbose rendering of a response: each line of its head prefixed with
/// `< `, then a line holding only `<`, then the body unchanged. A response
/// without a blank-line marker renders as the empty string.
pub fn add_incoming_sign(response: &str) -> (r: String)
    ensures
        r@ == verbose_text(response@),
{
    let v = chars_of(response);
    let n = v.len();
    let mut r = String::new();
    match find_blank(&v) {
        None => {
            assert(r@ =~= verbose_text(response@));
            r
        },
        Some(i) => {
            let ghost h = v@.subrange(0, i as int);
            let mut st: usize = 0;
            while st < i
                invariant
                    v@ == response@,
                    n == v@.len(),
                    i + 4 <= n,
                    h == v@.subrange(0, i as int),
                    st <= i,
                    r@ + signed_from(h, st as int) == signed_from(h, 0),
                decreases i - st,
            {
                let mut p: usize = st;
                while p < i && v[p] != '\n'
                    invariant
                        n == v@.len(),
                        i + 4 <= n,
                        h == v@.subrange(0, i as int),
                        st <= p <= i,
                        nl_pos(h, st as int) == nl_pos(h, p as int),
                    decreases i - p,
                {
                    p = p + 1;
                }
                let end: usize = if p < i && p > st && v[p - 1] == '\r' {
                    p - 1
                } else {
                    p
                };
                let ghost before = r@;
                r.append("< ");
                r.append(response.substring_char(st, end));
                r.append("\n");
                let next: usize = if p < i {
                    p + 1
                } else {
                    i
                };
                proof {
                    if p < i {
                        assert(h.subrange(st as int, end as int) =~= strip_cr(h.subrange(st as int, p as int)));
                    } else {
                        assert(h.subrange(st as int, end as int) =~= h.subrange(st as int, h.len() as int));
                    }
                    assert(v@.subrange(st as int, end as int) =~= h.subrange(st as int, end as int));
                    assert(r@ + signed_from(h, next as int) =~= before + signed_from(h, st as int));
                }
                st = next;
            }
            r.append("<\n");
            r.append(response.substring_char(i + 4, n));
            proof {
                lemma_first_blank_unique(response@, i as int);
                assert(r@ =~= verbose_text(response@));
            }
            r
        },
    }
}

/// What `String::from_utf8_lossy` makes of a byte sequence.
pub uninterp spec fn lossy_text(b: Seq<u8>) -> Seq<char>;

/// Relies on String::from_utf8_lossy: the bytes decoded as UTF-8, with each
/// invalid sequence replaced; valid UTF-8 decodes as it is.
#[verifier::external_body]
fn decode_lossy(b: &Vec<u8>) -> (r: String)
    ensures
        r@ == lossy_text(b@),
        valid_utf8(b@) ==> r@ == decode_utf8(b@),
{
    String::from_utf8_lossy(b).into_owned()
}

/// The outcome of rendering a response: the value the call returns, and
/// what is shown, if anything.
pub struct Rendered {
    pub response: String,
    pub display: Option<String>,
}

/// Whether `r` renders the response text `s`: in verbose mode both the value
/// and what is shown are the verbose rendering; otherwise the value is the
/// response itself and what is shown is its compact rendering, if any.
pub open spec fn renders(s: Seq<char>, verbose: bool, r: Rendered) -> bool {
    if verbose {
        &&& r.response@ == verbose_text(s)
        &&& r.display matches Some(d) && d@ == verbose_text(s)
    } else {
        &&& r.response@ == s
        &&& r.display is None <==> compact_text(s) is None
        &&& r.display matches Some(d) ==> compact_text(s) == Some(d@)
    }
}

/// Renders a response text verbosely or compactly.
pub fn render_response(response: &str, verbose: bool) -> (r: Rendered)
    ensures
        renders(response@, verbose, r),
        !verbose && (forall|i: int| 0 <= i < response@.len() ==> response@[i] != '{')
            ==> r.display is None,
{
    if verbose {
        let signed = add_incoming_sign(response);
        let shown = signed.clone();
        Rendered { response: signed, display: Some(shown) }
    } else {
        let display = match remove_headers(response) {
            Some(t) => Some(String::from_str(t)),
            None => None,
        };
        Rendered { response: String::from_str(response), display }
    }
}

/// Decodes the raw bytes of a response, replacing invalid UTF-8, and renders
/// the text.
pub fn frame_response(raw: &Vec<u8>, verbose: bool) -> (r: Rendered)
    ensures
        renders(lossy_text(raw@), verbose, r),
{
    let text = decode_lossy(raw);
    render_response(text.as_str(), verbose)
}

/// Port of a plain connection when the URL gives none.
pub const HTTP_PORT: u16 = 80;

/// Port of a TLS connection when the URL gives none.
pub const HTTPS_PORT: u16 = 443;

/// Where and how to connect, and what to send.
pub struct CallPlan {
    pub host: String,
    pub port: u16,
    pub tls: bool,
    pub request: String,
}

pub open spec fn opt_view(o: Option<String>) -> Option<Seq<char>> {
    match o {
        Some(s) => Some(s@),
        None => None,
    }
}

/// Decides the connection for a call: TLS exactly for `https`; the URL's
/// port, or else 443 with TLS and 80 without; and the request to send.
pub fn plan_call(req: &ParsedArgs) -> (r: CallPlan)
    requires
        req.data matches Some(b) ==> byte_len(b@) <= usize::MAX,
    ensures
        r.host@ == req.url_sections.host@,
        r.tls == (req.url_sections.protocol@ == https_name()),
        r.port == match req.url_sections.port {
            Some(p) => p,
            None => if r.tls {
                HTTPS_PORT
            } else {
                HTTP_PORT
            },
        },
        r.request@ == request_text(
            req.method,
            req.url_sections.host@,
            req.url_sections.path@,
            opt_view(req.header),
            opt_view(req.data),
        ),
{
    let p = chars_of(req.url_sections.protocol.as_str());
    let tls = p.len() == 5 && p[0] == 'h' && p[1] == 't' && p[2] == 't' && p[3] == 'p' && p[4]
        == 's';
    assert(tls == (p@ =~= https_name()));
    let port = match req.url_sections.port {
        Some(n) => n,
        None => if tls {
            HTTPS_PORT
        } else {
            HTTP_PORT
        },
    };
    let request = build_request(req.method, &req.url_sections, &req.header, &req.data);
    CallPlan { host: String::from_str(req.url_sections.host.as_str()), port, tls, request }
}

/// Whether each `\n` of `x` but a last one is followed by `<`, and `x` opens
/// with `<` unless it is empty.
pub open spec fn lines_signed(x: Seq<char>) -> bool {
    &&& x.len() > 0 ==> x[0] == '<'
    &&& forall|j: int| 0 <= j < x.len() - 1 && x[j] == '\n' ==> #[trigger] x[j + 1] == '<'
}

proof fn lemma_signed_line(line: Seq<char>, rest: Seq<char>)
    requires
        forall|j: int| 0 <= j < line.len() ==> #[trigger] line[j] != '\n',
        lines_signed(rest),
    ensures
        lines_signed("< "@ + line + "\n"@ + rest),
{
    reveal_strlit("< ");
    reveal_strlit("\n");
    let x = "< "@ + line + "\n"@ + rest;
    assert(x =~= seq!['<', ' '] + line + seq!['\n'] + rest);
    let l = line.len() as int + 3;
    assert forall|j: int| 0 <= j < x.len() - 1 && x[j] == '\n' implies #[trigger] x[j + 1] == '<' by {
        if j < 2 {
            assert(x[0] == '<' && x[1] == ' ');
        } else if j < l - 1 {
            assert(x[j] == line[j - 2]);
        } else if j == l - 1 {
            assert(x[j + 1] == rest[0]);
        } else {
            let k = j - l;
            assert(x[j] == rest[k]);
            assert(x[j + 1] == rest[k + 1]);
        }
    }
}

proof fn lemma_signed_from(s: Seq<char>, i: int)
    requires
        0 <= i,
    ensures
        lines_signed(signed_from(s, i)),
    decreases s.len() - i,
{
    if i < s.len() {
        lemma_nl_pos(s, i);
        let p = nl_pos(s, i);
        if p >= s.len() {
            lemma_signed_line(s.subrange(i, s.len() as int), Seq::empty());
            assert("< "@ + s.subrange(i, s.len() as int) + "\n"@ + Seq::<char>::empty() =~= signed_from(s, i));
        } else {
            lemma_signed_from(s, p + 1);
            let line = strip_cr(s.subrange(i, p));
            assert forall|j: int| 0 <= j < line.len() implies #[trigger] line[j] != '\n' by {
                assert(line[j] == s[i + j]);
            }
            lemma_signed_line(line, signed_from(s, p + 1));
        }
    }
}

/// Rendering is done once: when the body of a response holds no blank-line
/// marker, rendering its verbose rendering again finds no head to prefix, and
/// gives the empty string.
pub proof fn lemma_verbose_once(s: Seq<char>, i: int)
    requires
        is_first_blank(s, i),
        !has_blank(s.subrange(i + 4, s.len() as int)),
    ensures
        verbose_text(verbose_text(s)) == Seq::<char>::empty(),
{
    lemma_first_blank_unique(s, i);
    reveal_strlit("<\n");
    let a = signed_from(s.subrange(0, i), 0) + "<\n"@;
    assert(a =~= signed_from(s.subrange(0, i), 0) + seq!['<', '\n']);
    let b = s.subrange(i + 4, s.len() as int);
    let t = verbose_text(s);
    assert(t == a + b);
    lemma_signed_from(s.subrange(0, i), 0);
    reveal_strlit("<\n");
    let x = signed_from(s.subrange(0, i), 0);
    assert(a[a.len() - 1] == '\n');
    assert(a[a.len() - 2] == '<');
    assert forall|j: int| 0 <= j < a.len() - 1 && a[j] == '\n' implies #[trigger] a[j + 1] == '<' by {
        if j < x.len() - 1 {
            assert(a[j] == x[j]);
            assert(a[j + 1] == x[j + 1]);
        } else if j == x.len() - 1 {
            assert(a[j + 1] == '<');
        } else {
            assert(a[j] == '<');
        }
    }
    if has_blank(t) {
        let j = choose|j: int| blank_at(t, j);
        if j + 1 < a.len() - 1 {
            let k = j + 1;
            assert(t[k] == a[k]);
            assert(t[k + 1] == a[k + 1]);
        } else if j + 1 == a.len() - 1 {
            assert(t[j] == a[j]);
        } else if j + 1 == a.len() {
            assert(t[j] == a[j]);
        } else {
            assert(t[j] == b[j - a.len()]);
            assert(t[j + 1] == b[j + 1 - a.len()]);
            assert(t[j + 2] == b[j + 2 - a.len()]);
            assert(t[j + 3] == b[j + 3 - a.len()]);
            assert(blank_at(b, j - a.len()));
        }
    }
}

} // verus!
