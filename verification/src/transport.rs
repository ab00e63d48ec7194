//! Request plans and response classification.
//!
//! The verified layer never touches a socket. It prepares a complete
//! description of each HTTP request — method, path, query and headers —
//! and classifies the status and body the caller read back. The caller
//! owns connecting, writing and reading.

use vstd::prelude::*;
use vstd::string::StringSliceAdditionalSpecFns;
use vstd::utf8::encode_utf8;

use crate::errors::Error;
use crate::text::dec_chars;

verus! {

/// The HTTP method of a request against the daemon.
#[derive(Clone, Copy, Debug, PartialEq, Eq, Structural)]
pub enum Method {
    Get,
    Post,
    Delete,
}

/// What the body of a request holds.
#[derive(Clone, Debug)]
pub enum Payload {
    /// No request body.
    Empty,
    /// A tar archive, sent as `application/x-tar`.
    Tar(Vec<u8>),
    /// A JSON document, sent as `application/json`.
    Json(Vec<u8>),
}

impl Payload {
    /// Whether a body is present.
    pub fn is_some(&self) -> (r: bool)
        ensures
            r == !(self is Empty),
    {
        !matches!(self, Payload::Empty)
    }
}

/// Everything the caller needs to issue one HTTP request: the method,
/// the path with its query already attached, extra headers, and the body.
#[derive(Clone, Debug)]
pub struct RequestPlan {
    pub method: Method,
    pub path: String,
    pub headers: Vec<(String, String)>,
    pub body: Payload,
}

/// `path` with `query` appended after a `?`, or unchanged if there is none.
pub open spec fn spec_with_query(path: Seq<char>, query: Option<Seq<char>>) -> Seq<char> {
    match query {
        Some(q) => path + seq!['?'] + q,
        None => path,
    }
}

/// Attach a serialized query string to a path.
pub fn with_query(path: String, query: Option<String>) -> (r: String)
    ensures
        r@ == spec_with_query(path@, match query {
            Some(q) => Some(q@),
            None => None,
        }),
{
    match query {
        Some(q) => {
            let mut out = path;
            out.append("?");
            proof {
                reveal_strlit("?");
                assert("?"@ =~= seq!['?']);
            }
            out.append(q.as_str());
            out
        },
        None => path,
    }
}

/// Whether `status` is a success per the daemon's API: any 2xx code.
pub open spec fn is_success_status(status: u16) -> bool {
    200 <= status < 300
}

/// Classify a fully-read response.
///
/// A 2xx status yields the body for further decoding. Any other status
/// yields [`Error::Api`] carrying the literal status code and the error
/// payload exactly as received — never rephrased, never truncated.
pub fn classify_response(status: u16, body: String) -> (r: Result<String, Error>)
    ensures
        is_success_status(status) ==> r == Ok::<_, Error>(body),
        !is_success_status(status) ==> r == Err::<String, _>(
            Error::Api { status, body },
        ),
{
    if 200 <= status && status < 300 {
        Ok(body)
    } else {
        Err(Error::Api { status, body })
    }
}

/// The request-line word for a method.
pub open spec fn method_word(m: Method) -> Seq<char> {
    match m {
        Method::Get => "GET"@,
        Method::Post => "POST"@,
        Method::Delete => "DELETE"@,
    }
}

/// The bytes of one `Name: value` header line.
pub open spec fn header_line(name: Seq<char>, value: Seq<char>) -> Seq<u8> {
    encode_utf8(name) + encode_utf8(": "@) + encode_utf8(value) + encode_utf8("\r\n"@)
}

/// The header lines of a plan, in order.
pub open spec fn header_lines(hs: Seq<(Seq<char>, Seq<char>)>) -> Seq<u8>
    decreases hs.len(),
{
    if hs.len() == 0 {
        Seq::empty()
    } else {
        header_lines(hs.drop_last()) + header_line(hs.last().0, hs.last().1)
    }
}

/// The body-dependent headers: a content type and an exact content
/// length when a body rides along.
pub open spec fn body_headers(body: Payload) -> Seq<u8> {
    match body {
        Payload::Empty => Seq::empty(),
        Payload::Tar(b) => header_line("Content-Type"@, "application/x-tar"@) + header_line(
            "Content-Length"@,
            dec_chars(b@.len() as int),
        ),
        Payload::Json(b) => header_line("Content-Type"@, "application/json"@) + header_line(
            "Content-Length"@,
            dec_chars(b@.len() as int),
        ),
    }
}

/// The whole head of a request: the HTTP/1.1 request line, the `Host`
/// header, the caller's headers, the body headers, and a blank line.
pub open spec fn request_head(plan: RequestPlan, host: Seq<char>) -> Seq<u8> {
    encode_utf8(method_word(plan.method)) + encode_utf8(" "@) + encode_utf8(plan.path@)
        + encode_utf8(" HTTP/1.1\r\n"@) + header_line("Host"@, host) + header_lines(
        plan.headers@.map_values(|h: (String, String)| (h.0@, h.1@)),
    ) + body_headers(plan.body) + encode_utf8("\r\n"@)
}

/// Append the UTF-8 bytes of `s`.
fn put_str(out: &mut Vec<u8>, s: &str)
    ensures
        final(out)@ == old(out)@ + encode_utf8(s@),
{
    out.extend_from_slice(s.as_bytes());
}

/// Append one `Name: value` header line.
fn put_header(out: &mut Vec<u8>, name: &str, value: &str)
    ensures
        final(out)@ == old(out)@ + header_line(name@, value@),
{
    put_str(out, name);
    put_str(out, ": ");
    put_str(out, value);
    put_str(out, "\r\n");
    proof {
        assert(out@ =~= old(out)@ + header_line(name@, value@));
    }
}

/// Serialize the head of a request, exactly [`request_head`].
///
/// The caller writes these bytes, then the body, and reads the
/// response head back.
#[verifier::rlimit(60)]
pub fn format_request_head(plan: &RequestPlan, host: &str) -> (r: Vec<u8>)
    ensures
        r@ == request_head(*plan, host@),
{
    let mut out: Vec<u8> = Vec::new();
    match plan.method {
        Method::Get => put_str(&mut out, "GET"),
        Method::Post => put_str(&mut out, "POST"),
        Method::Delete => put_str(&mut out, "DELETE"),
    }
    put_str(&mut out, " ");
    put_str(&mut out, plan.path.as_str());
    put_str(&mut out, " HTTP/1.1\r\n");
    put_header(&mut out, "Host", host);
    let n = plan.headers.len();
    let mut i: usize = 0;
    let ghost hv = plan.headers@.map_values(|h: (String, String)| (h.0@, h.1@));
    proof {
        assert(header_lines(hv.take(0int)) =~= Seq::<u8>::empty());
        assert(out@ =~= out@ + header_lines(hv.take(0int)));
    }
    let ghost base = out@;
    while i < n
        invariant
            n == plan.headers@.len(),
            i <= n,
            hv == plan.headers@.map_values(|h: (String, String)| (h.0@, h.1@)),
            out@ == base + header_lines(hv.take(i as int)),
        decreases n - i,
    {
        let h = &plan.headers[i];
        put_header(&mut out, h.0.as_str(), h.1.as_str());
        proof {
            assert(hv.take(i + 1).drop_last() =~= hv.take(i as int));
            assert(hv.take(i + 1).last() == hv[i as int]);
            assert(out@ =~= base + header_lines(hv.take(i + 1)));
        }
        i += 1;
    }
    proof {
        assert(hv.take(n as int) =~= hv);
    }
    match &plan.body {
        Payload::Empty => {},
        Payload::Tar(b) => {
            put_header(&mut out, "Content-Type", "application/x-tar");
            put_str(&mut out, "Content-Length");
            put_str(&mut out, ": ");
            let len_s = crate::text::u64_string(b.len() as u64);
            put_str(&mut out, len_s.as_str());
            put_str(&mut out, "\r\n");
        },
        Payload::Json(b) => {
            put_header(&mut out, "Content-Type", "application/json");
            put_str(&mut out, "Content-Length");
            put_str(&mut out, ": ");
            let len_s = crate::text::u64_string(b.len() as u64);
            put_str(&mut out, len_s.as_str());
            put_str(&mut out, "\r\n");
        },
    }
    put_str(&mut out, "\r\n");
    proof {
        assert(out@ =~= request_head(*plan, host@));
    }
    out
}

/// The status code a response's first line reports: `HTTP/1.` and a
/// version digit, a space, three digits, then a space or the end.
pub open spec fn status_of(s: Seq<u8>) -> Option<u16> {
    if s.len() >= 12 && s[0] == 0x48 && s[1] == 0x54 && s[2] == 0x54 && s[3] == 0x50 && s[4]
        == 0x2f && s[5] == 0x31 && s[6] == 0x2e && 0x30 <= s[7] <= 0x39 && s[8] == 0x20 && 0x30
        <= s[9] <= 0x39 && 0x30 <= s[10] <= 0x39 && 0x30 <= s[11] <= 0x39 && (s.len() == 12
        || s[12] == 0x20) {
        Some((100 * (s[9] - 0x30) + 10 * (s[10] - 0x30) + (s[11] - 0x30)) as u16)
    } else {
        None
    }
}

/// Read the status code out of a response's first line, exactly
/// [`status_of`]; anything else is an invalid response.
pub fn parse_status_line(line: &Vec<u8>) -> (r: Result<u16, Error>)
    ensures
        match r {
            Ok(code) => status_of(line@) == Some(code),
            Err(e) => status_of(line@) is None && e matches Error::InvalidResponse(_),
        },
{
    if line.len() < 12 {
        return Err(Error::InvalidResponse("short status line".to_owned()));
    }
    if line[0] != 0x48 || line[1] != 0x54 || line[2] != 0x54 || line[3] != 0x50 || line[4] != 0x2f
        || line[5] != 0x31 || line[6] != 0x2e {
        return Err(Error::InvalidResponse("not an HTTP/1.x status line".to_owned()));
    }
    let v = line[7];
    if !(0x30 <= v && v <= 0x39) {
        return Err(Error::InvalidResponse("not an HTTP/1.x status line".to_owned()));
    }
    if line[8] != 0x20 {
        return Err(Error::InvalidResponse("not an HTTP/1.x status line".to_owned()));
    }
    let d1 = line[9];
    let d2 = line[10];
    let d3 = line[11];
    if !(0x30 <= d1 && d1 <= 0x39) || !(0x30 <= d2 && d2 <= 0x39) || !(0x30 <= d3 && d3 <= 0x39) {
        return Err(Error::InvalidResponse("malformed status code".to_owned()));
    }
    if line.len() > 12 && line[12] != 0x20 {
        return Err(Error::InvalidResponse("malformed status code".to_owned()));
    }
    let code: u16 = 100 * ((d1 - 0x30) as u16) + 10 * ((d2 - 0x30) as u16) + ((d3 - 0x30) as u16);
    Ok(code)
}

} // verus!
