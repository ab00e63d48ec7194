//! The image API surface: one request plan per operation.
//!
//! Each method assembles the complete request the daemon expects —
//! method, path, query string, auth headers — as a [`RequestPlan`] the
//! caller executes over its connection. What comes back is handed to
//! the response-side codecs: the chunk framer and event decoder for
//! progress streams, [`parse_push_response`] for a push.

use vstd::prelude::*;

use crate::errors::Error;
use crate::options::{
    auth_fits, auth_header_view, BuildOptions, DeleteOptions, ImageListOptions, PruneOptions,
    PullOptions, PushOptions, TagOptions,
};
use crate::params::{urlencoded_of, Params};
use crate::transport::{spec_with_query, with_query, Method, Payload, RequestPlan};

verus! {

/// The client handle request plans are built against.
///
/// Endpoint resolution, connecting and I/O happen outside this layer;
/// the handle only anchors the per-image and per-collection interfaces.
pub struct Docker {}

impl Docker {
    /// A new client handle.
    pub fn new() -> Docker {
        Docker {}
    }

    /// The interface for working with images in bulk.
    pub fn images<'a>(&'a self) -> Images<'a> {
        Images::new(self)
    }
}

/// `base` with `name` spliced in, then `suffix`.
pub open spec fn spec_image_path(base: Seq<char>, name: Seq<char>, suffix: Seq<char>) -> Seq<char> {
    base + name + suffix
}

/// Build `base + name + suffix`.
fn image_path(base: &str, name: &str, suffix: &str) -> (r: String)
    ensures
        r@ == spec_image_path(base@, name@, suffix@),
{
    let mut out = base.to_owned();
    out.append(name);
    out.append(suffix);
    out
}

/// Operations on one named image.
pub struct Image<'docker> {
    docker: &'docker Docker,
    name: String,
}

impl<'docker> Image<'docker> {
    /// The name, id or digest the operations address.
    pub closed spec fn spec_name(&self) -> Seq<char> {
        self.name@
    }

    /// An interface for operations against a named image.
    pub fn new(docker: &'docker Docker, name: &str) -> (r: Self)
        ensures
            r.spec_name() == name@,
    {
        Image { docker, name: name.to_owned() }
    }

    /// The request that inspects the image's details.
    pub fn inspect_request(&self) -> (r: RequestPlan)
        ensures
            r.method == Method::Get,
            r.path@ == spec_image_path("/images/"@, self.spec_name(), "/json"@),
            r.headers@.len() == 0,
            r.body is Empty,
    {
        RequestPlan {
            method: Method::Get,
            path: image_path("/images/", self.name.as_str(), "/json"),
            headers: Vec::new(),
            body: Payload::Empty,
        }
    }

    /// The request that lists the image's history.
    pub fn history_request(&self) -> (r: RequestPlan)
        ensures
            r.method == Method::Get,
            r.path@ == spec_image_path("/images/"@, self.spec_name(), "/history"@),
            r.headers@.len() == 0,
            r.body is Empty,
    {
        RequestPlan {
            method: Method::Get,
            path: image_path("/images/", self.name.as_str(), "/history"),
            headers: Vec::new(),
            body: Payload::Empty,
        }
    }

    /// The request that deletes the image, with options.
    pub fn delete_request_with_options(&self, delete_options: &DeleteOptions) -> (r: RequestPlan)
        ensures
            r.method == Method::Delete,
            r.path@ == spec_with_query(
                spec_image_path("/images/"@, self.spec_name(), ""@),
                query_of(delete_options@),
            ),
            r.headers@.len() == 0,
            r.body is Empty,
    {
        RequestPlan {
            method: Method::Delete,
            path: with_query(
                image_path("/images/", self.name.as_str(), ""),
                delete_options.serialize(),
            ),
            headers: Vec::new(),
            body: Payload::Empty,
        }
    }

    /// The request that deletes the image.
    pub fn delete_request(&self) -> (r: RequestPlan)
        ensures
            r.method == Method::Delete,
            r.path@ == spec_image_path("/images/"@, self.spec_name(), ""@),
            r.headers@.len() == 0,
            r.body is Empty,
    {
        RequestPlan {
            method: Method::Delete,
            path: image_path("/images/", self.name.as_str(), ""),
            headers: Vec::new(),
            body: Payload::Empty,
        }
    }

    /// The request that exports the image as a tar stream; the response
    /// body passes through this layer untouched.
    pub fn export_request(&self) -> (r: RequestPlan)
        ensures
            r.method == Method::Get,
            r.path@ == spec_image_path("/images/"@, self.spec_name(), "/get"@),
            r.headers@.len() == 0,
            r.body is Empty,
    {
        RequestPlan {
            method: Method::Get,
            path: image_path("/images/", self.name.as_str(), "/get"),
            headers: Vec::new(),
            body: Payload::Empty,
        }
    }

    /// The request that adds a tag to the image.
    pub fn tag_request(&self, opts: &TagOptions) -> (r: RequestPlan)
        ensures
            r.method == Method::Post,
            r.path@ == spec_with_query(
                spec_image_path("/images/"@, self.spec_name(), "/tag"@),
                query_of(opts@),
            ),
            r.headers@.len() == 0,
            r.body is Empty,
    {
        RequestPlan {
            method: Method::Post,
            path: with_query(image_path("/images/", self.name.as_str(), "/tag"), opts.serialize()),
            headers: Vec::new(),
            body: Payload::Empty,
        }
    }
}

/// The serialized query for a parameter map: absent when empty.
pub open spec fn query_of(params: Seq<(Seq<char>, Seq<char>)>) -> Option<Seq<char>> {
    if params.len() == 0 {
        None
    } else {
        Some(urlencoded_of(params))
    }
}

/// Operations on the collection of images.
pub struct Images<'docker> {
    docker: &'docker Docker,
}

impl<'docker> Images<'docker> {
    /// An interface for interacting with the daemon's images.
    pub fn new(docker: &'docker Docker) -> Images<'docker> {
        Images { docker }
    }

    /// The operations available for one named image.
    pub fn get(&self, name: &str) -> (r: Image<'docker>)
        ensures
            r.spec_name() == name@,
    {
        Image::new(self.docker, name)
    }

    /// The request that builds an image from a directory's build
    /// context. The caller produces the tar stream — over the directory
    /// named by the options — and attaches it as the body; the response
    /// is a stream of progress events.
    pub fn build_request(&self, opts: &BuildOptions, context: Vec<u8>) -> (r: RequestPlan)
        ensures
            r.method == Method::Post,
            r.path@ == spec_with_query("/build"@, query_of(opts@)),
            r.headers@.len() == 0,
            r.body matches Payload::Tar(b) && b@ == context@,
    {
        RequestPlan {
            method: Method::Post,
            path: with_query("/build".to_owned(), opts.serialize()),
            headers: Vec::new(),
            body: Payload::Tar(context),
        }
    }

    /// The request that builds an image from an already-assembled
    /// build context — any archive the caller framed — with the bare
    /// build parameters as its query.
    pub fn build_raw_request(&self, opts: &crate::options::BuildParams, context: Vec<u8>) -> (r:
        RequestPlan)
        ensures
            r.method == Method::Post,
            r.path@ == spec_with_query("/build"@, query_of(opts@)),
            r.headers@.len() == 0,
            r.body matches Payload::Tar(b) && b@ == context@,
    {
        RequestPlan {
            method: Method::Post,
            path: with_query("/build".to_owned(), opts.serialize()),
            headers: Vec::new(),
            body: Payload::Tar(context),
        }
    }

    /// The request that lists images.
    pub fn list_request(&self, opts: &ImageListOptions) -> (r: RequestPlan)
        ensures
            r.method == Method::Get,
            r.path@ == spec_with_query("/images/json"@, query_of(opts@)),
            r.headers@.len() == 0,
            r.body is Empty,
    {
        RequestPlan {
            method: Method::Get,
            path: with_query("/images/json".to_owned(), opts.serialize()),
            headers: Vec::new(),
            body: Payload::Empty,
        }
    }

    /// The request that searches the registry for images by term.
    pub fn search_request(&self, term: &str) -> (r: RequestPlan)
        ensures
            r.method == Method::Get,
            r.path@ == "/images/search"@ + seq!['?'] + urlencoded_of(seq![("term"@, term@)]),
            r.headers@.len() == 0,
            r.body is Empty,
    {
        let mut params = Params::new();
        params.insert("term", term.to_owned());
        proof {
            assert(params@ =~= seq![("term"@, term@)]);
        }
        let q = params.serialize();
        let r = RequestPlan {
            method: Method::Get,
            path: with_query("/images/search".to_owned(), q),
            headers: Vec::new(),
            body: Payload::Empty,
        };
        r
    }

    /// The request that pulls (or imports from a source) an image.
    /// Credentials, where given, ride along base64-encoded in the
    /// `X-Registry-Auth` header; the response is a stream of progress
    /// events.
    pub fn pull_request(&self, opts: &PullOptions) -> (r: RequestPlan)
        requires
            auth_fits(opts.spec_auth()),
        ensures
            r.method == Method::Post,
            r.path@ == spec_with_query("/images/create"@, query_of(opts@)),
            r.body is Empty,
            match auth_header_view(opts.spec_auth()) {
                Some(h) => r.headers@.len() == 1 && r.headers@[0].0@ == "X-Registry-Auth"@
                    && r.headers@[0].1@ == h,
                None => r.headers@.len() == 0,
            },
    {
        let mut headers: Vec<(String, String)> = Vec::new();
        match opts.auth_header() {
            Some(h) => {
                headers.push(("X-Registry-Auth".to_owned(), h));
            },
            None => {},
        }
        RequestPlan {
            method: Method::Post,
            path: with_query("/images/create".to_owned(), opts.serialize()),
            headers,
            body: Payload::Empty,
        }
    }

    /// The request that pushes an image to its registry. The buffered
    /// response body then goes through [`parse_push_response`].
    pub fn push_request(&self, image: &str, push_options: &PushOptions) -> (r: RequestPlan)
        requires
            auth_fits(push_options.spec_auth()),
        ensures
            r.method == Method::Post,
            r.path@ == spec_with_query(
                spec_image_path("/images/"@, image@, "/push"@),
                query_of(push_options@),
            ),
            r.body is Empty,
            match auth_header_view(push_options.spec_auth()) {
                Some(h) => r.headers@.len() == 1 && r.headers@[0].0@ == "X-Registry-Auth"@
                    && r.headers@[0].1@ == h,
                None => r.headers@.len() == 0,
            },
    {
        let mut headers: Vec<(String, String)> = Vec::new();
        match push_options.auth_header() {
            Some(h) => {
                headers.push(("X-Registry-Auth".to_owned(), h));
            },
            None => {},
        }
        RequestPlan {
            method: Method::Post,
            path: with_query(
                image_path("/images/", image, "/push"),
                push_options.serialize(),
            ),
            headers,
            body: Payload::Empty,
        }
    }

    /// The request that imports images from a tar archive, plain or
    /// compressed; the response is a stream of progress events.
    pub fn import_request(&self, tarball: Vec<u8>) -> (r: RequestPlan)
        ensures
            r.method == Method::Post,
            r.path@ == "/images/load"@,
            r.headers@.len() == 0,
            r.body matches Payload::Tar(b) && b@ == tarball@,
    {
        RequestPlan {
            method: Method::Post,
            path: "/images/load".to_owned(),
            headers: Vec::new(),
            body: Payload::Tar(tarball),
        }
    }

    /// The request that exports a set of named images as one tar
    /// stream; every name becomes one `names` parameter, in order.
    pub fn export_request(&self, names: &Vec<String>) -> (r: RequestPlan)
        ensures
            r.method == Method::Get,
            r.path@ == "/images/get"@ + seq!['?'] + urlencoded_of(
                names@.map_values(|n: String| ("names"@, n@)),
            ),
            r.headers@.len() == 0,
            r.body is Empty,
    {
        let mut params = Params::new();
        let n = names.len();
        let mut i: usize = 0;
        while i < n
            invariant
                n == names.len(),
                i <= n,
                params@ == names@.take(i as int).map_values(|nm: String| ("names"@, nm@)),
            decreases n - i,
        {
            params.append("names", names[i].clone());
            proof {
                assert(names@.take(i + 1) =~= names@.take(i as int).push(names@[i as int]));
                assert(params@ =~= names@.take(i + 1).map_values(|nm: String| ("names"@, nm@)));
            }
            i += 1;
        }
        proof {
            assert(names@.take(n as int) =~= names@);
        }
        let q = params.to_query();
        let mut path = "/images/get".to_owned();
        path.append("?");
        proof {
            reveal_strlit("?");
            assert("?"@ =~= seq!['?']);
        }
        path.append(q.as_str());
        RequestPlan {
            method: Method::Get,
            path,
            headers: Vec::new(),
            body: Payload::Empty,
        }
    }

    /// The request that prunes unused images. Serializing the filters
    /// can only fail on filters no string can spell, which none can.
    pub fn prune_request(&self, opts: &PruneOptions) -> (r: Result<RequestPlan, Error>)
        ensures
            match r {
                Ok(plan) => {
                    &&& plan.method == Method::Post
                    &&& plan.headers@.len() == 0
                    &&& plan.body is Empty
                    &&& prune_query_view(opts@, plan.path@)
                },
                Err(e) => e == Error::Decode && !vstd::utf8::valid_utf8(
                    crate::json::filters_json(crate::options::filter_map_bytes(opts@)),
                ),
            },
    {
        let q = match opts.serialize() {
            Ok(q) => q,
            Err(e) => {
                return Err(e);
            },
        };
        Ok(RequestPlan {
            method: Method::Post,
            path: with_query("/images/prune".to_owned(), q),
            headers: Vec::new(),
            body: Payload::Empty,
        })
    }
}

/// How a prune request's path relates to its filters: the bare path
/// when none are set, else the path with the serialized filter query.
pub open spec fn prune_query_view(
    filters: Seq<(Seq<char>, Seq<Seq<char>>)>,
    path: Seq<char>,
) -> bool {
    if filters.len() == 0 {
        path == "/images/prune"@
    } else {
        exists|q: Seq<char>|
            crate::options::prune_query_ok(filters, q) && path == "/images/prune"@ + seq!['?'] + q
    }
}

/// Whether `pat` occurs in `s`.
pub open spec fn contains_pat(s: Seq<char>, pat: Seq<char>) -> bool {
    exists|i: int| 0 <= i <= s.len() - pat.len() && #[trigger] s.subrange(i, i + pat.len()) == pat
}

/// Whether `[a, b)` cuts one `\r\n`-delimited line out of `s`: it
/// abuts a delimiter or an end on both sides and holds no delimiter.
pub open spec fn is_crlf_segment(s: Seq<char>, a: int, b: int) -> bool {
    &&& 0 <= a <= b <= s.len()
    &&& (a == 0 || (a >= 2 && s.subrange(a - 2, a) == "\r\n"@))
    &&& (b == s.len() || (b + 2 <= s.len() && s.subrange(b, b + 2) == "\r\n"@))
    &&& forall|t: int| a <= t < b - 1 ==> !(#[trigger] s[t] == '\r' && s[t + 1] == '\n')
}


/// Whether `line` is the first `\r\n`-delimited line of `s` that
/// holds the failure marker: it is such a line, and no occurrence of
/// the marker starts anywhere before it.
pub open spec fn first_error_line(s: Seq<char>, line: Seq<char>) -> bool {
    exists|a: int, b: int|
        {
            &&& #[trigger] is_crlf_segment(s, a, b)
            &&& line == s.subrange(a, b)
            &&& contains_pat(line, "errorDetail"@)
            &&& forall|q: int|
                0 <= q < a ==> #[trigger] s.subrange(q, q + "errorDetail"@.len())
                    != "errorDetail"@
        }
}

/// The pattern that marks a failed push in the response body.
proof fn lemma_error_pat()
    ensures
        "errorDetail"@.len() == 11,
        forall|k: int|
            0 <= k < 11 ==> "errorDetail"@[k] != '\r' && #[trigger] "errorDetail"@[k] != '\n'
                && "errorDetail"@[k] != '\u{0}',
{
    reveal_strlit("errorDetail");
}

/// Whether `pat` starts at `i` in `s`.
fn match_at(s: &str, i: usize, pat: &str) -> (r: bool)
    requires
        i + pat@.len() <= s@.len(),
    ensures
        r == (s@.subrange(i as int, i + pat@.len()) == pat@),
{
    let n = s.unicode_len();
    let m = pat.unicode_len();
    let mut k: usize = 0;
    while k < m
        invariant
            k <= m,
            m == pat@.len(),
            n == s@.len(),
            i + m <= s@.len(),
            forall|j: int| 0 <= j < k ==> s@[i + j] == pat@[j],
        decreases m - k,
    {
        proof {
            assert(i + k < s@.len());
        }
        if s.get_char(i + k) != pat.get_char(k) {
            proof {
                assert(s@.subrange(i as int, i + m)[k as int] != pat@[k as int]);
            }
            return false;
        }
        k += 1;
    }
    proof {
        assert(s@.subrange(i as int, i + m) =~= pat@);
    }
    true
}

/// The first occurrence of `pat` in `s`, if any.
fn find_pat(s: &str, pat: &str) -> (r: Option<usize>)
    requires
        pat@.len() >= 1,
    ensures
        match r {
            Some(p) => {
                &&& p + pat@.len() <= s@.len()
                &&& s@.subrange(p as int, p + pat@.len()) == pat@
                &&& forall|q: int|
                    0 <= q < p ==> #[trigger] s@.subrange(q, q + pat@.len()) != pat@
            },
            None => !contains_pat(s@, pat@),
        },
{
    let n = s.unicode_len();
    let m = pat.unicode_len();
    if m > n {
        proof {
            assert(!contains_pat(s@, pat@));
        }
        return None;
    }
    let mut i: usize = 0;
    while i <= n - m
        invariant
            m == pat@.len(),
            n == s@.len(),
            1 <= m <= n,
            i <= n - m + 1,
            forall|q: int| 0 <= q < i ==> #[trigger] s@.subrange(q, q + pat@.len()) != pat@,
        decreases n - i,
    {
        if match_at(s, i, pat) {
            return Some(i);
        }
        i += 1;
    }
    proof {
        assert(!contains_pat(s@, pat@)) by {
            if contains_pat(s@, pat@) {
                let w = choose|q: int|
                    0 <= q <= s@.len() - pat@.len() && #[trigger] s@.subrange(
                        q,
                        q + pat@.len(),
                    ) == pat@;
                assert(s@.subrange(w, w + pat@.len()) != pat@);
            }
        }
    }
    None
}

/// The first `\r\n` starting at or after `from`.
fn find_crlf_from(s: &str, from: usize) -> (r: Option<usize>)
    requires
        from <= s@.len(),
    ensures
        match r {
            Some(q) => {
                &&& from <= q
                &&& q + 2 <= s@.len()
                &&& s@[q as int] == '\r' && s@[q + 1] == '\n'
                &&& forall|t: int| from <= t < q ==> !(#[trigger] s@[t] == '\r' && s@[t + 1] == '\n')
            },
            None => forall|t: int|
                from <= t < s@.len() - 1 ==> !(#[trigger] s@[t] == '\r' && s@[t + 1] == '\n'),
        },
{
    let n = s.unicode_len();
    if n < 2 {
        return None;
    }
    let mut i: usize = from;
    while i < n - 1
        invariant
            from <= i,
            i <= n,
            n == s@.len(),
            n >= 2,
            forall|t: int| from <= t < i ==> !(#[trigger] s@[t] == '\r' && s@[t + 1] == '\n'),
        decreases n - i,
    {
        if s.get_char(i) == '\r' && s.get_char(i + 1) == '\n' {
            return Some(i);
        }
        i += 1;
    }
    None
}

/// Check the buffered body of a push for a reported failure.
///
/// The daemon streams its push progress as lines; one that carries an
/// `errorDetail` object reports a failed push. `Ok` holds exactly when
/// the body nowhere holds that marker; otherwise the first
/// `\r\n`-delimited line that holds it comes back in
/// [`Error::InvalidResponse`], verbatim.
pub fn parse_push_response(body: &str) -> (r: Result<(), Error>)
    ensures
        r is Ok <==> !contains_pat(body@, "errorDetail"@),
        match r {
            Ok(_) => true,
            Err(e) => e matches Error::InvalidResponse(line) && first_error_line(body@, line@),
        },
{
    let pat = "errorDetail";
    proof {
        lemma_error_pat();
    }
    let p = match find_pat(body, pat) {
        None => {
            return Ok(());
        },
        Some(p) => p,
    };
    let n = body.unicode_len();
    let m = pat.unicode_len();
    // Walk the line boundaries up to the occurrence.
    let mut a: usize = 0;
    loop
        invariant
            a <= p,
            p + m <= n,
            n == body@.len(),
            m == pat@.len(),
            m == 11,
            body@.subrange(p as int, p + m) == pat@,
            forall|k: int|
                0 <= k < 11 ==> "errorDetail"@[k] != '\r' && #[trigger] "errorDetail"@[k]
                    != '\n',
            a == 0 || (a >= 2 && body@.subrange(a - 2, a as int) == "\r\n"@),
        ensures
            a <= p,
            p + m <= n,
            n == body@.len(),
            m == pat@.len(),
            m == 11,
            body@.subrange(p as int, p + m) == pat@,
            forall|k: int|
                0 <= k < 11 ==> "errorDetail"@[k] != '\r' && #[trigger] "errorDetail"@[k]
                    != '\n',
            a == 0 || (a >= 2 && body@.subrange(a - 2, a as int) == "\r\n"@),
            forall|t: int| a <= t && t + 2 <= p ==> !(#[trigger] body@[t] == '\r' && body@[t + 1] == '\n'),
        decreases p - a,
    {
        match find_crlf_from(body, a) {
            Some(q) => {
                if q + 2 <= p {
                    a = q + 2;
                    proof {
                        reveal_strlit("\r\n");
                        assert(body@.subrange(q as int, q + 2) =~= "\r\n"@);
                    }
                } else {
                    break;
                }
            },
            None => {
                break;
            },
        }
    }
    // The line runs to the next delimiter; none can begin inside the
    // occurrence, whose characters are never a carriage return.
    let b: usize = match find_crlf_from(body, a) {
        Some(q) => {
            proof {
                assert(!(q + 2 <= p));
                if q < p + m {
                    if q + 1 == p {
                        assert(body@[p as int] == pat@[0]);
                        assert(pat@[0] != '\n');
                        assert(false);
                    } else {
                        assert(p <= q);
                        assert(body@[q as int] == pat@[q - p]);
                        assert(pat@[q - p] != '\r');
                        assert(false);
                    }
                }
            }
            q
        },
        None => n,
    };
    let line = body.substring_char(a, b);
    proof {
        assert(line@ == body@.subrange(a as int, b as int));
        assert(line@.subrange(p - a, p - a + m) =~= body@.subrange(p as int, p + m));
        assert(0 <= p - a <= line@.len() - m);
        assert(contains_pat(line@, pat@));
        assert(contains_pat(body@, pat@));
        assert(is_crlf_segment(body@, a as int, b as int)) by {
            reveal_strlit("\r\n");
            if b < n {
                assert(body@.subrange(b as int, b + 2) =~= "\r\n"@);
            }
        }
        assert(forall|q: int|
            0 <= q < a ==> #[trigger] body@.subrange(q, q + pat@.len()) != pat@);
        assert(first_error_line(body@, line@));
    }
    Err(Error::InvalidResponse(line.to_owned()))
}

} // verus!
