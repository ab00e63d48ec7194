//! Per-operation option sets and their builders.
//!
//! Every option set is an insertion-ordered parameter map behind a
//! builder, serialized to a query string on demand. Serializing the same
//! options always yields the same string.

use vstd::prelude::*;
use vstd::utf8::encode_utf8;

use crate::auth::{auth_json, base64_url_of, RegistryAuth};
use crate::errors::Error;
use crate::json::{filters_json, json_string, json_string_array, push_json_string, push_json_string_array};
use crate::params::{map_insert, unique_keys, urlencoded_of, Params};
use crate::text::{bool_chars, bool_string, dec_chars, u64_string};

verus! {

/// The view of an optional auth value: its JSON bytes, where present.
pub open spec fn auth_view(a: Option<RegistryAuth>) -> Option<Seq<u8>> {
    match a {
        Some(auth) => Some(auth_json(auth)),
        None => None,
    }
}

/// Whether the base64 buffer for `a` stays within address space.
pub open spec fn auth_fits(a: Option<RegistryAuth>) -> bool {
    match a {
        Some(auth) => auth_json(auth).len() <= usize::MAX as int / 4,
        None => true,
    }
}

/// The header value for `a`: its JSON document, base64-encoded.
pub open spec fn auth_header_view(a: Option<RegistryAuth>) -> Option<Seq<char>> {
    match a {
        Some(auth) => Some(base64_url_of(auth_json(auth))),
        None => None,
    }
}

/// Serialize an optional auth value to its header form.
fn auth_header_of(a: &Option<RegistryAuth>) -> (r: Option<String>)
    requires
        auth_fits(*a),
    ensures
        match r {
            Some(s) => auth_header_view(*a) == Some(s@),
            None => a is None,
        },
{
    match a {
        Some(auth) => Some(auth.serialize()),
        None => None,
    }
}

/// Options for tagging an image into a repository.
#[derive(Debug)]
pub struct TagOptions {
    pub params: Params,
}

impl View for TagOptions {
    type V = Seq<(Seq<char>, Seq<char>)>;

    open spec fn view(&self) -> Seq<(Seq<char>, Seq<char>)> {
        self.params@
    }
}

impl TagOptions {
    /// A builder for these options.
    pub fn builder() -> (r: TagOptionsBuilder)
        ensures
            r@ == Seq::<(Seq<char>, Seq<char>)>::empty(),
            r.wf(),
    {
        TagOptionsBuilder { params: Params::new() }
    }

    /// The query string: `None` when no option is set.
    pub fn serialize(&self) -> (r: Option<String>)
        ensures
            match r {
                Some(s) => self@.len() > 0 && s@ == urlencoded_of(self@),
                None => self@.len() == 0,
            },
    {
        self.params.serialize()
    }
}

/// Accumulates [`TagOptions`].
#[derive(Debug)]
pub struct TagOptionsBuilder {
    params: Params,
}

impl View for TagOptionsBuilder {
    type V = Seq<(Seq<char>, Seq<char>)>;

    closed spec fn view(&self) -> Seq<(Seq<char>, Seq<char>)> {
        self.params@
    }
}

impl TagOptionsBuilder {
    /// Keys stay unique however the options were accumulated.
    pub closed spec fn wf(&self) -> bool {
        unique_keys(self.params@)
    }

    /// Set the target repository.
    pub fn repo(&mut self, r: &str) -> (ret: &mut Self)
        requires
            old(self).wf(),
        ensures
            ret@ == map_insert(old(self)@, "repo"@, r@),
            ret.wf(),
            *final(self) == *final(ret),
    {
        self.params.insert("repo", r.to_owned());
        self
    }

    /// Set the target tag.
    pub fn tag(&mut self, t: &str) -> (ret: &mut Self)
        requires
            old(self).wf(),
        ensures
            ret@ == map_insert(old(self)@, "tag"@, t@),
            ret.wf(),
            *final(self) == *final(ret),
    {
        self.params.insert("tag", t.to_owned());
        self
    }

    /// The finished options.
    pub fn build(&self) -> (r: TagOptions)
        ensures
            r@ == self@,
    {
        TagOptions { params: self.params.clone() }
    }
}

/// Options for pulling or importing an image.
#[derive(Debug)]
pub struct PullOptions {
    auth: Option<RegistryAuth>,
    params: Params,
}

impl View for PullOptions {
    type V = Seq<(Seq<char>, Seq<char>)>;

    closed spec fn view(&self) -> Seq<(Seq<char>, Seq<char>)> {
        self.params@
    }
}

impl PullOptions {
    /// The credentials these options carry.
    pub closed spec fn spec_auth(&self) -> Option<RegistryAuth> {
        self.auth
    }

    /// A builder for these options; it starts with `tag=latest`.
    pub fn builder() -> (r: PullOptionsBuilder)
        ensures
            r@ == map_insert(Seq::empty(), "tag"@, "latest"@),
            r.wf(),
            r.spec_auth() is None,
    {
        PullOptionsBuilder::default()
    }

    /// The query string: `None` when no option is set.
    pub fn serialize(&self) -> (r: Option<String>)
        ensures
            match r {
                Some(s) => self@.len() > 0 && s@ == urlencoded_of(self@),
                None => self@.len() == 0,
            },
    {
        self.params.serialize()
    }

    /// The `X-Registry-Auth` value, where credentials were given.
    pub fn auth_header(&self) -> (r: Option<String>)
        requires
            auth_fits(self.spec_auth()),
        ensures
            match r {
                Some(s) => auth_header_view(self.spec_auth()) == Some(s@),
                None => self.spec_auth() is None,
            },
    {
        auth_header_of(&self.auth)
    }
}

/// Accumulates [`PullOptions`].
pub struct PullOptionsBuilder {
    auth: Option<RegistryAuth>,
    params: Params,
}

impl View for PullOptionsBuilder {
    type V = Seq<(Seq<char>, Seq<char>)>;

    closed spec fn view(&self) -> Seq<(Seq<char>, Seq<char>)> {
        self.params@
    }
}

impl Default for PullOptionsBuilder {
    /// The starting state: `tag=latest`, no credentials.
    fn default() -> (r: Self)
        ensures
            r@ == map_insert(Seq::empty(), "tag"@, "latest"@),
            r.wf(),
            r.spec_auth() is None,
    {
        let mut params = Params::new();
        params.insert("tag", "latest".to_owned());
        PullOptionsBuilder { auth: None, params }
    }
}

impl PullOptionsBuilder {
    /// Keys stay unique however the options were accumulated.
    pub closed spec fn wf(&self) -> bool {
        unique_keys(self.params@)
    }

    /// The credentials accumulated so far.
    pub closed spec fn spec_auth(&self) -> Option<RegistryAuth> {
        self.auth
    }

    /// Name of the image to pull; it may carry a tag or digest.
    pub fn image(&mut self, img: &str) -> (ret: &mut Self)
        requires
            old(self).wf(),
        ensures
            ret@ == map_insert(old(self)@, "fromImage"@, img@),
            ret.wf(),
            ret.spec_auth() == old(self).spec_auth(),
            *final(self) == *final(ret),
    {
        self.params.insert("fromImage", img.to_owned());
        self
    }

    /// Source to import from.
    pub fn src(&mut self, s: &str) -> (ret: &mut Self)
        requires
            old(self).wf(),
        ensures
            ret@ == map_insert(old(self)@, "fromSrc"@, s@),
            ret.wf(),
            ret.spec_auth() == old(self).spec_auth(),
            *final(self) == *final(ret),
    {
        self.params.insert("fromSrc", s.to_owned());
        self
    }

    /// Repository name given to an imported image.
    pub fn repo(&mut self, r: &str) -> (ret: &mut Self)
        requires
            old(self).wf(),
        ensures
            ret@ == map_insert(old(self)@, "repo"@, r@),
            ret.wf(),
            ret.spec_auth() == old(self).spec_auth(),
            *final(self) == *final(ret),
    {
        self.params.insert("repo", r.to_owned());
        self
    }

    /// Tag or digest; empty pulls every tag of the image.
    pub fn tag(&mut self, t: &str) -> (ret: &mut Self)
        requires
            old(self).wf(),
        ensures
            ret@ == map_insert(old(self)@, "tag"@, t@),
            ret.wf(),
            ret.spec_auth() == old(self).spec_auth(),
            *final(self) == *final(ret),
    {
        self.params.insert("tag", t.to_owned());
        self
    }

    /// Credentials for the registry.
    pub fn auth(&mut self, auth: RegistryAuth) -> (ret: &mut Self)
        requires
            old(self).wf(),
        ensures
            ret@ == old(self)@,
            ret.wf(),
            ret.spec_auth() == Some(auth),
            *final(self) == *final(ret),
    {
        self.auth = Some(auth);
        self
    }

    /// The finished options; the builder's credentials move into them.
    pub fn build(&mut self) -> (r: PullOptions)
        requires
            old(self).wf(),
        ensures
            r@ == old(self)@,
            r.spec_auth() == old(self).spec_auth(),
            final(self)@ == old(self)@,
            final(self).wf(),
            final(self).spec_auth() is None,
    {
        PullOptions { auth: self.auth.take(), params: self.params.clone() }
    }
}

/// Options for building an image from a directory holding a Dockerfile.
#[derive(Debug)]
pub struct BuildOptions {
    path: String,
    params: Params,
    skip_gzip: bool,
}

impl View for BuildOptions {
    type V = Seq<(Seq<char>, Seq<char>)>;

    closed spec fn view(&self) -> Seq<(Seq<char>, Seq<char>)> {
        self.params@
    }
}

impl BuildOptions {
    /// The directory the build context is read from.
    pub closed spec fn spec_path(&self) -> Seq<char> {
        self.path@
    }

    /// Whether the build context is uploaded without gzip compression.
    pub closed spec fn spec_skip_gzip(&self) -> bool {
        self.skip_gzip
    }

    /// A builder; `path` is the directory holding the Dockerfile.
    pub fn builder(path: &str) -> (r: BuildOptionsBuilder)
        ensures
            r@ == Seq::<(Seq<char>, Seq<char>)>::empty(),
            r.wf(),
            r.spec_path() == path@,
            !r.spec_skip_gzip(),
    {
        BuildOptionsBuilder::new(path)
    }

    /// The directory the build context is read from.
    pub fn path(&self) -> (r: &String)
        ensures
            r@ == self.spec_path(),
    {
        &self.path
    }

    /// Whether the build context is uploaded without gzip compression.
    pub fn skip_gzip(&self) -> (r: bool)
        ensures
            r == self.spec_skip_gzip(),
    {
        self.skip_gzip
    }

    /// The query string: `None` when no option is set.
    pub fn serialize(&self) -> (r: Option<String>)
        ensures
            match r {
                Some(s) => self@.len() > 0 && s@ == urlencoded_of(self@),
                None => self@.len() == 0,
            },
    {
        self.params.serialize()
    }
}

/// Accumulates [`BuildOptions`].
#[derive(Debug)]
pub struct BuildOptionsBuilder {
    path: String,
    build_params: BuildParams,
    skip_gzip: bool,
}

impl View for BuildOptionsBuilder {
    type V = Seq<(Seq<char>, Seq<char>)>;

    closed spec fn view(&self) -> Seq<(Seq<char>, Seq<char>)> {
        self.build_params@
    }
}

impl BuildOptionsBuilder {
    /// Keys stay unique however the options were accumulated.
    pub closed spec fn wf(&self) -> bool {
        unique_keys(self.build_params@)
    }

    /// The directory the build context will be read from.
    pub closed spec fn spec_path(&self) -> Seq<char> {
        self.path@
    }

    /// Whether gzip compression of the context will be skipped.
    pub closed spec fn spec_skip_gzip(&self) -> bool {
        self.skip_gzip
    }

    /// A builder over the directory holding the Dockerfile.
    pub fn new(path: &str) -> (r: Self)
        ensures
            r@ == Seq::<(Seq<char>, Seq<char>)>::empty(),
            r.wf(),
            r.spec_path() == path@,
            !r.spec_skip_gzip(),
    {
        BuildOptionsBuilder {
            path: path.to_owned(),
            build_params: BuildParams { params: Params::new() },
            skip_gzip: false,
        }
    }

    /// Upload the context as a plain tar archive, without gzip.
    pub fn set_skip_gzip(&mut self, skip_gzip: bool) -> (ret: &mut Self)
        requires
            old(self).wf(),
        ensures
            ret@ == old(self)@,
            ret.wf(),
            ret.spec_path() == old(self).spec_path(),
            ret.spec_skip_gzip() == skip_gzip,
            *final(self) == *final(ret),
    {
        self.skip_gzip = skip_gzip;
        self
    }

    /// Name of the Dockerfile within the context.
    pub fn dockerfile(&mut self, path: &str) -> (ret: &mut Self)
        requires
            old(self).wf(),
        ensures
            ret@ == map_insert(old(self)@, "dockerfile"@, path@),
            ret.wf(),
            ret.spec_path() == old(self).spec_path(),
            ret.spec_skip_gzip() == old(self).spec_skip_gzip(),
            *final(self) == *final(ret),
    {
        self.build_params.dockerfile(path);
        self
    }

    /// Tag for the built image.
    pub fn tag(&mut self, t: &str) -> (ret: &mut Self)
        requires
            old(self).wf(),
        ensures
            ret@ == map_insert(old(self)@, "t"@, t@),
            ret.wf(),
            ret.spec_path() == old(self).spec_path(),
            ret.spec_skip_gzip() == old(self).spec_skip_gzip(),
            *final(self) == *final(ret),
    {
        self.build_params.tag(t);
        self
    }

    /// Remote URL for the build context.
    pub fn remote(&mut self, r: &str) -> (ret: &mut Self)
        requires
            old(self).wf(),
        ensures
            ret@ == map_insert(old(self)@, "remote"@, r@),
            ret.wf(),
            ret.spec_path() == old(self).spec_path(),
            ret.spec_skip_gzip() == old(self).spec_skip_gzip(),
            *final(self) == *final(ret),
    {
        self.build_params.remote(r);
        self
    }

    /// Build without the image cache.
    pub fn nocache(&mut self, nc: bool) -> (ret: &mut Self)
        requires
            old(self).wf(),
        ensures
            ret@ == map_insert(old(self)@, "nocache"@, bool_chars(nc)),
            ret.wf(),
            ret.spec_path() == old(self).spec_path(),
            ret.spec_skip_gzip() == old(self).spec_skip_gzip(),
            *final(self) == *final(ret),
    {
        self.build_params.nocache(nc);
        self
    }

    /// Remove intermediate containers after a successful build.
    pub fn rm(&mut self, r: bool) -> (ret: &mut Self)
        requires
            old(self).wf(),
        ensures
            ret@ == map_insert(old(self)@, "rm"@, bool_chars(r)),
            ret.wf(),
            ret.spec_path() == old(self).spec_path(),
            ret.spec_skip_gzip() == old(self).spec_skip_gzip(),
            *final(self) == *final(ret),
    {
        self.build_params.rm(r);
        self
    }

    /// Always remove intermediate containers.
    pub fn forcerm(&mut self, fr: bool) -> (ret: &mut Self)
        requires
            old(self).wf(),
        ensures
            ret@ == map_insert(old(self)@, "forcerm"@, bool_chars(fr)),
            ret.wf(),
            ret.spec_path() == old(self).spec_path(),
            ret.spec_skip_gzip() == old(self).spec_skip_gzip(),
            *final(self) == *final(ret),
    {
        self.build_params.forcerm(fr);
        self
    }

    /// Networking mode for the build-time `RUN` instructions.
    pub fn network_mode(&mut self, t: &str) -> (ret: &mut Self)
        requires
            old(self).wf(),
        ensures
            ret@ == map_insert(old(self)@, "networkmode"@, t@),
            ret.wf(),
            ret.spec_path() == old(self).spec_path(),
            ret.spec_skip_gzip() == old(self).spec_skip_gzip(),
            *final(self) == *final(ret),
    {
        self.build_params.network_mode(t);
        self
    }

    /// Memory limit for the build, in bytes.
    pub fn memory(&mut self, memory: u64) -> (ret: &mut Self)
        requires
            old(self).wf(),
        ensures
            ret@ == map_insert(old(self)@, "memory"@, dec_chars(memory as int)),
            ret.wf(),
            ret.spec_path() == old(self).spec_path(),
            ret.spec_skip_gzip() == old(self).spec_skip_gzip(),
            *final(self) == *final(ret),
    {
        self.build_params.memory(memory);
        self
    }

    /// CPU share weighting for the build.
    pub fn cpu_shares(&mut self, cpu_shares: u32) -> (ret: &mut Self)
        requires
            old(self).wf(),
        ensures
            ret@ == map_insert(old(self)@, "cpushares"@, dec_chars(cpu_shares as int)),
            ret.wf(),
            ret.spec_path() == old(self).spec_path(),
            ret.spec_skip_gzip() == old(self).spec_skip_gzip(),
            *final(self) == *final(ret),
    {
        self.build_params.cpu_shares(cpu_shares);
        self
    }

    /// The finished options.
    pub fn build(&self) -> (r: BuildOptions)
        ensures
            r@ == self@,
            r.spec_path() == self.spec_path(),
            r.spec_skip_gzip() == self.spec_skip_gzip(),
    {
        BuildOptions {
            path: self.path.clone(),
            params: self.build_params.params.clone(),
            skip_gzip: self.skip_gzip,
        }
    }
}

/// The query parameters of an image build, without the context path.
#[derive(Debug)]
pub struct BuildParams {
    params: Params,
}

impl View for BuildParams {
    type V = Seq<(Seq<char>, Seq<char>)>;

    closed spec fn view(&self) -> Seq<(Seq<char>, Seq<char>)> {
        self.params@
    }
}

impl Default for BuildParams {
    /// No parameter set.
    fn default() -> (r: Self)
        ensures
            r@ == Seq::<(Seq<char>, Seq<char>)>::empty(),
            r.wf(),
    {
        BuildParams { params: Params::new() }
    }
}

impl BuildParams {
    /// Keys stay unique however the parameters were accumulated.
    pub closed spec fn wf(&self) -> bool {
        unique_keys(self.params@)
    }

    /// Name of the Dockerfile within the context.
    pub fn dockerfile(&mut self, path: &str) -> (ret: &mut Self)
        requires
            old(self).wf(),
        ensures
            ret@ == map_insert(old(self)@, "dockerfile"@, path@),
            ret.wf(),
            *final(self) == *final(ret),
    {
        self.params.insert("dockerfile", path.to_owned());
        self
    }

    /// Tag for the built image.
    pub fn tag(&mut self, t: &str) -> (ret: &mut Self)
        requires
            old(self).wf(),
        ensures
            ret@ == map_insert(old(self)@, "t"@, t@),
            ret.wf(),
            *final(self) == *final(ret),
    {
        self.params.insert("t", t.to_owned());
        self
    }

    /// Remote URL for the build context.
    pub fn remote(&mut self, r: &str) -> (ret: &mut Self)
        requires
            old(self).wf(),
        ensures
            ret@ == map_insert(old(self)@, "remote"@, r@),
            ret.wf(),
            *final(self) == *final(ret),
    {
        self.params.insert("remote", r.to_owned());
        self
    }

    /// Build without the image cache.
    pub fn nocache(&mut self, nc: bool) -> (ret: &mut Self)
        requires
            old(self).wf(),
        ensures
            ret@ == map_insert(old(self)@, "nocache"@, bool_chars(nc)),
            ret.wf(),
            *final(self) == *final(ret),
    {
        self.params.insert("nocache", bool_string(nc));
        self
    }

    /// Remove intermediate containers after a successful build.
    pub fn rm(&mut self, r: bool) -> (ret: &mut Self)
        requires
            old(self).wf(),
        ensures
            ret@ == map_insert(old(self)@, "rm"@, bool_chars(r)),
            ret.wf(),
            *final(self) == *final(ret),
    {
        self.params.insert("rm", bool_string(r));
        self
    }

    /// Always remove intermediate containers.
    pub fn forcerm(&mut self, fr: bool) -> (ret: &mut Self)
        requires
            old(self).wf(),
        ensures
            ret@ == map_insert(old(self)@, "forcerm"@, bool_chars(fr)),
            ret.wf(),
            *final(self) == *final(ret),
    {
        self.params.insert("forcerm", bool_string(fr));
        self
    }

    /// Networking mode for the build-time `RUN` instructions.
    pub fn network_mode(&mut self, t: &str) -> (ret: &mut Self)
        requires
            old(self).wf(),
        ensures
            ret@ == map_insert(old(self)@, "networkmode"@, t@),
            ret.wf(),
            *final(self) == *final(ret),
    {
        self.params.insert("networkmode", t.to_owned());
        self
    }

    /// Memory limit for the build, in bytes.
    pub fn memory(&mut self, memory: u64) -> (ret: &mut Self)
        requires
            old(self).wf(),
        ensures
            ret@ == map_insert(old(self)@, "memory"@, dec_chars(memory as int)),
            ret.wf(),
            *final(self) == *final(ret),
    {
        self.params.insert("memory", u64_string(memory));
        self
    }

    /// CPU share weighting for the build.
    pub fn cpu_shares(&mut self, cpu_shares: u32) -> (ret: &mut Self)
        requires
            old(self).wf(),
        ensures
            ret@ == map_insert(old(self)@, "cpushares"@, dec_chars(cpu_shares as int)),
            ret.wf(),
            *final(self) == *final(ret),
    {
        self.params.insert("cpushares", u64_string(cpu_shares as u64));
        self
    }

    /// The query string: `None` when no parameter is set.
    pub fn serialize(&self) -> (r: Option<String>)
        ensures
            match r {
                Some(s) => self@.len() > 0 && s@ == urlencoded_of(self@),
                None => self@.len() == 0,
            },
    {
        self.params.serialize()
    }
}


/// A copy of a vector of strings, element for element.
fn clone_strings(v: &Vec<String>) -> (r: Vec<String>)
    ensures
        r@ == v@,
{
    let mut out: Vec<String> = Vec::new();
    let n = v.len();
    let mut i: usize = 0;
    while i < n
        invariant
            n == v.len(),
            i <= n,
            out@ == v@.take(i as int),
        decreases n - i,
    {
        out.push(v[i].clone());
        proof {
            assert(out@ =~= v@.take(i + 1));
        }
        i += 1;
    }
    proof {
        assert(v@.take(n as int) =~= v@);
    }
    out
}

/// One predicate of an image-list filter.
pub enum ImageFilter {
    /// Images not referenced by any tag.
    Dangling,
    /// Images labelled with the given key.
    LabelName(String),
    /// Images labelled with the given key and value.
    Label(String, String),
}

/// An insertion-ordered map from filter names to lists of values.
#[derive(Debug)]
pub struct FilterMap {
    items: Vec<(String, Vec<String>)>,
}

impl View for FilterMap {
    type V = Seq<(Seq<char>, Seq<Seq<char>>)>;

    closed spec fn view(&self) -> Seq<(Seq<char>, Seq<Seq<char>>)> {
        self.items@.map_values(
            |p: (String, Vec<String>)| (p.0@, p.1@.map_values(|v: String| v@)),
        )
    }
}

/// Whether `s` holds pairwise-distinct filter names.
pub open spec fn unique_filter_keys(s: Seq<(Seq<char>, Seq<Seq<char>>)>) -> bool {
    forall|i: int, j: int| 0 <= i < j < s.len() ==> s[i].0 != s[j].0
}

/// `s` with the whole value list at `k` replaced by `vs`, or appended.
pub open spec fn filter_set(
    s: Seq<(Seq<char>, Seq<Seq<char>>)>,
    k: Seq<char>,
    vs: Seq<Seq<char>>,
) -> Seq<(Seq<char>, Seq<Seq<char>>)> {
    if exists|i: int| 0 <= i < s.len() && s[i].0 == k {
        s.update(choose|i: int| 0 <= i < s.len() && s[i].0 == k, (k, vs))
    } else {
        s.push((k, vs))
    }
}

/// `s` with `v` appended to the value list at `k`, creating the list
/// if `k` is new.
pub open spec fn filter_add(
    s: Seq<(Seq<char>, Seq<Seq<char>>)>,
    k: Seq<char>,
    v: Seq<char>,
) -> Seq<(Seq<char>, Seq<Seq<char>>)> {
    if exists|i: int| 0 <= i < s.len() && s[i].0 == k {
        let i = choose|i: int| 0 <= i < s.len() && s[i].0 == k;
        s.update(i, (k, s[i].1.push(v)))
    } else {
        s.push((k, seq![v]))
    }
}

/// The view of `m` with every string spelled in UTF-8 bytes, as the
/// JSON document sees it.
pub open spec fn filter_map_bytes(m: Seq<(Seq<char>, Seq<Seq<char>>)>) -> Seq<
    (Seq<u8>, Seq<Seq<u8>>),
> {
    m.map_values(
        |p: (Seq<char>, Seq<Seq<char>>)| (encode_utf8(p.0), p.1.map_values(|v: Seq<char>| encode_utf8(v))),
    )
}

impl FilterMap {
    /// A map with no filters.
    pub fn new() -> (r: FilterMap)
        ensures
            r@ == Seq::<(Seq<char>, Seq<Seq<char>>)>::empty(),
            unique_filter_keys(r@),
    {
        let r = FilterMap { items: Vec::new() };
        proof {
            assert(r@ =~= Seq::<(Seq<char>, Seq<Seq<char>>)>::empty());
        }
        r
    }


    /// A copy holding the same filters.
    pub fn duplicate(&self) -> (r: FilterMap)
        ensures
            r@ == self@,
    {
        let mut items: Vec<(String, Vec<String>)> = Vec::new();
        let n = self.items.len();
        let mut i: usize = 0;
        while i < n
            invariant
                n == self.items.len(),
                i <= n,
                items@.len() == i,
                forall|j: int|
                    0 <= j < i ==> (#[trigger] items@[j]).0 == self.items@[j].0 && items@[j].1@
                        == self.items@[j].1@,
            decreases n - i,
        {
            let p = &self.items[i];
            items.push((p.0.clone(), clone_strings(&p.1)));
            i += 1;
        }
        let r = FilterMap { items };
        proof {
            assert(r@ =~~= self@);
        }
        r
    }

    /// Whether no filter is set.
    pub fn is_empty(&self) -> (r: bool)
        ensures
            r == (self@.len() == 0),
    {
        self.items.len() == 0
    }

    /// Replace the value list of `key` with the single value `value`.
    pub fn set(&mut self, key: &str, value: String)
        requires
            unique_filter_keys(old(self)@),
        ensures
            final(self)@ == filter_set(old(self)@, key@, seq![value@]),
            unique_filter_keys(final(self)@),
    {
        let k: String = key.to_owned();
        let n = self.items.len();
        let mut i: usize = 0;
        while i < n
            invariant
                n == self.items.len(),
                i <= n,
                k@ == key@,
                self@ == old(self)@,
                unique_filter_keys(self@),
                forall|j: int| 0 <= j < i ==> self@[j].0 != key@,
            decreases n - i,
        {
            if self.items[i].0 == k {
                assert(self@[i as int].0 == key@);
                let mut vs: Vec<String> = Vec::new();
                vs.push(value);
                self.items.set(i, (k, vs));
                proof {
                    let ghost w = choose|m: int|
                        0 <= m < old(self)@.len() && old(self)@[m].0 == key@;
                    assert(old(self)@[w].0 == key@ && old(self)@[i as int].0 == key@);
                    assert(w == i as int);
                    assert(self@ =~~= filter_set(old(self)@, key@, seq![value@]));
                }
                return;
            }
            i += 1;
        }
        let mut vs: Vec<String> = Vec::new();
        vs.push(value);
        self.items.push((k, vs));
        proof {
            assert(forall|m: int| 0 <= m < old(self)@.len() ==> old(self)@[m].0 != key@);
            assert(self@ =~~= filter_set(old(self)@, key@, seq![value@]));
        }
    }

    /// Append `value` to the value list of `key`.
    pub fn add(&mut self, key: &str, value: String)
        requires
            unique_filter_keys(old(self)@),
        ensures
            final(self)@ == filter_add(old(self)@, key@, value@),
            unique_filter_keys(final(self)@),
    {
        let k: String = key.to_owned();
        let n = self.items.len();
        let mut i: usize = 0;
        while i < n
            invariant
                n == self.items.len(),
                i <= n,
                k@ == key@,
                self@ == old(self)@,
                unique_filter_keys(self@),
                forall|j: int| 0 <= j < i ==> self@[j].0 != key@,
            decreases n - i,
        {
            if self.items[i].0 == k {
                assert(self@[i as int].0 == key@);
                let mut entry = self.items.remove(i);
                entry.1.push(value);
                self.items.insert(i, (k, entry.1));
                proof {
                    let ghost w = choose|m: int|
                        0 <= m < old(self)@.len() && old(self)@[m].0 == key@;
                    assert(old(self)@[w].0 == key@ && old(self)@[i as int].0 == key@);
                    assert(w == i as int);
                    assert(self@ =~~= filter_add(old(self)@, key@, value@));
                }
                return;
            }
            i += 1;
        }
        let mut vs: Vec<String> = Vec::new();
        vs.push(value);
        self.items.push((k, vs));
        proof {
            assert(forall|m: int| 0 <= m < old(self)@.len() ==> old(self)@[m].0 != key@);
            assert(self@ =~~= filter_add(old(self)@, key@, value@));
        }
    }

    /// The JSON document for the map: each name mapped to its array of
    /// string values, in insertion order.
    pub fn to_json(&self) -> (r: Vec<u8>)
        ensures
            r@ == filters_json(filter_map_bytes(self@)),
    {
        let mut out: Vec<u8> = Vec::new();
        out.push(0x7b);
        let n = self.items.len();
        let mut i: usize = 0;
        while i < n
            invariant
                n == self.items.len(),
                i <= n,
                out@ == seq![0x7bu8] + crate::json::join_comma(
                    filter_map_bytes(self@).take(i as int).map_values(
                        |p: (Seq<u8>, Seq<Seq<u8>>)| json_string(p.0) + seq![0x3au8]
                            + json_string_array(p.1),
                    ),
                ),
            decreases n - i,
        {
            let ghost lits = filter_map_bytes(self@).take(i as int).map_values(
                |p: (Seq<u8>, Seq<Seq<u8>>)| json_string(p.0) + seq![0x3au8]
                    + json_string_array(p.1),
            );
            if i > 0 {
                out.push(0x2c);
            }
            let entry = &self.items[i];
            push_json_string(&mut out, entry.0.as_str());
            out.push(0x3a);
            push_json_string_array(&mut out, &entry.1);
            proof {
                let ghost pb = filter_map_bytes(self@)[i as int];
                let ghost item = json_string(pb.0) + seq![0x3au8] + json_string_array(pb.1);
                assert(pb.0 == encode_utf8(self.items@[i as int].0@));
                assert(pb.1 =~= crate::json::strings_bytes(self.items@[i as int].1));
                let lits1 = filter_map_bytes(self@).take(i + 1).map_values(
                    |p: (Seq<u8>, Seq<Seq<u8>>)| json_string(p.0) + seq![0x3au8]
                        + json_string_array(p.1),
                );
                assert(filter_map_bytes(self@).take(i + 1) =~= filter_map_bytes(self@).take(
                    i as int,
                ).push(pb));
                assert(lits1 =~= lits.push(item));
                crate::json::lemma_join_comma_snoc(lits, item);
                assert(out@ =~= seq![0x7bu8] + crate::json::join_comma(lits1));
            }
            i += 1;
        }
        out.push(0x7d);
        proof {
            assert(filter_map_bytes(self@).take(n as int) =~= filter_map_bytes(self@));
            assert(out@ =~= filters_json(filter_map_bytes(self@)));
        }
        out
    }
}

/// Options for listing images.
#[derive(Debug)]
pub struct ImageListOptions {
    params: Params,
}

impl View for ImageListOptions {
    type V = Seq<(Seq<char>, Seq<char>)>;

    closed spec fn view(&self) -> Seq<(Seq<char>, Seq<char>)> {
        self.params@
    }
}

impl ImageListOptions {
    /// A builder for these options.
    pub fn builder() -> (r: ImageListOptionsBuilder)
        ensures
            r@ == Seq::<(Seq<char>, Seq<char>)>::empty(),
            r.wf(),
    {
        ImageListOptionsBuilder { params: Params::new() }
    }

    /// The query string: `None` when no option is set.
    pub fn serialize(&self) -> (r: Option<String>)
        ensures
            match r {
                Some(s) => self@.len() > 0 && s@ == urlencoded_of(self@),
                None => self@.len() == 0,
            },
    {
        self.params.serialize()
    }
}

/// Accumulates [`ImageListOptions`].
#[derive(Debug)]
pub struct ImageListOptionsBuilder {
    params: Params,
}

impl View for ImageListOptionsBuilder {
    type V = Seq<(Seq<char>, Seq<char>)>;

    closed spec fn view(&self) -> Seq<(Seq<char>, Seq<char>)> {
        self.params@
    }
}

impl ImageListOptionsBuilder {
    /// Keys stay unique however the options were accumulated.
    pub closed spec fn wf(&self) -> bool {
        unique_keys(self.params@)
    }

    /// The options accumulated so far.
    pub closed spec fn spec_params(&self) -> Seq<(Seq<char>, Seq<char>)> {
        self.params@
    }

    /// Ask for digest information.
    pub fn digests(&mut self, d: bool) -> (ret: &mut Self)
        requires
            old(self).wf(),
        ensures
            ret.spec_params() == map_insert(old(self).spec_params(), "digests"@, bool_chars(d)),
            ret.wf(),
            *final(self) == *final(ret),
    {
        self.params.insert("digests", bool_string(d));
        self
    }

    /// List intermediate images too.
    pub fn all(&mut self) -> (ret: &mut Self)
        requires
            old(self).wf(),
        ensures
            ret.spec_params() == map_insert(old(self).spec_params(), "all"@, "true"@),
            ret.wf(),
            *final(self) == *final(ret),
    {
        self.params.insert("all", "true".to_owned());
        self
    }

    /// Restrict the listing by the given filters.
    ///
    /// Later filters of the same kind overwrite earlier ones, as a map
    /// keyed by filter name; the map is sent JSON-encoded under the
    /// `filters` parameter. The encoded document is UTF-8, so decoding
    /// it back to a string cannot fail; only if it could would the
    /// options stay unchanged.
    pub fn filter(&mut self, filters: Vec<ImageFilter>) -> (ret: &mut Self)
        requires
            old(self).wf(),
        ensures
            ret.wf(),
            *final(self) == *final(ret),
            filter_query_set(old(self).spec_params(), filters@, ret.spec_params()) || (
            !vstd::utf8::valid_utf8(filters_json(filter_map_bytes(filter_map_of(filters@))))
                && ret.spec_params() == old(self).spec_params()),
    {
        let mut fm = FilterMap::new();
        let n = filters.len();
        let mut i: usize = 0;
        while i < n
            invariant
                n == filters.len(),
                i <= n,
                unique_filter_keys(fm@),
                fm@ == filter_map_of(filters@.take(i as int)),
                self@ == old(self)@,
                self.wf(),
            decreases n - i,
        {
            proof {
                assert(filters@.take(i + 1) =~= filters@.take(i as int).push(
                    filters@[i as int],
                ));
                lemma_filter_map_of_snoc(filters@.take(i as int), filters@[i as int]);
            }
            match &filters[i] {
                ImageFilter::Dangling => {
                    fm.set("dangling", "true".to_owned());
                },
                ImageFilter::LabelName(n_) => {
                    fm.set("label", n_.clone());
                },
                ImageFilter::Label(n_, v_) => {
                    let mut label = n_.clone();
                    label.append("=");
                    label.append(v_.as_str());
                    proof {
                        reveal_strlit("=");
                    }
                    fm.set("label", label);
                },
            }
            i += 1;
        }
        proof {
            assert(filters@.take(n as int) =~= filters@);
        }
        let json = fm.to_json();
        match crate::json::string_from_utf8(json) {
            Some(s) => {
                let ghost sv = s@;
                self.params.insert("filters", s);
                proof {
                    assert(encode_utf8(sv) == filters_json(
                        filter_map_bytes(filter_map_of(filters@)),
                    ));
                    assert(self.spec_params() == map_insert(
                        old(self).spec_params(),
                        "filters"@,
                        sv,
                    ));
                    assert(filter_query_set(
                        old(self).spec_params(),
                        filters@,
                        self.spec_params(),
                    ));
                }
            },
            None => {},
        }
        self
    }

    /// The finished options.
    pub fn build(&self) -> (r: ImageListOptions)
        ensures
            r@ == self.spec_params(),
    {
        ImageListOptions { params: self.params.clone() }
    }
}

/// The filter map a list of [`ImageFilter`] values denotes: `dangling`
/// maps to `true`, labels (with or without a value) to a single `label`
/// entry, each filter overwriting any earlier one of the same name.
pub open spec fn filter_map_of(filters: Seq<ImageFilter>) -> Seq<(Seq<char>, Seq<Seq<char>>)>
    decreases filters.len(),
{
    if filters.len() == 0 {
        Seq::empty()
    } else {
        let rest = filter_map_of(filters.drop_last());
        match filters.last() {
            ImageFilter::Dangling => filter_set(rest, "dangling"@, seq!["true"@]),
            ImageFilter::LabelName(n) => filter_set(rest, "label"@, seq![n@]),
            ImageFilter::Label(n, v) => filter_set(rest, "label"@, seq![n@ + "="@ + v@]),
        }
    }
}

/// Appending one filter updates the denoted map by that filter alone.
proof fn lemma_filter_map_of_snoc(filters: Seq<ImageFilter>, f: ImageFilter)
    ensures
        filter_map_of(filters.push(f)) == (match f {
            ImageFilter::Dangling => filter_set(filter_map_of(filters), "dangling"@, seq!["true"@]),
            ImageFilter::LabelName(n) => filter_set(filter_map_of(filters), "label"@, seq![n@]),
            ImageFilter::Label(n, v) => filter_set(
                filter_map_of(filters),
                "label"@,
                seq![n@ + "="@ + v@],
            ),
        }),
{
    assert(filters.push(f).drop_last() =~= filters);
    assert(filters.push(f).last() == f);
}

/// How [`ImageListOptionsBuilder::filter`] relates options before and
/// after: the `filters` parameter holds a string whose UTF-8 bytes are
/// the JSON document of the denoted filter map.
pub open spec fn filter_query_set(
    before: Seq<(Seq<char>, Seq<char>)>,
    filters: Seq<ImageFilter>,
    after: Seq<(Seq<char>, Seq<char>)>,
) -> bool {
    exists|s: Seq<char>|
        encode_utf8(s) == filters_json(filter_map_bytes(filter_map_of(filters))) && after
            == map_insert(before, "filters"@, s)
}

/// Options for pushing an image to a registry.
#[derive(Debug)]
pub struct PushOptions {
    auth: Option<RegistryAuth>,
    params: Params,
}

impl View for PushOptions {
    type V = Seq<(Seq<char>, Seq<char>)>;

    closed spec fn view(&self) -> Seq<(Seq<char>, Seq<char>)> {
        self.params@
    }
}

impl PushOptions {
    /// The credentials these options carry.
    pub closed spec fn spec_auth(&self) -> Option<RegistryAuth> {
        self.auth
    }

    /// A builder for these options.
    pub fn builder() -> (r: PushOptionsBuilder)
        ensures
            r@ == Seq::<(Seq<char>, Seq<char>)>::empty(),
            r.wf(),
            r.spec_auth() is None,
    {
        PushOptionsBuilder { auth: None, params: Params::new() }
    }

    /// The query string: `None` when no option is set.
    pub fn serialize(&self) -> (r: Option<String>)
        ensures
            match r {
                Some(s) => self@.len() > 0 && s@ == urlencoded_of(self@),
                None => self@.len() == 0,
            },
    {
        self.params.serialize()
    }

    /// The `X-Registry-Auth` value, where credentials were given.
    pub fn auth_header(&self) -> (r: Option<String>)
        requires
            auth_fits(self.spec_auth()),
        ensures
            match r {
                Some(s) => auth_header_view(self.spec_auth()) == Some(s@),
                None => self.spec_auth() is None,
            },
    {
        auth_header_of(&self.auth)
    }
}

/// Accumulates [`PushOptions`].
#[derive(Debug)]
pub struct PushOptionsBuilder {
    auth: Option<RegistryAuth>,
    params: Params,
}

impl View for PushOptionsBuilder {
    type V = Seq<(Seq<char>, Seq<char>)>;

    closed spec fn view(&self) -> Seq<(Seq<char>, Seq<char>)> {
        self.params@
    }
}

impl PushOptionsBuilder {
    /// Keys stay unique however the options were accumulated.
    pub closed spec fn wf(&self) -> bool {
        unique_keys(self.params@)
    }

    /// The credentials accumulated so far.
    pub closed spec fn spec_auth(&self) -> Option<RegistryAuth> {
        self.auth
    }

    /// The tag to push.
    pub fn tag(&mut self, t: String) -> (ret: &mut Self)
        requires
            old(self).wf(),
        ensures
            ret@ == map_insert(old(self)@, "tag"@, t@),
            ret.wf(),
            ret.spec_auth() == old(self).spec_auth(),
            *final(self) == *final(ret),
    {
        self.params.insert("tag", t);
        self
    }

    /// Credentials for the registry.
    pub fn auth(&mut self, auth: RegistryAuth) -> (ret: &mut Self)
        requires
            old(self).wf(),
        ensures
            ret@ == old(self)@,
            ret.wf(),
            ret.spec_auth() == Some(auth),
            *final(self) == *final(ret),
    {
        self.auth = Some(auth);
        self
    }

    /// The finished options; the builder's credentials move into them.
    pub fn build(&mut self) -> (r: PushOptions)
        requires
            old(self).wf(),
        ensures
            r@ == old(self)@,
            r.spec_auth() == old(self).spec_auth(),
            final(self)@ == old(self)@,
            final(self).wf(),
            final(self).spec_auth() is None,
    {
        PushOptions { auth: self.auth.take(), params: self.params.clone() }
    }
}

/// Options for deleting an image.
#[derive(Debug)]
pub struct DeleteOptions {
    params: Params,
}

impl View for DeleteOptions {
    type V = Seq<(Seq<char>, Seq<char>)>;

    closed spec fn view(&self) -> Seq<(Seq<char>, Seq<char>)> {
        self.params@
    }
}

impl DeleteOptions {
    /// A builder for these options.
    pub fn builder() -> (r: DeleteOptionsBuilder)
        ensures
            r@ == Seq::<(Seq<char>, Seq<char>)>::empty(),
            r.wf(),
    {
        DeleteOptionsBuilder { params: Params::new() }
    }

    /// The query string: `None` when no option is set.
    pub fn serialize(&self) -> (r: Option<String>)
        ensures
            match r {
                Some(s) => self@.len() > 0 && s@ == urlencoded_of(self@),
                None => self@.len() == 0,
            },
    {
        self.params.serialize()
    }
}

/// Accumulates [`DeleteOptions`].
#[derive(Debug)]
pub struct DeleteOptionsBuilder {
    params: Params,
}

impl View for DeleteOptionsBuilder {
    type V = Seq<(Seq<char>, Seq<char>)>;

    closed spec fn view(&self) -> Seq<(Seq<char>, Seq<char>)> {
        self.params@
    }
}

impl DeleteOptionsBuilder {
    /// Keys stay unique however the options were accumulated.
    pub closed spec fn wf(&self) -> bool {
        unique_keys(self.params@)
    }

    /// Remove the image even while stopped containers or other tags
    /// still use it.
    pub fn force(self) -> (r: Self)
        requires
            self.wf(),
        ensures
            r@ == map_insert(self@, "force"@, "true"@),
            r.wf(),
    {
        let mut this = self;
        this.params.insert("force", bool_string(true));
        proof {
            reveal_strlit("true");
        }
        this
    }

    /// Keep untagged parent images.
    pub fn noprune(self) -> (r: Self)
        requires
            self.wf(),
        ensures
            r@ == map_insert(self@, "noprune"@, "true"@),
            r.wf(),
    {
        let mut this = self;
        this.params.insert("noprune", bool_string(true));
        proof {
            reveal_strlit("true");
        }
        this
    }

    /// The finished options.
    pub fn build(&mut self) -> (r: DeleteOptions)
        ensures
            r@ == old(self)@,
            final(self)@ == old(self)@,
    {
        DeleteOptions { params: self.params.clone() }
    }
}

/// Options for pruning unused images.
#[derive(Debug)]
pub struct PruneOptions {
    filters: FilterMap,
}

impl View for PruneOptions {
    type V = Seq<(Seq<char>, Seq<Seq<char>>)>;

    closed spec fn view(&self) -> Seq<(Seq<char>, Seq<Seq<char>>)> {
        self.filters@
    }
}

/// How a serialized prune query relates to the filters it carries: a
/// single `filters` parameter whose value's UTF-8 bytes are the JSON
/// document of the filter map.
pub open spec fn prune_query_ok(
    filters: Seq<(Seq<char>, Seq<Seq<char>>)>,
    q: Seq<char>,
) -> bool {
    exists|s: Seq<char>|
        encode_utf8(s) == filters_json(filter_map_bytes(filters)) && q == urlencoded_of(
            seq![("filters"@, s)],
        )
}

impl PruneOptions {
    /// A builder for these options.
    pub fn builder() -> (r: PruneOptionsBuilder)
        ensures
            r@ == Seq::<(Seq<char>, Seq<Seq<char>>)>::empty(),
            r.wf(),
    {
        PruneOptionsBuilder { filters: FilterMap::new() }
    }

    /// The query string: `None` when no filter is set, else a single
    /// `filters` parameter holding the JSON filter map.
    ///
    /// The JSON document is UTF-8, so decoding it back to a string
    /// cannot fail; the error arm holds only if it could.
    pub fn serialize(&self) -> (r: Result<Option<String>, Error>)
        ensures
            match r {
                Ok(opt) => match opt {
                    Some(q) => self@.len() > 0 && prune_query_ok(self@, q@),
                    None => self@.len() == 0,
                },
                Err(e) => e == Error::Decode && !vstd::utf8::valid_utf8(
                    filters_json(filter_map_bytes(self@)),
                ),
            },
    {
        if self.filters.is_empty() {
            Ok(None)
        } else {
            let json = self.filters.to_json();
            match crate::json::string_from_utf8(json) {
                Some(s) => {
                    let ghost sv = s@;
                    let mut params = Params::new();
                    params.insert("filters", s);
                    proof {
                        assert(params@ =~= seq![("filters"@, sv)]);
                    }
                    let q = params.serialize();
                    match q {
                        Some(qs) => {
                            proof {
                                assert(encode_utf8(sv) == filters_json(filter_map_bytes(self@)));
                                assert(qs@ == urlencoded_of(seq![("filters"@, sv)]));
                                assert(prune_query_ok(self@, qs@));
                            }
                            Ok(Some(qs))
                        },
                        None => Err(Error::Decode),
                    }
                },
                None => Err(Error::Decode),
            }
        }
    }
}

/// Accumulates [`PruneOptions`].
#[derive(Debug)]
pub struct PruneOptionsBuilder {
    filters: FilterMap,
}

impl View for PruneOptionsBuilder {
    type V = Seq<(Seq<char>, Seq<Seq<char>>)>;

    closed spec fn view(&self) -> Seq<(Seq<char>, Seq<Seq<char>>)> {
        self.filters@
    }
}

impl PruneOptionsBuilder {
    /// Filter names stay unique however the options were accumulated.
    pub closed spec fn wf(&self) -> bool {
        unique_filter_keys(self.filters@)
    }

    /// Prune only dangling images (`true`) or all unused ones (`false`).
    pub fn dangling(self, dangling: bool) -> (r: Self)
        requires
            self.wf(),
        ensures
            r@ == filter_set(self@, "dangling"@, seq![bool_chars(dangling)]),
            r.wf(),
    {
        let mut this = self;
        this.filters.set("dangling", bool_string(dangling));
        this
    }

    /// Prune only images created before this timestamp or duration.
    pub fn until(self, until: String) -> (r: Self)
        requires
            self.wf(),
        ensures
            r@ == filter_set(self@, "until"@, seq![until@]),
            r.wf(),
    {
        let mut this = self;
        this.filters.set("until", until);
        this
    }

    /// Prune only images carrying (or, with `label!=`, lacking) the
    /// given label.
    pub fn add_label(self, label: String) -> (r: Self)
        requires
            self.wf(),
        ensures
            r@ == filter_add(self@, "label"@, label@),
            r.wf(),
    {
        let mut this = self;
        this.filters.add("label", label);
        this
    }

    /// Add each label in turn, as [`PruneOptionsBuilder::add_label`].
    pub fn add_labels(self, labels: Vec<String>) -> (r: Self)
        requires
            self.wf(),
        ensures
            r@ == spec_add_labels(self@, labels@),
            r.wf(),
    {
        let mut this = self;
        let n = labels.len();
        let mut i: usize = 0;
        proof {
            assert(labels@.take(0int) =~= Seq::<String>::empty());
        }
        while i < n
            invariant
                n == labels@.len(),
                i <= n,
                this.wf(),
                this@ == spec_add_labels(self@, labels@.take(i as int)),
            decreases n - i,
        {
            proof {
                assert(labels@.take(i + 1) =~= labels@.take(i as int).push(labels@[i as int]));
                lemma_add_labels_snoc(self@, labels@.take(i as int), labels@[i as int]);
            }
            this = this.add_label(labels[i].clone());
            i += 1;
        }
        proof {
            assert(labels@.take(n as int) =~= labels@);
        }
        this
    }

    /// The finished options.
    pub fn build(&mut self) -> (r: PruneOptions)
        ensures
            r@ == old(self)@,
            final(self)@ == old(self)@,
    {
        PruneOptions { filters: self.filters.duplicate() }
    }
}

/// `labels` added to `s` in order, each as a `label` filter value.
pub open spec fn spec_add_labels(
    s: Seq<(Seq<char>, Seq<Seq<char>>)>,
    labels: Seq<String>,
) -> Seq<(Seq<char>, Seq<Seq<char>>)>
    decreases labels.len(),
{
    if labels.len() == 0 {
        s
    } else {
        filter_add(spec_add_labels(s, labels.drop_last()), "label"@, labels.last()@)
    }
}

/// Adding one more label extends the accumulated filter map.
proof fn lemma_add_labels_snoc(
    s: Seq<(Seq<char>, Seq<Seq<char>>)>,
    labels: Seq<String>,
    l: String,
)
    ensures
        spec_add_labels(s, labels.push(l)) == filter_add(spec_add_labels(s, labels), "label"@, l@),
{
    assert(labels.push(l).drop_last() =~= labels);
    assert(labels.push(l).last() == l);
}

} // verus!
