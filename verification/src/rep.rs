//! The JSON records the daemon returns.
//!
//! These are plain data shapes; timestamps are Unix seconds and maps
//! are insertion-ordered pair lists. Turning response bytes into these
//! records is the caller's concern; the shapes themselves, and the two
//! helpers that read progress events, live here.

use vstd::prelude::*;

use crate::params::{map_insert, unique_keys, Params};

verus! {

/// One result of an image search.
#[derive(Clone, Debug, PartialEq, Eq)]
pub struct SearchResult {
    pub description: String,
    pub is_official: bool,
    pub is_automated: Option<bool>,
    pub name: String,
    pub star_count: u64,
}

/// Summary of one image in a listing.
#[derive(Clone, Debug, PartialEq, Eq)]
pub struct ImageInfo {
    /// Creation time, in seconds since the Unix epoch.
    pub created: u64,
    pub id: String,
    pub parent_id: String,
    pub labels: Option<Vec<(String, String)>>,
    pub repo_tags: Option<Vec<String>>,
    pub repo_digests: Option<Vec<String>>,
    pub virtual_size: Option<u64>,
}

/// Full details of one image.
#[derive(Clone, Debug, PartialEq, Eq)]
pub struct ImageDetails {
    pub architecture: String,
    pub author: String,
    pub comment: String,
    pub config: ContainerConfig,
    pub created: String,
    pub docker_version: String,
    pub id: String,
    pub os: String,
    pub parent: String,
    pub repo_tags: Option<Vec<String>>,
    pub repo_digests: Option<Vec<String>>,
    pub size: u64,
    pub virtual_size: Option<u64>,
}

/// The container configuration embedded in image details.
#[derive(Clone, Debug, PartialEq, Eq)]
pub struct ContainerConfig {
    pub attach_stderr: Option<bool>,
    pub attach_stdin: Option<bool>,
    pub attach_stdout: Option<bool>,
    pub cmd: Option<Vec<String>>,
    pub domainname: Option<String>,
    pub entrypoint: Option<Vec<String>>,
    pub env: Option<Vec<String>>,
    pub exposed_ports: Option<Vec<(String, Vec<(String, String)>)>>,
    pub hostname: Option<String>,
    pub image: Option<String>,
    pub labels: Option<Vec<(String, String)>>,
    pub on_build: Option<Vec<String>>,
    pub open_stdin: Option<bool>,
    pub stdin_once: Option<bool>,
    pub tty: Option<bool>,
    pub user: String,
    pub working_dir: String,
}

/// The position of the first `c` in `s` at or after `from`.
pub open spec fn find_char(s: Seq<char>, from: int, c: char) -> Option<int>
    decreases s.len() - from
        when 0 <= from <= s.len()
{
    if from >= s.len() {
        None
    } else if s[from] == c {
        Some(from)
    } else {
        find_char(s, from + 1, c)
    }
}

/// A found position pins the spec search down.
proof fn lemma_find_char_some(s: Seq<char>, from: int, idx: int, c: char)
    requires
        0 <= from <= idx < s.len(),
        s[idx] == c,
        forall|j: int| from <= j < idx ==> s[j] != c,
    ensures
        find_char(s, from, c) == Some(idx),
    decreases idx - from,
{
    if from < idx {
        lemma_find_char_some(s, from + 1, idx, c);
    }
}

/// An exhausted search pins the spec search down.
proof fn lemma_find_char_none(s: Seq<char>, from: int, c: char)
    requires
        0 <= from <= s.len(),
        forall|j: int| from <= j < s.len() ==> s[j] != c,
    ensures
        find_char(s, from, c) == None::<int>,
    decreases s.len() - from,
{
    if from < s.len() {
        lemma_find_char_none(s, from + 1, c);
    }
}

/// The key and value of one `NAME=VALUE` environment entry: the key is
/// everything before the first `=`, the value everything between the
/// first `=` and the second one, or the end if there is no second.
pub open spec fn env_pair(s: Seq<char>) -> (Seq<char>, Seq<char>)
    recommends
        find_char(s, 0, '=') is Some,
{
    let i = find_char(s, 0, '=').unwrap();
    let j = match find_char(s, i + 1, '=') {
        Some(j) => j,
        None => s.len() as int,
    };
    (s.take(i), s.subrange(i + 1, j))
}

/// The environment entries folded into a map, later entries of the
/// same name overwriting earlier ones.
pub open spec fn env_map(vars: Seq<Seq<char>>) -> Seq<(Seq<char>, Seq<char>)>
    decreases vars.len(),
{
    if vars.len() == 0 {
        Seq::empty()
    } else {
        let p = env_pair(vars.last());
        map_insert(env_map(vars.drop_last()), p.0, p.1)
    }
}

/// Find the first `c` in `s` at or after `from`, as [`find_char`].
fn find_char_at(s: &str, from: usize, c: char) -> (r: Option<usize>)
    requires
        from <= s@.len(),
    ensures
        match r {
            Some(i) => from <= i < s@.len() && find_char(s@, from as int, c) == Some(i as int),
            None => find_char(s@, from as int, c) is None,
        },
{
    let n = s.unicode_len();
    let mut i: usize = from;
    while i < n
        invariant
            from <= i <= n,
            n == s@.len(),
            forall|j: int| from <= j < i ==> s@[j] != c,
        decreases n - i,
    {
        if s.get_char(i) == c {
            proof {
                lemma_find_char_some(s@, from as int, i as int, c);
            }
            return Some(i);
        }
        i += 1;
    }
    proof {
        lemma_find_char_none(s@, from as int, c);
    }
    None
}

impl ContainerConfig {
    /// The environment as a map, each `NAME=VALUE` entry split as
    /// [`env_pair`]; an absent environment gives an empty map.
    ///
    /// Every entry must contain an `=`.
    pub fn env(&self) -> (r: Params)
        requires
            match self.env {
                Some(vars) => forall|i: int|
                    0 <= i < vars@.len() ==> find_char((#[trigger] vars@[i])@, 0, '=') is Some,
                None => true,
            },
        ensures
            match self.env {
                Some(vars) => r@ == env_map(vars@.map_values(|v: String| v@)),
                None => r@ == Seq::<(Seq<char>, Seq<char>)>::empty(),
            },
            unique_keys(r@),
    {
        let mut map = Params::new();
        match &self.env {
            Some(vars) => {
                let n = vars.len();
                let mut i: usize = 0;
                proof {
                    assert(vars@.map_values(|v: String| v@).take(0int) =~= Seq::<
                        Seq<char>,
                    >::empty());
                }
                while i < n
                    invariant
                        n == vars.len(),
                        i <= n,
                        forall|k: int|
                            0 <= k < vars@.len() ==> find_char(
                                (#[trigger] vars@[k])@,
                                0,
                                '=',
                            ) is Some,
                        unique_keys(map@),
                        map@ == env_map(vars@.map_values(|v: String| v@).take(i as int)),
                    decreases n - i,
                {
                    let e: &String = &vars[i];
                    let ghost ev = e@;
                    let eq1 = find_char_at(e.as_str(), 0, '=');
                    let i1 = match eq1 {
                        Some(p) => p,
                        None => 0,
                    };
                    assert(find_char(ev, 0, '=') == Some(i1 as int));
                    let nu = e.as_str().unicode_len();
                    assert(i1 < nu);
                    let end = match find_char_at(e.as_str(), i1 + 1, '=') {
                        Some(p) => p,
                        None => nu,
                    };
                    let key = e.as_str().substring_char(0, i1);
                    let value = e.as_str().substring_char(i1 + 1, end);
                    proof {
                        assert(key@ == ev.take(i1 as int));
                        assert(value@ == ev.subrange(i1 + 1, end as int));
                        assert((key@, value@) == env_pair(ev));
                    }
                    map.insert(key, value.to_owned());
                    proof {
                        let vs = vars@.map_values(|v: String| v@);
                        assert(vs.take(i + 1) =~= vs.take(i as int).push(ev));
                        assert(vs.take(i + 1).drop_last() =~= vs.take(i as int));
                        assert(vs.take(i + 1).last() == ev);
                    }
                    i += 1;
                }
                proof {
                    let vs = vars@.map_values(|v: String| v@);
                    assert(vs.take(n as int) =~= vs);
                }
            },
            None => {},
        }
        map
    }
}

/// One line of the response to an image deletion.
#[derive(Clone, Debug, PartialEq, Eq)]
pub enum Status {
    Untagged(String),
    Deleted(String),
}

/// One entry of an image's history.
#[derive(Clone, Debug, PartialEq, Eq)]
pub struct History {
    pub id: String,
    /// Creation time, in seconds since the Unix epoch.
    pub created: u64,
    pub created_by: String,
}

/// The digest object a build reports when it finishes.
#[derive(Clone, Debug, PartialEq, Eq)]
pub struct Aux {
    pub id: String,
}

/// The detail of a reported error event.
#[derive(Clone, Debug, PartialEq, Eq)]
pub struct ErrorDetail {
    pub message: String,
}

/// Byte counts of one layer's progress.
#[derive(Clone, Copy, Debug, PartialEq, Eq, Structural)]
pub struct ProgressDetail {
    pub current: Option<u64>,
    pub total: Option<u64>,
}

/// One decoded progress event of a build, pull or import.
#[derive(Clone, Debug, PartialEq, Eq)]
pub enum ImageBuildChunk {
    /// A line of build output.
    Update { stream: String },
    /// A reported error; the stream ends after it.
    Error { error: Option<String>, error_detail: ErrorDetail },
    /// The digest of the finished image.
    Digest { aux: Aux },
    /// The status of one layer during a pull.
    PullStatus {
        status: String,
        id: Option<String>,
        progress: Option<String>,
        progress_detail: Option<ProgressDetail>,
    },
}

impl ImageBuildChunk {
    /// The eventual compressed layer size a pull-status event reports,
    /// where one is available.
    pub fn total_image_bytes(&self) -> (r: Option<u64>)
        ensures
            r == (match self {
                ImageBuildChunk::PullStatus { progress_detail: Some(d), .. } => d.total,
                _ => None::<u64>,
            }),
    {
        match self {
            ImageBuildChunk::PullStatus { status: _, id: _, progress: _, progress_detail } => {
                if let Some(detail) = progress_detail {
                    return detail.total;
                }
                None
            },
            _ => None,
        }
    }

    /// The layer id and its eventual compressed size, where a
    /// pull-status event carries both.
    pub fn image_layer_bytes(&self) -> (r: Option<(String, u64)>)
        ensures
            match self {
                ImageBuildChunk::PullStatus {
                    id: Some(id),
                    progress_detail: Some(ProgressDetail { total: Some(total), .. }),
                    ..
                } => r matches Some(p) && p.0@ == id@ && p.1 == total,
                _ => r is None,
            },
    {
        match self {
            ImageBuildChunk::PullStatus {
                status: _,
                id: Some(id),
                progress: _,
                progress_detail: Some(ProgressDetail { current: _, total: Some(total) }),
            } => Some((id.clone(), *total)),
            _ => None,
        }
    }
}

} // verus!
