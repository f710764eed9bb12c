//! Where a repository comes from: a local path is opened as it is; a remote
//! location is cloned once into a local cache and opened from there ever
//! after. The decisions are made here; opening and cloning are the caller's.

use vstd::prelude::*;
use vstd::string::*;

verus! {

/// `pattern` stands in `text` at position `at`.
pub open spec fn occurs_at(text: Seq<char>, pattern: Seq<char>, at: int) -> bool {
    &&& 0 <= at
    &&& at + pattern.len() <= text.len()
    &&& text.subrange(at, at + pattern.len()) == pattern
}

/// `pattern` stands somewhere in `text`.
pub open spec fn occurs_in(text: Seq<char>, pattern: Seq<char>) -> bool {
    exists|at: int| occurs_at(text, pattern, at)
}

/// What follows the last `/` of `text`; all of `text` where it has none.
pub open spec fn last_segment(text: Seq<char>) -> Seq<char>
    decreases text.len(),
{
    if text.len() == 0 || text.last() == '/' {
        Seq::empty()
    } else {
        last_segment(text.drop_last()).push(text.last())
    }
}

/// The mark of a remote location.
pub open spec fn remote_marker() -> Seq<char> {
    "github.com"@
}

/// The directory under which clones are kept.
pub open spec fn cache_root() -> Seq<char> {
    "repos/"@
}

/// A location names a remote repository where it holds the remote marker.
pub open spec fn is_remote(location: Seq<char>) -> bool {
    occurs_in(location, remote_marker())
}

/// Where the clone of a remote location is kept: under the cache root, by
/// the location's last path segment.
pub open spec fn cache_path_of(location: Seq<char>) -> Seq<char> {
    cache_root() + last_segment(location)
}

/// A location, told apart.
#[derive(Clone, Debug, PartialEq, Eq)]
pub enum Source {
    /// A path on this machine.
    Local { path: String },
    /// A remote repository, and the path where its clone is kept.
    Remote { url: String, cache: String },
}

/// What to do to get the repository.
#[derive(Clone, Debug, PartialEq, Eq)]
pub enum Acquisition {
    /// Open the repository at `path`.
    Open { path: String },
    /// Create the directory `path`, clone `url` into it, and use the clone.
    CloneInto { url: String, path: String },
}

/// Which step of getting a repository failed: told apart from each other,
/// and from the errors of a walk.
#[derive(Clone, Copy, Debug, PartialEq, Eq, Structural)]
pub enum AcquisitionError {
    /// The repository could not be opened.
    Open,
    /// The repository could not be cloned.
    Clone,
}

/// What a source is, as plain text.
pub enum SourceModel {
    Local { path: Seq<char> },
    Remote { url: Seq<char>, cache: Seq<char> },
}

/// What an acquisition is, as plain text.
pub enum AcquisitionModel {
    Open { path: Seq<char> },
    CloneInto { url: Seq<char>, path: Seq<char> },
}

impl View for Source {
    type V = SourceModel;

    open spec fn view(&self) -> SourceModel {
        match self {
            Source::Local { path } => SourceModel::Local { path: path@ },
            Source::Remote { url, cache } => SourceModel::Remote { url: url@, cache: cache@ },
        }
    }
}

impl View for Acquisition {
    type V = AcquisitionModel;

    open spec fn view(&self) -> AcquisitionModel {
        match self {
            Acquisition::Open { path } => AcquisitionModel::Open { path: path@ },
            Acquisition::CloneInto { url, path } => AcquisitionModel::CloneInto {
                url: url@,
                path: path@,
            },
        }
    }
}

/// The source that a location names.
pub open spec fn source_of(location: Seq<char>) -> SourceModel {
    if is_remote(location) {
        SourceModel::Remote { url: location, cache: cache_path_of(location) }
    } else {
        SourceModel::Local { path: location }
    }
}

/// What to do for a source, given whether its cache directory exists: a
/// local path is opened; so is a cache that exists; only a remote source
/// without a cache is cloned.
pub open spec fn acquisition_of(source: SourceModel, cache_exists: bool) -> AcquisitionModel {
    match source {
        SourceModel::Local { path } => AcquisitionModel::Open { path },
        SourceModel::Remote { url, cache } => if cache_exists {
            AcquisitionModel::Open { path: cache }
        } else {
            AcquisitionModel::CloneInto { url, path: cache }
        },
    }
}

/// The error that a failure of `action` is.
pub open spec fn failure_of(action: AcquisitionModel) -> AcquisitionError {
    match action {
        AcquisitionModel::Open { .. } => AcquisitionError::Open,
        AcquisitionModel::CloneInto { .. } => AcquisitionError::Clone,
    }
}

impl Acquisition {
    /// The error to report where this action fails.
    pub fn failure(&self) -> (error: AcquisitionError)
        ensures
            error == failure_of(self@),
    {
        match self {
            Acquisition::Open { .. } => AcquisitionError::Open,
            Acquisition::CloneInto { .. } => AcquisitionError::Clone,
        }
    }
}

/// The characters of a string.
fn chars_of(text: &str) -> (chars: Vec<char>)
    ensures
        chars@ == text@,
{
    let n = text.unicode_len();
    let mut chars: Vec<char> = Vec::new();
    let mut i: usize = 0;
    while i < n
        invariant
            n == text@.len(),
            i <= n,
            chars@ == text@.take(i as int),
        decreases n - i,
    {
        chars.push(text.get_char(i));
        i += 1;
    }
    assert(text@.take(n as int) =~= text@);
    chars
}

/// Whether `pattern` stands in `text` at position `at`.
fn matches_at(text: &Vec<char>, pattern: &Vec<char>, at: usize) -> (r: bool)
    requires
        at + pattern@.len() <= text@.len(),
    ensures
        r == occurs_at(text@, pattern@, at as int),
{
    let n = text.len();
    let m = pattern.len();
    let mut j: usize = 0;
    while j < m
        invariant
            n == text@.len(),
            m == pattern@.len(),
            at + m <= n,
            j <= m,
            forall|k: int| 0 <= k < j ==> text@[at + k] == pattern@[k],
        decreases m - j,
    {
        if text[at + j] != pattern[j] {
            assert(text@.subrange(at as int, at + m)[j as int] == text@[at + j]);
            return false;
        }
        j += 1;
    }
    assert(text@.subrange(at as int, at + m) =~= pattern@);
    true
}

/// Whether `pattern` stands somewhere in `text`.
pub fn contains(text: &Vec<char>, pattern: &Vec<char>) -> (found: bool)
    ensures
        found == occurs_in(text@, pattern@),
{
    let n = text.len();
    let m = pattern.len();
    if m > n {
        return false;
    }
    let last = n - m;
    let mut at: usize = 0;
    loop
        invariant
            n == text@.len(),
            m == pattern@.len(),
            last == n - m,
            at <= last,
            forall|k: int| 0 <= k < at ==> !occurs_at(text@, pattern@, k),
        decreases last - at,
    {
        if matches_at(text, pattern, at) {
            return true;
        }
        if at == last {
            return false;
        }
        at += 1;
    }
}

/// Where the last path segment of `text` starts.
fn last_segment_start(text: &Vec<char>) -> (start: usize)
    ensures
        start <= text@.len(),
        text@.subrange(start as int, text@.len() as int) == last_segment(text@),
{
    let n = text.len();
    let mut start: usize = n;
    while start > 0 && text[start - 1] != '/'
        invariant
            n == text@.len(),
            start <= n,
            forall|k: int| start <= k < n ==> text@[k] != '/',
        decreases start,
    {
        start -= 1;
    }
    proof {
        lemma_last_segment(text@, start as int);
    }
    start
}

/// The last segment is what stands behind the last `/`.
proof fn lemma_last_segment(text: Seq<char>, start: int)
    requires
        0 <= start <= text.len(),
        forall|k: int| start <= k < text.len() ==> text[k] != '/',
        start == 0 || text[start - 1] == '/',
    ensures
        text.subrange(start, text.len() as int) == last_segment(text),
    decreases text.len(),
{
    if start == text.len() {
        assert(text.subrange(start, text.len() as int) =~= Seq::empty());
    } else {
        let front = text.drop_last();
        lemma_last_segment(front, start);
        assert(text.subrange(start, text.len() as int) =~= front.subrange(
            start,
            front.len() as int,
        ).push(text.last()));
    }
}

/// The path where the clone of `location` is kept.
pub fn cache_path(location: &str) -> (path: String)
    ensures
        path@ == cache_path_of(location@),
{
    let text = chars_of(location);
    let start = last_segment_start(&text);
    let segment = location.substring_char(start, text.len());
    let mut path = String::from_str("repos/");
    path.append(segment);
    path
}

/// Tells a location apart: remote where it holds the remote marker, and
/// then with the path of its cache; local otherwise.
pub fn locate(location: &str) -> (source: Source)
    ensures
        source@ == source_of(location@),
{
    let text = chars_of(location);
    let marker = chars_of("github.com");
    if contains(&text, &marker) {
        Source::Remote { url: String::from_str(location), cache: cache_path(location) }
    } else {
        Source::Local { path: String::from_str(location) }
    }
}

/// Decides how to get the repository of a source, given whether the
/// source's cache directory exists.
pub fn acquire(source: Source, cache_exists: bool) -> (action: Acquisition)
    ensures
        action@ == acquisition_of(source@, cache_exists),
{
    match source {
        Source::Local { path } => Acquisition::Open { path },
        Source::Remote { url, cache } => {
            if cache_exists {
                Acquisition::Open { path: cache }
            } else {
                Acquisition::CloneInto { url, path: cache }
            }
        },
    }
}

/// A repository that is on this machine is never cloned: neither a local
/// path, nor a remote location whose cache exists. A remote location
/// without a cache is cloned into its cache path, and opening that path
/// afterwards clones nothing.
pub proof fn lemma_clone_once(location: Seq<char>, cache_exists: bool)
    ensures
        acquisition_of(source_of(location), cache_exists) is CloneInto <==> is_remote(location)
            && !cache_exists,
        acquisition_of(source_of(location), cache_exists) matches AcquisitionModel::CloneInto {
            url,
            path,
        } ==> url == location && path == cache_path_of(location) && acquisition_of(
            source_of(location),
            true,
        ) == (AcquisitionModel::Open { path }),
        !is_remote(location) ==> acquisition_of(source_of(location), cache_exists) == (
        AcquisitionModel::Open { path: location }),
{
}

} // verus!
