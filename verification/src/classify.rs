use vstd::prelude::*;
use crate::pattern::{Pattern, matches_of};

verus! {

/// The kind of a discovered filesystem entry. Symbolic links are never
/// followed and fall under `Other`.
#[derive(Clone, Copy, Debug, PartialEq, Eq, Structural)]
pub enum EntryKind {
    File,
    Directory,
    Other,
}

/// A discovered filesystem entry: its full path, its base name, its depth
/// below the root (the root itself stands at depth 0), and its kind.
pub struct FileEntry {
    pub path: String,
    pub name: String,
    pub depth: usize,
    pub kind: EntryKind,
}

/// The mathematical content of a `FileEntry`.
pub ghost struct EntryModel {
    pub path: Seq<char>,
    pub name: Seq<char>,
    pub depth: int,
    pub kind: EntryKind,
}

impl View for FileEntry {
    type V = EntryModel;

    open spec fn view(&self) -> EntryModel {
        EntryModel {
            path: self.path@,
            name: self.name@,
            depth: self.depth as int,
            kind: self.kind,
        }
    }
}

/// What one search runs with: the root path, the two compiled patterns,
/// whether binary files are scanned too, and an optional depth bound
/// (`None` means unbounded).
pub struct SearchRequest {
    pub root: String,
    pub filename_pattern: Pattern,
    pub content_pattern: Pattern,
    pub include_binary: bool,
    pub max_depth: Option<usize>,
}

/// The mathematical content of a `SearchRequest`: each pattern by its text.
pub ghost struct RequestModel {
    pub root: Seq<char>,
    pub filename_pattern: Seq<char>,
    pub content_pattern: Seq<char>,
    pub include_binary: bool,
    pub max_depth: Option<usize>,
}

impl View for SearchRequest {
    type V = RequestModel;

    open spec fn view(&self) -> RequestModel {
        RequestModel {
            root: self.root@,
            filename_pattern: self.filename_pattern@,
            content_pattern: self.content_pattern@,
            include_binary: self.include_binary,
            max_depth: self.max_depth,
        }
    }
}

/// Depth `depth` lies within the request's bound.
pub open spec fn depth_ok(req: RequestModel, depth: int) -> bool {
    match req.max_depth {
        Option::None => true,
        Option::Some(d) => depth <= d as int,
    }
}

/// An entry is eligible for scanning iff it is a regular file, its depth
/// lies within the bound, and the filename pattern matches somewhere in its
/// base name.
pub open spec fn eligible_spec(req: RequestModel, e: EntryModel) -> bool {
    &&& e.kind == EntryKind::File
    &&& depth_ok(req, e.depth)
    &&& matches_of(req.filename_pattern, e.name)
}

/// Decides whether traversal stays within the depth bound at `depth`; used
/// to prune whole subtrees during the walk.
pub fn within_depth(req: &SearchRequest, depth: usize) -> (r: bool)
    ensures
        r == depth_ok(req@, depth as int),
{
    match req.max_depth {
        Option::None => true,
        Option::Some(d) => depth <= d,
    }
}

/// Decides whether an entry is scanned at all: a regular file, within the
/// depth bound, whose base name the filename pattern matches. Entries beyond
/// the depth bound are never eligible.
pub fn classify(req: &SearchRequest, e: &FileEntry) -> (r: bool)
    ensures
        r == eligible_spec(req@, e@),
        !depth_ok(req@, e@.depth) ==> !r,
{
    let is_file = match e.kind {
        EntryKind::File => true,
        EntryKind::Directory => false,
        EntryKind::Other => false,
    };
    if !is_file {
        return false;
    }
    if !within_depth(req, e.depth) {
        return false;
    }
    req.filename_pattern.is_match(e.name.as_str())
}

/// Depth bound: under `max_depth == Some(d)`, no entry deeper than `d` is
/// ever eligible, so none is ever opened or scanned.
pub proof fn lemma_depth_bound(req: RequestModel, e: EntryModel, d: usize)
    requires
        req.max_depth == Some(d),
        e.depth > d as int,
    ensures
        !eligible_spec(req, e),
{
}

} // verus!
