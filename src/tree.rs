//! Building tree nodes from what the filesystem reports: the one-level
//! listing of a directory, and the depth-bounded, filtered projection of a
//! subtree.
use vstd::prelude::*;
use crate::classify::{
    extension_of, is_hidden, is_text_file_extension, spec_extension, spec_is_hidden,
    spec_is_projectable,
};
use crate::node::{FileTreeNode, NodeModel, models, opt_view};
use crate::order::{lower_of, lowercase, sort_nodes, sort_tree_nodes};

verus! {

/// One entry of a directory, as the filesystem reports it.
#[derive(Debug, Clone, PartialEq, Eq)]
pub struct DirEntry {
    pub name: String,
    pub path: String,
    pub is_dir: bool,
}

/// Why an operation on the filesystem failed.
#[derive(Debug, Clone, PartialEq, Eq)]
pub enum FileError {
    Io(String),
    NotFound(String),
    PermissionDenied(String),
    InvalidInput(String),
}

impl FileError {
    /// A copy of this error.
    pub fn duplicate(&self) -> (r: FileError)
        ensures
            r == *self,
    {
        match self {
            FileError::Io(m) => FileError::Io(m.clone()),
            FileError::NotFound(m) => FileError::NotFound(m.clone()),
            FileError::PermissionDenied(m) => FileError::PermissionDenied(m.clone()),
            FileError::InvalidInput(m) => FileError::InvalidInput(m.clone()),
        }
    }
}

/// Metadata of one path.
#[derive(Debug, Clone, PartialEq, Eq)]
pub struct FileInfo {
    pub name: String,
    pub path: String,
    pub size: u64,
    pub is_dir: bool,
    pub extension: Option<String>,
    pub modified: Option<u64>,
}

impl FileInfo {
    /// The metadata of the entry `name` at `path`; its extension is derived
    /// from the name.
    pub fn from_metadata(name: String, path: String, size: u64, is_dir: bool, modified: Option<u64>) -> (r: FileInfo)
        ensures
            r.name == name,
            r.path == path,
            r.size == size,
            r.is_dir == is_dir,
            r.modified == modified,
            opt_view(r.extension) == spec_extension(name@),
    {
        let extension = extension_of(name.as_str());
        FileInfo { name, path, size, is_dir, extension, modified }
    }
}

/// What the filesystem reports when a path is listed.
pub enum Listing {
    /// Nothing exists at the path.
    Missing,
    /// The path exists and is not a directory.
    NotDirectory,
    /// Reading the directory failed.
    Failed(FileError),
    /// The entries of the directory, in the order they were read.
    Entries(Vec<DirEntry>),
}

/// The extension recorded in a node: the entry's extension, lower-cased.
pub open spec fn node_extension(name: Seq<char>) -> Option<Seq<char>> {
    match spec_extension(name) {
        Some(e) => Some(lower_of(e)),
        None => None,
    }
}

/// The node of an entry with the given children.
pub open spec fn entry_node(e: DirEntry, children: Option<Seq<NodeModel>>) -> NodeModel {
    NodeModel {
        name: e.name@,
        path: e.path@,
        is_dir: e.is_dir,
        extension: node_extension(e.name@),
        children,
    }
}

/// The node of a listed entry: a directory gets an empty placeholder list of
/// children, a file none.
pub open spec fn listed_node(e: DirEntry) -> NodeModel {
    entry_node(e, if e.is_dir { Some(Seq::empty()) } else { None })
}

/// The nodes of the entries that are not hidden, in the order read.
pub open spec fn listed_nodes(s: Seq<DirEntry>) -> Seq<NodeModel>
    decreases s.len(),
{
    if s.len() == 0 {
        Seq::empty()
    } else if spec_is_hidden(s.last().name@) {
        listed_nodes(s.drop_last())
    } else {
        listed_nodes(s.drop_last()).push(listed_node(s.last()))
    }
}

/// Every node of `listed_nodes(s)` is the node of a visible entry of `s`.
pub proof fn lemma_listed_nodes_visible(s: Seq<DirEntry>)
    ensures
        forall|k: int| 0 <= k < listed_nodes(s).len() ==> exists|i: int|
            0 <= i < s.len() && !spec_is_hidden(s[i].name@)
                && #[trigger] listed_nodes(s)[k] == listed_node(s[i]),
    decreases s.len(),
{
    if s.len() > 0 {
        let p = s.drop_last();
        lemma_listed_nodes_visible(p);
        assert forall|k: int| 0 <= k < listed_nodes(s).len() implies exists|i: int|
            0 <= i < s.len() && !spec_is_hidden(s[i].name@)
                && #[trigger] listed_nodes(s)[k] == listed_node(s[i]) by {
            if k < listed_nodes(p).len() {
                let i = choose|i: int| 0 <= i < p.len() && !spec_is_hidden(p[i].name@)
                    && listed_nodes(p)[k] == listed_node(p[i]);
                assert(s[i] == p[i]);
            } else {
                assert(s[s.len() - 1] == s.last());
            }
        }
    }
}

/// The extension of a name for a node: lower-cased.
fn node_extension_of(name: &str) -> (r: Option<String>)
    ensures
        opt_view(r) == node_extension(name@),
{
    match extension_of(name) {
        Some(e) => Some(lowercase(e.as_str())),
        None => None,
    }
}

/// The node of a listed entry.
fn make_listed_node(e: &DirEntry) -> (r: FileTreeNode)
    ensures
        r.model() == listed_node(*e),
{
    let children: Option<Vec<FileTreeNode>> = if e.is_dir { Some(Vec::new()) } else { None };
    let r = FileTreeNode {
        name: e.name.clone(),
        path: e.path.clone(),
        is_dir: e.is_dir,
        extension: node_extension_of(e.name.as_str()),
        children,
    };
    proof {
        if e.is_dir {
            assert(models(r.children->0@) =~= Seq::<NodeModel>::empty());
        }
    }
    r
}

/// Lists one directory: every entry that is not hidden, directories with an
/// empty placeholder list of children, sorted directories first and then by
/// lower-cased name.
pub fn read_directory(path: &str, listing: Listing) -> (r: Result<Vec<FileTreeNode>, FileError>)
    ensures
        listing is Missing ==> (r matches Err(FileError::NotFound(p)) && p@ == path@),
        listing is NotDirectory ==> r matches Err(FileError::InvalidInput(_)),
        listing matches Listing::Failed(e) ==> r == Err::<Vec<FileTreeNode>, FileError>(e),
        listing matches Listing::Entries(v) ==> (r matches Ok(nodes) && models(nodes@) == sort_nodes(listed_nodes(v@))),
{
    match listing {
        Listing::Missing => Err(FileError::NotFound(String::from_str(path))),
        Listing::NotDirectory => Err(FileError::InvalidInput(String::from_str("Path is not a directory"))),
        Listing::Failed(e) => Err(e),
        Listing::Entries(v) => Ok(sort_tree_nodes(list_entries(&v))),
    }
}

/// The nodes of the visible entries, in the order read.
fn list_entries(v: &Vec<DirEntry>) -> (r: Vec<FileTreeNode>)
    ensures
        models(r@) == listed_nodes(v@),
{
    let mut out: Vec<FileTreeNode> = Vec::new();
    let mut i: usize = 0;
    while i < v.len()
        invariant
            i <= v.len(),
            models(out@) == listed_nodes(v@.take(i as int)),
        decreases v.len() - i,
    {
        let ghost before = out@;
        proof {
            assert(v@.take(i + 1).drop_last() =~= v@.take(i as int));
            assert(v@.take(i + 1).last() == v@[i as int]);
        }
        if !is_hidden(v[i].name.as_str()) {
            let node = make_listed_node(&v[i]);
            out.push(node);
            proof {
                assert(out@.drop_last() =~= before);
            }
        }
        i = i + 1;
    }
    proof {
        assert(v@.take(v.len() as int) =~= v@);
    }
    out
}

/// The listing of one directory, as read from the filesystem.
pub struct DirListing {
    pub path: String,
    pub entries: Result<Vec<DirEntry>, FileError>,
}

/// The listings read so far during one projection. Where a path is listed
/// twice, the first listing counts.
pub struct Snapshot {
    pub listings: Vec<DirListing>,
}

/// The first listing of `path` in `s`, if there is one.
pub open spec fn lookup(s: Seq<DirListing>, path: Seq<char>) -> Option<Result<Vec<DirEntry>, FileError>>
    decreases s.len(),
{
    if s.len() == 0 {
        None
    } else if s[0].path@ == path {
        Some(s[0].entries)
    } else {
        lookup(s.drop_first(), path)
    }
}

/// An entry is kept by a projection when it is not hidden and is a directory
/// or a text-like file.
pub open spec fn kept(e: DirEntry) -> bool {
    !spec_is_hidden(e.name@) && spec_is_projectable(e.is_dir, spec_extension(e.name@))
}

/// The projection of entry `e` found at `depth`: a file is a leaf; a directory
/// at `max` or deeper is not expanded; any other directory holds the sorted
/// projections of its kept entries. `None` where the directory's listing is
/// absent or failed.
pub open spec fn project_node(s: Seq<DirListing>, e: DirEntry, depth: nat, max: nat) -> Option<NodeModel>
    decreases max - depth, 1nat, 0nat,
{
    if !e.is_dir {
        Some(entry_node(e, None))
    } else if depth >= max {
        Some(entry_node(e, Some(Seq::empty())))
    } else {
        match lookup(s, e.path@) {
            Some(Ok(v)) => Some(entry_node(e, Some(sort_nodes(project_children(s, v@, depth, max))))),
            _ => None,
        }
    }
}

/// The projections of the kept entries of `v`, children of a directory at
/// `depth`, in the order read. An entry whose projection fails is left out.
pub open spec fn project_children(s: Seq<DirListing>, v: Seq<DirEntry>, depth: nat, max: nat) -> Seq<NodeModel>
    decreases max - depth, 0nat, v.len(),
{
    if v.len() == 0 || depth >= max {
        Seq::empty()
    } else {
        let prev = project_children(s, v.drop_last(), depth, max);
        if kept(v.last()) {
            match project_node(s, v.last(), depth + 1, max) {
                Some(m) => prev.push(m),
                None => prev,
            }
        } else {
            prev
        }
    }
}

/// Position of the first listing of `path`.
fn find_listing(snap: &Snapshot, path: &String) -> (r: Option<usize>)
    ensures
        match r {
            Some(i) => i < snap.listings.len() && lookup(snap.listings@, path@) == Some(snap.listings@[i as int].entries),
            None => lookup(snap.listings@, path@) is None,
        },
{
    let n = snap.listings.len();
    let mut i: usize = 0;
    assert(snap.listings@.skip(0) =~= snap.listings@);
    while i < n
        invariant
            n == snap.listings@.len(),
            i <= n,
            lookup(snap.listings@, path@) == lookup(snap.listings@.skip(i as int), path@),
        decreases n - i,
    {
        assert(snap.listings@.skip(i as int).drop_first() =~= snap.listings@.skip(i + 1));
        if snap.listings[i].path == *path {
            return Some(i);
        }
        i = i + 1;
    }
    None
}

/// Whether an entry is kept by a projection.
fn is_kept(e: &DirEntry) -> (r: bool)
    ensures
        r == kept(*e),
{
    if e.is_dir {
        !is_hidden(e.name.as_str())
    } else if is_hidden(e.name.as_str()) {
        false
    } else {
        match extension_of(e.name.as_str()) {
            Some(x) => is_text_file_extension(Some(x.as_str())),
            None => false,
        }
    }
}

/// The node of an entry with the given children.
fn make_node(e: &DirEntry, children: Option<Vec<FileTreeNode>>) -> (r: FileTreeNode)
    ensures
        r.model() == entry_node(
            *e,
            match children {
                Some(c) => Some(models(c@)),
                None => None,
            },
        ),
{
    FileTreeNode {
        name: e.name.clone(),
        path: e.path.clone(),
        is_dir: e.is_dir,
        extension: node_extension_of(e.name.as_str()),
        children,
    }
}

/// Projects entry `e` found at `depth`, bounded by `max`.
fn project_entry(snap: &Snapshot, e: &DirEntry, depth: u32, max: u32) -> (r: Option<FileTreeNode>)
    ensures
        match r {
            Some(n) => project_node(snap.listings@, *e, depth as nat, max as nat) == Some(n.model()),
            None => project_node(snap.listings@, *e, depth as nat, max as nat) is None,
        },
    decreases max - depth, 1nat, 0nat,
{
    if !e.is_dir {
        return Some(make_node(e, None));
    }
    if depth >= max {
        let r = make_node(e, Some(Vec::new()));
        assert(models(Seq::<FileTreeNode>::empty()) =~= Seq::<NodeModel>::empty());
        return Some(r);
    }
    match find_listing(snap, &e.path) {
        None => None,
        Some(idx) => {
            match &snap.listings[idx].entries {
                Err(_) => None,
                Ok(v) => {
                    let children = project_entries(snap, v, depth, max);
                    Some(make_node(e, Some(sort_tree_nodes(children))))
                },
            }
        },
    }
}

/// Projects the kept entries of `v`, children of a directory at `depth`.
fn project_entries(snap: &Snapshot, v: &Vec<DirEntry>, depth: u32, max: u32) -> (r: Vec<FileTreeNode>)
    requires
        depth < max,
    ensures
        models(r@) == project_children(snap.listings@, v@, depth as nat, max as nat),
    decreases max - depth, 0nat, v.len(),
{
    let mut out: Vec<FileTreeNode> = Vec::new();
    let mut i: usize = 0;
    while i < v.len()
        invariant
            depth < max,
            i <= v.len(),
            models(out@) == project_children(snap.listings@, v@.take(i as int), depth as nat, max as nat),
        decreases v.len() - i,
    {
        let ghost before = out@;
        proof {
            assert(v@.take(i + 1).drop_last() =~= v@.take(i as int));
            assert(v@.take(i + 1).last() == v@[i as int]);
        }
        if is_kept(&v[i]) {
            match project_entry(snap, &v[i], depth + 1, max) {
                Some(node) => {
                    out.push(node);
                    proof {
                        assert(out@.drop_last() =~= before);
                    }
                },
                None => {},
            }
        }
        i = i + 1;
    }
    proof {
        assert(v@.take(v.len() as int) =~= v@);
    }
    out
}

/// The depth to which a projection expands when none is given.
pub const DEFAULT_MAX_DEPTH: u32 = 3;

/// The depth bound of a projection: the one given, else the default.
pub open spec fn depth_or_default(max_depth: Option<u32>) -> nat {
    match max_depth {
        Some(d) => d as nat,
        None => DEFAULT_MAX_DEPTH as nat,
    }
}

/// Projects the subtree at `root` from the listings in `snapshot`, expanding
/// directories down to `max_depth` (by default 3) levels below the root.
/// `root` is `None` when nothing exists at `path`. A failure to read the
/// root's own listing fails the call; a failure below it drops that entry.
pub fn read_directory_recursive(
    path: &str,
    root: Option<DirEntry>,
    snapshot: &Snapshot,
    max_depth: Option<u32>,
) -> (r: Result<FileTreeNode, FileError>)
    ensures
        root is None ==> (r matches Err(FileError::NotFound(p)) && p@ == path@),
        root matches Some(e) ==> match project_node(snapshot.listings@, e, 0, depth_or_default(max_depth)) {
            Some(m) => r matches Ok(n) && n.model() == m,
            None => match lookup(snapshot.listings@, e.path@) {
                Some(Err(err)) => r == Err::<FileTreeNode, FileError>(err),
                _ => r matches Err(FileError::Io(_)),
            },
        },
{
    let max: u32 = match max_depth {
        Some(d) => d,
        None => DEFAULT_MAX_DEPTH,
    };
    match root {
        None => Err(FileError::NotFound(String::from_str(path))),
        Some(e) => match project_entry(snapshot, &e, 0, max) {
            Some(n) => Ok(n),
            None => match find_listing(snapshot, &e.path) {
                Some(idx) => match &snapshot.listings[idx].entries {
                    Err(err) => Err(err.duplicate()),
                    Ok(_) => Err(FileError::Io(String::from_str("directory listing unavailable"))),
                },
                None => Err(FileError::Io(String::from_str("directory listing unavailable"))),
            },
        },
    }
}

/// Whether `snapshot` holds every listing that projecting `e` from `depth`
/// needs: each directory that would be expanded has a listing, and so on
/// below those whose listing was read.
pub open spec fn node_complete(s: Seq<DirListing>, e: DirEntry, depth: nat, max: nat) -> bool
    decreases max - depth, 1nat, 0nat,
{
    if !e.is_dir || depth >= max {
        true
    } else {
        match lookup(s, e.path@) {
            None => false,
            Some(Err(_)) => true,
            Some(Ok(v)) => children_complete(s, v@, depth, max),
        }
    }
}

/// Whether `snapshot` holds every listing that projecting the kept entries of
/// `v`, children of a directory at `depth`, needs.
pub open spec fn children_complete(s: Seq<DirListing>, v: Seq<DirEntry>, depth: nat, max: nat) -> bool
    decreases max - depth, 0nat, v.len(),
{
    if v.len() == 0 || depth >= max {
        true
    } else {
        children_complete(s, v.drop_last(), depth, max)
            && (kept(v.last()) ==> node_complete(s, v.last(), depth + 1, max))
    }
}

/// Paths of directories that projecting `e` needs and `snapshot` lacks.
fn entry_pending(snap: &Snapshot, e: &DirEntry, depth: u32, max: u32) -> (r: Vec<String>)
    ensures
        r@.len() == 0 <==> node_complete(snap.listings@, *e, depth as nat, max as nat),
        forall|k: int| 0 <= k < r@.len() ==> lookup(snap.listings@, #[trigger] r@[k]@) is None,
    decreases max - depth, 1nat, 0nat,
{
    if !e.is_dir || depth >= max {
        return Vec::new();
    }
    match find_listing(snap, &e.path) {
        None => {
            let mut r: Vec<String> = Vec::new();
            r.push(e.path.clone());
            r
        },
        Some(idx) => match &snap.listings[idx].entries {
            Err(_) => Vec::new(),
            Ok(v) => entries_pending(snap, v, depth, max),
        },
    }
}

/// Paths of directories that projecting the kept entries of `v` needs and
/// `snapshot` lacks.
fn entries_pending(snap: &Snapshot, v: &Vec<DirEntry>, depth: u32, max: u32) -> (r: Vec<String>)
    requires
        depth < max,
    ensures
        r@.len() == 0 <==> children_complete(snap.listings@, v@, depth as nat, max as nat),
        forall|k: int| 0 <= k < r@.len() ==> lookup(snap.listings@, #[trigger] r@[k]@) is None,
    decreases max - depth, 0nat, v.len(),
{
    let mut out: Vec<String> = Vec::new();
    let mut i: usize = 0;
    while i < v.len()
        invariant
            depth < max,
            i <= v.len(),
            out@.len() == 0 <==> children_complete(snap.listings@, v@.take(i as int), depth as nat, max as nat),
            forall|k: int| 0 <= k < out@.len() ==> lookup(snap.listings@, #[trigger] out@[k]@) is None,
        decreases v.len() - i,
    {
        proof {
            assert(v@.take(i + 1).drop_last() =~= v@.take(i as int));
            assert(v@.take(i + 1).last() == v@[i as int]);
        }
        if is_kept(&v[i]) {
            let mut more = entry_pending(snap, &v[i], depth + 1, max);
            let ghost a = out@;
            let ghost b = more@;
            out.append(&mut more);
            proof {
                assert forall|k: int| 0 <= k < out@.len() implies lookup(snap.listings@, #[trigger] out@[k]@) is None by {
                    if k < a.len() {
                        assert(out@[k] == a[k]);
                    } else {
                        assert(out@[k] == b[k - a.len()]);
                    }
                }
            }
        }
        i = i + 1;
    }
    proof {
        assert(v@.take(v.len() as int) =~= v@);
    }
    out
}

/// Paths of the directories that projecting `root` down to `max_depth` (by
/// default 3) needs and `snapshot` does not list yet. Empty exactly when the
/// snapshot is complete for that projection; no returned path is listed.
pub fn pending_reads(root: &DirEntry, snapshot: &Snapshot, max_depth: Option<u32>) -> (r: Vec<String>)
    ensures
        r@.len() == 0 <==> node_complete(snapshot.listings@, *root, 0, depth_or_default(max_depth)),
        forall|k: int| 0 <= k < r@.len() ==> lookup(snapshot.listings@, #[trigger] r@[k]@) is None,
{
    let max: u32 = match max_depth {
        Some(d) => d,
        None => DEFAULT_MAX_DEPTH,
    };
    entry_pending(snapshot, root, 0, max)
}

} // verus!
