use ourea::node::FileTreeNode;
use ourea::order::{chars_less, sort_tree_nodes, sorts_before};
use ourea::tree::{
    pending_reads, read_directory, read_directory_recursive, DirEntry, DirListing, FileError, Listing,
    Snapshot,
};

fn entry(dir: &str, name: &str, is_dir: bool) -> DirEntry {
    DirEntry { name: name.to_string(), path: format!("{}/{}", dir, name), is_dir }
}

fn names(nodes: &[FileTreeNode]) -> Vec<String> {
    nodes.iter().map(|n| n.name.clone()).collect()
}

fn children(n: &FileTreeNode) -> &Vec<FileTreeNode> {
    n.children.as_ref().expect("a directory node has children")
}

fn scenario_root() -> (DirEntry, Snapshot) {
    let root = DirEntry { name: "root".to_string(), path: "/root".to_string(), is_dir: true };
    let snap = Snapshot {
        listings: vec![
            DirListing {
                path: "/root".to_string(),
                entries: Ok(vec![
                    entry("/root", ".git", true),
                    entry("/root", "notes.md", false),
                    entry("/root", "image.png", false),
                    entry("/root", "src", true),
                ]),
            },
            DirListing { path: "/root/src".to_string(), entries: Ok(vec![entry("/root/src", "main.rs", false)]) },
            DirListing { path: "/root/.git".to_string(), entries: Ok(vec![entry("/root/.git", "HEAD", false)]) },
        ],
    };
    (root, snap)
}

#[test]
fn listing_a_missing_path_is_not_found() {
    let r = read_directory("/missing", Listing::Missing);
    assert_eq!(r.err(), Some(FileError::NotFound("/missing".to_string())));
}

#[test]
fn listing_a_file_is_invalid_input() {
    let r = read_directory("/etc/hosts", Listing::NotDirectory);
    assert!(matches!(r, Err(FileError::InvalidInput(_))));
}

#[test]
fn listing_read_failure_is_passed_on() {
    let r = read_directory("/locked", Listing::Failed(FileError::PermissionDenied("/locked".to_string())));
    assert_eq!(r.err(), Some(FileError::PermissionDenied("/locked".to_string())));
}

#[test]
fn listing_skips_hidden_and_sorts_directories_first() {
    let entries = vec![
        entry("/d", "b.txt", false),
        entry("/d", ".hidden", false),
        entry("/d", "src", true),
        entry("/d", "image.png", false),
        entry("/d", "A.md", false),
        entry("/d", "Docs", true),
        entry("/d", ".config", true),
    ];
    let nodes = read_directory("/d", Listing::Entries(entries)).unwrap();
    assert_eq!(names(&nodes), vec!["Docs", "src", "A.md", "b.txt", "image.png"]);
    assert!(nodes[0].is_dir && nodes[1].is_dir);
    assert_eq!(nodes[0].children.as_ref().map(|c| c.len()), Some(0));
    assert!(nodes[2].children.is_none());
    assert_eq!(nodes[4].extension, Some("png".to_string()));
    assert_eq!(nodes[1].path, "/d/src");
}

#[test]
fn listing_lowercases_extensions() {
    let nodes = read_directory("/d", Listing::Entries(vec![entry("/d", "Photo.JPG", false)])).unwrap();
    assert_eq!(nodes[0].extension, Some("jpg".to_string()));
    assert_eq!(nodes[0].name, "Photo.JPG");
}

#[test]
fn listing_of_empty_directory_is_empty() {
    let nodes = read_directory("/d", Listing::Entries(vec![])).unwrap();
    assert!(nodes.is_empty());
}

#[test]
fn sort_is_case_insensitive_and_stable() {
    let make = |name: &str, is_dir: bool| FileTreeNode {
        name: name.to_string(),
        path: format!("/x/{}", name),
        is_dir,
        extension: None,
        children: if is_dir { Some(vec![]) } else { None },
    };
    let sorted = sort_tree_nodes(vec![make("b", false), make("B", false), make("a", false), make("Z", true), make("c", true)]);
    assert_eq!(names(&sorted), vec!["c", "Z", "a", "b", "B"]);
}

#[test]
fn projection_scenario_depth_two() {
    let (root, snap) = scenario_root();
    let tree = read_directory_recursive("/root", Some(root), &snap, Some(2)).unwrap();
    assert_eq!(tree.name, "root");
    let top = children(&tree);
    assert_eq!(names(top), vec!["src", "notes.md"]);
    assert_eq!(names(children(&top[0])), vec!["main.rs"]);
    assert!(top[1].children.is_none());
    assert_eq!(top[1].extension, Some("md".to_string()));
    assert!(children(&top[0])[0].children.is_none());
}

#[test]
fn projection_depth_zero_is_root_only() {
    let (root, snap) = scenario_root();
    let tree = read_directory_recursive("/root", Some(root), &snap, Some(0)).unwrap();
    assert_eq!(tree.path, "/root");
    assert_eq!(children(&tree).len(), 0);
}

#[test]
fn projection_truncates_at_depth_bound() {
    let (root, snap) = scenario_root();
    let tree = read_directory_recursive("/root", Some(root), &snap, Some(1)).unwrap();
    let top = children(&tree);
    assert_eq!(names(top), vec!["src", "notes.md"]);
    assert_eq!(children(&top[0]).len(), 0);
}

#[test]
fn projection_default_depth_is_three() {
    let root = DirEntry { name: "a".to_string(), path: "/a".to_string(), is_dir: true };
    let snap = Snapshot {
        listings: vec![
            DirListing { path: "/a".to_string(), entries: Ok(vec![entry("/a", "b", true)]) },
            DirListing { path: "/a/b".to_string(), entries: Ok(vec![entry("/a/b", "c", true)]) },
            DirListing { path: "/a/b/c".to_string(), entries: Ok(vec![entry("/a/b/c", "d", true)]) },
            DirListing { path: "/a/b/c/d".to_string(), entries: Ok(vec![entry("/a/b/c/d", "e.md", false)]) },
        ],
    };
    let tree = read_directory_recursive("/a", Some(root), &snap, None).unwrap();
    let b = &children(&tree)[0];
    let c = &children(b)[0];
    let d = &children(c)[0];
    assert_eq!(d.name, "d");
    assert_eq!(children(d).len(), 0);
}

#[test]
fn projection_of_missing_root_is_not_found() {
    let snap = Snapshot { listings: vec![] };
    let r = read_directory_recursive("/missing", None, &snap, None);
    assert_eq!(r.err(), Some(FileError::NotFound("/missing".to_string())));
}

#[test]
fn projection_of_a_file_is_a_leaf() {
    let root = DirEntry { name: "x.bin".to_string(), path: "/x.bin".to_string(), is_dir: false };
    let snap = Snapshot { listings: vec![] };
    let tree = read_directory_recursive("/x.bin", Some(root), &snap, Some(3)).unwrap();
    assert!(tree.children.is_none());
    assert!(!tree.is_dir);
    assert_eq!(tree.extension, Some("bin".to_string()));
}

#[test]
fn projection_root_read_failure_is_surfaced() {
    let root = DirEntry { name: "locked".to_string(), path: "/locked".to_string(), is_dir: true };
    let snap = Snapshot {
        listings: vec![DirListing {
            path: "/locked".to_string(),
            entries: Err(FileError::PermissionDenied("/locked".to_string())),
        }],
    };
    let r = read_directory_recursive("/locked", Some(root), &snap, None);
    assert_eq!(r.err(), Some(FileError::PermissionDenied("/locked".to_string())));
}

#[test]
fn projection_root_without_listing_is_io_error() {
    let root = DirEntry { name: "d".to_string(), path: "/d".to_string(), is_dir: true };
    let snap = Snapshot { listings: vec![] };
    let r = read_directory_recursive("/d", Some(root), &snap, None);
    assert!(matches!(r, Err(FileError::Io(_))));
}

#[test]
fn projection_drops_unreadable_subdirectory() {
    let root = DirEntry { name: "d".to_string(), path: "/d".to_string(), is_dir: true };
    let snap = Snapshot {
        listings: vec![
            DirListing {
                path: "/d".to_string(),
                entries: Ok(vec![entry("/d", "locked", true), entry("/d", "ok", true), entry("/d", "a.txt", false)]),
            },
            DirListing { path: "/d/locked".to_string(), entries: Err(FileError::Io("denied".to_string())) },
            DirListing { path: "/d/ok".to_string(), entries: Ok(vec![]) },
        ],
    };
    let tree = read_directory_recursive("/d", Some(root), &snap, None).unwrap();
    assert_eq!(names(children(&tree)), vec!["ok", "a.txt"]);
}

#[test]
fn pending_reads_walk_the_needed_directories() {
    let (root, full) = scenario_root();
    let mut snap = Snapshot { listings: vec![] };
    assert_eq!(pending_reads(&root, &snap, Some(2)), vec!["/root".to_string()]);
    let mut it = full.listings.into_iter();
    snap.listings.push(it.next().unwrap());
    assert_eq!(pending_reads(&root, &snap, Some(2)), vec!["/root/src".to_string()]);
    assert_eq!(pending_reads(&root, &snap, Some(1)), Vec::<String>::new());
    snap.listings.push(it.next().unwrap());
    assert_eq!(pending_reads(&root, &snap, Some(2)), Vec::<String>::new());
}

#[test]
fn pending_reads_skip_files_and_failed_listings() {
    let file = DirEntry { name: "f.md".to_string(), path: "/f.md".to_string(), is_dir: false };
    let empty = Snapshot { listings: vec![] };
    assert!(pending_reads(&file, &empty, None).is_empty());
    let dir = DirEntry { name: "d".to_string(), path: "/d".to_string(), is_dir: true };
    let failed = Snapshot {
        listings: vec![DirListing { path: "/d".to_string(), entries: Err(FileError::Io("x".to_string())) }],
    };
    assert!(pending_reads(&dir, &failed, None).is_empty());
}

#[test]
fn comparison_of_lowercased_keys() {
    assert!(chars_less("a", "b"));
    assert!(chars_less("ab", "abc"));
    assert!(!chars_less("abc", "ab"));
    assert!(!chars_less("same", "same"));
    assert!(chars_less("", "a"));
    assert!(chars_less("B", "a"));
    assert!(sorts_before(true, &"z".to_string(), false, &"a".to_string()));
    assert!(!sorts_before(false, &"a".to_string(), true, &"z".to_string()));
    assert!(sorts_before(false, &"a".to_string(), false, &"b".to_string()));
    assert!(!sorts_before(false, &"b".to_string(), false, &"b".to_string()));
}
