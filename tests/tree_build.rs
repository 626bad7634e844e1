use heimdall::fs::FileType;
use heimdall::tree::{ChildSource, Connection, Tree};
use std::collections::HashMap;

/// A file of a simulated file system.
struct FakeFile {
    kind: FileType,
    entries: Vec<(&'static str, u64)>,
    link: Option<&'static str>,
    lines: Vec<&'static str>,
}

fn file() -> FakeFile {
    FakeFile { kind: FileType::Regular, entries: Vec::new(), link: None, lines: Vec::new() }
}

fn dir(entries: Vec<(&'static str, u64)>) -> FakeFile {
    FakeFile { kind: FileType::Directory, entries, link: None, lines: Vec::new() }
}

fn link(target: &'static str) -> FakeFile {
    FakeFile { kind: FileType::Link, entries: Vec::new(), link: Some(target), lines: Vec::new() }
}

fn ignore_file(lines: Vec<&'static str>) -> FakeFile {
    FakeFile { kind: FileType::Regular, entries: Vec::new(), link: None, lines }
}

fn names(f: &FakeFile) -> Vec<Vec<u8>> {
    f.entries.iter().map(|(n, _)| n.as_bytes().to_vec()).collect()
}

/// Builds a tree over the simulated file system, as the program does over a real one. Gives
/// the tree and the descriptor that each inode was opened as.
fn build(fs: &HashMap<u64, FakeFile>, root: u64) -> (Tree, HashMap<u64, i32>) {
    let mut fd_inode: HashMap<i32, u64> = HashMap::new();
    let mut opened: HashMap<u64, i32> = HashMap::new();
    let mut next_fd = 3;
    let root_file = &fs[&root];
    let mut tree = Tree::start("/sim".to_string(), next_fd, root_file.kind, root, names(root_file));
    fd_inode.insert(next_fd, root);
    opened.insert(root, next_fd);
    next_fd += 1;
    while let Some((item, parent_fd)) = tree.next_child() {
        let parent = &fs[&fd_inode[&parent_fd]];
        let inode = parent
            .entries
            .iter()
            .find(|(n, _)| n.as_bytes() == &item.path[..])
            .map(|(_, i)| *i)
            .unwrap();
        let child = &fs[&inode];
        let plan = tree.plan_child(item.key, &item.path, child.kind, inode);
        if !plan.visit {
            continue;
        }
        let target = if plan.read_link { child.link.map(|t| t.as_bytes().to_vec()) } else { None };
        let source = match plan.existing {
            Some(k) => ChildSource::Existing(k),
            None => {
                let fd = next_fd;
                next_fd += 1;
                fd_inode.insert(fd, inode);
                opened.insert(inode, fd);
                assert!(tree.is_fresh(fd, inode));
                let ignore_lines = if plan.read_ignore_lines {
                    child.lines.iter().map(|l| l.to_string()).collect()
                } else {
                    Vec::new()
                };
                let children = if plan.scan { names(child) } else { Vec::new() };
                ChildSource::New { fd, inode, children, ignore_lines }
            }
        };
        tree.add_child_file(item.key, item.path, child.kind, source, target);
    }
    tree.resolve_symlinks();
    (tree, opened)
}

fn child_names(tree: &Tree, key: usize) -> Vec<(String, usize)> {
    tree.structure()
        .outgoing(key)
        .iter()
        .filter_map(|e| match e.weight {
            Connection::Child(name) => Some((String::from_utf8(name.clone()).unwrap(), e.connects_to)),
            Connection::SymLink => None,
        })
        .collect()
}

fn symlink_targets(tree: &Tree, key: usize) -> Vec<usize> {
    tree.structure()
        .outgoing(key)
        .iter()
        .filter(|e| matches!(e.weight, Connection::SymLink))
        .map(|e| e.connects_to)
        .collect()
}

#[test]
fn ignored_hard_link_is_skipped_and_its_twin_kept() {
    let mut fs = HashMap::new();
    fs.insert(1, dir(vec![("a", 2), ("b", 2), (".gitignore", 3)]));
    fs.insert(2, file());
    fs.insert(3, ignore_file(vec!["a"]));
    let (tree, opened) = build(&fs, 1);
    let root = tree.root();
    let children = child_names(&tree, root);
    assert!(children.iter().all(|(n, _)| n != "a"));
    assert!(children.iter().any(|(n, _)| n == "b"));
    assert!(children.iter().any(|(n, _)| n == ".gitignore"));
    let b_key = tree.existing_key(2).unwrap();
    assert_eq!(Some(b_key), tree.storage().fd_to_key(opened[&2]));
    assert_eq!(Some(root), tree.storage().fd_to_key(opened[&1]));
    assert_eq!(3, opened.len());
}

#[test]
fn symlink_to_sibling_resolves() {
    let mut fs = HashMap::new();
    fs.insert(1, dir(vec![("a", 2), ("l", 3)]));
    fs.insert(2, file());
    fs.insert(3, link("a"));
    let (tree, _) = build(&fs, 1);
    let a = tree.existing_key(2).unwrap();
    let l = tree.existing_key(3).unwrap();
    assert_eq!(vec![a], symlink_targets(&tree, l));
}

#[test]
fn symlink_escaping_the_tree_stays_unresolved() {
    let mut fs = HashMap::new();
    fs.insert(1, dir(vec![("l", 2)]));
    fs.insert(2, link("../outside"));
    let (tree, _) = build(&fs, 1);
    let l = tree.existing_key(2).unwrap();
    assert!(symlink_targets(&tree, l).is_empty());
}

#[test]
fn symlink_through_directories_resolves() {
    let mut fs = HashMap::new();
    fs.insert(1, dir(vec![("d", 2), ("e", 4)]));
    fs.insert(2, dir(vec![("f", 3)]));
    fs.insert(3, file());
    fs.insert(4, dir(vec![("l", 5)]));
    fs.insert(5, link("../d/./f"));
    let (tree, _) = build(&fs, 1);
    let f = tree.existing_key(3).unwrap();
    let l = tree.existing_key(5).unwrap();
    assert_eq!(vec![f], symlink_targets(&tree, l));
    assert_eq!(Some(f), tree.follow_path(tree.root(), b"d/f"));
    assert_eq!(None, tree.follow_path(tree.root(), b"/d/f"));
    assert_eq!(None, tree.follow_path(tree.root(), b"d/missing"));
}

#[test]
fn hidden_entries_get_no_edge() {
    let mut fs = HashMap::new();
    fs.insert(1, dir(vec![(".git", 2), ("src", 3)]));
    fs.insert(2, dir(vec![]));
    fs.insert(3, dir(vec![]));
    let (tree, _) = build(&fs, 1);
    let children = child_names(&tree, tree.root());
    assert_eq!(vec!["src".to_string()], children.into_iter().map(|(n, _)| n).collect::<Vec<_>>());
    assert_eq!(None, tree.existing_key(2));
}

#[test]
fn ignore_rules_reach_subdirectories() {
    let mut fs = HashMap::new();
    fs.insert(1, dir(vec![("sub", 2), (".gitignore", 3)]));
    fs.insert(2, dir(vec![("x.tmp", 4), ("y.rs", 5)]));
    fs.insert(3, ignore_file(vec!["*.tmp"]));
    fs.insert(4, file());
    fs.insert(5, file());
    let (tree, _) = build(&fs, 1);
    assert_eq!(None, tree.existing_key(4));
    assert!(tree.existing_key(5).is_some());
}

#[test]
fn hard_linked_files_share_a_node() {
    let mut fs = HashMap::new();
    fs.insert(1, dir(vec![("a", 2), ("b", 2)]));
    fs.insert(2, file());
    let (tree, opened) = build(&fs, 1);
    let children = child_names(&tree, tree.root());
    assert_eq!(2, children.len());
    assert_eq!(children[0].1, children[1].1);
    assert_eq!(2, opened.len());
}

#[test]
fn plan_for_entries() {
    let mut tree = Tree::start("/sim".to_string(), 3, FileType::Directory, 1, vec![b"d".to_vec()]);
    let hidden = tree.plan_child(tree.root(), b".cache", FileType::Directory, 9);
    assert!(!hidden.visit && !hidden.scan && hidden.existing.is_none());
    let fresh_dir = tree.plan_child(tree.root(), b"d", FileType::Directory, 2);
    assert!(fresh_dir.visit && fresh_dir.scan && !fresh_dir.read_link && !fresh_dir.read_ignore_lines);
    let same_as_root = tree.plan_child(tree.root(), b"d", FileType::Directory, 1);
    assert_eq!(Some(tree.root()), same_as_root.existing);
    assert!(!same_as_root.scan);
    let ignore = tree.plan_child(tree.root(), b".gitignore", FileType::Regular, 5);
    assert!(ignore.visit && ignore.read_ignore_lines);
    let a_link = tree.plan_child(tree.root(), b"l", FileType::Link, 6);
    assert!(a_link.read_link && !a_link.scan);
    let _ = tree.next_child();
}

#[test]
fn listing_queues_ignore_files_last() {
    let tree = Tree::start(
        "/sim".to_string(),
        3,
        FileType::Directory,
        1,
        vec![b".gitignore".to_vec(), b"a".to_vec(), b"b".to_vec()],
    );
    let mut tree = tree;
    let first = tree.next_child().unwrap().0;
    assert_eq!(b".gitignore".to_vec(), first.path);
    assert_eq!(b"b".to_vec(), tree.next_child().unwrap().0.path);
    assert_eq!(b"a".to_vec(), tree.next_child().unwrap().0.path);
    assert!(tree.next_child().is_none());
}
