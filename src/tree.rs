pub mod ignore;
pub mod store;

use crate::error::Error;
use crate::fs::FileType;
use crate::graph::Graph;
use crate::tree::ignore::{bad_lines, gitignore_name, is_hidden, opens, patterns_added, patterns_of, segments_kept, Ignore};
use crate::tree::store::{TreeEntry, TreeStore};
use vstd::prelude::*;

verus! {

/// How one node of the tree is connected to another.
#[derive(Debug)]
pub enum Connection {
    /// This node is a directory, and the other node is the entry of the given name in it.
    Child(Vec<u8>),
    /// This node is a symbolic link, and the other node is what it links to.
    SymLink,
}

/// An entry of a directory that is still to be visited: the directory's key, and the entry's
/// name.
#[derive(Debug)]
pub struct UnresolvedFile {
    pub key: usize,
    pub path: Vec<u8>,
}

/// A symbolic link whose target is still to be found: the link's key, and its target path.
#[derive(Debug)]
pub struct UnresolvedSymlink {
    pub key: usize,
    pub path: Vec<u8>,
}

/// Where the node for a visited entry comes from: a stored node with the same inode, or a
/// newly opened descriptor, with the entry's inode, the names in it if it is a directory, and
/// the lines of it if it is an ignore file.
pub enum ChildSource {
    Existing(usize),
    New { fd: i32, inode: u64, children: Vec<Vec<u8>>, ignore_lines: Vec<String> },
}

/// What to do with an entry that has been stat'ed: whether to visit it at all, whether to read
/// its link target, the stored node to reuse for it, and else whether to read its lines as
/// ignore rules and whether to list its entries.
#[derive(Debug, Clone, Copy, PartialEq, Eq)]
pub struct ChildPlan {
    pub visit: bool,
    pub read_link: bool,
    pub existing: Option<usize>,
    pub read_ignore_lines: bool,
    pub scan: bool,
}

/// The name of a node in a path: `.`.
pub open spec fn dot() -> Seq<u8> {
    seq![46u8]
}

/// The name of a node's parent in a path: `..`.
pub open spec fn dot_dot() -> Seq<u8> {
    seq![46u8, 46u8]
}

/// The first node that an entering edge comes from, other than `k` itself.
pub open spec fn parent_in(ins: Seq<(usize, Connection)>, k: usize) -> Option<usize>
    decreases ins.len(),
{
    if ins.len() == 0 {
        None
    } else if ins[0].0 != k {
        Some(ins[0].0)
    } else {
        parent_in(ins.skip(1), k)
    }
}

/// Whether an edge may be followed for the path component `part`.
pub open spec fn leads_to(c: Connection, part: Seq<u8>) -> bool {
    match c {
        Connection::Child(name) => name@ == part,
        Connection::SymLink => true,
    }
}

/// The node that the first leaving edge that may be followed for `part` enters.
pub open spec fn child_in(outs: Seq<(usize, Connection)>, part: Seq<u8>) -> Option<usize>
    decreases outs.len(),
{
    if outs.len() == 0 {
        None
    } else if leads_to(outs[0].1, part) {
        Some(outs[0].0)
    } else {
        child_in(outs.skip(1), part)
    }
}

/// Where the path component `part` leads from node `k`.
pub open spec fn step(g: Graph<Connection>, k: usize, part: Seq<u8>) -> Option<usize> {
    if part.len() == 0 || part == dot() {
        Some(k)
    } else if part == dot_dot() {
        parent_in(g.ins(k), k)
    } else {
        child_in(g.outs(k), part)
    }
}

/// The parts of a path between its `/`s, empty ones included.
pub open spec fn split_parts(p: Seq<u8>) -> Seq<Seq<u8>>
    decreases p.len(),
{
    if p.len() == 0 {
        seq![seq![]]
    } else {
        let r = split_parts(p.drop_last());
        if p.last() == 47u8 {
            r.push(seq![])
        } else if r.len() == 0 {
            r
        } else {
            r.drop_last().push(r.last().push(p.last()))
        }
    }
}

/// Where the parts lead from node `k`, one after the other.
pub open spec fn follow_parts(g: Graph<Connection>, k: usize, parts: Seq<Seq<u8>>) -> Option<usize>
    decreases parts.len(),
{
    if parts.len() == 0 {
        Some(k)
    } else {
        match follow_parts(g, k, parts.drop_last()) {
            Some(m) => step(g, m, parts.last()),
            None => None,
        }
    }
}

/// Where the relative path `p` leads from node `k`: empty parts and `.` stay, `..` goes to the
/// node's parent, a name follows the edge of that name or a link. An absolute path leads
/// nowhere.
pub open spec fn follow_spec(g: Graph<Connection>, k: usize, p: Seq<u8>) -> Option<usize> {
    if p.len() > 0 && p[0] == 47u8 {
        None
    } else {
        follow_parts(g, k, split_parts(p))
    }
}

/// The node that the link `key`, with target path `path`, leads to: its target followed from
/// the link's parent.
pub open spec fn link_target(g: Graph<Connection>, key: usize, path: Seq<u8>) -> Option<usize> {
    match parent_in(g.ins(key), key) {
        Some(p) => follow_spec(g, p, path),
        None => None,
    }
}

/// `g1` is `g0` after resolving the link `key` with target path `path`: a `SymLink` edge to
/// where it leads, or nothing if it leads nowhere.
pub open spec fn resolve_step(g0: Graph<Connection>, key: usize, path: Seq<u8>, g1: Graph<Connection>) -> bool {
    match link_target(g0, key, path) {
        None => forall|n: usize| #[trigger] g1.outs(n) == g0.outs(n) && g1.ins(n) == g0.ins(n),
        Some(t) => {
            &&& g1.outs(key) == g0.outs(key).push((t, Connection::SymLink))
            &&& g1.ins(t) == g0.ins(t).push((key, Connection::SymLink))
            &&& forall|n: usize| n != key ==> #[trigger] g1.outs(n) == g0.outs(n)
            &&& forall|n: usize| n != t ==> #[trigger] g1.ins(n) == g0.ins(n)
        },
    }
}

/// Of the first `n` links, those that lead nowhere, in order; link `i` is resolved in `gs[i]`.
pub open spec fn unresolved_of(gs: Seq<Graph<Connection>>, links: Seq<(usize, Seq<u8>)>, n: int) -> Seq<(usize, Seq<u8>)>
    decreases n,
{
    if n <= 0 {
        seq![]
    } else {
        let rest = unresolved_of(gs, links, n - 1);
        if link_target(gs[n - 1], links[n - 1].0, links[n - 1].1) is None {
            rest.push(links[n - 1])
        } else {
            rest
        }
    }
}

proof fn lemma_unresolved_prefix(gs: Seq<Graph<Connection>>, gs2: Seq<Graph<Connection>>, links: Seq<(usize, Seq<u8>)>, n: int)
    requires
        forall|i: int| 0 <= i < n ==> gs[i] == gs2[i],
    ensures
        unresolved_of(gs, links, n) == unresolved_of(gs2, links, n),
    decreases n,
{
    if n > 0 {
        lemma_unresolved_prefix(gs, gs2, links, n - 1);
    }
}

/// The names of a listing, with the ignore files taken out.
pub open spec fn plain_names(names: Seq<Seq<u8>>) -> Seq<Seq<u8>>
    decreases names.len(),
{
    if names.len() == 0 {
        seq![]
    } else if names.last() == gitignore_name() {
        plain_names(names.drop_last())
    } else {
        plain_names(names.drop_last()).push(names.last())
    }
}

/// The ignore files of a listing.
pub open spec fn ignore_names(names: Seq<Seq<u8>>) -> Seq<Seq<u8>>
    decreases names.len(),
{
    if names.len() == 0 {
        seq![]
    } else if names.last() == gitignore_name() {
        ignore_names(names.drop_last()).push(names.last())
    } else {
        ignore_names(names.drop_last())
    }
}

/// A listing in the order its entries are queued: the ignore files last, so that they are
/// visited first.
pub open spec fn queue_order(names: Seq<Seq<u8>>) -> Seq<Seq<u8>> {
    plain_names(names) + ignore_names(names)
}

/// An in-memory model of a directory tree: the entries by inode, the edges between them, and
/// the ignore rules that apply in each directory, with the work that is left to build it.
pub struct Tree {
    root_dir: String,
    root_entry: usize,
    storage: TreeStore,
    structure: Graph<Connection>,
    ignores: Ignore,
    unresolved_files: Vec<UnresolvedFile>,
    unresolved_symlinks: Vec<UnresolvedSymlink>,
}

impl Tree {
    /// The key of the root.
    pub closed spec fn root_key(&self) -> usize {
        self.root_entry
    }

    /// The path of the root.
    pub closed spec fn root_path(&self) -> Seq<char> {
        self.root_dir@
    }

    pub closed spec fn entries(&self) -> Map<usize, TreeEntry> {
        self.storage.entries()
    }

    pub closed spec fn graph(&self) -> Graph<Connection> {
        self.structure
    }

    pub closed spec fn rules(&self) -> Ignore {
        self.ignores
    }

    /// The entries still to be visited, as (directory key, name) pairs; the last is next.
    pub closed spec fn pending(&self) -> Seq<(usize, Seq<u8>)> {
        self.unresolved_files@.map_values(|u: UnresolvedFile| (u.key, u.path@))
    }

    /// The links whose targets are still to be found, as (link key, target) pairs.
    pub closed spec fn links(&self) -> Seq<(usize, Seq<u8>)> {
        self.unresolved_symlinks@.map_values(|u: UnresolvedSymlink| (u.key, u.path@))
    }

    /// No edge is labelled with a hidden name.
    pub open spec fn no_hidden_children(g: Graph<Connection>) -> bool {
        forall|n: usize, i: int| #![trigger g.outs(n)[i]]
            0 <= i < g.outs(n).len() ==> match g.outs(n)[i].1 {
                Connection::Child(name) => !is_hidden(name@),
                Connection::SymLink => true,
            }
    }

    pub closed spec fn wf(&self) -> bool {
        &&& self.storage.wf()
        &&& self.structure.wf()
        &&& self.ignores.wf()
        &&& forall|i: int| 0 <= i < self.unresolved_files@.len() ==> self.storage.entries().contains_key(
            (#[trigger] self.unresolved_files@[i]).key,
        )
        &&& forall|i: int| 0 <= i < self.unresolved_symlinks@.len() ==> (#[trigger] self.unresolved_symlinks@[i]).key < usize::MAX
        &&& Tree::no_hidden_children(self.structure)
        &&& endpoints_bounded(self.structure)
    }

    /// No two entries of a well-formed tree share a descriptor or an inode.
    pub proof fn lemma_entries_unique(&self, a: usize, b: usize)
        requires
            self.wf(),
            self.entries().contains_key(a),
            self.entries().contains_key(b),
            a != b,
        ensures
            self.entries()[a].fd_spec() != self.entries()[b].fd_spec(),
            self.entries()[a].inode_spec() != self.entries()[b].inode_spec(),
    {
        self.storage.lemma_unique(a, b);
    }

    /// No edge of a well-formed tree is labelled with a hidden name: a name that starts with
    /// `.` and is not `.gitignore`.
    pub proof fn lemma_no_hidden_child(&self, n: usize, i: int)
        requires
            self.wf(),
            0 <= i < self.graph().outs(n).len(),
        ensures
            match self.graph().outs(n)[i].1 {
                Connection::Child(name) => !is_hidden(name@),
                Connection::SymLink => true,
            },
    {
    }

    /// The key of the root.
    pub fn root(&self) -> (r: usize)
        ensures
            r == self.root_key(),
    {
        self.root_entry
    }

    /// The path of the root, as it was given.
    pub fn root_dir(&self) -> (r: &str)
        ensures
            r@ == self.root_path(),
    {
        self.root_dir.as_str()
    }

    /// The structure of the tree.
    pub fn structure(&self) -> (r: &Graph<Connection>)
        requires
            self.wf(),
        ensures
            *r == self.graph(),
            r.wf(),
    {
        &self.structure
    }

    /// The stored entries.
    pub fn storage(&self) -> (r: &TreeStore)
        requires
            self.wf(),
        ensures
            r.entries() == self.entries(),
            r.wf(),
    {
        &self.storage
    }

    /// Start a tree at its root: the root's path, its descriptor, kind and inode, and the names
    /// in it if it is a directory.
    pub fn start(root_dir: String, fd: i32, kind: FileType, inode: u64, children: Vec<Vec<u8>>) -> (r: Tree)
        ensures
            r.wf(),
            r.entries().len() == 1,
            r.entries().contains_key(r.root_key()),
            r.entries()[r.root_key()] == TreeEntry::new_spec(fd, inode),
            kind == FileType::Directory ==> r.pending() == queue_order(children@.map_values(|c: Vec<u8>| c@)).map_values(|n: Seq<u8>| (r.root_key(), n)),
            kind != FileType::Directory ==> r.pending().len() == 0,
            r.links().len() == 0,
            forall|n: usize| r.graph().outs(n).len() == 0 && r.graph().ins(n).len() == 0,
    {
        let mut tree = Tree {
            root_dir,
            root_entry: 0,
            storage: TreeStore::new(),
            structure: Graph::new(),
            ignores: Ignore::new(),
            unresolved_files: Vec::new(),
            unresolved_symlinks: Vec::new(),
        };
        proof {
            assert(tree.pending() =~= Seq::<(usize, Seq<u8>)>::empty());
            assert(tree.links() =~= Seq::<(usize, Seq<u8>)>::empty());
        }
        let key = tree.add_file(TreeEntry::new(fd, inode), kind, children);
        tree.root_entry = key;
        proof {
            assert(tree.entries() =~= Map::<usize, TreeEntry>::empty().insert(key, TreeEntry::new_spec(fd, inode)));
            assert(tree.entries().dom() =~= set![key]);
            if kind == FileType::Directory {
                assert(tree.pending() =~= queue_order(children@.map_values(|c: Vec<u8>| c@)).map_values(|n: Seq<u8>| (key, n)));
            }
        }
        tree
    }

    /// Stores a new entry and queues the names in it if it is a directory, ignore files last;
    /// gives its key.
    fn add_file(&mut self, entry: TreeEntry, kind: FileType, children: Vec<Vec<u8>>) -> (r: usize)
        requires
            old(self).wf(),
            forall|k: usize| #[trigger] old(self).entries().contains_key(k) ==> old(self).entries()[k].fd_spec() != entry.fd_spec()
                && old(self).entries()[k].inode_spec() != entry.inode_spec(),
        ensures
            final(self).wf(),
            !old(self).entries().contains_key(r),
            final(self).entries() == old(self).entries().insert(r, entry),
            final(self).graph() == old(self).graph(),
            final(self).rules() == old(self).rules(),
            final(self).links() == old(self).links(),
            final(self).root_key() == old(self).root_key(),
            kind == FileType::Directory ==> final(self).pending() == old(self).pending() + queue_order(children@.map_values(|c: Vec<u8>| c@)).map_values(|n: Seq<u8>| (r, n)),
            kind != FileType::Directory ==> final(self).pending() == old(self).pending(),
    {
        proof {
            assert forall|k: usize| #[trigger] self.storage.entries().contains_key(k) implies ((self.storage.entries()[k].fd_spec()
                == entry.fd_spec()) == (self.storage.entries()[k].inode_spec() == entry.inode_spec())) by {
                assert(self.entries().contains_key(k));
            }
        }
        let key = self.storage.insert(entry);
        if kind == FileType::Directory {
            let ghost names = children@.map_values(|c: Vec<u8>| c@);
            let ghost base = self.pending();
            let mut ignore_files: Vec<Vec<u8>> = Vec::new();
            let mut i: usize = 0;
            let mut children = children;
            proof {
                assert(names.take(0) =~= Seq::<Seq<u8>>::empty());
            }
            while i < children.len()
                invariant
                    self.storage.wf(),
                    self.structure.wf(),
                    self.ignores.wf(),
                    Tree::no_hidden_children(self.structure),
                    self.storage.entries().contains_key(key),
                    forall|j: int| 0 <= j < self.unresolved_files@.len() ==> self.storage.entries().contains_key((#[trigger] self.unresolved_files@[j]).key),
                    forall|j: int| 0 <= j < self.unresolved_symlinks@.len() ==> (#[trigger] self.unresolved_symlinks@[j]).key < usize::MAX,
                    self.structure == old(self).structure,
                    self.ignores == old(self).ignores,
                    self.unresolved_symlinks == old(self).unresolved_symlinks,
                    self.root_entry == old(self).root_entry,
                    self.storage.entries() == old(self).storage.entries().insert(key, entry),
                    i <= children@.len(),
                    names == children@.map_values(|c: Vec<u8>| c@),
                    self.pending() == base + plain_names(names.take(i as int)).map_values(|n: Seq<u8>| (key, n)),
                    ignore_files@.map_values(|c: Vec<u8>| c@) == ignore_names(names.take(i as int)),
                decreases children@.len() - i,
            {
                proof {
                    assert(names.take(i + 1).drop_last() =~= names.take(i as int));
                    assert(names.take(i + 1).last() == names[i as int]);
                }
                let name = children[i].clone();
                proof {
                    assert(name@ == names[i as int]);
                }
                let is_ignore_file = name.len() == 10 && name[0] == 46u8 && name[1] == 103u8 && name[2] == 105u8 && name[3] == 116u8
                    && name[4] == 105u8 && name[5] == 103u8 && name[6] == 110u8 && name[7] == 111u8 && name[8] == 114u8 && name[9] == 101u8;
                proof {
                    if name@ == gitignore_name() {
                        assert(is_ignore_file);
                    }
                    if is_ignore_file {
                        assert(name@ =~= gitignore_name());
                    }
                }
                let ghost before = self.pending();
                let ghost before_ig = ignore_files@.map_values(|c: Vec<u8>| c@);
                if is_ignore_file {
                    ignore_files.push(name);
                    proof {
                        assert(ignore_files@.map_values(|c: Vec<u8>| c@) =~= before_ig.push(names[i as int]));
                    }
                } else {
                    self.unresolved_files.push(UnresolvedFile { key, path: name });
                    proof {
                        assert(self.pending() =~= before.push((key, names[i as int])));
                        assert(plain_names(names.take(i + 1)).map_values(|n: Seq<u8>| (key, n)) =~= plain_names(names.take(i as int)).map_values(|n: Seq<u8>| (key, n)).push((key, names[i as int])));
                    }
                }
                i = i + 1;
            }
            proof {
                assert(names.take(children@.len() as int) =~= names);
            }
            let ghost mid = self.pending();
            let mut j: usize = 0;
            while j < ignore_files.len()
                invariant
                    self.storage.wf(),
                    self.structure.wf(),
                    self.ignores.wf(),
                    Tree::no_hidden_children(self.structure),
                    self.storage.entries().contains_key(key),
                    forall|m: int| 0 <= m < self.unresolved_files@.len() ==> self.storage.entries().contains_key((#[trigger] self.unresolved_files@[m]).key),
                    forall|m: int| 0 <= m < self.unresolved_symlinks@.len() ==> (#[trigger] self.unresolved_symlinks@[m]).key < usize::MAX,
                    self.structure == old(self).structure,
                    self.ignores == old(self).ignores,
                    self.unresolved_symlinks == old(self).unresolved_symlinks,
                    self.root_entry == old(self).root_entry,
                    self.storage.entries() == old(self).storage.entries().insert(key, entry),
                    j <= ignore_files@.len(),
                    ignore_files@.map_values(|c: Vec<u8>| c@) == ignore_names(names),
                    self.pending() == mid + ignore_names(names).take(j as int).map_values(|n: Seq<u8>| (key, n)),
                decreases ignore_files@.len() - j,
            {
                let name = ignore_files[j].clone();
                let ghost before = self.pending();
                self.unresolved_files.push(UnresolvedFile { key, path: name });
                proof {
                    assert(name@ == ignore_names(names)[j as int]);
                    assert(self.pending() =~= before.push((key, name@)));
                    assert(ignore_names(names).take(j + 1).map_values(|n: Seq<u8>| (key, n)) =~= ignore_names(names).take(j as int).map_values(|n: Seq<u8>| (key, n)).push((key, name@)));
                }
                j = j + 1;
            }
            proof {
                assert(ignore_names(names).take(ignore_files@.len() as int) =~= ignore_names(names));
                assert(queue_order(names).map_values(|n: Seq<u8>| (key, n)) =~= plain_names(names).map_values(|n: Seq<u8>| (key, n)) + ignore_names(names).map_values(|n: Seq<u8>| (key, n)));
                assert(self.pending() =~= old(self).pending() + queue_order(names).map_values(|n: Seq<u8>| (key, n)));
            }
        }
        key
    }

    /// Take the next entry to visit, with the descriptor of its directory.
    pub fn next_child(&mut self) -> (r: Option<(UnresolvedFile, i32)>)
        requires
            old(self).wf(),
        ensures
            final(self).wf(),
            final(self).entries() == old(self).entries(),
            final(self).graph() == old(self).graph(),
            final(self).rules() == old(self).rules(),
            final(self).links() == old(self).links(),
            final(self).root_key() == old(self).root_key(),
            old(self).pending().len() == 0 ==> r is None && final(self).pending() == old(self).pending(),
            old(self).pending().len() > 0 ==> {
                &&& r is Some
                &&& (r->Some_0.0.key, r->Some_0.0.path@) == old(self).pending().last()
                &&& final(self).pending() == old(self).pending().drop_last()
                &&& old(self).entries().contains_key(r->Some_0.0.key)
                &&& r->Some_0.1 == old(self).entries()[r->Some_0.0.key].fd_spec()
            },
    {
        let ghost before = self.pending();
        match self.unresolved_files.pop() {
            None => None,
            Some(item) => {
                proof {
                    assert(self.pending() =~= before.drop_last());
                    assert(old(self).unresolved_files@[old(self).unresolved_files@.len() - 1] == item);
                }
                let fd = self.storage.key_to_entry(item.key).unwrap().fd();
                Some((item, fd))
            },
        }
    }

    /// Whether the entry `name` of directory `parent`, of the given kind, is visited.
    pub fn should_visit(&self, parent: usize, name: &[u8], kind: FileType) -> (r: bool)
        requires
            self.wf(),
        ensures
            r == opens(self.rules().globs(), self.rules().next(), self.rules().active(parent), name@),
    {
        self.ignores.should_open(parent, name, kind == FileType::Directory)
    }

    /// The key of the stored entry with this inode, if any.
    pub fn existing_key(&self, inode: u64) -> (r: Option<usize>)
        requires
            self.wf(),
        ensures
            match r {
                Some(k) => self.entries().contains_key(k) && self.entries()[k].inode_spec() == inode,
                None => forall|k: usize| #[trigger] self.entries().contains_key(k) ==> self.entries()[k].inode_spec() != inode,
            },
    {
        self.storage.inode_to_key(inode)
    }

    /// Whether a newly opened descriptor `fd` for inode `inode` shares neither with a stored
    /// entry, as `add_child_file` requires.
    pub fn is_fresh(&self, fd: i32, inode: u64) -> (r: bool)
        requires
            self.wf(),
        ensures
            r == forall|k: usize| #[trigger] self.entries().contains_key(k) ==> self.entries()[k].fd_spec() != fd
                && self.entries()[k].inode_spec() != inode,
    {
        let r = self.storage.is_fresh(fd, inode);
        proof {
            assert(self.entries() == self.storage.entries());
        }
        r
    }

    /// The plan for the entry `name` of directory `parent`, whose stat gave `kind` and `inode`.
    pub fn plan_child(&self, parent: usize, name: &[u8], kind: FileType, inode: u64) -> (r: ChildPlan)
        requires
            self.wf(),
        ensures
            r.visit == opens(self.rules().globs(), self.rules().next(), self.rules().active(parent), name@),
            r.read_link == (r.visit && kind == FileType::Link),
            !r.visit ==> r.existing is None,
            r.visit ==> match r.existing {
                Some(k) => self.entries().contains_key(k) && self.entries()[k].inode_spec() == inode,
                None => forall|k: usize| #[trigger] self.entries().contains_key(k) ==> self.entries()[k].inode_spec() != inode,
            },
            r.read_ignore_lines == (r.visit && r.existing is None && name@ == gitignore_name() && kind == FileType::Regular),
            r.scan == (r.visit && r.existing is None && kind == FileType::Directory),
    {
        if !self.should_visit(parent, name, kind) {
            return ChildPlan { visit: false, read_link: false, existing: None, read_ignore_lines: false, scan: false };
        }
        let existing = self.existing_key(inode);
        let fresh = existing.is_none();
        ChildPlan {
            visit: true,
            read_link: kind == FileType::Link,
            existing,
            read_ignore_lines: fresh && Tree::is_ignore_file(name, kind),
            scan: fresh && kind == FileType::Directory,
        }
    }

    /// Whether an entry is an ignore file whose lines are read: a regular file named
    /// `.gitignore`.
    pub fn is_ignore_file(name: &[u8], kind: FileType) -> (r: bool)
        ensures
            r == (name@ == gitignore_name() && kind == FileType::Regular),
    {
        let r = kind == FileType::Regular && name.len() == 10 && name[0] == 46u8 && name[1] == 103u8 && name[2] == 105u8
            && name[3] == 116u8 && name[4] == 105u8 && name[5] == 103u8 && name[6] == 110u8 && name[7] == 111u8
            && name[8] == 114u8 && name[9] == 101u8;
        proof {
            if r {
                assert(name@ =~= gitignore_name());
            }
        }
        r
    }

    /// Visit the entry `path` of directory `parent_key`, of the given kind. If the ignore rules
    /// of the directory let it be opened, its node is `source`'s (a new one is stored, with the
    /// lines of an ignore file applied to the directory first), the rules are carried into it,
    /// an edge `Child(path)` is added from the directory, and a link target is queued for
    /// resolution from the new node. Gives the node's key and the errors of ignore lines that
    /// did not compile; `None` if the entry is not opened.
    pub fn add_child_file(
        &mut self,
        parent_key: usize,
        path: Vec<u8>,
        kind: FileType,
        source: ChildSource,
        link_target: Option<Vec<u8>>,
    ) -> (r: Option<(usize, Vec<Error>)>)
        requires
            old(self).wf(),
            old(self).entries().contains_key(parent_key),
            source matches ChildSource::Existing(k) ==> old(self).entries().contains_key(k),
            source matches ChildSource::New { fd, inode, .. } ==> forall|k: usize| #[trigger] old(self).entries().contains_key(k)
                ==> old(self).entries()[k].fd_spec() != fd && old(self).entries()[k].inode_spec() != inode,
        ensures
            final(self).wf(),
            final(self).root_key() == old(self).root_key(),
            !opens(old(self).rules().globs(), old(self).rules().next(), old(self).rules().active(parent_key), path@) ==> {
                &&& r is None
                &&& final(self).entries() == old(self).entries()
                &&& final(self).graph() == old(self).graph()
                &&& final(self).pending() == old(self).pending()
                &&& final(self).links() == old(self).links()
                &&& final(self).rules() == old(self).rules()
            },
            opens(old(self).rules().globs(), old(self).rules().next(), old(self).rules().active(parent_key), path@) ==> {
                &&& r is Some
                &&& final(self).entries().contains_key(r->Some_0.0)
                &&& source matches ChildSource::Existing(k) ==> r->Some_0.0 == k && final(self).entries() == old(self).entries()
                &&& source matches ChildSource::New { fd, inode, .. } ==> !old(self).entries().contains_key(r->Some_0.0)
                    && final(self).entries() == old(self).entries().insert(r->Some_0.0, TreeEntry::new_spec(fd, inode))
                &&& final(self).graph().outs(parent_key) == old(self).graph().outs(parent_key).push((r->Some_0.0, Connection::Child(path)))
                &&& final(self).graph().ins(r->Some_0.0) == old(self).graph().ins(r->Some_0.0).push((parent_key, Connection::Child(path)))
                &&& forall|n: usize| n != parent_key ==> final(self).graph().outs(n) == old(self).graph().outs(n)
                &&& forall|n: usize| n != r->Some_0.0 ==> final(self).graph().ins(n) == old(self).graph().ins(n)
                &&& link_target matches Some(t) ==> final(self).links() == old(self).links().push((r->Some_0.0, t@))
                &&& link_target is None ==> final(self).links() == old(self).links()
                &&& source matches ChildSource::New { children, .. } ==> (kind == FileType::Directory ==> final(self).pending()
                    == old(self).pending() + queue_order(children@.map_values(|c: Vec<u8>| c@)).map_values(|n: Seq<u8>| (r->Some_0.0, n)))
                &&& !(source is New && kind == FileType::Directory) ==> final(self).pending() == old(self).pending()
                &&& !(source is New && path@ == gitignore_name() && kind == FileType::Regular) ==> {
                    &&& final(self).rules().globs() == old(self).rules().globs()
                    &&& final(self).rules().next() == old(self).rules().next()
                    &&& final(self).rules().active(r->Some_0.0) == old(self).rules().active(r->Some_0.0) + crate::tree::ignore::descend_all(
                        old(self).rules().globs(),
                        old(self).rules().next(),
                        old(self).rules().active(parent_key),
                        path@,
                    )
                    &&& forall|n: usize| n != r->Some_0.0 ==> final(self).rules().active(n) == old(self).rules().active(n)
                    &&& r->Some_0.1@.len() == 0
                }
                &&& source matches ChildSource::New { ignore_lines, .. } ==> ((path@ == gitignore_name() && kind == FileType::Regular) ==> {
                    &&& r->Some_0.0 != parent_key
                    &&& segments_kept(old(self).rules(), final(self).rules())
                    &&& patterns_added(old(self).rules(), final(self).rules(), patterns_of(ignore_lines@.map_values(|l: String| l@)), parent_key)
                    &&& forall|n: usize| n != parent_key && n != r->Some_0.0 ==> final(self).rules().active(n) == old(self).rules().active(n)
                    &&& r->Some_0.1@.len() == bad_lines(ignore_lines@.map_values(|l: String| l@))
                })
            },
    {
        if !self.ignores.should_open(parent_key, path.as_slice(), kind == FileType::Directory) {
            return None;
        }
        let mut errors: Vec<Error> = Vec::new();
        let child_key = match source {
            ChildSource::Existing(k) => k,
            ChildSource::New { fd, inode, children, ignore_lines } => {
                if Tree::is_ignore_file(path.as_slice(), kind) {
                    errors = self.ignores.parse_gitignore(&ignore_lines, parent_key);
                }
                self.add_file(TreeEntry::new(fd, inode), kind, children)
            },
        };
        proof {
            self.storage.lemma_key_bound(parent_key);
            self.storage.lemma_key_bound(child_key);
        }
        self.ignores.open_at(parent_key, path.as_slice(), child_key);
        let ghost g0 = self.structure;
        self.structure.add_edge(parent_key, child_key, Connection::Child(path));
        proof {
            assert forall|n: usize, i: int| 0 <= i < self.structure.outs(n).len() implies match #[trigger] self.structure.outs(n)[i].1 {
                Connection::Child(name) => !is_hidden(name@),
                Connection::SymLink => true,
            } by {
                if n == parent_key && i == g0.outs(n).len() {
                } else {
                    assert(self.structure.outs(n)[i] == g0.outs(n)[i]);
                }
            }
        }
        match link_target {
            Some(t) => {
                let ghost before = self.links();
                self.unresolved_symlinks.push(UnresolvedSymlink { key: child_key, path: t });
                proof {
                    assert(self.links() =~= before.push((child_key, t@)));
                }
            },
            None => {},
        }
        Some((child_key, errors))
    }

    /// The first node, other than `key` itself, that an edge entering `key` comes from.
    pub fn structural_parent(&self, key: usize) -> (r: Option<usize>)
        requires
            self.wf(),
        ensures
            r == parent_in(self.graph().ins(key), key),
    {
        let edges = self.structure.incoming(key);
        let ghost ins = self.structure.ins(key);
        let mut i: usize = 0;
        proof {
            assert(ins.skip(0) =~= ins);
        }
        while i < edges.len()
            invariant
                ins == self.structure.ins(key),
                edges@.len() == ins.len(),
                forall|j: int| 0 <= j < edges@.len() ==> (#[trigger] edges@[j]).connects_to == ins[j].0,
                i <= ins.len(),
                parent_in(ins, key) == parent_in(ins.skip(i as int), key),
            decreases ins.len() - i,
        {
            proof {
                assert(ins.skip(i as int).skip(1) =~= ins.skip(i + 1));
            }
            if edges[i].connects_to != key {
                proof {
                    assert(ins.skip(i as int)[0] == ins[i as int]);
                }
                return Some(edges[i].connects_to);
            }
            i = i + 1;
        }
        None
    }

    /// The node that the first edge leaving `key` that may be followed for `part` enters.
    fn follow_child(&self, key: usize, part: &Vec<u8>) -> (r: Option<usize>)
        requires
            self.wf(),
        ensures
            r == child_in(self.graph().outs(key), part@),
    {
        let edges = self.structure.outgoing(key);
        let ghost outs = self.structure.outs(key);
        let mut i: usize = 0;
        proof {
            assert(outs.skip(0) =~= outs);
        }
        while i < edges.len()
            invariant
                outs == self.structure.outs(key),
                edges@.len() == outs.len(),
                forall|j: int| 0 <= j < edges@.len() ==> (#[trigger] edges@[j]).connects_to == outs[j].0 && *edges@[j].weight == outs[j].1,
                i <= outs.len(),
                child_in(outs, part@) == child_in(outs.skip(i as int), part@),
            decreases outs.len() - i,
        {
            proof {
                assert(outs.skip(i as int).skip(1) =~= outs.skip(i + 1));
            }
            let follows = match edges[i].weight {
                Connection::SymLink => true,
                Connection::Child(name) => bytes_equal(name, part),
            };
            if follows {
                proof {
                    assert(outs.skip(i as int)[0] == outs[i as int]);
                }
                return Some(edges[i].connects_to);
            }
            i = i + 1;
        }
        None
    }

    /// Where the path component `part` leads from node `key`.
    fn step_part(&self, key: usize, part: &Vec<u8>) -> (r: Option<usize>)
        requires
            self.wf(),
        ensures
            r == step(self.graph(), key, part@),
    {
        if part.len() == 0 || (part.len() == 1 && part[0] == 46u8) {
            proof {
                if part.len() == 1 {
                    assert(part@ =~= dot());
                }
            }
            return Some(key);
        }
        proof {
            assert(part@ != dot());
        }
        if part.len() == 2 && part[0] == 46u8 && part[1] == 46u8 {
            proof {
                assert(part@ =~= dot_dot());
            }
            self.structural_parent(key)
        } else {
            proof {
                assert(part@ != dot_dot());
            }
            self.follow_child(key, part)
        }
    }

    /// Where the relative path `path` leads from node `key`, in the part of the tree that has
    /// been walked.
    pub fn follow_path(&self, key: usize, path: &[u8]) -> (r: Option<usize>)
        requires
            self.wf(),
        ensures
            r == follow_spec(self.graph(), key, path@),
    {
        if path.len() > 0 && path[0] == 47u8 {
            return None;
        }
        let ghost g = self.structure;
        let mut at: Option<usize> = Some(key);
        let mut cur: Vec<u8> = Vec::new();
        let ghost mut done: Seq<Seq<u8>> = seq![];
        let mut i: usize = 0;
        proof {
            assert(path@.take(0) =~= Seq::<u8>::empty());
            assert(split_parts(Seq::<u8>::empty()) =~= done.push(cur@));
        }
        while i < path.len()
            invariant
                self.wf(),
                g == self.structure,
                i <= path@.len(),
                split_parts(path@.take(i as int)) == done.push(cur@),
                follow_parts(g, key, done) == at,
            decreases path@.len() - i,
        {
            let b = path[i];
            proof {
                assert(path@.take(i + 1).drop_last() =~= path@.take(i as int));
                assert(path@.take(i + 1).last() == b);
                assert(done.push(cur@).drop_last() =~= done);
            }
            if b == 47u8 {
                at = match at {
                    Some(k) => self.step_part(k, &cur),
                    None => None,
                };
                proof {
                    done = done.push(cur@);
                    assert(split_parts(path@.take(i + 1)) =~= done.push(Seq::<u8>::empty()));
                }
                cur = Vec::new();
            } else {
                cur.push(b);
                proof {
                    assert(split_parts(path@.take(i + 1)) =~= done.push(cur@));
                }
            }
            i = i + 1;
        }
        proof {
            assert(path@.take(path@.len() as int) =~= path@);
            assert(done.push(cur@).drop_last() =~= done);
        }
        match at {
            Some(k) => self.step_part(k, &cur),
            None => None,
        }
    }

    /// Resolve one deferred link: from the link's parent, follow its target; where that leads
    /// to a node, add a `SymLink` edge from the link to it. Gives whether it did.
    pub fn resolve_one(&mut self, link: &UnresolvedSymlink) -> (r: bool)
        requires
            old(self).wf(),
            link.key < usize::MAX,
        ensures
            final(self).wf(),
            final(self).entries() == old(self).entries(),
            final(self).pending() == old(self).pending(),
            final(self).links() == old(self).links(),
            final(self).root_key() == old(self).root_key(),
            r == link_target(old(self).graph(), link.key, link.path@) is Some,
            resolve_step(old(self).graph(), link.key, link.path@, final(self).graph()),
    {
        let parent = match self.structural_parent(link.key) {
            Some(p) => p,
            None => return false,
        };
        proof {
            lemma_parent_in(self.structure.ins(link.key), link.key);
        }
        match self.follow_path(parent, link.path.as_slice()) {
            Some(target) => {
                proof {
                    lemma_follow_bounded(self.structure, parent, split_parts(link.path@));
                }
                let ghost g0 = self.structure;
                self.structure.add_edge(link.key, target, Connection::SymLink);
                proof {
                    assert forall|n: usize, i: int| 0 <= i < self.structure.outs(n).len() implies match #[trigger] self.structure.outs(n)[i].1 {
                        Connection::Child(name) => !is_hidden(name@),
                        Connection::SymLink => true,
                    } by {
                        if n == link.key && i == g0.outs(n).len() {
                        } else {
                            assert(self.structure.outs(n)[i] == g0.outs(n)[i]);
                        }
                    }
                }
                true
            },
            None => false,
        }
    }

    /// Resolve every deferred link, in the order they were found; gives those that lead
    /// nowhere.
    pub fn resolve_symlinks(&mut self) -> (failed: Vec<UnresolvedSymlink>)
        requires
            old(self).wf(),
        ensures
            final(self).wf(),
            final(self).entries() == old(self).entries(),
            final(self).pending() == old(self).pending(),
            final(self).root_key() == old(self).root_key(),
            final(self).links().len() == 0,
            failed@.len() <= old(self).links().len(),
            exists|gs: Seq<Graph<Connection>>| {
                &&& gs.len() == old(self).links().len() + 1
                &&& gs[0] == old(self).graph()
                &&& gs.last() == final(self).graph()
                &&& forall|i: int| 0 <= i < old(self).links().len() ==> resolve_step(#[trigger] gs[i], old(self).links()[i].0, old(self).links()[i].1, gs[i + 1])
                &&& failed@.map_values(|u: UnresolvedSymlink| (u.key, u.path@)) == unresolved_of(gs, old(self).links(), old(self).links().len() as int)
            },
    {
        let ghost links = self.links();
        let ghost n = links.len();
        let mut stack: Vec<UnresolvedSymlink> = Vec::new();
        while self.unresolved_symlinks.len() > 0
            invariant
                self.wf(),
                self.entries() == old(self).entries(),
                self.pending() == old(self).pending(),
                self.root_key() == old(self).root_key(),
                self.structure == old(self).structure,
                links == old(self).links(),
                n == links.len(),
                stack@.len() + self.unresolved_symlinks@.len() == n,
                self.links() == links.take(self.unresolved_symlinks@.len() as int),
                forall|j: int| 0 <= j < stack@.len() ==> (#[trigger] stack@[j]).key < usize::MAX
                    && (stack@[j].key, stack@[j].path@) == links[n - 1 - j],
            decreases self.unresolved_symlinks@.len(),
        {
            let ghost before = self.links();
            let ghost k = self.unresolved_symlinks@.len();
            let ghost raw = self.unresolved_symlinks@;
            let link = self.unresolved_symlinks.pop().unwrap();
            proof {
                assert(link == raw[k - 1]);
                assert(before[k - 1] == (link.key, link.path@));
                assert(links.take(k as int)[k - 1] == links[k - 1]);
                assert(link.key < usize::MAX);
                assert(self.links() =~= before.drop_last());
                assert(self.links() =~= links.take(self.unresolved_symlinks@.len() as int));
            }
            stack.push(link);
        }
        proof {
            assert(self.links() =~= Seq::<(usize, Seq<u8>)>::empty());
        }
        let mut failed: Vec<UnresolvedSymlink> = Vec::new();
        proof {
            assert(failed@.map_values(|u: UnresolvedSymlink| (u.key, u.path@)) =~= Seq::<(usize, Seq<u8>)>::empty());
        }
        let ghost mut gs: Seq<Graph<Connection>> = seq![self.structure];
        while stack.len() > 0
            invariant
                self.wf(),
                self.entries() == old(self).entries(),
                self.pending() == old(self).pending(),
                self.root_key() == old(self).root_key(),
                self.links().len() == 0,
                n == links.len(),
                stack@.len() <= n,
                failed@.len() + stack@.len() <= n,
                forall|j: int| 0 <= j < stack@.len() ==> (#[trigger] stack@[j]).key < usize::MAX
                    && (stack@[j].key, stack@[j].path@) == links[n - 1 - j],
                gs.len() == n - stack@.len() + 1,
                gs[0] == old(self).graph(),
                gs.last() == self.structure,
                forall|i: int| 0 <= i < n - stack@.len() ==> resolve_step(#[trigger] gs[i], links[i].0, links[i].1, gs[i + 1]),
                failed@.map_values(|u: UnresolvedSymlink| (u.key, u.path@)) == unresolved_of(gs, links, n - stack@.len()),
            decreases stack@.len(),
        {
            let ghost done = n - stack@.len();
            let link = stack.pop().unwrap();
            proof {
                assert((link.key, link.path@) == links[done]);
            }
            let ghost g0 = self.structure;
            let ghost lv = (link.key, link.path@);
            let ghost failed0 = failed@.map_values(|u: UnresolvedSymlink| (u.key, u.path@));
            if !self.resolve_one(&link) {
                failed.push(link);
                proof {
                    assert(failed@.map_values(|u: UnresolvedSymlink| (u.key, u.path@)) =~= failed0.push(lv));
                }
            }
            proof {
                let gs0 = gs;
                gs = gs.push(self.structure);
                lemma_unresolved_prefix(gs0, gs, links, done);
                assert(gs[done] == g0);
                assert forall|i: int| 0 <= i < n - stack@.len() implies resolve_step(#[trigger] gs[i], links[i].0, links[i].1, gs[i + 1]) by {
                    if i < done {
                        assert(gs[i] == gs0[i] && gs[i + 1] == gs0[i + 1]);
                    }
                }
            }
        }
        proof {
            assert(gs.len() == n + 1);
        }
        failed
    }
}

/// Every edge of `g` joins nodes below `usize::MAX`.
pub open spec fn endpoints_bounded(g: Graph<Connection>) -> bool {
    forall|n: usize, i: int| #![trigger g.outs(n)[i]] #![trigger g.ins(n)[i]]
        (0 <= i < g.outs(n).len() ==> g.outs(n)[i].0 < usize::MAX) && (0 <= i < g.ins(n).len()
            ==> g.ins(n)[i].0 < usize::MAX)
}

proof fn lemma_parent_in(ins: Seq<(usize, Connection)>, k: usize)
    ensures
        parent_in(ins, k) matches Some(p) ==> exists|i: int| 0 <= i < ins.len() && #[trigger] ins[i].0 == p,
    decreases ins.len(),
{
    if ins.len() > 0 && ins[0].0 == k {
        lemma_parent_in(ins.skip(1), k);
        if let Some(p) = parent_in(ins.skip(1), k) {
            let i = choose|i: int| 0 <= i < ins.skip(1).len() && #[trigger] ins.skip(1)[i].0 == p;
            assert(ins[i + 1].0 == p);
        }
    } else if ins.len() > 0 {
        assert(ins[0].0 == parent_in(ins, k)->Some_0);
    }
}

proof fn lemma_child_in(outs: Seq<(usize, Connection)>, part: Seq<u8>)
    ensures
        child_in(outs, part) matches Some(c) ==> exists|i: int| 0 <= i < outs.len() && #[trigger] outs[i].0 == c,
    decreases outs.len(),
{
    if outs.len() > 0 && !leads_to(outs[0].1, part) {
        lemma_child_in(outs.skip(1), part);
        if let Some(c) = child_in(outs.skip(1), part) {
            let i = choose|i: int| 0 <= i < outs.skip(1).len() && #[trigger] outs.skip(1)[i].0 == c;
            assert(outs[i + 1].0 == c);
        }
    } else if outs.len() > 0 {
        assert(outs[0].0 == child_in(outs, part)->Some_0);
    }
}

/// A walk from a node below `usize::MAX` ends at one.
proof fn lemma_follow_bounded(g: Graph<Connection>, k: usize, parts: Seq<Seq<u8>>)
    requires
        endpoints_bounded(g),
        k < usize::MAX,
    ensures
        follow_parts(g, k, parts) matches Some(t) ==> t < usize::MAX,
    decreases parts.len(),
{
    if parts.len() > 0 {
        lemma_follow_bounded(g, k, parts.drop_last());
        if let Some(m) = follow_parts(g, k, parts.drop_last()) {
            lemma_parent_in(g.ins(m), m);
            lemma_child_in(g.outs(m), parts.last());
        }
    }
}

/// Whether two byte strings are equal.
fn bytes_equal(a: &Vec<u8>, b: &Vec<u8>) -> (r: bool)
    ensures
        r == (a@ == b@),
{
    if a.len() != b.len() {
        return false;
    }
    let mut i: usize = 0;
    while i < a.len()
        invariant
            a@.len() == b@.len(),
            i <= a@.len(),
            a@.take(i as int) == b@.take(i as int),
        decreases a@.len() - i,
    {
        if a[i] != b[i] {
            proof {
                assert(a@[i as int] != b@[i as int]);
            }
            return false;
        }
        proof {
            assert(a@.take(i + 1) =~= a@.take(i as int).push(a@[i as int]));
            assert(b@.take(i + 1) =~= b@.take(i as int).push(b@[i as int]));
        }
        i = i + 1;
    }
    proof {
        assert(a@.take(a@.len() as int) =~= a@);
        assert(b@.take(b@.len() as int) =~= b@);
    }
    true
}

} // verus!
