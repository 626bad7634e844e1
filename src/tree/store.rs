use slab::Slab;
use std::collections::HashMap;
use vstd::prelude::*;

verus! {

broadcast use vstd::std_specs::hash::group_hash_axioms;

/// An entry of the tree: an open descriptor, and the inode it refers to.
#[derive(Debug, Clone, Copy, PartialEq, Eq, Structural)]
pub struct TreeEntry {
    fd: i32,
    inode: u64,
}

impl TreeEntry {
    pub closed spec fn fd_spec(&self) -> i32 {
        self.fd
    }

    pub closed spec fn inode_spec(&self) -> u64 {
        self.inode
    }

    /// The entry with descriptor `fd` and inode `inode`.
    pub closed spec fn new_spec(fd: i32, inode: u64) -> TreeEntry {
        TreeEntry { fd, inode }
    }

    /// Create a new entry into the tree.
    pub fn new(fd: i32, inode: u64) -> (r: TreeEntry)
        ensures
            r == TreeEntry::new_spec(fd, inode),
            r.fd_spec() == fd,
            r.inode_spec() == inode,
    {
        TreeEntry { fd, inode }
    }

    /// The descriptor of the entry.
    pub fn fd(&self) -> (r: i32)
        ensures
            r == self.fd_spec(),
    {
        self.fd
    }

    /// The inode of the entry.
    pub fn inode(&self) -> (r: u64)
        ensures
            r == self.inode_spec(),
    {
        self.inode
    }
}

/// What the slab of tree entries holds, by key.
pub uninterp spec fn entry_slots(s: Slab<TreeEntry>) -> Map<usize, TreeEntry>;

/// Relies on slab::Slab::new: the slab holds nothing.
#[verifier::external_body]
fn entry_slab_new() -> (r: Slab<TreeEntry>)
    ensures
        entry_slots(r) =~= Map::empty(),
{
    Slab::new()
}

/// Relies on slab::Slab::insert: the value is stored under a key that was vacant, which is
/// returned; nothing else changes. The key indexes the slab's entry vector, whose storage is
/// bounded by `isize::MAX` bytes, so it is below `usize::MAX`.
#[verifier::external_body]
fn entry_slab_insert(s: &mut Slab<TreeEntry>, e: TreeEntry) -> (k: usize)
    ensures
        !entry_slots(*old(s)).contains_key(k),
        k < usize::MAX,
        entry_slots(*final(s)) == entry_slots(*old(s)).insert(k, e),
{
    s.insert(e)
}

/// Relies on slab::Slab::get: the value under the key, if the key is occupied.
#[verifier::external_body]
fn entry_slab_get(s: &Slab<TreeEntry>, k: usize) -> (r: Option<&TreeEntry>)
    ensures
        match r {
            Some(e) => entry_slots(*s).contains_key(k) && entry_slots(*s)[k] == *e,
            None => !entry_slots(*s).contains_key(k),
        },
{
    s.get(k)
}

/// Storage for the entries of the tree, indexed by key, by descriptor and by inode.
pub struct TreeStore {
    storage: Slab<TreeEntry>,
    fd_index: HashMap<i32, usize>,
    inode_index: HashMap<u64, usize>,
}

impl TreeStore {
    /// The entries, by key.
    pub closed spec fn entries(&self) -> Map<usize, TreeEntry> {
        entry_slots(self.storage)
    }

    pub closed spec fn wf(&self) -> bool {
        &&& forall|k: usize| #[trigger] self.entries().contains_key(k) ==> k < usize::MAX
        &&& forall|k: usize| #[trigger]
            self.entries().contains_key(k) ==> self.fd_index@.contains_key(self.entries()[k].fd)
                && self.fd_index@[self.entries()[k].fd] == k && self.inode_index@.contains_key(
                self.entries()[k].inode,
            ) && self.inode_index@[self.entries()[k].inode] == k
        &&& forall|fd: i32| #[trigger]
            self.fd_index@.contains_key(fd) ==> self.entries().contains_key(self.fd_index@[fd])
                && self.entries()[self.fd_index@[fd]].fd == fd
        &&& forall|inode: u64| #[trigger]
            self.inode_index@.contains_key(inode) ==> self.entries().contains_key(
                self.inode_index@[inode],
            ) && self.entries()[self.inode_index@[inode]].inode == inode
    }

    /// Whether `e` can be inserted: each stored entry shares its descriptor with `e` exactly
    /// when it shares its inode.
    pub open spec fn admits(&self, e: TreeEntry) -> bool {
        forall|k: usize| #[trigger]
            self.entries().contains_key(k) ==> ((self.entries()[k].fd_spec() == e.fd_spec()) == (
            self.entries()[k].inode_spec() == e.inode_spec()))
    }

    /// Every key is below `usize::MAX`.
    pub proof fn lemma_key_bound(&self, k: usize)
        requires
            self.wf(),
            self.entries().contains_key(k),
        ensures
            k < usize::MAX,
    {
    }

    /// Whether an entry with descriptor `fd` and inode `inode` shares neither with a stored one.
    pub fn is_fresh(&self, fd: i32, inode: u64) -> (r: bool)
        requires
            self.wf(),
        ensures
            r == forall|k: usize| #[trigger] self.entries().contains_key(k) ==> self.entries()[k].fd_spec() != fd
                && self.entries()[k].inode_spec() != inode,
    {
        let a = self.fd_to_key(fd);
        let b = self.inode_to_key(inode);
        a.is_none() && b.is_none()
    }

    /// No two stored entries share a descriptor or an inode.
    pub proof fn lemma_unique(&self, a: usize, b: usize)
        requires
            self.wf(),
            self.entries().contains_key(a),
            self.entries().contains_key(b),
            a != b,
        ensures
            self.entries()[a].fd_spec() != self.entries()[b].fd_spec(),
            self.entries()[a].inode_spec() != self.entries()[b].inode_spec(),
    {
    }

    /// Create a new, empty store.
    pub fn new() -> (r: TreeStore)
        ensures
            r.wf(),
            r.entries() == Map::<usize, TreeEntry>::empty(),
    {
        TreeStore { storage: entry_slab_new(), fd_index: HashMap::new(), inode_index: HashMap::new() }
    }

    /// Insert an entry, and give the key that identifies it. An entry equal to a stored one
    /// gives that one's key.
    pub fn insert(&mut self, entry: TreeEntry) -> (r: usize)
        requires
            old(self).wf(),
            old(self).admits(entry),
        ensures
            final(self).wf(),
            final(self).entries().contains_key(r),
            final(self).entries()[r] == entry,
            old(self).entries().contains_key(r) ==> final(self).entries() == old(self).entries(),
            !old(self).entries().contains_key(r) ==> final(self).entries() == old(self).entries().insert(r, entry),
            (exists|k: usize| old(self).entries().contains_key(k) && old(self).entries()[k] == entry)
                ==> old(self).entries().contains_key(r),
    {
        match self.fd_index.get(&entry.fd) {
            Some(k) => {
                let k = *k;
                proof {
                    assert(self.entries()[k].fd == entry.fd);
                    assert(self.entries()[k] == entry);
                }
                k
            },
            None => {
                proof {
                    assert forall|k: usize| self.entries().contains_key(k) implies self.entries()[k] != entry by {
                        assert(self.fd_index@.contains_key(self.entries()[k].fd));
                    }
                    assert forall|k: usize| self.entries().contains_key(k) implies self.entries()[k].inode != entry.inode by {
                        assert(self.fd_index@.contains_key(self.entries()[k].fd));
                    }
                    assert(!self.inode_index@.contains_key(entry.inode));
                }
                let ghost before = *self;
                let key = entry_slab_insert(&mut self.storage, entry);
                self.fd_index.insert(entry.fd, key);
                self.inode_index.insert(entry.inode, key);
                proof {
                    assert forall|k: usize| #[trigger] self.entries().contains_key(k) implies self.fd_index@.contains_key(self.entries()[k].fd)
                        && self.fd_index@[self.entries()[k].fd] == k && self.inode_index@.contains_key(self.entries()[k].inode)
                        && self.inode_index@[self.entries()[k].inode] == k by {
                        if k != key {
                            assert(before.entries().contains_key(k));
                        }
                    }
                }
                key
            },
        }
    }

    /// The entry stored under `key`.
    pub fn key_to_entry(&self, key: usize) -> (r: Option<&TreeEntry>)
        ensures
            match r {
                Some(e) => self.entries().contains_key(key) && self.entries()[key] == *e,
                None => !self.entries().contains_key(key),
            },
    {
        entry_slab_get(&self.storage, key)
    }

    /// The key of the entry with descriptor `fd`.
    pub fn fd_to_key(&self, fd: i32) -> (r: Option<usize>)
        requires
            self.wf(),
        ensures
            match r {
                Some(k) => self.entries().contains_key(k) && self.entries()[k].fd_spec() == fd,
                None => forall|k: usize| #[trigger] self.entries().contains_key(k) ==> self.entries()[k].fd_spec() != fd,
            },
    {
        match self.fd_index.get(&fd) {
            Some(k) => Some(*k),
            None => {
                proof {
                    assert forall|k: usize| #[trigger] self.entries().contains_key(k) implies self.entries()[k].fd_spec() != fd by {
                        assert(self.fd_index@.contains_key(self.entries()[k].fd));
                    }
                }
                None
            },
        }
    }

    /// The entry with descriptor `fd`.
    pub fn fd_to_entry(&self, fd: i32) -> (r: Option<&TreeEntry>)
        requires
            self.wf(),
        ensures
            match r {
                Some(e) => e.fd_spec() == fd && exists|k: usize| #[trigger] self.entries().contains_key(k) && self.entries()[k] == *e,
                None => forall|k: usize| #[trigger] self.entries().contains_key(k) ==> self.entries()[k].fd_spec() != fd,
            },
    {
        match self.fd_to_key(fd) {
            Some(k) => self.key_to_entry(k),
            None => None,
        }
    }

    /// The key of the entry with inode `inode`.
    pub fn inode_to_key(&self, inode: u64) -> (r: Option<usize>)
        requires
            self.wf(),
        ensures
            match r {
                Some(k) => self.entries().contains_key(k) && self.entries()[k].inode_spec() == inode,
                None => forall|k: usize| #[trigger] self.entries().contains_key(k) ==> self.entries()[k].inode_spec() != inode,
            },
    {
        match self.inode_index.get(&inode) {
            Some(k) => Some(*k),
            None => {
                proof {
                    assert forall|k: usize| #[trigger] self.entries().contains_key(k) implies self.entries()[k].inode_spec() != inode by {
                        assert(self.inode_index@.contains_key(self.entries()[k].inode));
                    }
                }
                None
            },
        }
    }

    /// The entry with inode `inode`.
    pub fn inode_to_entry(&self, inode: u64) -> (r: Option<&TreeEntry>)
        requires
            self.wf(),
        ensures
            match r {
                Some(e) => e.inode_spec() == inode && exists|k: usize| #[trigger] self.entries().contains_key(k) && self.entries()[k] == *e,
                None => forall|k: usize| #[trigger] self.entries().contains_key(k) ==> self.entries()[k].inode_spec() != inode,
            },
    {
        match self.inode_to_key(inode) {
            Some(k) => self.key_to_entry(k),
            None => None,
        }
    }
}

} // verus!
