//! Inode numbering: FUSE inodes (u64) mapped to paths and back.
use vstd::prelude::*;
use dashmap::DashMap;
use crate::path::{path_key, path_key_of};
use crate::text::owned;

verus! {

/// What a map from inodes to paths holds: each inode's path.
pub uninterp spec fn inode_paths(m: DashMap<u64, String>) -> Map<u64, Seq<char>>;

/// What a map from path keys to inodes holds: each key's inode.
pub uninterp spec fn path_inodes(m: DashMap<String, u64>) -> Map<Seq<char>, u64>;

/// `DashMap::new` for inodes to paths: an empty map.
#[verifier::external_body]
fn new_inode_map() -> (r: DashMap<u64, String>)
    ensures
        inode_paths(r).dom().is_empty(),
{
    DashMap::new()
}

/// `DashMap::new` for path keys to inodes: an empty map.
#[verifier::external_body]
fn new_path_map() -> (r: DashMap<String, u64>)
    ensures
        path_inodes(r).dom().is_empty(),
{
    DashMap::new()
}

/// `DashMap::insert`: `inode` now maps to `path`, the other entries stay.
#[verifier::external_body]
fn insert_path(m: &mut DashMap<u64, String>, inode: u64, path: String)
    ensures
        inode_paths(*final(m)) == inode_paths(*old(m)).insert(inode, path@),
{
    m.insert(inode, path);
}

/// `DashMap::insert`: `key` now maps to `inode`, the other entries stay.
#[verifier::external_body]
fn insert_inode(m: &mut DashMap<String, u64>, key: String, inode: u64)
    ensures
        path_inodes(*final(m)) == path_inodes(*old(m)).insert(key@, inode),
{
    m.insert(key, inode);
}

/// `DashMap::get` of an inode, the path cloned out of the guard.
#[verifier::external_body]
fn lookup_path(m: &DashMap<u64, String>, inode: u64) -> (r: Option<String>)
    ensures
        match r {
            Some(p) => inode_paths(*m).contains_key(inode) && p@ == inode_paths(*m)[inode],
            None => !inode_paths(*m).contains_key(inode),
        },
{
    m.get(&inode).map(|e| e.value().clone())
}

/// `DashMap::get` of a path key, the inode copied out of the guard.
#[verifier::external_body]
fn lookup_inode(m: &DashMap<String, u64>, key: &str) -> (r: Option<u64>)
    ensures
        match r {
            Some(i) => path_inodes(*m).contains_key(key@) && i == path_inodes(*m)[key@],
            None => !path_inodes(*m).contains_key(key@),
        },
{
    m.get(key).map(|e| *e.value())
}

/// `DashMap::remove` of an inode: its path, if it had one, and the map without it.
#[verifier::external_body]
fn remove_path_entry(m: &mut DashMap<u64, String>, inode: u64) -> (r: Option<String>)
    ensures
        match r {
            Some(p) => inode_paths(*old(m)).contains_key(inode) && p@ == inode_paths(*old(m))[inode],
            None => !inode_paths(*old(m)).contains_key(inode),
        },
        inode_paths(*final(m)) == inode_paths(*old(m)).remove(inode),
{
    m.remove(&inode).map(|(_, p)| p)
}

/// `DashMap::remove` of a path key: its inode, if it had one, and the map without it.
#[verifier::external_body]
fn remove_inode_entry(m: &mut DashMap<String, u64>, key: &str) -> (r: Option<u64>)
    ensures
        match r {
            Some(i) => path_inodes(*old(m)).contains_key(key@) && i == path_inodes(*old(m))[key@],
            None => !path_inodes(*old(m)).contains_key(key@),
        },
        path_inodes(*final(m)) == path_inodes(*old(m)).remove(key@),
{
    m.remove(key).map(|(_, i)| i)
}

/// Root inode number (always 1 in FUSE).
pub const ROOT_INODE: u64 = 1;

/// Maps inodes to paths and paths to inodes.
pub struct InodeManager {
    inode_to_path: DashMap<u64, String>,
    path_to_inode: DashMap<String, u64>,
    next_inode: u64,
}

impl InodeManager {
    /// The path of each inode.
    pub closed spec fn paths(&self) -> Map<u64, Seq<char>> {
        inode_paths(self.inode_to_path)
    }

    /// The inode of each path, by its key.
    pub closed spec fn inodes(&self) -> Map<Seq<char>, u64> {
        path_inodes(self.path_to_inode)
    }

    /// The next inode number to hand out.
    pub closed spec fn next(&self) -> u64 {
        self.next_inode
    }

    /// The two maps are inverse to each other, and every inode handed out lies below the
    /// next one.
    pub open spec fn bijective(&self) -> bool {
        &&& forall|i: u64| #[trigger] self.paths().contains_key(i) ==> i < self.next() && self.inodes().contains_key(
            path_key(self.paths()[i]),
        ) && self.inodes()[path_key(self.paths()[i])] == i
        &&& forall|k: Seq<char>| #[trigger] self.inodes().contains_key(k) ==> self.paths().contains_key(
            self.inodes()[k],
        ) && path_key(self.paths()[self.inodes()[k]]) == k
        &&& self.next() >= 2
    }

    pub closed spec fn wf(&self) -> bool {
        self.bijective()
    }

    /// A manager that knows the root inode only.
    pub fn new() -> (r: Self)
        ensures
            r.wf(),
            r.paths() == Map::<u64, Seq<char>>::empty().insert(ROOT_INODE, "/"@),
            r.inodes() == Map::<Seq<char>, u64>::empty().insert(path_key("/"@), ROOT_INODE),
            r.next() == ROOT_INODE + 1,
    {
        let mut a = new_inode_map();
        let mut b = new_path_map();
        insert_path(&mut a, ROOT_INODE, owned("/"));
        insert_inode(&mut b, path_key_of("/"), ROOT_INODE);
        let r = InodeManager { inode_to_path: a, path_to_inode: b, next_inode: ROOT_INODE + 1 };
        proof {
            assert(r.paths() =~= Map::<u64, Seq<char>>::empty().insert(ROOT_INODE, "/"@));
            assert(r.inodes() =~= Map::<Seq<char>, u64>::empty().insert(path_key("/"@), ROOT_INODE));
        }
        r
    }

    /// The inode of `path`, allocating the next free one when the path has none.
    pub fn allocate(&mut self, path: &str) -> (r: u64)
        requires
            old(self).wf(),
            old(self).next() < u64::MAX,
        ensures
            final(self).wf(),
            old(self).inodes().contains_key(path_key(path@)) ==> r == old(self).inodes()[path_key(path@)]
                && final(self).paths() == old(self).paths() && final(self).inodes() == old(self).inodes()
                && final(self).next() == old(self).next(),
            !old(self).inodes().contains_key(path_key(path@)) ==> r == old(self).next()
                && final(self).paths() == old(self).paths().insert(r, path@)
                && final(self).inodes() == old(self).inodes().insert(path_key(path@), r)
                && final(self).next() == old(self).next() + 1,
            !old(self).inodes().contains_key(path_key(path@)) ==> r > ROOT_INODE,
            final(self).inodes().contains_key(path_key(path@)) && final(self).inodes()[path_key(path@)] == r,
            final(self).paths().contains_key(r),
            path_key(final(self).paths()[r]) == path_key(path@),
    {
        let key = path_key_of(path);
        match lookup_inode(&self.path_to_inode, key.as_str()) {
            Some(i) => {
                return i;
            },
            None => {},
        }
        let inode = self.next_inode;
        self.next_inode = self.next_inode + 1;
        insert_path(&mut self.inode_to_path, inode, owned(path));
        insert_inode(&mut self.path_to_inode, key, inode);
        proof {
            assert(self.paths() =~= old(self).paths().insert(inode, path@));
            assert forall|i: u64| #[trigger] self.paths().contains_key(i) implies i < self.next() && self.inodes().contains_key(
                path_key(self.paths()[i]),
            ) && self.inodes()[path_key(self.paths()[i])] == i by {
                if i != inode {
                    assert(old(self).paths().contains_key(i));
                }
            }
            assert forall|k: Seq<char>| #[trigger] self.inodes().contains_key(k) implies self.paths().contains_key(
                self.inodes()[k],
            ) && path_key(self.paths()[self.inodes()[k]]) == k by {
                if k != path_key(path@) {
                    assert(old(self).inodes().contains_key(k));
                }
            }
        }
        inode
    }

    /// The next inode number to be handed out.
    pub fn next_inode(&self) -> (r: u64)
        ensures
            r == self.next(),
    {
        self.next_inode
    }

    /// The path of `inode`.
    pub fn get_path(&self, inode: u64) -> (r: Option<String>)
        requires
            self.wf(),
        ensures
            match r {
                Some(p) => self.paths().contains_key(inode) && p@ == self.paths()[inode],
                None => !self.paths().contains_key(inode),
            },
    {
        lookup_path(&self.inode_to_path, inode)
    }

    /// The inode of `path`.
    pub fn get_inode(&self, path: &str) -> (r: Option<u64>)
        requires
            self.wf(),
        ensures
            match r {
                Some(i) => self.inodes().contains_key(path_key(path@)) && self.inodes()[path_key(path@)] == i,
                None => !self.inodes().contains_key(path_key(path@)),
            },
    {
        let key = path_key_of(path);
        lookup_inode(&self.path_to_inode, key.as_str())
    }

    /// Forgets `inode` and its path.
    pub fn remove(&mut self, inode: u64)
        requires
            old(self).wf(),
        ensures
            final(self).wf(),
            old(self).paths().contains_key(inode) ==> final(self).paths() == old(self).paths().remove(inode)
                && final(self).inodes() == old(self).inodes().remove(path_key(old(self).paths()[inode])),
            !old(self).paths().contains_key(inode) ==> final(self).paths() == old(self).paths()
                && final(self).inodes() == old(self).inodes(),
            final(self).next() == old(self).next(),
    {
        match remove_path_entry(&mut self.inode_to_path, inode) {
            Some(p) => {
                let key = path_key_of(p.as_str());
                let _ = remove_inode_entry(&mut self.path_to_inode, key.as_str());
                proof {
                    assert(self.paths() =~= old(self).paths().remove(inode));
                    assert forall|i: u64| #[trigger] self.paths().contains_key(i) implies i < self.next() && self.inodes().contains_key(
                        path_key(self.paths()[i]),
                    ) && self.inodes()[path_key(self.paths()[i])] == i by {
                        assert(old(self).paths().contains_key(i));
                    }
                    assert forall|k: Seq<char>| #[trigger] self.inodes().contains_key(k) implies self.paths().contains_key(
                        self.inodes()[k],
                    ) && path_key(self.paths()[self.inodes()[k]]) == k by {
                        assert(old(self).inodes().contains_key(k));
                        assert(k != path_key(p@));
                        assert(p@ == old(self).paths()[inode]);
                        assert(old(self).paths().contains_key(old(self).inodes()[k]));
                        if old(self).inodes()[k] == inode {
                            assert(path_key(old(self).paths()[inode]) == k);
                        }
                        assert(old(self).inodes()[k] != inode);
                        assert(self.inodes()[k] == old(self).inodes()[k]);
                        assert(self.paths().contains_key(self.inodes()[k]));
                    }
                }
            },
            None => {
                proof {
                    assert(self.paths() =~= old(self).paths());
                    assert(self.inodes() =~= old(self).inodes());
                }
            },
        }
    }

    /// Forgets `path` and its inode.
    pub fn remove_path(&mut self, path: &str)
        requires
            old(self).wf(),
        ensures
            final(self).wf(),
            old(self).inodes().contains_key(path_key(path@)) ==> final(self).inodes() == old(self).inodes().remove(path_key(path@))
                && final(self).paths() == old(self).paths().remove(old(self).inodes()[path_key(path@)]),
            !old(self).inodes().contains_key(path_key(path@)) ==> final(self).paths() == old(self).paths()
                && final(self).inodes() == old(self).inodes(),
            final(self).next() == old(self).next(),
    {
        let key = path_key_of(path);
        match remove_inode_entry(&mut self.path_to_inode, key.as_str()) {
            Some(inode) => {
                let _ = remove_path_entry(&mut self.inode_to_path, inode);
                proof {
                    assert(self.paths() =~= old(self).paths().remove(inode));
                    assert forall|i: u64| #[trigger] self.paths().contains_key(i) implies i < self.next() && self.inodes().contains_key(
                        path_key(self.paths()[i]),
                    ) && self.inodes()[path_key(self.paths()[i])] == i by {
                        assert(old(self).paths().contains_key(i));
                    }
                    assert forall|k: Seq<char>| #[trigger] self.inodes().contains_key(k) implies self.paths().contains_key(
                        self.inodes()[k],
                    ) && path_key(self.paths()[self.inodes()[k]]) == k by {
                        assert(old(self).inodes().contains_key(k));
                    }
                }
            },
            None => {
                proof {
                    assert(self.paths() =~= old(self).paths());
                    assert(self.inodes() =~= old(self).inodes());
                }
            },
        }
    }
}

impl Default for InodeManager {
    fn default() -> (r: Self)
        ensures
            r.wf(),
            r.next() == ROOT_INODE + 1,
    {
        InodeManager::new()
    }
}

/// Allocating a path that already has an inode hands out that inode again and changes
/// nothing; a fresh path gets a fresh inode, different from every inode handed out.
pub proof fn lemma_allocate_fresh_is_new(m: &InodeManager, i: u64)
    requires
        m.wf(),
        m.paths().contains_key(i),
    ensures
        i != m.next(),
        i < m.next(),
{
}

} // verus!
