//! Advisory POSIX byte-range locks per inode, for getlk/setlk (process-local).
//!
//! Locks are kept in the order they were taken; the locks of one inode keep their
//! relative order, which decides which conflict is reported first.
use vstd::prelude::*;

verus! {

/// Number of mounts in a multi-mount setup (2 = multi-mount supported).
pub const MULTI_MOUNT_PLACEHOLDER: u32 = 2;

/// FUSE kernel protocol version in use (7 = FUSE 2.x protocol; libfuse2 and libfuse3 both
/// use it).
pub const FUSE_PROTOCOL_VERSION: u32 = 7;

/// POSIX lock type: shared (read).
pub const F_RDLCK: i32 = 0;

/// POSIX lock type: exclusive (write).
pub const F_WRLCK: i32 = 1;

/// POSIX lock type: unlock.
pub const F_UNLCK: i32 = 2;

/// One lock: inode, byte range (inclusive), type, process and owner.
#[derive(Clone, Copy, Debug, PartialEq, Eq, Structural)]
pub struct LockEntry {
    pub ino: u64,
    pub start: u64,
    pub end: u64,
    pub typ: i32,
    pub pid: u32,
    pub owner: u64,
}

/// Why a lock could not be taken.
#[derive(Clone, Copy, Debug, PartialEq, Eq, Structural)]
pub enum LockError {
    /// A conflicting lock is held (the request would block).
    WouldBlock,
}

/// The ranges `[e.start, e.end]` and `[start, end]` overlap.
pub open spec fn overlaps(e: LockEntry, start: u64, end: u64) -> bool {
    start <= e.end && e.start <= end
}

/// `e` conflicts with a request by someone other than `exclude_owner` for `[start, end]`
/// on `ino`: it overlaps, and one of the two is a write lock.
pub open spec fn conflicts(e: LockEntry, ino: u64, start: u64, end: u64, typ: i32, exclude_owner: u64) -> bool {
    e.ino == ino && e.owner != exclude_owner && overlaps(e, start, end) && (typ == F_WRLCK || e.typ == F_WRLCK)
}

/// The first conflicting lock in `s`: its range, type and process.
pub open spec fn first_conflict(s: Seq<LockEntry>, ino: u64, start: u64, end: u64, typ: i32, exclude_owner: u64) -> Option<(u64, u64, i32, u32)>
    decreases s.len(),
{
    if s.len() == 0 {
        None
    } else if conflicts(s[0], ino, start, end, typ, exclude_owner) {
        Some((s[0].start, s[0].end, s[0].typ, s[0].pid))
    } else {
        first_conflict(s.drop_first(), ino, start, end, typ, exclude_owner)
    }
}

/// `e` survives an unlock of `[start, end]` on `ino` by `owner`: it is not that owner's
/// lock on that inode overlapping the range.
pub open spec fn survives_unlock(e: LockEntry, ino: u64, owner: u64, start: u64, end: u64) -> bool {
    !(e.ino == ino && e.owner == owner && !(e.end < start || e.start > end))
}

/// The locks that survive an unlock, in order.
pub open spec fn after_unlock(s: Seq<LockEntry>, ino: u64, owner: u64, start: u64, end: u64) -> Seq<LockEntry>
    decreases s.len(),
{
    if s.len() == 0 {
        s
    } else {
        let rest = after_unlock(s.drop_last(), ino, owner, start, end);
        if survives_unlock(s.last(), ino, owner, start, end) {
            rest.push(s.last())
        } else {
            rest
        }
    }
}

/// The locks not held by `owner`, in order.
pub open spec fn without_owner(s: Seq<LockEntry>, owner: u64) -> Seq<LockEntry>
    decreases s.len(),
{
    if s.len() == 0 {
        s
    } else {
        let rest = without_owner(s.drop_last(), owner);
        if s.last().owner != owner {
            rest.push(s.last())
        } else {
            rest
        }
    }
}

/// The advisory locks held.
pub struct FileLockState {
    locks: Vec<LockEntry>,
}

impl FileLockState {
    /// The locks, in the order they were taken.
    pub closed spec fn locks(&self) -> Seq<LockEntry> {
        self.locks@
    }

    /// No locks.
    pub fn new() -> (r: Self)
        ensures
            r.locks() == Seq::<LockEntry>::empty(),
    {
        FileLockState { locks: Vec::new() }
    }

    /// The first lock that conflicts with `[start, end]` of type `typ` on `ino`, ignoring
    /// the locks of `exclude_owner`: (start, end, type, pid).
    pub fn get_conflict(&self, ino: u64, start: u64, end: u64, typ: i32, exclude_owner: u64) -> (r: Option<(u64, u64, i32, u32)>)
        ensures
            r == first_conflict(self.locks(), ino, start, end, typ, exclude_owner),
    {
        let ghost s = self.locks@;
        let mut i: usize = 0;
        proof {
            assert(s.skip(0) =~= s);
        }
        while i < self.locks.len()
            invariant
                i <= s.len(),
                s == self.locks@,
                first_conflict(s, ino, start, end, typ, exclude_owner) == first_conflict(s.skip(i as int), ino, start, end, typ, exclude_owner),
            decreases self.locks.len() - i,
        {
            let e = self.locks[i];
            proof {
                assert(s.skip(i as int)[0] == e);
                assert(s.skip(i as int).drop_first() =~= s.skip(i + 1));
            }
            if e.ino == ino && e.owner != exclude_owner && start <= e.end && e.start <= end && (typ == F_WRLCK || e.typ == F_WRLCK) {
                return Some((e.start, e.end, e.typ, e.pid));
            }
            i = i + 1;
        }
        proof {
            assert(s.skip(i as int) =~= Seq::<LockEntry>::empty());
        }
        None
    }

    /// Takes a lock (or, for `F_UNLCK`, releases the owner's locks in the range). A
    /// conflicting lock held by another owner refuses the request, whether or not the
    /// caller would wait. A taken lock replaces the owner's overlapping locks on the inode.
    pub fn set_lock(&mut self, ino: u64, lock_owner: u64, start: u64, end: u64, typ: i32, pid: u32, sleep: bool) -> (r: Result<(), LockError>)
        ensures
            typ == F_UNLCK ==> r is Ok && final(self).locks() == after_unlock(old(self).locks(), ino, lock_owner, start, end),
            typ != F_UNLCK && first_conflict(old(self).locks(), ino, start, end, typ, lock_owner) is Some ==> r == Err::<(), LockError>(LockError::WouldBlock)
                && final(self).locks() == old(self).locks(),
            typ != F_UNLCK && first_conflict(old(self).locks(), ino, start, end, typ, lock_owner) is None ==> r is Ok
                && final(self).locks() == after_unlock(old(self).locks(), ino, lock_owner, start, end).push(
                LockEntry { ino, start, end, typ, pid, owner: lock_owner },
            ),
    {
        if typ == F_UNLCK {
            self.unlock(ino, lock_owner, start, end);
            return Ok(());
        }
        if self.get_conflict(ino, start, end, typ, lock_owner).is_some() {
            return Err(LockError::WouldBlock);
        }
        self.unlock(ino, lock_owner, start, end);
        self.locks.push(LockEntry { ino, start, end, typ, pid, owner: lock_owner });
        Ok(())
    }

    /// Releases the owner's locks on `ino` that overlap `[start, end]`.
    pub fn unlock(&mut self, ino: u64, lock_owner: u64, start: u64, end: u64)
        ensures
            final(self).locks() == after_unlock(old(self).locks(), ino, lock_owner, start, end),
    {
        let ghost s = self.locks@;
        let mut kept: Vec<LockEntry> = Vec::new();
        let mut i: usize = 0;
        proof {
            assert(s.subrange(0, 0) =~= Seq::<LockEntry>::empty());
        }
        while i < self.locks.len()
            invariant
                i <= s.len(),
                s == self.locks@,
                kept@ == after_unlock(s.subrange(0, i as int), ino, lock_owner, start, end),
            decreases self.locks.len() - i,
        {
            let e = self.locks[i];
            proof {
                assert(s.subrange(0, i + 1).drop_last() =~= s.subrange(0, i as int));
            }
            if !(e.ino == ino && e.owner == lock_owner && !(e.end < start || e.start > end)) {
                kept.push(e);
            }
            i = i + 1;
        }
        proof {
            assert(s.subrange(0, i as int) =~= s);
        }
        self.locks = kept;
    }

    /// Releases every lock of `lock_owner` (e.g. on release of the file).
    pub fn remove_owner(&mut self, lock_owner: u64)
        ensures
            final(self).locks() == without_owner(old(self).locks(), lock_owner),
    {
        let ghost s = self.locks@;
        let mut kept: Vec<LockEntry> = Vec::new();
        let mut i: usize = 0;
        proof {
            assert(s.subrange(0, 0) =~= Seq::<LockEntry>::empty());
        }
        while i < self.locks.len()
            invariant
                i <= s.len(),
                s == self.locks@,
                kept@ == without_owner(s.subrange(0, i as int), lock_owner),
            decreases self.locks.len() - i,
        {
            let e = self.locks[i];
            proof {
                assert(s.subrange(0, i + 1).drop_last() =~= s.subrange(0, i as int));
            }
            if e.owner != lock_owner {
                kept.push(e);
            }
            i = i + 1;
        }
        proof {
            assert(s.subrange(0, i as int) =~= s);
        }
        self.locks = kept;
    }
}

impl Default for FileLockState {
    fn default() -> (r: Self)
        ensures
            r.locks() == Seq::<LockEntry>::empty(),
    {
        FileLockState::new()
    }
}

/// A conflict is reported whenever some lock conflicts.
proof fn lemma_conflict_found(s: Seq<LockEntry>, ino: u64, start: u64, end: u64, typ: i32, excl: u64, j: int)
    requires
        0 <= j < s.len(),
        conflicts(s[j], ino, start, end, typ, excl),
    ensures
        first_conflict(s, ino, start, end, typ, excl) is Some,
    decreases j,
{
    if j > 0 && !conflicts(s[0], ino, start, end, typ, excl) {
        assert(s.drop_first()[j - 1] == s[j]);
        lemma_conflict_found(s.drop_first(), ino, start, end, typ, excl, j - 1);
    }
}

/// A write lock taken by one owner blocks every overlapping request by another owner on
/// the same inode, until it is released.
pub proof fn lemma_write_lock_blocks_others(
    before: Seq<LockEntry>,
    ino: u64,
    owner: u64,
    start: u64,
    end: u64,
    pid: u32,
    other: u64,
    start2: u64,
    end2: u64,
    typ2: i32,
)
    requires
        start <= end,
        other != owner,
        start2 <= end && start <= end2,
    ensures
        first_conflict(
            after_unlock(before, ino, owner, start, end).push(LockEntry { ino, start, end, typ: F_WRLCK, pid, owner }),
            ino,
            start2,
            end2,
            typ2,
            other,
        ) is Some,
{
    let s = after_unlock(before, ino, owner, start, end).push(LockEntry { ino, start, end, typ: F_WRLCK, pid, owner });
    lemma_conflict_found(s, ino, start2, end2, typ2, other, s.len() - 1);
}

} // verus!
