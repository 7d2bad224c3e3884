//! What the FUSE layer decides from server answers: file attributes, directory listings,
//! reads from cached content, and how writes go through the write-back buffer.
use vstd::prelude::*;
use crate::client::types::{FileMetadataResponse, DirectoryEntry};
use crate::fuse::cache::{FuseCache, DEFAULT_WRITE_BACK_MAX_CHUNK, DEFAULT_WRITE_BACK_FLUSH_SIZE, segment_views};
use crate::fuse::inodes::InodeManager;
use crate::fuse::segments::{merge_write_segments, merge_spec, seg_views, ends_fit};
use crate::path::{path_key, file_name_of, filename, same_text};
use crate::text::owned;

verus! {

/// How long the kernel may cache attributes and entries (seconds).
pub const ATTR_TTL_SECS: u64 = 1;

/// The permission bit for character `k` of a 9-character `rwxrwxrwx` string.
pub open spec fn perm_bit(s: Seq<char>, k: int, c: char, bit: u32) -> u32 {
    if s[k] == c {
        bit
    } else {
        0
    }
}

/// The mode bits of a permission string such as `rwxr-xr-x` (0 when it is shorter than
/// nine characters).
pub open spec fn permissions_spec(s: Seq<char>) -> u32 {
    if s.len() >= 9 {
        0u32 | perm_bit(s, 0, 'r', 0o400) | perm_bit(s, 1, 'w', 0o200) | perm_bit(s, 2, 'x', 0o100)
            | perm_bit(s, 3, 'r', 0o040) | perm_bit(s, 4, 'w', 0o020) | perm_bit(s, 5, 'x', 0o010)
            | perm_bit(s, 6, 'r', 0o004) | perm_bit(s, 7, 'w', 0o002) | perm_bit(s, 8, 'x', 0o001)
    } else {
        0
    }
}

/// Each of the nine permission characters sets its own bit: owner `rwx` the bits 0o400,
/// 0o200, 0o100, group `rwx` the bits 0o040, 0o020, 0o010, others `rwx` the bits 0o004,
/// 0o002, 0o001; a bit is set exactly when its character is the letter in its place, and
/// no bit outside these nine is ever set (nor any when the string is shorter than nine).
pub proof fn lemma_permission_bits(s: Seq<char>)
    ensures
        permissions_spec(s) < 0o1000,
        s.len() < 9 ==> permissions_spec(s) == 0,
        s.len() >= 9 ==> {
            let m = permissions_spec(s);
            &&& (m & 0o400 != 0 <==> s[0] == 'r')
            &&& (m & 0o200 != 0 <==> s[1] == 'w')
            &&& (m & 0o100 != 0 <==> s[2] == 'x')
            &&& (m & 0o040 != 0 <==> s[3] == 'r')
            &&& (m & 0o020 != 0 <==> s[4] == 'w')
            &&& (m & 0o010 != 0 <==> s[5] == 'x')
            &&& (m & 0o004 != 0 <==> s[6] == 'r')
            &&& (m & 0o002 != 0 <==> s[7] == 'w')
            &&& (m & 0o001 != 0 <==> s[8] == 'x')
        },
{
    if s.len() >= 9 {
        let b0 = perm_bit(s, 0, 'r', 0o400);
        let b1 = perm_bit(s, 1, 'w', 0o200);
        let b2 = perm_bit(s, 2, 'x', 0o100);
        let b3 = perm_bit(s, 3, 'r', 0o040);
        let b4 = perm_bit(s, 4, 'w', 0o020);
        let b5 = perm_bit(s, 5, 'x', 0o010);
        let b6 = perm_bit(s, 6, 'r', 0o004);
        let b7 = perm_bit(s, 7, 'w', 0o002);
        let b8 = perm_bit(s, 8, 'x', 0o001);
        let m = permissions_spec(s);
        assert(m == 0u32 | b0 | b1 | b2 | b3 | b4 | b5 | b6 | b7 | b8);
        assert({
            &&& m < 0o1000
            &&& (m & 0o400 != 0 <==> b0 == 0o400)
            &&& (m & 0o200 != 0 <==> b1 == 0o200)
            &&& (m & 0o100 != 0 <==> b2 == 0o100)
            &&& (m & 0o040 != 0 <==> b3 == 0o040)
            &&& (m & 0o020 != 0 <==> b4 == 0o020)
            &&& (m & 0o010 != 0 <==> b5 == 0o010)
            &&& (m & 0o004 != 0 <==> b6 == 0o004)
            &&& (m & 0o002 != 0 <==> b7 == 0o002)
            &&& (m & 0o001 != 0 <==> b8 == 0o001)
        }) by (bit_vector)
            requires
                b0 == 0 || b0 == 0o400,
                b1 == 0 || b1 == 0o200,
                b2 == 0 || b2 == 0o100,
                b3 == 0 || b3 == 0o040,
                b4 == 0 || b4 == 0o020,
                b5 == 0 || b5 == 0o010,
                b6 == 0 || b6 == 0o004,
                b7 == 0 || b7 == 0o002,
                b8 == 0 || b8 == 0o001,
                m == 0u32 | b0 | b1 | b2 | b3 | b4 | b5 | b6 | b7 | b8,
        ;
    }
}

fn bit_if(c: char, want: char, bit: u32) -> (r: u32)
    ensures
        r == (if c == want { bit } else { 0 }),
{
    if c == want {
        bit
    } else {
        0
    }
}

/// Parse a permission string (e.g. `rwxr-xr-x`) to mode bits.
pub fn parse_permissions(perms: &str) -> (r: u32)
    ensures
        r == permissions_spec(perms@),
{
    let c = crate::text::chars_of(perms);
    let mut mode: u32 = 0o000;
    if c.len() >= 9 {
        mode = mode | bit_if(c[0], 'r', 0o400);
        mode = mode | bit_if(c[1], 'w', 0o200);
        mode = mode | bit_if(c[2], 'x', 0o100);
        mode = mode | bit_if(c[3], 'r', 0o040);
        mode = mode | bit_if(c[4], 'w', 0o020);
        mode = mode | bit_if(c[5], 'x', 0o010);
        mode = mode | bit_if(c[6], 'r', 0o004);
        mode = mode | bit_if(c[7], 'w', 0o002);
        mode = mode | bit_if(c[8], 'x', 0o001);
    }
    mode
}

/// File types that the FUSE layer reports.
#[derive(Clone, Copy, Debug, PartialEq, Eq, Structural)]
pub enum FileKind {
    Directory,
    Symlink,
    RegularFile,
}

/// The attributes reported for an inode. Times are all the Unix epoch, since server
/// timestamps are not parsed.
#[derive(Clone, Copy, Debug, PartialEq, Eq, Structural)]
pub struct FileAttr {
    pub ino: u64,
    pub size: u64,
    pub blocks: u64,
    pub kind: FileKind,
    pub perm: u16,
    pub nlink: u32,
    pub uid: u32,
    pub gid: u32,
    pub rdev: u32,
    pub blksize: u32,
    pub flags: u32,
}

/// The kind that a server file type names: `directory`, `symlink`, anything else a
/// regular file.
pub open spec fn kind_of_type(t: Seq<char>) -> FileKind {
    if t == "directory"@ {
        FileKind::Directory
    } else if t == "symlink"@ {
        FileKind::Symlink
    } else {
        FileKind::RegularFile
    }
}

/// The number of 512-byte blocks that `size` bytes take, rounded up.
pub open spec fn blocks_of(size: u64) -> u64 {
    if size % 512 == 0 {
        (size / 512) as u64
    } else {
        (size / 512 + 1) as u64
    }
}

/// The attributes of `inode` with server metadata `m`.
pub open spec fn attr_spec(inode: u64, m: FileMetadataResponse) -> FileAttr {
    let kind = kind_of_type(m.file_type@);
    FileAttr {
        ino: inode,
        size: m.size,
        blocks: blocks_of(m.size),
        kind,
        perm: permissions_spec(m.permissions@) as u16,
        nlink: if kind == FileKind::Directory { 2 } else { 1 },
        uid: 1000,
        gid: 1000,
        rdev: 0,
        blksize: 4096,
        flags: 0,
    }
}

fn kind_of_type_exec(t: &str) -> (r: FileKind)
    ensures
        r == kind_of_type(t@),
{
    proof {
        reveal_strlit("directory");
        reveal_strlit("symlink");
    }
    if same_text(t, "directory") {
        FileKind::Directory
    } else if same_text(t, "symlink") {
        FileKind::Symlink
    } else {
        FileKind::RegularFile
    }
}

/// Convert server metadata to the attributes of `inode`.
pub fn metadata_to_attr(inode: u64, metadata: &FileMetadataResponse) -> (r: FileAttr)
    ensures
        r == attr_spec(inode, *metadata),
{
    let kind = kind_of_type_exec(metadata.file_type.as_str());
    let perm = parse_permissions(metadata.permissions.as_str());
    let size = metadata.size;
    let blocks: u64 = if size % 512 == 0 {
        size / 512
    } else {
        size / 512 + 1
    };
    let nlink: u32 = match kind {
        FileKind::Directory => 2,
        _ => 1,
    };
    FileAttr {
        ino: inode,
        size,
        blocks,
        kind,
        perm: perm as u16,
        nlink,
        uid: 1000,
        gid: 1000,
        rdev: 0,
        blksize: 4096,
        flags: 0,
    }
}

/// The kind of a listed entry: by its file type when it names a directory or a symlink,
/// else a directory when its path ends with `/`, else a regular file.
pub open spec fn entry_kind(e: DirectoryEntry) -> FileKind {
    match e.file_type {
        Some(t) => if t@ == "directory"@ {
            FileKind::Directory
        } else if t@ == "symlink"@ {
            FileKind::Symlink
        } else if e.path@.len() > 0 && e.path@.last() == '/' {
            FileKind::Directory
        } else {
            FileKind::RegularFile
        },
        None => if e.path@.len() > 0 && e.path@.last() == '/' {
            FileKind::Directory
        } else {
            FileKind::RegularFile
        },
    }
}

/// The name under which an entry is listed: the last component of its path, or empty.
pub open spec fn entry_name(e: DirectoryEntry) -> Seq<char> {
    match file_name_of(e.path@) {
        Some(n) => n,
        None => Seq::empty(),
    }
}

fn entry_kind_exec(e: &DirectoryEntry) -> (r: FileKind)
    ensures
        r == entry_kind(*e),
{
    proof {
        reveal_strlit("directory");
        reveal_strlit("symlink");
    }
    let c = crate::text::chars_of(e.path.as_str());
    let slash = c.len() > 0 && c[c.len() - 1] == '/';
    match &e.file_type {
        Some(t) => {
            if same_text(t.as_str(), "directory") {
                FileKind::Directory
            } else if same_text(t.as_str(), "symlink") {
                FileKind::Symlink
            } else if slash {
                FileKind::Directory
            } else {
                FileKind::RegularFile
            }
        },
        None => {
            if slash {
                FileKind::Directory
            } else {
                FileKind::RegularFile
            }
        },
    }
}

/// A listed entry as a mathematical value.
pub open spec fn listed_views(v: Seq<(u64, FileKind, String)>) -> Seq<(u64, FileKind, Seq<char>)> {
    Seq::new(v.len(), |i: int| (v[i].0, v[i].1, v[i].2@))
}

/// A directory listing for FUSE: `.` and `..` (both the directory itself), then each
/// entry with its inode (allocated when new), kind and name; the first `offset` items
/// skipped.
pub fn readdir_entries(ino: u64, entries: &Vec<DirectoryEntry>, offset: u64, inodes: &mut InodeManager) -> (r: Vec<(u64, FileKind, String)>)
    requires
        old(inodes).wf(),
        old(inodes).next() + entries@.len() < u64::MAX,
    ensures
        final(inodes).wf(),
        ({
            let full = seq![(ino, FileKind::Directory, "."@), (ino, FileKind::Directory, ".."@)] + Seq::new(
                entries@.len(),
                |j: int| (final(inodes).inodes()[path_key(entries@[j].path@)], entry_kind(entries@[j]), entry_name(entries@[j])),
            );
            listed_views(r@) == if offset >= full.len() { Seq::empty() } else { full.skip(offset as int) }
        }),
        forall|j: int| 0 <= j < entries@.len() ==> final(inodes).inodes().contains_key(#[trigger] path_key(entries@[j].path@)),
        forall|k: Seq<char>| #[trigger] old(inodes).inodes().contains_key(k) ==> final(inodes).inodes().contains_key(k) && final(inodes).inodes()[k] == old(inodes).inodes()[k],
{
    proof {
        reveal_strlit(".");
        reveal_strlit("..");
    }
    let mut all: Vec<(u64, FileKind, String)> = Vec::new();
    all.push((ino, FileKind::Directory, owned(".")));
    all.push((ino, FileKind::Directory, owned("..")));
    let mut i: usize = 0;
    while i < entries.len()
        invariant
            i <= entries@.len(),
            inodes.wf(),
            inodes.next() + (entries@.len() - i) < u64::MAX,
            inodes.next() >= old(inodes).next(),
            all@.len() == i + 2,
            listed_views(all@)[0] == (ino, FileKind::Directory, "."@),
            listed_views(all@)[1] == (ino, FileKind::Directory, ".."@),
            forall|j: int| 0 <= j < i ==> inodes.inodes().contains_key(#[trigger] path_key(entries@[j].path@))
                && listed_views(all@)[j + 2] == (inodes.inodes()[path_key(entries@[j].path@)], entry_kind(entries@[j]), entry_name(entries@[j])),
            forall|k: Seq<char>| #[trigger] old(inodes).inodes().contains_key(k) ==> inodes.inodes().contains_key(k) && inodes.inodes()[k] == old(inodes).inodes()[k],
        decreases entries.len() - i,
    {
        let e = &entries[i];
        let name = match filename(e.path.as_str()) {
            Some(n) => n,
            None => String::new(),
        };
        let ghost before = inodes.inodes();
        let inode = inodes.allocate(e.path.as_str());
        let kind = entry_kind_exec(e);
        let ghost prev = listed_views(all@);
        all.push((inode, kind, name));
        proof {
            assert(listed_views(all@) =~= prev.push((inode, kind, entry_name(entries@[i as int]))));
            assert forall|j: int| 0 <= j < i + 1 implies inodes.inodes().contains_key(#[trigger] path_key(entries@[j].path@))
                && listed_views(all@)[j + 2] == (inodes.inodes()[path_key(entries@[j].path@)], entry_kind(entries@[j]), entry_name(entries@[j])) by {
                if j < i {
                    assert(before.contains_key(path_key(entries@[j].path@)));
                }
            }
        }
        i = i + 1;
    }
    let ghost full = listed_views(all@);
    proof {
        let spec_full = seq![(ino, FileKind::Directory, "."@), (ino, FileKind::Directory, ".."@)] + Seq::new(
            entries@.len(),
            |j: int| (inodes.inodes()[path_key(entries@[j].path@)], entry_kind(entries@[j]), entry_name(entries@[j])),
        );
        assert(full =~= spec_full);
    }
    let n = all.len();
    let start: usize = if offset < (n as u64) {
        offset as usize
    } else {
        n
    };
    let mut out: Vec<(u64, FileKind, String)> = Vec::new();
    let mut k: usize = start;
    while k < n
        invariant
            start <= k <= n,
            n == all@.len(),
            full == listed_views(all@),
            listed_views(out@) =~= full.subrange(start as int, k as int),
        decreases n - k,
    {
        let item = &all[k];
        let name = item.2.clone();
        let ghost prev = listed_views(out@);
        out.push((item.0, item.1, name));
        proof {
            assert(listed_views(out@) =~= prev.push(full[k as int]));
            assert(full.subrange(start as int, k + 1) =~= full.subrange(start as int, k as int).push(full[k as int]));
        }
        k = k + 1;
    }
    proof {
        if offset < n {
            assert(full.subrange(start as int, n as int) =~= full.skip(offset as int));
        }
    }
    out
}

/// The bytes `[offset, offset + size)` of `content`, cut at its end; nothing when
/// `offset` lies at or past the end.
pub open spec fn slice_spec(content: Seq<u8>, offset: u64, size: u32) -> Seq<u8> {
    if offset >= content.len() {
        Seq::empty()
    } else if offset + size >= content.len() {
        content.subrange(offset as int, content.len() as int)
    } else {
        content.subrange(offset as int, offset + size)
    }
}

/// A read of cached content.
pub fn read_slice(content: &[u8], offset: u64, size: u32) -> (r: Vec<u8>)
    requires
        offset + size <= usize::MAX,
    ensures
        r@ == slice_spec(content@, offset, size),
{
    let start = offset as usize;
    let len = content.len();
    let end = if start + (size as usize) < len {
        start + (size as usize)
    } else {
        len
    };
    let mut out: Vec<u8> = Vec::new();
    if start < len {
        let mut i = start;
        while i < end
            invariant
                start <= i <= end,
                end <= content@.len(),
                out@ == content@.subrange(start as int, i as int),
            decreases end - i,
        {
            out.push(content[i]);
            i = i + 1;
            proof {
                assert(out@ =~= content@.subrange(start as int, i as int));
            }
        }
    }
    out
}

/// Where a write goes.
#[derive(Clone, Copy, Debug, PartialEq, Eq, Structural)]
pub enum WriteRoute {
    /// Buffered; nothing more to do.
    Buffered,
    /// Buffered, and the buffer for the file must now be flushed.
    Flush,
    /// Too large to buffer: flush the buffer, then send the write directly.
    Direct,
}

/// Routes a write of `data` at `offset` to `path`: writes up to the chunk size are
/// buffered, and a buffer that reaches the flush size must be flushed; larger writes go
/// directly to the server (nothing is buffered).
pub fn route_write(cache: &mut FuseCache, path: &str, offset: u64, data: &[u8]) -> (r: WriteRoute)
    requires
        old(cache).pending().contains_key(path_key(path@)) ==> old(cache).pending()[path_key(path@)].1 + data@.len() <= usize::MAX,
    ensures
        data@.len() > DEFAULT_WRITE_BACK_MAX_CHUNK ==> r == WriteRoute::Direct && final(cache).pending() == old(cache).pending(),
        data@.len() <= DEFAULT_WRITE_BACK_MAX_CHUNK ==> {
            let k = path_key(path@);
            let (segs, total) = if old(cache).pending().contains_key(k) {
                old(cache).pending()[k]
            } else {
                (Seq::<(u64, Seq<u8>)>::empty(), 0usize)
            };
            &&& final(cache).pending() == old(cache).pending().insert(k, (segs.push((offset, data@)), (total + data@.len()) as usize))
            &&& r == if total + data@.len() >= DEFAULT_WRITE_BACK_FLUSH_SIZE { WriteRoute::Flush } else { WriteRoute::Buffered }
        },
        final(cache).stats() == old(cache).stats(),
        final(cache).dirs() == old(cache).dirs(),
        final(cache).contents() == old(cache).contents(),
{
    if data.len() <= DEFAULT_WRITE_BACK_MAX_CHUNK {
        let copy = crate::plugins::httpfs::copy_bytes(data);
        let total = cache.push_write_back(path, offset, copy);
        if total >= DEFAULT_WRITE_BACK_FLUSH_SIZE {
            WriteRoute::Flush
        } else {
            WriteRoute::Buffered
        }
    } else {
        WriteRoute::Direct
    }
}

/// Takes the buffered writes of `path` and merges them into the runs to send.
pub fn flush_plan(cache: &mut FuseCache, path: &str) -> (r: Vec<(u64, Vec<u8>)>)
    requires
        old(cache).pending().contains_key(path_key(path@)) ==> ends_fit(old(cache).pending()[path_key(path@)].0),
    ensures
        final(cache).pending() == old(cache).pending().remove(path_key(path@)),
        old(cache).pending().contains_key(path_key(path@)) ==> seg_views(r@) == merge_spec(old(cache).pending()[path_key(path@)].0),
        !old(cache).pending().contains_key(path_key(path@)) ==> r@.len() == 0,
{
    let segments = cache.take_pending_writes(path);
    proof {
        assert(seg_views(segments@) =~= segment_views(segments@));
    }
    if segments.len() == 0 {
        return segments;
    }
    merge_write_segments(segments)
}

} // verus!
