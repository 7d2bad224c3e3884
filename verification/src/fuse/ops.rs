//! The filesystem operations of the FUSE client, as decisions between server calls.
//!
//! Each operation resolves inodes to paths, consults the caches, and says what to ask
//! the server; the caller makes the server call and hands its result back to the step
//! that finishes the operation. Server calls that fail because the backend cannot be
//! reached are answered from stale cache entries where there are any.
use vstd::prelude::*;
use crate::client::Error as ClientError;
use crate::client::types::{FileMetadataResponse, DirectoryListResponse, XattrValueResponse};
use crate::fuse::attrs::{FileAttr, attr_spec, slice_spec, read_slice, metadata_to_attr};
use crate::fuse::cache::{FuseCache, entry_valid};
use crate::fuse::inodes::InodeManager;
use crate::path::{path_key, push_path, push_onto};
use crate::text::bytes_of;
use vstd::utf8::encode_utf8;

verus! {

/// The error numbers that the operations answer with.
#[derive(Clone, Copy, Debug, PartialEq, Eq, Structural)]
pub enum Errno {
    /// No such file or directory.
    NoEntry,
    /// Input/output error.
    Io,
    /// Invalid argument.
    Invalid,
    /// No such extended attribute.
    NoAttribute,
}

/// The first step of an operation: answered at once, or the server must be asked about
/// a path.
#[derive(Debug)]
pub enum Step<T> {
    Ready(T),
    Fetch(String),
}

/// A failure of the backend to answer at all (the circuit is open, or the request could
/// not be sent), as opposed to an answer that is an error.
pub open spec fn unreachable(e: ClientError) -> bool {
    e is CircuitOpen || e is Http
}

/// Whether `e` means that the backend could not be reached.
pub fn backend_unreachable(e: &ClientError) -> (r: bool)
    ensures
        r == unreachable(*e),
{
    match e {
        ClientError::CircuitOpen => true,
        ClientError::Http { .. } => true,
        _ => false,
    }
}

/// The inode table and caches of a mounted filesystem.
pub struct FuseState {
    pub inodes: InodeManager,
    pub cache: FuseCache,
}

impl FuseState {
    /// The inode table is well formed.
    pub open spec fn wf(&self) -> bool {
        self.inodes.wf()
    }

    /// A fresh state: only the root inode, and the given cache.
    pub fn new(cache: FuseCache) -> (r: Self)
        ensures
            r.wf(),
            r.inodes.paths() == map![crate::fuse::inodes::ROOT_INODE => "/"@],
            r.cache == cache,
    {
        FuseState { inodes: InodeManager::new(), cache }
    }

    /// The path of inode `ino`, or `NoEntry`.
    pub fn resolve(&self, ino: u64) -> (r: Result<String, Errno>)
        requires
            self.wf(),
        ensures
            match r {
                Ok(p) => self.inodes.paths().contains_key(ino) && p@ == self.inodes.paths()[ino],
                Err(e) => !self.inodes.paths().contains_key(ino) && e == Errno::NoEntry,
            },
    {
        match self.inodes.get_path(ino) {
            Some(p) => Ok(p),
            None => Err(Errno::NoEntry),
        }
    }

    /// The path of entry `name` in directory `parent`, or `NoEntry`.
    pub fn child(&self, parent: u64, name: &str) -> (r: Result<String, Errno>)
        requires
            self.wf(),
        ensures
            match r {
                Ok(p) => self.inodes.paths().contains_key(parent) && p@ == push_path(
                    self.inodes.paths()[parent],
                    name@,
                ),
                Err(e) => !self.inodes.paths().contains_key(parent) && e == Errno::NoEntry,
            },
    {
        match self.inodes.get_path(parent) {
            Some(p) => {
                let mut out = p;
                push_onto(&mut out, name);
                Ok(out)
            },
            None => Err(Errno::NoEntry),
        }
    }

    /// Looks up `name` in `parent` at time `now`: answered from the metadata cache when
    /// it holds a valid entry (the entry gets an inode), else the server must be asked.
    pub fn lookup_begin(&mut self, parent: u64, name: &str, now: u64) -> (r: Result<Step<FileAttr>, Errno>)
        requires
            old(self).wf(),
            old(self).inodes.next() < u64::MAX,
        ensures
            final(self).wf(),
            !old(self).inodes.paths().contains_key(parent) ==> r == Err::<Step<FileAttr>, Errno>(Errno::NoEntry)
                && *final(self) == *old(self),
            old(self).inodes.paths().contains_key(parent) ==> {
                let p = push_path(old(self).inodes.paths()[parent], name@);
                let k = path_key(p);
                let s = old(self).cache.stats();
                if s.contains_key(k) && entry_valid(s[k].1, old(self).cache.ttl(), now) {
                    &&& r matches Ok(Step::Ready(a))
                    &&& final(self).inodes.inodes().contains_key(k)
                    &&& a == attr_spec(final(self).inodes.inodes()[k], s[k].0)
                } else {
                    r matches Ok(Step::Fetch(q)) && q@ == p
                }
            },
    {
        let path = match self.child(parent, name) {
            Ok(p) => p,
            Err(e) => return Err(e),
        };
        match self.cache.get_stat_at(path.as_str(), now) {
            Some(m) => {
                let ino = self.inodes.allocate(path.as_str());
                Ok(Step::Ready(metadata_to_attr(ino, &m)))
            },
            None => Ok(Step::Fetch(path)),
        }
    }

    /// Finishes a lookup of `path` with the server's answer `result`, at time `now`. On
    /// success the metadata is cached and the entry gets an inode; when the backend
    /// could not be reached a stale cache entry answers; otherwise `NoEntry`.
    pub fn lookup_finish(
        &mut self,
        path: &str,
        result: Result<FileMetadataResponse, ClientError>,
        now: u64,
    ) -> (r: Result<FileAttr, Errno>)
        requires
            old(self).wf(),
            old(self).inodes.next() < u64::MAX,
        ensures
            final(self).wf(),
            ({
                let k = path_key(path@);
                let s = old(self).cache.stats();
                match result {
                    Ok(m) => {
                        &&& final(self).cache.stats() == s.insert(k, (m, now))
                        &&& final(self).inodes.inodes().contains_key(k)
                        &&& r == Ok::<FileAttr, Errno>(attr_spec(final(self).inodes.inodes()[k], m))
                    },
                    Err(e) => if unreachable(e) && s.contains_key(k) {
                        final(self).inodes.inodes().contains_key(k) && r == Ok::<FileAttr, Errno>(
                            attr_spec(final(self).inodes.inodes()[k], s[k].0),
                        )
                    } else {
                        r == Err::<FileAttr, Errno>(Errno::NoEntry) && *final(self) == *old(self)
                    },
                }
            }),
    {
        match result {
            Ok(m) => {
                let attr_src = m.clone();
                self.cache.put_stat_at(path, m, now);
                let ino = self.inodes.allocate(path);
                Ok(metadata_to_attr(ino, &attr_src))
            },
            Err(e) => {
                if backend_unreachable(&e) {
                    match self.cache.get_stat_stale(path) {
                        Some(m) => {
                            let ino = self.inodes.allocate(path);
                            return Ok(metadata_to_attr(ino, &m));
                        },
                        None => {},
                    }
                }
                Err(Errno::NoEntry)
            },
        }
    }

    /// The attributes of inode `ino` at time `now`: from the metadata cache when it
    /// holds a valid entry, else the server must be asked.
    pub fn getattr_begin(&mut self, ino: u64, now: u64) -> (r: Result<Step<FileAttr>, Errno>)
        requires
            old(self).wf(),
        ensures
            final(self).wf(),
            final(self).inodes == old(self).inodes,
            !old(self).inodes.paths().contains_key(ino) ==> r == Err::<Step<FileAttr>, Errno>(Errno::NoEntry),
            old(self).inodes.paths().contains_key(ino) ==> {
                let p = old(self).inodes.paths()[ino];
                let k = path_key(p);
                let s = old(self).cache.stats();
                if s.contains_key(k) && entry_valid(s[k].1, old(self).cache.ttl(), now) {
                    r == Ok::<Step<FileAttr>, Errno>(Step::Ready(attr_spec(ino, s[k].0)))
                } else {
                    r matches Ok(Step::Fetch(q)) && q@ == p
                }
            },
    {
        let path = match self.resolve(ino) {
            Ok(p) => p,
            Err(e) => return Err(e),
        };
        match self.cache.get_stat_at(path.as_str(), now) {
            Some(m) => Ok(Step::Ready(metadata_to_attr(ino, &m))),
            None => Ok(Step::Fetch(path)),
        }
    }

    /// Finishes a getattr of inode `ino` at `path` with the server's answer `result`, at
    /// time `now`: on success the metadata is cached; when the backend could not be
    /// reached a stale cache entry answers; otherwise `NoEntry`.
    pub fn getattr_finish(
        &mut self,
        ino: u64,
        path: &str,
        result: Result<FileMetadataResponse, ClientError>,
        now: u64,
    ) -> (r: Result<FileAttr, Errno>)
        requires
            old(self).wf(),
        ensures
            final(self).wf(),
            final(self).inodes == old(self).inodes,
            ({
                let k = path_key(path@);
                let s = old(self).cache.stats();
                match result {
                    Ok(m) => final(self).cache.stats() == s.insert(k, (m, now)) && r == Ok::<
                        FileAttr,
                        Errno,
                    >(attr_spec(ino, m)),
                    Err(e) => if unreachable(e) && s.contains_key(k) {
                        r == Ok::<FileAttr, Errno>(attr_spec(ino, s[k].0))
                    } else {
                        r == Err::<FileAttr, Errno>(Errno::NoEntry)
                    },
                }
            }),
    {
        match result {
            Ok(m) => {
                let attr = metadata_to_attr(ino, &m);
                self.cache.put_stat_at(path, m, now);
                Ok(attr)
            },
            Err(e) => {
                if backend_unreachable(&e) {
                    match self.cache.get_stat_stale(path) {
                        Some(m) => {
                            return Ok(metadata_to_attr(ino, &m));
                        },
                        None => {},
                    }
                }
                Err(Errno::NoEntry)
            },
        }
    }

    /// Reads `size` bytes at `offset` of inode `ino`: from the content cache when it
    /// holds the file, else the server must be asked.
    pub fn read_begin(&self, ino: u64, offset: u64, size: u32) -> (r: Result<Step<Vec<u8>>, Errno>)
        requires
            self.wf(),
            offset + size <= usize::MAX,
        ensures
            !self.inodes.paths().contains_key(ino) ==> r matches Err(Errno::NoEntry),
            self.inodes.paths().contains_key(ino) ==> {
                let p = self.inodes.paths()[ino];
                let k = path_key(p);
                if self.cache.contents().contains_key(k) {
                    r matches Ok(Step::Ready(d)) && d@ == slice_spec(self.cache.contents()[k], offset, size)
                } else {
                    r matches Ok(Step::Fetch(q)) && q@ == p
                }
            },
    {
        let path = match self.resolve(ino) {
            Ok(p) => p,
            Err(e) => return Err(e),
        };
        match self.cache.get_file_content(path.as_str()) {
            Some(d) => Ok(Step::Ready(read_slice(d.as_slice(), offset, size))),
            None => Ok(Step::Fetch(path)),
        }
    }

    /// Finishes a read of `path` with the server's answer `result`: the content (its
    /// UTF-8 bytes) is cached and the requested range returned; a failed answer is `Io`.
    pub fn read_finish(&mut self, path: &str, offset: u64, size: u32, result: Result<String, ClientError>) -> (r: Result<Vec<u8>, Errno>)
        requires
            old(self).wf(),
            offset + size <= usize::MAX,
        ensures
            final(self).wf(),
            final(self).inodes == old(self).inodes,
            match result {
                Ok(s) => {
                    &&& final(self).cache.contents() == old(self).cache.contents().insert(path_key(path@), encode_utf8(s@))
                    &&& r matches Ok(d) && d@ == slice_spec(encode_utf8(s@), offset, size)
                },
                Err(_) => r matches Err(Errno::Io) && *final(self) == *old(self),
            },
    {
        match result {
            Ok(s) => {
                let bytes = bytes_of(s.as_str());
                let out = read_slice(bytes.as_slice(), offset, size);
                self.cache.put_file_content(path, bytes);
                Ok(out)
            },
            Err(_) => Err(Errno::Io),
        }
    }

    /// Lists inode `ino` at time `now`: from the listing cache when it holds a valid
    /// entry, else the server must be asked.
    pub fn readdir_begin(&mut self, ino: u64, now: u64) -> (r: Result<Step<DirectoryListResponse>, Errno>)
        requires
            old(self).wf(),
        ensures
            final(self).wf(),
            final(self).inodes == old(self).inodes,
            !old(self).inodes.paths().contains_key(ino) ==> r matches Err(Errno::NoEntry),
            old(self).inodes.paths().contains_key(ino) ==> {
                let p = old(self).inodes.paths()[ino];
                let k = path_key(p);
                let d = old(self).cache.dirs();
                if d.contains_key(k) && entry_valid(d[k].1, old(self).cache.ttl(), now) {
                    r matches Ok(Step::Ready(l)) && l.entries@ == d[k].0
                } else {
                    r matches Ok(Step::Fetch(q)) && q@ == p
                }
            },
    {
        let path = match self.resolve(ino) {
            Ok(p) => p,
            Err(e) => return Err(e),
        };
        match self.cache.get_readdir_at(path.as_str(), now) {
            Some(l) => Ok(Step::Ready(l)),
            None => Ok(Step::Fetch(path)),
        }
    }

    /// Finishes a listing of `path` with the server's answer `result`, at time `now`: on
    /// success the listing is cached; when the backend could not be reached a stale
    /// listing answers; otherwise `Io`.
    pub fn readdir_finish(&mut self, path: &str, result: Result<DirectoryListResponse, ClientError>, now: u64) -> (r: Result<DirectoryListResponse, Errno>)
        requires
            old(self).wf(),
        ensures
            final(self).wf(),
            final(self).inodes == old(self).inodes,
            ({
                let k = path_key(path@);
                let d = old(self).cache.dirs();
                match result {
                    Ok(l) => {
                        &&& final(self).cache.dirs() == d.insert(k, (l.entries@, now))
                        &&& r matches Ok(x) && x.entries@ == l.entries@
                    },
                    Err(e) => if unreachable(e) && d.contains_key(k) {
                        r matches Ok(x) && x.entries@ == d[k].0
                    } else {
                        r matches Err(Errno::Io)
                    },
                }
            }),
    {
        match result {
            Ok(l) => {
                let copy = l.clone();
                self.cache.put_readdir_at(path, l, now);
                Ok(copy)
            },
            Err(e) => {
                if backend_unreachable(&e) {
                    match self.cache.get_readdir_stale(path) {
                        Some(l) => {
                            return Ok(l);
                        },
                        None => {},
                    }
                }
                Err(Errno::Io)
            },
        }
    }

    /// Finishes the creation of `path` (a file, directory or link) with the answer of
    /// the metadata request that follows it: the entry gets an inode; a failed answer is
    /// `Io`.
    pub fn new_entry(&mut self, path: &str, stat: Result<FileMetadataResponse, ClientError>) -> (r: Result<FileAttr, Errno>)
        requires
            old(self).wf(),
            old(self).inodes.next() < u64::MAX,
        ensures
            final(self).wf(),
            final(self).cache == old(self).cache,
            match stat {
                Ok(m) => {
                    &&& final(self).inodes.inodes().contains_key(path_key(path@))
                    &&& r == Ok::<FileAttr, Errno>(attr_spec(final(self).inodes.inodes()[path_key(path@)], m))
                },
                Err(_) => r matches Err(Errno::Io) && *final(self) == *old(self),
            },
    {
        match stat {
            Ok(m) => {
                let ino = self.inodes.allocate(path);
                Ok(metadata_to_attr(ino, &m))
            },
            Err(_) => Err(Errno::Io),
        }
    }

    /// Forgets `path` before it is removed on the server: its inode and everything
    /// cached for it.
    pub fn forget(&mut self, path: &str)
        requires
            old(self).wf(),
        ensures
            final(self).wf(),
            !final(self).inodes.inodes().contains_key(path_key(path@)),
            forall|k: Seq<char>| k != path_key(path@) ==> (#[trigger] final(self).inodes.inodes().contains_key(k)
                == old(self).inodes.inodes().contains_key(k)),
            final(self).cache.stats() == old(self).cache.stats().remove(path_key(path@)),
            final(self).cache.contents() == old(self).cache.contents().remove(path_key(path@)),
            final(self).cache.pending() == old(self).cache.pending().remove(path_key(path@)),
    {
        self.inodes.remove_path(path);
        self.cache.invalidate(path);
    }

    /// Records a rename of `old_path` to `new_path` done on the server: what is cached
    /// for either is dropped, the old path loses its inode and the new one gets one.
    pub fn renamed(&mut self, old_path: &str, new_path: &str)
        requires
            old(self).wf(),
            old(self).inodes.next() < u64::MAX,
        ensures
            final(self).wf(),
            final(self).inodes.inodes().contains_key(path_key(new_path@)),
            path_key(old_path@) != path_key(new_path@) ==> !final(self).inodes.inodes().contains_key(path_key(old_path@)),
            final(self).cache.stats() == old(self).cache.stats().remove(path_key(old_path@)).remove(path_key(new_path@)),
            final(self).cache.contents() == old(self).cache.contents().remove(path_key(old_path@)).remove(path_key(new_path@)),
            final(self).cache.pending() == old(self).cache.pending().remove(path_key(old_path@)).remove(path_key(new_path@)),
    {
        self.cache.invalidate_rename(old_path, new_path);
        self.inodes.remove_path(old_path);
        self.inodes.allocate(new_path);
    }

    /// The attributes of inode `ino` from the answer of a metadata request made after a
    /// change; a failed answer is `Io`.
    pub fn attr_after(ino: u64, stat: Result<FileMetadataResponse, ClientError>) -> (r: Result<FileAttr, Errno>)
        ensures
            match stat {
                Ok(m) => r == Ok::<FileAttr, Errno>(attr_spec(ino, m)),
                Err(_) => r matches Err(Errno::Io),
            },
    {
        match stat {
            Ok(m) => Ok(metadata_to_attr(ino, &m)),
            Err(_) => Err(Errno::Io),
        }
    }

    /// The target of a link from the answer of a metadata request: its bytes; `Invalid`
    /// when the entry is no link; `Io` when the request failed.
    pub fn link_target(stat: Result<FileMetadataResponse, ClientError>) -> (r: Result<Vec<u8>, Errno>)
        ensures
            match stat {
                Ok(m) => match m.symlink_target {
                    Some(t) => r matches Ok(b) && b@ == encode_utf8(t@),
                    None => r matches Err(Errno::Invalid),
                },
                Err(_) => r matches Err(Errno::Io),
            },
    {
        match stat {
            Ok(m) => match m.symlink_target {
                Some(t) => Ok(bytes_of(t.as_str())),
                None => Err(Errno::Invalid),
            },
            Err(_) => Err(Errno::Io),
        }
    }
}

/// The answer to a server call that changes something: `Ok` when it succeeded, else the
/// error number `err`.
pub fn call_status<T>(result: &Result<T, ClientError>, err: Errno) -> (r: Result<(), Errno>)
    ensures
        r == if result is Ok { Ok::<(), Errno>(()) } else { Err(err) },
{
    match result {
        Ok(_) => Ok(()),
        Err(_) => Err(err),
    }
}

/// Names as FUSE lists them: each name's UTF-8 bytes followed by a NUL byte.
pub open spec fn nul_separated(names: Seq<Seq<char>>) -> Seq<u8>
    decreases names.len(),
{
    if names.len() == 0 {
        Seq::empty()
    } else {
        nul_separated(names.drop_last()) + encode_utf8(names.last()) + seq![0u8]
    }
}

/// The extended attribute names of a listing, NUL-separated.
pub fn xattr_list_bytes(names: &Vec<String>) -> (r: Vec<u8>)
    ensures
        r@ == nul_separated(names@.map_values(|n: String| n@)),
{
    let ghost views = names@.map_values(|n: String| n@);
    let mut out: Vec<u8> = Vec::new();
    let mut i: usize = 0;
    while i < names.len()
        invariant
            i <= names@.len(),
            views == names@.map_values(|n: String| n@),
            out@ == nul_separated(views.subrange(0, i as int)),
        decreases names.len() - i,
    {
        let b = bytes_of(names[i].as_str());
        let mut j: usize = 0;
        let ghost start = out@;
        while j < b.len()
            invariant
                j <= b@.len(),
                out@ == start + b@.subrange(0, j as int),
            decreases b.len() - j,
        {
            out.push(b[j]);
            j = j + 1;
            proof {
                assert(out@ =~= start + b@.subrange(0, j as int));
            }
        }
        out.push(0u8);
        proof {
            assert(views.subrange(0, i + 1).drop_last() =~= views.subrange(0, i as int));
            assert(b@.subrange(0, b@.len() as int) =~= b@);
            assert(out@ =~= nul_separated(views.subrange(0, i as int)) + encode_utf8(views[i as int]) + seq![0u8]);
        }
        i = i + 1;
    }
    proof {
        assert(views.subrange(0, names@.len() as int) =~= views);
    }
    out
}

/// The bytes that standard base64 text decodes to (nothing when it is not valid).
pub uninterp spec fn base64_decoded(text: Seq<char>) -> Option<Seq<u8>>;

/// The standard (padded) base64 text of `bytes`.
pub uninterp spec fn base64_encoded(bytes: Seq<u8>) -> Seq<char>;

/// `base64::engine::general_purpose::STANDARD.decode`: the bytes that the text
/// decodes to, or `None` on a decoding error. The result is named [`base64_decoded`].
#[verifier::external_body]
fn decode_base64(text: &str) -> (r: Option<Vec<u8>>)
    ensures
        match r {
            Some(b) => base64_decoded(text@) == Some(b@),
            None => base64_decoded(text@) is None,
        },
{
    base64::Engine::decode(&base64::engine::general_purpose::STANDARD, text).ok()
}

/// `base64::engine::general_purpose::STANDARD.encode`: the padded base64 text of
/// `bytes`, named [`base64_encoded`]. It panics when the text length overflows `usize`,
/// which the bound excludes.
#[verifier::external_body]
fn encode_base64(bytes: &[u8]) -> (r: String)
    requires
        bytes@.len() <= usize::MAX / 2,
    ensures
        r@ == base64_encoded(bytes@),
{
    base64::Engine::encode(&base64::engine::general_purpose::STANDARD, bytes)
}

/// The value of an extended attribute from the server's answer: `NoAttribute` when the
/// request failed, `Io` when the value is not valid base64, else the decoded bytes.
pub fn xattr_value(result: Result<XattrValueResponse, ClientError>) -> (r: Result<Vec<u8>, Errno>)
    ensures
        match result {
            Ok(v) => match base64_decoded(v.value@) {
                Some(b) => r matches Ok(x) && x@ == b,
                None => r matches Err(Errno::Io),
            },
            Err(_) => r matches Err(Errno::NoAttribute),
        },
{
    match result {
        Ok(v) => match decode_base64(v.value.as_str()) {
            Some(b) => Ok(b),
            None => Err(Errno::Io),
        },
        Err(_) => Err(Errno::NoAttribute),
    }
}

/// The text sent for an extended attribute value: its standard base64 encoding.
pub fn xattr_text(value: &[u8]) -> (r: String)
    requires
        value@.len() <= usize::MAX / 2,
    ensures
        r@ == base64_encoded(value@),
{
    encode_base64(value)
}

} // verus!
