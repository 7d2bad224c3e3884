//! Key-value store filesystem: file contents and metadata kept in memory, each keyed by
//! the path's components (so `/a/b`, `/a//b` and `/a/b/` name the same entry).
//!
//! Contents and metadata live in two maps. Directories have metadata only; files have
//! both.
use vstd::prelude::*;
use crate::error::{FSError, not_found_for, exists_for, not_dir_for};
use crate::filesystem::{ReadFS, WriteFS, DirFS, ChmodFS, FileSystem};
use crate::flags::{WriteFlags, has_bits};
use crate::metadata::{FileMetadata, MetaView, file_mode_spec, dir_mode_spec, S_IFMT};
use crate::path::{path_key, path_key_of, comps, comps_prefix, starts_with_path, has_prefix, same_text, components};
use crate::strmap::{StrMap, lookup, distinct_keys, as_map, lists_map};
use crate::plugins::{read_range, read_range_spec, read_args_ok, apply_write, write_spec, write_args_ok};
use crate::text::owned;
use crate::plugins::httpfs::{ParentCheck, is_dir_meta, strictly_under};
use crate::path::{parent, parent_of};

verus! {

// ---------------------------------------------------------------------------
// The model
// ---------------------------------------------------------------------------

/// Metadata of a file just created at `path` with `size` bytes.
pub open spec fn new_file_meta(m: MetaView, path: Seq<char>, size: u64) -> bool {
    &&& m.path == path
    &&& m.size == size
    &&& m.mode == file_mode_spec()
    &&& m.created is Some && m.modified is Some && m.accessed is Some
    &&& !m.is_symlink
    &&& m.symlink_target is None
}

/// Metadata of a directory just created at `path`.
pub open spec fn new_dir_meta(m: MetaView, path: Seq<char>) -> bool {
    &&& m.path == path
    &&& m.size == 0
    &&& m.mode == dir_mode_spec()
    &&& m.created is Some && m.modified is Some && m.accessed is Some
    &&& !m.is_symlink
    &&& m.symlink_target is None
}

/// `m` with its size set to `size`.
pub open spec fn with_size(m: MetaView, size: u64) -> MetaView {
    MetaView { size, ..m }
}

/// `m` with its permission bits set from `mode`, keeping the file type.
pub open spec fn with_perm(m: MetaView, mode: u32) -> MetaView {
    MetaView { mode: (m.mode & S_IFMT) | (mode & 0o777), ..m }
}

/// `p` begins with the characters of `prefix`.
pub open spec fn text_prefix(p: Seq<char>, prefix: Seq<char>) -> bool {
    prefix.len() <= p.len() && p.subrange(0, prefix.len() as int) == prefix
}

/// `key` names an entry directly inside the directory `dir`: its text starts with the
/// directory's, it is not the directory, and what is left after the directory's
/// components (all of `key` when the directory's components are no prefix of its own)
/// is a single component.
pub open spec fn in_dir(dir: Seq<char>, key: Seq<char>) -> bool {
    &&& text_prefix(key, dir)
    &&& key != dir
    &&& if dir.len() > 0 && comps_prefix(comps(dir), comps(key)) {
        comps(key).len() == comps(dir).len() + 1
    } else {
        comps(key).len() == 1
    }
}

/// The metadata in `entries` (in order) of the entries directly inside `dir`.
pub open spec fn listing_in(entries: Seq<(Seq<char>, MetaView)>, dir: Seq<char>) -> Seq<MetaView>
    decreases entries.len(),
{
    if entries.len() == 0 {
        Seq::empty()
    } else {
        let rest = listing_in(entries.drop_last(), dir);
        if in_dir(dir, entries.last().0) {
            rest.push(entries.last().1)
        } else {
            rest
        }
    }
}

/// The keys (in order) of the entries directly inside `dir`.
pub open spec fn keys_in(entries: Seq<(Seq<char>, MetaView)>, dir: Seq<char>) -> Seq<Seq<char>>
    decreases entries.len(),
{
    if entries.len() == 0 {
        Seq::empty()
    } else {
        let rest = keys_in(entries.drop_last(), dir);
        if in_dir(dir, entries.last().0) {
            rest.push(entries.last().0)
        } else {
            rest
        }
    }
}

/// `v` lists the entries of `m` directly inside `dir` under the keys `ks`: one listed
/// entry per key, each key once, every such key listed.
pub open spec fn listed_by(ks: Seq<Seq<char>>, v: Seq<MetaView>, m: Map<Seq<char>, MetaView>, dir: Seq<char>) -> bool {
    &&& ks.len() == v.len()
    &&& ks.no_duplicates()
    &&& forall|i: int| 0 <= i < ks.len() ==> m.contains_key(#[trigger] ks[i]) && in_dir(dir, ks[i]) && v[i] == m[ks[i]]
    &&& forall|k: Seq<char>| #[trigger] m.contains_key(k) && in_dir(dir, k) ==> ks.contains(k)
}

/// `v` lists exactly the entries of `m` directly inside `dir`, each once, in some order.
pub open spec fn shows_dir(v: Seq<MetaView>, m: Map<Seq<char>, MetaView>, dir: Seq<char>) -> bool {
    exists|ks: Seq<Seq<char>>| #[trigger] listed_by(ks, v, m, dir)
}

proof fn lemma_keys_in(l: Seq<(Seq<char>, MetaView)>, dir: Seq<char>)
    requires
        distinct_keys(l),
    ensures
        listed_by(keys_in(l, dir), listing_in(l, dir), as_map(l), dir),
    decreases l.len(),
{
    let ks = keys_in(l, dir);
    let v = listing_in(l, dir);
    let m = as_map(l);
    if l.len() > 0 {
        let l0 = l.drop_last();
        let x = l.last();
        let n = l.len() - 1;
        assert(distinct_keys(l0)) by {
            assert forall|i: int, j: int| 0 <= i < l0.len() && 0 <= j < l0.len() && i != j implies l0[i].0 != l0[j].0 by {
                assert(l0[i] == l[i] && l0[j] == l[j]);
            }
        }
        lemma_keys_in(l0, dir);
        let ks0 = keys_in(l0, dir);
        let v0 = listing_in(l0, dir);
        let m0 = as_map(l0);
        // a key of the shorter list is not the last key
        assert forall|k: Seq<char>| #[trigger] m0.contains_key(k) implies k != x.0 && lookup(l, k) == lookup(l0, k) by {
            crate::strmap::lemma_lookup_some(l0, k);
            let j = choose|j: int| 0 <= j < l0.len() && l0[j].0 == k && l0[j].1 == lookup(l0, k)->0;
            assert(l[j] == l0[j]);
            assert(l[n] == x);
        }
        assert forall|k: Seq<char>| #[trigger] m.contains_key(k) && k != x.0 implies m0.contains_key(k) && m[k] == m0[k] by {}
        assert(m.contains_key(x.0) && m[x.0] == x.1);
        if in_dir(dir, x.0) {
            assert(ks == ks0.push(x.0));
            assert(v == v0.push(x.1));
            assert forall|i: int| 0 <= i < ks.len() implies m.contains_key(#[trigger] ks[i]) && in_dir(dir, ks[i]) && v[i] == m[ks[i]] by {
                if i < ks0.len() {
                    assert(ks[i] == ks0[i] && v[i] == v0[i]);
                    assert(m0.contains_key(ks0[i]));
                }
            }
            assert forall|k: Seq<char>| #[trigger] m.contains_key(k) && in_dir(dir, k) implies ks.contains(k) by {
                if k == x.0 {
                    assert(ks[ks.len() - 1] == k);
                } else {
                    assert(ks0.contains(k));
                    let i = choose|i: int| 0 <= i < ks0.len() && ks0[i] == k;
                    assert(ks[i] == k);
                }
            }
            assert(ks.no_duplicates()) by {
                assert forall|i: int, j: int| 0 <= i < ks.len() && 0 <= j < ks.len() && i != j implies ks[i] != ks[j] by {
                    if i < ks0.len() && j < ks0.len() {
                        assert(ks[i] == ks0[i] && ks[j] == ks0[j]);
                    } else if i < ks0.len() {
                        assert(ks[i] == ks0[i]);
                        assert(m0.contains_key(ks0[i]));
                    } else if j < ks0.len() {
                        assert(ks[j] == ks0[j]);
                        assert(m0.contains_key(ks0[j]));
                    }
                }
            }
        } else {
            assert(ks == ks0);
            assert(v == v0);
            assert forall|i: int| 0 <= i < ks.len() implies m.contains_key(#[trigger] ks[i]) && in_dir(dir, ks[i]) && v[i] == m[ks[i]] by {
                assert(m0.contains_key(ks0[i]));
            }
            assert forall|k: Seq<char>| #[trigger] m.contains_key(k) && in_dir(dir, k) implies ks.contains(k) by {
                assert(k != x.0);
                assert(m0.contains_key(k));
            }
        }
    } else {
        assert forall|k: Seq<char>| #[trigger] m.contains_key(k) && in_dir(dir, k) implies ks.contains(k) by {
            assert(lookup(l, k) is None);
        }
    }
}

/// Listing a directory shows what it holds: when the listing order holds each entry once
/// and, read as a map, is the metadata, the entries listed for `dir` are exactly the
/// entries directly inside it, each once.
pub proof fn lemma_listing_shows_dir(l: Seq<(Seq<char>, MetaView)>, m: Map<Seq<char>, MetaView>, dir: Seq<char>)
    requires
        lists_map(l, m),
    ensures
        shows_dir(listing_in(l, dir), m, dir),
{
    lemma_keys_in(l, dir);
    assert(listed_by(keys_in(l, dir), listing_in(l, dir), m, dir));
}

/// `key` lies at or below `path`: the components of `path` come first in its own.
pub open spec fn under(path: Seq<char>, key: Seq<char>) -> bool {
    comps_prefix(comps(path), comps(key))
}

/// The contents that initial data gives: each path's bytes under its key, a later
/// entry for the same key replacing an earlier one.
pub open spec fn seeded(s: Seq<(Seq<char>, Seq<u8>)>) -> Map<Seq<char>, Seq<u8>>
    decreases s.len(),
{
    if s.len() == 0 {
        Map::empty()
    } else {
        seeded(s.drop_last()).insert(path_key(s.last().0), s.last().1)
    }
}

pub open spec fn data_views(v: Seq<(String, Vec<u8>)>) -> Seq<(Seq<char>, Seq<u8>)> {
    Seq::new(v.len(), |i: int| (v[i].0@, v[i].1@))
}

pub open spec fn meta_views(v: Seq<FileMetadata>) -> Seq<MetaView> {
    Seq::new(v.len(), |i: int| v[i]@)
}

proof fn lemma_data_views_remove_first(v: Seq<(String, Vec<u8>)>)
    requires
        v.len() > 0,
    ensures
        data_views(v).len() == v.len(),
        data_views(v)[0] == (v[0].0@, v[0].1@),
        data_views(v.remove(0)) == data_views(v).subrange(1, v.len() as int),
{
    let a = data_views(v.remove(0));
    let b = data_views(v).subrange(1, v.len() as int);
    assert forall|k: int| 0 <= k < a.len() implies a[k] == b[k] by {
        assert(v.remove(0)[k] == v[k + 1]);
    }
    assert(a =~= b);
}

/// The parent of `path`, unless it is the root, must have metadata and be a directory.
pub open spec fn kv_parent_check(metas: Map<Seq<char>, MetaView>, path: Seq<char>) -> ParentCheck {
    match parent_of(path) {
        Some(p) => if p != "/"@ && p.len() > 0 {
            if !metas.contains_key(path_key(p)) {
                ParentCheck::Missing(p)
            } else if !is_dir_meta(metas[path_key(p)]) {
                ParentCheck::NotDir(p)
            } else {
                ParentCheck::Fine
            }
        } else {
            ParentCheck::Fine
        },
        None => ParentCheck::Fine,
    }
}

/// `r` is the error that a failed parent check `c` reports.
pub open spec fn parent_error(r: Result<(), FSError>, c: ParentCheck) -> bool {
    match c {
        ParentCheck::Missing(p) => r matches Err(e) && not_found_for(e, p),
        ParentCheck::NotDir(p) => r matches Err(e) && not_dir_for(e, p),
        ParentCheck::Fine => r is Ok,
    }
}

/// `path` is a directory with something below it, in the contents or the metadata.
pub open spec fn non_empty_dir(files: Map<Seq<char>, Seq<u8>>, metas: Map<Seq<char>, MetaView>, path: Seq<char>) -> bool {
    &&& metas.contains_key(path_key(path))
    &&& is_dir_meta(metas[path_key(path)])
    &&& exists|q: Seq<char>| (#[trigger] files.contains_key(q) || metas.contains_key(q)) && strictly_under(path, q)
}

proof fn lemma_listing_is_metadata(fs: &KvFS)
    requires
        fs.metadata.wf(),
    ensures
        lists_map(fs.listing(), fs.metas()),
{
    let p = fs.metadata.pairs();
    let g = |e: (Seq<char>, FileMetadata)| (e.0, e.1@);
    let l = fs.listing();
    assert(l == p.map_values(g));
    assert(distinct_keys(l)) by {
        assert forall|i: int, j: int| 0 <= i < l.len() && 0 <= j < l.len() && i != j implies l[i].0 != l[j].0 by {
            assert(l[i].0 == p[i].0 && l[j].0 == p[j].0);
        }
    }
    assert forall|k: Seq<char>| #[trigger] as_map(l).contains_key(k) == fs.metas().contains_key(k) && (as_map(l).contains_key(k) ==> as_map(l)[k] == fs.metas()[k]) by {
        crate::strmap::lemma_lookup_mapped(p, g, k);
    }
    assert(as_map(l) =~= fs.metas());
}

/// In-memory key-value filesystem.
pub struct KvFS {
    store: StrMap<Vec<u8>>,
    metadata: StrMap<FileMetadata>,
}

impl KvFS {
    #[verifier::type_invariant]
    spec fn inv(self) -> bool {
        self.store.wf() && self.metadata.wf()
    }

    /// File contents by key.
    pub closed spec fn files(&self) -> Map<Seq<char>, Seq<u8>> {
        self.store.map().map_values(|v: Vec<u8>| v@)
    }

    /// Metadata by key.
    pub closed spec fn metas(&self) -> Map<Seq<char>, MetaView> {
        self.metadata.map().map_values(|m: FileMetadata| m@)
    }

    /// The metadata entries in the order in which a directory listing visits them.
    pub closed spec fn listing(&self) -> Seq<(Seq<char>, MetaView)> {
        self.metadata.pairs().map_values(|e: (Seq<char>, FileMetadata)| (e.0, e.1@))
    }

    /// Every file with contents has metadata.
    pub open spec fn consistent(&self) -> bool {
        forall|k: Seq<char>| #[trigger] self.files().contains_key(k) ==> self.metas().contains_key(k)
    }

    /// An empty filesystem.
    pub fn new() -> (r: Self)
        ensures
            r.files() == Map::<Seq<char>, Seq<u8>>::empty(),
            r.metas() == Map::<Seq<char>, MetaView>::empty(),
            r.listing() == Seq::<(Seq<char>, MetaView)>::empty(),
            r.consistent(),
    {
        let r = KvFS { store: StrMap::new(), metadata: StrMap::new() };
        proof {
            assert(r.files() =~= Map::<Seq<char>, Seq<u8>>::empty());
            assert(r.metas() =~= Map::<Seq<char>, MetaView>::empty());
            assert(r.listing() =~= Seq::<(Seq<char>, MetaView)>::empty());
        }
        r
    }

    /// A filesystem holding `data`: each path's bytes, with file metadata of that size.
    pub fn with_data(data: Vec<(String, Vec<u8>)>) -> (r: Self)
        ensures
            r.files() == seeded(data_views(data@)),
            r.metas().dom() == r.files().dom(),
            forall|k: Seq<char>|
                #[trigger] r.metas().contains_key(k) ==> path_key(r.metas()[k].path) == k
                    && new_file_meta(
                    r.metas()[k],
                    r.metas()[k].path,
                    r.files()[k].len() as u64,
                ),
            r.consistent(),
    {
        let mut store: StrMap<Vec<u8>> = StrMap::new();
        let mut metadata: StrMap<FileMetadata> = StrMap::new();
        let mut input = data;
        let ghost orig = data_views(input@);
        let mut n: usize = 0;
        proof {
            assert(orig.subrange(0, 0) =~= Seq::<(Seq<char>, Seq<u8>)>::empty());
            assert(data_views(input@) =~= orig.subrange(0, orig.len() as int));
            assert(orig.len() == input.len());
            assert(store.map().map_values(|v: Vec<u8>| v@) =~= seeded(orig.subrange(0, 0)));
            assert(metadata.map().dom() =~= store.map().dom());
        }
        while input.len() > 0
            invariant
                n <= orig.len(),
                orig.len() <= usize::MAX,
                data_views(input@) == orig.subrange(n as int, orig.len() as int),
                store.wf(),
                metadata.wf(),
                store.map().map_values(|v: Vec<u8>| v@) == seeded(orig.subrange(0, n as int)),
                metadata.map().dom() == store.map().dom(),
                forall|k: Seq<char>|
                    #[trigger] metadata.map().contains_key(k) ==> path_key(metadata.map()[k]@.path)
                        == k && new_file_meta(
                        metadata.map()[k]@,
                        metadata.map()[k]@.path,
                        store.map()[k]@.len() as u64,
                    ),
            decreases input.len(),
        {
            let ghost before = input@;
            let (path, bytes) = input.remove(0);
            proof {
                lemma_data_views_remove_first(before);
                assert(orig.subrange(n as int, orig.len() as int)[0] == orig[n as int]);
                assert(data_views(input@) =~= orig.subrange(n + 1, orig.len() as int));
                assert(orig.subrange(0, n + 1).drop_last() =~= orig.subrange(0, n as int));
                assert(orig.subrange(0, n + 1).last() == (path@, bytes@));
            }
            let key = path_key_of(path.as_str());
            let size = bytes.len() as u64;
            let meta = FileMetadata::file(path, size);
            store.insert(key.clone(), bytes);
            metadata.insert(key, meta);
            proof {
                assert(store.map().map_values(|v: Vec<u8>| v@) =~= seeded(
                    orig.subrange(0, n + 1),
                ));
                assert(metadata.map().dom() =~= store.map().dom());
            }
            n = n + 1;
        }
        proof {
            assert(orig.subrange(0, n as int) =~= orig);
        }
        let r = KvFS { store, metadata };
        proof {
            assert(r.metas().dom() =~= r.files().dom());
        }
        r
    }

    /// Checks that the parent of `path` exists and is a directory (the root always does).
    fn check_parent(&self, path: &str) -> (r: Result<(), FSError>)
        ensures
            parent_error(r, kv_parent_check(self.metas(), path@)),
    {
        proof {
            use_type_invariant(self);
            reveal_strlit("/");
        }
        match parent(path) {
            Some(p) => {
                if same_text(p.as_str(), "/") || p.as_str().is_empty() {
                    return Ok(());
                }
                let key = path_key_of(p.as_str());
                match self.metadata.get(key.as_str()) {
                    None => Err(FSError::not_found(p.as_str())),
                    Some(m) => {
                        if !m.is_directory() {
                            Err(FSError::not_a_directory(p.as_str()))
                        } else {
                            Ok(())
                        }
                    },
                }
            },
            None => Ok(()),
        }
    }

    /// The metadata of every entry, in listing order.
    pub fn all_entries(&self) -> (r: Vec<FileMetadata>)
        ensures
            meta_views(r@) == self.listing().map_values(|e: (Seq<char>, MetaView)| e.1),
    {
        proof {
            use_type_invariant(self);
        }
        let ghost entries = self.listing();
        let mut out: Vec<FileMetadata> = Vec::new();
        let n = self.metadata.len();
        let mut i: usize = 0;
        while i < n
            invariant
                i <= n,
                n == self.metadata.pairs().len(),
                entries == self.listing(),
                entries.len() == n,
                meta_views(out@) == entries.subrange(0, i as int).map_values(|e: (Seq<char>, MetaView)| e.1),
            decreases n - i,
        {
            let (_k, m) = self.metadata.entry_at(i);
            let ghost before = meta_views(out@);
            out.push(m.clone());
            proof {
                assert(meta_views(out@) =~= before.push(m@));
                assert(entries.subrange(0, i + 1).map_values(|e: (Seq<char>, MetaView)| e.1) =~= entries.subrange(0, i as int).map_values(|e: (Seq<char>, MetaView)| e.1).push(m@));
            }
            i = i + 1;
        }
        proof {
            assert(entries.subrange(0, n as int) =~= entries);
        }
        out
    }

    /// Moves the contents map out, leaving an empty one.
    fn take_store(&mut self) -> (r: StrMap<Vec<u8>>)
        ensures
            r.wf(),
            r == old(self).store,
            final(self).store.pairs() == Seq::<(Seq<char>, Vec<u8>)>::empty(),
            final(self).metadata == old(self).metadata,
    {
        proof {
            use_type_invariant(&*self);
        }
        let mut s: StrMap<Vec<u8>> = StrMap::new();
        std::mem::swap(&mut s, &mut self.store);
        s
    }

    /// Moves the metadata map out, leaving an empty one.
    fn take_metadata(&mut self) -> (r: StrMap<FileMetadata>)
        ensures
            r.wf(),
            r == old(self).metadata,
            final(self).metadata.pairs() == Seq::<(Seq<char>, FileMetadata)>::empty(),
            final(self).store == old(self).store,
    {
        proof {
            use_type_invariant(&*self);
        }
        let mut m: StrMap<FileMetadata> = StrMap::new();
        std::mem::swap(&mut m, &mut self.metadata);
        m
    }

    fn put_store(&mut self, s: StrMap<Vec<u8>>)
        requires
            s.wf(),
        ensures
            final(self).store == s,
            final(self).metadata == old(self).metadata,
    {
        proof {
            use_type_invariant(&*self);
        }
        self.store = s;
    }

    fn put_metadata(&mut self, m: StrMap<FileMetadata>)
        requires
            m.wf(),
        ensures
            final(self).metadata == m,
            final(self).store == old(self).store,
    {
        proof {
            use_type_invariant(&*self);
        }
        self.metadata = m;
    }
}

impl Default for KvFS {
    fn default() -> (r: Self)
        ensures
            r.files() == Map::<Seq<char>, Seq<u8>>::empty(),
            r.metas() == Map::<Seq<char>, MetaView>::empty(),
            r.listing() == Seq::<(Seq<char>, MetaView)>::empty(),
    {
        KvFS::new()
    }
}

impl ReadFS for KvFS {
    /// A read of a file must not overflow `offset + size`, nor end before the start of
    /// data it starts inside.
    open spec fn read_allowed(&self, path: Seq<char>, offset: i64, size: i64) -> bool {
        self.files().contains_key(path_key(path)) ==> read_args_ok(
            offset,
            size,
            self.files()[path_key(path)].len(),
        )
    }

    fn read(&self, path: &str, offset: i64, size: i64) -> (r: Result<Vec<u8>, FSError>)
        ensures
            self.files().contains_key(path_key(path@)) ==> (r matches Ok(v) && v@
                == read_range_spec(self.files()[path_key(path@)], offset, size)),
            !self.files().contains_key(path_key(path@)) ==> (r matches Err(e) && not_found_for(
                e,
                path@,
            )),
    {
        proof {
            use_type_invariant(self);
        }
        let key = path_key_of(path);
        match self.store.get(key.as_str()) {
            Some(d) => Ok(read_range(d.as_slice(), offset, size)),
            None => Err(FSError::not_found(path)),
        }
    }

    fn stat(&self, path: &str) -> (r: Result<FileMetadata, FSError>)
        ensures
            self.metas().contains_key(path_key(path@)) ==> (r matches Ok(m) && m@ == self.metas()[path_key(path@)]),
            !self.metas().contains_key(path_key(path@)) ==> (r matches Err(e) && not_found_for(
                e,
                path@,
            )),
    {
        proof {
            use_type_invariant(self);
        }
        let key = path_key_of(path);
        match self.metadata.get(key.as_str()) {
            Some(m) => Ok(m.clone()),
            None => Err(FSError::not_found(path)),
        }
    }
}

impl WriteFS for KvFS {
    /// Appends must fit in memory; other writes need an offset that is not negative and,
    /// when they start inside the file, must end inside it.
    open spec fn write_allowed(&self, path: Seq<char>, data_len: nat, offset: i64, flags: WriteFlags) -> bool {
        self.files().contains_key(path_key(path)) ==> write_args_ok(
            self.files()[path_key(path)].len(),
            data_len,
            offset,
            has_bits(flags.spec_bits(), WriteFlags::APPEND),
        )
    }

    fn create(&mut self, path: &str) -> (r: Result<(), FSError>)
        ensures
            !(kv_parent_check(old(self).metas(), path@) is Fine) ==> parent_error(r, kv_parent_check(old(self).metas(), path@))
                && final(self).files() == old(self).files() && final(self).metas() == old(self).metas() && final(self).listing() == old(self).listing(),
            kv_parent_check(old(self).metas(), path@) is Fine && (old(self).files().contains_key(path_key(path@)) || old(self).metas().contains_key(path_key(path@))) ==> (r matches Err(e) && exists_for(
                e,
                path@,
            )) && final(self).files() == old(self).files() && final(self).metas() == old(self).metas() && final(self).listing() == old(self).listing(),
            kv_parent_check(old(self).metas(), path@) is Fine && !old(self).files().contains_key(path_key(path@)) && !old(self).metas().contains_key(path_key(path@)) ==> r is Ok && final(self).files()
                == old(self).files().insert(path_key(path@), Seq::<u8>::empty()) && final(self).metas() == old(self).metas().insert(
                path_key(path@),
                final(self).metas()[path_key(path@)],
            ) && new_file_meta(final(self).metas()[path_key(path@)], path@, 0),
            old(self).consistent() ==> final(self).consistent(),
    {
        self.check_parent(path)?;
        let key = path_key_of(path);
        let mut store = self.take_store();
        if store.contains_key(key.as_str()) {
            self.put_store(store);
            return Err(FSError::already_exists(path));
        }
        let mut metadata = self.take_metadata();
        if metadata.contains_key(key.as_str()) {
            self.put_store(store);
            self.put_metadata(metadata);
            return Err(FSError::already_exists(path));
        }
        store.insert(key.clone(), Vec::new());
        metadata.insert(key, FileMetadata::file(owned(path), 0));
        self.put_store(store);
        self.put_metadata(metadata);
        proof {
            assert(self.files() =~= old(self).files().insert(path_key(path@), Seq::<u8>::empty()));
            assert(self.metas() =~= old(self).metas().insert(
                path_key(path@),
                self.metas()[path_key(path@)],
            ));
        }
        Ok(())
    }

    fn write(&mut self, path: &str, data: &[u8], offset: i64, flags: WriteFlags) -> (r: Result<
        u64,
        FSError,
    >)
        ensures
            !old(self).files().contains_key(path_key(path@)) ==> (r matches Err(e)
                && not_found_for(e, path@)) && final(self).files() == old(self).files() && final(self).metas() == old(self).metas() && final(self).listing() == old(self).listing(),
            old(self).files().contains_key(path_key(path@)) ==> {
                let k = path_key(path@);
                let content = write_spec(
                    old(self).files()[k],
                    data@,
                    offset,
                    has_bits(flags.spec_bits(), WriteFlags::APPEND),
                );
                &&& r == Ok::<u64, FSError>(data@.len() as u64)
                &&& final(self).files() == old(self).files().insert(k, content)
                &&& final(self).metas() == if old(self).metas().contains_key(k) {
                    old(self).metas().insert(k, with_size(old(self).metas()[k], content.len() as u64))
                } else {
                    old(self).metas()
                }
            },
            old(self).consistent() ==> final(self).consistent(),
    {
        let key = path_key_of(path);
        let mut store = self.take_store();
        let append = flags.contains_append();
        let ghost old_files = old(self).files();
        match store.insert(key.clone(), Vec::new()) {
            None => {
                let _ = store.remove(key.as_str());
                self.put_store(store);
                proof {
                    assert(self.files() =~= old_files);
                }
                Err(FSError::not_found(path))
            },
            Some(mut entry) => {
                apply_write(&mut entry, data, offset, append);
                let new_len = entry.len();
                store.insert(key.clone(), entry);
                self.put_store(store);
                let mut metadata = self.take_metadata();
                let found = match metadata.get(key.as_str()) {
                    Some(m) => {
                        let mut m2 = m.clone();
                        m2.size = new_len as u64;
                        Some(m2)
                    },
                    None => None,
                };
                match found {
                    Some(m2) => {
                        metadata.insert(key, m2);
                    },
                    None => {},
                }
                self.put_metadata(metadata);
                proof {
                    let k = path_key(path@);
                    let content = write_spec(old_files[k], data@, offset, append);
                    assert(self.files() =~= old_files.insert(k, content));
                    if old(self).metas().contains_key(k) {
                        assert(self.metas() =~= old(self).metas().insert(
                            k,
                            with_size(old(self).metas()[k], content.len() as u64),
                        ));
                    } else {
                        assert(self.metas() =~= old(self).metas());
                    }
                    if old(self).consistent() {
                        assert forall|j: Seq<char>| #[trigger] self.files().contains_key(j) implies self.metas().contains_key(j) by {
                            assert(old(self).files().contains_key(j));
                        }
                    }
                }
                Ok(data.len() as u64)
            },
        }
    }
}

impl ChmodFS for KvFS {
    fn chmod(&mut self, path: &str, mode: u32) -> (r: Result<(), FSError>)
        ensures
            old(self).metas().contains_key(path_key(path@)) ==> r is Ok && final(self).metas()
                == old(self).metas().insert(
                path_key(path@),
                with_perm(old(self).metas()[path_key(path@)], mode),
            ),
            !old(self).metas().contains_key(path_key(path@)) ==> (r matches Err(e)
                && not_found_for(e, path@)) && final(self).metas() == old(self).metas()
                && final(self).listing() == old(self).listing(),
            final(self).files() == old(self).files(),
            old(self).consistent() ==> final(self).consistent(),
    {
        let key = path_key_of(path);
        let mut metadata = self.take_metadata();
        let found = match metadata.get(key.as_str()) {
            Some(m) => {
                let mut m2 = m.clone();
                m2.set_permissions(mode);
                Some(m2)
            },
            None => None,
        };
        match found {
            Some(m2) => {
                metadata.insert(key, m2);
                self.put_metadata(metadata);
                proof {
                    assert(self.metas() =~= old(self).metas().insert(
                        path_key(path@),
                        with_perm(old(self).metas()[path_key(path@)], mode),
                    ));
                    if old(self).consistent() {
                        assert forall|j: Seq<char>| #[trigger] self.files().contains_key(j) implies self.metas().contains_key(j) by {
                            assert(old(self).files().contains_key(j));
                        }
                    }
                }
                Ok(())
            },
            None => {
                self.put_metadata(metadata);
                Err(FSError::not_found(path))
            },
        }
    }
}

/// Whether `key` names an entry directly inside `dir` (see [`in_dir`]).
fn in_dir_exec(dir: &str, key: &str) -> (r: bool)
    ensures
        r == in_dir(dir@, key@),
{
    if !has_prefix(key, dir) || same_text(key, dir) {
        return false;
    }
    let kc = components(key).len();
    if !dir.is_empty() && starts_with_path(key, dir) {
        let dc = components(dir).len();
        kc >= 1 && kc - 1 == dc
    } else {
        kc == 1
    }
}

impl DirFS for KvFS {
    fn mkdir(&mut self, path: &str, perm: u32) -> (r: Result<(), FSError>)
        ensures
            !(kv_parent_check(old(self).metas(), path@) is Fine) ==> parent_error(r, kv_parent_check(old(self).metas(), path@))
                && final(self).metas() == old(self).metas() && final(self).listing() == old(self).listing(),
            kv_parent_check(old(self).metas(), path@) is Fine && old(self).metas().contains_key(path_key(path@)) ==> (r matches Err(e) && exists_for(e, path@))
                && final(self).metas() == old(self).metas() && final(self).listing() == old(self).listing(),
            kv_parent_check(old(self).metas(), path@) is Fine && !old(self).metas().contains_key(path_key(path@)) ==> r is Ok && final(self).metas()
                == old(self).metas().insert(path_key(path@), final(self).metas()[path_key(path@)])
                && new_dir_meta(final(self).metas()[path_key(path@)], path@),
            final(self).files() == old(self).files(),
            old(self).consistent() ==> final(self).consistent(),
    {
        self.check_parent(path)?;
        let key = path_key_of(path);
        let mut metadata = self.take_metadata();
        if metadata.contains_key(key.as_str()) {
            self.put_metadata(metadata);
            return Err(FSError::already_exists(path));
        }
        metadata.insert(key, FileMetadata::directory(owned(path)));
        self.put_metadata(metadata);
        proof {
            assert(self.metas() =~= old(self).metas().insert(
                path_key(path@),
                self.metas()[path_key(path@)],
            ));
            if old(self).consistent() {
                assert forall|j: Seq<char>| #[trigger] self.files().contains_key(j) implies self.metas().contains_key(j) by {
                    assert(old(self).files().contains_key(j));
                }
            }
        }
        Ok(())
    }

    fn read_dir(&self, path: &str) -> (r: Result<Vec<FileMetadata>, FSError>)
        ensures
            r matches Ok(v) && meta_views(v@) == listing_in(self.listing(), path@),
            lists_map(self.listing(), self.metas()),
            r matches Ok(v) && shows_dir(meta_views(v@), self.metas(), path@),
    {
        proof {
            use_type_invariant(self);
            lemma_listing_is_metadata(self);
            lemma_listing_shows_dir(self.listing(), self.metas(), path@);
        }
        let ghost entries = self.listing();
        let mut out: Vec<FileMetadata> = Vec::new();
        let mut i: usize = 0;
        let n = self.metadata.len();
        proof {
            assert(entries.subrange(0, 0) =~= Seq::<(Seq<char>, MetaView)>::empty());
            assert(meta_views(out@) =~= Seq::<MetaView>::empty());
        }
        while i < n
            invariant
                i <= n,
                n == self.metadata.pairs().len(),
                entries == self.listing(),
                entries.len() == n,
                meta_views(out@) == listing_in(entries.subrange(0, i as int), path@),
            decreases n - i,
        {
            let (k, m) = self.metadata.entry_at(i);
            proof {
                let t = entries.subrange(0, i + 1);
                assert(t.drop_last() =~= entries.subrange(0, i as int));
                assert(t.last() == (k@, m@));
            }
            if in_dir_exec(path, k.as_str()) {
                let ghost before = meta_views(out@);
                out.push(m.clone());
                proof {
                    assert(meta_views(out@) =~= before.push(m@));
                }
            }
            i = i + 1;
        }
        proof {
            assert(entries.subrange(0, n as int) =~= entries);
        }
        Ok(out)
    }

    fn remove(&mut self, path: &str) -> (r: Result<(), FSError>)
        ensures
            (old(self).files().contains_key(path_key(path@)) || old(self).metas().contains_key(
                path_key(path@),
            )) && non_empty_dir(old(self).files(), old(self).metas(), path@) ==> (r matches Err(e) && e is DirectoryNotEmpty)
                && final(self).files() == old(self).files() && final(self).metas() == old(self).metas()
                && final(self).listing() == old(self).listing(),
            (old(self).files().contains_key(path_key(path@)) || old(self).metas().contains_key(
                path_key(path@),
            )) && !non_empty_dir(old(self).files(), old(self).metas(), path@) ==> r is Ok && final(self).files() == old(self).files().remove(path_key(path@))
                && final(self).metas() == old(self).metas().remove(path_key(path@)),
            !old(self).files().contains_key(path_key(path@)) && !old(self).metas().contains_key(
                path_key(path@),
            ) ==> (r matches Err(e) && not_found_for(e, path@)) && final(self).files() == old(self).files()
                && final(self).metas() == old(self).metas() && final(self).listing() == old(self).listing(),
            old(self).consistent() ==> final(self).consistent(),
    {
        let key = path_key_of(path);
        proof {
            use_type_invariant(&*self);
        }
        let is_dir = match self.metadata.get(key.as_str()) {
            Some(m) => m.is_directory(),
            None => false,
        };
        proof {
            assert(is_dir == (self.metas().contains_key(path_key(path@)) && is_dir_meta(self.metas()[path_key(path@)])));
        }
        if is_dir {
            let mut has_children = false;
            let ghost mut witness: Seq<char> = Seq::empty();
            let n = self.store.len();
            let mut i: usize = 0;
            while i < n
                invariant
                    i <= n,
                    n == self.store.pairs().len(),
                    self.store.wf(),
                    has_children ==> (self.files().contains_key(witness) || self.metas().contains_key(witness)) && strictly_under(path@, witness),
                    !has_children ==> forall|j: int| 0 <= j < i ==> !strictly_under(path@, #[trigger] self.store.pairs()[j].0),
                decreases n - i,
            {
                let (q, _d) = self.store.entry_at(i);
                if starts_with_path(q.as_str(), path) && !starts_with_path(path, q.as_str()) {
                    proof {
                        crate::strmap::lemma_lookup_at(self.store.pairs(), i as int);
                        assert(self.files().contains_key(q@));
                        witness = q@;
                    }
                    has_children = true;
                }
                i = i + 1;
            }
            let n2 = self.metadata.len();
            let mut i2: usize = 0;
            while i2 < n2
                invariant
                    i2 <= n2,
                    n2 == self.metadata.pairs().len(),
                    n == self.store.pairs().len(),
                    self.metadata.wf(),
                    has_children ==> (self.files().contains_key(witness) || self.metas().contains_key(witness)) && strictly_under(path@, witness),
                    !has_children ==> forall|j: int| 0 <= j < n ==> !strictly_under(path@, #[trigger] self.store.pairs()[j].0),
                    !has_children ==> forall|j: int| 0 <= j < i2 ==> !strictly_under(path@, #[trigger] self.metadata.pairs()[j].0),
                decreases n2 - i2,
            {
                let (q, _m) = self.metadata.entry_at(i2);
                if starts_with_path(q.as_str(), path) && !starts_with_path(path, q.as_str()) {
                    proof {
                        crate::strmap::lemma_lookup_at(self.metadata.pairs(), i2 as int);
                        assert(self.metas().contains_key(q@));
                        witness = q@;
                    }
                    has_children = true;
                }
                i2 = i2 + 1;
            }
            if has_children {
                proof {
                    assert(self.files().contains_key(witness) || self.metas().contains_key(witness));
                }
                return Err(FSError::DirectoryNotEmpty);
            }
            proof {
                assert forall|q: Seq<char>| #[trigger] self.files().contains_key(q) || self.metas().contains_key(q) implies !strictly_under(path@, q) by {
                    if self.files().contains_key(q) {
                        crate::strmap::lemma_lookup_some(self.store.pairs(), q);
                    } else {
                        crate::strmap::lemma_lookup_some(self.metadata.pairs(), q);
                    }
                }
            }
        }
        let mut store = self.take_store();
        let removed = store.remove(key.as_str());
        self.put_store(store);
        let mut metadata = self.take_metadata();
        let removed_meta = metadata.remove(key.as_str());
        self.put_metadata(metadata);
        proof {
            assert(self.files() =~= old(self).files().remove(path_key(path@)));
            assert(self.metas() =~= old(self).metas().remove(path_key(path@)));
            if removed.is_none() && removed_meta.is_none() {
                assert(self.files() =~= old(self).files());
                assert(self.metas() =~= old(self).metas());
            }
        }
        if removed.is_none() && removed_meta.is_none() {
            return Err(FSError::not_found(path));
        }
        Ok(())
    }

    fn remove_all(&mut self, path: &str) -> (r: Result<(), FSError>)
        ensures
            r is Ok,
            final(self).files() == old(self).files().remove_keys(
                old(self).files().dom().union(old(self).metas().dom()).filter(|k: Seq<char>| under(path@, k)),
            ),
            final(self).metas() == old(self).metas().remove_keys(
                old(self).files().dom().union(old(self).metas().dom()).filter(|k: Seq<char>| under(path@, k)),
            ),
            old(self).consistent() ==> final(self).consistent(),
    {
        let mut store = self.take_store();
        let mut metadata = self.take_metadata();
        let ghost s0 = store.map();
        let ghost m0 = metadata.map();
        let ghost gone = old(self).files().dom().union(old(self).metas().dom()).filter(|k: Seq<char>| under(path@, k));
        // the keys at or below `path`
        let mut keys: Vec<String> = Vec::new();
        let n = store.len();
        let mut i: usize = 0;
        while i < n
            invariant
                i <= n,
                n == store.pairs().len(),
                store.wf(),
                store.map() == s0,
                forall|j: int| 0 <= j < keys@.len() ==> under(path@, #[trigger] keys@[j]@) && s0.contains_key(keys@[j]@),
                forall|j: int| 0 <= j < i ==> under(path@, #[trigger] store.pairs()[j].0) ==> exists|q: int| 0 <= q < keys@.len() && keys@[q]@ == store.pairs()[j].0,
            decreases n - i,
        {
            let (k, _v) = store.entry_at(i);
            proof {
                crate::strmap::lemma_lookup_at(store.pairs(), i as int);
            }
            if starts_with_path(k.as_str(), path) {
                let ghost before = keys@;
                let kc = k.clone();
                keys.push(kc);
                proof {
                    assert(keys@[keys@.len() - 1]@ == store.pairs()[i as int].0);
                    assert forall|j: int| 0 <= j < i + 1 && under(path@, #[trigger] store.pairs()[j].0) implies exists|q: int| 0 <= q < keys@.len() && keys@[q]@ == store.pairs()[j].0 by {
                        if j < i {
                            let q = choose|q: int| 0 <= q < before.len() && before[q]@ == store.pairs()[j].0;
                            assert(keys@[q] == before[q]);
                        } else {
                            assert(keys@[keys@.len() - 1]@ == store.pairs()[j].0);
                        }
                    }
                }
            }
            i = i + 1;
        }
        // and the directories at or below it that hold no contents
        let n2 = metadata.len();
        let mut i2: usize = 0;
        while i2 < n2
            invariant
                i2 <= n2,
                n2 == metadata.pairs().len(),
                n == store.pairs().len(),
                store.wf(),
                metadata.wf(),
                store.map() == s0,
                metadata.map() == m0,
                forall|j: int| 0 <= j < keys@.len() ==> under(path@, #[trigger] keys@[j]@) && (s0.contains_key(keys@[j]@) || m0.contains_key(keys@[j]@)),
                forall|j: int| 0 <= j < n ==> under(path@, #[trigger] store.pairs()[j].0) ==> exists|q: int| 0 <= q < keys@.len() && keys@[q]@ == store.pairs()[j].0,
                forall|j: int| 0 <= j < i2 ==> under(path@, #[trigger] metadata.pairs()[j].0) ==> exists|q: int| 0 <= q < keys@.len() && keys@[q]@ == metadata.pairs()[j].0,
            decreases n2 - i2,
        {
            let (k, _m) = metadata.entry_at(i2);
            proof {
                crate::strmap::lemma_lookup_at(metadata.pairs(), i2 as int);
            }
            if starts_with_path(k.as_str(), path) {
                let ghost before = keys@;
                let kc = k.clone();
                keys.push(kc);
                proof {
                    assert(keys@[keys@.len() - 1]@ == metadata.pairs()[i2 as int].0);
                    assert forall|j: int| 0 <= j < n && under(path@, #[trigger] store.pairs()[j].0) implies exists|q: int| 0 <= q < keys@.len() && keys@[q]@ == store.pairs()[j].0 by {
                        let q = choose|q: int| 0 <= q < before.len() && before[q]@ == store.pairs()[j].0;
                        assert(keys@[q] == before[q]);
                    }
                    assert forall|j: int| 0 <= j < i2 + 1 && under(path@, #[trigger] metadata.pairs()[j].0) implies exists|q: int| 0 <= q < keys@.len() && keys@[q]@ == metadata.pairs()[j].0 by {
                        if j < i2 {
                            let q = choose|q: int| 0 <= q < before.len() && before[q]@ == metadata.pairs()[j].0;
                            assert(keys@[q] == before[q]);
                        } else {
                            assert(keys@[keys@.len() - 1]@ == metadata.pairs()[j].0);
                        }
                    }
                }
            }
            i2 = i2 + 1;
        }
        let ghost all = keys@;
        let mut j: usize = 0;
        while j < keys.len()
            invariant
                j <= keys@.len(),
                keys@ == all,
                store.wf(),
                metadata.wf(),
                forall|k: Seq<char>| #[trigger] store.map().contains_key(k) <==> s0.contains_key(k) && !(exists|q: int| 0 <= q < j && all[q]@ == k),
                forall|k: Seq<char>| #[trigger] store.map().contains_key(k) ==> store.map()[k] == s0[k],
                forall|k: Seq<char>| #[trigger] metadata.map().contains_key(k) <==> m0.contains_key(k) && !(exists|q: int| 0 <= q < j && all[q]@ == k),
                forall|k: Seq<char>| #[trigger] metadata.map().contains_key(k) ==> metadata.map()[k] == m0[k],
            decreases keys.len() - j,
        {
            let _ = store.remove(keys[j].as_str());
            let _ = metadata.remove(keys[j].as_str());
            proof {
                assert forall|k: Seq<char>| #[trigger] store.map().contains_key(k) <==> s0.contains_key(k) && !(exists|q: int| 0 <= q < j + 1 && all[q]@ == k) by {
                    if exists|q: int| 0 <= q < j + 1 && all[q]@ == k {
                        let q = choose|q: int| 0 <= q < j + 1 && all[q]@ == k;
                        if q < j {
                        }
                    }
                }
                assert forall|k: Seq<char>| #[trigger] metadata.map().contains_key(k) <==> m0.contains_key(k) && !(exists|q: int| 0 <= q < j + 1 && all[q]@ == k) by {
                    if exists|q: int| 0 <= q < j + 1 && all[q]@ == k {
                        let q = choose|q: int| 0 <= q < j + 1 && all[q]@ == k;
                        if q < j {
                        }
                    }
                }
            }
            j = j + 1;
        }
        self.put_store(store);
        self.put_metadata(metadata);
        proof {
            assert forall|k: Seq<char>| (exists|q: int| 0 <= q < all.len() && all[q]@ == k) <==> gone.contains(k) by {
                if gone.contains(k) {
                    if s0.contains_key(k) {
                        crate::strmap::lemma_lookup_some(old(self).store.pairs(), k);
                    } else {
                        assert(m0.contains_key(k));
                        crate::strmap::lemma_lookup_some(old(self).metadata.pairs(), k);
                    }
                }
            }
            assert(self.files() =~= old(self).files().remove_keys(gone));
            assert(self.metas() =~= old(self).metas().remove_keys(gone));
            if old(self).consistent() {
                assert forall|q: Seq<char>| #[trigger] self.files().contains_key(q) implies self.metas().contains_key(q) by {
                    assert(old(self).files().contains_key(q));
                }
            }
        }
        Ok(())
    }

    fn rename(&mut self, old_path: &str, new_path: &str) -> (r: Result<(), FSError>)
        ensures
            ({
                let ko = path_key(old_path@);
                let kn = path_key(new_path@);
                let f = old(self).files();
                let m = old(self).metas();
                &&& !f.contains_key(ko) ==> (r matches Err(e) && not_found_for(e, old_path@))
                    && final(self).files() == f && final(self).metas() == m
                    && final(self).listing() == old(self).listing()
                &&& f.contains_key(ko) && !m.contains_key(ko) ==> (r matches Err(e)
                    && not_found_for(e, old_path@)) && final(self).files() == f.remove(ko)
                    && final(self).metas() == m
                &&& f.contains_key(ko) && m.contains_key(ko) && kn != ko && f.contains_key(kn) ==> (
                r matches Err(e) && exists_for(e, new_path@)) && final(self).files() == f
                    && final(self).metas() == m
                &&& f.contains_key(ko) && m.contains_key(ko) && !(kn != ko && f.contains_key(kn))
                    ==> r is Ok && final(self).files() == f.remove(ko).insert(kn, f[ko])
                    && final(self).metas() == m.remove(ko).insert(kn, m[ko])
            }),
            old(self).consistent() ==> final(self).consistent(),
    {
        let ko = path_key_of(old_path);
        let kn = path_key_of(new_path);
        let mut store = self.take_store();
        let data = match store.remove(ko.as_str()) {
            Some(d) => d,
            None => {
                self.put_store(store);
                proof {
                    assert(self.files() =~= old(self).files());
                }
                return Err(FSError::not_found(old_path));
            },
        };
        let mut metadata = self.take_metadata();
        let meta = match metadata.remove(ko.as_str()) {
            Some(m) => m,
            None => {
                self.put_store(store);
                self.put_metadata(metadata);
                proof {
                    assert(self.files() =~= old(self).files().remove(path_key(old_path@)));
                    assert(self.metas() =~= old(self).metas());
                }
                return Err(FSError::not_found(old_path));
            },
        };
        if store.contains_key(kn.as_str()) {
            store.insert(ko.clone(), data);
            metadata.insert(ko, meta);
            self.put_store(store);
            self.put_metadata(metadata);
            proof {
                assert(self.files() =~= old(self).files());
                assert(self.metas() =~= old(self).metas());
            }
            return Err(FSError::already_exists(new_path));
        }
        store.insert(kn.clone(), data);
        metadata.insert(kn, meta);
        self.put_store(store);
        self.put_metadata(metadata);
        proof {
            let ko = path_key(old_path@);
            let kn = path_key(new_path@);
            assert(self.files() =~= old(self).files().remove(ko).insert(kn, old(self).files()[ko]));
            assert(self.metas() =~= old(self).metas().remove(ko).insert(kn, old(self).metas()[ko]));
            if old(self).consistent() {
                assert forall|q: Seq<char>| #[trigger] self.files().contains_key(q) implies self.metas().contains_key(q) by {
                    if q != kn {
                        assert(old(self).files().contains_key(q));
                    }
                }
            }
        }
        Ok(())
    }
}

impl FileSystem for KvFS {}

} // verus!
