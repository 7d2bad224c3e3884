//! HelloFS: a static, read-only demo filesystem.
//!
//! ```text
//! /
//! |-- hello      # Contains "Hello, World!"
//! |-- version    # Plugin version "1.0.0"
//! |-- readme.txt # Description of the plugin
//! ```
use vstd::prelude::*;
use crate::error::{FSError, not_found_for, is_dir_for};
use crate::filesystem::{ReadFS, WriteFS, DirFS, ChmodFS, FileSystem};
use crate::flags::WriteFlags;
use crate::metadata::{FileMetadata, MetaView};
use crate::path::{
    Comp, comps, components, comp_models, comps_text, key_text, path_key, path_key_of, comps_prefix,
    starts_with_path, has_prefix, same_text, push_path, push_onto,
};
use crate::plugins::{read_range, read_range_spec, read_args_ok};
use crate::plugins::httpfs::{FileEntry, EntryView, is_dir_meta, new_dir_entry, new_file_entry, meta_views, copy_bytes};
use crate::plugins::kvfs::text_prefix;
use crate::strmap::{StrMap, lookup, distinct_keys, as_map, lists_map};
use crate::text::{owned, bytes_of};

verus! {

/// The text of `/hello`.
pub open spec fn hello_text() -> Seq<char> {
    "Hello, World!"@
}

/// The text of `/version`.
pub open spec fn version_text() -> Seq<char> {
    "1.0.0"@
}

/// The text of `/readme.txt`.
pub open spec fn readme_text() -> Seq<char> {
    "HelloFS - A simple static read-only demo filesystem for RACFS.\n\nThis plugin demonstrates a minimal filesystem implementation with fixed content.\nAll write operations will fail with a ReadOnly error.\n"@
}

/// The components of what a listing of `prefix` keeps of `key` (the components after the
/// prefix's, or all of them when the prefix's are no prefix of the key's).
pub open spec fn hello_rel(prefix: Seq<char>, key: Seq<char>) -> Seq<Comp> {
    if prefix.len() > 0 && comps_prefix(comps(prefix), comps(key)) {
        comps(key).skip(comps(prefix).len() as int)
    } else {
        comps(key)
    }
}

/// The text of what a listing of `prefix` keeps of `key`.
pub open spec fn hello_rel_text(prefix: Seq<char>, key: Seq<char>) -> Seq<char> {
    if prefix.len() > 0 && comps_prefix(comps(prefix), comps(key)) {
        key_text(comps(key).skip(comps(prefix).len() as int))
    } else {
        key
    }
}

/// `key` is listed in a listing of `prefix`: its text starts with the prefix and is not
/// it, what is kept of it is not the root, and it is one name (possibly after the root).
pub open spec fn hello_member(prefix: Seq<char>, key: Seq<char>) -> bool {
    let rel = hello_rel(prefix, key);
    &&& text_prefix(key, prefix)
    &&& key != prefix
    &&& hello_rel_text(prefix, key) != "/"@
    &&& (rel.len() == 1 || (rel.len() == 2 && rel[0] == Comp::Root))
}

/// The path a listed entry gets: what is kept of its key, made absolute.
pub open spec fn hello_listed_path(prefix: Seq<char>, key: Seq<char>) -> Seq<char> {
    let t = hello_rel_text(prefix, key);
    if t.len() > 0 && t[0] == '/' {
        t
    } else {
        push_path("/"@, t)
    }
}

/// The listing of `prefix` over `entries`, in order.
pub open spec fn hello_listing(entries: Seq<(Seq<char>, EntryView)>, prefix: Seq<char>) -> Seq<MetaView>
    decreases entries.len(),
{
    if entries.len() == 0 {
        Seq::empty()
    } else {
        let rest = hello_listing(entries.drop_last(), prefix);
        let e = entries.last();
        if hello_member(prefix, e.0) {
            rest.push(MetaView { path: hello_listed_path(prefix, e.0), ..e.1.meta })
        } else {
            rest
        }
    }
}

/// What a listing of `prefix` shows of the entry `e` under `key`.
pub open spec fn hello_shown(prefix: Seq<char>, key: Seq<char>, e: EntryView) -> MetaView {
    MetaView { path: hello_listed_path(prefix, key), ..e.meta }
}

/// The keys (in order) of the entries that a listing of `prefix` shows.
pub open spec fn hello_keys(entries: Seq<(Seq<char>, EntryView)>, prefix: Seq<char>) -> Seq<Seq<char>>
    decreases entries.len(),
{
    if entries.len() == 0 {
        Seq::empty()
    } else {
        let rest = hello_keys(entries.drop_last(), prefix);
        if hello_member(prefix, entries.last().0) {
            rest.push(entries.last().0)
        } else {
            rest
        }
    }
}

/// `v` is a listing of `prefix` over `m` under the keys `ks`: one listed entry per key,
/// each key once, every member of the listing listed.
pub open spec fn hello_listed_by(ks: Seq<Seq<char>>, v: Seq<MetaView>, m: Map<Seq<char>, EntryView>, prefix: Seq<char>) -> bool {
    &&& ks.len() == v.len()
    &&& ks.no_duplicates()
    &&& forall|i: int| 0 <= i < ks.len() ==> m.contains_key(#[trigger] ks[i]) && hello_member(prefix, ks[i]) && v[i] == hello_shown(prefix, ks[i], m[ks[i]])
    &&& forall|k: Seq<char>| #[trigger] m.contains_key(k) && hello_member(prefix, k) ==> ks.contains(k)
}

/// `v` shows exactly the members of a listing of `prefix` over `m`, each once.
pub open spec fn hello_shows(v: Seq<MetaView>, m: Map<Seq<char>, EntryView>, prefix: Seq<char>) -> bool {
    exists|ks: Seq<Seq<char>>| #[trigger] hello_listed_by(ks, v, m, prefix)
}

proof fn lemma_hello_keys(l: Seq<(Seq<char>, EntryView)>, prefix: Seq<char>)
    requires
        distinct_keys(l),
    ensures
        hello_listed_by(hello_keys(l, prefix), hello_listing(l, prefix), as_map(l), prefix),
    decreases l.len(),
{
    let ks = hello_keys(l, prefix);
    let v = hello_listing(l, prefix);
    let m = as_map(l);
    if l.len() > 0 {
        let l0 = l.drop_last();
        let x = l.last();
        let n = l.len() - 1;
        assert(distinct_keys(l0)) by {
            assert forall|i: int, j: int| 0 <= i < l0.len() && 0 <= j < l0.len() && i != j implies l0[i].0 != l0[j].0 by {
                assert(l0[i] == l[i] && l0[j] == l[j]);
            }
        }
        lemma_hello_keys(l0, prefix);
        let ks0 = hello_keys(l0, prefix);
        let v0 = hello_listing(l0, prefix);
        let m0 = as_map(l0);
        assert forall|k: Seq<char>| #[trigger] m0.contains_key(k) implies k != x.0 && lookup(l, k) == lookup(l0, k) by {
            crate::strmap::lemma_lookup_some(l0, k);
            let j = choose|j: int| 0 <= j < l0.len() && l0[j].0 == k && l0[j].1 == lookup(l0, k)->0;
            assert(l[j] == l0[j]);
            assert(l[n] == x);
        }
        assert forall|k: Seq<char>| #[trigger] m.contains_key(k) && k != x.0 implies m0.contains_key(k) && m[k] == m0[k] by {}
        assert(m.contains_key(x.0) && m[x.0] == x.1);
        if hello_member(prefix, x.0) {
            assert(ks == ks0.push(x.0));
            assert(v == v0.push(hello_shown(prefix, x.0, x.1)));
            assert forall|i: int| 0 <= i < ks.len() implies m.contains_key(#[trigger] ks[i]) && hello_member(prefix, ks[i]) && v[i] == hello_shown(prefix, ks[i], m[ks[i]]) by {
                if i < ks0.len() {
                    assert(ks[i] == ks0[i] && v[i] == v0[i]);
                    assert(m0.contains_key(ks0[i]));
                }
            }
            assert forall|k: Seq<char>| #[trigger] m.contains_key(k) && hello_member(prefix, k) implies ks.contains(k) by {
                if k == x.0 {
                    assert(ks[ks.len() - 1] == k);
                } else {
                    assert(ks0.contains(k));
                    let i = choose|i: int| 0 <= i < ks0.len() && ks0[i] == k;
                    assert(ks[i] == k);
                }
            }
            assert(ks.no_duplicates()) by {
                assert forall|i: int, j: int| 0 <= i < ks.len() && 0 <= j < ks.len() && i != j implies ks[i] != ks[j] by {
                    if i < ks0.len() && j < ks0.len() {
                        assert(ks[i] == ks0[i] && ks[j] == ks0[j]);
                    } else if i < ks0.len() {
                        assert(ks[i] == ks0[i]);
                        assert(m0.contains_key(ks0[i]));
                    } else if j < ks0.len() {
                        assert(ks[j] == ks0[j]);
                        assert(m0.contains_key(ks0[j]));
                    }
                }
            }
        } else {
            assert(ks == ks0);
            assert(v == v0);
            assert forall|i: int| 0 <= i < ks.len() implies m.contains_key(#[trigger] ks[i]) && hello_member(prefix, ks[i]) && v[i] == hello_shown(prefix, ks[i], m[ks[i]]) by {
                assert(m0.contains_key(ks0[i]));
            }
            assert forall|k: Seq<char>| #[trigger] m.contains_key(k) && hello_member(prefix, k) implies ks.contains(k) by {
                assert(k != x.0);
                assert(m0.contains_key(k));
            }
        }
    } else {
        assert forall|k: Seq<char>| #[trigger] m.contains_key(k) && hello_member(prefix, k) implies ks.contains(k) by {
            assert(lookup(l, k) is None);
        }
    }
}

/// Listing a directory shows what it holds: over a listing order that holds each entry
/// once and, read as a map, is the entries, a listing of `prefix` shows exactly its
/// members, each once.
pub proof fn lemma_hello_listing_shows(l: Seq<(Seq<char>, EntryView)>, m: Map<Seq<char>, EntryView>, prefix: Seq<char>)
    requires
        lists_map(l, m),
    ensures
        hello_shows(hello_listing(l, prefix), m, prefix),
{
    lemma_hello_keys(l, prefix);
    assert(hello_listed_by(hello_keys(l, prefix), hello_listing(l, prefix), m, prefix));
}

proof fn lemma_listing_is_entries(fs: &HelloFS)
    requires
        fs.files.wf(),
    ensures
        lists_map(fs.listing(), fs.entries()),
{
    let p = fs.files.pairs();
    let g = |e: (Seq<char>, FileEntry)| (e.0, e.1@);
    let l = fs.listing();
    assert(l == p.map_values(g));
    assert(distinct_keys(l)) by {
        assert forall|i: int, j: int| 0 <= i < l.len() && 0 <= j < l.len() && i != j implies l[i].0 != l[j].0 by {
            assert(l[i].0 == p[i].0 && l[j].0 == p[j].0);
        }
    }
    assert forall|k: Seq<char>| #[trigger] as_map(l).contains_key(k) == fs.entries().contains_key(k) && (as_map(l).contains_key(k) ==> as_map(l)[k] == fs.entries()[k]) by {
        crate::strmap::lemma_lookup_mapped(p, g, k);
    }
    assert(as_map(l) =~= fs.entries());
}

/// The static demo filesystem.
pub struct HelloFS {
    files: StrMap<FileEntry>,
}

fn read_only<T>() -> (r: Result<T, FSError>)
    ensures
        r matches Err(e) && e is ReadOnly,
{
    Err(FSError::ReadOnly)
}

impl HelloFS {
    #[verifier::type_invariant]
    spec fn inv(self) -> bool {
        self.files.wf()
    }

    /// The entries by key.
    pub closed spec fn entries(&self) -> Map<Seq<char>, EntryView> {
        self.files.map().map_values(|e: FileEntry| e@)
    }

    /// The entries in listing order.
    pub closed spec fn listing(&self) -> Seq<(Seq<char>, EntryView)> {
        self.files.pairs().map_values(|e: (Seq<char>, FileEntry)| (e.0, e.1@))
    }

    /// The root directory and the three files.
    pub fn new() -> (r: Self)
        ensures
            r.entries().dom() == set!["/"@, "/hello"@, "/version"@, "/readme.txt"@],
            new_dir_entry(r.entries()["/"@], "/"@),
            new_file_entry(r.entries()["/hello"@], "/hello"@, vstd::utf8::encode_utf8(hello_text()), vstd::utf8::encode_utf8(hello_text()).len() as u64),
            new_file_entry(r.entries()["/version"@], "/version"@, vstd::utf8::encode_utf8(version_text()), vstd::utf8::encode_utf8(version_text()).len() as u64),
            new_file_entry(r.entries()["/readme.txt"@], "/readme.txt"@, vstd::utf8::encode_utf8(readme_text()), vstd::utf8::encode_utf8(readme_text()).len() as u64),
            r.listing() == seq![
                ("/"@, r.entries()["/"@]),
                ("/hello"@, r.entries()["/hello"@]),
                ("/version"@, r.entries()["/version"@]),
                ("/readme.txt"@, r.entries()["/readme.txt"@]),
            ],
    {
        proof {
            reveal_strlit("/");
            reveal_strlit("/hello");
            reveal_strlit("/version");
            reveal_strlit("/readme.txt");
        }
        let mut files: StrMap<FileEntry> = StrMap::new();
        files.insert(owned("/"), FileEntry { data: Vec::new(), metadata: FileMetadata::directory(owned("/")) });
        let hello = bytes_of("Hello, World!");
        let n = hello.len() as u64;
        files.insert(owned("/hello"), FileEntry { data: hello, metadata: FileMetadata::file(owned("/hello"), n) });
        let version = bytes_of("1.0.0");
        let n = version.len() as u64;
        files.insert(owned("/version"), FileEntry { data: version, metadata: FileMetadata::file(owned("/version"), n) });
        let readme = bytes_of("HelloFS - A simple static read-only demo filesystem for RACFS.\n\nThis plugin demonstrates a minimal filesystem implementation with fixed content.\nAll write operations will fail with a ReadOnly error.\n");
        let n = readme.len() as u64;
        files.insert(owned("/readme.txt"), FileEntry { data: readme, metadata: FileMetadata::file(owned("/readme.txt"), n) });
        let r = HelloFS { files };
        proof {
            assert("/"@.len() == 1 && "/hello"@.len() == 6 && "/version"@.len() == 8 && "/readme.txt"@.len() == 11);
            assert(r.entries().dom() =~= set!["/"@, "/hello"@, "/version"@, "/readme.txt"@]);
            lemma_listing_is_entries(&r);
            let l = r.listing();
            assert(l.len() == 4);
            assert(l[0].0 == "/"@ && l[1].0 == "/hello"@ && l[2].0 == "/version"@ && l[3].0 == "/readme.txt"@);
            crate::strmap::lemma_lookup_at(l, 0);
            crate::strmap::lemma_lookup_at(l, 1);
            crate::strmap::lemma_lookup_at(l, 2);
            crate::strmap::lemma_lookup_at(l, 3);
            assert(l =~= seq![
                ("/"@, r.entries()["/"@]),
                ("/hello"@, r.entries()["/hello"@]),
                ("/version"@, r.entries()["/version"@]),
                ("/readme.txt"@, r.entries()["/readme.txt"@]),
            ]);
        }
        r
    }

    fn entry_ref(&self, path: &str) -> (r: Option<&FileEntry>)
        ensures
            r is Some <==> self.entries().contains_key(path_key(path@)),
            r matches Some(e) ==> e@ == self.entries()[path_key(path@)],
    {
        proof {
            use_type_invariant(self);
        }
        let key = path_key_of(path);
        self.files.get(key.as_str())
    }

    /// A copy of the entry at `path`.
    pub fn get_entry(&self, path: &str) -> (r: Result<FileEntry, FSError>)
        ensures
            self.entries().contains_key(path_key(path@)) ==> (r matches Ok(e) && e@ == self.entries()[path_key(path@)]),
            !self.entries().contains_key(path_key(path@)) ==> (r matches Err(e) && not_found_for(e, path@)),
    {
        match self.entry_ref(path) {
            Some(e) => Ok(e.clone()),
            None => Err(FSError::not_found(path)),
        }
    }
}

impl Default for HelloFS {
    fn default() -> (r: Self)
        ensures
            r.entries().dom() == set!["/"@, "/hello"@, "/version"@, "/readme.txt"@],
    {
        HelloFS::new()
    }
}

impl ReadFS for HelloFS {
    /// A read of a file must not overflow `offset + size`, nor end before the start of
    /// data it starts inside.
    open spec fn read_allowed(&self, path: Seq<char>, offset: i64, size: i64) -> bool {
        self.entries().contains_key(path_key(path)) && !is_dir_meta(self.entries()[path_key(path)].meta) ==> read_args_ok(
            offset,
            size,
            self.entries()[path_key(path)].data.len(),
        )
    }

    fn read(&self, path: &str, offset: i64, size: i64) -> (r: Result<Vec<u8>, FSError>)
        ensures
            !self.entries().contains_key(path_key(path@)) ==> (r matches Err(e) && not_found_for(e, path@)),
            self.entries().contains_key(path_key(path@)) && is_dir_meta(self.entries()[path_key(path@)].meta) ==> (r matches Err(e) && is_dir_for(e, path@)),
            self.entries().contains_key(path_key(path@)) && !is_dir_meta(self.entries()[path_key(path@)].meta) ==> (r matches Ok(v) && v@ == read_range_spec(self.entries()[path_key(path@)].data, offset, size)),
    {
        match self.entry_ref(path) {
            None => Err(FSError::not_found(path)),
            Some(e) => {
                if e.metadata.is_directory() {
                    Err(FSError::is_directory(path))
                } else {
                    Ok(read_range(e.data.as_slice(), offset, size))
                }
            },
        }
    }

    fn stat(&self, path: &str) -> (r: Result<FileMetadata, FSError>)
        ensures
            self.entries().contains_key(path_key(path@)) ==> (r matches Ok(m) && m@ == self.entries()[path_key(path@)].meta),
            !self.entries().contains_key(path_key(path@)) ==> (r matches Err(e) && not_found_for(e, path@)),
    {
        match self.entry_ref(path) {
            None => Err(FSError::not_found(path)),
            Some(e) => Ok(e.metadata.clone()),
        }
    }
}

impl WriteFS for HelloFS {
    open spec fn write_allowed(&self, path: Seq<char>, data_len: nat, offset: i64, flags: WriteFlags) -> bool {
        true
    }

    fn create(&mut self, path: &str) -> (r: Result<(), FSError>)
        ensures
            r matches Err(e) && e is ReadOnly,
            final(self).entries() == old(self).entries(),
    {
        read_only()
    }

    fn write(&mut self, path: &str, data: &[u8], offset: i64, flags: WriteFlags) -> (r: Result<u64, FSError>)
        ensures
            r matches Err(e) && e is ReadOnly,
            final(self).entries() == old(self).entries(),
    {
        read_only()
    }
}

/// Whether `key` is listed in a listing of `prefix`, and the path it is listed under.
fn hello_member_exec(prefix: &str, key: &str) -> (r: Option<String>)
    ensures
        match r {
            Some(p) => hello_member(prefix@, key@) && p@ == hello_listed_path(prefix@, key@),
            None => !hello_member(prefix@, key@),
        },
{
    proof {
        reveal_strlit("/");
    }
    if !has_prefix(key, prefix) || same_text(key, prefix) {
        return None;
    }
    let kc = components(key);
    let stripped = !prefix.is_empty() && starts_with_path(key, prefix);
    let (rel_text, from) = if stripped {
        let n = components(prefix).len();
        (comps_text(&kc, n), n)
    } else {
        (owned(key), 0)
    };
    proof {
        if !stripped {
            assert(comp_models(kc@).skip(0) =~= comp_models(kc@));
        }
        assert(hello_rel(prefix@, key@) == comp_models(kc@).skip(from as int));
    }
    if same_text(rel_text.as_str(), "/") {
        return None;
    }
    let count = kc.len() - from;
    let ok = if count == 1 {
        true
    } else if count == 2 {
        match &kc[from] {
            crate::path::Component::RootDir => true,
            _ => false,
        }
    } else {
        false
    };
    proof {
        if count == 2 {
            assert(hello_rel(prefix@, key@)[0] == kc@[from as int].model());
        }
    }
    if !ok {
        return None;
    }
    let chars = crate::text::chars_of(rel_text.as_str());
    if chars.len() > 0 && chars[0] == '/' {
        Some(rel_text)
    } else {
        let mut p = owned("/");
        push_onto(&mut p, rel_text.as_str());
        Some(p)
    }
}

impl DirFS for HelloFS {
    fn mkdir(&mut self, path: &str, perm: u32) -> (r: Result<(), FSError>)
        ensures
            r matches Err(e) && e is ReadOnly,
            final(self).entries() == old(self).entries(),
    {
        read_only()
    }

    fn read_dir(&self, path: &str) -> (r: Result<Vec<FileMetadata>, FSError>)
        ensures
            r matches Ok(v) && meta_views(v@) == hello_listing(self.listing(), if path@ == "/"@ {
                Seq::<char>::empty()
            } else {
                path@
            }),
            lists_map(self.listing(), self.entries()),
            r matches Ok(v) && hello_shows(meta_views(v@), self.entries(), if path@ == "/"@ {
                Seq::<char>::empty()
            } else {
                path@
            }),
    {
        proof {
            use_type_invariant(self);
            reveal_strlit("/");
            lemma_listing_is_entries(self);
            lemma_hello_listing_shows(self.listing(), self.entries(), if path@ == "/"@ {
                Seq::<char>::empty()
            } else {
                path@
            });
        }
        let prefix: String = if same_text(path, "/") {
            String::new()
        } else {
            owned(path)
        };
        let ghost entries = self.listing();
        let mut out: Vec<FileMetadata> = Vec::new();
        let n = self.files.len();
        let mut i: usize = 0;
        proof {
            assert(entries.subrange(0, 0) =~= Seq::<(Seq<char>, EntryView)>::empty());
            assert(meta_views(out@) =~= Seq::<MetaView>::empty());
        }
        while i < n
            invariant
                i <= n,
                n == self.files.pairs().len(),
                entries == self.listing(),
                entries.len() == n,
                meta_views(out@) == hello_listing(entries.subrange(0, i as int), prefix@),
            decreases n - i,
        {
            let (k, e) = self.files.entry_at(i);
            proof {
                let t = entries.subrange(0, i + 1);
                assert(t.drop_last() =~= entries.subrange(0, i as int));
                assert(t.last() == (k@, e@));
            }
            match hello_member_exec(prefix.as_str(), k.as_str()) {
                Some(p) => {
                    let mut m = e.metadata.clone();
                    m.path = p;
                    let ghost before = meta_views(out@);
                    out.push(m);
                    proof {
                        assert(meta_views(out@) =~= before.push(MetaView { path: hello_listed_path(prefix@, k@), ..e@.meta }));
                    }
                },
                None => {},
            }
            i = i + 1;
        }
        proof {
            assert(entries.subrange(0, n as int) =~= entries);
        }
        Ok(out)
    }

    fn remove(&mut self, path: &str) -> (r: Result<(), FSError>)
        ensures
            r matches Err(e) && e is ReadOnly,
            final(self).entries() == old(self).entries(),
    {
        read_only()
    }

    fn remove_all(&mut self, path: &str) -> (r: Result<(), FSError>)
        ensures
            r matches Err(e) && e is ReadOnly,
            final(self).entries() == old(self).entries(),
    {
        read_only()
    }

    fn rename(&mut self, old_path: &str, new_path: &str) -> (r: Result<(), FSError>)
        ensures
            r matches Err(e) && e is ReadOnly,
            final(self).entries() == old(self).entries(),
    {
        read_only()
    }
}

impl ChmodFS for HelloFS {
    fn chmod(&mut self, path: &str, mode: u32) -> (r: Result<(), FSError>)
        ensures
            r matches Err(e) && e is ReadOnly,
            final(self).entries() == old(self).entries(),
    {
        read_only()
    }
}

impl FileSystem for HelloFS {
    fn touch(&mut self, path: &str) -> (r: Result<(), FSError>)
        ensures
            r matches Err(e) && e is ReadOnly,
            final(self).entries() == old(self).entries(),
    {
        read_only()
    }
}

} // verus!
