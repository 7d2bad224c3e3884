//! Health monitoring filesystem with heartbeat tracking.
//!
//! - `/status`: current status (`ok` or `error`)
//! - `/uptime`: seconds since the filesystem started
//! - `/beats`: number of heartbeats recorded
//! - `/last_beat`: time of the last heartbeat
//! - `/pulse`: write `beat` to record a heartbeat
use vstd::prelude::*;
use crate::error::{FSError, not_found_for, invalid_input_with};
use crate::filesystem::{ReadFS, WriteFS, DirFS, ChmodFS, FileSystem};
use crate::flags::WriteFlags;
use crate::metadata::{FileMetadata, MetaView};
use crate::path::{Comp, comps, same_path, same_text};
use crate::plugins::{read_range, read_range_spec, read_args_ok};
use crate::plugins::kvfs::{new_file_meta, new_dir_meta};
use crate::plugins::httpfs::{decimal_bytes, meta_views};
use crate::text::{owned, bytes_of, u64_to_decimal, trim_spec, trim_str, decimal};
use crate::clock::{instant_now, elapsed_secs, utc_now_rfc3339};

verus! {

/// Health status values.
#[derive(Debug, Clone, Copy, PartialEq, Eq, Structural)]
pub enum HealthStatus {
    Healthy,
    Unhealthy,
}

/// The text of a status.
pub open spec fn status_text(s: HealthStatus) -> Seq<char> {
    match s {
        HealthStatus::Healthy => "ok"@,
        HealthStatus::Unhealthy => "error"@,
    }
}

pub open spec fn file_views(v: Seq<(String, Vec<u8>)>) -> Seq<(Seq<char>, Seq<u8>)> {
    Seq::new(v.len(), |i: int| (v[i].0@, v[i].1@))
}

/// The files as the state shows them, with the given uptime.
pub open spec fn refreshed(status: HealthStatus, beats: u64, last_beat: Seq<char>, uptime: u64) -> Seq<(Seq<char>, Seq<u8>)> {
    seq![
        ("/status"@, vstd::utf8::encode_utf8(status_text(status))),
        ("/uptime"@, decimal_bytes(uptime as nat)),
        ("/beats"@, decimal_bytes(beats as nat)),
        ("/last_beat"@, vstd::utf8::encode_utf8(last_beat)),
    ]
}

/// The content of the first file whose path has the components of `path`.
pub open spec fn file_lookup(files: Seq<(Seq<char>, Seq<u8>)>, path: Seq<char>) -> Option<Seq<u8>>
    decreases files.len(),
{
    if files.len() == 0 {
        None
    } else if comps(files[0].0) == comps(path) {
        Some(files[0].1)
    } else {
        file_lookup(files.drop_first(), path)
    }
}

/// The five paths of the filesystem, by their text.
pub open spec fn valid_path(path: Seq<char>) -> bool {
    path == "/status"@ || path == "/uptime"@ || path == "/beats"@ || path == "/last_beat"@ || path == "/pulse"@
}

/// Writing `data` records a heartbeat: UTF-8 whose trimmed text is `beat`.
pub open spec fn is_beat(data: Seq<u8>) -> bool {
    vstd::utf8::valid_utf8(data) && trim_spec(vstd::utf8::decode_utf8(data)) == "beat"@
}

/// The state of the heartbeat filesystem.
pub struct HeartbeatState {
    start_time: std::time::Instant,
    beats: u64,
    last_beat: String,
    status: HealthStatus,
    files: Vec<(String, Vec<u8>)>,
}

impl HeartbeatState {
    pub closed spec fn beats_spec(&self) -> u64 {
        self.beats
    }

    pub closed spec fn status_spec(&self) -> HealthStatus {
        self.status
    }

    pub closed spec fn last_beat_spec(&self) -> Seq<char> {
        self.last_beat@
    }

    pub closed spec fn files_spec(&self) -> Seq<(Seq<char>, Seq<u8>)> {
        file_views(self.files@)
    }

    /// The files show the status, beats and last beat, with some uptime.
    pub open spec fn current(&self) -> bool {
        exists|u: u64| #[trigger] refreshed(self.status_spec(), self.beats_spec(), self.last_beat_spec(), u) == self.files_spec()
    }

    /// A fresh state: no beats, status ok, started now; the files are not filled yet.
    pub fn new() -> (r: Self)
        ensures
            r.beats_spec() == 0,
            r.status_spec() == HealthStatus::Healthy,
            r.files_spec().len() == 0,
    {
        let last = utc_now_rfc3339();
        let r = HeartbeatState { start_time: instant_now(), beats: 0, last_beat: last, status: HealthStatus::Healthy, files: Vec::new() };
        proof {
            assert(r.files_spec() =~= Seq::<(Seq<char>, Seq<u8>)>::empty());
        }
        r
    }

    /// Rebuilds the files from the state.
    pub fn refresh_files(&mut self)
        ensures
            final(self).current(),
            final(self).beats_spec() == old(self).beats_spec(),
            final(self).status_spec() == old(self).status_spec(),
            final(self).last_beat_spec() == old(self).last_beat_spec(),
    {
        proof {
            reveal_strlit("/status");
            reveal_strlit("/uptime");
            reveal_strlit("/beats");
            reveal_strlit("/last_beat");
            reveal_strlit("ok");
            reveal_strlit("error");
        }
        self.files.clear();
        let uptime = elapsed_secs(&self.start_time);
        let status: &str = match self.status {
            HealthStatus::Healthy => "ok",
            HealthStatus::Unhealthy => "error",
        };
        self.files.push((owned("/status"), bytes_of(status)));
        self.files.push((owned("/uptime"), bytes_of(u64_to_decimal(uptime).as_str())));
        self.files.push((owned("/beats"), bytes_of(u64_to_decimal(self.beats).as_str())));
        self.files.push((owned("/last_beat"), bytes_of(self.last_beat.as_str())));
        proof {
            assert(self.files_spec() =~= refreshed(self.status_spec(), self.beats_spec(), self.last_beat_spec(), uptime));
        }
    }

    /// Records a heartbeat: one more beat, now as the last beat, status ok.
    pub fn heartbeat(&mut self)
        requires
            old(self).beats_spec() < u64::MAX,
        ensures
            final(self).beats_spec() == old(self).beats_spec() + 1,
            final(self).status_spec() == HealthStatus::Healthy,
            final(self).current(),
    {
        self.beats = self.beats + 1;
        self.last_beat = utc_now_rfc3339();
        self.status = HealthStatus::Healthy;
        self.refresh_files();
    }
}

/// Health monitoring filesystem.
pub struct HeartbeatFS {
    inner: HeartbeatState,
}

/// A name with no `/` that is neither `.` nor `..` splits into itself alone.
proof fn lemma_split_plain(name: Seq<char>)
    requires
        forall|i: int| 0 <= i < name.len() ==> name[i] != '/',
    ensures
        crate::path::split_slash(name) == seq![name],
    decreases name.len(),
{
    if name.len() > 0 {
        lemma_split_plain(name.drop_last());
        assert(name.drop_last().push(name.last()) =~= name);
    } else {
        assert(name =~= Seq::<char>::empty());
    }
}

/// The components of `/name`, for a plain name: the root and the name.
proof fn lemma_root_name_comps(name: Seq<char>)
    requires
        name.len() > 1,
        name[0] != '.',
        forall|i: int| 0 <= i < name.len() ==> name[i] != '/',
    ensures
        comps(seq!['/'] + name) == seq![Comp::Root, Comp::Normal(name)],
{
    let s = seq!['/'] + name;
    assert(crate::path::body(s) =~= name);
    lemma_split_plain(name);
    let segs = seq![name];
    assert(segs.drop_last() =~= Seq::<Seq<char>>::empty());
    assert(!crate::path::is_dot(name)) by {
        if name =~= seq!['.'] {
            assert(name.len() == 1);
        }
    }
    assert(!crate::path::is_dotdot(name)) by {
        if name =~= seq!['.', '.'] {
            assert(name[0] == '.');
        }
    }
    assert(crate::path::seg_comps(segs.drop_last()) =~= Seq::<Comp>::empty());
    assert(segs.last() == name);
    assert(crate::path::significant(name));
    assert(crate::path::seg_comp(name) == Comp::Normal(name));
    assert(crate::path::seg_comps(segs) =~= seq![Comp::Normal(name)]);
    assert(comps(s) =~= seq![Comp::Root, Comp::Normal(name)]);
}

/// The number of heartbeats recorded is what `/beats` shows: reading `/beats` gives the
/// beat count in decimal (the files show the current state in every state of the
/// filesystem; `read` states it).
pub proof fn lemma_beats_file(fs: &HeartbeatFS)
    requires
        fs.state().current(),
    ensures
        file_lookup(fs.state().files_spec(), "/beats"@) == Some(decimal_bytes(fs.state().beats_spec() as nat)),
{
    let st = fs.state();
    let u = choose|u: u64| #[trigger] refreshed(st.status_spec(), st.beats_spec(), st.last_beat_spec(), u) == st.files_spec();
    let f = refreshed(st.status_spec(), st.beats_spec(), st.last_beat_spec(), u);
    reveal_strlit("/status");
    reveal_strlit("/uptime");
    reveal_strlit("/beats");
    reveal_strlit("status");
    reveal_strlit("uptime");
    reveal_strlit("beats");
    assert("/status"@ =~= seq!['/'] + "status"@);
    assert("/uptime"@ =~= seq!['/'] + "uptime"@);
    assert("/beats"@ =~= seq!['/'] + "beats"@);
    lemma_root_name_comps("status"@);
    lemma_root_name_comps("uptime"@);
    lemma_root_name_comps("beats"@);
    assert(comps("/status"@)[1] != comps("/beats"@)[1]);
    assert(comps("/uptime"@)[1] != comps("/beats"@)[1]);
    let p = "/beats"@;
    let f1 = f.drop_first();
    let f2 = f1.drop_first();
    assert(f[0].0 == "/status"@ && f1[0] == f[1] && f1[0].0 == "/uptime"@ && f2[0] == f[2] && f2[0].0 == p);
    assert(file_lookup(f2, p) == Some(decimal_bytes(st.beats_spec() as nat)));
    assert(file_lookup(f1, p) == file_lookup(f2, p));
    assert(file_lookup(f, p) == file_lookup(f1, p));
}

fn read_only<T>() -> (r: Result<T, FSError>)
    ensures
        r matches Err(e) && e is ReadOnly,
{
    Err(FSError::ReadOnly)
}

impl HeartbeatFS {
    /// The files always show the current state.
    #[verifier::type_invariant]
    spec fn inv(self) -> bool {
        self.inner.current()
    }

    /// The state.
    pub closed spec fn state(&self) -> HeartbeatState {
        self.inner
    }

    /// A fresh filesystem: no beats, status ok, files filled.
    pub fn new() -> (r: Self)
        ensures
            r.state().beats_spec() == 0,
            r.state().status_spec() == HealthStatus::Healthy,
            r.state().current(),
    {
        let mut inner = HeartbeatState::new();
        inner.refresh_files();
        HeartbeatFS { inner }
    }

    /// The number of heartbeats recorded.
    pub fn beats(&self) -> (r: u64)
        ensures
            r == self.state().beats_spec(),
    {
        self.inner.beats
    }

    /// The content of the file at `path`.
    pub fn get_entry(&self, path: &str) -> (r: Result<Vec<u8>, FSError>)
        ensures
            match file_lookup(self.state().files_spec(), path@) {
                Some(d) => r matches Ok(v) && v@ == d,
                None => r matches Err(e) && not_found_for(e, path@),
            },
    {
        let ghost fs = self.state().files_spec();
        let mut i: usize = 0;
        proof {
            assert(fs.skip(0) =~= fs);
        }
        while i < self.inner.files.len()
            invariant
                i <= self.inner.files@.len(),
                fs == file_views(self.inner.files@),
                file_lookup(fs, path@) == file_lookup(fs.skip(i as int), path@),
            decreases self.inner.files.len() - i,
        {
            proof {
                assert(fs.skip(i as int)[0] == (self.inner.files@[i as int].0@, self.inner.files@[i as int].1@));
                assert(fs.skip(i as int).drop_first() =~= fs.skip(i + 1));
            }
            if same_path(self.inner.files[i].0.as_str(), path) {
                return Ok(crate::plugins::httpfs::copy_bytes(self.inner.files[i].1.as_slice()));
            }
            i = i + 1;
        }
        proof {
            assert(fs.skip(i as int) =~= Seq::<(Seq<char>, Seq<u8>)>::empty());
        }
        Err(FSError::not_found(path))
    }

    /// Whether `path` is one of the five paths of the filesystem (by its text).
    pub fn is_valid_path(&self, path: &str) -> (r: bool)
        ensures
            r == valid_path(path@),
    {
        proof {
            reveal_strlit("/status");
            reveal_strlit("/uptime");
            reveal_strlit("/beats");
            reveal_strlit("/last_beat");
            reveal_strlit("/pulse");
        }
        same_text(path, "/status") || same_text(path, "/uptime") || same_text(path, "/beats")
            || same_text(path, "/last_beat") || same_text(path, "/pulse")
    }
}

impl Default for HeartbeatFS {
    fn default() -> (r: Self)
        ensures
            r.state().beats_spec() == 0,
            r.state().current(),
    {
        HeartbeatFS::new()
    }
}

impl ReadFS for HeartbeatFS {
    /// A read of a file must not overflow `offset + size`, nor end before the start of
    /// data it starts inside.
    open spec fn read_allowed(&self, path: Seq<char>, offset: i64, size: i64) -> bool {
        file_lookup(self.state().files_spec(), path) matches Some(d) ==> read_args_ok(offset, size, d.len())
    }

    fn read(&self, path: &str, offset: i64, size: i64) -> (r: Result<Vec<u8>, FSError>)
        ensures
            self.state().current(),
            !valid_path(path@) ==> (r matches Err(e) && not_found_for(e, path@)),
            valid_path(path@) ==> match file_lookup(self.state().files_spec(), path@) {
                Some(d) => r matches Ok(v) && v@ == read_range_spec(d, offset, size),
                None => r matches Err(e) && not_found_for(e, path@),
            },
    {
        proof {
            use_type_invariant(self);
        }
        if !self.is_valid_path(path) {
            return Err(FSError::not_found(path));
        }
        let data = self.get_entry(path)?;
        Ok(read_range(data.as_slice(), offset, size))
    }

    fn stat(&self, path: &str) -> (r: Result<FileMetadata, FSError>)
        ensures
            comps(path@) == seq![Comp::Root] ==> (r matches Ok(m) && new_dir_meta(m@, "/"@)),
            comps(path@) != seq![Comp::Root] && !valid_path(path@) ==> (r matches Err(e) && not_found_for(e, path@)),
            comps(path@) != seq![Comp::Root] && valid_path(path@) ==> match file_lookup(self.state().files_spec(), path@) {
                Some(d) => r matches Ok(m) && new_file_meta(m@, path@, d.len() as u64),
                None => r matches Err(e) && not_found_for(e, path@),
            },
    {
        proof {
            reveal_strlit("/");
        }
        if same_path(path, "/") {
            proof {
                assert(comps("/"@) == seq![Comp::Root]) by {
                    crate::plugins::heartbeatfs::lemma_root_comps();
                }
            }
            return Ok(FileMetadata::directory(owned("/")));
        }
        proof {
            lemma_root_comps();
        }
        if !self.is_valid_path(path) {
            return Err(FSError::not_found(path));
        }
        let data = self.get_entry(path)?;
        Ok(FileMetadata::file(owned(path), data.len() as u64))
    }
}

/// The components of `/` are the root alone.
proof fn lemma_root_comps()
    ensures
        comps("/"@) == seq![Comp::Root],
{
    reveal_strlit("/");
    let s = "/"@;
    assert(s.len() == 1 && s[0] == '/');
    let b = crate::path::body(s);
    assert(b =~= Seq::<char>::empty());
    assert(crate::path::split_slash(b) == seq![Seq::<char>::empty()]);
    let segs = seq![Seq::<char>::empty()];
    assert(segs.drop_last() =~= Seq::<Seq<char>>::empty());
    assert(crate::path::seg_comps(segs.drop_last()) =~= Seq::<Comp>::empty());
    assert(!crate::path::significant(segs.last()));
    assert(crate::path::seg_comps(segs) =~= Seq::<Comp>::empty());
    assert(comps(s) =~= seq![Comp::Root]);
}

impl WriteFS for HeartbeatFS {
    /// A heartbeat must not overflow the beat count.
    open spec fn write_allowed(&self, path: Seq<char>, data_len: nat, offset: i64, flags: WriteFlags) -> bool {
        self.state().beats_spec() < u64::MAX
    }

    fn create(&mut self, path: &str) -> (r: Result<(), FSError>)
        ensures
            r matches Err(e) && e is ReadOnly,
            final(self).state() == old(self).state(),
    {
        read_only()
    }

    fn write(&mut self, path: &str, data: &[u8], offset: i64, flags: WriteFlags) -> (r: Result<u64, FSError>)
        ensures
            comps(path@) != comps("/pulse"@) ==> (r matches Err(e) && e is ReadOnly) && final(self).state() == old(self).state(),
            comps(path@) == comps("/pulse"@) && offset != 0 ==> (r matches Err(e) && invalid_input_with(e, "offset must be 0"@)) && final(self).state() == old(self).state(),
            comps(path@) == comps("/pulse"@) && offset == 0 && !vstd::utf8::valid_utf8(data@) ==> (r matches Err(e) && invalid_input_with(e, "invalid UTF-8"@)) && final(self).state() == old(self).state(),
            comps(path@) == comps("/pulse"@) && offset == 0 && vstd::utf8::valid_utf8(data@) && !is_beat(data@) ==> (r matches Err(e) && invalid_input_with(e, "must write 'beat' to /pulse"@)) && final(self).state() == old(self).state(),
            comps(path@) == comps("/pulse"@) && offset == 0 && is_beat(data@) ==> r == Ok::<u64, FSError>(data@.len() as u64)
                && final(self).state().beats_spec() == old(self).state().beats_spec() + 1
                && final(self).state().status_spec() == HealthStatus::Healthy
                && final(self).state().current(),
    {
        proof {
            reveal_strlit("beat");
        }
        if !same_path(path, "/pulse") {
            return Err(FSError::ReadOnly);
        }
        if offset != 0 {
            return Err(FSError::invalid_input("offset must be 0"));
        }
        let content = match crate::text::decode_utf8(data) {
            Some(s) => s,
            None => {
                return Err(FSError::invalid_input("invalid UTF-8"));
            },
        };
        let t = trim_str(content.as_str());
        if !same_text(t.as_str(), "beat") {
            return Err(FSError::invalid_input("must write 'beat' to /pulse"));
        }
        let mut fresh = HeartbeatState::new();
        fresh.refresh_files();
        std::mem::swap(&mut fresh, &mut self.inner);
        fresh.heartbeat();
        self.inner = fresh;
        Ok(data.len() as u64)
    }
}

/// The listing of the root: the five files with fixed sizes.
pub open spec fn root_listing(v: Seq<MetaView>) -> bool {
    &&& v.len() == 5
    &&& new_file_meta(v[0], "/status"@, 2)
    &&& new_file_meta(v[1], "/uptime"@, 8)
    &&& new_file_meta(v[2], "/beats"@, 8)
    &&& new_file_meta(v[3], "/last_beat"@, 32)
    &&& new_file_meta(v[4], "/pulse"@, 0)
}

impl DirFS for HeartbeatFS {
    fn mkdir(&mut self, path: &str, perm: u32) -> (r: Result<(), FSError>)
        ensures
            r matches Err(e) && e is ReadOnly,
            final(self).state() == old(self).state(),
    {
        read_only()
    }

    fn read_dir(&self, path: &str) -> (r: Result<Vec<FileMetadata>, FSError>)
        ensures
            comps(path@) != comps("/"@) ==> (r matches Err(e) && not_found_for(e, path@)),
            comps(path@) == comps("/"@) ==> (r matches Ok(v) && root_listing(meta_views(v@))),
    {
        if !same_path(path, "/") {
            return Err(FSError::not_found(path));
        }
        let mut v: Vec<FileMetadata> = Vec::new();
        v.push(FileMetadata::file(owned("/status"), 2));
        v.push(FileMetadata::file(owned("/uptime"), 8));
        v.push(FileMetadata::file(owned("/beats"), 8));
        v.push(FileMetadata::file(owned("/last_beat"), 32));
        v.push(FileMetadata::file(owned("/pulse"), 0));
        Ok(v)
    }

    fn remove(&mut self, path: &str) -> (r: Result<(), FSError>)
        ensures
            r matches Err(e) && e is ReadOnly,
            final(self).state() == old(self).state(),
    {
        read_only()
    }

    fn remove_all(&mut self, path: &str) -> (r: Result<(), FSError>)
        ensures
            r matches Err(e) && e is ReadOnly,
            final(self).state() == old(self).state(),
    {
        read_only()
    }

    fn rename(&mut self, old_path: &str, new_path: &str) -> (r: Result<(), FSError>)
        ensures
            r matches Err(e) && e is ReadOnly,
            final(self).state() == old(self).state(),
    {
        read_only()
    }
}

impl ChmodFS for HeartbeatFS {
    fn chmod(&mut self, path: &str, mode: u32) -> (r: Result<(), FSError>)
        ensures
            r matches Err(e) && e is ReadOnly,
            final(self).state() == old(self).state(),
    {
        read_only()
    }
}

impl FileSystem for HeartbeatFS {
    fn truncate(&mut self, path: &str, size: u64) -> (r: Result<(), FSError>)
        ensures
            r matches Err(e) && e is ReadOnly,
            final(self).state() == old(self).state(),
    {
        read_only()
    }

    fn touch(&mut self, path: &str) -> (r: Result<(), FSError>)
        ensures
            r matches Err(e) && e is ReadOnly,
            final(self).state() == old(self).state(),
    {
        read_only()
    }
}

} // verus!
