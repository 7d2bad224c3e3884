//! Device filesystem: virtual device files `/dev/null`, `/dev/zero`, `/dev/random` and
//! `/dev/urandom`.
use vstd::prelude::*;
use crate::error::{FSError, not_found_for, not_dir_for, not_supported_msg};
use crate::filesystem::{ReadFS, WriteFS, DirFS, ChmodFS, FileSystem};
use crate::flags::WriteFlags;
use crate::metadata::{FileMetadata, MetaView, S_IFCHR};
use crate::path::{Comp, comps, components, path_key, path_key_of};
use crate::strmap::StrMap;
use crate::text::owned;
use crate::clock::system_time_nanos;

verus! {

/// Virtual device types.
#[derive(Debug, Clone, Copy, PartialEq, Eq, Structural)]
pub enum DeviceType {
    /// `/dev/null`: discards all writes, returns EOF on read.
    Null,
    /// `/dev/zero`: returns zeros on read.
    Zero,
    /// `/dev/random`: returns pseudo-random bytes.
    Random,
    /// `/dev/urandom`: returns pseudo-random bytes.
    URandom,
}

/// One step of the linear congruential generator: `seed * 1103515245 + 12345`, wrapping.
pub open spec fn lcg_next(seed: u64) -> u64 {
    let m = ((seed as nat * 1103515245nat) % 0x1_0000_0000_0000_0000nat) as u64;
    if m + 12345 > u64::MAX {
        (m + 12345 - 0x1_0000_0000_0000_0000) as u64
    } else {
        (m + 12345) as u64
    }
}

/// `n` generator bytes from `seed`: each step's state, shifted right by 16, truncated.
pub open spec fn lcg_bytes(seed: u64, n: nat) -> Seq<u8>
    decreases n,
{
    if n == 0 {
        Seq::empty()
    } else {
        seq![(lcg_next(seed) >> 16u64) as u8] + lcg_bytes(lcg_next(seed), (n - 1) as nat)
    }
}

/// `n` generator bytes from `seed` (see [`lcg_bytes`]).
pub fn lcg_fill(seed: u64, n: usize) -> (r: Vec<u8>)
    ensures
        r@ == lcg_bytes(seed, n as nat),
{
    let mut out: Vec<u8> = Vec::new();
    let mut s = seed;
    let mut i: usize = 0;
    while i < n
        invariant
            i <= n,
            out@ + lcg_bytes(s, (n - i) as nat) == lcg_bytes(seed, n as nat),
        decreases n - i,
    {
        let next = s.wrapping_mul(1103515245).wrapping_add(12345);
        proof {
            assert(next == lcg_next(s));
        }
        let b = (next >> 16u64) as u8;
        let ghost before = out@;
        out.push(b);
        proof {
            assert(lcg_bytes(s, (n - i) as nat) == seq![b] + lcg_bytes(next, (n - i - 1) as nat));
            assert(out@ + lcg_bytes(next, (n - i - 1) as nat) =~= before + lcg_bytes(s, (n - i) as nat));
        }
        s = next;
        i = i + 1;
    }
    proof {
        assert(out@ + lcg_bytes(s, 0) =~= out@);
    }
    out
}

/// `n` zero bytes.
pub open spec fn zeros(n: nat) -> Seq<u8> {
    Seq::new(n, |i: int| 0u8)
}

/// `n` zero bytes.
pub fn zero_fill(n: usize) -> (r: Vec<u8>)
    ensures
        r@ == zeros(n as nat),
{
    let mut v: Vec<u8> = Vec::new();
    let mut i: usize = 0;
    while i < n
        invariant
            i <= n,
            v@ == zeros(i as nat),
        decreases n - i,
    {
        v.push(0u8);
        i = i + 1;
        proof {
            assert(v@ =~= zeros(i as nat));
        }
    }
    v
}

/// How many bytes a device read returns: `size`, or 4096 when it is negative.
pub open spec fn device_read_len(size: i64) -> nat {
    if size < 0 {
        4096
    } else {
        size as nat
    }
}

/// The metadata of a device file at `path`: a character device, mode 0666, size 0.
pub open spec fn device_meta(path: Seq<char>) -> MetaView {
    MetaView {
        path,
        size: 0,
        mode: S_IFCHR | 0o666,
        created: None,
        modified: None,
        accessed: None,
        is_symlink: false,
        symlink_target: None,
    }
}

/// The metadata of the devices, in order.
pub open spec fn device_metas(devices: Seq<(Seq<char>, DeviceType)>) -> Seq<MetaView> {
    Seq::new(devices.len(), |i: int| device_meta(devices[i].0))
}

pub open spec fn meta_views(v: Seq<FileMetadata>) -> Seq<MetaView> {
    Seq::new(v.len(), |i: int| v[i]@)
}

/// `path` names the root (or is empty).
pub open spec fn is_root_or_empty(path: Seq<char>) -> bool {
    comps(path) == seq![Comp::Root] || comps(path).len() == 0
}

/// Device filesystem.
pub struct DevFS {
    devices: StrMap<DeviceType>,
}

fn not_supported<T>(message: &str) -> (r: Result<T, FSError>)
    ensures
        r matches Err(e) && not_supported_msg(e, message@),
{
    Err(FSError::not_supported(message))
}

impl DevFS {
    #[verifier::type_invariant]
    spec fn inv(self) -> bool {
        self.devices.wf()
    }

    /// The devices by key.
    pub closed spec fn devices(&self) -> Map<Seq<char>, DeviceType> {
        self.devices.map()
    }

    /// The devices in listing order.
    pub closed spec fn device_list(&self) -> Seq<(Seq<char>, DeviceType)> {
        self.devices.pairs()
    }

    /// A device filesystem with the four default devices.
    pub fn new() -> (r: Self)
        ensures
            r.devices() == Map::<Seq<char>, DeviceType>::empty().insert(path_key("/dev/null"@), DeviceType::Null).insert(
                path_key("/dev/zero"@),
                DeviceType::Zero,
            ).insert(path_key("/dev/random"@), DeviceType::Random).insert(path_key("/dev/urandom"@), DeviceType::URandom),
    {
        let mut fs = DevFS { devices: StrMap::new() };
        proof {
            assert(fs.devices() =~= Map::<Seq<char>, DeviceType>::empty());
        }
        let _ = fs.register_device("/dev/null", DeviceType::Null);
        let _ = fs.register_device("/dev/zero", DeviceType::Zero);
        let _ = fs.register_device("/dev/random", DeviceType::Random);
        let _ = fs.register_device("/dev/urandom", DeviceType::URandom);
        fs
    }

    /// Register (or replace) the device at `path`.
    pub fn register_device(&mut self, path: &str, device_type: DeviceType) -> (r: Result<(), FSError>)
        ensures
            r is Ok,
            final(self).devices() == old(self).devices().insert(path_key(path@), device_type),
    {
        proof {
            use_type_invariant(&*self);
        }
        let key = path_key_of(path);
        let mut d: StrMap<DeviceType> = StrMap::new();
        std::mem::swap(&mut d, &mut self.devices);
        d.insert(key, device_type);
        self.devices = d;
        Ok(())
    }

    /// The device at `path`.
    pub fn get_device(&self, path: &str) -> (r: Option<DeviceType>)
        ensures
            r == self.devices().get(path_key(path@)),
    {
        proof {
            use_type_invariant(self);
        }
        let key = path_key_of(path);
        match self.devices.get(key.as_str()) {
            Some(t) => Some(*t),
            None => None,
        }
    }

    /// The metadata of the device file at `path`.
    pub fn create_device_metadata(path: &str, device_type: DeviceType) -> (r: FileMetadata)
        ensures
            r@ == device_meta(path@),
    {
        let mut metadata = FileMetadata::new(owned(path), S_IFCHR | 0o666);
        metadata.size = 0;
        metadata
    }
}

impl Default for DevFS {
    fn default() -> (r: Self)
        ensures
            r.devices() == Map::<Seq<char>, DeviceType>::empty().insert(path_key("/dev/null"@), DeviceType::Null).insert(
                path_key("/dev/zero"@),
                DeviceType::Zero,
            ).insert(path_key("/dev/random"@), DeviceType::Random).insert(path_key("/dev/urandom"@), DeviceType::URandom),
    {
        DevFS::new()
    }
}

impl ReadFS for DevFS {
    /// The number of bytes read must fit in memory.
    open spec fn read_allowed(&self, path: Seq<char>, offset: i64, size: i64) -> bool {
        size <= usize::MAX
    }

    fn read(&self, path: &str, offset: i64, size: i64) -> (r: Result<Vec<u8>, FSError>)
        ensures
            match self.devices().get(path_key(path@)) {
                None => r matches Err(e) && not_found_for(e, path@),
                Some(DeviceType::Null) => r matches Ok(v) && v@.len() == 0,
                Some(DeviceType::Zero) => r matches Ok(v) && v@ == zeros(device_read_len(size)),
                Some(_) => r matches Ok(v) && exists|seed: u64| v@ == lcg_bytes(seed, device_read_len(size)),
            },
    {
        let device_type = match self.get_device(path) {
            Some(t) => t,
            None => {
                return Err(FSError::not_found(path));
            },
        };
        let n: usize = if size < 0 {
            4096
        } else {
            size as usize
        };
        match device_type {
            DeviceType::Null => Ok(Vec::new()),
            DeviceType::Zero => Ok(zero_fill(n)),
            DeviceType::Random | DeviceType::URandom => {
                let seed = system_time_nanos();
                let v = lcg_fill(seed, n);
                proof {
                    assert(v@ == lcg_bytes(seed, device_read_len(size)));
                }
                Ok(v)
            },
        }
    }

    fn stat(&self, path: &str) -> (r: Result<FileMetadata, FSError>)
        ensures
            self.devices().contains_key(path_key(path@)) ==> (r matches Ok(m) && m@ == device_meta(path@)),
            !self.devices().contains_key(path_key(path@)) ==> (r matches Err(e) && not_found_for(e, path@)),
    {
        match self.get_device(path) {
            Some(t) => Ok(DevFS::create_device_metadata(path, t)),
            None => Err(FSError::not_found(path)),
        }
    }
}

impl WriteFS for DevFS {
    open spec fn write_allowed(&self, path: Seq<char>, data_len: nat, offset: i64, flags: WriteFlags) -> bool {
        true
    }

    fn create(&mut self, path: &str) -> (r: Result<(), FSError>)
        ensures
            r matches Err(e) && not_supported_msg(e, "cannot create device files manually"@),
            final(self).devices() == old(self).devices(),
    {
        not_supported("cannot create device files manually")
    }

    fn write(&mut self, path: &str, data: &[u8], offset: i64, flags: WriteFlags) -> (r: Result<u64, FSError>)
        ensures
            old(self).devices().contains_key(path_key(path@)) ==> r == Ok::<u64, FSError>(data@.len() as u64),
            !old(self).devices().contains_key(path_key(path@)) ==> (r matches Err(e) && not_found_for(e, path@)),
            final(self).devices() == old(self).devices(),
    {
        match self.get_device(path) {
            Some(_) => Ok(data.len() as u64),
            None => Err(FSError::not_found(path)),
        }
    }
}

impl DirFS for DevFS {
    fn mkdir(&mut self, path: &str, perm: u32) -> (r: Result<(), FSError>)
        ensures
            r matches Err(e) && not_supported_msg(e, "cannot create directories in devfs"@),
            final(self).devices() == old(self).devices(),
    {
        not_supported("cannot create directories in devfs")
    }

    fn read_dir(&self, path: &str) -> (r: Result<Vec<FileMetadata>, FSError>)
        ensures
            !is_root_or_empty(path@) ==> (r matches Err(e) && not_dir_for(e, path@)),
            is_root_or_empty(path@) ==> (r matches Ok(v) && meta_views(v@) == device_metas(self.device_list())),
    {
        proof {
            use_type_invariant(self);
        }
        let cs = components(path);
        let root = if cs.len() == 0 {
            true
        } else if cs.len() == 1 {
            match &cs[0] {
                crate::path::Component::RootDir => true,
                _ => false,
            }
        } else {
            false
        };
        proof {
            if cs.len() == 1 {
                assert(comps(path@)[0] == cs@[0].model());
                if root {
                    assert(comps(path@) =~= seq![Comp::Root]);
                }
            }
        }
        if !root {
            return Err(FSError::not_a_directory(path));
        }
        let mut out: Vec<FileMetadata> = Vec::new();
        let n = self.devices.len();
        let mut i: usize = 0;
        while i < n
            invariant
                i <= n,
                n == self.devices.pairs().len(),
                meta_views(out@) == device_metas(self.device_list()).subrange(0, i as int),
            decreases n - i,
        {
            let (k, t) = self.devices.entry_at(i);
            let m = DevFS::create_device_metadata(k.as_str(), *t);
            let ghost before = meta_views(out@);
            out.push(m);
            proof {
                assert(device_metas(self.device_list())[i as int] == device_meta(k@));
                assert(meta_views(out@) =~= before.push(m@));
                assert(device_metas(self.device_list()).subrange(0, i + 1) =~= device_metas(self.device_list()).subrange(0, i as int).push(device_meta(k@)));
            }
            i = i + 1;
        }
        proof {
            assert(device_metas(self.device_list()).subrange(0, i as int) =~= device_metas(self.device_list()));
        }
        Ok(out)
    }

    fn remove(&mut self, path: &str) -> (r: Result<(), FSError>)
        ensures
            old(self).devices().contains_key(path_key(path@)) ==> r is Ok && final(self).devices() == old(self).devices().remove(path_key(path@)),
            !old(self).devices().contains_key(path_key(path@)) ==> (r matches Err(e) && not_found_for(e, path@)) && final(self).devices() == old(self).devices(),
    {
        proof {
            use_type_invariant(&*self);
        }
        let key = path_key_of(path);
        let mut d: StrMap<DeviceType> = StrMap::new();
        std::mem::swap(&mut d, &mut self.devices);
        let removed = d.remove(key.as_str());
        self.devices = d;
        match removed {
            Some(_) => Ok(()),
            None => Err(FSError::not_found(path)),
        }
    }

    fn remove_all(&mut self, path: &str) -> (r: Result<(), FSError>)
        ensures
            old(self).devices().contains_key(path_key(path@)) ==> r is Ok && final(self).devices() == old(self).devices().remove(path_key(path@)),
            !old(self).devices().contains_key(path_key(path@)) ==> (r matches Err(e) && not_found_for(e, path@)) && final(self).devices() == old(self).devices(),
    {
        self.remove(path)
    }

    fn rename(&mut self, old_path: &str, new_path: &str) -> (r: Result<(), FSError>)
        ensures
            r matches Err(e) && not_supported_msg(e, "cannot rename device files"@),
            final(self).devices() == old(self).devices(),
    {
        not_supported("cannot rename device files")
    }
}

impl ChmodFS for DevFS {
    fn chmod(&mut self, path: &str, mode: u32) -> (r: Result<(), FSError>)
        ensures
            old(self).devices().contains_key(path_key(path@)) ==> r is Ok,
            !old(self).devices().contains_key(path_key(path@)) ==> (r matches Err(e) && not_found_for(e, path@)),
            final(self).devices() == old(self).devices(),
    {
        match self.get_device(path) {
            Some(_) => Ok(()),
            None => Err(FSError::not_found(path)),
        }
    }
}

impl FileSystem for DevFS {}

} // verus!
