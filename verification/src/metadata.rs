//! File metadata types.
use vstd::prelude::*;
use crate::clock::{format_utc_minutes, utc_minute_text, utc_now_millis};
use crate::error::FSError;
use crate::text::{decimal, owned, u64_to_decimal};

verus! {

/// File type mask.
pub const S_IFMT: u32 = 0o170000;

/// File type constants.
pub const S_IFIFO: u32 = 0o010000;
pub const S_IFCHR: u32 = 0o020000;
pub const S_IFDIR: u32 = 0o040000;
pub const S_IFBLK: u32 = 0o060000;
pub const S_IFREG: u32 = 0o100000;
pub const S_IFLNK: u32 = 0o120000;
pub const S_IFSOCK: u32 = 0o140000;

/// Permission constants.
pub const S_IRWXU: u32 = 0o700;
pub const S_IRUSR: u32 = 0o400;
pub const S_IWUSR: u32 = 0o200;
pub const S_IXUSR: u32 = 0o100;
pub const S_IRWXG: u32 = 0o070;
pub const S_IRGRP: u32 = 0o040;
pub const S_IWGRP: u32 = 0o020;
pub const S_IXGRP: u32 = 0o010;
pub const S_IRWXO: u32 = 0o007;
pub const S_IROTH: u32 = 0o004;
pub const S_IWOTH: u32 = 0o002;
pub const S_IXOTH: u32 = 0o001;

/// Mode of a regular file created by [`FileMetadata::file`]: `rw-r--r--`.
pub open spec fn file_mode_spec() -> u32 {
    S_IFREG | S_IRUSR | S_IWUSR | S_IRGRP | S_IROTH
}

/// Mode of a directory created by [`FileMetadata::directory`]: `rwxr-xr-x`.
pub open spec fn dir_mode_spec() -> u32 {
    S_IFDIR | S_IRWXU | S_IRGRP | S_IXGRP | S_IROTH | S_IXOTH
}

/// Mode of a symlink created by [`FileMetadata::symlink`].
pub open spec fn symlink_mode_spec() -> u32 {
    S_IFLNK | S_IRWXU | S_IRGRP | S_IXGRP | S_IROTH | S_IXOTH
}

/// Metadata for a file or directory. Times are milliseconds since the Unix epoch (UTC).
#[derive(Debug, PartialEq)]
pub struct FileMetadata {
    /// Full path to the file.
    pub path: String,
    /// Size in bytes.
    pub size: u64,
    /// File mode (permissions + file type).
    pub mode: u32,
    /// Creation time.
    pub created: Option<i64>,
    /// Last modification time.
    pub modified: Option<i64>,
    /// Last access time.
    pub accessed: Option<i64>,
    /// Whether this is a symbolic link.
    pub is_symlink: bool,
    /// If this is a symlink, the target.
    pub symlink_target: Option<String>,
}

/// The mathematical value of [`FileMetadata`].
pub struct MetaView {
    pub path: Seq<char>,
    pub size: u64,
    pub mode: u32,
    pub created: Option<i64>,
    pub modified: Option<i64>,
    pub accessed: Option<i64>,
    pub is_symlink: bool,
    pub symlink_target: Option<Seq<char>>,
}

pub open spec fn opt_view(o: Option<String>) -> Option<Seq<char>> {
    match o {
        Some(s) => Some(s@),
        None => None,
    }
}

impl View for FileMetadata {
    type V = MetaView;

    open spec fn view(&self) -> MetaView {
        MetaView {
            path: self.path@,
            size: self.size,
            mode: self.mode,
            created: self.created,
            modified: self.modified,
            accessed: self.accessed,
            is_symlink: self.is_symlink,
            symlink_target: opt_view(self.symlink_target),
        }
    }
}

impl Clone for FileMetadata {
    fn clone(&self) -> (r: Self)
        ensures
            r@ == self@,
    {
        let target = match &self.symlink_target {
            Some(t) => Some(t.clone()),
            None => None,
        };
        FileMetadata {
            path: self.path.clone(),
            size: self.size,
            mode: self.mode,
            created: self.created,
            modified: self.modified,
            accessed: self.accessed,
            is_symlink: self.is_symlink,
            symlink_target: target,
        }
    }
}

/// The name of the file type that the type bits of `mode` stand for.
pub open spec fn file_type_name(mode: u32) -> Seq<char> {
    let t = mode & S_IFMT;
    if t == S_IFREG {
        "file"@
    } else if t == S_IFDIR {
        "directory"@
    } else if t == S_IFLNK {
        "symlink"@
    } else if t == S_IFCHR {
        "character device"@
    } else if t == S_IFBLK {
        "block device"@
    } else if t == S_IFIFO {
        "FIFO"@
    } else if t == S_IFSOCK {
        "socket"@
    } else {
        "unknown"@
    }
}

impl FileMetadata {
    /// Create new file metadata: size 0, no times, not a symlink.
    pub fn new(path: String, mode: u32) -> (r: Self)
        ensures
            r@ == (MetaView {
                path: path@,
                size: 0,
                mode,
                created: None,
                modified: None,
                accessed: None,
                is_symlink: false,
                symlink_target: None,
            }),
    {
        FileMetadata {
            path,
            size: 0,
            mode,
            created: None,
            modified: None,
            accessed: None,
            is_symlink: false,
            symlink_target: None,
        }
    }

    /// Create metadata for a regular file, stamped with the current time.
    pub fn file(path: String, size: u64) -> (r: Self)
        ensures
            r.path@ == path@,
            r.size == size,
            r.mode == file_mode_spec(),
            r.created is Some && r.modified is Some && r.accessed is Some,
            !r.is_symlink,
            r.symlink_target is None,
    {
        FileMetadata {
            path,
            size,
            mode: S_IFREG | S_IRUSR | S_IWUSR | S_IRGRP | S_IROTH,
            created: Some(utc_now_millis()),
            modified: Some(utc_now_millis()),
            accessed: Some(utc_now_millis()),
            is_symlink: false,
            symlink_target: None,
        }
    }

    /// Create metadata for a directory, stamped with the current time.
    pub fn directory(path: String) -> (r: Self)
        ensures
            r.path@ == path@,
            r.size == 0,
            r.mode == dir_mode_spec(),
            r.created is Some && r.modified is Some && r.accessed is Some,
            !r.is_symlink,
            r.symlink_target is None,
    {
        FileMetadata {
            path,
            size: 0,
            mode: S_IFDIR | S_IRWXU | S_IRGRP | S_IXGRP | S_IROTH | S_IXOTH,
            created: Some(utc_now_millis()),
            modified: Some(utc_now_millis()),
            accessed: Some(utc_now_millis()),
            is_symlink: false,
            symlink_target: None,
        }
    }

    /// Create metadata for a symlink; its size is the byte length of the target.
    pub fn symlink(path: String, target: String) -> (r: Self)
        ensures
            r.path@ == path@,
            r.size == (vstd::utf8::encode_utf8(target@).len() as usize) as u64,
            r.mode == symlink_mode_spec(),
            r.created is Some && r.modified is Some && r.accessed is Some,
            r.is_symlink,
            opt_view(r.symlink_target) == Some(target@),
    {
        let ts = target.as_str();
        let n = ts.len();
        proof {
            assert(ts@ == target@);
        }
        let size = n as u64;
        FileMetadata {
            path,
            size,
            mode: S_IFLNK | S_IRWXU | S_IRGRP | S_IXGRP | S_IROTH | S_IXOTH,
            created: Some(utc_now_millis()),
            modified: Some(utc_now_millis()),
            accessed: Some(utc_now_millis()),
            is_symlink: true,
            symlink_target: Some(target),
        }
    }

    /// Check if this is a regular file.
    pub fn is_file(&self) -> (r: bool)
        ensures
            r == (self.mode & S_IFMT == S_IFREG),
    {
        (self.mode & S_IFMT) == S_IFREG
    }

    /// Check if this is a directory.
    pub fn is_directory(&self) -> (r: bool)
        ensures
            r == (self.mode & S_IFMT == S_IFDIR),
    {
        (self.mode & S_IFMT) == S_IFDIR
    }

    /// Check if this is a symlink: flagged as one, or of symlink type.
    pub fn is_symlink(&self) -> (r: bool)
        ensures
            r == (self.is_symlink || self.mode & S_IFMT == S_IFLNK),
    {
        self.is_symlink || (self.mode & S_IFMT) == S_IFLNK
    }

    /// Get directory mode constant.
    pub fn dir_mode() -> (r: u32)
        ensures
            r == dir_mode_spec(),
    {
        S_IFDIR | S_IRWXU | S_IRGRP | S_IXGRP | S_IROTH | S_IXOTH
    }

    /// Get file mode constant.
    pub fn file_mode() -> (r: u32)
        ensures
            r == file_mode_spec(),
    {
        S_IFREG | S_IRUSR | S_IWUSR | S_IRGRP | S_IROTH
    }

    /// Get the permission bits (excluding file type).
    pub fn permissions(&self) -> (r: u32)
        ensures
            r == self.mode & 0o777,
    {
        self.mode & 0o777
    }

    /// Set the permission bits, keeping the file type.
    pub fn set_permissions(&mut self, mode: u32)
        ensures
            final(self).mode == (old(self).mode & S_IFMT) | (mode & 0o777),
            final(self).path == old(self).path,
            final(self).size == old(self).size,
            final(self).created == old(self).created,
            final(self).modified == old(self).modified,
            final(self).accessed == old(self).accessed,
            final(self).is_symlink == old(self).is_symlink,
            final(self).symlink_target == old(self).symlink_target,
    {
        self.mode = (self.mode & S_IFMT) | (mode & 0o777);
    }

    /// Get the file type as a string.
    pub fn file_type(&self) -> (r: &'static str)
        ensures
            r@ == file_type_name(self.mode),
    {
        let t = self.mode & S_IFMT;
        if t == S_IFREG {
            "file"
        } else if t == S_IFDIR {
            "directory"
        } else if t == S_IFLNK {
            "symlink"
        } else if t == S_IFCHR {
            "character device"
        } else if t == S_IFBLK {
            "block device"
        } else if t == S_IFIFO {
            "FIFO"
        } else if t == S_IFSOCK {
            "socket"
        } else {
            "unknown"
        }
    }

    /// What `Display` shows: type name, permission bits and size in decimal, the
    /// modification time to the minute (or `unknown`), and the path, separated by spaces.
    pub open spec fn display_text(&self) -> Seq<char> {
        let when = match self.modified {
            Some(ms) => match utc_minute_text(ms) {
                Some(t) => t,
                None => "unknown"@,
            },
            None => "unknown"@,
        };
        file_type_name(self.mode) + " "@ + decimal((self.mode & 0o777) as nat) + " "@ + decimal(
            self.size as nat,
        ) + " "@ + when + " "@ + self.path@
    }

    /// The text that `Display` shows.
    pub fn to_display_string(&self) -> (r: String)
        ensures
            r@ == self.display_text(),
    {
        let when = match self.modified {
            Some(ms) => match format_utc_minutes(ms) {
                Some(t) => t,
                None => owned("unknown"),
            },
            None => owned("unknown"),
        };
        let mut out = owned(self.file_type());
        out.append(" ");
        let perms = u64_to_decimal((self.mode & 0o777) as u64);
        out.append(perms.as_str());
        out.append(" ");
        let size = u64_to_decimal(self.size);
        out.append(size.as_str());
        out.append(" ");
        out.append(when.as_str());
        out.append(" ");
        out.append(self.path.as_str());
        out
    }
}

/// Trait for systems that can provide file metadata.
pub trait MetadataProvider {
    fn metadata(&self, path: &str) -> Result<FileMetadata, FSError>;
}

/// Setting permission bits keeps the type bits and makes the permission bits exactly
/// the low nine bits of the requested mode.
pub proof fn lemma_set_permissions(mode: u32, requested: u32)
    ensures
        ((mode & S_IFMT) | (requested & 0o777)) & S_IFMT == mode & S_IFMT,
        ((mode & S_IFMT) | (requested & 0o777)) & 0o777 == requested & 0o777,
{
    assert(((mode & 0o170000) | (requested & 0o777)) & 0o170000 == mode & 0o170000)
        by (bit_vector);
    assert(((mode & 0o170000) | (requested & 0o777)) & 0o777 == requested & 0o777)
        by (bit_vector);
}

} // verus!
