//! The filesystem traits that every backend implements.
//!
//! A backend implements [`ReadFS`], [`WriteFS`], [`DirFS`] and [`ChmodFS`]; [`FileSystem`]
//! then adds truncate, touch, symlinks and extended attributes, which by default answer
//! that the operation is not supported. Paths are Unix path strings.
use vstd::prelude::*;
use crate::error::FSError;
use crate::file_handle::{FileHandle, HandleId};
use crate::flags::{OpenFlags, WriteFlags};
use crate::metadata::FileMetadata;

verus! {

/// The error that a default method answers with: not supported, with `message`.
pub open spec fn not_supported_with<T>(r: Result<T, FSError>, message: Seq<char>) -> bool {
    match r {
        Err(FSError::NotSupported { message: m }) => m@ == message,
        _ => false,
    }
}

/// Read operations.
pub trait ReadFS {
    /// The reads that this backend can serve without running out of its arithmetic
    /// (each backend says which).
    spec fn read_allowed(&self, path: Seq<char>, offset: i64, size: i64) -> bool;

    /// Read `size` bytes from `offset` (a negative size reads to the end).
    fn read(&self, path: &str, offset: i64, size: i64) -> (r: Result<Vec<u8>, FSError>)
        requires
            self.read_allowed(path@, offset, size),
    ;

    /// The metadata of `path`.
    fn stat(&self, path: &str) -> Result<FileMetadata, FSError>;
}

/// Write operations.
pub trait WriteFS {
    /// The writes that this backend can perform: offsets it can reach and lengths that
    /// fit in memory (each backend says which).
    spec fn write_allowed(&self, path: Seq<char>, data_len: nat, offset: i64, flags: WriteFlags) -> bool;

    /// Create an empty file.
    fn create(&mut self, path: &str) -> Result<(), FSError>;

    /// Write `data` at `offset` (or at the end, with the append flag); returns the number
    /// of bytes written.
    fn write(&mut self, path: &str, data: &[u8], offset: i64, flags: WriteFlags) -> (r: Result<
        u64,
        FSError,
    >)
        requires
            old(self).write_allowed(path@, data@.len(), offset, flags),
    ;
}

/// Directory operations.
pub trait DirFS {
    /// Create a directory.
    fn mkdir(&mut self, path: &str, perm: u32) -> Result<(), FSError>;

    /// The entries directly inside `path`.
    fn read_dir(&self, path: &str) -> Result<Vec<FileMetadata>, FSError>;

    /// Remove a file or an empty directory.
    fn remove(&mut self, path: &str) -> Result<(), FSError>;

    /// Remove `path` and everything below it.
    fn remove_all(&mut self, path: &str) -> Result<(), FSError>;

    /// Move `old_path` to `new_path`.
    fn rename(&mut self, old_path: &str, new_path: &str) -> Result<(), FSError>;
}

/// Permission changes.
pub trait ChmodFS {
    /// Set the permission bits of `path` to `mode`.
    fn chmod(&mut self, path: &str, mode: u32) -> Result<(), FSError>;
}

/// The full filesystem interface. Its own operations answer "not supported" unless a
/// backend provides them.
pub trait FileSystem: ReadFS + WriteFS + DirFS + ChmodFS {
    /// Truncate a file to `size` bytes.
    fn truncate(&mut self, path: &str, size: u64) -> (r: Result<(), FSError>)
        default_ensures
            not_supported_with(r, "truncate not implemented"@),
    {
        Err(FSError::not_supported("truncate not implemented"))
    }

    /// Update the access and modification times of a file.
    fn touch(&mut self, path: &str) -> (r: Result<(), FSError>)
        default_ensures
            not_supported_with(r, "touch not implemented"@),
    {
        Err(FSError::not_supported("touch not implemented"))
    }

    /// The target of a symbolic link.
    fn readlink(&self, path: &str) -> (r: Result<String, FSError>)
        default_ensures
            not_supported_with(r, "readlink not implemented"@),
    {
        Err(FSError::not_supported("readlink not implemented"))
    }

    /// Create a symbolic link at `link` pointing to `target`.
    fn symlink(&mut self, target: &str, link: &str) -> (r: Result<(), FSError>)
        default_ensures
            not_supported_with(r, "symlink not implemented"@),
    {
        Err(FSError::not_supported("symlink not implemented"))
    }

    /// The value of an extended attribute.
    fn get_xattr(&self, path: &str, name: &str) -> (r: Result<Vec<u8>, FSError>)
        default_ensures
            not_supported_with(r, "get_xattr not implemented"@),
    {
        Err(FSError::not_supported("get_xattr not implemented"))
    }

    /// Set an extended attribute.
    fn set_xattr(&mut self, path: &str, name: &str, value: &[u8]) -> (r: Result<(), FSError>)
        default_ensures
            not_supported_with(r, "set_xattr not implemented"@),
    {
        Err(FSError::not_supported("set_xattr not implemented"))
    }

    /// Remove an extended attribute.
    fn remove_xattr(&mut self, path: &str, name: &str) -> (r: Result<(), FSError>)
        default_ensures
            not_supported_with(r, "remove_xattr not implemented"@),
    {
        Err(FSError::not_supported("remove_xattr not implemented"))
    }

    /// The names of the extended attributes of `path`.
    fn list_xattr(&self, path: &str) -> (r: Result<Vec<String>, FSError>)
        default_ensures
            not_supported_with(r, "list_xattr not implemented"@),
    {
        Err(FSError::not_supported("list_xattr not implemented"))
    }
}

/// Filesystems that hand out file handles.
pub trait HandleFS: FileSystem {
    /// Open `path` with `flags`.
    fn open(&mut self, path: &str, flags: OpenFlags) -> Result<FileHandle, FSError>;

    /// Close the handle with `handle_id`.
    fn close(&mut self, handle_id: &HandleId) -> Result<(), FSError>;
}

/// Filesystems with symbolic links.
pub trait Symlinker: FileSystem {
    /// Create a symbolic link at `link` pointing to `target`.
    fn symlink(&mut self, target: &str, link: &str) -> Result<(), FSError>;

    /// The target of a symbolic link.
    fn readlink(&self, path: &str) -> Result<String, FSError>;
}

/// Filesystems that can update file times.
pub trait Toucher: FileSystem {
    /// Update the access and modification times of a file.
    fn touch(&mut self, path: &str) -> Result<(), FSError>;
}

/// Filesystems with extended attributes.
pub trait XattrFS: FileSystem {
    /// The value of an extended attribute.
    fn get_xattr(&self, path: &str, name: &str) -> Result<Vec<u8>, FSError>;

    /// Set an extended attribute.
    fn set_xattr(&mut self, path: &str, name: &str, value: &[u8]) -> Result<(), FSError>;

    /// Remove an extended attribute.
    fn remove_xattr(&mut self, path: &str, name: &str) -> Result<(), FSError>;

    /// The names of the extended attributes of `path`.
    fn list_xattr(&self, path: &str) -> Result<Vec<String>, FSError>;
}

/// Filesystems with hard links.
pub trait Linker: FileSystem {
    /// Create a hard link at `link` to `target`.
    fn link(&mut self, target: &str, link: &str) -> Result<(), FSError>;
}

/// Filesystems that resolve paths to absolute paths.
pub trait RealPathFS: FileSystem {
    /// The absolute, resolved form of `path`.
    fn realpath(&self, path: &str) -> Result<String, FSError>;
}

} // verus!
