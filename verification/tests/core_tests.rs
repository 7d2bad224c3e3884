use racfs::cache::{Cache, CacheStats, FoyerCache, HashMapCache};
use racfs::compression::{Compression, CompressionLevel, ZstdCompression};
use racfs::error::{FSError, IoErrorKind};
use racfs::file_handle::{FileHandle, HandleId};
use racfs::filesystem::FileSystem;
use racfs::flags::{OpenFlags, WriteFlags};
use racfs::metadata::{
    FileMetadata, S_IFBLK, S_IFCHR, S_IFDIR, S_IFIFO, S_IFLNK, S_IFMT, S_IFREG, S_IFSOCK,
    S_IRGRP, S_IRUSR, S_IRWXU, S_IWUSR, S_IXUSR,
};
use racfs::path::{filename, join, normalize_path, parent};
use racfs::plugins::devfs::DevFS;

fn of(bits: u32) -> OpenFlags {
    OpenFlags::from_bits_retain(bits)
}

fn wf(bits: u32) -> WriteFlags {
    WriteFlags::from_bits_retain(bits)
}

// ----- errors -----

#[test]
fn test_not_found_error() {
    let error = FSError::NotFound { path: "/nonexistent".to_string() };
    assert!(matches!(error, FSError::NotFound { .. }));
    assert!(error.to_display_string().contains("not found"));
}

#[test]
fn test_already_exists_error() {
    let error = FSError::AlreadyExists { path: "/existing".to_string() };
    assert!(matches!(error, FSError::AlreadyExists { .. }));
    assert!(error.to_display_string().contains("already exists"));
}

#[test]
fn test_permission_denied_error() {
    let error = FSError::PermissionDenied { path: "/denied".to_string() };
    assert!(matches!(error, FSError::PermissionDenied { .. }));
    assert!(error.to_display_string().contains("permission denied"));
}

#[test]
fn test_is_directory_error() {
    let error = FSError::IsDirectory { path: "/dir".to_string() };
    assert!(matches!(error, FSError::IsDirectory { .. }));
    assert!(error.to_display_string().contains("is a directory"));
}

#[test]
fn test_not_a_directory_error() {
    let error = FSError::NotADirectory { path: "/file".to_string() };
    assert!(matches!(error, FSError::NotADirectory { .. }));
    assert!(error.to_display_string().contains("not a directory"));
}

#[test]
fn test_invalid_input_error() {
    let error = FSError::InvalidInput { message: "invalid argument".to_string() };
    assert!(matches!(error, FSError::InvalidInput { .. }));
    assert!(error.to_display_string().contains("invalid input"));
}

#[test]
fn test_io_error() {
    let error = FSError::Io { message: "I/O error occurred".to_string() };
    assert!(matches!(error, FSError::Io { .. }));
    assert!(error.to_display_string().contains("I/O error"));
}

#[test]
fn test_not_supported_error() {
    let error = FSError::NotSupported { message: "operation not supported".to_string() };
    assert!(matches!(error, FSError::NotSupported { .. }));
    assert!(error.to_display_string().contains("not supported"));
}

#[test]
fn test_already_in_use_error() {
    let error = FSError::AlreadyInUse { handle_id: "handle123".to_string() };
    assert!(matches!(error, FSError::AlreadyInUse { .. }));
    assert!(error.to_display_string().contains("already in use"));
}

#[test]
fn test_invalid_handle_error() {
    let error = FSError::InvalidHandle { handle_id: "invalid_handle".to_string() };
    assert!(matches!(error, FSError::InvalidHandle { .. }));
    assert!(error.to_display_string().contains("invalid handle"));
}

#[test]
fn test_out_of_memory_error() {
    let error = FSError::OutOfMemory;
    assert!(matches!(error, FSError::OutOfMemory));
    assert!(error.to_display_string().contains("out of memory"));
}

#[test]
fn test_path_too_long_error() {
    let error = FSError::PathTooLong;
    assert!(matches!(error, FSError::PathTooLong));
    assert!(error.to_display_string().contains("path too long"));
}

#[test]
fn test_filename_too_long_error() {
    let error = FSError::FilenameTooLong;
    assert!(matches!(error, FSError::FilenameTooLong));
    assert!(error.to_display_string().contains("filename too long"));
}

#[test]
fn test_read_only_error() {
    let error = FSError::ReadOnly;
    assert!(matches!(error, FSError::ReadOnly));
    assert!(error.to_display_string().contains("read-only"));
}

#[test]
fn test_storage_full_error() {
    let error = FSError::StorageFull;
    assert!(matches!(error, FSError::StorageFull));
    assert!(error.to_display_string().contains("storage full"));
}

#[test]
fn test_too_many_open_files_error() {
    let error = FSError::TooManyOpenFiles;
    assert!(matches!(error, FSError::TooManyOpenFiles));
    assert!(error.to_display_string().contains("too many open files"));
}

#[test]
fn test_directory_not_empty_error() {
    let error = FSError::DirectoryNotEmpty;
    assert!(matches!(error, FSError::DirectoryNotEmpty));
    assert!(error.to_display_string().contains("directory not empty"));
}

#[test]
fn test_cross_device_link_error() {
    let error = FSError::CrossDeviceLink;
    assert!(matches!(error, FSError::CrossDeviceLink));
    assert!(error.to_display_string().contains("cross-device"));
}

#[test]
fn test_invalid_utf8_error() {
    let error = FSError::InvalidUtf8 { message: "invalid UTF-8".to_string() };
    assert!(matches!(error, FSError::InvalidUtf8 { .. }));
    assert!(error.to_display_string().contains("invalid UTF-8"));
}

#[test]
fn test_timeout_error() {
    let error = FSError::Timeout;
    assert!(matches!(error, FSError::Timeout));
    assert!(error.to_display_string().contains("timeout"));
}

#[test]
fn test_from_io_not_found() {
    let io_err = std::io::Error::new(std::io::ErrorKind::NotFound, "file not found");
    let fs_error = FSError::from_io_error(io_err);
    assert!(matches!(fs_error, FSError::NotFound { .. }));
}

#[test]
fn test_from_io_permission_denied() {
    let io_err = std::io::Error::new(std::io::ErrorKind::PermissionDenied, "access denied");
    let fs_error = FSError::from_io_error(io_err);
    assert!(matches!(fs_error, FSError::PermissionDenied { .. }));
}

#[test]
fn test_from_io_already_exists() {
    let io_err = std::io::Error::new(std::io::ErrorKind::AlreadyExists, "file exists");
    let fs_error = FSError::from_io_error(io_err);
    assert!(matches!(fs_error, FSError::AlreadyExists { .. }));
}

#[test]
fn test_from_io_is_directory() {
    let io_err = std::io::Error::new(std::io::ErrorKind::IsADirectory, "is a directory");
    let fs_error = FSError::from_io_error(io_err);
    assert!(matches!(fs_error, FSError::IsDirectory { .. }));
}

#[test]
fn test_from_io_not_a_directory() {
    let io_err = std::io::Error::new(std::io::ErrorKind::NotADirectory, "not a directory");
    let fs_error = FSError::from_io_error(io_err);
    assert!(matches!(fs_error, FSError::NotADirectory { .. }));
}

#[test]
fn test_from_io_invalid_input() {
    let io_err = std::io::Error::new(std::io::ErrorKind::InvalidInput, "invalid input");
    let fs_error = FSError::from_io_error(io_err);
    assert!(matches!(fs_error, FSError::InvalidInput { .. }));
}

#[test]
fn test_from_io_out_of_memory() {
    let io_err = std::io::Error::new(std::io::ErrorKind::OutOfMemory, "out of memory");
    let fs_error = FSError::from_io_error(io_err);
    assert!(matches!(fs_error, FSError::OutOfMemory));
}

#[test]
fn test_from_io_directory_not_empty() {
    let io_err = std::io::Error::new(std::io::ErrorKind::DirectoryNotEmpty, "not empty");
    let fs_error = FSError::from_io_error(io_err);
    assert!(matches!(fs_error, FSError::DirectoryNotEmpty));
}

#[test]
fn test_from_io_read_only() {
    let io_err = std::io::Error::new(std::io::ErrorKind::ReadOnlyFilesystem, "read only");
    let fs_error = FSError::from_io_error(io_err);
    assert!(matches!(fs_error, FSError::ReadOnly));
}

#[test]
fn test_from_io_storage_full() {
    let io_err = std::io::Error::new(std::io::ErrorKind::StorageFull, "no space left");
    let fs_error = FSError::from_io_error(io_err);
    assert!(matches!(fs_error, FSError::StorageFull));
}

#[test]
fn test_from_io_unsupported() {
    let io_err = std::io::Error::new(std::io::ErrorKind::Unsupported, "unsupported");
    let fs_error = FSError::from_io_error(io_err);
    assert!(matches!(fs_error, FSError::NotSupported { .. }));
}

#[test]
fn test_from_io_file_too_large() {
    let io_err = std::io::Error::new(std::io::ErrorKind::FileTooLarge, "file too large");
    let fs_error = FSError::from_io_error(io_err);
    assert!(matches!(fs_error, FSError::InvalidInput { .. }));
    assert!(fs_error.to_display_string().to_lowercase().contains("large"));
}

#[test]
fn test_from_io_falls_back_to_io_error() {
    let io_err = std::io::Error::other("other error");
    let fs_error = FSError::from_io_error(io_err);
    assert!(matches!(fs_error, FSError::Io { .. }));
}

#[test]
fn test_from_utf8_error() {
    let invalid = b"\xff\xfe".to_vec();
    let utf8_err = String::from_utf8(invalid).unwrap_err();
    let fs_error = FSError::from_utf8_error(utf8_err);
    assert!(matches!(fs_error, FSError::InvalidUtf8 { .. }));
    assert!(fs_error.to_display_string().to_lowercase().contains("utf"));
}

#[test]
fn from_io_parts_keeps_the_message() {
    let e = FSError::from_io_parts(IoErrorKind::Other, "disk on fire".to_string());
    assert_eq!(e.to_display_string(), "I/O error: disk on fire");
    let e = FSError::from_io_parts(IoErrorKind::FileTooLarge, "ignored".to_string());
    assert_eq!(e.to_display_string(), "invalid input: file too large");
    let e = FSError::from_io_parts(IoErrorKind::NotFound, "x".to_string());
    assert_eq!(e.to_display_string(), "path not found: ");
}

#[test]
fn error_display_texts_are_exact() {
    assert_eq!(FSError::not_found("/a").to_display_string(), "path not found: /a");
    assert_eq!(FSError::already_exists("/a").to_display_string(), "path already exists: /a");
    assert_eq!(FSError::is_directory("/d").to_display_string(), "path is a directory: /d");
    assert_eq!(FSError::not_a_directory("/f").to_display_string(), "path is not a directory: /f");
    assert_eq!(FSError::permission_denied("/p").to_display_string(), "permission denied: /p");
    assert_eq!(FSError::not_supported("x").to_display_string(), "operation not supported: x");
    assert_eq!(FSError::invalid_input("bad").to_display_string(), "invalid input: bad");
    assert_eq!(FSError::io("oops").to_display_string(), "I/O error: oops");
    assert_eq!(FSError::ReadOnly.to_display_string(), "read-only filesystem");
}

// ----- path utilities -----

#[test]
fn normalize_path_removes_dot() {
    assert_eq!(normalize_path("/a/./b"), "/a/b");
}

#[test]
fn normalize_path_removes_dotdot() {
    assert_eq!(normalize_path("/a/b/../c"), "/a/c");
}

#[test]
fn parent_returns_parent() {
    assert_eq!(parent("/a/b"), Some("/a".to_string()));
}

#[test]
fn filename_returns_last_component() {
    assert_eq!(filename("/a/b.txt"), Some("b.txt".to_string()));
}

#[test]
fn is_absolute() {
    assert!(racfs::path::is_absolute("/foo"));
    assert!(!racfs::path::is_absolute("foo"));
}

#[test]
fn is_relative() {
    assert!(racfs::path::is_relative("foo"));
    assert!(!racfs::path::is_relative("/foo"));
}

#[test]
fn join_components() {
    assert_eq!(join("/base", &["a", "b"]), "/base/a/b");
}

#[test]
fn normalize_path_root() {
    assert_eq!(normalize_path("/"), "/");
}

#[test]
fn normalize_path_empty_relative() {
    assert_eq!(normalize_path("."), "");
}

#[test]
fn parent_of_root_is_none() {
    assert_eq!(parent("/"), None);
}

#[test]
fn join_empty_parts() {
    assert_eq!(join("/base", &[]), "/base");
}

#[test]
fn path_helpers_on_edge_cases() {
    assert_eq!(normalize_path("a/../../b"), "b");
    assert_eq!(normalize_path("/.."), "/");
    assert_eq!(normalize_path("//a//b/"), "/a/b");
    assert_eq!(parent("a"), Some("".to_string()));
    assert_eq!(filename("/"), None);
    assert_eq!(filename("/a/.."), None);
    assert_eq!(join("/base", &["/abs", "x"]), "/abs/x");
    assert!(racfs::path::is_absolute("/"));
    assert!(racfs::path::is_relative(""));
}

#[test]
fn normalizing_twice_changes_nothing() {
    for p in ["/a/./b/../c//d/", "a/../../b", "./x/.", "/..", "", "//", "x/y/z"] {
        let once = normalize_path(p);
        assert_eq!(normalize_path(&once), once);
    }
}

// ----- default filesystem operations -----

#[test]
fn default_truncate_returns_not_supported() {
    let mut fs = DevFS::new();
    let err = fs.truncate("/f", 0).unwrap_err();
    assert!(matches!(err, FSError::NotSupported { .. }));
    assert!(err.to_display_string().contains("truncate"));
}

#[test]
fn default_touch_returns_not_supported() {
    let mut fs = DevFS::new();
    let err = fs.touch("/f").unwrap_err();
    assert!(matches!(err, FSError::NotSupported { .. }));
    assert!(err.to_display_string().contains("touch"));
}

#[test]
fn default_readlink_returns_not_supported() {
    let fs = DevFS::new();
    let err = fs.readlink("/link").unwrap_err();
    assert!(matches!(err, FSError::NotSupported { .. }));
    assert!(err.to_display_string().contains("readlink"));
}

#[test]
fn default_symlink_returns_not_supported() {
    let mut fs = DevFS::new();
    let err = FileSystem::symlink(&mut fs, "/t", "/link").unwrap_err();
    assert!(matches!(err, FSError::NotSupported { .. }));
    assert!(err.to_display_string().contains("symlink"));
}

#[test]
fn default_get_xattr_returns_not_supported() {
    let fs = DevFS::new();
    let err = fs.get_xattr("/f", "user.x").unwrap_err();
    assert!(matches!(err, FSError::NotSupported { .. }));
    assert!(err.to_display_string().contains("get_xattr"));
}

#[test]
fn default_set_xattr_returns_not_supported() {
    let mut fs = DevFS::new();
    let err = fs.set_xattr("/f", "user.x", b"v").unwrap_err();
    assert!(matches!(err, FSError::NotSupported { .. }));
    assert!(err.to_display_string().contains("set_xattr"));
}

#[test]
fn default_remove_xattr_returns_not_supported() {
    let mut fs = DevFS::new();
    let err = fs.remove_xattr("/f", "user.x").unwrap_err();
    assert!(matches!(err, FSError::NotSupported { .. }));
    assert!(err.to_display_string().contains("remove_xattr"));
}

#[test]
fn default_list_xattr_returns_not_supported() {
    let fs = DevFS::new();
    let err = fs.list_xattr("/f").unwrap_err();
    assert!(matches!(err, FSError::NotSupported { .. }));
    assert!(err.to_display_string().contains("list_xattr"));
}

// ----- flags -----

#[test]
fn open_flags_helpers() {
    assert!(OpenFlags::read().contains(of(OpenFlags::READ)));
    assert!(OpenFlags::write().contains(of(OpenFlags::WRITE)));
    assert!(OpenFlags::read_write().contains(of(OpenFlags::READ)));
    assert!(OpenFlags::read_write().contains(of(OpenFlags::WRITE)));
    assert!(OpenFlags::create().contains(of(OpenFlags::CREATE)));
    assert!(OpenFlags::create_truncate().contains(of(OpenFlags::TRUNCATE)));
    assert!(of(OpenFlags::READ).is_read_only());
    assert!(!of(OpenFlags::WRITE).is_read_only());
    assert!(of(OpenFlags::WRITE).is_write_only());
    assert!(of(OpenFlags::READ | OpenFlags::WRITE).is_read_write());
    assert!(OpenFlags::create().contains_create());
    assert!(OpenFlags::create_truncate().contains_truncate());
    assert!(of(OpenFlags::APPEND).contains_append());
    assert!(of(OpenFlags::SYNC).contains_sync());
    assert!(of(OpenFlags::DIRECTORY).contains_directory());
}

#[test]
fn open_flags_display() {
    assert_eq!(of(OpenFlags::READ).to_display_string(), "READ");
    assert_eq!(of(OpenFlags::READ | OpenFlags::WRITE).to_display_string(), "READ|WRITE");
    assert!(of(OpenFlags::READ | OpenFlags::APPEND).to_display_string().contains("APPEND"));
}

#[test]
fn write_flags_helpers() {
    assert!(WriteFlags::none().is_empty());
    assert!(WriteFlags::sync().contains_sync());
    assert!(WriteFlags::append().contains_append());
}

#[test]
fn write_flags_display() {
    assert_eq!(wf(WriteFlags::NONE).to_display_string(), "NONE");
    assert_eq!(wf(WriteFlags::SYNC).to_display_string(), "SYNC");
    assert_eq!(wf(WriteFlags::APPEND).to_display_string(), "APPEND");
    assert!(wf(WriteFlags::SYNC | WriteFlags::APPEND).to_display_string().contains("SYNC"));
}

#[test]
fn flags_union_and_empty() {
    let u = OpenFlags::read().union(OpenFlags::write());
    assert_eq!(u.bits(), OpenFlags::READ | OpenFlags::WRITE);
    assert!(OpenFlags::empty().is_empty());
    assert!(!of(OpenFlags::READ | OpenFlags::WRITE).is_read_only());
    assert!(!of(OpenFlags::READ).is_read_write());
    assert_eq!(wf(WriteFlags::SYNC | WriteFlags::APPEND).to_display_string(), "SYNC|APPEND");
    assert_eq!(OpenFlags::empty().to_display_string(), "");
}

// ----- metadata -----

#[test]
fn test_file_metadata_new() {
    let metadata = FileMetadata::new("/test/file.txt".to_string(), S_IFREG | S_IRUSR | S_IWUSR);
    assert_eq!(metadata.path, "/test/file.txt");
    assert_eq!(metadata.size, 0);
    assert_eq!(metadata.mode, S_IFREG | S_IRUSR | S_IWUSR);
    assert!(metadata.created.is_none());
    assert!(metadata.modified.is_none());
    assert!(metadata.accessed.is_none());
    assert!(!metadata.is_symlink);
    assert!(metadata.symlink_target.is_none());
}

#[test]
fn test_file_metadata_file() {
    let metadata = FileMetadata::file("/test/file.txt".to_string(), 1024);
    assert_eq!(metadata.path, "/test/file.txt");
    assert_eq!(metadata.size, 1024);
    assert!(metadata.is_file());
    assert!(!metadata.is_directory());
    assert!(!metadata.is_symlink());
}

#[test]
fn test_file_metadata_directory() {
    let metadata = FileMetadata::directory("/test/dir".to_string());
    assert_eq!(metadata.path, "/test/dir");
    assert_eq!(metadata.size, 0);
    assert!(!metadata.is_file());
    assert!(metadata.is_directory());
    assert!(!metadata.is_symlink());
}

#[test]
fn test_file_metadata_symlink() {
    let target = "/test/target".to_string();
    let metadata = FileMetadata::symlink("/test/link".to_string(), target.clone());
    assert_eq!(metadata.path, "/test/link");
    assert_eq!(metadata.size, target.len() as u64);
    assert!(!metadata.is_file());
    assert!(!metadata.is_directory());
    assert!(metadata.is_symlink());
    assert_eq!(metadata.symlink_target, Some(target));
}

#[test]
fn test_is_file() {
    let mut metadata = FileMetadata::new("/test".to_string(), S_IFREG | S_IRUSR);
    assert!(metadata.is_file());
    metadata.mode = S_IFDIR | S_IRWXU;
    assert!(!metadata.is_file());
}

#[test]
fn test_is_directory() {
    let mut metadata = FileMetadata::new("/test".to_string(), S_IFDIR | S_IRWXU);
    assert!(metadata.is_directory());
    metadata.mode = S_IFREG | S_IRUSR;
    assert!(!metadata.is_directory());
}

#[test]
fn test_is_symlink() {
    let mut metadata = FileMetadata::new("/test".to_string(), S_IFLNK | S_IRWXU);
    assert!(metadata.is_symlink());
    metadata.mode = S_IFREG | S_IRUSR;
    metadata.is_symlink = true;
    assert!(metadata.is_symlink());
}

#[test]
fn test_dir_mode_and_file_mode() {
    let dir_mode = FileMetadata::dir_mode();
    assert_eq!(dir_mode & S_IFMT, S_IFDIR);
    assert!(dir_mode & S_IRWXU != 0);
    let file_mode = FileMetadata::file_mode();
    assert_eq!(file_mode & S_IFMT, S_IFREG);
    assert!(file_mode & S_IRUSR != 0);
}

#[test]
fn test_permissions() {
    let metadata = FileMetadata::new("/test".to_string(), S_IFREG | S_IRWXU);
    assert_eq!(metadata.permissions(), S_IRWXU);
    let metadata2 = FileMetadata::new("/test".to_string(), S_IFREG | S_IRUSR | S_IWUSR | S_IRGRP);
    assert_eq!(metadata2.permissions(), S_IRUSR | S_IWUSR | S_IRGRP);
}

#[test]
fn test_set_permissions() {
    let mut metadata = FileMetadata::new("/test".to_string(), S_IFREG | S_IRWXU);
    metadata.set_permissions(S_IRUSR | S_IWUSR);
    assert_eq!(metadata.mode, S_IFREG | S_IRUSR | S_IWUSR);
}

#[test]
fn test_file_type() {
    assert_eq!(FileMetadata::new("/test".to_string(), S_IFREG | S_IRUSR).file_type(), "file");
    assert_eq!(FileMetadata::new("/test".to_string(), S_IFDIR | S_IRWXU).file_type(), "directory");
    assert_eq!(FileMetadata::new("/test".to_string(), S_IFLNK | S_IRWXU).file_type(), "symlink");
    assert_eq!(
        FileMetadata::new("/test".to_string(), S_IFCHR | S_IRWXU).file_type(),
        "character device"
    );
    assert_eq!(
        FileMetadata::new("/test".to_string(), S_IFBLK | S_IRWXU).file_type(),
        "block device"
    );
    assert_eq!(FileMetadata::new("/test".to_string(), S_IFIFO | S_IRWXU).file_type(), "FIFO");
    assert_eq!(FileMetadata::new("/test".to_string(), S_IFSOCK | S_IRWXU).file_type(), "socket");
    assert_eq!(FileMetadata::new("/test".to_string(), 0o030000 | S_IRWXU).file_type(), "unknown");
}

#[test]
fn test_display() {
    let metadata = FileMetadata::file("/test/file.txt".to_string(), 1024);
    let display = metadata.to_display_string();
    assert!(display.contains("file"));
    assert!(display.contains("1024"));
    assert!(display.contains("/test/file.txt"));
}

#[test]
fn test_constants_exist() {
    assert_eq!(S_IFMT, 0o170000);
    assert_eq!(S_IFREG, 0o100000);
    assert_eq!(S_IFDIR, 0o040000);
    assert_eq!(S_IFLNK, 0o120000);
    assert_eq!(S_IRWXU, 0o700);
    assert_eq!(S_IRUSR, 0o400);
    assert_eq!(S_IWUSR, 0o200);
    assert_eq!(S_IXUSR, 0o100);
}

#[test]
fn set_permissions_keeps_the_type_bits() {
    let mut m = FileMetadata::directory("/d".to_string());
    m.set_permissions(0o7777_0750);
    assert_eq!(m.mode & S_IFMT, S_IFDIR);
    assert_eq!(m.permissions(), 0o750);
    assert!(m.is_directory());
}

// ----- cache -----

#[test]
fn test_hashmap_cache_get_put_remove() {
    let mut c = HashMapCache::new();
    assert!(c.get("a").is_none());
    c.put("a", b"hello");
    assert_eq!(c.get("a").as_deref(), Some(b"hello" as &[u8]));
    c.remove("a");
    assert!(c.get("a").is_none());
}

#[test]
fn test_hashmap_cache_invalidate_prefix() {
    let mut c = HashMapCache::new();
    c.put("/path/a", b"1");
    c.put("/path/b", b"2");
    c.put("/other", b"3");
    c.invalidate_prefix("/path");
    assert!(c.get("/path/a").is_none());
    assert!(c.get("/path/b").is_none());
    assert_eq!(c.get("/other").as_deref(), Some(b"3" as &[u8]));
}

#[test]
fn test_hashmap_cache_returns_no_stats() {
    let c = HashMapCache::new();
    assert!(c.stats().is_none());
}

#[test]
fn cache_stats_total_requests() {
    let s = CacheStats { hits: 80, misses: 20, evictions: 5 };
    assert_eq!(s.total_requests(), 100);
    let e = CacheStats::default();
    assert_eq!(e.total_requests(), 0);
    assert_eq!(e.evictions, 0);
}

#[test]
fn cache_put_overwrites() {
    let mut c = HashMapCache::new();
    c.put("k", b"one");
    c.put("k", b"two");
    assert_eq!(c.get("k").as_deref(), Some(b"two" as &[u8]));
    c.invalidate_prefix("");
    assert!(c.get("k").is_none());
}

#[test]
fn test_foyer_cache_get_put_remove() {
    let mut c = FoyerCache::new(16);
    assert!(c.get("a").is_none());
    c.put("a", b"hello");
    assert_eq!(c.get("a").as_deref(), Some(b"hello" as &[u8]));
    c.remove("a");
    assert!(c.get("a").is_none());
}

#[test]
fn foyer_cache_keeps_the_last_write_and_has_no_stats() {
    let mut c = FoyerCache::new(2);
    c.put("k", b"one");
    c.put("k", b"two");
    assert_eq!(c.get("k").as_deref(), Some(b"two" as &[u8]));
    c.put("x", b"1");
    c.put("y", b"2");
    c.put("z", b"3");
    assert_eq!(c.get("z").as_deref(), Some(b"3" as &[u8]));
    assert!(c.stats().is_none());
}

// ----- compression -----

#[test]
fn test_zstd_roundtrip() {
    let c = ZstdCompression::new(CompressionLevel::Default);
    let data = b"hello world";
    let compressed = c.compress(data).unwrap();
    assert!(!compressed.is_empty() && compressed.len() <= data.len() + 32);
    let decompressed = c.decompress(&compressed).unwrap();
    assert_eq!(decompressed.as_slice(), data);
    assert_eq!(c.name(), "zstd");
}

#[test]
fn test_zstd_levels() {
    let fast = ZstdCompression::new(CompressionLevel::Fast);
    let best = ZstdCompression::new(CompressionLevel::Best);
    let data = b"hello world";
    assert_eq!(fast.name(), "zstd");
    assert_eq!(best.name(), "zstd");
    assert_eq!(fast.decompress(&fast.compress(data).unwrap()).unwrap(), data);
    assert_eq!(best.decompress(&best.compress(data).unwrap()).unwrap(), data);
}

#[test]
fn test_zstd_level_explicit_and_clamp() {
    let c = ZstdCompression::new(CompressionLevel::Level(10));
    let data = b"hello world";
    let compressed = c.compress(data).unwrap();
    assert_eq!(c.decompress(&compressed).unwrap(), data);
    let c_lo = ZstdCompression::new(CompressionLevel::Level(0));
    let c_hi = ZstdCompression::new(CompressionLevel::Level(255));
    assert_eq!(c_lo.decompress(&c_lo.compress(data).unwrap()).unwrap(), data);
    assert_eq!(c_hi.decompress(&c_hi.compress(data).unwrap()).unwrap(), data);
}

#[test]
fn zstd_level_numbers() {
    assert_eq!(ZstdCompression::new(CompressionLevel::Fast).level(), 1);
    assert_eq!(ZstdCompression::new(CompressionLevel::Default).level(), 3);
    assert_eq!(ZstdCompression::new(CompressionLevel::Best).level(), 19);
    assert_eq!(ZstdCompression::new(CompressionLevel::Level(0)).level(), 1);
    assert_eq!(ZstdCompression::new(CompressionLevel::Level(255)).level(), 22);
    assert_eq!(ZstdCompression::new(CompressionLevel::Level(7)).level(), 7);
}

#[test]
fn zstd_rejects_garbage() {
    let c = ZstdCompression::new(CompressionLevel::Default);
    let r = c.decompress(b"definitely not zstd");
    assert!(matches!(r, Err(FSError::Io { .. })));
}

// ----- file handles -----

#[test]
fn handle_id_new_and_default() {
    let a = HandleId::new();
    let b = HandleId::default();
    assert_ne!(a.as_uuid(), b.as_uuid());
}

#[test]
fn handle_id_from_uuid() {
    let u = uuid::Uuid::now_v7();
    let id = HandleId::from_uuid(u);
    assert_eq!(id.as_uuid(), u);
}

#[test]
fn handle_id_display() {
    let id = HandleId::new();
    let s = id.to_display_string();
    assert!(!s.is_empty());
    assert!(s.len() >= 32);
}

#[test]
fn file_handle_new() {
    let h = FileHandle::new("/foo".to_string(), of(OpenFlags::READ));
    assert_eq!(h.path, "/foo");
    assert_eq!(h.offset, 0);
    assert!(h.valid);
    assert!(h.is_readable());
    assert!(!h.is_writable());
}

#[test]
fn file_handle_with_id() {
    let id = HandleId::new();
    let h = FileHandle::with_id("/bar".to_string(), of(OpenFlags::WRITE), id);
    assert_eq!(h.id.as_uuid(), id.as_uuid());
    assert!(h.is_writable());
}

#[test]
fn file_handle_read_write_flags() {
    let r = FileHandle::new("/r".to_string(), of(OpenFlags::READ));
    assert!(r.is_readable());
    assert!(!r.is_writable());
    let w = FileHandle::new("/w".to_string(), of(OpenFlags::WRITE));
    assert!(!w.is_readable());
    assert!(w.is_writable());
    let rw = FileHandle::new("/rw".to_string(), OpenFlags::read_write());
    assert!(rw.is_readable());
    assert!(rw.is_writable());
}

#[test]
fn file_handle_advance_and_seek() {
    let mut h = FileHandle::new("/f".to_string(), of(OpenFlags::READ));
    assert_eq!(h.offset(), 0);
    h.advance(10);
    assert_eq!(h.offset(), 10);
    h.advance(-3);
    assert_eq!(h.offset(), 7);
    h.seek(100);
    assert_eq!(h.offset(), 100);
}

#[test]
fn file_handle_invalidate() {
    let mut h = FileHandle::new("/f".to_string(), of(OpenFlags::READ));
    assert!(h.is_valid());
    h.invalidate();
    assert!(!h.is_valid());
}
