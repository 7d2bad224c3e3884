use racfs::client::types::{DirectoryEntry, DirectoryListResponse, FileMetadataResponse, XattrValueResponse};
use racfs::client::Error as ClientError;
use racfs::fuse::attrs::{
    flush_plan, metadata_to_attr, parse_permissions, read_slice, readdir_entries, route_write,
    FileKind, WriteRoute, ATTR_TTL_SECS,
};
use racfs::fuse::cache::{
    FuseCache, DEFAULT_TTL_SECS, DEFAULT_WRITE_BACK_FLUSH_SIZE, DEFAULT_WRITE_BACK_MAX_CHUNK,
};
use racfs::fuse::error::{first_failure, Error};
use racfs::fuse::inodes::{InodeManager, ROOT_INODE};
use racfs::fuse::locks::{FileLockState, LockError, FUSE_PROTOCOL_VERSION, F_RDLCK, F_WRLCK, MULTI_MOUNT_PLACEHOLDER};
use racfs::fuse::ops::{call_status, xattr_list_bytes, xattr_text, xattr_value, Errno, FuseState, Step};
use racfs::fuse::segments::merge_write_segments;

fn meta(path: &str, file_type: &str, perms: &str, size: u64) -> FileMetadataResponse {
    FileMetadataResponse {
        file_type: file_type.to_string(),
        permissions: perms.to_string(),
        size,
        modified: None,
        path: path.to_string(),
        symlink_target: None,
    }
}

fn entry(path: &str, file_type: Option<&str>) -> DirectoryEntry {
    DirectoryEntry {
        permissions: "rw-r--r--".to_string(),
        size: 0,
        modified: None,
        path: path.to_string(),
        file_type: file_type.map(|s| s.to_string()),
    }
}

// ----- constants -----

#[test]
fn fuse_protocol_version_is_fuse2() {
    assert_eq!(FUSE_PROTOCOL_VERSION, 7);
}

#[test]
fn multi_mount_placeholder_is_at_least_two() {
    assert!(MULTI_MOUNT_PLACEHOLDER >= 2);
}

#[test]
fn test_default_ttl_constants() {
    assert_eq!(DEFAULT_TTL_SECS, 1);
    assert!(DEFAULT_WRITE_BACK_FLUSH_SIZE > 0);
    assert!(DEFAULT_WRITE_BACK_MAX_CHUNK > 0);
}

// ----- locks -----

#[test]
fn file_lock_state_default() {
    let _ = FileLockState::default();
}

#[test]
fn file_lock_set_and_get_conflict() {
    let mut state = FileLockState::new();
    let owner1 = 1u64;
    let owner2 = 2u64;
    assert!(state.get_conflict(10, 0, 100, F_WRLCK, owner1).is_none());
    assert!(state.set_lock(10, owner1, 0, 100, F_WRLCK, 1000, false).is_ok());
    assert!(state.get_conflict(10, 50, 150, F_WRLCK, owner2).is_some());
    assert!(state.get_conflict(10, 50, 150, F_RDLCK, owner2).is_some());
    assert!(state.get_conflict(10, 50, 150, F_WRLCK, owner1).is_none());
    state.unlock(10, owner1, 0, 100);
    assert!(state.get_conflict(10, 0, 100, F_WRLCK, owner2).is_none());
}

#[test]
fn file_lock_setlk_conflict_returns_eagain() {
    let mut state = FileLockState::new();
    assert!(state.set_lock(10, 1, 0, 100, F_WRLCK, 1000, false).is_ok());
    let r = state.set_lock(10, 2, 50, 150, F_WRLCK, 1001, false);
    assert!(r.is_err());
    assert_eq!(r, Err(LockError::WouldBlock));
}

#[test]
fn read_locks_share_and_owner_release() {
    let mut state = FileLockState::new();
    assert!(state.set_lock(5, 1, 0, 10, F_RDLCK, 1, false).is_ok());
    assert!(state.set_lock(5, 2, 0, 10, F_RDLCK, 2, false).is_ok());
    assert_eq!(state.get_conflict(5, 0, 10, F_WRLCK, 3), Some((0, 10, F_RDLCK, 1)));
    assert!(state.get_conflict(5, 20, 30, F_WRLCK, 3).is_none());
    assert!(state.get_conflict(6, 0, 10, F_WRLCK, 3).is_none());
    state.remove_owner(1);
    state.remove_owner(2);
    assert!(state.get_conflict(5, 0, 10, F_WRLCK, 3).is_none());
}

// ----- write segments -----

#[test]
fn test_merge_write_segments_empty() {
    assert!(merge_write_segments(vec![]).is_empty());
}

#[test]
fn test_merge_write_segments_single() {
    let out = merge_write_segments(vec![(0u64, b"hello".to_vec())]);
    assert_eq!(out.len(), 1);
    assert_eq!(out[0].0, 0);
    assert_eq!(out[0].1.as_slice(), b"hello");
}

#[test]
fn test_merge_write_segments_non_overlapping() {
    let out = merge_write_segments(vec![(0u64, b"ab".to_vec()), (10u64, b"cd".to_vec())]);
    assert_eq!(out.len(), 2);
    assert_eq!(out[0].1.as_slice(), b"ab");
    assert_eq!(out[1].1.as_slice(), b"cd");
}

#[test]
fn test_merge_write_segments_adjacent() {
    let out = merge_write_segments(vec![(0u64, b"hello".to_vec()), (5u64, b" world".to_vec())]);
    assert_eq!(out.len(), 1);
    assert_eq!(out[0].0, 0);
    assert_eq!(out[0].1.as_slice(), b"hello world");
}

#[test]
fn test_merge_write_segments_overlapping() {
    let out = merge_write_segments(vec![(0u64, b"abc".to_vec()), (2u64, b"XYZ".to_vec())]);
    assert_eq!(out.len(), 1);
    assert_eq!(out[0].0, 0);
    assert_eq!(out[0].1.as_slice(), b"abXYZ");
}

#[test]
fn merge_sorts_and_later_writes_win() {
    let out = merge_write_segments(vec![
        (4u64, b"EF".to_vec()),
        (0u64, b"abcd".to_vec()),
        (1u64, b"X".to_vec()),
    ]);
    assert_eq!(out, vec![(0u64, b"aXcdEF".to_vec())]);
    let inner = merge_write_segments(vec![(0u64, b"abcdef".to_vec()), (2u64, b"Z".to_vec())]);
    assert_eq!(inner, vec![(0u64, b"abZdef".to_vec())]);
}

// ----- inodes -----

#[test]
fn test_root_inode() {
    let manager = InodeManager::new();
    assert_eq!(manager.get_path(ROOT_INODE), Some("/".to_string()));
    assert_eq!(manager.get_inode("/"), Some(ROOT_INODE));
}

#[test]
fn test_allocate_inode() {
    let mut manager = InodeManager::new();
    let inode1 = manager.allocate("/test.txt");
    assert!(inode1 > ROOT_INODE);
    let inode2 = manager.allocate("/test.txt");
    assert_eq!(inode1, inode2);
    assert_eq!(manager.get_path(inode1), Some("/test.txt".to_string()));
    assert_eq!(manager.get_inode("/test.txt"), Some(inode1));
}

#[test]
fn test_remove_inode() {
    let mut manager = InodeManager::new();
    let inode = manager.allocate("/test.txt");
    assert!(manager.get_path(inode).is_some());
    manager.remove(inode);
    assert!(manager.get_path(inode).is_none());
    assert!(manager.get_inode("/test.txt").is_none());
}

#[test]
fn test_remove_path() {
    let mut manager = InodeManager::new();
    let inode = manager.allocate("/test.txt");
    assert!(manager.get_inode("/test.txt").is_some());
    manager.remove_path("/test.txt");
    assert!(manager.get_path(inode).is_none());
    assert!(manager.get_inode("/test.txt").is_none());
}

#[test]
fn test_multiple_paths() {
    let mut manager = InodeManager::new();
    let inode1 = manager.allocate("/file1.txt");
    let inode2 = manager.allocate("/file2.txt");
    let inode3 = manager.allocate("/dir/file3.txt");
    assert_ne!(inode1, inode2);
    assert_ne!(inode2, inode3);
    assert_ne!(inode1, inode3);
    assert_eq!(manager.get_path(inode1), Some("/file1.txt".to_string()));
    assert_eq!(manager.get_path(inode2), Some("/file2.txt".to_string()));
    assert_eq!(manager.get_path(inode3), Some("/dir/file3.txt".to_string()));
}

#[test]
fn test_default_equals_new() {
    let default_manager = InodeManager::default();
    let new_manager = InodeManager::new();
    assert_eq!(default_manager.get_path(ROOT_INODE), new_manager.get_path(ROOT_INODE));
    assert_eq!(default_manager.get_inode("/"), Some(ROOT_INODE));
}

#[test]
fn test_root_inode_is_one() {
    let manager = InodeManager::new();
    assert_eq!(manager.get_path(1), Some("/".to_string()));
    assert_eq!(manager.get_inode("/"), Some(1));
}

#[test]
fn test_inode_path_roundtrip() {
    let mut manager = InodeManager::new();
    let inode = manager.allocate("/memfs/foo");
    assert_eq!(manager.get_path(inode), Some("/memfs/foo".to_string()));
    assert_eq!(manager.get_inode("/memfs/foo"), Some(inode));
}

#[test]
fn inodes_are_handed_out_in_order() {
    let mut manager = InodeManager::new();
    assert_eq!(manager.allocate("/a"), 2);
    assert_eq!(manager.allocate("/b"), 3);
    assert_eq!(manager.allocate("/a"), 2);
    manager.remove(2);
    assert_eq!(manager.allocate("/a"), 4);
}

// ----- cache -----

#[test]
fn test_cache_miss_then_hit() {
    let mut cache = FuseCache::new(10_000);
    assert!(cache.get_stat("/foo").is_none());
    assert_eq!(cache.misses(), 1);
    cache.put_stat("/foo", meta("/foo", "file", "rw-r--r--", 0));
    let cached = cache.get_stat("/foo");
    assert!(cached.is_some());
    assert_eq!(cached.as_ref().unwrap().path, "/foo");
    assert_eq!(cache.hits(), 1);
}

#[test]
fn test_invalidate() {
    let mut cache = FuseCache::new(10_000);
    cache.put_stat("/a/b", meta("/a/b", "file", "rw-", 0));
    cache.invalidate("/a/b");
    assert!(cache.get_stat("/a/b").is_none());
}

#[test]
fn test_file_content_cache_read_ahead() {
    let mut cache = FuseCache::new(10_000);
    let path = "/memfs/foo.txt";
    assert!(cache.get_file_content(path).is_none());
    cache.put_file_content(path, b"hello world".to_vec());
    let data = cache.get_file_content(path).unwrap();
    assert_eq!(data.as_slice(), b"hello world");
    cache.invalidate_file_content(path);
    assert!(cache.get_file_content(path).is_none());
}

#[test]
fn test_write_back_buffer() {
    let mut cache = FuseCache::new(10_000);
    let path = "/memfs/writeback.txt";
    assert!(cache.take_pending_writes(path).is_empty());
    let n1 = cache.push_write_back(path, 0, b"hello".to_vec());
    assert_eq!(n1, 5);
    let n2 = cache.push_write_back(path, 5, b" world".to_vec());
    assert_eq!(n2, 11);
    let pending = cache.take_pending_writes(path);
    assert_eq!(pending.len(), 2);
    assert_eq!(pending[0], (0, b"hello".to_vec()));
    assert_eq!(pending[1], (5, b" world".to_vec()));
    assert!(cache.take_pending_writes(path).is_empty());
    let n3 = cache.push_write_back(path, 0, b"again".to_vec());
    assert_eq!(n3, 5);
}

#[test]
fn test_with_default_ttl() {
    let mut cache = FuseCache::with_default_ttl();
    assert!(cache.get_stat("/p").is_none());
}

#[test]
fn test_default_impl() {
    let cache = FuseCache::default();
    assert_eq!(cache.misses(), 0);
    assert_eq!(cache.hits(), 0);
}

#[test]
fn test_get_stat_stale_returns_expired_entry() {
    let mut cache = FuseCache::new(0);
    let m = meta("/stale", "file", "rw-", 42);
    cache.put_stat("/stale", m.clone());
    wait(std::time::Duration::from_millis(2));
    let stale = cache.get_stat_stale("/stale");
    assert!(stale.is_some(), "get_stat_stale should return expired entry");
    assert_eq!(stale.unwrap().size, 42);
    assert!(cache.get_stat("/stale").is_none());
}

#[test]
fn test_get_readdir_stale_returns_expired_entry() {
    let mut cache = FuseCache::new(0);
    cache.put_readdir("/dir", DirectoryListResponse { entries: vec![] });
    wait(std::time::Duration::from_millis(2));
    let stale = cache.get_readdir_stale("/dir");
    assert!(stale.is_some(), "get_readdir_stale should return expired entry");
    assert!(stale.unwrap().entries.is_empty());
    assert!(cache.get_readdir("/dir").is_none());
}

#[test]
fn cache_entries_expire_by_the_clock_given() {
    let mut cache = FuseCache::new(100);
    cache.put_stat_at("/x", meta("/x", "file", "rw-", 1), 1_000);
    assert!(cache.get_stat_at("/x", 1_099).is_some());
    assert!(cache.get_stat_at("/x", 1_100).is_none());
    assert!(cache.get_stat_stale("/x").is_none());
    assert_eq!(cache.hits(), 1);
    assert_eq!(cache.misses(), 1);
}

#[test]
fn invalidate_drops_the_parent_listing() {
    let mut cache = FuseCache::new(10_000);
    cache.put_readdir_at("/a", DirectoryListResponse { entries: vec![entry("/a/b", None)] }, 0);
    cache.put_readdir_at("/c", DirectoryListResponse { entries: vec![] }, 0);
    cache.invalidate("/a/b");
    assert!(cache.get_readdir_stale("/a").is_none());
    assert!(cache.get_readdir_stale("/c").is_some());
    cache.put_stat_at("/old", meta("/old", "file", "rw-", 1), 0);
    cache.put_stat_at("/new", meta("/new", "file", "rw-", 2), 0);
    cache.invalidate_rename("/old", "/new");
    assert!(cache.get_stat_stale("/old").is_none());
    assert!(cache.get_stat_stale("/new").is_none());
    assert!(cache.get_readdir_stale("/c").is_some());
}

// ----- errors -----

#[test]
fn error_mount_failed_display() {
    let e = Error::MountFailed { path: "/tmp/mnt".to_string(), message: "permission denied".to_string() };
    let s = e.to_display_string();
    assert!(s.contains("/tmp/mnt"));
    assert!(s.contains("permission denied"));
}

#[test]
fn error_invalid_path_display() {
    let e = Error::InvalidPath { path: "/bad/path".to_string() };
    assert!(e.to_display_string().contains("Invalid path"));
    assert!(e.to_display_string().contains("/bad/path"));
}

#[test]
fn error_inode_not_found_display() {
    let e = Error::InodeNotFound { inode: 42 };
    assert!(e.to_display_string().contains("42"));
}

#[test]
fn error_from_io() {
    let io_err = std::io::Error::other("io err");
    let e = Error::from_io_error(io_err);
    assert!(matches!(e, Error::Io { .. }));
    assert!(e.to_display_string().contains("io err"));
}

#[test]
fn error_from_client() {
    let client_err = ClientError::Api { code: "NotFound".to_string(), message: "not found".to_string(), detail: None };
    let e = Error::from_client(client_err);
    assert!(matches!(e, Error::Client { .. }));
}

#[test]
fn test_error_mount_failed_message() {
    let err = Error::MountFailed { path: "/nonexistent".to_string(), message: "Permission denied".to_string() };
    let msg = err.to_display_string();
    assert!(msg.contains("/nonexistent"));
    assert!(msg.contains("Permission denied"));
}

#[test]
fn test_error_invalid_path_display() {
    let err = Error::InvalidPath { path: "/bad/path".to_string() };
    let msg = err.to_display_string();
    assert!(msg.contains("Invalid path"));
    assert!(msg.contains("/bad/path"));
}

#[test]
fn test_error_inode_not_found_display() {
    let err = Error::InodeNotFound { inode: 999 };
    let msg = err.to_display_string();
    assert!(msg.contains("Inode not found"));
    assert!(msg.contains("999"));
}

#[test]
fn test_error_from_client_error() {
    let client_err = ClientError::Api { code: "NotFound".to_string(), message: "file not found".to_string(), detail: None };
    let fuse_err = Error::from_client(client_err);
    let msg = fuse_err.to_display_string();
    assert!(msg.contains("Client error"));
    assert!(msg.contains("NotFound") || msg.contains("file not found"));
}

#[test]
fn test_error_from_io_error() {
    let io_err = std::io::Error::other("connection refused");
    let fuse_err = Error::from_io_error(io_err);
    let msg = fuse_err.to_display_string();
    assert!(msg.contains("IO error"));
    assert!(msg.contains("connection refused"));
}

#[test]
fn fuse_error_texts_are_exact() {
    let e = Error::MountFailed { path: "/m".to_string(), message: "no".to_string() };
    assert_eq!(e.to_display_string(), "Failed to mount at /m: no");
    assert_eq!(Error::InodeNotFound { inode: 7 }.to_display_string(), "Inode not found: 7");
    let c = Error::from_client(ClientError::CircuitOpen);
    assert_eq!(
        c.to_display_string(),
        "Client error: Circuit breaker open: backend unavailable until cooldown elapses"
    );
}

#[test]
fn test_mount_multi_empty_returns_ok() {
    assert!(first_failure(vec![]).is_ok());
}

#[test]
fn first_failure_picks_the_earliest_error() {
    let r = first_failure(vec![
        Ok(()),
        Err(Error::InvalidPath { path: "/one".to_string() }),
        Err(Error::InvalidPath { path: "/two".to_string() }),
    ]);
    match r {
        Err(Error::InvalidPath { path }) => assert_eq!(path, "/one"),
        _ => panic!("expected the first error"),
    }
    assert!(first_failure(vec![Ok(()), Ok(())]).is_ok());
}

// ----- attributes and listings -----

#[test]
fn permissions_parse_to_mode_bits() {
    assert_eq!(parse_permissions("rwxr-xr-x"), 0o755);
    assert_eq!(parse_permissions("rw-r--r--"), 0o644);
    assert_eq!(parse_permissions("---------"), 0);
    assert_eq!(parse_permissions("rwx"), 0);
}

#[test]
fn metadata_becomes_attributes() {
    let a = metadata_to_attr(5, &meta("/d", "directory", "rwxr-xr-x", 0));
    assert_eq!(a.ino, 5);
    assert_eq!(a.kind, FileKind::Directory);
    assert_eq!(a.nlink, 2);
    assert_eq!(a.perm, 0o755);
    let f = metadata_to_attr(6, &meta("/f", "file", "rw-r--r--", 1025));
    assert_eq!(f.kind, FileKind::RegularFile);
    assert_eq!(f.blocks, 3);
    assert_eq!(f.size, 1025);
    assert_eq!(f.nlink, 1);
    assert_eq!(f.blksize, 4096);
    assert_eq!(f.uid, 1000);
    let l = metadata_to_attr(7, &meta("/l", "symlink", "rwxrwxrwx", 3));
    assert_eq!(l.kind, FileKind::Symlink);
    assert_eq!(ATTR_TTL_SECS, 1);
}

#[test]
fn test_dot_dotdot_inode_convention() {
    let mut inodes = InodeManager::new();
    let entries = vec![entry("/a", Some("file"))];
    let out = readdir_entries(ROOT_INODE, &entries, 0, &mut inodes);
    assert_eq!(out[0], (ROOT_INODE, FileKind::Directory, ".".to_string()));
    assert_eq!(out[1], (ROOT_INODE, FileKind::Directory, "..".to_string()));
}

#[test]
fn readdir_lists_kinds_names_and_skips_offset() {
    let mut inodes = InodeManager::new();
    let entries = vec![
        entry("/d/sub", Some("directory")),
        entry("/d/link", Some("symlink")),
        entry("/d/other/", None),
        entry("/d/f.txt", Some("file")),
    ];
    let out = readdir_entries(9, &entries, 0, &mut inodes);
    assert_eq!(out.len(), 6);
    assert_eq!(out[2], (2, FileKind::Directory, "sub".to_string()));
    assert_eq!(out[3], (3, FileKind::Symlink, "link".to_string()));
    assert_eq!(out[4], (4, FileKind::Directory, "other".to_string()));
    assert_eq!(out[5], (5, FileKind::RegularFile, "f.txt".to_string()));
    let again = readdir_entries(9, &entries, 4, &mut inodes);
    assert_eq!(again.len(), 2);
    assert_eq!(again[0].0, 4);
    assert!(readdir_entries(9, &entries, 6, &mut inodes).is_empty());
    assert!(readdir_entries(9, &entries, 100, &mut inodes).is_empty());
}

#[test]
fn read_slice_cuts_at_the_end() {
    assert_eq!(read_slice(b"hello world", 6, 100), b"world".to_vec());
    assert_eq!(read_slice(b"hello world", 0, 5), b"hello".to_vec());
    assert!(read_slice(b"hello", 5, 3).is_empty());
    assert!(read_slice(b"hello", 9, 3).is_empty());
}

#[test]
fn writes_are_buffered_then_flushed() {
    let mut cache = FuseCache::new(10_000);
    assert_eq!(route_write(&mut cache, "/f", 0, b"abc"), WriteRoute::Buffered);
    assert_eq!(route_write(&mut cache, "/f", 2, b"XY"), WriteRoute::Buffered);
    let big = vec![7u8; DEFAULT_WRITE_BACK_MAX_CHUNK + 1];
    assert_eq!(route_write(&mut cache, "/f", 0, &big), WriteRoute::Direct);
    let runs = flush_plan(&mut cache, "/f");
    assert_eq!(runs, vec![(0u64, b"abXY".to_vec())]);
    assert!(flush_plan(&mut cache, "/f").is_empty());
    let chunk = vec![1u8; DEFAULT_WRITE_BACK_MAX_CHUNK];
    let mut route = WriteRoute::Buffered;
    for i in 0..4u64 {
        route = route_write(&mut cache, "/g", i * DEFAULT_WRITE_BACK_MAX_CHUNK as u64, &chunk);
    }
    assert_eq!(route, WriteRoute::Flush);
}

// ----- operations -----

#[test]
fn lookup_uses_the_cache_then_the_server() {
    let mut st = FuseState::new(FuseCache::new(1_000));
    match st.lookup_begin(ROOT_INODE, "a.txt", 0) {
        Ok(Step::Fetch(p)) => assert_eq!(p, "/a.txt"),
        _ => panic!("expected a fetch"),
    }
    let attr = st.lookup_finish("/a.txt", Ok(meta("/a.txt", "file", "rw-r--r--", 3)), 10).unwrap();
    assert_eq!(attr.size, 3);
    assert_eq!(attr.ino, 2);
    match st.lookup_begin(ROOT_INODE, "a.txt", 500) {
        Ok(Step::Ready(a)) => assert_eq!(a.ino, 2),
        _ => panic!("expected a cached answer"),
    }
    assert!(matches!(st.lookup_begin(77, "x", 0), Err(Errno::NoEntry)));
}

#[test]
fn lookup_serves_stale_entries_when_unreachable() {
    let mut st = FuseState::new(FuseCache::new(10));
    st.lookup_finish("/s", Ok(meta("/s", "file", "rw-", 8)), 0).unwrap();
    let down = ClientError::Http { message: "connect".to_string() };
    let a = st.lookup_finish("/s", Err(down), 1_000).unwrap();
    assert_eq!(a.size, 8);
    let api = ClientError::Api { code: "NotFound".to_string(), message: "gone".to_string(), detail: None };
    assert_eq!(st.lookup_finish("/s", Err(api), 1_000), Err(Errno::NoEntry));
    assert_eq!(st.lookup_finish("/t", Err(ClientError::CircuitOpen), 0), Err(Errno::NoEntry));
}

#[test]
fn getattr_and_read_steps() {
    let mut st = FuseState::new(FuseCache::new(1_000));
    assert!(matches!(st.getattr_begin(ROOT_INODE, 0), Ok(Step::Fetch(_))));
    let a = st.getattr_finish(ROOT_INODE, "/", Ok(meta("/", "directory", "rwxr-xr-x", 0)), 0).unwrap();
    assert_eq!(a.kind, FileKind::Directory);
    assert!(matches!(st.getattr_begin(ROOT_INODE, 10), Ok(Step::Ready(_))));
    let ino = st.inodes.allocate("/f");
    assert!(matches!(st.read_begin(ino, 0, 4), Ok(Step::Fetch(_))));
    assert_eq!(st.read_finish("/f", 2, 4, Ok("hello".to_string())), Ok(b"llo".to_vec()));
    match st.read_begin(ino, 1, 2) {
        Ok(Step::Ready(d)) => assert_eq!(d, b"el".to_vec()),
        _ => panic!("expected cached content"),
    }
    assert_eq!(st.read_finish("/f", 0, 1, Err(ClientError::NotAuthenticated)), Err(Errno::Io));
    assert!(matches!(st.read_begin(999, 0, 1), Err(Errno::NoEntry)));
}

#[test]
fn readdir_steps_and_stale_listing() {
    let mut st = FuseState::new(FuseCache::new(5));
    assert!(matches!(st.readdir_begin(ROOT_INODE, 0), Ok(Step::Fetch(_))));
    let l = st.readdir_finish("/", Ok(DirectoryListResponse { entries: vec![entry("/x", None)] }), 0).unwrap();
    assert_eq!(l.entries.len(), 1);
    match st.readdir_begin(ROOT_INODE, 1) {
        Ok(Step::Ready(l)) => assert_eq!(l.entries[0].path, "/x"),
        _ => panic!("expected a cached listing"),
    }
    let stale = st.readdir_finish("/", Err(ClientError::CircuitOpen), 100).unwrap();
    assert_eq!(stale.entries.len(), 1);
    assert!(matches!(st.readdir_finish("/none", Err(ClientError::CircuitOpen), 100), Err(Errno::Io)));
}

#[test]
fn create_remove_and_rename_bookkeeping() {
    let mut st = FuseState::new(FuseCache::new(1_000));
    let p = st.child(ROOT_INODE, "n").unwrap();
    assert_eq!(p, "/n");
    let a = st.new_entry(&p, Ok(meta("/n", "file", "rw-", 0))).unwrap();
    assert_eq!(st.inodes.get_inode("/n"), Some(a.ino));
    assert_eq!(st.new_entry("/m", Err(ClientError::CircuitOpen)), Err(Errno::Io));
    st.renamed("/n", "/o");
    assert!(st.inodes.get_inode("/n").is_none());
    assert!(st.inodes.get_inode("/o").is_some());
    st.forget("/o");
    assert!(st.inodes.get_inode("/o").is_none());
    assert!(matches!(st.child(42, "x"), Err(Errno::NoEntry)));
    assert!(matches!(st.resolve(ROOT_INODE), Ok(ref s) if s == "/"));
}

#[test]
fn link_targets_and_status() {
    let mut m = meta("/l", "symlink", "rwx", 3);
    m.symlink_target = Some("/t".to_string());
    assert_eq!(FuseState::link_target(Ok(m)), Ok(b"/t".to_vec()));
    assert_eq!(FuseState::link_target(Ok(meta("/f", "file", "rw-", 0))), Err(Errno::Invalid));
    assert_eq!(FuseState::link_target(Err(ClientError::CircuitOpen)), Err(Errno::Io));
    let ok: Result<u8, ClientError> = Ok(1);
    assert_eq!(call_status(&ok, Errno::Io), Ok(()));
    let bad: Result<u8, ClientError> = Err(ClientError::NotAuthenticated);
    assert_eq!(call_status(&bad, Errno::NoAttribute), Err(Errno::NoAttribute));
    assert_eq!(FuseState::attr_after(3, Err(ClientError::NotAuthenticated)), Err(Errno::Io));
}

#[test]
fn xattr_values_and_names() {
    assert_eq!(xattr_text(b"hello"), "aGVsbG8=");
    let v = xattr_value(Ok(XattrValueResponse { value: "aGVsbG8=".to_string() })).unwrap();
    assert_eq!(v, b"hello".to_vec());
    assert_eq!(xattr_value(Ok(XattrValueResponse { value: "***".to_string() })), Err(Errno::Io));
    assert_eq!(xattr_value(Err(ClientError::CircuitOpen)), Err(Errno::NoAttribute));
    let names = vec!["user.a".to_string(), "user.bc".to_string()];
    assert_eq!(xattr_list_bytes(&names), b"user.a\0user.bc\0".to_vec());
    assert!(xattr_list_bytes(&vec![]).is_empty());
}

fn wait(d: std::time::Duration) {
    let start = std::time::Instant::now();
    while start.elapsed() < d {
        std::hint::spin_loop();
    }
}

#[test]
fn merge_does_not_depend_on_order_for_distinct_offsets() {
    let a = merge_write_segments(vec![(5, b" world".to_vec()), (0, b"hello".to_vec())]);
    let b = merge_write_segments(vec![(0, b"hello".to_vec()), (5, b" world".to_vec())]);
    assert_eq!(a, vec![(0, b"hello world".to_vec())]);
    assert_eq!(a, b);
}
