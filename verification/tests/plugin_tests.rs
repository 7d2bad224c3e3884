use racfs::error::FSError;
use racfs::filesystem::{ChmodFS, DirFS, FileSystem, ReadFS, WriteFS};
use racfs::flags::WriteFlags;
use racfs::plugins::devfs::{DevFS, DeviceType};
use racfs::plugins::heartbeatfs::HeartbeatFS;
use racfs::plugins::hellofs::HelloFS;
use racfs::plugins::httpfs::{parse_cache_control, parse_request_id, url_to_cache_key, HttpFS, RequestStep};
use racfs::plugins::kvfs::KvFS;

fn none() -> WriteFlags {
    WriteFlags::none()
}

fn paths(entries: &[racfs::metadata::FileMetadata]) -> Vec<String> {
    entries.iter().map(|e| e.path.clone()).collect()
}

// ----- kvfs -----

#[test]
fn test_new() {
    let fs = KvFS::new();
    assert!(fs.read_dir("/").unwrap().is_empty());
    assert!(fs.stat("/anything").is_err());
}

#[test]
fn kvfs_test_default() {
    let fs = KvFS::default();
    assert!(fs.read_dir("/").unwrap().is_empty());
}

#[test]
fn test_with_data() {
    let fs = KvFS::with_data(vec![("/test.txt".to_string(), b"hello".to_vec())]);
    let content = fs.read("/test.txt", 0, -1).unwrap();
    assert_eq!(content, b"hello");
    assert_eq!(fs.stat("/test.txt").unwrap().size, 5);
}

#[test]
fn test_create_and_read() {
    let mut fs = KvFS::new();
    fs.create("/test.txt").unwrap();
    fs.write("/test.txt", b"Hello, World!", 0, none()).unwrap();
    assert_eq!(fs.read("/test.txt", 0, -1).unwrap(), b"Hello, World!");
}

#[test]
fn test_write_with_offset() {
    let mut fs = KvFS::new();
    fs.create("/test.txt").unwrap();
    fs.write("/test.txt", b"Hello", 0, none()).unwrap();
    fs.write("/test.txt", b" World", 5, none()).unwrap();
    assert_eq!(fs.read("/test.txt", 0, -1).unwrap(), b"Hello World");
}

#[test]
fn test_write_append() {
    let mut fs = KvFS::new();
    fs.create("/test.txt").unwrap();
    fs.write("/test.txt", b"Hello", 0, none()).unwrap();
    fs.write("/test.txt", b" World", 0, WriteFlags::append()).unwrap();
    assert_eq!(fs.read("/test.txt", 0, -1).unwrap(), b"Hello World");
}

#[test]
fn test_read_with_offset_and_size() {
    let mut fs = KvFS::new();
    fs.create("/test.txt").unwrap();
    fs.write("/test.txt", b"Hello, World!", 0, none()).unwrap();
    assert_eq!(fs.read("/test.txt", 7, 5).unwrap(), b"World");
}

#[test]
fn test_remove() {
    let mut fs = KvFS::new();
    fs.create("/test.txt").unwrap();
    fs.write("/test.txt", b"test", 0, none()).unwrap();
    fs.remove("/test.txt").unwrap();
    assert!(fs.read("/test.txt", 0, -1).is_err());
}

#[test]
fn test_remove_all() {
    let mut fs = KvFS::new();
    fs.mkdir("/dir", 0o755).unwrap();
    fs.create("/dir/file1.txt").unwrap();
    fs.create("/dir/file2.txt").unwrap();
    fs.remove_all("/dir").unwrap();
    assert!(fs.stat("/dir/file1.txt").is_err());
    assert!(fs.stat("/dir/file2.txt").is_err());
}

#[test]
fn test_mkdir() {
    let mut fs = KvFS::new();
    fs.mkdir("/mydir", 0o755).unwrap();
    assert!(fs.stat("/mydir").unwrap().is_directory());
}

#[test]
fn test_rename() {
    let mut fs = KvFS::new();
    fs.create("/old.txt").unwrap();
    fs.write("/old.txt", b"data", 0, none()).unwrap();
    fs.rename("/old.txt", "/new.txt").unwrap();
    assert!(fs.stat("/old.txt").is_err());
    assert_eq!(fs.read("/new.txt", 0, -1).unwrap(), b"data");
}

#[test]
fn test_chmod() {
    let mut fs = KvFS::new();
    fs.create("/test.txt").unwrap();
    fs.chmod("/test.txt", 0o644).unwrap();
    assert_eq!(fs.stat("/test.txt").unwrap().mode & 0o777, 0o644);
}

#[test]
fn test_stat_not_found() {
    let fs = KvFS::new();
    assert!(matches!(fs.stat("/nonexistent.txt"), Err(FSError::NotFound { .. })));
}

#[test]
fn test_create_already_exists() {
    let mut fs = KvFS::new();
    fs.create("/test.txt").unwrap();
    assert!(matches!(fs.create("/test.txt"), Err(FSError::AlreadyExists { .. })));
}

#[test]
fn test_write_not_found() {
    let mut fs = KvFS::new();
    assert!(matches!(fs.write("/nonexistent.txt", b"data", 0, none()), Err(FSError::NotFound { .. })));
}

#[test]
fn test_rename_to_existing() {
    let mut fs = KvFS::new();
    fs.create("/old.txt").unwrap();
    fs.create("/new.txt").unwrap();
    assert!(matches!(fs.rename("/old.txt", "/new.txt"), Err(FSError::AlreadyExists { .. })));
}

#[test]
fn kvfs_test_read_dir() {
    let mut fs = KvFS::new();
    fs.mkdir("/dir", 0o755).unwrap();
    fs.create("/dir/file1.txt").unwrap();
    fs.create("/dir/file2.txt").unwrap();
    let entries = fs.read_dir("/dir").unwrap();
    assert_eq!(entries.len(), 2);
    let p = paths(&entries);
    assert!(p.contains(&"/dir/file1.txt".to_string()));
    assert!(p.contains(&"/dir/file2.txt".to_string()));
}

#[test]
fn kvfs_write_then_read_back_and_sparse_writes() {
    let mut fs = KvFS::new();
    fs.create("/s").unwrap();
    assert_eq!(fs.write("/s", b"xy", 3, none()).unwrap(), 2);
    assert_eq!(fs.read("/s", 0, -1).unwrap(), vec![0, 0, 0, b'x', b'y']);
    assert_eq!(fs.stat("/s").unwrap().size, 5);
    assert_eq!(fs.read("/s", 10, 4).unwrap(), Vec::<u8>::new());
    assert!(fs.read_dir("/s").unwrap().is_empty());
    assert!(matches!(fs.chmod("/missing", 0o600), Err(FSError::NotFound { .. })));
    assert!(matches!(fs.mkdir("/s", 0o755), Err(FSError::AlreadyExists { .. })));
    assert!(matches!(fs.rename("/missing", "/x"), Err(FSError::NotFound { .. })));
}

// ----- hellofs -----

#[test]
fn test_read_hello() {
    let fs = HelloFS::new();
    assert_eq!(fs.read("/hello", 0, -1).unwrap(), b"Hello, World!");
}

#[test]
fn test_read_version() {
    let fs = HelloFS::new();
    assert_eq!(fs.read("/version", 0, -1).unwrap(), b"1.0.0");
}

#[test]
fn test_read_readme() {
    let fs = HelloFS::new();
    let data = fs.read("/readme.txt", 0, -1).unwrap();
    assert!(data.starts_with(b"HelloFS - A simple static read-only demo filesystem"));
}

#[test]
fn hellofs_test_read_with_offset() {
    let fs = HelloFS::new();
    assert_eq!(fs.read("/hello", 7, -1).unwrap(), b"World!");
}

#[test]
fn hellofs_test_read_with_size() {
    let fs = HelloFS::new();
    assert_eq!(fs.read("/hello", 0, 5).unwrap(), b"Hello");
}

#[test]
fn hellofs_test_read_dir() {
    let fs = HelloFS::new();
    let entries = fs.read_dir("/").unwrap();
    assert_eq!(entries.len(), 3);
    let p = paths(&entries);
    assert!(p.contains(&"/hello".to_string()));
    assert!(p.contains(&"/version".to_string()));
    assert!(p.contains(&"/readme.txt".to_string()));
}

#[test]
fn test_stat_file() {
    let fs = HelloFS::new();
    let metadata = fs.stat("/hello").unwrap();
    assert_eq!(metadata.path, "/hello");
    assert_eq!(metadata.size, 13);
    assert!(metadata.is_file());
}

#[test]
fn test_stat_directory() {
    let fs = HelloFS::new();
    let metadata = fs.stat("/").unwrap();
    assert_eq!(metadata.path, "/");
    assert!(metadata.is_directory());
}

#[test]
fn test_read_directory() {
    let fs = HelloFS::new();
    assert!(matches!(fs.read("/", 0, -1), Err(FSError::IsDirectory { .. })));
}

#[test]
fn test_write_fails() {
    let mut fs = HelloFS::new();
    assert!(matches!(fs.write("/hello", b"test", 0, none()), Err(FSError::ReadOnly)));
}

#[test]
fn test_create_fails() {
    let mut fs = HelloFS::new();
    assert!(matches!(fs.create("/newfile"), Err(FSError::ReadOnly)));
}

#[test]
fn test_mkdir_fails() {
    let mut fs = HelloFS::new();
    assert!(matches!(fs.mkdir("/newdir", 0o755), Err(FSError::ReadOnly)));
}

#[test]
fn test_remove_fails() {
    let mut fs = HelloFS::new();
    assert!(matches!(fs.remove("/hello"), Err(FSError::ReadOnly)));
}

#[test]
fn test_stat_nonexistent() {
    let fs = HelloFS::new();
    assert!(matches!(fs.stat("/nonexistent"), Err(FSError::NotFound { .. })));
}

// ----- heartbeatfs -----

#[test]
fn test_create_new() {
    let fs = HeartbeatFS::new();
    assert_eq!(fs.beats(), 0);
}

#[test]
fn test_read_status() {
    let fs = HeartbeatFS::new();
    assert_eq!(fs.read("/status", 0, -1).unwrap(), b"ok");
}

#[test]
fn test_read_uptime() {
    let fs = HeartbeatFS::new();
    let uptime = fs.read("/uptime", 0, -1).unwrap();
    let uptime_str = String::from_utf8(uptime).unwrap();
    let _uptime_val: u64 = uptime_str.parse().unwrap();
}

#[test]
fn test_read_beats() {
    let fs = HeartbeatFS::new();
    assert_eq!(fs.read("/beats", 0, -1).unwrap(), b"0");
}

#[test]
fn test_read_last_beat() {
    let fs = HeartbeatFS::new();
    let last_beat = fs.read("/last_beat", 0, -1).unwrap();
    let last_beat_str = String::from_utf8(last_beat).unwrap();
    chrono::DateTime::parse_from_rfc3339(&last_beat_str).unwrap();
}

#[test]
fn test_write_pulse() {
    let mut fs = HeartbeatFS::new();
    fs.write("/pulse", b"beat", 0, none()).unwrap();
    assert_eq!(fs.read("/beats", 0, -1).unwrap(), b"1");
}

#[test]
fn test_write_pulse_multiple() {
    let mut fs = HeartbeatFS::new();
    for _ in 0..5 {
        fs.write("/pulse", b"beat", 0, none()).unwrap();
    }
    assert_eq!(fs.read("/beats", 0, -1).unwrap(), b"5");
}

#[test]
fn test_write_pulse_with_whitespace() {
    let mut fs = HeartbeatFS::new();
    fs.write("/pulse", b" beat ", 0, none()).unwrap();
    assert_eq!(fs.read("/beats", 0, -1).unwrap(), b"1");
}

#[test]
fn test_write_pulse_invalid_value() {
    let mut fs = HeartbeatFS::new();
    assert!(matches!(fs.write("/pulse", b"invalid", 0, none()), Err(FSError::InvalidInput { .. })));
}

#[test]
fn test_write_readonly_status() {
    let mut fs = HeartbeatFS::new();
    assert!(matches!(fs.write("/status", b"error", 0, none()), Err(FSError::ReadOnly)));
}

#[test]
fn test_write_readonly_beats() {
    let mut fs = HeartbeatFS::new();
    assert!(matches!(fs.write("/beats", b"999", 0, none()), Err(FSError::ReadOnly)));
}

#[test]
fn heartbeatfs_test_read_dir() {
    let fs = HeartbeatFS::new();
    let entries = fs.read_dir("/").unwrap();
    assert_eq!(entries.len(), 5);
    let p = paths(&entries);
    for name in ["/status", "/uptime", "/beats", "/last_beat", "/pulse"] {
        assert!(p.contains(&name.to_string()));
    }
}

#[test]
fn heartbeatfs_test_stat_root() {
    let fs = HeartbeatFS::new();
    assert!(fs.stat("/").unwrap().is_directory());
}

#[test]
fn test_stat() {
    let fs = HeartbeatFS::new();
    let metadata = fs.stat("/status").unwrap();
    assert_eq!(metadata.path, "/status");
    assert_eq!(metadata.size, 2);
}

#[test]
fn test_read_invalid_path() {
    let fs = HeartbeatFS::new();
    assert!(matches!(fs.read("/invalid", 0, -1), Err(FSError::NotFound { .. })));
}

#[test]
fn test_stat_invalid_path() {
    let fs = HeartbeatFS::new();
    assert!(matches!(fs.stat("/invalid"), Err(FSError::NotFound { .. })));
}

#[test]
fn test_read_dir_invalid_path() {
    let fs = HeartbeatFS::new();
    assert!(matches!(fs.read_dir("/status"), Err(FSError::NotFound { .. })));
}

#[test]
fn heartbeatfs_test_read_with_offset() {
    let fs = HeartbeatFS::new();
    assert_eq!(fs.read("/status", 1, 2).unwrap(), b"k");
}

#[test]
fn heartbeatfs_test_read_with_size() {
    let fs = HeartbeatFS::new();
    assert_eq!(fs.read("/status", 0, 1).unwrap(), b"o");
}

#[test]
fn heartbeatfs_test_default() {
    let fs = HeartbeatFS::default();
    assert_eq!(fs.read("/beats", 0, -1).unwrap(), b"0");
}

#[test]
fn heartbeatfs_is_read_only_elsewhere() {
    let mut fs = HeartbeatFS::new();
    assert!(matches!(fs.create("/x"), Err(FSError::ReadOnly)));
    assert!(matches!(fs.mkdir("/d", 0o755), Err(FSError::ReadOnly)));
    assert!(matches!(fs.chmod("/status", 0o600), Err(FSError::ReadOnly)));
    assert!(matches!(fs.truncate("/status", 0), Err(FSError::ReadOnly)));
    assert!(fs.is_valid_path("/pulse"));
    assert!(!fs.is_valid_path("/nope"));
}

// ----- devfs -----

#[test]
fn devfs_test_stat_root() {
    let fs = DevFS::new();
    assert!(fs.read_dir("/").unwrap().len() >= 4);
}

#[test]
fn test_stat_dev_null() {
    let fs = DevFS::new();
    assert_eq!(fs.stat("/dev/null").unwrap().path, "/dev/null");
}

#[test]
fn test_stat_dev_zero() {
    let fs = DevFS::new();
    assert_eq!(fs.stat("/dev/zero").unwrap().path, "/dev/zero");
}

#[test]
fn test_nonexistent_returns_not_found() {
    let fs = DevFS::new();
    assert!(matches!(fs.stat("/dev/nonexistent"), Err(FSError::NotFound { .. })));
    assert!(matches!(fs.read("/dev/nonexistent", 0, 10), Err(FSError::NotFound { .. })));
}

#[test]
fn test_devfs_exists() {
    let fs = DevFS::new();
    assert!(fs.stat("/dev/null").is_ok());
    assert!(fs.stat("/dev/zero").is_ok());
    assert!(fs.stat("/dev/random").is_ok());
    assert!(fs.stat("/dev/urandom").is_ok());
}

#[test]
fn test_read_null() {
    let fs = DevFS::new();
    assert!(fs.read("/dev/null", 0, 100).unwrap().is_empty());
}

#[test]
fn test_read_zero() {
    let fs = DevFS::new();
    let data = fs.read("/dev/zero", 0, 100).unwrap();
    assert_eq!(data.len(), 100);
    assert!(data.iter().all(|&b| b == 0));
}

#[test]
fn test_write_null() {
    let mut fs = DevFS::new();
    assert_eq!(fs.write("/dev/null", b"test data", 0, none()).unwrap(), 9);
}

#[test]
fn devfs_test_read_dir() {
    let fs = DevFS::new();
    assert!(fs.read_dir("/").unwrap().len() >= 4);
}

#[test]
fn devfs_devices_and_random_reads() {
    let mut fs = DevFS::new();
    assert_eq!(fs.get_device("/dev/zero"), Some(DeviceType::Zero));
    assert_eq!(fs.read("/dev/random", 0, 16).unwrap().len(), 16);
    assert!(fs.register_device("/dev/extra", DeviceType::Zero).is_ok());
    assert_eq!(fs.read("/dev/extra", 0, 3).unwrap(), vec![0, 0, 0]);
    assert!(matches!(fs.mkdir("/dev/d", 0o755), Err(FSError::NotSupported { .. })));
}

// ----- httpfs -----

#[test]
fn test_create_request_directory() {
    let mut fs = HttpFS::new();
    fs.mkdir("/requests/test001", 0o755).unwrap();
    let entries = fs.read_dir("/requests").unwrap();
    assert!(entries.iter().any(|e| e.path == "/requests/test001"));
}

#[test]
fn test_write_url() {
    let mut fs = HttpFS::new();
    fs.mkdir("/requests/test001", 0o755).unwrap();
    fs.create("/requests/test001/url").unwrap();
    fs.write("/requests/test001/url", b"https://example.com", 0, none()).unwrap();
    assert_eq!(fs.read("/requests/test001/url", 0, -1).unwrap(), b"https://example.com");
}

#[test]
fn test_write_method() {
    let mut fs = HttpFS::new();
    fs.mkdir("/requests/test001", 0o755).unwrap();
    fs.create("/requests/test001/method").unwrap();
    fs.write("/requests/test001/method", b"GET", 0, none()).unwrap();
    assert_eq!(fs.read("/requests/test001/method", 0, -1).unwrap(), b"GET");
}

#[test]
fn test_parse_request_id() {
    assert_eq!(parse_request_id("/requests/req001/url").unwrap(), "req001");
}

#[test]
fn test_parse_request_id_invalid() {
    assert!(parse_request_id("/invalid/path").is_err());
}

#[test]
fn test_responses_read_only() {
    let mut fs = HttpFS::new();
    fs.mkdir("/responses/test001", 0o755).unwrap();
    fs.create("/responses/test001/status").unwrap();
    assert!(matches!(fs.write("/responses/test001/status", b"test", 0, none()), Err(FSError::ReadOnly)));
}

#[test]
fn test_cannot_create_file_in_requests_root() {
    let mut fs = HttpFS::new();
    assert!(fs.create("/requests/direct_file.txt").is_err());
}

#[test]
fn httpfs_test_stat_root() {
    let fs = HttpFS::new();
    assert!(fs.stat("/").unwrap().is_directory());
}

#[test]
fn test_read_dir_root() {
    let fs = HttpFS::new();
    let p = paths(&fs.read_dir("/").unwrap());
    assert!(p.contains(&"/requests".to_string()));
    assert!(p.contains(&"/responses".to_string()));
}

#[test]
fn test_url_to_cache_key() {
    let a = url_to_cache_key("https://example.com/foo");
    let b = url_to_cache_key("https://example.com/foo");
    let c = url_to_cache_key("https://example.com/bar");
    assert_eq!(a, b);
    assert_ne!(a, c);
    assert_eq!(a.len(), 16);
    assert!(a.chars().all(|c| c.is_ascii_hexdigit()));
}

#[test]
fn test_parse_cache_control() {
    let mut h = vec![("cache-control".to_string(), "max-age=300".to_string())];
    let d = parse_cache_control(&h);
    assert_eq!(d.max_age_secs, Some(300));
    assert!(!d.no_store);
    h.clear();
    h.push(("Cache-Control".to_string(), "no-store".to_string()));
    let d = parse_cache_control(&h);
    assert!(d.no_store);
    h.clear();
    h.push(("cache-control".to_string(), "no-store, max-age=0".to_string()));
    let d = parse_cache_control(&h);
    assert!(d.no_store);
}

#[test]
fn test_get_cached_response_miss() {
    let fs = HttpFS::new();
    let key = url_to_cache_key("https://example.com/");
    assert!(fs.get_cached_response(&key).is_none());
}

fn header<'a>(h: &'a [(String, String)], name: &str) -> Option<&'a str> {
    h.iter().find(|(k, _)| k == name).map(|(_, v)| v.as_str())
}

#[test]
fn test_set_and_get_cached_response() {
    let mut fs = HttpFS::new();
    let key = url_to_cache_key("https://example.com/foo");
    let headers = vec![("content-type".to_string(), "text/plain".to_string())];
    fs.set_cached_response(&key, 200, &headers, b"cached body".to_vec(), 60).unwrap().unwrap();
    let cached = fs.get_cached_response(&key).unwrap();
    assert_eq!(cached.0, 200);
    assert_eq!(header(&cached.1, "content-type"), Some("text/plain"));
    assert_eq!(cached.2, b"cached body");
}

#[test]
fn test_cached_response_expired() {
    let mut fs = HttpFS::new();
    let key = url_to_cache_key("https://example.com/expired");
    fs.set_cached_response(&key, 200, &vec![], b"old".to_vec(), 1).unwrap().unwrap();
    assert!(fs.get_cached_response(&key).is_some());
    wait(std::time::Duration::from_secs(2));
    assert!(fs.get_cached_response(&key).is_none());
}

#[test]
fn cache_entries_expire_at_the_given_time() {
    let mut fs = HttpFS::new();
    fs.set_cached_response_at("k", 200, &vec![("ETag".to_string(), "\"v1\"".to_string())], b"b".to_vec(), 10, 100).unwrap();
    assert!(fs.get_cached_response_at("k", 110).is_some());
    assert!(fs.get_cached_response_at("k", 111).is_none());
    assert_eq!(fs.get_cached_etag("k"), Some("\"v1\"".to_string()));
    assert_eq!(fs.get_cached_body_only("k"), Some(b"b".to_vec()));
}

#[test]
fn request_files_drive_a_request() {
    let mut fs = HttpFS::new();
    fs.mkdir("/requests/r1", 0o755).unwrap();
    fs.create("/requests/r1/url").unwrap();
    fs.write("/requests/r1/url", b"https://example.com/x", 0, none()).unwrap();
    fs.create("/requests/r1/method").unwrap();
    fs.write("/requests/r1/method", b"post", 0, none()).unwrap();
    fs.create("/requests/r1/trigger").unwrap();
    fs.write("/requests/r1/trigger", b"send", 0, none()).unwrap();
    assert_eq!(fs.take_pending_request(), Some("r1".to_string()));
    assert_eq!(fs.take_pending_request(), None);
    let plan = match fs.begin_request_at("r1", 1_000).unwrap() {
        RequestStep::Send(plan) => plan,
        _ => panic!("expected a request to send"),
    };
    assert_eq!(plan.method, "POST");
    assert_eq!(plan.url, "https://example.com/x");
    assert!(!plan.is_get);
    fs.finish_request_at("r1", &plan, 201, vec![("x-a".to_string(), "1".to_string())], b"made".to_vec(), 1_000).unwrap();
    assert_eq!(fs.read("/responses/r1/status", 0, -1).unwrap(), b"201");
    assert_eq!(fs.read("/responses/r1/body", 0, -1).unwrap(), b"made");
}

fn wait(d: std::time::Duration) {
    let start = std::time::Instant::now();
    while start.elapsed() < d {
        std::hint::spin_loop();
    }
}

// ----- documented behaviour of remove, create and write -----

#[test]
fn kvfs_remove_makes_path_disappear() {
    let mut fs = KvFS::new();
    fs.create("/f.txt").unwrap();
    assert!(fs.remove("/f.txt").is_ok());
    assert!(matches!(fs.stat("/f.txt"), Err(FSError::NotFound { .. })));
    assert!(fs.read("/f.txt", 0, -1).is_err());
}

#[test]
fn kvfs_create_over_directory_fails() {
    let mut fs = KvFS::new();
    fs.mkdir("/d", 0o755).unwrap();
    assert!(matches!(fs.create("/d"), Err(FSError::AlreadyExists { .. })));
    assert!(fs.stat("/d").unwrap().is_directory());
}

#[test]
fn kvfs_write_past_end_extends_file() {
    let mut fs = KvFS::new();
    fs.create("/t").unwrap();
    fs.write("/t", b"Hello", 0, none()).unwrap();
    assert_eq!(fs.write("/t", b"World!", 3, none()).unwrap(), 6);
    assert_eq!(fs.read("/t", 0, -1).unwrap(), b"HelWorld!".to_vec());
    assert_eq!(fs.stat("/t").unwrap().size, 9);
}

#[test]
fn httpfs_remove_non_empty_directory_keeps_it() {
    let mut fs = HttpFS::new();
    fs.mkdir("/requests/r1", 0o755).unwrap();
    fs.create("/requests/r1/url").unwrap();
    assert!(matches!(fs.remove("/requests/r1"), Err(FSError::DirectoryNotEmpty)));
    assert!(fs.stat("/requests/r1").unwrap().is_directory());
    assert!(fs.stat("/requests/r1/url").is_ok());
}

#[test]
fn httpfs_remove_all_removes_the_path_too() {
    let mut fs = HttpFS::new();
    fs.mkdir("/requests/r1", 0o755).unwrap();
    fs.create("/requests/r1/url").unwrap();
    assert!(fs.remove_all("/requests/r1").is_ok());
    assert!(matches!(fs.stat("/requests/r1"), Err(FSError::NotFound { .. })));
    assert!(matches!(fs.stat("/requests/r1/url"), Err(FSError::NotFound { .. })));
    assert!(fs.stat("/requests").is_ok());
    assert!(fs.stat("/responses").is_ok());
    assert!(fs.stat("/cache").is_ok());
}

#[test]
fn httpfs_write_inside_file_overwrites_range() {
    let mut fs = HttpFS::new();
    fs.mkdir("/requests/r1", 0o755).unwrap();
    fs.create("/requests/r1/url").unwrap();
    fs.write("/requests/r1/url", b"https://example.com", 0, none()).unwrap();
    assert_eq!(fs.write("/requests/r1/url", b"ftp", 0, none()).unwrap(), 3);
    assert_eq!(fs.read("/requests/r1/url", 0, -1).unwrap(), b"ftpps://example.com".to_vec());
    fs.write("/requests/r1/url", b"ftp://", 0, none()).unwrap();
    assert_eq!(fs.read("/requests/r1/url", 0, -1).unwrap(), b"ftp:////example.com".to_vec());
}

#[test]
fn triggers_are_queued_in_order() {
    let mut fs = HttpFS::new();
    for id in ["a", "b"] {
        let dir = format!("/requests/{}", id);
        fs.mkdir(&dir, 0o755).unwrap();
        let trigger = format!("{}/trigger", dir);
        fs.create(&trigger).unwrap();
        fs.write(&trigger, b"send\n", 0, none()).unwrap();
    }
    assert_eq!(fs.take_pending_request(), Some("a".to_string()));
    assert_eq!(fs.take_pending_request(), Some("b".to_string()));
    assert_eq!(fs.take_pending_request(), None);
}

#[test]
fn stored_response_is_complete() {
    let mut fs = HttpFS::new();
    let headers = vec![("content-type".to_string(), "text/plain".to_string())];
    assert!(fs.store_response_direct("r9", 201, &headers, b"made".to_vec()).is_ok());
    assert_eq!(fs.read("/responses/r9/status", 0, -1).unwrap(), b"201".to_vec());
    assert_eq!(fs.read("/responses/r9/body", 0, -1).unwrap(), b"made".to_vec());
    let json = String::from_utf8(fs.read("/responses/r9/headers.json", 0, -1).unwrap()).unwrap();
    assert_eq!(json, "{\"content-type\":\"text/plain\"}");
}

#[test]
fn kvfs_create_and_mkdir_need_a_parent_directory() {
    let mut fs = KvFS::new();
    assert!(matches!(fs.create("/missing/f.txt"), Err(FSError::NotFound { .. })));
    assert!(matches!(fs.mkdir("/missing/d", 0o755), Err(FSError::NotFound { .. })));
    fs.create("/f.txt").unwrap();
    assert!(matches!(fs.create("/f.txt/g"), Err(FSError::NotADirectory { .. })));
    fs.mkdir("/d", 0o755).unwrap();
    fs.create("/d/g").unwrap();
    fs.mkdir("/d/e", 0o755).unwrap();
}

#[test]
fn heartbeat_beats_file_follows_pulses() {
    let mut fs = HeartbeatFS::new();
    assert_eq!(fs.read("/beats", 0, -1).unwrap(), b"0");
    assert!(fs.write("/status", b"beat", 0, none()).is_err());
    assert_eq!(fs.read("/beats", 0, -1).unwrap(), b"0");
    fs.write("/pulse", b"beat", 0, none()).unwrap();
    fs.write("/pulse", b" beat\n", 0, none()).unwrap();
    assert_eq!(fs.read("/beats", 0, -1).unwrap(), b"2");
}

#[test]
fn cache_key_is_sixteen_hex_digits() {
    let a = url_to_cache_key("https://example.com/foo");
    assert_eq!(a, url_to_cache_key("https://example.com/foo"));
    assert_eq!(a.len(), 16);
    assert!(a.chars().all(|c| c.is_ascii_digit() || ('a'..='f').contains(&c)));
}

#[test]
fn kvfs_remove_non_empty_directory_fails_and_remove_all_clears_it() {
    let mut fs = KvFS::new();
    fs.mkdir("/d", 0o755).unwrap();
    fs.mkdir("/d/e", 0o755).unwrap();
    fs.create("/d/e/f").unwrap();
    assert!(matches!(fs.remove("/d"), Err(FSError::DirectoryNotEmpty)));
    assert!(fs.stat("/d").unwrap().is_directory());
    assert!(fs.remove_all("/d").is_ok());
    assert!(matches!(fs.stat("/d"), Err(FSError::NotFound { .. })));
    assert!(matches!(fs.stat("/d/e"), Err(FSError::NotFound { .. })));
    assert!(fs.read("/d/e/f", 0, -1).is_err());
}

#[test]
fn kvfs_read_dir_lists_direct_children_only() {
    let mut fs = KvFS::new();
    fs.mkdir("/dir", 0o755).unwrap();
    fs.mkdir("/dir/sub", 0o755).unwrap();
    fs.create("/dir/sub/f.txt").unwrap();
    fs.create("/dir/a.txt").unwrap();
    fs.create("/dirx.txt").unwrap();
    let mut listed = paths(&fs.read_dir("/dir").unwrap());
    listed.sort();
    assert_eq!(listed, vec!["/dir/a.txt".to_string(), "/dir/sub".to_string()]);
}

#[test]
fn httpfs_read_dir_shows_a_child_with_its_own_metadata() {
    let mut fs = HttpFS::new();
    fs.mkdir("/requests/r1", 0o755).unwrap();
    fs.create("/requests/r1/url").unwrap();
    let v = fs.read_dir("/requests").unwrap();
    assert_eq!(v.len(), 1);
    assert_eq!(v[0].path, "/requests/r1");
    assert!(v[0].is_directory());
}
