use std::time::Duration;

use racfs::cli::{ls_line, shows_progress, tree_name, tree_rows, tree_subpath, tree_descends, tree_push_pending, CP_PROGRESS_THRESHOLD};
use racfs::client::types::{DirectoryEntry, FileMetadataResponse};
use racfs::client::{
    Client, ClientBuilder, Error, RetryStep, DEFAULT_CIRCUIT_FAILURE_THRESHOLD,
    DEFAULT_CIRCUIT_OPEN_DURATION_SECS, DEFAULT_MAX_RETRIES,
};
use racfs::http_error::{ErrorCode, HttpErrorResponse};

// ----- error codes and responses -----

#[test]
fn error_code_to_status_bad_request() {
    assert_eq!(ErrorCode::BadRequest.status_code(), axum::http::StatusCode::BAD_REQUEST.as_u16());
}

#[test]
fn error_code_to_status_unauthorized() {
    assert_eq!(ErrorCode::Unauthorized.status_code(), axum::http::StatusCode::UNAUTHORIZED.as_u16());
}

#[test]
fn error_code_to_status_forbidden() {
    assert_eq!(ErrorCode::Forbidden.status_code(), axum::http::StatusCode::FORBIDDEN.as_u16());
}

#[test]
fn error_code_to_status_not_found() {
    assert_eq!(ErrorCode::NotFound.status_code(), axum::http::StatusCode::NOT_FOUND.as_u16());
}

#[test]
fn error_code_to_status_conflict() {
    assert_eq!(ErrorCode::Conflict.status_code(), axum::http::StatusCode::CONFLICT.as_u16());
}

#[test]
fn error_code_to_status_internal_server_error() {
    assert_eq!(
        ErrorCode::InternalServerError.status_code(),
        axum::http::StatusCode::INTERNAL_SERVER_ERROR.as_u16()
    );
}

#[test]
fn error_code_to_status_not_implemented() {
    assert_eq!(ErrorCode::NotImplemented.status_code(), axum::http::StatusCode::NOT_IMPLEMENTED.as_u16());
}

#[test]
fn error_code_to_status_service_unavailable() {
    assert_eq!(
        ErrorCode::ServiceUnavailable.status_code(),
        axum::http::StatusCode::SERVICE_UNAVAILABLE.as_u16()
    );
}

#[test]
fn error_code_to_status_gateway_timeout() {
    assert_eq!(ErrorCode::GatewayTimeout.status_code(), axum::http::StatusCode::GATEWAY_TIMEOUT.as_u16());
}

#[test]
fn error_code_to_status_insufficient_storage() {
    assert_eq!(
        ErrorCode::InsufficientStorage.status_code(),
        axum::http::StatusCode::INSUFFICIENT_STORAGE.as_u16()
    );
}

#[test]
fn error_code_display() {
    assert_eq!(ErrorCode::BadRequest.to_display_string(), "BadRequest");
    assert_eq!(ErrorCode::NotFound.to_display_string(), "NotFound");
    assert_eq!(ErrorCode::GatewayTimeout.to_display_string(), "GatewayTimeout");
}

#[test]
fn error_code_display_all_variants() {
    assert_eq!(ErrorCode::Unauthorized.to_display_string(), "Unauthorized");
    assert_eq!(ErrorCode::Forbidden.to_display_string(), "Forbidden");
    assert_eq!(ErrorCode::Conflict.to_display_string(), "Conflict");
    assert_eq!(ErrorCode::InternalServerError.to_display_string(), "InternalServerError");
    assert_eq!(ErrorCode::NotImplemented.to_display_string(), "NotImplemented");
    assert_eq!(ErrorCode::ServiceUnavailable.to_display_string(), "ServiceUnavailable");
    assert_eq!(ErrorCode::InsufficientStorage.to_display_string(), "InsufficientStorage");
}

#[test]
fn error_code_from_str_known() {
    assert_eq!(ErrorCode::from_name("BadRequest"), ErrorCode::BadRequest);
    assert_eq!(ErrorCode::from_name("NotFound"), ErrorCode::NotFound);
    assert_eq!(ErrorCode::from_name("Conflict"), ErrorCode::Conflict);
    assert_eq!(ErrorCode::from_name("InsufficientStorage"), ErrorCode::InsufficientStorage);
    assert_eq!(ErrorCode::from_name("Unauthorized"), ErrorCode::Unauthorized);
    assert_eq!(ErrorCode::from_name("Forbidden"), ErrorCode::Forbidden);
    assert_eq!(ErrorCode::from_name("InternalServerError"), ErrorCode::InternalServerError);
    assert_eq!(ErrorCode::from_name("NotImplemented"), ErrorCode::NotImplemented);
    assert_eq!(ErrorCode::from_name("ServiceUnavailable"), ErrorCode::ServiceUnavailable);
    assert_eq!(ErrorCode::from_name("GatewayTimeout"), ErrorCode::GatewayTimeout);
}

#[test]
fn error_code_from_str_unknown_defaults_to_internal() {
    assert_eq!(ErrorCode::from_name("Unknown"), ErrorCode::InternalServerError);
    assert_eq!(ErrorCode::from_name(""), ErrorCode::InternalServerError);
}

#[test]
fn error_code_name_roundtrip() {
    for c in [
        ErrorCode::BadRequest,
        ErrorCode::Unauthorized,
        ErrorCode::Forbidden,
        ErrorCode::NotFound,
        ErrorCode::Conflict,
        ErrorCode::InternalServerError,
        ErrorCode::NotImplemented,
        ErrorCode::ServiceUnavailable,
        ErrorCode::GatewayTimeout,
        ErrorCode::InsufficientStorage,
    ] {
        assert_eq!(ErrorCode::from_name(c.name()), c);
    }
    assert_eq!(ErrorCode::from_name("notfound"), ErrorCode::InternalServerError);
}

#[test]
fn new_sets_code_and_message_no_detail() {
    let r = HttpErrorResponse::new(ErrorCode::NotFound, "file missing");
    assert_eq!(r.code, ErrorCode::NotFound);
    assert_eq!(r.message, "file missing");
    assert!(r.detail.is_none());
}

#[test]
fn new_with_detail_sets_detail() {
    let r = HttpErrorResponse::new_with_detail(ErrorCode::BadRequest, "invalid path", "path: /foo/../bar");
    assert_eq!(r.code, ErrorCode::BadRequest);
    assert_eq!(r.message, "invalid path");
    assert_eq!(r.detail.as_deref(), Some("path: /foo/../bar"));
}

#[test]
fn bad_request_helper() {
    let r = HttpErrorResponse::bad_request("bad input");
    assert_eq!(r.code, ErrorCode::BadRequest);
    assert_eq!(r.message, "bad input");
}

#[test]
fn not_found_helper() {
    let r = HttpErrorResponse::not_found("resource");
    assert_eq!(r.code, ErrorCode::NotFound);
    assert_eq!(r.message, "resource");
}

#[test]
fn internal_helper() {
    let r = HttpErrorResponse::internal("server error");
    assert_eq!(r.code, ErrorCode::InternalServerError);
    assert_eq!(r.message, "server error");
}

#[test]
fn display_without_detail() {
    let r = HttpErrorResponse::new(ErrorCode::NotFound, "x");
    let s = r.to_display_string();
    assert!(s.contains("NotFound"));
    assert!(s.contains("x"));
    assert!(!s.contains('('));
}

#[test]
fn display_with_detail() {
    let r = HttpErrorResponse::new_with_detail(ErrorCode::Forbidden, "denied", "op: read");
    let s = r.to_display_string();
    assert!(s.contains("Forbidden"));
    assert!(s.contains("denied"));
    assert!(s.contains("op: read"));
}

#[test]
fn error_response_text_is_exact() {
    let r = HttpErrorResponse::new_with_detail(ErrorCode::Forbidden, "denied", "op: read");
    assert_eq!(r.to_display_string(), "Forbidden: denied (op: read)");
    assert_eq!(HttpErrorResponse::not_found("x").to_display_string(), "NotFound: x");
}

// ----- client -----

#[test]
fn test_client_new_with_trailing_slash() {
    let client = Client::new("http://localhost:8080/");
    assert_eq!(client.base_url(), "http://localhost:8080/");
}

#[test]
fn test_client_new_without_trailing_slash() {
    let client = Client::new("http://localhost:8080");
    assert_eq!(client.base_url(), "http://localhost:8080");
}

#[test]
fn test_error_api_display() {
    let error = Error::Api { code: "NotFound".to_string(), message: "File not found".to_string(), detail: None };
    assert!(error.to_display_string().contains("API error"));
    assert!(error.to_display_string().contains("NotFound"));
    assert!(error.to_display_string().contains("File not found"));
}

#[test]
fn test_client_builder_pool_options() {
    let client = Client::builder()
        .pool_max_idle_per_host(32)
        .pool_idle_timeout(Duration::from_secs(60))
        .build("http://localhost:8080");
    assert_eq!(client.base_url(), "http://localhost:8080");
    assert_eq!(client.pool_max_idle_per_host(), Some(32));
    assert_eq!(client.pool_idle_timeout(), Some(Duration::from_secs(60)));
}

#[test]
fn test_error_circuit_open_display() {
    let s = Error::CircuitOpen.to_display_string();
    assert!(s.contains("Circuit breaker"));
    assert!(s.contains("cooldown"));
}

#[test]
fn test_error_not_authenticated_display() {
    assert!(Error::NotAuthenticated.to_display_string().contains("Not authenticated"));
}

#[test]
fn test_error_internal_display() {
    let e = Error::Internal { message: "test message".to_string() };
    let s = e.to_display_string();
    assert!(s.contains("Internal"));
    assert!(s.contains("test message"));
}

#[test]
fn test_auth_set_token_and_get() {
    let mut client = Client::new("http://localhost:8080");
    assert!(!client.is_authenticated());
    assert!(client.token().is_none());
    client.set_token("my-jwt-token");
    assert!(client.is_authenticated());
    assert_eq!(client.token().as_deref(), Some("my-jwt-token"));
}

#[test]
fn test_auth_logout_clears_token() {
    let mut client = Client::new("http://localhost:8080");
    client.set_token("token");
    assert!(client.is_authenticated());
    client.logout();
    assert!(!client.is_authenticated());
    assert!(client.token().is_none());
}

#[test]
fn client_error_texts_are_exact() {
    let e = Error::Api { code: "NotFound".to_string(), message: "gone".to_string(), detail: Some("op".to_string()) };
    assert_eq!(e.to_display_string(), "API error (NotFound): gone (op)");
    assert_eq!(Error::Http { message: "refused".to_string() }.to_display_string(), "HTTP error: refused");
}

#[test]
fn urls_and_authorization() {
    let mut c = Client::new("http://h:1");
    assert_eq!(c.api_url("files"), "http://h:1/api/v1/files");
    assert_eq!(c.authorization(), None);
    c.set_token("abc");
    assert_eq!(c.authorization(), Some("Bearer abc".to_string()));
    let b = ClientBuilder::default();
    let d = b.build("x");
    assert_eq!(d.pool_max_idle_per_host(), None);
    assert_eq!(d.pool_idle_timeout(), None);
}

#[test]
fn transient_failures_are_retried_with_backoff() {
    let mut c = Client::new("http://h");
    let mut waits = Vec::new();
    for attempt in 0..DEFAULT_MAX_RETRIES {
        match c.after_send_failure(attempt, true, "timeout".to_string(), 0) {
            RetryStep::Retry { backoff_ms } => waits.push(backoff_ms),
            RetryStep::Fail(_) => panic!("should retry"),
        }
    }
    assert_eq!(waits, vec![100, 200, 400]);
    match c.after_send_failure(DEFAULT_MAX_RETRIES, true, "timeout".to_string(), 0) {
        RetryStep::Fail(Error::Http { message }) => assert_eq!(message, "timeout"),
        _ => panic!("should give up"),
    }
    match c.after_send_failure(0, false, "bad".to_string(), 0) {
        RetryStep::Fail(Error::Http { message }) => assert_eq!(message, "bad"),
        _ => panic!("should not retry"),
    }
}

#[test]
fn circuit_opens_after_repeated_failures_and_half_opens() {
    let mut c = Client::new("http://h");
    for _ in 0..DEFAULT_CIRCUIT_FAILURE_THRESHOLD - 1 {
        c.record_circuit_failure(1_000);
    }
    assert!(c.check_circuit(1_000).is_ok());
    c.record_circuit_failure(1_000);
    let open_ms = DEFAULT_CIRCUIT_OPEN_DURATION_SECS * 1000;
    assert!(matches!(c.check_circuit(1_000), Err(Error::CircuitOpen)));
    assert!(matches!(c.check_circuit(1_000 + open_ms - 1), Err(Error::CircuitOpen)));
    assert!(c.check_circuit(1_000 + open_ms).is_ok());
    assert!(c.check_circuit(1_000 + open_ms).is_ok());
    c.record_circuit_failure(0);
    c.record_success();
    for _ in 0..DEFAULT_CIRCUIT_FAILURE_THRESHOLD - 1 {
        c.record_circuit_failure(0);
    }
    assert!(c.check_circuit(0).is_ok());
}

#[test]
fn failed_responses_become_api_errors() {
    let body = HttpErrorResponse::new_with_detail(ErrorCode::Conflict, "exists", "path: /a");
    match Client::error_from_response("409 Conflict", Some(body)) {
        Error::Api { code, message, detail } => {
            assert_eq!(code, "Conflict");
            assert_eq!(message, "exists");
            assert_eq!(detail.as_deref(), Some("path: /a"));
        }
        _ => panic!("expected an API error"),
    }
    match Client::error_from_response("502 Bad Gateway", None) {
        Error::Api { code, message, detail } => {
            assert_eq!(code, "InternalServerError");
            assert_eq!(message, "HTTP 502 Bad Gateway error");
            assert!(detail.is_none());
        }
        _ => panic!("expected an API error"),
    }
}

// ----- command-line decisions -----

fn entry(path: &str, size: u64, modified: Option<&str>) -> DirectoryEntry {
    DirectoryEntry {
        permissions: "rw-r--r--".to_string(),
        size,
        modified: modified.map(|s| s.to_string()),
        path: path.to_string(),
        file_type: None,
    }
}

#[test]
fn listing_lines_align_sizes() {
    assert_eq!(ls_line(&entry("/a", 42, None)), "rw-r--r--         42 unknown /a");
    assert_eq!(
        ls_line(&entry("/b", 12345678901, Some("2024-01-01"))),
        "rw-r--r-- 12345678901 2024-01-01 /b"
    );
    assert!(shows_progress(CP_PROGRESS_THRESHOLD));
    assert!(!shows_progress(CP_PROGRESS_THRESHOLD - 1));
}

#[test]
fn tree_rows_names_and_branches() {
    assert_eq!(tree_name("/a/b/"), "b");
    assert_eq!(tree_name("plain"), "plain");
    let entries = vec![
        entry("/d/.", 0, None),
        entry("/d/x/", 0, None),
        entry("/d/..", 0, None),
        entry("/d/y", 0, None),
    ];
    let rows = tree_rows("", &entries);
    assert_eq!(rows.len(), 2);
    assert_eq!(rows[0].line, "├── x");
    assert_eq!(rows[0].full_path, "/d/x");
    assert_eq!(rows[0].child_prefix, "│   ");
    assert_eq!(rows[1].line, "└── y");
    assert_eq!(rows[1].child_prefix, "    ");
    assert_eq!(tree_subpath("/", "a"), "/a");
    assert_eq!(tree_subpath("/d", "a"), "/d/a");
    assert_eq!(tree_subpath("/d/", "a"), "/d/a");
    let m = FileMetadataResponse {
        file_type: "directory".to_string(),
        permissions: "rwx".to_string(),
        size: 0,
        modified: None,
        path: "/d".to_string(),
        symlink_target: None,
    };
    assert!(tree_descends(&m));
}

#[test]
fn tree_lists_found_directories_next_in_order() {
    let mut stack = vec![("".to_string(), "/x".to_string())];
    let found = vec![("a".to_string(), "/a".to_string()), ("b".to_string(), "/b".to_string())];
    tree_push_pending(&mut stack, found);
    assert_eq!(stack.pop().unwrap().1, "/a");
    assert_eq!(stack.pop().unwrap().1, "/b");
    assert_eq!(stack.pop().unwrap().1, "/x");
}
