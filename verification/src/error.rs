//! Error types for filesystem operations.
use vstd::prelude::*;
use crate::text::{concat_str, owned};

verus! {

/// Errors that can occur during filesystem operations.
///
/// Used as the error type for filesystem `Result<T, FSError>`. Convertible from
/// `std::io::Error` and `FromUtf8Error`. Common variants: `NotFound`, `PermissionDenied`,
/// `AlreadyExists`, `ReadOnly`, `NotSupported`, `Io`.
#[derive(Debug, Clone)]
pub enum FSError {
    NotFound { path: String },
    PermissionDenied { path: String },
    AlreadyExists { path: String },
    IsDirectory { path: String },
    NotADirectory { path: String },
    InvalidInput { message: String },
    Io { message: String },
    NotSupported { message: String },
    AlreadyInUse { handle_id: String },
    InvalidHandle { handle_id: String },
    OutOfMemory,
    PathTooLong,
    FilenameTooLong,
    ReadOnly,
    StorageFull,
    TooManyOpenFiles,
    DirectoryNotEmpty,
    CrossDeviceLink,
    InvalidUtf8 { message: String },
    Timeout,
}

/// `e` is a not-found error for the path `p`.
pub open spec fn not_found_for(e: FSError, p: Seq<char>) -> bool {
    e matches FSError::NotFound { path } && path@ == p
}

/// `e` is an already-exists error for the path `p`.
pub open spec fn exists_for(e: FSError, p: Seq<char>) -> bool {
    e matches FSError::AlreadyExists { path } && path@ == p
}

/// `e` is an is-a-directory error for the path `p`.
pub open spec fn is_dir_for(e: FSError, p: Seq<char>) -> bool {
    e matches FSError::IsDirectory { path } && path@ == p
}

/// `e` is a not-a-directory error for the path `p`.
pub open spec fn not_dir_for(e: FSError, p: Seq<char>) -> bool {
    e matches FSError::NotADirectory { path } && path@ == p
}

/// `e` is a permission-denied error for the path `p`.
pub open spec fn denied_for(e: FSError, p: Seq<char>) -> bool {
    e matches FSError::PermissionDenied { path } && path@ == p
}

/// `e` is an invalid-input error with message `m`.
pub open spec fn invalid_input_with(e: FSError, m: Seq<char>) -> bool {
    e matches FSError::InvalidInput { message } && message@ == m
}

/// `e` is a not-supported error with message `m`.
pub open spec fn not_supported_msg(e: FSError, m: Seq<char>) -> bool {
    e matches FSError::NotSupported { message } && message@ == m
}

impl FSError {
    /// The human-readable text of the error.
    pub open spec fn display_text(&self) -> Seq<char> {
        match self {
            FSError::NotFound { path } => "path not found: "@ + path@,
            FSError::PermissionDenied { path } => "permission denied: "@ + path@,
            FSError::AlreadyExists { path } => "path already exists: "@ + path@,
            FSError::IsDirectory { path } => "path is a directory: "@ + path@,
            FSError::NotADirectory { path } => "path is not a directory: "@ + path@,
            FSError::InvalidInput { message } => "invalid input: "@ + message@,
            FSError::Io { message } => "I/O error: "@ + message@,
            FSError::NotSupported { message } => "operation not supported: "@ + message@,
            FSError::AlreadyInUse { handle_id } => "handle already in use: "@ + handle_id@,
            FSError::InvalidHandle { handle_id } => "invalid handle: "@ + handle_id@,
            FSError::OutOfMemory => "out of memory"@,
            FSError::PathTooLong => "path too long"@,
            FSError::FilenameTooLong => "filename too long"@,
            FSError::ReadOnly => "read-only filesystem"@,
            FSError::StorageFull => "storage full"@,
            FSError::TooManyOpenFiles => "too many open files"@,
            FSError::DirectoryNotEmpty => "directory not empty"@,
            FSError::CrossDeviceLink => "cross-device link not allowed"@,
            FSError::InvalidUtf8 { message } => "invalid UTF-8: "@ + message@,
            FSError::Timeout => "timeout"@,
        }
    }

    /// The human-readable text of the error (what `Display` shows).
    pub fn to_display_string(&self) -> (r: String)
        ensures
            r@ == self.display_text(),
    {
        match self {
            FSError::NotFound { path } => concat_str("path not found: ", path.as_str()),
            FSError::PermissionDenied { path } => concat_str("permission denied: ", path.as_str()),
            FSError::AlreadyExists { path } => concat_str("path already exists: ", path.as_str()),
            FSError::IsDirectory { path } => concat_str("path is a directory: ", path.as_str()),
            FSError::NotADirectory { path } => concat_str(
                "path is not a directory: ",
                path.as_str(),
            ),
            FSError::InvalidInput { message } => concat_str("invalid input: ", message.as_str()),
            FSError::Io { message } => concat_str("I/O error: ", message.as_str()),
            FSError::NotSupported { message } => concat_str(
                "operation not supported: ",
                message.as_str(),
            ),
            FSError::AlreadyInUse { handle_id } => concat_str(
                "handle already in use: ",
                handle_id.as_str(),
            ),
            FSError::InvalidHandle { handle_id } => concat_str(
                "invalid handle: ",
                handle_id.as_str(),
            ),
            FSError::OutOfMemory => owned("out of memory"),
            FSError::PathTooLong => owned("path too long"),
            FSError::FilenameTooLong => owned("filename too long"),
            FSError::ReadOnly => owned("read-only filesystem"),
            FSError::StorageFull => owned("storage full"),
            FSError::TooManyOpenFiles => owned("too many open files"),
            FSError::DirectoryNotEmpty => owned("directory not empty"),
            FSError::CrossDeviceLink => owned("cross-device link not allowed"),
            FSError::InvalidUtf8 { message } => concat_str("invalid UTF-8: ", message.as_str()),
            FSError::Timeout => owned("timeout"),
        }
    }

    /// A not-found error for `path`.
    pub fn not_found(path: &str) -> (r: FSError)
        ensures
            r is NotFound,
            r->NotFound_path@ == path@,
    {
        FSError::NotFound { path: owned(path) }
    }

    /// An error for an operation that the filesystem does not support.
    pub fn not_supported(message: &str) -> (r: FSError)
        ensures
            r is NotSupported,
            r->NotSupported_message@ == message@,
    {
        FSError::NotSupported { message: owned(message) }
    }

    /// An invalid-input error with `message`.
    /// An already-exists error for `path`.
    pub fn already_exists(path: &str) -> (r: FSError)
        ensures
            exists_for(r, path@),
    {
        FSError::AlreadyExists { path: owned(path) }
    }

    /// An is-a-directory error for `path`.
    pub fn is_directory(path: &str) -> (r: FSError)
        ensures
            is_dir_for(r, path@),
    {
        FSError::IsDirectory { path: owned(path) }
    }

    /// A not-a-directory error for `path`.
    pub fn not_a_directory(path: &str) -> (r: FSError)
        ensures
            not_dir_for(r, path@),
    {
        FSError::NotADirectory { path: owned(path) }
    }

    /// A permission-denied error for `path`.
    pub fn permission_denied(path: &str) -> (r: FSError)
        ensures
            denied_for(r, path@),
    {
        FSError::PermissionDenied { path: owned(path) }
    }

    /// An I/O error with `message`.
    pub fn io(message: &str) -> (r: FSError)
        ensures
            r matches FSError::Io { message: m } && m@ == message@,
    {
        FSError::Io { message: owned(message) }
    }

    pub fn invalid_input(message: &str) -> (r: FSError)
        ensures
            r is InvalidInput,
            r->InvalidInput_message@ == message@,
    {
        FSError::InvalidInput { message: owned(message) }
    }
}

// ---------------------------------------------------------------------------
// Conversion from I/O errors
// ---------------------------------------------------------------------------

/// The kinds of I/O error that the conversion into [`FSError`] tells apart.
#[derive(Debug, Clone, Copy, PartialEq, Eq)]
pub enum IoErrorKind {
    NotFound,
    PermissionDenied,
    AlreadyExists,
    IsADirectory,
    NotADirectory,
    InvalidInput,
    Unsupported,
    OutOfMemory,
    FileTooLarge,
    DirectoryNotEmpty,
    ReadOnlyFilesystem,
    StorageFull,
    Other,
}

/// The error that an I/O error of kind `kind` with text `message` becomes. Path-carrying
/// variants get an empty path, since an I/O error does not name one.
pub open spec fn from_io_spec(kind: IoErrorKind, message: Seq<char>) -> (FSError, Seq<char>) {
    match kind {
        IoErrorKind::NotFound => (FSError::NotFound { path: arbitrary() }, Seq::empty()),
        IoErrorKind::PermissionDenied => (
            FSError::PermissionDenied { path: arbitrary() },
            Seq::empty(),
        ),
        IoErrorKind::AlreadyExists => (FSError::AlreadyExists { path: arbitrary() }, Seq::empty()),
        IoErrorKind::IsADirectory => (FSError::IsDirectory { path: arbitrary() }, Seq::empty()),
        IoErrorKind::NotADirectory => (FSError::NotADirectory { path: arbitrary() }, Seq::empty()),
        IoErrorKind::InvalidInput => (FSError::InvalidInput { message: arbitrary() }, message),
        IoErrorKind::Unsupported => (FSError::NotSupported { message: arbitrary() }, message),
        IoErrorKind::OutOfMemory => (FSError::OutOfMemory, Seq::empty()),
        IoErrorKind::FileTooLarge => (
            FSError::InvalidInput { message: arbitrary() },
            "file too large"@,
        ),
        IoErrorKind::DirectoryNotEmpty => (FSError::DirectoryNotEmpty, Seq::empty()),
        IoErrorKind::ReadOnlyFilesystem => (FSError::ReadOnly, Seq::empty()),
        IoErrorKind::StorageFull => (FSError::StorageFull, Seq::empty()),
        IoErrorKind::Other => (FSError::Io { message: arbitrary() }, message),
    }
}

/// The text that an error variant carries (its path, message or handle id), if any.
pub open spec fn carried_text(e: FSError) -> Seq<char> {
    match e {
        FSError::NotFound { path } => path@,
        FSError::PermissionDenied { path } => path@,
        FSError::AlreadyExists { path } => path@,
        FSError::IsDirectory { path } => path@,
        FSError::NotADirectory { path } => path@,
        FSError::InvalidInput { message } => message@,
        FSError::Io { message } => message@,
        FSError::NotSupported { message } => message@,
        FSError::AlreadyInUse { handle_id } => handle_id@,
        FSError::InvalidHandle { handle_id } => handle_id@,
        FSError::InvalidUtf8 { message } => message@,
        _ => Seq::empty(),
    }
}

/// Same variant, ignoring what the variants carry.
pub open spec fn same_variant(a: FSError, b: FSError) -> bool {
    match (a, b) {
        (FSError::NotFound { .. }, FSError::NotFound { .. }) => true,
        (FSError::PermissionDenied { .. }, FSError::PermissionDenied { .. }) => true,
        (FSError::AlreadyExists { .. }, FSError::AlreadyExists { .. }) => true,
        (FSError::IsDirectory { .. }, FSError::IsDirectory { .. }) => true,
        (FSError::NotADirectory { .. }, FSError::NotADirectory { .. }) => true,
        (FSError::InvalidInput { .. }, FSError::InvalidInput { .. }) => true,
        (FSError::Io { .. }, FSError::Io { .. }) => true,
        (FSError::NotSupported { .. }, FSError::NotSupported { .. }) => true,
        (FSError::AlreadyInUse { .. }, FSError::AlreadyInUse { .. }) => true,
        (FSError::InvalidHandle { .. }, FSError::InvalidHandle { .. }) => true,
        (FSError::OutOfMemory, FSError::OutOfMemory) => true,
        (FSError::PathTooLong, FSError::PathTooLong) => true,
        (FSError::FilenameTooLong, FSError::FilenameTooLong) => true,
        (FSError::ReadOnly, FSError::ReadOnly) => true,
        (FSError::StorageFull, FSError::StorageFull) => true,
        (FSError::TooManyOpenFiles, FSError::TooManyOpenFiles) => true,
        (FSError::DirectoryNotEmpty, FSError::DirectoryNotEmpty) => true,
        (FSError::CrossDeviceLink, FSError::CrossDeviceLink) => true,
        (FSError::InvalidUtf8 { .. }, FSError::InvalidUtf8 { .. }) => true,
        (FSError::Timeout, FSError::Timeout) => true,
        _ => false,
    }
}

impl FSError {
    /// The error that an I/O error of kind `kind`, whose text is `message`, becomes.
    pub fn from_io_parts(kind: IoErrorKind, message: String) -> (r: FSError)
        ensures
            same_variant(r, from_io_spec(kind, message@).0),
            carried_text(r) == from_io_spec(kind, message@).1,
    {
        match kind {
            IoErrorKind::NotFound => FSError::NotFound { path: String::new() },
            IoErrorKind::PermissionDenied => FSError::PermissionDenied { path: String::new() },
            IoErrorKind::AlreadyExists => FSError::AlreadyExists { path: String::new() },
            IoErrorKind::IsADirectory => FSError::IsDirectory { path: String::new() },
            IoErrorKind::NotADirectory => FSError::NotADirectory { path: String::new() },
            IoErrorKind::InvalidInput => FSError::InvalidInput { message },
            IoErrorKind::Unsupported => FSError::NotSupported { message },
            IoErrorKind::OutOfMemory => FSError::OutOfMemory,
            IoErrorKind::FileTooLarge => FSError::InvalidInput { message: owned("file too large") },
            IoErrorKind::DirectoryNotEmpty => FSError::DirectoryNotEmpty,
            IoErrorKind::ReadOnlyFilesystem => FSError::ReadOnly,
            IoErrorKind::StorageFull => FSError::StorageFull,
            IoErrorKind::Other => FSError::Io { message },
        }
    }

    /// Converts an I/O error: its kind picks the variant (see [`from_io_spec`]) and its
    /// text becomes the message where the variant carries one.
    pub fn from_io_error(err: std::io::Error) -> (r: FSError)
        ensures
            exists|k: IoErrorKind, m: Seq<char>|
                same_variant(r, #[trigger] from_io_spec(k, m).0) && carried_text(r)
                    == from_io_spec(k, m).1,
    {
        let kind = io_error_kind(&err);
        let message = io_error_text(&err);
        let r = FSError::from_io_parts(kind, message);
        proof {
            assert(same_variant(r, from_io_spec(kind, message@).0));
        }
        r
    }

    /// Converts a UTF-8 decoding error; its text becomes the message.
    pub fn from_utf8_error(err: std::string::FromUtf8Error) -> (r: FSError)
        ensures
            r is InvalidUtf8,
    {
        FSError::InvalidUtf8 { message: utf8_error_text(&err) }
    }
}

#[verifier::external_type_specification]
#[verifier::external_body]
pub struct ExIoError(std::io::Error);

#[verifier::external_type_specification]
#[verifier::external_body]
pub struct ExFromUtf8Error(std::string::FromUtf8Error);

/// `std::io::Error::kind`, with the kinds that the conversion tells apart mapped one for
/// one and all others mapped to `Other`. Nothing is stated of which kind comes back.
#[verifier::external_body]
fn io_error_kind(err: &std::io::Error) -> IoErrorKind {
    match err.kind() {
        std::io::ErrorKind::NotFound => IoErrorKind::NotFound,
        std::io::ErrorKind::PermissionDenied => IoErrorKind::PermissionDenied,
        std::io::ErrorKind::AlreadyExists => IoErrorKind::AlreadyExists,
        std::io::ErrorKind::IsADirectory => IoErrorKind::IsADirectory,
        std::io::ErrorKind::NotADirectory => IoErrorKind::NotADirectory,
        std::io::ErrorKind::InvalidInput => IoErrorKind::InvalidInput,
        std::io::ErrorKind::Unsupported => IoErrorKind::Unsupported,
        std::io::ErrorKind::OutOfMemory => IoErrorKind::OutOfMemory,
        std::io::ErrorKind::FileTooLarge => IoErrorKind::FileTooLarge,
        std::io::ErrorKind::DirectoryNotEmpty => IoErrorKind::DirectoryNotEmpty,
        std::io::ErrorKind::ReadOnlyFilesystem => IoErrorKind::ReadOnlyFilesystem,
        std::io::ErrorKind::StorageFull => IoErrorKind::StorageFull,
        _ => IoErrorKind::Other,
    }
}

/// The `Display` text of an I/O error (`ToString::to_string`). The text may come from the
/// operating system, so nothing is stated of it.
#[verifier::external_body]
pub(crate) fn io_error_text(err: &std::io::Error) -> String {
    err.to_string()
}

/// `String::from_utf8`: the text that `bytes` encode when they are valid UTF-8, else the
/// decoding error.
#[verifier::external_body]
pub(crate) fn string_from_utf8(bytes: Vec<u8>) -> (r: Result<String, std::string::FromUtf8Error>)
    ensures
        r is Ok <==> vstd::utf8::valid_utf8(bytes@),
        r matches Ok(s) ==> s@ == vstd::utf8::decode_utf8(bytes@),
{
    String::from_utf8(bytes)
}

/// The `Display` text of a UTF-8 decoding error (`ToString::to_string`); nothing is
/// stated of it.
#[verifier::external_body]
fn utf8_error_text(err: &std::string::FromUtf8Error) -> String {
    err.to_string()
}

} // verus!
