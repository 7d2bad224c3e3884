//! Request and response bodies of the server API.
use vstd::prelude::*;

verus! {

/// An optional string copied.
pub fn clone_opt_string(o: &Option<String>) -> (r: Option<String>)
    ensures
        r == *o,
{
    match o {
        Some(s) => Some(s.clone()),
        None => None,
    }
}

/// File metadata from the server.
#[derive(Debug)]
pub struct FileMetadataResponse {
    pub file_type: String,
    pub permissions: String,
    pub size: u64,
    pub modified: Option<String>,
    pub path: String,
    /// If this is a symlink, the target path.
    pub symlink_target: Option<String>,
}

impl Clone for FileMetadataResponse {
    fn clone(&self) -> (r: Self)
        ensures
            r == *self,
    {
        FileMetadataResponse {
            file_type: self.file_type.clone(),
            permissions: self.permissions.clone(),
            size: self.size,
            modified: clone_opt_string(&self.modified),
            path: self.path.clone(),
            symlink_target: clone_opt_string(&self.symlink_target),
        }
    }
}

/// Directory entry.
#[derive(Debug)]
pub struct DirectoryEntry {
    pub permissions: String,
    pub size: u64,
    pub modified: Option<String>,
    pub path: String,
    /// File type: "file", "directory", "symlink", etc.
    pub file_type: Option<String>,
}

impl Clone for DirectoryEntry {
    fn clone(&self) -> (r: Self)
        ensures
            r == *self,
    {
        DirectoryEntry {
            permissions: self.permissions.clone(),
            size: self.size,
            modified: clone_opt_string(&self.modified),
            path: self.path.clone(),
            file_type: clone_opt_string(&self.file_type),
        }
    }
}

/// Directory list response.
#[derive(Debug)]
pub struct DirectoryListResponse {
    pub entries: Vec<DirectoryEntry>,
}

impl Clone for DirectoryListResponse {
    fn clone(&self) -> (r: Self)
        ensures
            r.entries@ == self.entries@,
    {
        let mut entries: Vec<DirectoryEntry> = Vec::new();
        let mut i: usize = 0;
        while i < self.entries.len()
            invariant
                i <= self.entries@.len(),
                entries@ == self.entries@.subrange(0, i as int),
            decreases self.entries.len() - i,
        {
            entries.push(self.entries[i].clone());
            i = i + 1;
            proof {
                assert(entries@ =~= self.entries@.subrange(0, i as int));
            }
        }
        proof {
            assert(self.entries@.subrange(0, i as int) =~= self.entries@);
        }
        DirectoryListResponse { entries }
    }
}

/// Health check response.
#[derive(Debug, Clone)]
pub struct HealthResponse {
    pub status: String,
    pub version: String,
}

/// Capabilities response.
#[derive(Debug, Clone)]
pub struct CapabilitiesResponse {
    pub features: Vec<String>,
    pub max_file_size: u64,
}

/// Generic message response.
#[derive(Debug, Clone)]
pub struct MessageResponse {
    pub message: String,
}

/// File query parameters.
#[derive(Debug, Clone)]
pub struct FileQuery {
    pub path: String,
}

/// Write file request.
#[derive(Debug, Clone)]
pub struct WriteRequest {
    pub path: String,
    pub data: String,
    pub offset: Option<i64>,
}

/// Create directory request.
#[derive(Debug, Clone)]
pub struct CreateDirectoryRequest {
    pub path: String,
    pub perm: Option<u32>,
}

/// Rename request.
#[derive(Debug, Clone)]
pub struct RenameRequest {
    pub old_path: String,
    pub new_path: String,
}

/// Chmod request.
#[derive(Debug, Clone)]
pub struct ChmodRequest {
    pub path: String,
    pub mode: u32,
}

/// Truncate request.
#[derive(Debug, Clone)]
pub struct TruncateRequest {
    pub path: String,
    pub size: u64,
}

/// Symlink request.
#[derive(Debug, Clone)]
pub struct SymlinkRequest {
    pub target: String,
    pub link_path: String,
}

/// Xattr get query.
#[derive(Debug, Clone)]
pub struct XattrQuery {
    pub path: String,
    pub name: String,
}

/// Xattr list query.
#[derive(Debug, Clone)]
pub struct XattrListQuery {
    pub path: String,
}

/// Set xattr request (the value is base64 text).
#[derive(Debug, Clone)]
pub struct SetXattrRequest {
    pub path: String,
    pub name: String,
    pub value: String,
}

/// Xattr list response.
#[derive(Debug, Clone)]
pub struct XattrListResponse {
    pub names: Vec<String>,
}

/// Xattr value response (base64 text).
#[derive(Debug, Clone)]
pub struct XattrValueResponse {
    pub value: String,
}

/// Login request.
#[derive(Debug, Clone)]
pub struct LoginRequest {
    pub username: String,
    pub password: String,
}

/// Login response.
#[derive(Debug, Clone)]
pub struct LoginResponse {
    pub access_token: String,
    pub token_type: String,
    pub expires_in: u64,
    pub refresh_token: Option<String>,
}

/// User info response.
#[derive(Debug, Clone)]
pub struct UserResponse {
    pub id: String,
    pub username: String,
    pub role: String,
}

} // verus!
