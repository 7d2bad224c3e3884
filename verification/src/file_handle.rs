//! File handle types.
use vstd::prelude::*;
use crate::flags::OpenFlags;

verus! {

#[verifier::external_type_specification]
#[verifier::external_body]
pub struct ExUuid(uuid::Uuid);

/// `uuid::Uuid::now_v7()`: a new time-ordered UUID; it depends on the clock and on random
/// bits, so nothing is stated of it.
#[verifier::external_body]
fn uuid_now_v7() -> uuid::Uuid {
    uuid::Uuid::now_v7()
}

/// The hyphenated text of a UUID (`ToString::to_string`), which the uuid crate documents
/// as 36 characters: 32 hexadecimal digits in groups of 8-4-4-4-12.
#[verifier::external_body]
fn uuid_to_string(u: &uuid::Uuid) -> (r: String)
    ensures
        r@.len() == 36,
{
    u.to_string()
}

/// Unique identifier for a file handle.
#[derive(Debug, Clone, Copy)]
pub struct HandleId(pub uuid::Uuid);

impl HandleId {
    /// Create a new unique handle ID.
    pub fn new() -> Self {
        HandleId(uuid_now_v7())
    }

    /// Create a handle ID from an existing UUID.
    pub fn from_uuid(uuid: uuid::Uuid) -> (r: Self)
        ensures
            r.0 == uuid,
    {
        HandleId(uuid)
    }

    /// Get the underlying UUID.
    pub fn as_uuid(&self) -> (r: uuid::Uuid)
        ensures
            r == self.0,
    {
        self.0
    }

    /// The hyphenated text of the UUID (what `Display` shows).
    pub fn to_display_string(&self) -> (r: String)
        ensures
            r@.len() == 36,
    {
        uuid_to_string(&self.0)
    }
}

impl Default for HandleId {
    fn default() -> Self {
        HandleId::new()
    }
}

/// Represents an open file handle.
#[derive(Debug, Clone)]
pub struct FileHandle {
    /// Unique handle identifier.
    pub id: HandleId,
    /// Path to the file.
    pub path: String,
    /// Flags used when opening.
    pub flags: OpenFlags,
    /// Current offset in the file.
    pub offset: i64,
    /// Whether the handle is still valid.
    pub valid: bool,
}

/// `a + b` clamped to the range of `i64`.
pub open spec fn saturating_add_i64(a: i64, b: i64) -> i64 {
    if a + b > i64::MAX {
        i64::MAX
    } else if a + b < i64::MIN {
        i64::MIN
    } else {
        (a + b) as i64
    }
}

impl FileHandle {
    /// Create a new file handle with a fresh id, at offset 0, valid.
    pub fn new(path: String, flags: OpenFlags) -> (r: Self)
        ensures
            r.path@ == path@,
            r.flags == flags,
            r.offset == 0,
            r.valid,
    {
        FileHandle { id: HandleId::new(), path, flags, offset: 0, valid: true }
    }

    /// Create from an existing handle ID, at offset 0, valid.
    pub fn with_id(path: String, flags: OpenFlags, id: HandleId) -> (r: Self)
        ensures
            r.id == id,
            r.path@ == path@,
            r.flags == flags,
            r.offset == 0,
            r.valid,
    {
        FileHandle { id, path, flags, offset: 0, valid: true }
    }

    /// Check if the handle is open for reading (read-only or read-write).
    pub fn is_readable(&self) -> (r: bool)
        ensures
            r == (self.flags.spec_is_read_only() || self.flags.spec_is_read_write()),
    {
        self.flags.is_read_only() || self.flags.is_read_write()
    }

    /// Check if the handle is open for writing (write-only or read-write).
    pub fn is_writable(&self) -> (r: bool)
        ensures
            r == (self.flags.spec_is_write_only() || self.flags.spec_is_read_write()),
    {
        self.flags.is_write_only() || self.flags.is_read_write()
    }

    /// Advance the offset by `count`, saturating at the bounds of `i64`.
    pub fn advance(&mut self, count: i64)
        ensures
            final(self).offset == saturating_add_i64(old(self).offset, count),
            final(self).id == old(self).id,
            final(self).path == old(self).path,
            final(self).flags == old(self).flags,
            final(self).valid == old(self).valid,
    {
        let o = self.offset;
        self.offset = if count > 0 && o > i64::MAX - count {
            i64::MAX
        } else if count < 0 && o < i64::MIN - count {
            i64::MIN
        } else {
            o + count
        };
    }

    /// Seek to a specific offset.
    pub fn seek(&mut self, offset: i64)
        ensures
            final(self).offset == offset,
            final(self).id == old(self).id,
            final(self).path == old(self).path,
            final(self).flags == old(self).flags,
            final(self).valid == old(self).valid,
    {
        self.offset = offset;
    }

    /// Get current offset.
    pub fn offset(&self) -> (r: i64)
        ensures
            r == self.offset,
    {
        self.offset
    }

    /// Invalidate the handle.
    pub fn invalidate(&mut self)
        ensures
            !final(self).valid,
            final(self).id == old(self).id,
            final(self).path == old(self).path,
            final(self).flags == old(self).flags,
            final(self).offset == old(self).offset,
    {
        self.valid = false;
    }

    /// Check if the handle is valid.
    pub fn is_valid(&self) -> (r: bool)
        ensures
            r == self.valid,
    {
        self.valid
    }
}

} // verus!
