//! Flags for file open and write operations.
use vstd::prelude::*;
use crate::text::{join_strs, join_with, owned, str_views};

verus! {

/// Whether every bit of `flag` is set in `bits`.
pub open spec fn has_bits(bits: u32, flag: u32) -> bool {
    bits & flag == flag
}

/// Flags for opening files.
#[derive(Debug, Clone, Copy, PartialEq, Eq, Hash)]
pub struct OpenFlags {
    bits: u32,
}

impl OpenFlags {
    /// Open file for reading.
    pub const READ: u32 = 0x0001;
    /// Open file for writing.
    pub const WRITE: u32 = 0x0002;
    /// Append to file (seek to end before each write).
    pub const APPEND: u32 = 0x0004;
    /// Create file if it doesn't exist.
    pub const CREATE: u32 = 0x0008;
    /// Fail if file exists (used with CREATE).
    pub const EXCLUSIVE: u32 = 0x0010;
    /// Truncate file to zero length.
    pub const TRUNCATE: u32 = 0x0020;
    /// Synchronous I/O (write returns after data is on disk).
    pub const SYNC: u32 = 0x0040;
    /// Don't update file access time.
    pub const NO_ATIME: u32 = 0x0080;
    /// Non-blocking mode.
    pub const NON_BLOCK: u32 = 0x0100;
    /// Directory mode.
    pub const DIRECTORY: u32 = 0x0200;

    /// The raw bits of the flag set.
    pub closed spec fn spec_bits(&self) -> u32 {
        self.bits
    }

    /// Flags with exactly the given bits, unknown bits included.
    pub fn from_bits_retain(bits: u32) -> (r: Self)
        ensures
            r.spec_bits() == bits,
    {
        OpenFlags { bits }
    }

    /// The raw bits.
    pub fn bits(&self) -> (r: u32)
        ensures
            r == self.spec_bits(),
    {
        self.bits
    }

    /// No flags set.
    pub fn empty() -> (r: Self)
        ensures
            r.spec_bits() == 0,
    {
        OpenFlags { bits: 0 }
    }

    /// Whether no bit is set.
    pub fn is_empty(&self) -> (r: bool)
        ensures
            r == (self.spec_bits() == 0),
    {
        self.bits == 0
    }

    /// Whether every flag of `other` is set.
    pub fn contains(&self, other: Self) -> (r: bool)
        ensures
            r == has_bits(self.spec_bits(), other.spec_bits()),
    {
        self.bits & other.bits == other.bits
    }

    /// The flags of both sets.
    pub fn union(self, other: Self) -> (r: Self)
        ensures
            r.spec_bits() == self.spec_bits() | other.spec_bits(),
    {
        OpenFlags { bits: self.bits | other.bits }
    }

    pub fn read() -> (r: Self)
        ensures
            r.spec_bits() == Self::READ,
    {
        OpenFlags { bits: Self::READ }
    }

    /// Read and write (writing implies reading here).
    pub fn write() -> (r: Self)
        ensures
            r.spec_bits() == Self::READ | Self::WRITE,
    {
        OpenFlags { bits: Self::READ | Self::WRITE }
    }

    pub fn read_write() -> (r: Self)
        ensures
            r.spec_bits() == Self::READ | Self::WRITE,
    {
        OpenFlags { bits: Self::READ | Self::WRITE }
    }

    pub fn create() -> (r: Self)
        ensures
            r.spec_bits() == Self::READ | Self::WRITE | Self::CREATE,
    {
        OpenFlags { bits: Self::READ | Self::WRITE | Self::CREATE }
    }

    pub fn create_truncate() -> (r: Self)
        ensures
            r.spec_bits() == Self::READ | Self::WRITE | Self::CREATE | Self::TRUNCATE,
    {
        OpenFlags { bits: Self::READ | Self::WRITE | Self::CREATE | Self::TRUNCATE }
    }

    pub open spec fn spec_is_read_only(&self) -> bool {
        self.spec_bits() & Self::WRITE == 0
    }

    pub open spec fn spec_is_write_only(&self) -> bool {
        self.spec_bits() & Self::READ == 0 && self.spec_bits() & Self::WRITE != 0
    }

    pub open spec fn spec_is_read_write(&self) -> bool {
        self.spec_bits() & Self::READ != 0 && self.spec_bits() & Self::WRITE != 0
    }

    /// No WRITE bit.
    pub fn is_read_only(&self) -> (r: bool)
        ensures
            r == self.spec_is_read_only(),
    {
        self.bits & Self::WRITE == 0
    }

    /// WRITE without READ.
    pub fn is_write_only(&self) -> (r: bool)
        ensures
            r == self.spec_is_write_only(),
    {
        (self.bits & Self::READ) == 0 && (self.bits & Self::WRITE) != 0
    }

    /// Both READ and WRITE.
    pub fn is_read_write(&self) -> (r: bool)
        ensures
            r == self.spec_is_read_write(),
    {
        (self.bits & Self::READ) != 0 && (self.bits & Self::WRITE) != 0
    }

    pub fn contains_create(&self) -> (r: bool)
        ensures
            r == has_bits(self.spec_bits(), Self::CREATE),
    {
        self.bits & Self::CREATE == Self::CREATE
    }

    pub fn contains_truncate(&self) -> (r: bool)
        ensures
            r == has_bits(self.spec_bits(), Self::TRUNCATE),
    {
        self.bits & Self::TRUNCATE == Self::TRUNCATE
    }

    pub fn contains_append(&self) -> (r: bool)
        ensures
            r == has_bits(self.spec_bits(), Self::APPEND),
    {
        self.bits & Self::APPEND == Self::APPEND
    }

    pub fn contains_sync(&self) -> (r: bool)
        ensures
            r == has_bits(self.spec_bits(), Self::SYNC),
    {
        self.bits & Self::SYNC == Self::SYNC
    }

    pub fn contains_directory(&self) -> (r: bool)
        ensures
            r == has_bits(self.spec_bits(), Self::DIRECTORY),
    {
        self.bits & Self::DIRECTORY == Self::DIRECTORY
    }

    /// The names of the set flags, in declaration order.
    pub open spec fn flag_names(bits: u32) -> Seq<Seq<char>> {
        let s1 = add_if(Seq::empty(), bits, Self::READ, "READ"@);
        let s2 = add_if(s1, bits, Self::WRITE, "WRITE"@);
        let s3 = add_if(s2, bits, Self::APPEND, "APPEND"@);
        let s4 = add_if(s3, bits, Self::CREATE, "CREATE"@);
        let s5 = add_if(s4, bits, Self::EXCLUSIVE, "EXCLUSIVE"@);
        let s6 = add_if(s5, bits, Self::TRUNCATE, "TRUNCATE"@);
        let s7 = add_if(s6, bits, Self::SYNC, "SYNC"@);
        let s8 = add_if(s7, bits, Self::NO_ATIME, "NO_ATIME"@);
        let s9 = add_if(s8, bits, Self::NON_BLOCK, "NON_BLOCK"@);
        add_if(s9, bits, Self::DIRECTORY, "DIRECTORY"@)
    }

    /// The names of the set flags joined with `|` (what `Display` shows).
    pub fn to_display_string(&self) -> (r: String)
        ensures
            r@ == join_with(Self::flag_names(self.spec_bits()), "|"@),
    {
        let b = self.bits;
        let mut names: Vec<&str> = Vec::new();
        proof {
            assert(str_views(names@) =~= Seq::<Seq<char>>::empty());
        }
        push_if(&mut names, b, Self::READ, "READ");
        push_if(&mut names, b, Self::WRITE, "WRITE");
        push_if(&mut names, b, Self::APPEND, "APPEND");
        push_if(&mut names, b, Self::CREATE, "CREATE");
        push_if(&mut names, b, Self::EXCLUSIVE, "EXCLUSIVE");
        push_if(&mut names, b, Self::TRUNCATE, "TRUNCATE");
        push_if(&mut names, b, Self::SYNC, "SYNC");
        push_if(&mut names, b, Self::NO_ATIME, "NO_ATIME");
        push_if(&mut names, b, Self::NON_BLOCK, "NON_BLOCK");
        push_if(&mut names, b, Self::DIRECTORY, "DIRECTORY");
        join_strs(&names, "|")
    }
}

/// `s` with `name` added when `flag` is set in `bits`.
pub open spec fn add_if(s: Seq<Seq<char>>, bits: u32, flag: u32, name: Seq<char>) -> Seq<Seq<char>> {
    if has_bits(bits, flag) {
        s.push(name)
    } else {
        s
    }
}

fn push_if<'a>(names: &mut Vec<&'a str>, bits: u32, flag: u32, name: &'a str)
    ensures
        str_views(final(names)@) == add_if(str_views(old(names)@), bits, flag, name@),
{
    if bits & flag == flag {
        names.push(name);
        proof {
            assert(str_views(names@) =~= str_views(old(names)@).push(name@));
        }
    }
}

impl Default for OpenFlags {
    fn default() -> (r: Self)
        ensures
            r.spec_bits() == 0,
    {
        OpenFlags { bits: 0 }
    }
}

/// Flags for write operations.
#[derive(Debug, Clone, Copy, PartialEq, Eq, Hash)]
pub struct WriteFlags {
    bits: u32,
}

impl WriteFlags {
    /// No special flags.
    pub const NONE: u32 = 0x0000;
    /// Synchronous write (return after data is written to disk).
    pub const SYNC: u32 = 0x0001;
    /// Append to end of file.
    pub const APPEND: u32 = 0x0002;

    pub closed spec fn spec_bits(&self) -> u32 {
        self.bits
    }

    /// Flags with exactly the given bits, unknown bits included.
    pub fn from_bits_retain(bits: u32) -> (r: Self)
        ensures
            r.spec_bits() == bits,
    {
        WriteFlags { bits }
    }

    pub fn bits(&self) -> (r: u32)
        ensures
            r == self.spec_bits(),
    {
        self.bits
    }

    pub fn is_empty(&self) -> (r: bool)
        ensures
            r == (self.spec_bits() == 0),
    {
        self.bits == 0
    }

    pub fn contains(&self, other: Self) -> (r: bool)
        ensures
            r == has_bits(self.spec_bits(), other.spec_bits()),
    {
        self.bits & other.bits == other.bits
    }

    pub fn union(self, other: Self) -> (r: Self)
        ensures
            r.spec_bits() == self.spec_bits() | other.spec_bits(),
    {
        WriteFlags { bits: self.bits | other.bits }
    }

    pub fn none() -> (r: Self)
        ensures
            r.spec_bits() == Self::NONE,
    {
        WriteFlags { bits: Self::NONE }
    }

    pub fn sync() -> (r: Self)
        ensures
            r.spec_bits() == Self::SYNC,
    {
        WriteFlags { bits: Self::SYNC }
    }

    pub fn append() -> (r: Self)
        ensures
            r.spec_bits() == Self::APPEND,
    {
        WriteFlags { bits: Self::APPEND }
    }

    pub fn contains_sync(&self) -> (r: bool)
        ensures
            r == has_bits(self.spec_bits(), Self::SYNC),
    {
        self.bits & Self::SYNC == Self::SYNC
    }

    pub fn contains_append(&self) -> (r: bool)
        ensures
            r == has_bits(self.spec_bits(), Self::APPEND),
    {
        self.bits & Self::APPEND == Self::APPEND
    }

    /// `NONE` for the empty set, else the names of the set flags joined with `|`.
    pub open spec fn display_text(bits: u32) -> Seq<char> {
        if bits == 0 {
            "NONE"@
        } else {
            join_with(add_if(add_if(Seq::empty(), bits, Self::SYNC, "SYNC"@), bits, Self::APPEND, "APPEND"@), "|"@)
        }
    }

    /// What `Display` shows.
    pub fn to_display_string(&self) -> (r: String)
        ensures
            r@ == Self::display_text(self.spec_bits()),
    {
        if self.bits == 0 {
            owned("NONE")
        } else {
            let mut names: Vec<&str> = Vec::new();
            proof {
                assert(str_views(names@) =~= Seq::<Seq<char>>::empty());
            }
            push_if(&mut names, self.bits, Self::SYNC, "SYNC");
            push_if(&mut names, self.bits, Self::APPEND, "APPEND");
            join_strs(&names, "|")
        }
    }
}

impl Default for WriteFlags {
    fn default() -> (r: Self)
        ensures
            r.spec_bits() == 0,
    {
        WriteFlags { bits: 0 }
    }
}

/// A flag set is read-only exactly when its WRITE bit is clear; so a read-only set never
/// contains WRITE, and a read-write set contains both READ and WRITE.
pub proof fn lemma_open_flags_access(f: OpenFlags)
    ensures
        f.spec_is_read_only() <==> !has_bits(f.spec_bits(), OpenFlags::WRITE),
        f.spec_is_read_write() ==> has_bits(f.spec_bits(), OpenFlags::READ) && has_bits(
            f.spec_bits(),
            OpenFlags::WRITE,
        ),
        f.spec_is_write_only() ==> !has_bits(f.spec_bits(), OpenFlags::READ) && has_bits(
            f.spec_bits(),
            OpenFlags::WRITE,
        ),
{
    let b = f.spec_bits();
    assert(b & 2 == 0 <==> !(b & 2 == 2)) by (bit_vector);
    assert(b & 1 != 0 <==> b & 1 == 1) by (bit_vector);
    assert(b & 2 != 0 <==> b & 2 == 2) by (bit_vector);
}

} // verus!
