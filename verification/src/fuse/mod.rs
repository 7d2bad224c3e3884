//! The FUSE client: write-back merging, inode numbering, caching and locking.
pub mod dash;
pub mod segments;
pub mod inodes;
pub mod cache;
pub mod locks;
pub mod attrs;
pub mod error;
pub mod ops;
