use vstd::prelude::*;

pub mod text;
pub mod path;
pub mod error;
pub mod flags;
pub mod clock;
pub mod metadata;
pub mod strmap;
pub mod cache;
pub mod compression;
pub mod file_handle;
pub mod http_error;
pub mod fuse;
pub mod filesystem;
pub mod plugins;
pub mod client;
pub mod cli;

