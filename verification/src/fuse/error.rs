//! Errors of the FUSE client.
use vstd::prelude::*;
use crate::text::{concat_str, u64_to_decimal, decimal};
use crate::error::io_error_text;

verus! {

/// Errors of mounting and serving a filesystem.
#[derive(Debug, Clone)]
pub enum Error {
    MountFailed { path: String, message: String },
    Client { source: crate::client::Error },
    InvalidPath { path: String },
    InodeNotFound { inode: u64 },
    Io { message: String },
}

impl Error {
    /// What `Display` shows.
    pub open spec fn display_text(&self) -> Seq<char> {
        match self {
            Error::MountFailed { path, message } => "Failed to mount at "@ + path@ + ": "@ + message@,
            Error::Client { source } => "Client error: "@ + source.display_text(),
            Error::InvalidPath { path } => "Invalid path: "@ + path@,
            Error::InodeNotFound { inode } => "Inode not found: "@ + decimal(*inode as nat),
            Error::Io { message } => "IO error: "@ + message@,
        }
    }

    /// The text of the error.
    pub fn to_display_string(&self) -> (r: String)
        ensures
            r@ == self.display_text(),
    {
        match self {
            Error::MountFailed { path, message } => {
                let mut out = concat_str("Failed to mount at ", path.as_str());
                out.append(": ");
                out.append(message.as_str());
                out
            },
            Error::Client { source } => {
                let inner = source.to_display_string();
                concat_str("Client error: ", inner.as_str())
            },
            Error::InvalidPath { path } => concat_str("Invalid path: ", path.as_str()),
            Error::InodeNotFound { inode } => {
                let n = u64_to_decimal(*inode);
                concat_str("Inode not found: ", n.as_str())
            },
            Error::Io { message } => concat_str("IO error: ", message.as_str()),
        }
    }

    /// A client error, wrapped.
    pub fn from_client(source: crate::client::Error) -> (r: Error)
        ensures
            r == (Error::Client { source }),
    {
        Error::Client { source }
    }

    /// An I/O error; its text becomes the message.
    pub fn from_io_error(err: std::io::Error) -> (r: Error)
        ensures
            r is Io,
    {
        Error::Io { message: io_error_text(&err) }
    }
}

/// The outcome of several mounts: the first failure in their order, else success.
pub open spec fn first_err(s: Seq<Result<(), Error>>) -> Result<(), Error>
    decreases s.len(),
{
    if s.len() == 0 {
        Ok(())
    } else if s[0] is Err {
        s[0]
    } else {
        first_err(s.drop_first())
    }
}

/// Combines the outcomes of mounts run side by side (in the order they were started):
/// the first failure, or success when all succeeded.
pub fn first_failure(outcomes: Vec<Result<(), Error>>) -> (r: Result<(), Error>)
    ensures
        r == first_err(outcomes@),
{
    let mut rest = outcomes;
    while rest.len() > 0
        invariant
            first_err(outcomes@) == first_err(rest@),
        decreases rest.len(),
    {
        let ghost before = rest@;
        let o = rest.remove(0);
        proof {
            assert(rest@ =~= before.drop_first());
        }
        if o.is_err() {
            return o;
        }
    }
    Ok(())
}

} // verus!
