//! Authority files for display-server connections.
//!
//! An authority file holds the records by which clients prove to a display
//! server that they may connect. This crate has the wire format of a record
//! (`encoding`), the ordered content of a file (`authority`), the handle
//! that reads and rewrites a file as a whole (`file`), the protocol of the
//! two-file lock that guards a file against other processes (`lock`), and
//! builders for the usual authorities (`record`, `utils`).
//!
//! Nothing in this crate opens a file. The bytes of a file are worked on as
//! a `stream::ByteStream`, and the lock protocol names the steps to take on
//! the filesystem and leaves the taking to its caller.

pub mod authority;
pub mod encoding;
pub mod file;
pub mod lock;
pub mod record;
pub mod stream;
pub mod text;
pub mod utils;

pub use crate::authority::Authority;
pub use crate::encoding::{CodecError, Family, Field, XAuthorityEntry};
pub use crate::file::AuthorityFile;
pub use crate::lock::{Acquisition, FsOutcome, Lock, LockAction, LockError};
pub use crate::record::{Cookie, DisplayNumber, Entry, Hostname, Scope, Target};
pub use crate::stream::ByteStream;
pub use crate::utils::{LocalAuthorityBuilder, ServerAuthBuilder};
