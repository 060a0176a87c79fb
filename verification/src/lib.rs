//! A flat container format for packing files into one blob.
//!
//! An archive is a run of entries with nothing between them. Each entry is a
//! four-byte big-endian length, a twelve-byte name field and the stored
//! payload; the length counts the payload plus sixteen. The archive may end
//! with fill bytes up to a minimum size. The payloads are opaque to this
//! crate: a caller compresses them before packing and expands them after
//! unpacking.
//!
//! Nothing here reads or writes a file. [`resolve`] turns the references
//! that a user gives into paths to read and names to store, [`paths`] says
//! what is asked of the paths involved, [`pack`] lays the archive out and
//! [`unpack`] reads it back. [`laws`] holds what packing and unpacking
//! promise together.

pub mod codec;
pub mod entry;
pub mod find;
pub mod laws;
pub mod layout;
pub mod name;
pub mod pack;
pub mod paths;
pub mod resolve;
pub mod unpack;

pub use crate::pack::build_fs;
pub use crate::unpack::extract_fs;
