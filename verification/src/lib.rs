//! Verified core of a save-file backup manager.
//!
//! Save files are identified purely by their names: a live save is
//! `filech<chapter>_<slot>`, and an archived copy appends the lowercase
//! hex SHA-256 digest of the file's content and a wall-clock timestamp,
//! `filech<chapter>_<slot>_<hash>_<secs>_<nanos>`. This crate holds the
//! filename codec, the directory-scan logic that turns a directory
//! listing into save records, and the construction of backup and
//! restore target names. All file I/O stays with the caller.

pub mod codec;
pub mod hashing;
pub mod save;
pub mod scan;
