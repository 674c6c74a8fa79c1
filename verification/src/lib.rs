//! Library-maintenance algorithms over a directory tree.
//!
//! Two independent components:
//!
//! - `checks`: a recursive walk that collects the paths of entries whose
//!   final name component is not valid text.
//! - `media_mover`: classification of files against a fixed media-extension
//!   allow-list, and the path computation for moving each media file into a
//!   same-named folder.
//!
//! The library works on plain values: a path or a name component is the byte
//! string the operating system reports for it, and whether a name decodes as
//! valid text is recorded by the caller that listed the directory. The
//! caller performs the actual filesystem I/O (listing, creating, renaming)
//! and hands the results in; everything the library computes from them is
//! verified.

pub mod checks;
pub mod media_mover;
