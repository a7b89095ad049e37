//! Resolving the bibliographic metadata of audiobook files: sorting the files
//! of a library into books, recognizing what was resolved before, fusing what
//! tags, catalogs and a completion service say of a book, and working out the
//! changes that bring each file to the result.
//!
//! The library decides and computes; it reads no file and calls no service.
//! Whoever drives it hands over what was read and carries out what is asked.

pub mod cache;
pub mod cancel;
pub mod changes;
pub mod genres;
pub mod grouping;
pub mod identity;
pub mod library_sync;
pub mod maintenance;
pub mod merge;
pub mod model;
pub mod processed;
pub mod prompt;
pub mod scan;
pub mod sources;
pub mod tag_inspector;
pub mod tag_writer;
pub mod text;
pub mod textmap;
