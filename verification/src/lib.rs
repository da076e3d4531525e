//! Construction of incremental THOR patch archives.
//!
//! A patch definition lists paths to update or remove, relative to a data
//! directory. The library resolves each entry into file operations, streams
//! them into an archive session, and serialises the finished archive: a
//! header, the stored payloads, a table of contents and a trailer.
//!
//! The library owns no file handle. A caller inspects the data directory,
//! hands over what it found as plain values, and writes the returned bytes
//! wherever the archive belongs.

pub mod checksum;
pub mod deflate;
pub mod definition;
pub mod encoder;
pub mod format;
pub mod laws;
pub mod orchestrator;
pub mod resolver;
pub mod toc;
