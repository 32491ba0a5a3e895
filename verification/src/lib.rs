//! Reads the package metadata out of wheel archives.
//!
//! A locator string names an archive, remote or local. The library decides
//! which storage backend serves it, which entry of the archive's directory
//! holds the metadata, how the entry's bytes become text, and how the texts
//! of many archives are written out as one JSON object, member by member, in
//! the order in which they arrive.

pub mod encoder;
pub mod fetch;
pub mod path;
pub mod reader;
pub mod trusted;
