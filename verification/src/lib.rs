//! A small read-only HTTP file server core: calendar encoding, request
//! parsing, path resolution over cached directory snapshots, and WebDAV
//! listings, all as verified pure logic driven by an I/O shell.

pub mod bytes;
pub mod calendar;
pub mod ext_slice;
pub mod fs;
pub mod header;
pub mod mime;
pub mod request;
pub mod resolve;
pub mod response;
pub mod run;
pub mod settings;
pub mod text;
pub mod webdav;
