//! Request handling for a small download server that publishes the
//! `rm-debug-*.tgz` support bundles found in one directory.
//!
//! The library decides; it performs no input or output. A caller reads the
//! request bytes, scans the directory and opens files, and hands the plain
//! results to the functions here, which say what has to be sent back.
//!
//! - [`request`] reads the method and the path off the request line.
//! - [`server`] routes a request and says what to look up for it.
//! - [`bundle`] holds the allowlist that every served file name must pass.
//! - [`catalog`] lists the bundles of a directory, newest first.
//! - [`page`] writes the index page.
//! - [`response`] writes status line, headers and body of every reply.
//! - [`stream`] steers the transfer of a file in chunks.
//! - [`config`] holds the process configuration and its defaults.
//! - [`text`] holds the character-level helpers that the others share.

pub mod bundle;
pub mod catalog;
pub mod config;
pub mod page;
pub mod request;
pub mod response;
pub mod server;
pub mod stream;
pub mod text;
