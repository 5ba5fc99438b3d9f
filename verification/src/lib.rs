//! A small personal-site backend library: its core turns a directory tree of
//! per-article manifest files into a filtered, sorted, size-limited JSON
//! array. All text is handled as bytes; the surrounding binary does the
//! filesystem and network work and hands plain values in and out.

pub mod article;
pub mod dates;
pub mod json;
pub mod laws;
pub mod listing;
pub mod manifest;
pub mod query;
pub mod session;
pub mod static_route;
pub mod text;
