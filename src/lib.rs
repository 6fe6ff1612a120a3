//! Publishing pipeline for a directory of markdown posts: header parsing,
//! file selection, page chaining and the derived listing files.

pub mod header;
pub mod outside;
pub mod post;
pub mod publish;
pub mod roundtrip;
pub mod select;
pub mod settings;
pub mod text;
