//! Reading and writing of firmware patch archives: a fixed 128-byte header
//! followed by back-to-back entries, each a 64-byte descriptor and its content.
pub mod error;
pub mod field;
pub mod text;
pub mod header;
pub mod entry;
pub mod reader;
pub mod archive;
pub mod digest;
pub mod writer;
