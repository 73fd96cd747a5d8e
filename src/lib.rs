//! E-book container reader: resolves the package document of an archive,
//! parses its manifest and spine, extracts the table of contents in either of
//! its two formats, and rewrites chapter markup so that each word can be
//! looked up on its own.

pub mod error;
pub mod archive;
pub mod text;
pub mod markup;
pub mod paths;
pub mod package;
pub mod toc;
pub mod segment;
pub mod book;
pub mod language;
pub mod speech;
