//! Why loading a book fails.

use vstd::prelude::*;

verus! {

/// A reason why a book, or its table of contents, cannot be loaded.
#[derive(Debug, Clone, Copy, PartialEq, Eq, Structural)]
pub enum LoadError {
    /// The archive cannot be opened, or one of its entries cannot be read.
    ArchiveError,
    /// The archive has no container descriptor.
    MissingContainerEntry,
    /// The container descriptor names no package document.
    MissingRootfile,
    /// The package document is not well formed.
    MalformedPackage,
    /// The package names no table of contents.
    TocNotFound,
    /// The table of contents is not well formed.
    MalformedToc,
}

/// The message that describes a reason.
pub open spec fn message_of(e: LoadError) -> Seq<char> {
    match e {
        LoadError::ArchiveError => "the archive cannot be read"@,
        LoadError::MissingContainerEntry => "the archive has no META-INF/container.xml"@,
        LoadError::MissingRootfile => "the container names no package document"@,
        LoadError::MalformedPackage => "the package document is malformed"@,
        LoadError::TocNotFound => "no table of contents was found"@,
        LoadError::MalformedToc => "the table of contents is malformed"@,
    }
}

impl LoadError {
    /// A message for people.
    pub fn message(&self) -> (r: String)
        ensures
            r@ == message_of(*self),
    {
        match self {
            LoadError::ArchiveError => "the archive cannot be read".to_string(),
            LoadError::MissingContainerEntry => "the archive has no META-INF/container.xml".to_string(),
            LoadError::MissingRootfile => "the container names no package document".to_string(),
            LoadError::MalformedPackage => "the package document is malformed".to_string(),
            LoadError::TocNotFound => "no table of contents was found".to_string(),
            LoadError::MalformedToc => "the table of contents is malformed".to_string(),
        }
    }
}

} // verus!
