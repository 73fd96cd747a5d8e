//! Reading named entries of a compressed archive held in memory.

use vstd::prelude::*;
use std::io::Read;

verus! {

/// Why an entry could not be read.
#[derive(Debug, Clone, Copy, PartialEq, Eq, Structural)]
pub enum ArchiveFault {
    /// The bytes are not an archive that can be opened.
    NotAnArchive,
    /// The entry cannot be inflated.
    Unreadable,
    /// The archive holds no entry of that name.
    Missing,
}

/// Names what `zip::ZipArchive` yields for the entry `name` of the archive
/// whose bytes are `archive`: its inflated bytes, or why they cannot be had.
pub uninterp spec fn zip_entry_of(archive: Seq<u8>, name: Seq<char>) -> Result<Seq<u8>, ArchiveFault>;

/// The view of a read.
pub open spec fn read_view(r: Result<Vec<u8>, ArchiveFault>) -> Result<Seq<u8>, ArchiveFault> {
    match r {
        Ok(b) => Ok(b@),
        Err(e) => Err(e),
    }
}

/// Relies on `zip::ZipArchive::new`, `ZipArchive::by_name` and reading the
/// entry to its end: the outcome depends on the archive's bytes and the name
/// alone.
#[verifier::external_body]
pub(crate) fn read_entry(archive: &[u8], name: &str) -> (r: Result<Vec<u8>, ArchiveFault>)
    ensures
        read_view(r) == zip_entry_of(archive@, name@),
{
    let mut zip = zip::ZipArchive::new(std::io::Cursor::new(archive)).map_err(|_| ArchiveFault::NotAnArchive)?;
    let mut entry = zip.by_name(name).map_err(|e| match e {
        zip::result::ZipError::FileNotFound => ArchiveFault::Missing,
        _ => ArchiveFault::Unreadable,
    })?;
    let mut bytes = Vec::new();
    entry.read_to_end(&mut bytes).map_err(|_| ArchiveFault::Unreadable)?;
    Ok(bytes)
}

/// Names what `zip::ZipArchive` yields for the entry at position `index` of
/// the archive whose bytes are `archive`: its name and inflated bytes, or
/// why they cannot be had.
pub uninterp spec fn zip_entry_at_of(archive: Seq<u8>, index: nat) -> Result<(Seq<char>, Seq<u8>), ArchiveFault>;

/// The view of a read by position.
pub open spec fn named_read_view(r: Result<(String, Vec<u8>), ArchiveFault>) -> Result<(Seq<char>, Seq<u8>), ArchiveFault> {
    match r {
        Ok((n, b)) => Ok((n@, b@)),
        Err(e) => Err(e),
    }
}

/// Relies on `zip::ZipArchive::new`, `ZipArchive::by_index`, `ZipFile::name`
/// and reading the entry to its end: the outcome depends on the archive's
/// bytes and the position alone.
#[verifier::external_body]
pub(crate) fn read_entry_at(archive: &[u8], index: usize) -> (r: Result<(String, Vec<u8>), ArchiveFault>)
    ensures
        named_read_view(r) == zip_entry_at_of(archive@, index as nat),
{
    let mut zip = zip::ZipArchive::new(std::io::Cursor::new(archive)).map_err(|_| ArchiveFault::NotAnArchive)?;
    let mut entry = zip.by_index(index).map_err(|e| match e {
        zip::result::ZipError::FileNotFound => ArchiveFault::Missing,
        _ => ArchiveFault::Unreadable,
    })?;
    let mut bytes = Vec::new();
    entry.read_to_end(&mut bytes).map_err(|_| ArchiveFault::Unreadable)?;
    Ok((entry.name().to_string(), bytes))
}

} // verus!
