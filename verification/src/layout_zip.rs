//! Unwrapping a `.touchosc` container: a ZIP archive whose `index.xml` entry
//! is the layout document. Reading the archive is the `zip` crate's work;
//! which failure is reported, and what comes back, is decided here.

use std::io::{Cursor, Read};
use vstd::prelude::*;
use zip::result::ZipError;
use zip::ZipArchive;

verus! {

#[verifier::external_type_specification]
#[verifier::external_body]
#[verifier::reject_recursive_types(T)]
pub struct ExCursor<T>(Cursor<T>);

#[verifier::external_type_specification]
#[verifier::external_body]
#[verifier::reject_recursive_types(R)]
pub struct ExZipArchive<R>(ZipArchive<R>);

#[verifier::external_type_specification]
#[verifier::external_body]
pub struct ExZipError(ZipError);

/// Whether `container` is a ZIP archive the `zip` crate can open.
pub uninterp spec fn zip_opens(container: Seq<u8>) -> bool;

/// The bytes an opened archive was read from.
pub uninterp spec fn archive_bytes(archive: ZipArchive<Cursor<Vec<u8>>>) -> Seq<u8>;

/// Whether the archive in `container` has an entry the `zip` crate finds
/// under `name`.
pub uninterp spec fn zip_entry_found(container: Seq<u8>, name: Seq<char>) -> bool;

/// The decompressed contents of the entry `name` of the archive in
/// `container`, or `None` if it does not decompress.
pub uninterp spec fn zip_entry_contents(container: Seq<u8>, name: Seq<char>) -> Option<Seq<u8>>;

/// `zip::ZipArchive::new`, over the container's bytes: whether it opens
/// depends on the bytes alone, and what opens is an archive of those bytes.
#[verifier::external_body]
fn open_archive(container: Vec<u8>) -> (r: Result<ZipArchive<Cursor<Vec<u8>>>, ZipError>)
    ensures
        match r {
            Ok(archive) => zip_opens(container@) && archive_bytes(archive) == container@,
            Err(_) => !zip_opens(container@),
        },
{
    ZipArchive::new(Cursor::new(container))
}

/// Why an entry could not be read out of an archive.
pub enum EntryError {
    /// No entry is stored under the name.
    Missing,
    /// The entry is there but does not decompress.
    Unreadable,
}

/// `zip::ZipArchive::by_name`, and `Read::read_to_end` on the entry it
/// finds: the decompressed contents of the entry stored under `name`. Both
/// whether it is found and what it decompresses to (or whether it fails to,
/// on a damaged stream or a checksum that does not match) depend on the
/// archive's bytes and the name alone; looking does not change which bytes
/// the archive holds. The two calls share one item because the entry they
/// pass between them borrows the archive.
#[verifier::external_body]
fn entry_contents(archive: &mut ZipArchive<Cursor<Vec<u8>>>, name: &str) -> (r: Result<
    Vec<u8>,
    EntryError,
>)
    ensures
        archive_bytes(*final(archive)) == archive_bytes(*old(archive)),
        match r {
            Ok(v) => zip_entry_found(archive_bytes(*old(archive)), name@) && zip_entry_contents(
                archive_bytes(*old(archive)),
                name@,
            ) == Some(v@),
            Err(EntryError::Missing) => !zip_entry_found(archive_bytes(*old(archive)), name@),
            Err(EntryError::Unreadable) => zip_entry_found(archive_bytes(*old(archive)), name@)
                && zip_entry_contents(archive_bytes(*old(archive)), name@) is None,
        },
{
    let mut file = match archive.by_name(name) {
        Ok(file) => file,
        Err(_) => return Err(EntryError::Missing),
    };
    let mut out = Vec::new();
    match file.read_to_end(&mut out) {
        Ok(_) => Ok(out),
        Err(_) => Err(EntryError::Unreadable),
    }
}

/// Why a container yielded no layout.
#[derive(Clone, Copy, Debug, PartialEq, Eq, Structural)]
pub enum ExtractError {
    /// The container is not a ZIP archive.
    NotZip,
    /// The archive holds no `index.xml`.
    NoIndex,
    /// `index.xml` would not decompress.
    Decompress,
}

impl ExtractError {
    pub open spec fn text(self) -> Seq<char> {
        match self {
            ExtractError::NotZip => "the layout is not a valid ZIP archive"@,
            ExtractError::NoIndex => "the layout archive has no index.xml"@,
            ExtractError::Decompress => "failed to decompress index.xml"@,
        }
    }

    /// What went wrong, in the words the service reports it with.
    pub fn message(self) -> (r: String)
        ensures
            r@ == self.text(),
    {
        match self {
            ExtractError::NotZip => String::from_str("the layout is not a valid ZIP archive"),
            ExtractError::NoIndex => String::from_str("the layout archive has no index.xml"),
            ExtractError::Decompress => String::from_str("failed to decompress index.xml"),
        }
    }
}

/// Extract the layout document from a `.touchosc` container.
pub fn extract_layout_xml(container: &[u8]) -> (r: Result<Vec<u8>, ExtractError>)
    ensures
        !zip_opens(container@) ==> r == Err::<Vec<u8>, ExtractError>(ExtractError::NotZip),
        zip_opens(container@) && !zip_entry_found(container@, "index.xml"@) ==> r == Err::<
            Vec<u8>,
            ExtractError,
        >(ExtractError::NoIndex),
        zip_opens(container@) && zip_entry_found(container@, "index.xml"@) ==> match zip_entry_contents(
            container@,
            "index.xml"@,
        ) {
            Some(xml) => r matches Ok(v) && v@ == xml,
            None => r == Err::<Vec<u8>, ExtractError>(ExtractError::Decompress),
        },
{
    let bytes = vstd::slice::slice_to_vec(container);
    let mut archive = match open_archive(bytes) {
        Ok(archive) => archive,
        Err(_) => {
            return Err(ExtractError::NotZip);
        },
    };
    match entry_contents(&mut archive, "index.xml") {
        Ok(xml) => Ok(xml),
        Err(EntryError::Missing) => Err(ExtractError::NoIndex),
        Err(EntryError::Unreadable) => Err(ExtractError::Decompress),
    }
}

} // verus!
