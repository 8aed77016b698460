//! Reading entries of a zip archive held in memory, with the `zip` crate.

use vstd::prelude::*;
use std::io::Cursor;
use std::io::Read;
use zip::ZipArchive;

verus! {

#[verifier::external_type_specification]
#[verifier::external_body]
#[verifier::reject_recursive_types(T)]
pub struct ExCursor<T>(std::io::Cursor<T>);

#[verifier::external_type_specification]
#[verifier::external_body]
#[verifier::reject_recursive_types(R)]
pub struct ExZipArchive<R>(zip::ZipArchive<R>);

/// What reading one named entry of an archive gave.
pub enum ZipEntry {
    /// The entry's content, decoded as UTF-8.
    Text(String),
    /// No entry of that name; the `zip` error message.
    Missing(String),
    /// The entry exists but could not be read as UTF-8 text; the I/O
    /// error message.
    Unreadable(String),
}

/// The view of a [`ZipEntry`].
pub enum ZipEntryView {
    /// The entry's text.
    Text(Seq<char>),
    /// Missing entry, with the error message.
    Missing(Seq<char>),
    /// Unreadable entry, with the error message.
    Unreadable(Seq<char>),
}

impl View for ZipEntry {
    type V = ZipEntryView;

    open spec fn view(&self) -> ZipEntryView {
        match self {
            ZipEntry::Text(s) => ZipEntryView::Text(s@),
            ZipEntry::Missing(s) => ZipEntryView::Missing(s@),
            ZipEntry::Unreadable(s) => ZipEntryView::Unreadable(s@),
        }
    }
}

/// The message of the error `zip::ZipArchive::new` gives for `bytes`, or
/// `None` when it reads them as an archive.
pub uninterp spec fn zip_open_error(bytes: Seq<u8>) -> Option<Seq<char>>;

/// The bytes an archive reader was opened on.
pub uninterp spec fn zip_archive_bytes(a: ZipArchive<Cursor<&[u8]>>) -> Seq<u8>;

/// What reading the entry `name` of the archive in `bytes` gives.
pub uninterp spec fn zip_entry_read(bytes: Seq<u8>, name: Seq<char>) -> ZipEntryView;

/// `zip::ZipArchive::new` over a cursor on `bytes`: the archive, or the
/// display text of the `ZipError`. Which of the two comes, and the
/// message, are what `zip_open_error` names for the bytes.
#[verifier::external_body]
pub fn open_zip<'a>(bytes: &'a [u8]) -> (r: Result<ZipArchive<Cursor<&'a [u8]>>, String>)
    ensures
        match r {
            Ok(a) => zip_open_error(bytes@) is None && zip_archive_bytes(a) == bytes@,
            Err(m) => zip_open_error(bytes@) == Some(m@),
        },
{
    ZipArchive::new(Cursor::new(bytes)).map_err(|e| e.to_string())
}

/// `zip::ZipArchive::by_name` followed by `Read::read_to_string` on the
/// entry it returns: the entry's text, or the display text of the error
/// of either call. The result is what `zip_entry_read` names for the
/// archive's bytes and `name`; the archive stays on the same bytes.
#[verifier::external_body]
pub fn read_entry_text(archive: &mut ZipArchive<Cursor<&[u8]>>, name: &str) -> (r: ZipEntry)
    ensures
        zip_archive_bytes(*final(archive)) == zip_archive_bytes(*old(archive)),
        r@ == zip_entry_read(zip_archive_bytes(*old(archive)), name@),
{
    match archive.by_name(name) {
        Err(e) => ZipEntry::Missing(e.to_string()),
        Ok(mut file) => {
            let mut buf = String::new();
            match file.read_to_string(&mut buf) {
                Ok(_) => ZipEntry::Text(buf),
                Err(e) => ZipEntry::Unreadable(e.to_string()),
            }
        },
    }
}

} // verus!
