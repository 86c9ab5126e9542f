//! Reading the archive of a character's frames, with the `zip` crate.

use vstd::prelude::*;

verus! {

/// `zip::ZipArchive`, carried as it is: contracts speak of an open archive
/// through [`archive_bytes`].
#[verifier::external_type_specification]
#[verifier::external_body]
#[verifier::reject_recursive_types(R)]
pub struct ExZipArchive<R>(zip::ZipArchive<R>);

/// `std::io::Cursor`, carried as it is.
#[verifier::external_type_specification]
#[verifier::external_body]
#[verifier::reject_recursive_types(T)]
pub struct ExCursor<T>(std::io::Cursor<T>);

/// Whether `ZipArchive::new` finds an archive in these bytes.
pub uninterp spec fn archive_opens(blob: Seq<u8>) -> bool;

/// The bytes that an open archive reads from.
pub uninterp spec fn archive_bytes(archive: zip::ZipArchive<std::io::Cursor<Vec<u8>>>) -> Seq<u8>;

/// The number of entries that `ZipArchive::len` counts in the archive of
/// these bytes.
pub uninterp spec fn archive_entry_count(blob: Seq<u8>) -> nat;

/// The name of the entry that `ZipArchive::by_index` finds at `at` in the
/// archive of these bytes, as `ZipFile::name` gives it; `None` where either
/// reports an error.
pub uninterp spec fn archive_entry_name(blob: Seq<u8>, at: int) -> Option<Seq<char>>;

/// The content of the entry that `ZipArchive::by_index` finds at `at` in the
/// archive of these bytes, read to its end; `None` where the entry cannot be
/// opened or read.
pub uninterp spec fn archive_entry_bytes(blob: Seq<u8>, at: int) -> Option<Seq<u8>>;

/// Opens the archive held in `blob` with `ZipArchive::new`, which reads its
/// central directory. The contract names whether that succeeds
/// ([`archive_opens`]) and records which bytes the open archive reads from.
#[verifier::external_body]
pub(crate) fn open_archive(blob: Vec<u8>) -> (opened: Result<
    zip::ZipArchive<std::io::Cursor<Vec<u8>>>,
    zip::result::ZipError,
>)
    ensures
        opened is Ok <==> archive_opens(blob@),
        opened matches Ok(archive) ==> archive_bytes(archive) == blob@,
{
    zip::ZipArchive::new(std::io::Cursor::new(blob))
}

/// `ZipArchive::len`: the number of entries in the central directory. The
/// contract names it [`archive_entry_count`].
#[verifier::external_body]
pub(crate) fn entry_count(archive: &zip::ZipArchive<std::io::Cursor<Vec<u8>>>) -> (count: usize)
    ensures
        count == archive_entry_count(archive_bytes(*archive)),
{
    archive.len()
}

/// Opens the entry at `at` with `ZipArchive::by_index` and asks its name with
/// `ZipFile::name`. The contract names the outcome [`archive_entry_name`]; the
/// archive goes on reading from the same bytes.
#[verifier::external_body]
pub(crate) fn entry_name(
    archive: &mut zip::ZipArchive<std::io::Cursor<Vec<u8>>>,
    at: usize,
) -> (name: Result<String, zip::result::ZipError>)
    ensures
        archive_bytes(*final(archive)) == archive_bytes(*old(archive)),
        match name {
            Ok(text) => archive_entry_name(archive_bytes(*old(archive)), at as int) == Some(
                text@,
            ),
            Err(_) => archive_entry_name(archive_bytes(*old(archive)), at as int) is None,
        },
{
    let file = archive.by_index(at)?;
    let name = file.name()?.into_owned();
    Ok(name)
}

/// Opens the entry at `at` with `ZipArchive::by_index` and reads it to its end
/// with `Read::read_to_end`. A failure to open the entry comes back as the
/// I/O error that the `zip` crate makes of its own error. The contract names
/// the outcome [`archive_entry_bytes`]; the archive goes on reading from the
/// same bytes.
#[verifier::external_body]
pub(crate) fn entry_bytes(
    archive: &mut zip::ZipArchive<std::io::Cursor<Vec<u8>>>,
    at: usize,
) -> (content: Result<Vec<u8>, std::io::Error>)
    ensures
        archive_bytes(*final(archive)) == archive_bytes(*old(archive)),
        match content {
            Ok(bytes) => archive_entry_bytes(archive_bytes(*old(archive)), at as int) == Some(
                bytes@,
            ),
            Err(_) => archive_entry_bytes(archive_bytes(*old(archive)), at as int) is None,
        },
{
    let mut file = archive.by_index(at)?;
    let mut bytes = Vec::new();
    std::io::Read::read_to_end(&mut file, &mut bytes)?;
    Ok(bytes)
}

} // verus!
