//! Packing canvas records into an archive of still images, with the `zip`
//! crate and the PNG encoder of the `image` crate.

use vstd::prelude::*;
use crate::compositor::raster_views;
use crate::error::AppError;
use crate::error::Failure;
use crate::raster::Raster;
use crate::raster::RasterView;
use crate::text::push_zero_padded;
use crate::text::zero_padded;

verus! {

/// A `zip::ZipWriter` that writes an archive into a buffer in memory. Contracts
/// speak of it through [`writer_entries`].
#[verifier::external_body]
pub struct ArchiveWriter {
    inner: zip::ZipWriter<std::io::Cursor<Vec<u8>>>,
}

/// How the container treats the bytes of an entry.
#[derive(Clone, Copy, Debug, PartialEq, Eq, Structural)]
pub enum EntryCompression {
    /// The bytes are stored as they are.
    Stored,
    /// The bytes are deflated.
    Deflated,
}

/// An entry of an archive in the making: the name, compression and
/// permission bits that it was started with, and the bytes written into it.
#[verifier::ext_equal]
pub struct ArchiveEntry {
    pub name: Seq<char>,
    pub compression: EntryCompression,
    pub permissions: u32,
    pub content: Seq<u8>,
}

impl ArchiveEntry {
    /// An entry as it is started: without bytes.
    pub open spec fn started(
        name: Seq<char>,
        compression: EntryCompression,
        permissions: u32,
    ) -> ArchiveEntry {
        ArchiveEntry { name, compression, permissions, content: Seq::empty() }
    }

    /// The entry after `bytes` were written behind what it held.
    pub open spec fn grown(self, bytes: Seq<u8>) -> ArchiveEntry {
        ArchiveEntry {
            name: self.name,
            compression: self.compression,
            permissions: self.permissions,
            content: self.content + bytes,
        }
    }
}

/// The permission bits that the archive records for each still image.
pub const ENTRY_PERMISSIONS: u32 = 0o755;

/// The entries that a writer holds so far, in the order in which they were
/// started: for each, what it was started with and the bytes written into it.
pub uninterp spec fn writer_entries(writer: ArchiveWriter) -> Seq<ArchiveEntry>;

/// Whether `ZipWriter::start_file` starts an entry of this name, compression
/// and permission bits in a writer that holds `entries`.
pub uninterp spec fn entry_starts(
    entries: Seq<ArchiveEntry>,
    name: Seq<char>,
    compression: EntryCompression,
    permissions: u32,
) -> bool;

/// The PNG stream that the `image` crate's `PngEncoder`, with its default
/// settings, writes for an 8-bit RGBA raster.
pub uninterp spec fn png_stream(width: u32, height: u32, pixels: Seq<u8>) -> Seq<u8>;

/// Whether `PngEncoder::write_image` succeeds in writing the raster as PNG
/// into the last entry of a writer that holds `entries`.
pub uninterp spec fn png_written(entries: Seq<ArchiveEntry>, raster: RasterView) -> bool;

/// The archive that `ZipWriter::finish` makes of a writer that holds
/// `entries`; `None` where it reports an error. The `zip` crate is built
/// without its `time` feature: it stamps every entry with one fixed date, so
/// that the entries alone decide the bytes.
pub uninterp spec fn finished_archive(entries: Seq<ArchiveEntry>) -> Option<Seq<u8>>;

/// `ZipWriter::new` over an empty buffer in memory. The contract claims that
/// the writer holds no entry.
#[verifier::external_body]
pub(crate) fn new_archive_writer() -> (writer: ArchiveWriter)
    ensures
        writer_entries(writer) == Seq::<ArchiveEntry>::empty(),
{
    ArchiveWriter { inner: zip::ZipWriter::new(std::io::Cursor::new(Vec::new())) }
}

/// `ZipWriter::start_file` with the given compression and Unix permissions.
/// Of the permissions the container keeps the nine permission bits, which is
/// all that a caller may hand in. The contract names whether the entry is
/// started ([`entry_starts`]), and claims that the writer then holds one more
/// entry, started with that name, compression and permissions and still
/// without bytes, behind those it held.
#[verifier::external_body]
pub(crate) fn start_entry(
    writer: &mut ArchiveWriter,
    name: &str,
    compression: EntryCompression,
    permissions: u32,
) -> (started: Result<(), zip::result::ZipError>)
    requires
        permissions <= 0o777,
    ensures
        started is Ok <==> entry_starts(
            writer_entries(*old(writer)),
            name@,
            compression,
            permissions,
        ),
        started is Ok ==> writer_entries(*final(writer)) == writer_entries(*old(writer)).push(
            ArchiveEntry::started(name@, compression, permissions),
        ),
{
    let method = match compression {
        EntryCompression::Stored => zip::CompressionMethod::Stored,
        EntryCompression::Deflated => zip::CompressionMethod::Deflated,
    };
    let options = zip::write::SimpleFileOptions::default().compression_method(
        method,
    ).unix_permissions(permissions);
    writer.inner.start_file(name, options)
}

/// Encodes a raster as PNG with `PngEncoder::write_image`, straight into the
/// entry that the writer has open. The contract names whether that succeeds
/// ([`png_written`]), and claims that the last entry has then grown by the
/// raster's PNG stream ([`png_stream`]) and that the entries before it are as
/// they were.
#[verifier::external_body]
pub(crate) fn write_png(writer: &mut ArchiveWriter, frame: &Raster) -> (written:
    Result<(), image::ImageError>)
    ensures
        written is Ok <==> png_written(writer_entries(*old(writer)), frame@),
        written is Ok ==> {
            let before = writer_entries(*old(writer));
            &&& before.len() > 0
            &&& writer_entries(*final(writer)) == before.drop_last().push(
                before.last().grown(png_stream(frame@.width, frame@.height, frame@.pixels)),
            )
        },
{
    image::ImageEncoder::write_image(
        image::codecs::png::PngEncoder::new(&mut writer.inner),
        frame.as_raw(),
        frame.width(),
        frame.height(),
        image::ExtendedColorType::Rgba8,
    )
}

/// `ZipWriter::finish`, and the buffer taken out of the cursor that it hands
/// back. The contract names the outcome [`finished_archive`], and claims that
/// a writer without entries is finished: it has no entry to close, and what
/// is left is to write the end record into the buffer in memory, as the
/// crate's own test of an empty archive does.
#[verifier::external_body]
pub(crate) fn finish_archive(writer: ArchiveWriter) -> (bytes: Result<
    Vec<u8>,
    zip::result::ZipError,
>)
    ensures
        match bytes {
            Ok(archive) => finished_archive(writer_entries(writer)) == Some(archive@),
            Err(_) => finished_archive(writer_entries(writer)) is None,
        },
        writer_entries(writer).len() == 0 ==> bytes is Ok,
{
    Ok(writer.inner.finish()?.into_inner())
}

/// The name of the still image at `position`: `frame_`, the position in at
/// least three digits, and `.png`.
pub open spec fn still_name(position: nat) -> Seq<char> {
    "frame_"@ + zero_padded(position, 3) + ".png"@
}

/// The entry of the record at `position` as it is started: named for its
/// position, to be stored as it is.
pub open spec fn still_start(position: nat) -> ArchiveEntry {
    ArchiveEntry::started(still_name(position), EntryCompression::Stored, ENTRY_PERMISSIONS)
}

/// The entries that the records fill, in the order of the records: each
/// holds the PNG stream of its record and no more.
pub open spec fn still_entries(frames: Seq<RasterView>) -> Seq<ArchiveEntry> {
    Seq::new(
        frames.len(),
        |k: int|
            still_start(k as nat).grown(
                png_stream(frames[k].width, frames[k].height, frames[k].pixels),
            ),
    )
}

/// Whether the entry of the record at `at` is started, behind the entries of
/// the records before it.
pub open spec fn still_started(frames: Seq<RasterView>, at: int) -> bool {
    entry_starts(
        still_entries(frames).take(at),
        still_name(at as nat),
        EntryCompression::Stored,
        ENTRY_PERMISSIONS,
    )
}

/// Whether the record at `at` is written into its entry, once started.
pub open spec fn still_written(frames: Seq<RasterView>, at: int) -> bool {
    png_written(still_entries(frames).take(at).push(still_start(at as nat)), frames[at])
}

/// The failure of the first of the first `count` records that cannot be
/// written: the container's where its entry is not started, the image
/// encoder's where the record is not written into it. None where all are
/// written.
pub open spec fn writing_failure(frames: Seq<RasterView>, count: nat) -> Option<Failure>
    decreases count,
{
    if count == 0 {
        None
    } else {
        match writing_failure(frames, (count - 1) as nat) {
            Some(failure) => Some(failure),
            None => if !still_started(frames, count - 1) {
                Some(Failure::Zip)
            } else if !still_written(frames, count - 1) {
                Some(Failure::ImageOps)
            } else {
                None
            },
        }
    }
}

/// The archive of the records: one entry for each, in their order, named by
/// position, stored as it is and holding the record as PNG. The first record
/// that cannot be written fails the archive, and so does a container that
/// cannot be finished.
pub open spec fn packed_archive(frames: Seq<RasterView>) -> Result<Seq<u8>, Failure> {
    match writing_failure(frames, frames.len()) {
        Some(failure) => Err(failure),
        None => match finished_archive(still_entries(frames)) {
            Some(archive) => Ok(archive),
            None => Err(Failure::Zip),
        },
    }
}

/// The archive is made of one entry for each record, in the order of the
/// records: the entry at a position is named for that position, stored as it
/// is, and holds the PNG stream of the record at that position and no more.
pub proof fn lemma_one_entry_for_each_record(frames: Seq<RasterView>, at: int)
    requires
        0 <= at < frames.len(),
    ensures
        still_entries(frames).len() == frames.len(),
        still_entries(frames)[at].name == still_name(at as nat),
        still_entries(frames)[at].compression == EntryCompression::Stored,
        still_entries(frames)[at].permissions == ENTRY_PERMISSIONS,
        still_entries(frames)[at].content == png_stream(
            frames[at].width,
            frames[at].height,
            frames[at].pixels,
        ),
        packed_archive(frames) matches Ok(archive) ==> finished_archive(still_entries(frames))
            == Some(archive),
{
    assert(Seq::<u8>::empty() + png_stream(frames[at].width, frames[at].height, frames[at].pixels)
        =~= png_stream(frames[at].width, frames[at].height, frames[at].pixels));
}

/// Once a record has failed, the archive fails with it.
proof fn lemma_writing_failure_stays(frames: Seq<RasterView>, failed: nat, count: nat)
    requires
        failed <= count,
        writing_failure(frames, failed) is Some,
    ensures
        writing_failure(frames, count) == writing_failure(frames, failed),
    decreases count,
{
    if failed < count {
        lemma_writing_failure_stays(frames, failed, (count - 1) as nat);
    }
}

/// The name of the still image at `position`.
pub fn still_name_of(position: usize) -> (name: String)
    ensures
        name@ == still_name(position as nat),
{
    let mut name = String::from_str("frame_");
    push_zero_padded(&mut name, position, 3);
    name.append(".png");
    name
}

/// Writes each record into an entry of its own in a new writer, as a PNG
/// that the container stores as it is, in the order of the records.
pub(crate) fn write_frames(writer: &mut ArchiveWriter, frames: &Vec<Raster>) -> (written:
    Result<(), AppError>)
    requires
        writer_entries(*old(writer)).len() == 0,
    ensures
        match written {
            Ok(()) => {
                &&& writing_failure(raster_views(frames@), frames.len() as nat) is None
                &&& writer_entries(*final(writer)) == still_entries(raster_views(frames@))
            },
            Err(e) => writing_failure(raster_views(frames@), frames.len() as nat) == Some(e@),
        },
{
    let ghost views = raster_views(frames@);
    let ghost wanted = still_entries(views);
    let mut index: usize = 0;
    assert(writer_entries(*writer) =~= wanted.take(0));
    while index < frames.len()
        invariant
            index <= frames.len(),
            views == raster_views(frames@),
            wanted == still_entries(views),
            writer_entries(*writer) == wanted.take(index as int),
            writing_failure(views, index as nat) is None,
        decreases frames.len() - index,
    {
        let filename = still_name_of(index);
        match start_entry(writer, filename.as_str(), EntryCompression::Stored, ENTRY_PERMISSIONS) {
            Ok(()) => {},
            Err(e) => {
                proof {
                    assert(!still_started(views, index as int));
                    lemma_writing_failure_stays(views, (index + 1) as nat, frames.len() as nat);
                }
                return Err(AppError::ZipFailure(e));
            },
        }
        assert(views[index as int] == frames[index as int]@);
        match write_png(writer, &frames[index]) {
            Ok(()) => {},
            Err(e) => {
                proof {
                    assert(still_started(views, index as int));
                    assert(!still_written(views, index as int));
                    lemma_writing_failure_stays(views, (index + 1) as nat, frames.len() as nat);
                }
                return Err(AppError::ImageOpsFailure(e));
            },
        }
        proof {
            assert(still_started(views, index as int));
            assert(still_written(views, index as int));
            assert(wanted.take(index as int).push(still_start(index as nat)).drop_last()
                =~= wanted.take(index as int));
            assert(writer_entries(*writer) =~= wanted.take(index + 1));
        }
        index = index + 1;
    }
    assert(wanted.take(index as int) =~= wanted);
    Ok(())
}

/// Packs canvas records into an archive in memory, one PNG to a record, named
/// by position and in the order of the records. No records give an archive
/// without entries: that is no failure.
pub fn zip_frames_to_memory(frames: Vec<Raster>) -> (packed: Result<Vec<u8>, AppError>)
    ensures
        match packed {
            Ok(zip_buffer) => packed_archive(raster_views(frames@)) == Ok::<Seq<u8>, Failure>(
                zip_buffer@,
            ),
            Err(e) => packed_archive(raster_views(frames@)) == Err::<Seq<u8>, Failure>(e@),
        },
        frames.len() == 0 ==> packed is Ok,
{
    let mut zip_writer = new_archive_writer();
    match write_frames(&mut zip_writer, &frames) {
        Ok(()) => {},
        Err(e) => {
            return Err(e);
        },
    }
    match finish_archive(zip_writer) {
        Ok(zip_buffer) => Ok(zip_buffer),
        Err(e) => Err(AppError::ZipFailure(e)),
    }
}

} // verus!
