//! The frames of one character, and how they are read from its archive.

use vstd::prelude::*;
use crate::error::AppError;
use crate::error::Failure;
use crate::frame_archive::archive_bytes;
use crate::frame_archive::archive_entry_bytes;
use crate::frame_archive::archive_entry_count;
use crate::frame_archive::archive_entry_name;
use crate::frame_archive::archive_opens;
use crate::frame_archive::entry_bytes;
use crate::frame_archive::entry_count;
use crate::frame_archive::entry_name;
use crate::frame_archive::open_archive;
use crate::frame_name::frame_index;
use crate::frame_name::frame_index_of;
use crate::frame_name::static_glyph;
use crate::frame_name::static_glyph_of;
use crate::frame_order::index_ordered;
use crate::frame_order::insert_in_index_order;
use crate::frame_order::insertion_point;
use crate::frame_order::is_index_sorted;
use crate::frame_order::lemma_index_order_is_stable;
use crate::frame_order::with_index;
use crate::frame_order::lemma_insertion_point;
use crate::frame_order::payloads;
use crate::frame_order::strip_indices;
use crate::raster::decode_image;
use crate::raster::decoded_image;
use crate::raster::resize_fits;
use crate::raster::resize_gaussian;
use crate::raster::Raster;
use crate::raster::RasterView;

verus! {

/// One stroke state of a character: its raster, the size at which it is to be
/// shown, and where.
#[derive(Debug, PartialEq, Eq)]
pub struct WordFrame {
    pub name: char,
    pub img: Raster,
    pub width: u32,
    pub height: u32,
    pub pos_x: u64,
    pub pos_y: u64,
}

/// A frame as contracts see it.
#[verifier::ext_equal]
pub struct FrameView {
    pub name: char,
    pub img: RasterView,
    pub width: u32,
    pub height: u32,
    pub pos_x: u64,
    pub pos_y: u64,
}

impl View for WordFrame {
    type V = FrameView;

    open spec fn view(&self) -> FrameView {
        FrameView {
            name: self.name,
            img: self.img@,
            width: self.width,
            height: self.height,
            pos_x: self.pos_x,
            pos_y: self.pos_y,
        }
    }
}

impl FrameView {
    /// The frame of `name` fresh from a decoded image: shown at the image's
    /// own size, at the origin.
    pub open spec fn decoded(name: char, image: RasterView) -> FrameView {
        FrameView {
            name,
            img: image,
            width: image.width,
            height: image.height,
            pos_x: 0,
            pos_y: 0,
        }
    }

    /// The single frame that stands for a character without stroke data.
    pub open spec fn unavailable(name: char) -> FrameView {
        FrameView { name, img: RasterView::empty(), width: 0, height: 0, pos_x: 0, pos_y: 0 }
    }
}

/// The frames of a sequence as contracts see them.
pub open spec fn frame_views(frames: Seq<WordFrame>) -> Seq<FrameView> {
    frames.map_values(|frame: WordFrame| frame@)
}

/// Numbered frames as contracts see them.
pub open spec fn numbered_views(frames: Seq<(u32, WordFrame)>) -> Seq<(u32, FrameView)> {
    frames.map_values(|entry: (u32, WordFrame)| (entry.0, entry.1@))
}

/// A loaded frame set, or the failure to load it, as contracts see them.
pub open spec fn frame_set_view(loaded: Result<Vec<WordFrame>, AppError>) -> Result<
    Seq<FrameView>,
    Failure,
> {
    match loaded {
        Ok(frames) => Ok(frame_views(frames@)),
        Err(e) => Err(e@),
    }
}

/// What the entry at `at` of a character's archive gives: its frame and the
/// frame's number, or the first of the four failures that applies. The name is
/// looked at before the content, the content is read before it is decoded.
pub open spec fn archive_frame(name: char, blob: Seq<u8>, at: int) -> Result<
    (u32, FrameView),
    Failure,
> {
    match archive_entry_name(blob, at) {
        None => Err(Failure::Zip),
        Some(entry) => match frame_index(entry) {
            None => Err(Failure::InvalidFileName(entry)),
            Some(index) => match archive_entry_bytes(blob, at) {
                None => Err(Failure::Io),
                Some(content) => match decoded_image(content) {
                    None => Err(Failure::ImageOps),
                    Some(image) => Ok((index, FrameView::decoded(name, image))),
                },
            },
        },
    }
}

/// The numbered frames of the first `count` entries, in the order of the
/// archive, or the failure of the first entry that fails.
pub open spec fn archive_frames(name: char, blob: Seq<u8>, count: nat) -> Result<
    Seq<(u32, FrameView)>,
    Failure,
>
    decreases count,
{
    if count == 0 {
        Ok(Seq::empty())
    } else {
        match archive_frames(name, blob, (count - 1) as nat) {
            Err(failure) => Err(failure),
            Ok(frames) => match archive_frame(name, blob, count - 1) {
                Err(failure) => Err(failure),
                Ok(frame) => Ok(frames.push(frame)),
            },
        }
    }
}

/// The frame set of a character, read from the bytes of its archive: every
/// entry must name and hold a frame, and the frames stand by rising frame
/// number, frames of one number in the order of the archive.
pub open spec fn loaded_frames(name: char, blob: Seq<u8>) -> Result<Seq<FrameView>, Failure> {
    if !archive_opens(blob) {
        Err(Failure::Zip)
    } else {
        match archive_frames(name, blob, archive_entry_count(blob)) {
            Err(failure) => Err(failure),
            Ok(frames) => Ok(payloads(index_ordered(frames))),
        }
    }
}

/// The still image of a character, read from a blob and its name.
pub open spec fn loaded_static(blob_name: Seq<char>, blob: Seq<u8>) -> Result<FrameView, Failure> {
    match static_glyph(blob_name) {
        None => Err(Failure::InvalidFileName(blob_name)),
        Some(name) => match decoded_image(blob) {
            None => Err(Failure::ImageOps),
            Some(image) => Ok(FrameView::decoded(name, image)),
        },
    }
}

/// The frames of a loaded set stand by rising frame number, and frames of one
/// number in the order in which the archive lists them: the set is the
/// archive's frames in index order, which holds the frames of every number in
/// the order of the archive and lets no number fall.
pub proof fn lemma_loaded_frames_in_order(name: char, blob: Seq<u8>)
    requires
        loaded_frames(name, blob) is Ok,
    ensures
        ({
            let listed = archive_frames(name, blob, archive_entry_count(blob))->Ok_0;
            let ordered = index_ordered(listed);
            &&& loaded_frames(name, blob) == Ok::<Seq<FrameView>, Failure>(payloads(ordered))
            &&& ordered.len() == listed.len() == archive_entry_count(blob)
            &&& is_index_sorted(ordered)
            &&& forall|index: u32| #[trigger]
                with_index(ordered, index) == with_index(listed, index)
        }),
{
    let listed = archive_frames(name, blob, archive_entry_count(blob))->Ok_0;
    lemma_index_order_is_stable(listed);
    lemma_archive_frames_count(name, blob, archive_entry_count(blob));
}

/// An archive that loads gives one frame for each of its entries.
proof fn lemma_archive_frames_count(name: char, blob: Seq<u8>, count: nat)
    requires
        archive_frames(name, blob, count) is Ok,
    ensures
        archive_frames(name, blob, count)->Ok_0.len() == count,
    decreases count,
{
    if count > 0 {
        lemma_archive_frames_count(name, blob, (count - 1) as nat);
    }
}

/// Once an entry has failed, the archive fails with it, however many entries
/// follow.
proof fn lemma_failure_stays(name: char, blob: Seq<u8>, failed: nat, count: nat)
    requires
        failed <= count,
        archive_frames(name, blob, failed) is Err,
    ensures
        archive_frames(name, blob, count) == archive_frames(name, blob, failed),
    decreases count,
{
    if failed < count {
        lemma_failure_stays(name, blob, failed, (count - 1) as nat);
    }
}

/// Where a frame goes depends on the numbers alone.
proof fn lemma_insertion_point_of_views(frames: Seq<(u32, WordFrame)>, index: u32)
    ensures
        insertion_point(numbered_views(frames), index) == insertion_point(frames, index),
    decreases frames.len(),
{
    if frames.len() > 0 {
        assert(numbered_views(frames).drop_last() =~= numbered_views(frames.drop_last()));
        lemma_insertion_point_of_views(frames.drop_last(), index);
    }
}

impl WordFrame {
    /// The single frame that stands for a character without stroke data.
    pub fn unavailable(name: char) -> (frame: WordFrame)
        ensures
            frame@ == FrameView::unavailable(name),
    {
        WordFrame { name, img: Raster::empty(), width: 0, height: 0, pos_x: 0, pos_y: 0 }
    }

    /// Reads the still image of a character from a blob. The blob's name says
    /// which character it draws; its bytes say in which format.
    pub fn load_static_from_client(blob_name: &str, blob: &[u8]) -> (loaded: Result<
        WordFrame,
        AppError,
    >)
        ensures
            match loaded {
                Ok(frame) => loaded_static(blob_name@, blob@) == Ok::<FrameView, Failure>(frame@),
                Err(e) => loaded_static(blob_name@, blob@) == Err::<FrameView, Failure>(e@),
            },
    {
        match static_glyph_of(blob_name) {
            Some(name) => match decode_image(blob) {
                Ok(img) => {
                    let width = img.width();
                    let height = img.height();
                    Ok(WordFrame { name, img, width, height, pos_x: 0, pos_y: 0 })
                },
                Err(e) => Err(AppError::ImageOpsFailure(e)),
            },
            None => Err(AppError::InvalidFileName(String::from_str(blob_name))),
        }
    }

    /// Reads the frame set of the character `name` from the bytes of its
    /// archive. Every entry must be named as a frame and hold a readable
    /// image: the first entry that is not ends the load with its failure.
    pub fn load_from_client(name: char, blob: Vec<u8>) -> (loaded: Result<Vec<WordFrame>, AppError>)
        ensures
            frame_set_view(loaded) == loaded_frames(name, blob@),
    {
        let ghost bytes = blob@;
        let mut archive = match open_archive(blob) {
            Ok(archive) => archive,
            Err(e) => {
                return Err(AppError::ZipFailure(e));
            },
        };
        let count = entry_count(&archive);
        let mut placed: Vec<(u32, WordFrame)> = Vec::new();
        let mut at: usize = 0;
        while at < count
            invariant
                bytes == blob@,
                archive_opens(bytes),
                archive_bytes(archive) == bytes,
                count == archive_entry_count(bytes),
                at <= count,
                archive_frames(name, bytes, at as nat) is Ok,
                numbered_views(placed@) == index_ordered(
                    archive_frames(name, bytes, at as nat)->Ok_0,
                ),
            decreases count - at,
        {
            let ghost before = archive_frames(name, bytes, at as nat)->Ok_0;
            let entry = match entry_name(&mut archive, at) {
                Ok(entry) => entry,
                Err(e) => {
                    proof {
                        lemma_failure_stays(name, bytes, (at + 1) as nat, count as nat);
                    }
                    return Err(AppError::ZipFailure(e));
                },
            };
            let index = match frame_index_of(entry.as_str()) {
                Some(index) => index,
                None => {
                    proof {
                        lemma_failure_stays(name, bytes, (at + 1) as nat, count as nat);
                    }
                    return Err(AppError::InvalidFileName(entry));
                },
            };
            let content = match entry_bytes(&mut archive, at) {
                Ok(content) => content,
                Err(e) => {
                    proof {
                        lemma_failure_stays(name, bytes, (at + 1) as nat, count as nat);
                    }
                    return Err(AppError::IoError(e));
                },
            };
            let img = match decode_image(content.as_slice()) {
                Ok(img) => img,
                Err(e) => {
                    proof {
                        lemma_failure_stays(name, bytes, (at + 1) as nat, count as nat);
                    }
                    return Err(AppError::ImageOpsFailure(e));
                },
            };
            let width = img.width();
            let height = img.height();
            let frame = WordFrame { name, img, width, height, pos_x: 0, pos_y: 0 };
            proof {
                lemma_insertion_point(placed@, index);
                lemma_insertion_point_of_views(placed@, index);
                assert(before.push((index, frame@)).drop_last() =~= before);
            }
            insert_in_index_order(&mut placed, index, frame);
            at = at + 1;
        }
        let frames = strip_indices(placed);
        assert(frame_views(frames@) =~= payloads(numbered_views(placed@)));
        Ok(frames)
    }

    /// Resamples the frame's raster to the given size, which becomes the size
    /// at which the frame is shown. The sizes are taken as 32-bit numbers, as
    /// a cast does.
    pub fn resize_img_by_size(&mut self, resize_width: isize, resize_height: isize)
        requires
            resize_fits(
                old(self).img@.width,
                old(self).img@.height,
                resize_width as u32,
                resize_height as u32,
            ),
        ensures
            final(self).name == old(self).name,
            final(self).pos_x == old(self).pos_x,
            final(self).pos_y == old(self).pos_y,
            final(self).width == resize_width as u32,
            final(self).height == resize_height as u32,
            final(self).img@.width == resize_width as u32,
            final(self).img@.height == resize_height as u32,
            old(self).img@.width == resize_width as u32 && old(self).img@.height
                == resize_height as u32 ==> final(self).img@.pixels == old(self).img@.pixels,
    {
        let new_w = #[verifier::truncate] (resize_width as u32);
        let new_h = #[verifier::truncate] (resize_height as u32);
        let new_img = resize_gaussian(&self.img, new_w, new_h);
        self.width = new_w;
        self.height = new_h;
        self.img = new_img;
    }

    /// Whether the frame is shown at no size at all, as the frame of a
    /// character without stroke data is.
    pub fn is_empty(&self) -> (empty: bool)
        ensures
            empty == (self.width == 0 && self.height == 0),
    {
        self.width == self.height && self.width == 0
    }
}

} // verus!
