//! Laying the frames of a poem's characters over one canvas.
//!
//! The characters are taken in the order of the text. A character with a
//! single frame has no stroke data and is passed over. Every frame of any
//! other character is laid over the canvas at the character's slot, and after
//! each frame the canvas is recorded. The canvas is never cleared: each record
//! shows all that was drawn before it.

use vstd::prelude::*;
use crate::error::AppError;
use crate::error::Failure;
use crate::raster::overlaid_pixels;
use crate::raster::overlay;
use crate::raster::resize_fits;
use crate::raster::Raster;
use crate::raster::RasterView;
use crate::request::AnimateSubject;
use crate::word_frame::frame_views;
use crate::word_frame::FrameView;
use crate::word_frame::WordFrame;

verus! {

/// The canvas after `top` was laid over it at (`x`, `y`).
pub open spec fn overlaid(canvas: RasterView, top: RasterView, x: i64, y: i64) -> RasterView {
    RasterView {
        width: canvas.width,
        height: canvas.height,
        pixels: overlaid_pixels(canvas, top, x, y),
    }
}

/// The canvas after the first `count` frames of a character were laid over
/// it at the character's slot.
pub open spec fn canvas_after_frames(
    canvas: RasterView,
    frames: Seq<FrameView>,
    slot: AnimateSubject,
    count: nat,
) -> RasterView
    decreases count,
{
    if count == 0 {
        canvas
    } else {
        overlaid(
            canvas_after_frames(canvas, frames, slot, (count - 1) as nat),
            frames[count - 1].img,
            slot.pos_x,
            slot.pos_y,
        )
    }
}

/// The records that one character leaves: the canvas after each of its frames.
pub open spec fn character_snapshots(
    canvas: RasterView,
    frames: Seq<FrameView>,
    slot: AnimateSubject,
) -> Seq<RasterView> {
    Seq::new(frames.len(), |k: int| canvas_after_frames(canvas, frames, slot, (k + 1) as nat))
}

/// The canvas after the first `count` characters were drawn.
pub open spec fn canvas_after(
    canvas: RasterView,
    strokes: Seq<Seq<FrameView>>,
    slots: Seq<AnimateSubject>,
    count: nat,
) -> RasterView
    decreases count,
{
    if count == 0 {
        canvas
    } else {
        let before = canvas_after(canvas, strokes, slots, (count - 1) as nat);
        if strokes[count - 1].len() > 1 {
            canvas_after_frames(
                before,
                strokes[count - 1],
                slots[count - 1],
                strokes[count - 1].len(),
            )
        } else {
            before
        }
    }
}

/// The records that the first `count` characters leave, in the order in
/// which they were made.
pub open spec fn snapshots(
    canvas: RasterView,
    strokes: Seq<Seq<FrameView>>,
    slots: Seq<AnimateSubject>,
    count: nat,
) -> Seq<RasterView>
    decreases count,
{
    if count == 0 {
        Seq::empty()
    } else {
        let earlier = snapshots(canvas, strokes, slots, (count - 1) as nat);
        if strokes[count - 1].len() > 1 {
            earlier + character_snapshots(
                canvas_after(canvas, strokes, slots, (count - 1) as nat),
                strokes[count - 1],
                slots[count - 1],
            )
        } else {
            earlier
        }
    }
}

/// The number of records that characters with these numbers of frames leave:
/// the sum of the numbers greater than one.
pub open spec fn snapshot_total(frame_counts: Seq<nat>) -> nat
    decreases frame_counts.len(),
{
    if frame_counts.len() == 0 {
        0
    } else {
        snapshot_total(frame_counts.drop_last()) + if frame_counts.last() > 1 {
            frame_counts.last()
        } else {
            0
        }
    }
}

/// The number of frames of each character.
pub open spec fn frame_counts(strokes: Seq<Seq<FrameView>>) -> Seq<nat> {
    strokes.map_values(|frames: Seq<FrameView>| frames.len())
}

/// The frame sets of a poem as contracts see them.
pub open spec fn stroke_views(strokes: Seq<Vec<WordFrame>>) -> Seq<Seq<FrameView>> {
    strokes.map_values(|frames: Vec<WordFrame>| frame_views(frames@))
}

/// Rasters as contracts see them.
pub open spec fn raster_views(rasters: Seq<Raster>) -> Seq<RasterView> {
    rasters.map_values(|raster: Raster| raster@)
}

/// What a request is refused with when its slots do not match its characters.
pub open spec fn mismatch() -> Failure {
    Failure::InvalidFileName("WordList contains illegal characters"@)
}

/// `after` is `before` brought to the size of `slot`: the same frame, shown
/// at the slot's size, with a raster of that size. A raster that had the size
/// already keeps its pixels.
pub open spec fn is_resized(before: FrameView, after: FrameView, slot: AnimateSubject) -> bool {
    &&& after.name == before.name
    &&& after.pos_x == before.pos_x
    &&& after.pos_y == before.pos_y
    &&& after.width == slot.slot_width()
    &&& after.height == slot.slot_height()
    &&& after.img.width == slot.slot_width()
    &&& after.img.height == slot.slot_height()
    &&& (before.img.width == slot.slot_width() && before.img.height == slot.slot_height()
        ==> after.img.pixels == before.img.pixels)
}

/// `after` holds the frames of `before`, those of each character with stroke
/// data brought to the size of its slot, the others as they were.
pub open spec fn is_fitted(
    before: Seq<Seq<FrameView>>,
    after: Seq<Seq<FrameView>>,
    slots: Seq<AnimateSubject>,
) -> bool {
    &&& after.len() == before.len()
    &&& forall|i: int|
        0 <= i < before.len() ==> (#[trigger] after[i]).len() == before[i].len()
    &&& forall|i: int|
        0 <= i < before.len() && before[i].len() <= 1 ==> #[trigger] after[i] == before[i]
    &&& forall|i: int, j: int|
        0 <= i < before.len() && before[i].len() > 1 && 0 <= j < before[i].len() ==> is_resized(
            before[i][j],
            #[trigger] after[i][j],
            slots[i],
        )
}

/// Every frame that will be resized can be: see [`resize_fits`].
pub open spec fn resizable(strokes: Seq<Seq<FrameView>>, slots: Seq<AnimateSubject>) -> bool {
    forall|i: int, j: int|
        0 <= i < strokes.len() && i < slots.len() && strokes[i].len() > 1 && 0 <= j
            < strokes[i].len() ==> resize_fits(
            (#[trigger] strokes[i][j]).img.width,
            strokes[i][j].img.height,
            slots[i].slot_width(),
            slots[i].slot_height(),
        )
}

/// Laying frames over a canvas never changes its sides.
pub proof fn lemma_canvas_keeps_sides(
    canvas: RasterView,
    strokes: Seq<Seq<FrameView>>,
    slots: Seq<AnimateSubject>,
    count: nat,
)
    ensures
        canvas_after(canvas, strokes, slots, count).width == canvas.width,
        canvas_after(canvas, strokes, slots, count).height == canvas.height,
    decreases count,
{
    if count > 0 {
        lemma_canvas_keeps_sides(canvas, strokes, slots, (count - 1) as nat);
        lemma_frames_keep_sides(
            canvas_after(canvas, strokes, slots, (count - 1) as nat),
            strokes[count - 1],
            slots[count - 1],
            strokes[count - 1].len(),
        );
    }
}

/// Laying the frames of one character over a canvas never changes its sides.
pub proof fn lemma_frames_keep_sides(
    canvas: RasterView,
    frames: Seq<FrameView>,
    slot: AnimateSubject,
    count: nat,
)
    ensures
        canvas_after_frames(canvas, frames, slot, count).width == canvas.width,
        canvas_after_frames(canvas, frames, slot, count).height == canvas.height,
    decreases count,
{
    if count > 0 {
        lemma_frames_keep_sides(canvas, frames, slot, (count - 1) as nat);
    }
}

/// Characters with the frame counts f_1 to f_n leave as many records as the
/// counts greater than one add up to: a character with a single frame leaves
/// none. Every record has the sides of the canvas.
pub proof fn lemma_snapshot_count(
    canvas: RasterView,
    strokes: Seq<Seq<FrameView>>,
    slots: Seq<AnimateSubject>,
)
    ensures
        snapshots(canvas, strokes, slots, strokes.len()).len() == snapshot_total(
            frame_counts(strokes),
        ),
        forall|k: int|
            0 <= k < snapshots(canvas, strokes, slots, strokes.len()).len() ==> {
                &&& (#[trigger] snapshots(canvas, strokes, slots, strokes.len())[k]).width
                    == canvas.width
                &&& snapshots(canvas, strokes, slots, strokes.len())[k].height == canvas.height
            },
{
    lemma_snapshots_of_prefix(canvas, strokes, slots, strokes.len());
    assert(strokes.take(strokes.len() as int) =~= strokes);
}

/// [`lemma_snapshot_count`] for the first `count` characters.
proof fn lemma_snapshots_of_prefix(
    canvas: RasterView,
    strokes: Seq<Seq<FrameView>>,
    slots: Seq<AnimateSubject>,
    count: nat,
)
    requires
        count <= strokes.len(),
    ensures
        snapshots(canvas, strokes, slots, count).len() == snapshot_total(
            frame_counts(strokes.take(count as int)),
        ),
        forall|k: int|
            0 <= k < snapshots(canvas, strokes, slots, count).len() ==> {
                &&& (#[trigger] snapshots(canvas, strokes, slots, count)[k]).width == canvas.width
                &&& snapshots(canvas, strokes, slots, count)[k].height == canvas.height
            },
    decreases count,
{
    if count > 0 {
        let before = (count - 1) as nat;
        lemma_snapshots_of_prefix(canvas, strokes, slots, before);
        lemma_canvas_keeps_sides(canvas, strokes, slots, before);
        assert(frame_counts(strokes.take(count as int)).drop_last() =~= frame_counts(
            strokes.take(before as int),
        ));
        let base = canvas_after(canvas, strokes, slots, before);
        let earlier = snapshots(canvas, strokes, slots, before);
        assert forall|k: int| 0 <= k < snapshots(canvas, strokes, slots, count).len() implies {
            &&& (#[trigger] snapshots(canvas, strokes, slots, count)[k]).width == canvas.width
            &&& snapshots(canvas, strokes, slots, count)[k].height == canvas.height
        } by {
            if k >= earlier.len() {
                lemma_frames_keep_sides(
                    base,
                    strokes[count - 1],
                    slots[count - 1],
                    (k - earlier.len() + 1) as nat,
                );
            }
        }
    } else {
        assert(frame_counts(strokes.take(0)) =~= Seq::<nat>::empty());
    }
}

/// Fitting the frames to their slots changes no character's number of frames.
pub proof fn lemma_fitted_keeps_counts(
    before: Seq<Seq<FrameView>>,
    after: Seq<Seq<FrameView>>,
    slots: Seq<AnimateSubject>,
)
    requires
        is_fitted(before, after, slots),
    ensures
        frame_counts(after) == frame_counts(before),
{
    assert(frame_counts(after) =~= frame_counts(before));
}

/// Whether every frame that will be resized can be.
pub fn can_resize(strokes: &Vec<Vec<WordFrame>>, slots: &Vec<AnimateSubject>) -> (fits: bool)
    ensures
        fits == resizable(stroke_views(strokes@), slots@),
{
    let mut i: usize = 0;
    while i < strokes.len() && i < slots.len()
        invariant
            i <= strokes.len(),
            i <= slots.len(),
            forall|a: int, b: int|
                0 <= a < i && strokes@[a].len() > 1 && 0 <= b < strokes@[a].len() ==> resize_fits(
                    (#[trigger] stroke_views(strokes@)[a][b]).img.width,
                    stroke_views(strokes@)[a][b].img.height,
                    slots@[a].slot_width(),
                    slots@[a].slot_height(),
                ),
        decreases strokes.len() - i,
    {
        let frames = &strokes[i];
        let slot = &slots[i];
        if frames.len() > 1 {
            let width = #[verifier::truncate] (slot.width as u32);
            let height = #[verifier::truncate] (slot.height as u32);
            let mut j: usize = 0;
            while j < frames.len()
                invariant
                    j <= frames.len(),
                    frames.len() > 1,
                    i < strokes.len(),
                    i < slots.len(),
                    frames == &strokes@[i as int],
                    width == slots@[i as int].slot_width(),
                    height == slots@[i as int].slot_height(),
                    forall|b: int|
                        0 <= b < j ==> resize_fits(
                            (#[trigger] frames@[b]).img@.width,
                            frames@[b].img@.height,
                            width,
                            height,
                        ),
                decreases frames.len() - j,
            {
                if !frames[j].img.can_resize_to(width, height) {
                    proof {
                        let views = stroke_views(strokes@);
                        assert(views[i as int].len() == frames.len());
                        assert(views[i as int][j as int] == frames@[j as int]@);
                        assert(!resize_fits(
                            views[i as int][j as int].img.width,
                            views[i as int][j as int].img.height,
                            slots@[i as int].slot_width(),
                            slots@[i as int].slot_height(),
                        ));
                    }
                    return false;
                }
                j = j + 1;
            }
            assert forall|b: int| 0 <= b < frames.len() implies resize_fits(
                (#[trigger] stroke_views(strokes@)[i as int][b]).img.width,
                stroke_views(strokes@)[i as int][b].img.height,
                slots@[i as int].slot_width(),
                slots@[i as int].slot_height(),
            ) by {
                assert(stroke_views(strokes@)[i as int][b] == frames@[b]@);
            }
        }
        i = i + 1;
    }
    true
}

/// Brings the frames of every character with stroke data to the size of its
/// slot. The frames of a character without stroke data stay as they are.
pub fn fit_to_slots(strokes: Vec<Vec<WordFrame>>, slots: &Vec<AnimateSubject>) -> (fitted: Vec<
    Vec<WordFrame>,
>)
    requires
        strokes.len() == slots.len(),
        resizable(stroke_views(strokes@), slots@),
    ensures
        is_fitted(stroke_views(strokes@), stroke_views(fitted@), slots@),
{
    let ghost all = strokes@;
    let mut fitted: Vec<Vec<WordFrame>> = Vec::new();
    let mut i: usize = 0;
    for frames in it: strokes
        invariant
            it.seq() == all,
            i == it.index(),
            all.len() == slots.len(),
            resizable(stroke_views(all), slots@),
            fitted.len() == i,
            is_fitted(stroke_views(all).take(i as int), stroke_views(fitted@), slots@),
    {
        let ghost views = stroke_views(all);
        let ghost done = stroke_views(fitted@);
        assert(views[i as int] == frame_views(frames@));
        if frames.len() > 1 {
            let slot = &slots[i];
            let ghost unfitted = frames@;
            let mut resized: Vec<WordFrame> = Vec::new();
            assert forall|j: int| 0 <= j < unfitted.len() implies resize_fits(
                (#[trigger] unfitted[j]).img@.width,
                unfitted[j].img@.height,
                slot.slot_width(),
                slot.slot_height(),
            ) by {
                assert(views[i as int][j] == unfitted[j]@);
            }
            for frame in inner: frames
                invariant
                    inner.seq() == unfitted,
                    resized.len() == inner.index(),
                    i < slots.len(),
                    slot == &slots@[i as int],
                    forall|j: int|
                        0 <= j < unfitted.len() ==> resize_fits(
                            (#[trigger] unfitted[j]).img@.width,
                            unfitted[j].img@.height,
                            slot.slot_width(),
                            slot.slot_height(),
                        ),
                    forall|j: int|
                        0 <= j < resized.len() ==> is_resized(
                            unfitted[j]@,
                            (#[trigger] resized@[j])@,
                            *slot,
                        ),
            {
                let mut frame = frame;
                frame.resize_img_by_size(slot.width, slot.height);
                resized.push(frame);
            }
            fitted.push(resized);
            proof {
                let now = stroke_views(fitted@);
                assert(now.len() == i + 1);
                assert forall|a: int| 0 <= a < i + 1 implies (#[trigger] now[a]).len()
                    == views.take(i + 1)[a].len() by {
                    if a < i {
                        assert(now[a] == done[a]);
                    }
                }
                assert forall|a: int| 0 <= a < i + 1 && views.take(i + 1)[a].len() <= 1 implies
                    #[trigger] now[a] == views.take(i + 1)[a] by {
                    assert(now[a] == done[a]);
                    assert(views.take(i as int)[a] == views.take(i + 1)[a]);
                }
                assert forall|a: int, b: int|
                    0 <= a < i + 1 && views.take(i + 1)[a].len() > 1 && 0 <= b < views.take(
                        i + 1,
                    )[a].len() implies is_resized(
                    views.take(i + 1)[a][b],
                    #[trigger] now[a][b],
                    slots@[a],
                ) by {
                    if a < i {
                        assert(now[a] == done[a]);
                        assert(views.take(i as int)[a] == views.take(i + 1)[a]);
                        assert(is_resized(views.take(i as int)[a][b], done[a][b], slots@[a]));
                    } else {
                        assert(now[a][b] == resized@[b]@);
                        assert(views[a][b] == unfitted[b]@);
                    }
                }
            }
        } else {
            fitted.push(frames);
            proof {
                let now = stroke_views(fitted@);
                assert forall|a: int| 0 <= a < i + 1 implies (#[trigger] now[a]).len()
                    == views.take(i + 1)[a].len() by {
                    if a < i {
                        assert(now[a] == done[a]);
                    }
                }
                assert forall|a: int| 0 <= a < i + 1 && views.take(i + 1)[a].len() <= 1 implies
                    #[trigger] now[a] == views.take(i + 1)[a] by {
                    if a < i {
                        assert(now[a] == done[a]);
                        assert(views.take(i as int)[a] == views.take(i + 1)[a]);
                    }
                }
                assert forall|a: int, b: int|
                    0 <= a < i + 1 && views.take(i + 1)[a].len() > 1 && 0 <= b < views.take(
                        i + 1,
                    )[a].len() implies is_resized(
                    views.take(i + 1)[a][b],
                    #[trigger] now[a][b],
                    slots@[a],
                ) by {
                    assert(now[a] == done[a]);
                    assert(views.take(i as int)[a] == views.take(i + 1)[a]);
                    assert(is_resized(views.take(i as int)[a][b], done[a][b], slots@[a]));
                }
            }
        }
        i = i + 1;
    }
    assert(stroke_views(all).take(i as int) =~= stroke_views(all));
    fitted
}

/// Lays the frames of the characters over the canvas, character by character
/// and frame by frame, and records the canvas after each frame. The frames
/// are laid as they are. Where the slots do not match the characters in
/// number, nothing is drawn and nothing recorded.
pub fn composite_frames(
    canvas: &mut Raster,
    strokes: &Vec<Vec<WordFrame>>,
    slots: &Vec<AnimateSubject>,
) -> (recorded: Result<Vec<Raster>, AppError>)
    ensures
        match recorded {
            Ok(frames) => {
                &&& strokes.len() == slots.len()
                &&& raster_views(frames@) == snapshots(
                    old(canvas)@,
                    stroke_views(strokes@),
                    slots@,
                    strokes.len() as nat,
                )
                &&& final(canvas)@ == canvas_after(
                    old(canvas)@,
                    stroke_views(strokes@),
                    slots@,
                    strokes.len() as nat,
                )
            },
            Err(e) => {
                &&& strokes.len() != slots.len()
                &&& e@ == mismatch()
                &&& final(canvas)@ == old(canvas)@
            },
        },
{
    if strokes.len() != slots.len() {
        return Err(
            AppError::InvalidFileName(String::from_str("WordList contains illegal characters")),
        );
    }
    let ghost blank = canvas@;
    let ghost views = stroke_views(strokes@);
    let mut recorded: Vec<Raster> = Vec::new();
    let mut i: usize = 0;
    assert(raster_views(recorded@) =~= snapshots(blank, views, slots@, 0));
    while i < strokes.len()
        invariant
            i <= strokes.len() == slots.len(),
            blank == old(canvas)@,
            views == stroke_views(strokes@),
            canvas@ == canvas_after(blank, views, slots@, i as nat),
            raster_views(recorded@) == snapshots(blank, views, slots@, i as nat),
        decreases strokes.len() - i,
    {
        let frames = &strokes[i];
        let slot = &slots[i];
        assert(views[i as int] == frame_views(frames@));
        if frames.len() > 1 {
            let ghost base = canvas@;
            let ghost earlier = raster_views(recorded@);
            let mut j: usize = 0;
            while j < frames.len()
                invariant
                    j <= frames.len(),
                    canvas@ == canvas_after_frames(base, frame_views(frames@), *slot, j as nat),
                    raster_views(recorded@) == earlier + character_snapshots(
                        base,
                        frame_views(frames@),
                        *slot,
                    ).take(j as int),
                decreases frames.len() - j,
            {
                let ghost before = raster_views(recorded@);
                overlay(canvas, &frames[j].img, slot.pos_x, slot.pos_y);
                assert(canvas@ == canvas_after_frames(
                    base,
                    frame_views(frames@),
                    *slot,
                    (j + 1) as nat,
                ));
                recorded.push(canvas.snapshot());
                assert(raster_views(recorded@) =~= before.push(canvas@));
                assert(character_snapshots(base, frame_views(frames@), *slot).take(j + 1)
                    =~= character_snapshots(base, frame_views(frames@), *slot).take(
                    j as int,
                ).push(canvas@));
                j = j + 1;
            }
            assert(character_snapshots(base, frame_views(frames@), *slot).take(j as int)
                =~= character_snapshots(base, frame_views(frames@), *slot));
        }
        i = i + 1;
    }
    Ok(recorded)
}

} // verus!
