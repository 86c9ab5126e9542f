//! From a request and the archives of its characters to the frames of an
//! animation: as records of the canvas, or as one encoded animation.

use vstd::prelude::*;
use crate::animation::accepted_at;
use crate::animation::add_frame;
use crate::animation::buffers;
use crate::animation::encoded_animation;
use crate::animation::encoder_frames;
use crate::animation::encoder_sides;
use crate::animation::finalize;
use crate::animation::frames_accepted;
use crate::animation::lemma_timestamp_within;
use crate::animation::new_encoder;
use crate::animation::timed;
use crate::animation::timing_fits;
use crate::compositor::canvas_after;
use crate::compositor::canvas_after_frames;
use crate::compositor::character_snapshots;
use crate::compositor::composite_frames;
use crate::compositor::fit_to_slots;
use crate::compositor::frame_counts;
use crate::compositor::is_fitted;
use crate::compositor::lemma_fitted_keeps_counts;
use crate::compositor::lemma_snapshot_count;
use crate::compositor::mismatch;
use crate::compositor::raster_views;
use crate::compositor::resizable;
use crate::compositor::snapshot_total;
use crate::compositor::snapshots;
use crate::compositor::stroke_views;
use crate::error::AppError;
use crate::error::Failure;
use crate::font::CalliFont;
use crate::frame_name::chars_of;
use crate::raster::overlay;
use crate::raster::Raster;
use crate::raster::RasterView;
use crate::request::AnimateSubject;
use crate::request::AnimationRequest;
use crate::word_frame::frame_views;
use crate::word_frame::loaded_frames;
use crate::word_frame::FrameView;
use crate::word_frame::WordFrame;

verus! {

/// What the store answered for each character, as contracts see it.
pub open spec fn archive_views(archives: Seq<Option<Vec<u8>>>) -> Seq<Option<Seq<u8>>> {
    archives.map_values(
        |archive: Option<Vec<u8>>|
            match archive {
                Some(blob) => Some(blob@),
                None => None,
            },
    )
}

/// The frame set of one character: read from its archive where the store has
/// one, and else the single frame that stands for a character without stroke
/// data. A missing archive is no failure; an archive that cannot be read is.
pub open spec fn character_frames(name: char, archive: Option<Seq<u8>>) -> Result<
    Seq<FrameView>,
    Failure,
> {
    match archive {
        Some(blob) => loaded_frames(name, blob),
        None => Ok(seq![FrameView::unavailable(name)]),
    }
}

/// The frame sets of the first `count` characters of a text, or the failure
/// of the first character whose archive cannot be read.
pub open spec fn poem_frames(
    content: Seq<char>,
    archives: Seq<Option<Seq<u8>>>,
    count: nat,
) -> Result<Seq<Seq<FrameView>>, Failure>
    decreases count,
{
    if count == 0 {
        Ok(Seq::empty())
    } else {
        match poem_frames(content, archives, (count - 1) as nat) {
            Err(failure) => Err(failure),
            Ok(sets) => match character_frames(content[count - 1], archives[count - 1]) {
                Err(failure) => Err(failure),
                Ok(frames) => Ok(sets.push(frames)),
            },
        }
    }
}

/// Once a character has failed, the text fails with it.
proof fn lemma_poem_failure_stays(
    content: Seq<char>,
    archives: Seq<Option<Seq<u8>>>,
    failed: nat,
    count: nat,
)
    requires
        failed <= count,
        poem_frames(content, archives, failed) is Err,
    ensures
        poem_frames(content, archives, count) == poem_frames(content, archives, failed),
    decreases count,
{
    if failed < count {
        lemma_poem_failure_stays(content, archives, failed, (count - 1) as nat);
    }
}

/// The records of the first characters are the first records of them all.
pub proof fn lemma_snapshots_grow(
    canvas: RasterView,
    strokes: Seq<Seq<FrameView>>,
    slots: Seq<AnimateSubject>,
    fewer: nat,
    more: nat,
)
    requires
        fewer <= more,
    ensures
        snapshots(canvas, strokes, slots, fewer).len() <= snapshots(
            canvas,
            strokes,
            slots,
            more,
        ).len(),
        snapshots(canvas, strokes, slots, fewer) == snapshots(canvas, strokes, slots, more).take(
            snapshots(canvas, strokes, slots, fewer).len() as int,
        ),
    decreases more,
{
    if fewer < more {
        lemma_snapshots_grow(canvas, strokes, slots, fewer, (more - 1) as nat);
    }
    assert(snapshots(canvas, strokes, slots, fewer) =~= snapshots(
        canvas,
        strokes,
        slots,
        more,
    ).take(snapshots(canvas, strokes, slots, fewer).len() as int));
}

/// Reads the frame sets of a text's characters from what the store answered
/// for each, in the order of the text: the bytes of the character's archive,
/// or nothing.
pub fn load_poem_frames(content: &str, archives: Vec<Option<Vec<u8>>>) -> (loaded: Result<
    Vec<Vec<WordFrame>>,
    AppError,
>)
    requires
        archives.len() == content@.len(),
    ensures
        match loaded {
            Ok(sets) => poem_frames(content@, archive_views(archives@), content@.len()) == Ok::<
                Seq<Seq<FrameView>>,
                Failure,
            >(stroke_views(sets@)),
            Err(e) => poem_frames(content@, archive_views(archives@), content@.len()) == Err::<
                Seq<Seq<FrameView>>,
                Failure,
            >(e@),
        },
{
    let words = chars_of(content);
    let ghost answers = archive_views(archives@);
    let ghost all = archives@;
    let mut result: Vec<Vec<WordFrame>> = Vec::new();
    let mut i: usize = 0;
    assert(stroke_views(result@) =~= Seq::<Seq<FrameView>>::empty());
    for archive in it: archives
        invariant
            it.seq() == all,
            answers == archive_views(all),
            i == it.index(),
            words@ == content@,
            all.len() == words.len(),
            poem_frames(content@, answers, i as nat) == Ok::<Seq<Seq<FrameView>>, Failure>(
                stroke_views(result@),
            ),
    {
        let word = words[i];
        let ghost before = stroke_views(result@);
        let frames = match archive {
            Some(blob) => {
                assert(answers[i as int] == Some(blob@));
                match WordFrame::load_from_client(word, blob) {
                    Ok(frames) => frames,
                    Err(e) => {
                        proof {
                            assert(poem_frames(content@, answers, (i + 1) as nat) is Err);
                            lemma_poem_failure_stays(
                                content@,
                                answers,
                                (i + 1) as nat,
                                content@.len(),
                            );
                        }
                        return Err(e);
                    },
                }
            },
            None => {
                assert(answers[i as int] is None);
                let sentinel = WordFrame::unavailable(word);
                let frames = vec![sentinel];
                assert(frame_views(frames@) =~= seq![FrameView::unavailable(word)]);
                frames
            },
        };
        assert(character_frames(content@[i as int], answers[i as int]) == Ok::<
            Seq<FrameView>,
            Failure,
        >(frame_views(frames@)));
        result.push(frames);
        assert(stroke_views(result@) =~= before.push(frame_views(frames@)));
        i = i + 1;
    }
    Ok(result)
}

/// Draws a poem stroke by stroke and records the canvas after each stroke.
///
/// The canvas starts opaque white with the sides that the request asks for.
/// The frames of each character with stroke data are brought to the size of
/// the character's slot and laid over the canvas at the slot, in the order of
/// the text. A request that names no known style is refused, and so is one
/// whose slots do not match its characters in number; nothing is drawn then.
pub fn compose_poem_animation_frames(
    req: &AnimationRequest,
    content_strokes: Vec<Vec<WordFrame>>,
) -> (composed: Result<Vec<Raster>, AppError>)
    requires
        CalliFont::named(req.font_type@) is Some && content_strokes.len() == req.word_list.len()
            ==> RasterView::byte_len(req.canvas_width(), req.canvas_height()) <= isize::MAX
            && resizable(stroke_views(content_strokes@), req.word_list@),
    ensures
        match composed {
            Ok(frames) => {
                &&& CalliFont::named(req.font_type@) is Some
                &&& req.word_list.len() == content_strokes.len()
                &&& frames.len() == snapshot_total(frame_counts(stroke_views(content_strokes@)))
                &&& forall|k: int|
                    0 <= k < frames.len() ==> (#[trigger] frames[k])@.width == req.canvas_width()
                        && frames[k]@.height == req.canvas_height()
                &&& exists|fitted: Seq<Seq<FrameView>>|
                    {
                        &&& is_fitted(stroke_views(content_strokes@), fitted, req.word_list@)
                        &&& raster_views(frames@) == snapshots(
                            RasterView::white(req.canvas_width(), req.canvas_height()),
                            fitted,
                            req.word_list@,
                            fitted.len(),
                        )
                    }
            },
            Err(e) => if CalliFont::named(req.font_type@) is None {
                e@ == Failure::InvalidFontType(req.font_type@)
            } else {
                req.word_list.len() != content_strokes.len() && e@ == mismatch()
            },
        },
{
    let canvas_width = #[verifier::truncate] (req.width as u32);
    let canvas_height = #[verifier::truncate] (req.height as u32);
    match CalliFont::from_str(req.font_type.as_str()) {
        Ok(_) => {},
        Err(e) => {
            return Err(e);
        },
    }
    if req.word_list.len() != content_strokes.len() {
        return Err(
            AppError::InvalidFileName(String::from_str("WordList contains illegal characters")),
        );
    }
    let mut main_canvas = Raster::white(canvas_width, canvas_height);
    let ghost given = stroke_views(content_strokes@);
    let fitted = fit_to_slots(content_strokes, &req.word_list);
    match composite_frames(&mut main_canvas, &fitted, &req.word_list) {
        Ok(recorded_frames) => {
            proof {
                let blank = RasterView::white(canvas_width, canvas_height);
                let sets = stroke_views(fitted@);
                lemma_snapshot_count(blank, sets, req.word_list@);
                lemma_fitted_keeps_counts(given, sets, req.word_list@);
                assert forall|k: int| 0 <= k < recorded_frames.len() implies (
                #[trigger] recorded_frames[k])@.width == canvas_width && recorded_frames[k]@.height
                    == canvas_height by {
                    assert(raster_views(recorded_frames@)[k] == recorded_frames[k]@);
                }
                assert(is_fitted(given, sets, req.word_list@) && raster_views(recorded_frames@)
                    == snapshots(blank, sets, req.word_list@, sets.len()));
            }
            Ok(recorded_frames)
        },
        Err(e) => Err(e),
    }
}

/// The more characters, the more records.
pub proof fn lemma_snapshot_total_grows(counts: Seq<nat>, fewer: int)
    requires
        0 <= fewer <= counts.len(),
    ensures
        snapshot_total(counts.take(fewer)) <= snapshot_total(counts),
    decreases counts.len(),
{
    if fewer < counts.len() {
        lemma_snapshot_total_grows(counts.drop_last(), fewer);
        assert(counts.drop_last().take(fewer) =~= counts.take(fewer));
    } else {
        assert(counts.take(fewer) =~= counts);
    }
}

/// Whether the frames of these characters, shown `frame_delay_ms` apart, can
/// all be given a timestamp of 32 bits.
pub fn timing_fits_for(strokes: &Vec<Vec<WordFrame>>, frame_delay_ms: i32) -> (fits: bool)
    ensures
        fits == timing_fits(
            snapshot_total(frame_counts(stroke_views(strokes@))),
            frame_delay_ms as int,
        ),
{
    let ghost counts = frame_counts(stroke_views(strokes@));
    if frame_delay_ms == 0 {
        assert(snapshot_total(counts) * 0 == 0);
        return true;
    }
    let mut total: u64 = 0;
    let mut i: usize = 0;
    assert(counts.take(0) =~= Seq::<nat>::empty());
    while i < strokes.len()
        invariant
            i <= strokes.len(),
            counts == frame_counts(stroke_views(strokes@)),
            counts.len() == strokes.len(),
            total == snapshot_total(counts.take(i as int)),
            total <= 0x8000_0000,
            frame_delay_ms != 0,
        decreases strokes.len() - i,
    {
        let frames = strokes[i].len();
        proof {
            assert(counts.take(i + 1).drop_last() =~= counts.take(i as int));
            assert(counts.take(i + 1).last() == frames);
            lemma_snapshot_total_grows(counts, i + 1);
        }
        if frames > 1 {
            let more: u128 = total as u128 + frames as u128;
            if more > 0x8000_0000 {
                assert(snapshot_total(counts) * frame_delay_ms > i32::MAX || snapshot_total(counts)
                    * frame_delay_ms < i32::MIN) by (nonlinear_arith)
                    requires
                        snapshot_total(counts) > 0x8000_0000,
                        frame_delay_ms != 0,
                ;
                return false;
            }
            total = more as u64;
        }
        i = i + 1;
    }
    assert(counts.take(i as int) =~= counts);
    assert(-0x8000_0000 * 0x8000_0000 <= total * frame_delay_ms <= 0x8000_0000 * 0x8000_0000)
        by (nonlinear_arith)
        requires
            0 <= total <= 0x8000_0000,
            -0x8000_0000 <= frame_delay_ms <= 0x8000_0000,
    ;
    let end: i128 = (total as i128) * (frame_delay_ms as i128);
    end >= i32::MIN as i128 && end <= i32::MAX as i128
}

/// Whether any character has stroke data: more than a single frame.
pub fn has_stroke_data(strokes: &Vec<Vec<WordFrame>>) -> (any: bool)
    ensures
        any == (snapshot_total(frame_counts(stroke_views(strokes@))) > 0),
{
    let ghost counts = frame_counts(stroke_views(strokes@));
    let mut i: usize = 0;
    assert(counts.take(0) =~= Seq::<nat>::empty());
    while i < strokes.len()
        invariant
            i <= strokes.len(),
            counts == frame_counts(stroke_views(strokes@)),
            counts.len() == strokes.len(),
            snapshot_total(counts.take(i as int)) == 0,
        decreases strokes.len() - i,
    {
        proof {
            assert(counts.take(i + 1).drop_last() =~= counts.take(i as int));
            assert(counts.take(i + 1).last() == strokes[i as int].len());
            lemma_snapshot_total_grows(counts, i + 1);
        }
        if strokes[i].len() > 1 {
            return true;
        }
        i = i + 1;
    }
    assert(counts.take(i as int) =~= counts);
    false
}

/// The frames that drawing a poem hands to the encoder, each with its
/// timestamp: the canvas after each frame of each character with stroke
/// data, the first at 0 and each later one `delay` after the one before.
pub open spec fn poem_track(
    canvas: RasterView,
    strokes: Seq<Seq<FrameView>>,
    slots: Seq<AnimateSubject>,
    delay: int,
) -> Seq<(Seq<u8>, i32)> {
    timed(buffers(snapshots(canvas, strokes, slots, strokes.len())), delay)
}

/// Lays the frames of the characters over the canvas as
/// [`composite_frames`] does, and hands the canvas to the encoder after each
/// frame instead of recording it: the first at 0, each later one
/// `frame_delay_ms` after the one before. Returns the time at which the last
/// frame ends. The first frame that the encoder refuses ends the drawing.
pub fn stream_frames(
    encoder: &mut webp_animation::Encoder,
    canvas: &mut Raster,
    strokes: &Vec<Vec<WordFrame>>,
    slots: &Vec<AnimateSubject>,
    frame_delay_ms: i32,
) -> (end: Result<i32, AppError>)
    requires
        strokes.len() == slots.len(),
        timing_fits(snapshot_total(frame_counts(stroke_views(strokes@))), frame_delay_ms as int),
    ensures
        encoder_sides(*final(encoder)) == encoder_sides(*old(encoder)),
        ({
            let track = poem_track(
                old(canvas)@,
                stroke_views(strokes@),
                slots@,
                frame_delay_ms as int,
            );
            let accepted = frames_accepted(
                encoder_sides(*old(encoder)).0,
                encoder_sides(*old(encoder)).1,
                encoder_frames(*old(encoder)),
                track,
                track.len(),
            );
            match end {
                Ok(end_ms) => {
                    &&& accepted
                    &&& end_ms == snapshot_total(frame_counts(stroke_views(strokes@)))
                        * frame_delay_ms
                    &&& encoder_frames(*final(encoder)) == encoder_frames(*old(encoder)) + track
                    &&& final(canvas)@ == canvas_after(
                        old(canvas)@,
                        stroke_views(strokes@),
                        slots@,
                        strokes.len() as nat,
                    )
                },
                Err(e) => e is WebpFailure && !accepted,
            }
        }),
{
    let ghost blank = canvas@;
    let ghost views = stroke_views(strokes@);
    let ghost held = encoder_frames(*encoder);
    let ghost sides = encoder_sides(*encoder);
    let ghost all = snapshots(blank, views, slots@, strokes.len() as nat);
    let ghost track = timed(buffers(all), frame_delay_ms as int);
    let mut current_timestamp: i32 = 0;
    let ghost mut sent: nat = 0;
    let mut i: usize = 0;
    proof {
        lemma_snapshot_count(blank, views, slots@);
        assert(held + track.take(0) =~= held);
    }
    while i < strokes.len()
        invariant
            i <= strokes.len() == slots.len(),
            blank == old(canvas)@,
            views == stroke_views(strokes@),
            held == encoder_frames(*old(encoder)),
            sides == encoder_sides(*old(encoder)),
            all == snapshots(blank, views, slots@, strokes.len() as nat),
            track == timed(buffers(all), frame_delay_ms as int),
            timing_fits(all.len(), frame_delay_ms as int),
            all.len() == snapshot_total(frame_counts(views)),
            encoder_sides(*encoder) == sides,
            sent == snapshots(blank, views, slots@, i as nat).len(),
            sent <= all.len(),
            current_timestamp == sent * frame_delay_ms,
            canvas@ == canvas_after(blank, views, slots@, i as nat),
            encoder_frames(*encoder) == held + track.take(sent as int),
            frames_accepted(sides.0, sides.1, held, track, sent),
        decreases strokes.len() - i,
    {
        let frames = &strokes[i];
        let slot = &slots[i];
        assert(views[i as int] == frame_views(frames@));
        proof {
            lemma_snapshots_grow(blank, views, slots@, (i + 1) as nat, strokes.len() as nat);
        }
        if frames.len() > 1 {
            let ghost base = canvas@;
            let ghost earlier = sent;
            let ghost next = snapshots(blank, views, slots@, (i + 1) as nat);
            let mut j: usize = 0;
            while j < frames.len()
                invariant
                    j <= frames.len(),
                    frames.len() > 1,
                    i < strokes.len() == slots.len(),
                    blank == old(canvas)@,
                    views == stroke_views(strokes@),
                    views[i as int] == frame_views(frames@),
                    track.len() == all.len(),
                    held == encoder_frames(*old(encoder)),
                    sides == encoder_sides(*old(encoder)),
                    all == snapshots(blank, views, slots@, strokes.len() as nat),
                    track == timed(buffers(all), frame_delay_ms as int),
                    timing_fits(all.len(), frame_delay_ms as int),
                    next == snapshots(blank, views, slots@, (i + 1) as nat),
                    next == snapshots(blank, views, slots@, i as nat) + character_snapshots(
                        base,
                        frame_views(frames@),
                        *slot,
                    ),
                    next.len() <= all.len(),
                    next == all.take(next.len() as int),
                    earlier == snapshots(blank, views, slots@, i as nat).len(),
                    sent == earlier + j,
                    current_timestamp == sent * frame_delay_ms,
                    encoder_sides(*encoder) == sides,
                    canvas@ == canvas_after_frames(base, frame_views(frames@), *slot, j as nat),
                    encoder_frames(*encoder) == held + track.take(sent as int),
                    frames_accepted(sides.0, sides.1, held, track, sent),
                decreases frames.len() - j,
            {
                overlay(canvas, &frames[j].img, slot.pos_x, slot.pos_y);
                proof {
                    assert(canvas@ == canvas_after_frames(
                        base,
                        frame_views(frames@),
                        *slot,
                        (j + 1) as nat,
                    ));
                    assert(next[sent as int] == canvas@);
                    assert(all[sent as int] == next[sent as int]);
                    assert(buffers(all)[sent as int] == canvas@.pixels);
                    lemma_timestamp_within(sent as int, all.len() as int, frame_delay_ms as int);
                    assert(track[sent as int] == (canvas@.pixels, current_timestamp));
                    assert(sent < track.len());
                }
                match add_frame(encoder, canvas.as_raw().as_slice(), current_timestamp) {
                    Ok(()) => {},
                    Err(e) => {
                        assert(!accepted_at(sides.0, sides.1, held, track, sent as int));
                        return Err(AppError::WebpFailure(e));
                    },
                }
                proof {
                    assert(accepted_at(sides.0, sides.1, held, track, sent as int));
                    assert(track.take((sent + 1) as int) =~= track.take(sent as int).push(
                        track[sent as int],
                    ));
                    lemma_timestamp_within(
                        (sent + 1) as int,
                        all.len() as int,
                        frame_delay_ms as int,
                    );
                    assert((sent + 1) * frame_delay_ms == sent * frame_delay_ms + frame_delay_ms)
                        by (nonlinear_arith);
                    sent = sent + 1;
                }
                current_timestamp = current_timestamp + frame_delay_ms;
                j = j + 1;
            }
        }
        i = i + 1;
    }
    assert(track.take(sent as int) =~= track);
    Ok(current_timestamp)
}

/// Draws a poem stroke by stroke into one animation, in which each stroke is
/// shown for `frame_delay_ms`.
///
/// A request that names no known style is refused. One whose slots do not
/// match its characters in number is refused next, and one in which no
/// character has stroke data after that, as an animation without a frame:
/// in none of these is anything drawn or an encoder made. Otherwise the
/// strokes are drawn as [`compose_poem_animation_frames`] draws them, and
/// each state of the canvas goes to the encoder as it arises; a refusal by
/// the encoder is handed on.
pub fn generate_poem_animation_webp(
    req: &AnimationRequest,
    content_strokes: Vec<Vec<WordFrame>>,
    frame_delay_ms: i32,
) -> (encoded: Result<Vec<u8>, AppError>)
    requires
        CalliFont::named(req.font_type@) is Some && content_strokes.len() == req.word_list.len()
            && snapshot_total(frame_counts(stroke_views(content_strokes@))) > 0 ==> {
            &&& RasterView::byte_len(req.canvas_width(), req.canvas_height()) <= isize::MAX
            &&& resizable(stroke_views(content_strokes@), req.word_list@)
            &&& timing_fits(
                snapshot_total(frame_counts(stroke_views(content_strokes@))),
                frame_delay_ms as int,
            )
        },
    ensures
        ({
            let given = stroke_views(content_strokes@);
            let blank = RasterView::white(req.canvas_width(), req.canvas_height());
            let end_ms = (snapshot_total(frame_counts(given)) * frame_delay_ms) as i32;
            match encoded {
                Ok(bytes) => {
                    &&& CalliFont::named(req.font_type@) is Some
                    &&& req.word_list.len() == content_strokes.len()
                    &&& snapshot_total(frame_counts(given)) > 0
                    &&& exists|fitted: Seq<Seq<FrameView>>|
                        {
                            &&& is_fitted(given, fitted, req.word_list@)
                            &&& encoded_animation(
                                req.canvas_width(),
                                req.canvas_height(),
                                poem_track(blank, fitted, req.word_list@, frame_delay_ms as int),
                                end_ms,
                            ) == Some(bytes@)
                        }
                },
                Err(e) => if CalliFont::named(req.font_type@) is None {
                    e@ == Failure::InvalidFontType(req.font_type@)
                } else if req.word_list.len() != content_strokes.len() {
                    e@ == mismatch()
                } else if snapshot_total(frame_counts(given)) == 0 {
                    e is EmptyFrame
                } else {
                    &&& e is WebpFailure
                    &&& exists|fitted: Seq<Seq<FrameView>>|
                        {
                            &&& is_fitted(given, fitted, req.word_list@)
                            &&& encoded_animation(
                                req.canvas_width(),
                                req.canvas_height(),
                                poem_track(blank, fitted, req.word_list@, frame_delay_ms as int),
                                end_ms,
                            ) is None
                        }
                },
            }
        }),
        CalliFont::named(req.font_type@) is Some && content_strokes.len() == req.word_list.len()
            && snapshot_total(frame_counts(stroke_views(content_strokes@))) > 0 && (
        req.canvas_width() == 0 || req.canvas_height() == 0) ==> encoded is Err,
{
    let canvas_width = #[verifier::truncate] (req.width as u32);
    let canvas_height = #[verifier::truncate] (req.height as u32);
    match CalliFont::from_str(req.font_type.as_str()) {
        Ok(_) => {},
        Err(e) => {
            return Err(e);
        },
    }
    if req.word_list.len() != content_strokes.len() {
        return Err(
            AppError::InvalidFileName(String::from_str("WordList contains illegal characters")),
        );
    }
    if !has_stroke_data(&content_strokes) {
        return Err(AppError::EmptyFrame);
    }
    let ghost given = stroke_views(content_strokes@);
    let ghost blank = RasterView::white(canvas_width, canvas_height);
    let fitted = fit_to_slots(content_strokes, &req.word_list);
    let ghost sets = stroke_views(fitted@);
    let ghost track = poem_track(blank, sets, req.word_list@, frame_delay_ms as int);
    proof {
        lemma_fitted_keeps_counts(given, sets, req.word_list@);
    }
    let mut main_canvas = Raster::white(canvas_width, canvas_height);
    let mut encoder = match new_encoder(canvas_width, canvas_height) {
        Ok(encoder) => encoder,
        Err(e) => {
            assert(is_fitted(given, sets, req.word_list@) && encoded_animation(
                canvas_width,
                canvas_height,
                track,
                (snapshot_total(frame_counts(given)) * frame_delay_ms) as i32,
            ) is None);
            return Err(AppError::WebpFailure(e));
        },
    };
    let current_timestamp = match stream_frames(
        &mut encoder,
        &mut main_canvas,
        &fitted,
        &req.word_list,
        frame_delay_ms,
    ) {
        Ok(end_ms) => end_ms,
        Err(e) => {
            assert(is_fitted(given, sets, req.word_list@) && encoded_animation(
                canvas_width,
                canvas_height,
                track,
                (snapshot_total(frame_counts(given)) * frame_delay_ms) as i32,
            ) is None);
            return Err(e);
        },
    };
    assert(Seq::<(Seq<u8>, i32)>::empty() + track =~= track);
    match finalize(encoder, current_timestamp) {
        Ok(webp_bytes) => {
            assert(is_fitted(given, sets, req.word_list@) && encoded_animation(
                canvas_width,
                canvas_height,
                track,
                (snapshot_total(frame_counts(given)) * frame_delay_ms) as i32,
            ) == Some(webp_bytes@));
            Ok(webp_bytes)
        },
        Err(e) => {
            assert(is_fitted(given, sets, req.word_list@) && encoded_animation(
                canvas_width,
                canvas_height,
                track,
                (snapshot_total(frame_counts(given)) * frame_delay_ms) as i32,
            ) is None);
            Err(AppError::WebpFailure(e))
        },
    }
}

} // verus!
