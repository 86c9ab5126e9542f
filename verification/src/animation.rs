//! Encoding canvas records as one timestamped animation, with the
//! `webp_animation` crate.

use vstd::prelude::*;
use crate::compositor::raster_views;
use crate::error::AppError;
use crate::raster::Raster;
use crate::raster::RasterView;

verus! {

/// `webp_animation::Encoder`, carried as it is: contracts speak of it through
/// [`encoder_frames`] and [`encoder_sides`].
#[verifier::external_type_specification]
#[verifier::external_body]
pub struct ExEncoder(webp_animation::Encoder);

/// The frames that an encoder has accepted so far, each with the timestamp
/// it was given, in the order in which they were added.
pub uninterp spec fn encoder_frames(encoder: webp_animation::Encoder) -> Seq<(Seq<u8>, i32)>;

/// The width and height that an encoder was made for.
pub uninterp spec fn encoder_sides(encoder: webp_animation::Encoder) -> (u32, u32);

/// Whether `Encoder::new`, with its default options, makes an encoder for
/// pictures of these sides.
pub uninterp spec fn encoder_made(width: u32, height: u32) -> bool;

/// Whether `Encoder::add_frame` accepts `data` at `timestamp_ms` on an
/// encoder made for `width` by `height` pixels that has accepted `frames`.
pub uninterp spec fn frame_accepted(
    width: u32,
    height: u32,
    frames: Seq<(Seq<u8>, i32)>,
    data: Seq<u8>,
    timestamp_ms: i32,
) -> bool;

/// The payload that `Encoder::finalize` assembles from an encoder made for
/// `width` by `height` pixels that has accepted `frames`, when the animation
/// is declared to end at `end_ms`; `None` where it refuses.
pub uninterp spec fn webp_payload(
    width: u32,
    height: u32,
    frames: Seq<(Seq<u8>, i32)>,
    end_ms: i32,
) -> Option<Seq<u8>>;

/// The timestamp of the frame accepted last; -1 before the first frame.
pub open spec fn last_timestamp(frames: Seq<(Seq<u8>, i32)>) -> int {
    if frames.len() == 0 {
        -1
    } else {
        frames.last().1 as int
    }
}

/// `Encoder::new` with its default options. The contract names whether an
/// encoder is made ([`encoder_made`]), and claims that sides of zero are
/// refused and that a new encoder holds no frame and records the sides it was
/// made for.
#[verifier::external_body]
pub(crate) fn new_encoder(width: u32, height: u32) -> (made: Result<
    webp_animation::Encoder,
    webp_animation::Error,
>)
    ensures
        made is Ok <==> encoder_made(width, height),
        width == 0 || height == 0 ==> made is Err,
        made matches Ok(encoder) ==> encoder_frames(encoder) == Seq::<(Seq<u8>, i32)>::empty()
            && encoder_sides(encoder) == (width, height),
{
    webp_animation::Encoder::new((width, height))
}

/// `Encoder::add_frame`. The contract names whether the frame is accepted
/// ([`frame_accepted`]), and claims that the encoder keeps its sides, that an
/// accepted frame is recorded behind those accepted before, with its
/// timestamp, and two refusals that the encoder makes before it looks at the
/// pixels: of a timestamp that is not above the last one, and of a buffer
/// that is not four bytes to each pixel of its picture. It claims nothing of
/// the frames of an encoder after a refusal.
#[verifier::external_body]
pub(crate) fn add_frame(encoder: &mut webp_animation::Encoder, data: &[u8], timestamp_ms: i32) -> (added:
    Result<(), webp_animation::Error>)
    ensures
        encoder_sides(*final(encoder)) == encoder_sides(*old(encoder)),
        added is Ok <==> frame_accepted(
            encoder_sides(*old(encoder)).0,
            encoder_sides(*old(encoder)).1,
            encoder_frames(*old(encoder)),
            data@,
            timestamp_ms,
        ),
        added is Ok ==> encoder_frames(*final(encoder)) == encoder_frames(*old(encoder)).push(
            (data@, timestamp_ms),
        ),
        timestamp_ms <= last_timestamp(encoder_frames(*old(encoder))) ==> added is Err,
        picture_len(encoder_sides(*old(encoder))) matches Some(len) && data@.len() != len
            ==> added is Err,
{
    encoder.add_frame(data, timestamp_ms)
}

/// `Encoder::finalize`, and the payload copied out of the `WebPData` that it
/// returns. The contract names the outcome [`webp_payload`]: it is decided by
/// the encoder's sides, the frames it accepted and the declared end. It
/// claims two refusals: of an encoder without frames, and of an end below the
/// timestamp of the last frame.
#[verifier::external_body]
pub(crate) fn finalize(encoder: webp_animation::Encoder, end_ms: i32) -> (payload: Result<
    Vec<u8>,
    webp_animation::Error,
>)
    ensures
        match payload {
            Ok(bytes) => webp_payload(
                encoder_sides(encoder).0,
                encoder_sides(encoder).1,
                encoder_frames(encoder),
                end_ms,
            ) == Some(bytes@),
            Err(_) => webp_payload(
                encoder_sides(encoder).0,
                encoder_sides(encoder).1,
                encoder_frames(encoder),
                end_ms,
            ) is None,
        },
        encoder_frames(encoder).len() == 0 ==> payload is Err,
        end_ms < last_timestamp(encoder_frames(encoder)) ==> payload is Err,
{
    Ok(encoder.finalize(end_ms)?.to_vec())
}

/// The number of bytes that the encoder asks of a frame for a picture of
/// these sides: four to a pixel. None where the sides are beyond what the
/// encoder counts in, or the bytes beyond what a buffer holds.
pub open spec fn picture_len(sides: (u32, u32)) -> Option<int> {
    if sides.0 <= i32::MAX && sides.1 <= i32::MAX && RasterView::byte_len(sides.0, sides.1)
        <= usize::MAX {
        Some(RasterView::byte_len(sides.0, sides.1))
    } else {
        None
    }
}

/// Whether the frame at `at` of `track` is accepted by an encoder that held
/// `held` and has accepted the frames of the track before it.
pub open spec fn accepted_at(
    width: u32,
    height: u32,
    held: Seq<(Seq<u8>, i32)>,
    track: Seq<(Seq<u8>, i32)>,
    at: int,
) -> bool {
    frame_accepted(width, height, held + track.take(at), track[at].0, track[at].1)
}

/// Whether the first `count` frames of `track` are accepted one after the
/// other by an encoder that held `held`.
pub open spec fn frames_accepted(
    width: u32,
    height: u32,
    held: Seq<(Seq<u8>, i32)>,
    track: Seq<(Seq<u8>, i32)>,
    count: nat,
) -> bool {
    forall|at: int| 0 <= at < count ==> #[trigger] accepted_at(width, height, held, track, at)
}

/// The animation that a new encoder for `width` by `height` pixels makes of
/// a track that ends at `end_ms`: the payload, where the encoder is made,
/// accepts every frame in turn, and assembles them; `None` otherwise.
pub open spec fn encoded_animation(
    width: u32,
    height: u32,
    track: Seq<(Seq<u8>, i32)>,
    end_ms: i32,
) -> Option<Seq<u8>> {
    if encoder_made(width, height) && frames_accepted(
        width,
        height,
        Seq::empty(),
        track,
        track.len(),
    ) {
        webp_payload(width, height, track, end_ms)
    } else {
        None
    }
}

/// The timing of an animation: when each frame is shown, and when the last
/// one ends. The first frame is shown at 0, each later frame one delay after
/// the frame before it, and the animation ends one delay after its last frame.
#[derive(Debug, PartialEq, Eq)]
pub struct AnimationTrack {
    pub timestamps: Vec<i32>,
    pub duration: i32,
}

/// Each timestamp lies one `delay` behind the one before it, the first at 0.
pub open spec fn is_evenly_timed(timestamps: Seq<i32>, delay: int) -> bool {
    forall|k: int| 0 <= k < timestamps.len() ==> #[trigger] timestamps[k] == k * delay
}

/// The frames with their timestamps, as an encoder records them.
pub open spec fn timed(buffers: Seq<Seq<u8>>, delay: int) -> Seq<(Seq<u8>, i32)> {
    Seq::new(buffers.len(), |k: int| (buffers[k], (k * delay) as i32))
}

/// The pixel buffers of rasters.
pub open spec fn buffers(frames: Seq<RasterView>) -> Seq<Seq<u8>> {
    frames.map_values(|frame: RasterView| frame.pixels)
}

/// Every timestamp of a track of `count` frames, and its end, fit 32 bits.
pub open spec fn timing_fits(count: nat, delay: int) -> bool {
    i32::MIN <= count * delay <= i32::MAX
}

/// A timestamp within a track lies between 0 and the track's end.
pub proof fn lemma_timestamp_within(k: int, count: int, delay: int)
    requires
        0 <= k <= count,
        i32::MIN <= count * delay <= i32::MAX,
    ensures
        i32::MIN <= k * delay <= i32::MAX,
        delay >= 0 ==> 0 <= k * delay <= count * delay,
        delay <= 0 ==> count * delay <= k * delay <= 0,
{
    assert(delay >= 0 ==> 0 <= k * delay <= count * delay) by (nonlinear_arith)
        requires
            0 <= k <= count,
    ;
    assert(delay <= 0 ==> count * delay <= k * delay <= 0) by (nonlinear_arith)
        requires
            0 <= k <= count,
    ;
}

/// The timestamps of a track never fall, where the delay is not negative:
/// each frame is shown one delay after the frame before it.
pub proof fn lemma_timestamps_never_fall(buffers: Seq<Seq<u8>>, delay: int, earlier: int, later: int)
    requires
        0 <= earlier <= later < buffers.len(),
        delay >= 0,
        timing_fits(buffers.len(), delay),
    ensures
        timed(buffers, delay).len() == buffers.len(),
        timed(buffers, delay)[earlier].0 == buffers[earlier],
        timed(buffers, delay)[earlier].1 == earlier * delay,
        timed(buffers, delay)[later].1 == later * delay,
        timed(buffers, delay)[earlier].1 <= timed(buffers, delay)[later].1,
        later == earlier + 1 ==> timed(buffers, delay)[later].1 == timed(buffers, delay)[earlier].1
            + delay,
{
    lemma_timestamp_within(earlier, buffers.len() as int, delay);
    lemma_timestamp_within(later, buffers.len() as int, delay);
    assert(earlier * delay <= later * delay) by (nonlinear_arith)
        requires
            0 <= earlier <= later,
            delay >= 0,
    ;
    assert((earlier + 1) * delay == earlier * delay + delay) by (nonlinear_arith);
}

impl AnimationTrack {
    /// Whether every timestamp of `frame_count` frames shown `frame_delay_ms`
    /// apart, and the end of the last frame, fit 32 bits.
    pub fn fits(frame_count: usize, frame_delay_ms: i32) -> (fits: bool)
        ensures
            fits == timing_fits(frame_count as nat, frame_delay_ms as int),
    {
        if frame_delay_ms == 0 {
            return true;
        }
        if frame_count > 0x8000_0000 {
            assert(frame_count * frame_delay_ms > i32::MAX || frame_count * frame_delay_ms
                < i32::MIN) by (nonlinear_arith)
                requires
                    frame_count > 0x8000_0000,
                    frame_delay_ms != 0,
            ;
            return false;
        }
        assert(-0x8000_0000 * 0x8000_0000 <= frame_count * frame_delay_ms <= 0x8000_0000
            * 0x8000_0000) by (nonlinear_arith)
            requires
                0 <= frame_count <= 0x8000_0000,
                -0x8000_0000 <= frame_delay_ms <= 0x8000_0000,
        ;
        let end: i128 = (frame_count as i128) * (frame_delay_ms as i128);
        end >= i32::MIN as i128 && end <= i32::MAX as i128
    }

    /// The timing of `frame_count` frames shown `frame_delay_ms` apart.
    pub fn plan(frame_count: usize, frame_delay_ms: i32) -> (track: AnimationTrack)
        requires
            timing_fits(frame_count as nat, frame_delay_ms as int),
        ensures
            track.timestamps.len() == frame_count,
            is_evenly_timed(track.timestamps@, frame_delay_ms as int),
            track.duration == frame_count * frame_delay_ms,
    {
        let mut timestamps: Vec<i32> = Vec::new();
        let mut current_timestamp: i32 = 0;
        let mut k: usize = 0;
        while k < frame_count
            invariant
                k <= frame_count,
                timing_fits(frame_count as nat, frame_delay_ms as int),
                current_timestamp == k * frame_delay_ms,
                timestamps.len() == k,
                is_evenly_timed(timestamps@, frame_delay_ms as int),
            decreases frame_count - k,
        {
            timestamps.push(current_timestamp);
            proof {
                lemma_timestamp_within(k + 1, frame_count as int, frame_delay_ms as int);
                assert((k + 1) * frame_delay_ms == k * frame_delay_ms + frame_delay_ms)
                    by (nonlinear_arith);
            }
            current_timestamp = current_timestamp + frame_delay_ms;
            k = k + 1;
        }
        AnimationTrack { timestamps, duration: current_timestamp }
    }
}

/// Encodes canvas records as one animation in which each is shown for
/// `frame_delay_ms`. The encoder is made for the sides of the first record.
/// Without a record there is nothing to encode, and that is a failure of its
/// own; a refusal by the encoder is handed on. The encoder refuses records
/// without area, a record of another size than the first, and records that do
/// not follow each other in time.
pub fn encode_frames_to_webp(frames: Vec<Raster>, frame_delay_ms: i32) -> (encoded: Result<
    Vec<u8>,
    AppError,
>)
    requires
        timing_fits(frames.len() as nat, frame_delay_ms as int),
    ensures
        match encoded {
            Ok(bytes) => frames.len() > 0 && encoded_animation(
                frames[0]@.width,
                frames[0]@.height,
                timed(buffers(raster_views(frames@)), frame_delay_ms as int),
                (frames.len() * frame_delay_ms) as i32,
            ) == Some(bytes@),
            Err(e) => if frames.len() == 0 {
                e is EmptyFrame
            } else {
                e is WebpFailure && encoded_animation(
                    frames[0]@.width,
                    frames[0]@.height,
                    timed(buffers(raster_views(frames@)), frame_delay_ms as int),
                    (frames.len() * frame_delay_ms) as i32,
                ) is None
            },
        },
        frames.len() > 0 && (frames[0]@.width == 0 || frames[0]@.height == 0) ==> encoded is Err,
        frames.len() >= 2 && frame_delay_ms <= 0 ==> encoded is Err,
        frames.len() > 0 && picture_len((frames[0]@.width, frames[0]@.height)) is Some
            && (exists|k: int|
            0 <= k < frames.len() && (#[trigger] frames[k])@.pixels.len()
                != frames[0]@.pixels.len()) ==> encoded is Err,
{
    if frames.len() == 0 {
        return Err(AppError::EmptyFrame);
    }
    let width = frames[0].width();
    let height = frames[0].height();
    let ghost sized = frames[0]@.pixels.len();
    let ghost wanted = timed(buffers(raster_views(frames@)), frame_delay_ms as int);
    let mut encoder = match new_encoder(width, height) {
        Ok(encoder) => encoder,
        Err(e) => {
            return Err(AppError::WebpFailure(e));
        },
    };
    let first = frames[0].as_raw();
    let track = AnimationTrack::plan(frames.len(), frame_delay_ms);
    let mut k: usize = 0;
    while k < frames.len()
        invariant
            k <= frames.len(),
            width == frames[0]@.width,
            height == frames[0]@.height,
            timing_fits(frames.len() as nat, frame_delay_ms as int),
            wanted == timed(buffers(raster_views(frames@)), frame_delay_ms as int),
            wanted.len() == frames.len(),
            track.timestamps.len() == frames.len(),
            is_evenly_timed(track.timestamps@, frame_delay_ms as int),
            encoder_made(width, height),
            encoder_sides(encoder) == (width, height),
            encoder_frames(encoder) == wanted.take(k as int),
            frames_accepted(width, height, Seq::empty(), wanted, k as nat),
            sized == RasterView::byte_len(width, height),
            k >= 2 ==> frame_delay_ms > 0,
            picture_len((width, height)) is Some ==> forall|j: int|
                0 <= j < k ==> (#[trigger] frames[j])@.pixels.len() == sized,
        decreases frames.len() - k,
    {
        let ghost held = encoder_frames(encoder);
        proof {
            lemma_timestamp_within(k as int, frames.len() as int, frame_delay_ms as int);
            assert(Seq::<(Seq<u8>, i32)>::empty() + wanted.take(k as int) =~= held);
            assert(raster_views(frames@)[k as int] == frames[k as int]@);
            assert(wanted[k as int] == (frames[k as int]@.pixels, track.timestamps@[k as int]));
            if k == 1 {
                assert(held.last() == wanted[0]);
                assert(0 * frame_delay_ms == 0 && 1 * frame_delay_ms == frame_delay_ms);
            }
        }
        match add_frame(&mut encoder, frames[k].as_raw().as_slice(), track.timestamps[k]) {
            Ok(()) => {},
            Err(e) => {
                assert(!accepted_at(width, height, Seq::empty(), wanted, k as int));
                return Err(AppError::WebpFailure(e));
            },
        }
        assert(accepted_at(width, height, Seq::empty(), wanted, k as int));
        k = k + 1;
    }
    assert(wanted.take(k as int) =~= wanted);
    match finalize(encoder, track.duration) {
        Ok(bytes) => Ok(bytes),
        Err(e) => Err(AppError::WebpFailure(e)),
    }
}

} // verus!
