use ecalli_layout_backend::animation::encode_frames_to_webp;
use ecalli_layout_backend::animation::AnimationTrack;
use ecalli_layout_backend::error::AppError;
use ecalli_layout_backend::pipeline::generate_poem_animation_webp;
use ecalli_layout_backend::pipeline::has_stroke_data;
use ecalli_layout_backend::pipeline::timing_fits_for;
use ecalli_layout_backend::raster::Raster;
use ecalli_layout_backend::request::AnimateSubject;
use ecalli_layout_backend::request::AnimationRequest;
use ecalli_layout_backend::word_frame::WordFrame;

const RED: [u8; 4] = [255, 0, 0, 255];
const GREEN: [u8; 4] = [0, 255, 0, 255];
const BLUE: [u8; 4] = [0, 0, 255, 255];

fn solid(width: u32, height: u32, rgba: [u8; 4]) -> Raster {
    Raster::from_raw(width, height, rgba.repeat((width * height) as usize)).unwrap()
}

fn frame(name: char, width: u32, height: u32, rgba: [u8; 4]) -> WordFrame {
    WordFrame { name, img: solid(width, height, rgba), width, height, pos_x: 0, pos_y: 0 }
}

fn slot(pos_x: i64, pos_y: i64, width: isize, height: isize) -> AnimateSubject {
    AnimateSubject { pos_x, pos_y, width, height }
}

fn request(content: &str, font_type: &str, word_list: Vec<AnimateSubject>, width: isize, height: isize) -> AnimationRequest {
    AnimationRequest {
        subject: String::new(),
        subject_font_type: String::new(),
        subject_list: Vec::new(),
        content: content.to_string(),
        font_type: font_type.to_string(),
        word_list,
        width,
        height,
    }
}

/// The times at which the frames of an encoded animation end.
fn frame_ends(payload: &[u8]) -> Vec<i32> {
    let decoder = webp_animation::Decoder::new(payload).unwrap();
    decoder.into_iter().map(|frame| frame.timestamp()).collect()
}

fn dimensions(payload: &[u8]) -> (u32, u32) {
    webp_animation::Decoder::new(payload).unwrap().dimensions()
}

#[test]
fn track_of_three_frames_at_33() {
    let track = AnimationTrack::plan(3, 33);
    assert_eq!(track.timestamps, vec![0, 33, 66]);
    assert_eq!(track.duration, 99);
}

#[test]
fn track_of_no_frames() {
    let track = AnimationTrack::plan(0, 33);
    assert!(track.timestamps.is_empty());
    assert_eq!(track.duration, 0);
}

#[test]
fn track_timestamps_never_fall() {
    let track = AnimationTrack::plan(50, 40);
    for k in 1..track.timestamps.len() {
        assert_eq!(track.timestamps[k] - track.timestamps[k - 1], 40);
    }
    assert_eq!(track.timestamps[0], 0);
    assert_eq!(track.duration, 2000);
}

#[test]
fn track_at_the_edge_of_32_bits() {
    let track = AnimationTrack::plan(2, i32::MAX / 2);
    assert_eq!(track.timestamps, vec![0, i32::MAX / 2]);
    assert_eq!(track.duration, i32::MAX - 1);
}

#[test]
fn encode_three_frames_at_33() {
    let frames = vec![solid(8, 8, RED), solid(8, 8, GREEN), solid(8, 8, BLUE)];
    let payload = encode_frames_to_webp(frames, 33).unwrap();
    assert_eq!(&payload[..4], b"RIFF");
    assert_eq!(&payload[8..12], b"WEBP");
    assert_eq!(dimensions(&payload), (8, 8));
    // Shown at 0, 33 and 66, the frames end at 33, 66 and 99.
    assert_eq!(frame_ends(&payload), vec![33, 66, 99]);
}

#[test]
fn encode_no_frames_is_refused() {
    match encode_frames_to_webp(Vec::new(), 33) {
        Err(AppError::EmptyFrame) => {}
        other => panic!("unexpected: {other:?}"),
    }
}

#[test]
fn encode_takes_the_sides_of_the_first_frame() {
    let frames = vec![solid(6, 4, RED), solid(6, 4, BLUE)];
    let payload = encode_frames_to_webp(frames, 10).unwrap();
    assert_eq!(dimensions(&payload), (6, 4));
    assert_eq!(frame_ends(&payload), vec![10, 20]);
}

#[test]
fn encode_refuses_a_frame_of_other_sides() {
    let frames = vec![solid(6, 4, RED), solid(4, 6, BLUE), solid(2, 2, BLUE)];
    assert!(matches!(encode_frames_to_webp(frames, 10), Err(AppError::WebpFailure(_))));
}

#[test]
fn encode_refuses_frames_without_area() {
    let frames = vec![Raster::white(0, 4)];
    assert!(matches!(encode_frames_to_webp(frames, 10), Err(AppError::WebpFailure(_))));
}

#[test]
fn encode_refuses_frames_that_do_not_move_on_in_time() {
    let frames = vec![solid(2, 2, RED), solid(2, 2, BLUE)];
    assert!(matches!(encode_frames_to_webp(frames, 0), Err(AppError::WebpFailure(_))));
    let frames = vec![solid(2, 2, RED), solid(2, 2, BLUE)];
    assert!(matches!(encode_frames_to_webp(frames, -5), Err(AppError::WebpFailure(_))));
}

#[test]
fn generate_encodes_each_state_of_the_canvas() {
    let strokes = vec![
        vec![frame('鳳', 2, 2, RED), frame('鳳', 2, 2, GREEN), frame('鳳', 2, 2, BLUE)],
        vec![WordFrame::unavailable('凰')],
        vec![frame('臺', 2, 2, RED), frame('臺', 2, 2, GREEN)],
    ];
    let req = request("鳳凰臺", "行書", vec![slot(0, 0, 4, 4), slot(4, 0, 4, 4), slot(8, 0, 4, 4)], 12, 4);
    let payload = generate_poem_animation_webp(&req, strokes, 33).unwrap();
    assert_eq!(dimensions(&payload), (12, 4));
    assert_eq!(frame_ends(&payload), vec![33, 66, 99, 132, 165]);
}

#[test]
fn generate_refuses_an_unknown_style() {
    let req = request("鳳", "宋體", vec![slot(0, 0, 4, 4)], 12, 4);
    match generate_poem_animation_webp(&req, vec![vec![WordFrame::unavailable('鳳')]], 33) {
        Err(AppError::InvalidFontType(name)) => assert_eq!(name, "宋體"),
        other => panic!("unexpected: {other:?}"),
    }
}

#[test]
fn generate_refuses_three_characters_with_two_slots() {
    let strokes = vec![
        vec![frame('一', 1, 1, RED), frame('一', 1, 1, RED)],
        vec![frame('二', 1, 1, GREEN), frame('二', 1, 1, GREEN)],
        vec![frame('三', 1, 1, BLUE), frame('三', 1, 1, BLUE)],
    ];
    let req = request("一二三", "楷書", vec![slot(0, 0, 1, 1), slot(1, 0, 1, 1)], 4, 4);
    match generate_poem_animation_webp(&req, strokes, 33) {
        Err(AppError::InvalidFileName(text)) => {
            assert_eq!(text, "WordList contains illegal characters")
        }
        other => panic!("unexpected: {other:?}"),
    }
}

#[test]
fn generate_without_a_frame_is_refused_as_empty() {
    let req = request("鳳凰", "楷書", vec![slot(0, 0, 4, 4), slot(4, 0, 4, 4)], 12, 4);
    let strokes = vec![vec![WordFrame::unavailable('鳳')], vec![frame('凰', 2, 2, RED)]];
    assert!(matches!(
        generate_poem_animation_webp(&req, strokes, 33),
        Err(AppError::EmptyFrame)
    ));
    let req = request("", "楷書", Vec::new(), 12, 4);
    assert!(matches!(
        generate_poem_animation_webp(&req, Vec::new(), 33),
        Err(AppError::EmptyFrame)
    ));
    // Not even a canvas is made: one without area is no matter here.
    let req = request("鳳", "楷書", vec![slot(0, 0, 4, 4)], 0, 0);
    assert!(matches!(
        generate_poem_animation_webp(&req, vec![vec![WordFrame::unavailable('鳳')]], 33),
        Err(AppError::EmptyFrame)
    ));
}

#[test]
fn generate_refuses_a_mismatch_before_it_asks_for_an_encoder() {
    let strokes = vec![
        vec![frame('一', 1, 1, RED), frame('一', 1, 1, RED)],
        vec![frame('二', 1, 1, GREEN), frame('二', 1, 1, GREEN)],
        vec![frame('三', 1, 1, BLUE), frame('三', 1, 1, BLUE)],
    ];
    // The encoder would refuse this canvas; the mismatch is seen first.
    let req = request("一二三", "楷書", vec![slot(0, 0, 1, 1), slot(1, 0, 1, 1)], 0, 0);
    match generate_poem_animation_webp(&req, strokes, 33) {
        Err(AppError::InvalidFileName(text)) => {
            assert_eq!(text, "WordList contains illegal characters")
        }
        other => panic!("unexpected: {other:?}"),
    }
}

#[test]
fn generate_refuses_a_mismatch_before_an_animation_without_frames() {
    let req = request("鳳", "楷書", Vec::new(), 12, 4);
    assert!(matches!(
        generate_poem_animation_webp(&req, vec![vec![WordFrame::unavailable('鳳')]], 33),
        Err(AppError::InvalidFileName(_))
    ));
}

#[test]
fn has_stroke_data_asks_for_more_than_one_frame() {
    assert!(!has_stroke_data(&Vec::new()));
    assert!(!has_stroke_data(&vec![vec![WordFrame::unavailable('鳳')], Vec::new()]));
    assert!(has_stroke_data(&vec![
        vec![WordFrame::unavailable('鳳')],
        vec![frame('凰', 1, 1, RED), frame('凰', 1, 1, GREEN)],
    ]));
}

#[test]
fn generate_on_a_canvas_without_area_is_refused_by_the_encoder() {
    let strokes = vec![vec![frame('鳳', 2, 2, RED), frame('鳳', 2, 2, GREEN)]];
    let req = request("鳳", "楷書", vec![slot(0, 0, 4, 4)], 0, 4);
    assert!(matches!(
        generate_poem_animation_webp(&req, strokes, 33),
        Err(AppError::WebpFailure(_))
    ));
}

#[test]
fn timing_fits_while_the_end_fits_32_bits() {
    assert!(AnimationTrack::fits(0, i32::MAX));
    assert!(AnimationTrack::fits(3, 33));
    assert!(AnimationTrack::fits(usize::MAX, 0));
    assert!(AnimationTrack::fits(1, i32::MAX));
    assert!(AnimationTrack::fits(1, i32::MIN));
    assert!(AnimationTrack::fits(2, i32::MIN / 2));
    assert!(AnimationTrack::fits(65536, 32767));
    assert!(!AnimationTrack::fits(2, i32::MAX));
    assert!(!AnimationTrack::fits(65536, 32768));
    assert!(!AnimationTrack::fits(3, i32::MIN / 2));
    assert!(!AnimationTrack::fits(usize::MAX, 1));
    assert!(!AnimationTrack::fits(usize::MAX, -1));
}

#[test]
fn timing_counts_only_frames_that_are_drawn() {
    let strokes = vec![
        vec![frame('鳳', 1, 1, RED), frame('鳳', 1, 1, GREEN)],
        vec![WordFrame::unavailable('凰')],
        vec![frame('臺', 1, 1, RED), frame('臺', 1, 1, GREEN)],
    ];
    // Four frames are drawn: their end is four delays away.
    assert!(timing_fits_for(&strokes, i32::MAX / 4));
    assert!(!timing_fits_for(&strokes, i32::MAX / 4 + 1));
    assert!(timing_fits_for(&strokes, 0));
    assert!(timing_fits_for(&Vec::new(), i32::MAX));
    assert!(timing_fits_for(&vec![vec![WordFrame::unavailable('凰')]], i32::MIN));
}
