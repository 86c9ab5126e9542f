use std::io::Cursor;
use std::io::Write;

use ecalli_layout_backend::error::AppError;
use ecalli_layout_backend::frame_order::sort_by_index;
use ecalli_layout_backend::raster::Raster;
use ecalli_layout_backend::word_frame::WordFrame;

fn png_of(width: u32, height: u32, rgba: [u8; 4]) -> Vec<u8> {
    let img = image::RgbaImage::from_pixel(width, height, image::Rgba(rgba));
    let mut bytes = Vec::new();
    img.write_to(&mut Cursor::new(&mut bytes), image::ImageFormat::Png).unwrap();
    bytes
}

fn jpeg_of(width: u32, height: u32, rgb: [u8; 3]) -> Vec<u8> {
    let img = image::RgbImage::from_pixel(width, height, image::Rgb(rgb));
    let mut bytes = Vec::new();
    img.write_to(&mut Cursor::new(&mut bytes), image::ImageFormat::Jpeg).unwrap();
    bytes
}

fn archive_of(entries: &[(&str, Vec<u8>)]) -> Vec<u8> {
    let mut writer = zip::ZipWriter::new(Cursor::new(Vec::new()));
    for (name, content) in entries {
        writer.start_file(*name, zip::write::SimpleFileOptions::default()).unwrap();
        writer.write_all(content).unwrap();
    }
    writer.finish().unwrap().into_inner()
}

fn archive_of_stored(entries: &[(&str, Vec<u8>)]) -> Vec<u8> {
    let options = zip::write::SimpleFileOptions::default()
        .compression_method(zip::CompressionMethod::Stored);
    let mut writer = zip::ZipWriter::new(Cursor::new(Vec::new()));
    for (name, content) in entries {
        writer.start_file(*name, options).unwrap();
        writer.write_all(content).unwrap();
    }
    writer.finish().unwrap().into_inner()
}

fn widths(frames: &[WordFrame]) -> Vec<u32> {
    frames.iter().map(|frame| frame.width).collect()
}

#[test]
fn load_orders_frames_by_number_not_by_listing() {
    let blob = archive_of(&[
        ("10.png", png_of(10, 1, [0, 0, 0, 255])),
        ("2.png", png_of(2, 1, [0, 0, 0, 255])),
        ("1.jpg", jpeg_of(1, 1, [0, 0, 0])),
        ("3.jpeg", jpeg_of(3, 1, [0, 0, 0])),
    ]);
    let frames = WordFrame::load_from_client('永', blob).unwrap();
    assert_eq!(widths(&frames), vec![1, 2, 3, 10]);
}

#[test]
fn load_keeps_listing_order_among_equal_numbers() {
    let blob = archive_of(&[
        ("1.png", png_of(5, 1, [0, 0, 0, 255])),
        ("0.png", png_of(7, 1, [0, 0, 0, 255])),
        ("01.png", png_of(6, 1, [0, 0, 0, 255])),
        ("+1.png", png_of(4, 1, [0, 0, 0, 255])),
        ("0001.PNG", png_of(9, 1, [0, 0, 0, 255])),
    ]);
    let frames = WordFrame::load_from_client('永', blob).unwrap();
    assert_eq!(widths(&frames), vec![7, 5, 6, 4, 9]);
}

#[test]
fn load_fills_in_each_frame() {
    let blob = archive_of(&[("1.png", png_of(3, 2, [10, 20, 30, 255]))]);
    let frames = WordFrame::load_from_client('鳳', blob).unwrap();
    assert_eq!(frames.len(), 1);
    let frame = &frames[0];
    assert_eq!(frame.name, '鳳');
    assert_eq!((frame.width, frame.height), (3, 2));
    assert_eq!((frame.pos_x, frame.pos_y), (0, 0));
    assert_eq!((frame.img.width(), frame.img.height()), (3, 2));
    assert_eq!(frame.img.as_raw(), &[10, 20, 30, 255].repeat(6));
}

#[test]
fn load_tells_the_format_from_the_bytes() {
    let blob = archive_of(&[("1.png", jpeg_of(4, 4, [200, 10, 10]))]);
    let frames = WordFrame::load_from_client('永', blob).unwrap();
    assert_eq!((frames[0].img.width(), frames[0].img.height()), (4, 4));
    assert_eq!(frames[0].img.as_raw()[3], 255);
}

#[test]
fn load_refuses_an_entry_that_names_no_frame() {
    let blob = archive_of(&[
        ("1.png", png_of(1, 1, [0, 0, 0, 255])),
        ("readme.txt", b"strokes".to_vec()),
        ("2.png", png_of(1, 1, [0, 0, 0, 255])),
    ]);
    match WordFrame::load_from_client('永', blob) {
        Err(AppError::InvalidFileName(name)) => assert_eq!(name, "readme.txt"),
        other => panic!("unexpected: {other:?}"),
    }
}

#[test]
fn load_refuses_a_stem_that_is_no_number() {
    let blob = archive_of(&[("first.png", png_of(1, 1, [0, 0, 0, 255]))]);
    assert!(matches!(
        WordFrame::load_from_client('永', blob),
        Err(AppError::InvalidFileName(_))
    ));
}

#[test]
fn load_refuses_an_unreadable_image() {
    let blob = archive_of(&[("1.png", b"not an image".to_vec())]);
    assert!(matches!(
        WordFrame::load_from_client('永', blob),
        Err(AppError::ImageOpsFailure(_))
    ));
}

#[test]
fn load_fails_with_the_first_entry_that_fails() {
    let image_first = archive_of(&[
        ("1.png", b"not an image".to_vec()),
        ("notes.txt", b"strokes".to_vec()),
    ]);
    assert!(matches!(
        WordFrame::load_from_client('永', image_first),
        Err(AppError::ImageOpsFailure(_))
    ));
    let name_first = archive_of(&[
        ("notes.txt", b"strokes".to_vec()),
        ("1.png", b"not an image".to_vec()),
    ]);
    assert!(matches!(
        WordFrame::load_from_client('永', name_first),
        Err(AppError::InvalidFileName(_))
    ));
}

#[test]
fn load_refuses_bytes_that_are_no_archive() {
    assert!(matches!(
        WordFrame::load_from_client('永', b"plainly no archive".to_vec()),
        Err(AppError::ZipFailure(_))
    ));
    assert!(matches!(
        WordFrame::load_from_client('永', Vec::new()),
        Err(AppError::ZipFailure(_))
    ));
}

#[test]
fn load_of_an_empty_archive_gives_no_frames() {
    let blob = archive_of(&[]);
    let frames = WordFrame::load_from_client('永', blob).unwrap();
    assert!(frames.is_empty());
}

#[test]
fn load_static_reads_the_character_from_the_name() {
    let blob = png_of(5, 4, [1, 2, 3, 4]);
    let frame = WordFrame::load_static_from_client("Regular/永.png", &blob).unwrap();
    assert_eq!(frame.name, '永');
    assert_eq!((frame.width, frame.height), (5, 4));
    assert_eq!((frame.pos_x, frame.pos_y), (0, 0));
    assert_eq!(frame.img.as_raw(), &[1, 2, 3, 4].repeat(20));
}

#[test]
fn load_static_refuses_other_names() {
    let blob = png_of(1, 1, [0, 0, 0, 255]);
    match WordFrame::load_static_from_client("Regular/永字.png", &blob) {
        Err(AppError::InvalidFileName(name)) => assert_eq!(name, "Regular/永字.png"),
        other => panic!("unexpected: {other:?}"),
    }
    assert!(matches!(
        WordFrame::load_static_from_client("Regular/永.zip", &blob),
        Err(AppError::InvalidFileName(_))
    ));
}

#[test]
fn load_static_refuses_an_unreadable_image() {
    assert!(matches!(
        WordFrame::load_static_from_client("Regular/永.png", b"not an image"),
        Err(AppError::ImageOpsFailure(_))
    ));
}

#[test]
fn unavailable_frame_is_empty() {
    let frame = WordFrame::unavailable('臺');
    assert_eq!(frame.name, '臺');
    assert!(frame.is_empty());
    assert!(frame.img.is_empty());
    assert_eq!(frame.img.as_raw().len(), 0);
    assert_eq!((frame.pos_x, frame.pos_y), (0, 0));
}

#[test]
fn loaded_frame_is_not_empty() {
    let blob = png_of(2, 2, [0, 0, 0, 255]);
    let frame = WordFrame::load_static_from_client("永.png", &blob).unwrap();
    assert!(!frame.is_empty());
}

#[test]
fn resize_brings_the_frame_to_the_size() {
    let blob = png_of(4, 4, [200, 100, 50, 255]);
    let mut frame = WordFrame::load_static_from_client("永.png", &blob).unwrap();
    frame.resize_img_by_size(8, 2);
    assert_eq!((frame.width, frame.height), (8, 2));
    assert_eq!((frame.img.width(), frame.img.height()), (8, 2));
    assert_eq!(frame.img.as_raw().len(), 8 * 2 * 4);
    assert_eq!(frame.name, '永');
    // A raster of one colour stays of that colour.
    assert_eq!(&frame.img.as_raw()[..4], &[200, 100, 50, 255]);
}

#[test]
fn resize_to_the_same_size_keeps_the_pixels() {
    let pixels: Vec<u8> = (0..(3 * 2 * 4)).map(|i| (i * 7) as u8).collect();
    let img = Raster::from_raw(3, 2, pixels.clone()).unwrap();
    let mut frame = WordFrame { name: '永', img, width: 3, height: 2, pos_x: 0, pos_y: 0 };
    frame.resize_img_by_size(3, 2);
    assert_eq!(frame.img.as_raw(), &pixels);
}

#[test]
fn resize_to_nothing_gives_an_empty_raster() {
    let blob = png_of(4, 4, [200, 100, 50, 255]);
    let mut frame = WordFrame::load_static_from_client("永.png", &blob).unwrap();
    frame.resize_img_by_size(0, 0);
    assert!(frame.is_empty());
    assert_eq!(frame.img.as_raw().len(), 0);
}

#[test]
fn sort_by_index_is_stable() {
    let entries = vec![(3, "c"), (1, "a1"), (2, "b"), (1, "a2"), (0, "z"), (1, "a3"), (3, "c2")];
    assert_eq!(sort_by_index(entries), vec!["z", "a1", "a2", "a3", "b", "c", "c2"]);
}

#[test]
fn sort_by_index_of_nothing_is_nothing() {
    let entries: Vec<(u32, char)> = Vec::new();
    assert_eq!(sort_by_index(entries), Vec::<char>::new());
}

#[test]
fn sort_by_index_agrees_with_the_standard_stable_sort() {
    let mut entries: Vec<(u32, usize)> = Vec::new();
    let mut seed: u32 = 12345;
    for position in 0..200 {
        seed = seed.wrapping_mul(1103515245).wrapping_add(12345);
        entries.push(((seed >> 16) % 17, position));
    }
    let mut expected = entries.clone();
    expected.sort_by_key(|(index, _)| *index);
    let expected: Vec<usize> = expected.into_iter().map(|(_, position)| position).collect();
    assert_eq!(sort_by_index(entries), expected);
}

#[test]
fn load_refuses_an_entry_that_cannot_be_read_to_its_end() {
    let content = png_of(4, 4, [9, 8, 7, 255]);
    let mut blob = archive_of_stored(&[("1.png", content.clone())]);
    // Damage the stored image where it lies in the archive: the entry is
    // still listed, but its checksum no longer holds.
    let at = blob.windows(content.len()).position(|window| window == &content[..]).unwrap();
    blob[at + content.len() / 2] ^= 0xff;
    assert!(matches!(
        WordFrame::load_from_client('永', blob),
        Err(AppError::IoError(_))
    ));
}

#[test]
fn resize_to_a_single_side_of_nothing() {
    let blob = png_of(4, 4, [200, 100, 50, 255]);
    let mut frame = WordFrame::load_static_from_client("永.png", &blob).unwrap();
    frame.resize_img_by_size(0, 5);
    assert_eq!((frame.img.width(), frame.img.height()), (0, 5));
    assert_eq!(frame.img.as_raw().len(), 0);
    let mut frame = WordFrame::load_static_from_client("永.png", &blob).unwrap();
    frame.resize_img_by_size(5, 0);
    assert_eq!((frame.img.width(), frame.img.height()), (5, 0));
    assert_eq!(frame.img.as_raw().len(), 0);
}

#[test]
fn resize_of_the_frame_without_pixels() {
    let mut frame = WordFrame::unavailable('永');
    frame.resize_img_by_size(3, 2);
    assert_eq!((frame.width, frame.height), (3, 2));
    assert_eq!(frame.img.as_raw(), &vec![0u8; 24]);
}
