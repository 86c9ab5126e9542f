use std::io::Cursor;
use std::io::Read;

use ecalli_layout_backend::packer::still_name_of;
use ecalli_layout_backend::packer::zip_frames_to_memory;
use ecalli_layout_backend::raster::Raster;

fn gradient(width: u32, height: u32, seed: u8) -> Raster {
    let pixels: Vec<u8> = (0..(width * height * 4)).map(|i| (i as u8).wrapping_mul(31).wrapping_add(seed)).collect();
    Raster::from_raw(width, height, pixels).unwrap()
}

#[test]
fn still_names_count_in_three_digits() {
    assert_eq!(still_name_of(0), "frame_000.png");
    assert_eq!(still_name_of(1), "frame_001.png");
    assert_eq!(still_name_of(9), "frame_009.png");
    assert_eq!(still_name_of(10), "frame_010.png");
    assert_eq!(still_name_of(99), "frame_099.png");
    assert_eq!(still_name_of(100), "frame_100.png");
    assert_eq!(still_name_of(999), "frame_999.png");
}

#[test]
fn still_names_grow_beyond_three_digits() {
    assert_eq!(still_name_of(1000), "frame_1000.png");
    assert_eq!(still_name_of(123456), "frame_123456.png");
    assert_eq!(still_name_of(usize::MAX), format!("frame_{}.png", usize::MAX));
}

#[test]
fn still_names_are_what_formatting_gives() {
    for index in [0usize, 5, 42, 100, 101, 998, 1001, 65535] {
        assert_eq!(still_name_of(index), format!("frame_{index:03}.png"));
    }
}

#[test]
fn pack_no_frames_gives_an_archive_without_entries() {
    let bytes = zip_frames_to_memory(Vec::new()).unwrap();
    let archive = zip::ZipArchive::new(Cursor::new(bytes)).unwrap();
    assert_eq!(archive.len(), 0);
}

#[test]
fn pack_gives_back_each_frame() {
    let frames = vec![gradient(5, 3, 0), gradient(5, 3, 100), gradient(5, 3, 200), gradient(5, 3, 7)];
    let expected: Vec<Vec<u8>> = frames.iter().map(|frame| frame.as_raw().clone()).collect();
    let bytes = zip_frames_to_memory(frames).unwrap();
    let mut archive = zip::ZipArchive::new(Cursor::new(bytes)).unwrap();
    assert_eq!(archive.len(), 4);
    for index in 0..4 {
        let mut file = archive.by_index(index).unwrap();
        assert_eq!(file.name().unwrap(), format!("frame_{index:03}.png"));
        let mut content = Vec::new();
        file.read_to_end(&mut content).unwrap();
        assert_eq!(&content[..8], &[0x89, b'P', b'N', b'G', 0x0d, 0x0a, 0x1a, 0x0a]);
        let decoded = image::load_from_memory(&content).unwrap();
        assert_eq!(decoded.color(), image::ColorType::Rgba8);
        let decoded = decoded.into_rgba8();
        assert_eq!(decoded.dimensions(), (5, 3));
        assert_eq!(decoded.into_raw(), expected[index]);
    }
}

#[test]
fn pack_stores_the_images_as_they_are() {
    let bytes = zip_frames_to_memory(vec![gradient(4, 4, 1), gradient(4, 4, 2)]).unwrap();
    let mut archive = zip::ZipArchive::new(Cursor::new(bytes)).unwrap();
    for index in 0..archive.len() {
        let file = archive.by_index(index).unwrap();
        assert_eq!(file.compression(), zip::CompressionMethod::Stored);
        assert_eq!(file.compressed_size(), file.size());
        assert_eq!(file.unix_mode().map(|mode| mode & 0o777), Some(0o755));
    }
}

#[test]
fn pack_keeps_the_order_of_many_frames() {
    let frames: Vec<Raster> = (0..12).map(|k| gradient(k + 1, 1, k as u8)).collect();
    let bytes = zip_frames_to_memory(frames).unwrap();
    let mut archive = zip::ZipArchive::new(Cursor::new(bytes)).unwrap();
    assert_eq!(archive.len(), 12);
    for index in 0..12 {
        let mut file = archive.by_index(index).unwrap();
        assert_eq!(file.name().unwrap(), format!("frame_{index:03}.png"));
        let mut content = Vec::new();
        file.read_to_end(&mut content).unwrap();
        let decoded = image::load_from_memory(&content).unwrap();
        assert_eq!((decoded.width(), decoded.height()), (index as u32 + 1, 1));
    }
}
