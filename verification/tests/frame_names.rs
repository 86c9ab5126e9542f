use ecalli_layout_backend::frame_name::archive_glyph_of;
use ecalli_layout_backend::frame_name::frame_index_of;
use ecalli_layout_backend::frame_name::static_glyph_of;

#[test]
fn frame_index_reads_plain_numbers() {
    assert_eq!(frame_index_of("1.jpg"), Some(1));
    assert_eq!(frame_index_of("10.jpg"), Some(10));
    assert_eq!(frame_index_of("0.png"), Some(0));
    assert_eq!(frame_index_of("007.jpeg"), Some(7));
}

#[test]
fn frame_index_takes_any_case_of_extension() {
    assert_eq!(frame_index_of("3.PNG"), Some(3));
    assert_eq!(frame_index_of("3.JpEg"), Some(3));
    assert_eq!(frame_index_of("3.Jpg"), Some(3));
}

#[test]
fn frame_index_looks_at_last_component_only() {
    assert_eq!(frame_index_of("strokes/12.png"), Some(12));
    assert_eq!(frame_index_of("a/b/c/4.jpg"), Some(4));
}

#[test]
fn frame_index_passes_over_separators_and_dots_at_the_end() {
    assert_eq!(frame_index_of("12.png/"), Some(12));
    assert_eq!(frame_index_of("7.png//"), Some(7));
    assert_eq!(frame_index_of("a/7.png/."), Some(7));
    assert_eq!(frame_index_of("a/7.png/./"), Some(7));
    assert_eq!(frame_index_of("a/7.png/.."), None);
    assert_eq!(frame_index_of("7.png."), None);
    assert_eq!(frame_index_of("/"), None);
    assert_eq!(frame_index_of("."), None);
    assert_eq!(frame_index_of("./"), None);
}

fn index_by_path(name: &str) -> Option<u32> {
    let path = std::path::Path::new(name);
    let known = path.extension().is_some_and(|ext| {
        let ext = ext.to_ascii_lowercase();
        ext == "jpg" || ext == "jpeg" || ext == "png"
    });
    if !known {
        return None;
    }
    path.file_stem().and_then(|stem| stem.to_str().and_then(|s| s.parse::<u32>().ok()))
}

fn glyph_by_path(name: &str) -> Option<char> {
    let path = std::path::Path::new(name);
    let known = path.extension().is_some_and(|ext| {
        let ext = ext.to_ascii_lowercase();
        ext == "jpg" || ext == "jpeg" || ext == "png"
    });
    if !known {
        return None;
    }
    path.file_stem().and_then(|stem| stem.to_str().and_then(|s| s.parse::<char>().ok()))
}

#[test]
fn names_are_read_as_paths_are() {
    let parts = ["", "/", ".", "..", "a", "7", "7.png", ".png", "7.", "7.PNG", "永.jpg", "..png", "7.tar.png", "x/", "./", "a/./", "a/../"];
    for first in parts {
        for second in parts {
            for third in parts {
                let name = format!("{first}{second}{third}");
                assert_eq!(frame_index_of(&name), index_by_path(&name), "{name:?}");
                assert_eq!(static_glyph_of(&name), glyph_by_path(&name), "{name:?}");
            }
        }
    }
}

#[test]
fn frame_index_refuses_other_names() {
    assert_eq!(frame_index_of(""), None);
    assert_eq!(frame_index_of("png"), None);
    assert_eq!(frame_index_of(".png"), None);
    assert_eq!(frame_index_of("1."), None);
    assert_eq!(frame_index_of("1.gif"), None);
    assert_eq!(frame_index_of("1.png.txt"), None);
    assert_eq!(frame_index_of("one.png"), None);
    assert_eq!(frame_index_of("-1.png"), None);
    assert_eq!(frame_index_of("1 .png"), None);
    assert_eq!(frame_index_of("+.png"), None);
    assert_eq!(frame_index_of("1.tar.png"), None);
}

#[test]
fn frame_index_reads_what_the_standard_parser_reads() {
    for name in ["+5", "5", "0005", "4294967295", "4294967296", "99999999999", "", "+", "++1", "1+", "12a"] {
        let expected = name.parse::<u32>().ok();
        assert_eq!(frame_index_of(&format!("{name}.png")), expected);
    }
}

#[test]
fn static_glyph_is_the_single_character_stem() {
    assert_eq!(static_glyph_of("Regular/永.png"), Some('永'));
    assert_eq!(static_glyph_of("永.JPG"), Some('永'));
    assert_eq!(static_glyph_of("Regular/永字.png"), None);
    assert_eq!(static_glyph_of("Regular/.png"), None);
    assert_eq!(static_glyph_of("Regular/永.zip"), None);
}

#[test]
fn archive_glyph_is_what_stands_before_the_first_dot() {
    assert_eq!(archive_glyph_of("SemiCursive/鳳.zip"), Some('鳳'));
    assert_eq!(archive_glyph_of("鳳.zip"), Some('鳳'));
    assert_eq!(archive_glyph_of("鳳"), Some('鳳'));
    assert_eq!(archive_glyph_of("a/b/鳳.tar.zip"), Some('鳳'));
    assert_eq!(archive_glyph_of("SemiCursive/鳳凰.zip"), None);
    assert_eq!(archive_glyph_of("SemiCursive/.zip"), None);
    assert_eq!(archive_glyph_of("SemiCursive/"), None);
    assert_eq!(archive_glyph_of(""), None);
}
