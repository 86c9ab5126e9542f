use ecalli_layout_backend::error::AppError;
use ecalli_layout_backend::font::CalliFont;
use ecalli_layout_backend::request::AnimateSubject;
use ecalli_layout_backend::request::AnimationRequest;
use ecalli_layout_backend::request::LayoutRequest;
use ecalli_layout_backend::request::StatusResponse;
use ecalli_layout_backend::request::MAX_CANVAS_SIDE;
use ecalli_layout_backend::storage::is_punctuation_mark;
use ecalli_layout_backend::storage::BlobStorageConfig;

fn request(width: isize, height: isize) -> AnimationRequest {
    AnimationRequest {
        subject: "李白 登金陵鳳凰臺".to_string(),
        subject_font_type: "行書".to_string(),
        subject_list: Vec::new(),
        content: "鳳凰臺上鳳凰遊".to_string(),
        font_type: "行書".to_string(),
        word_list: vec![AnimateSubject { pos_x: 631, pos_y: 43, width: 86, height: 90 }],
        width,
        height,
    }
}

#[test]
fn the_five_styles() {
    assert_eq!(CalliFont::from_str("楷書").unwrap(), CalliFont::Regular);
    assert_eq!(CalliFont::from_str("草書").unwrap(), CalliFont::Cursive);
    assert_eq!(CalliFont::from_str("行書").unwrap(), CalliFont::SemiCursive);
    assert_eq!(CalliFont::from_str("隸書").unwrap(), CalliFont::Clerical);
    assert_eq!(CalliFont::from_str("篆書").unwrap(), CalliFont::Seal);
}

#[test]
fn other_style_names_are_refused() {
    for name in ["", "楷", "書", "楷書 ", " 楷書", "楷書體", "宋書", "Regular", "regular", "楷书"] {
        match CalliFont::from_str(name) {
            Err(AppError::InvalidFontType(refused)) => assert_eq!(refused, name),
            other => panic!("unexpected: {other:?}"),
        }
    }
}

#[test]
fn store_names_of_the_styles() {
    assert_eq!(CalliFont::Clerical.name(), "Clerical");
    assert_eq!(CalliFont::Cursive.name(), "Cursive");
    assert_eq!(CalliFont::Regular.name(), "Regular");
    assert_eq!(CalliFont::Seal.name(), "Seal");
    assert_eq!(CalliFont::SemiCursive.name(), "SemiCursive");
}

#[test]
fn blob_names() {
    assert_eq!(BlobStorageConfig::frame_blob_name(&CalliFont::SemiCursive, '鳳'), "SemiCursive/鳳.zip");
    assert_eq!(BlobStorageConfig::frame_blob_name(&CalliFont::Seal, 'a'), "Seal/a.zip");
    assert_eq!(BlobStorageConfig::static_font_blob_name(&CalliFont::Regular, '永'), "Regular/永.png");
}

#[test]
fn container_name_can_be_changed() {
    let mut config = BlobStorageConfig {
        account: "account".to_string(),
        access_key: "key".to_string(),
        container: "frames".to_string(),
    };
    config.set_container_name("stills");
    assert_eq!(config.container, "stills");
    assert_eq!(config.account, "account");
    assert_eq!(config.access_key, "key");
}

#[test]
fn punctuation_marks() {
    for mark in ['，', '。', '？', '！', ',', '?', '!'] {
        assert!(is_punctuation_mark(mark));
    }
    for other in ['鳳', 'a', '.', ';', '、', ' ', '：'] {
        assert!(!is_punctuation_mark(other));
    }
}

#[test]
fn canvas_within_the_limit_is_not_turned_away() {
    assert_eq!(MAX_CANVAS_SIDE, 4096);
    assert!(request(760, 1040).rejection().is_none());
    assert!(request(4096, 4096).rejection().is_none());
    assert!(request(0, 0).rejection().is_none());
}

#[test]
fn canvas_over_the_limit_is_turned_away() {
    for (width, height) in [(4097, 10), (10, 4097), (4097, 4097), (isize::MAX, 1)] {
        let status = request(width, height).rejection().unwrap();
        assert_eq!(status.code, "200");
        assert_eq!(status.message, "Canvas dimensions too large.");
    }
}

#[test]
fn failures_in_words() {
    assert_eq!(AppError::EmptyFrame.message(), "Cannot encode a list of empty frames.");
    assert_eq!(
        AppError::InvalidFileName("cover.png".to_string()).message(),
        "Invalid file name extracted from zip archive: cover.png"
    );
    assert_eq!(
        AppError::InvalidFontType("宋體".to_string()).message(),
        "Invalid subject font type: 宋體"
    );
}

#[test]
fn outside_failures_in_their_own_words() {
    let io = std::io::Error::new(std::io::ErrorKind::UnexpectedEof, "cut short");
    assert_eq!(AppError::IoError(io).message(), "I/O Error: cut short");
    let zip = zip::result::ZipError::FileNotFound;
    assert_eq!(AppError::ZipFailure(zip).message(), zip::result::ZipError::FileNotFound.to_string());
    let webp = webp_animation::Error::NoFramesAdded;
    assert_eq!(AppError::WebpFailure(webp).message(), webp_animation::Error::NoFramesAdded.to_string());
}

#[test]
fn answer_to_a_failed_run() {
    let status = StatusResponse::internal_error(&AppError::EmptyFrame);
    assert_eq!(status.code, "200");
    assert_eq!(status.message, "Internal error: Cannot encode a list of empty frames.");
    let status = StatusResponse::internal_error(&AppError::InvalidFontType("宋體".to_string()));
    assert_eq!(status.message, "Internal error: Invalid subject font type: 宋體");
}

#[test]
fn layout_request_holds_what_it_is_given() {
    let req = LayoutRequest {
        content: "鳳凰臺".to_string(),
        font_type: "楷書".to_string(),
        fixed_space: "true".to_string(),
        width: 760,
        height: 1040,
        letter_space: 10,
        line_space: 20,
    };
    assert_eq!(req.content, "鳳凰臺");
    assert_eq!((req.width, req.height, req.letter_space, req.line_space), (760, 1040, 10, 20));
}

#[test]
fn canvas_fits_memory() {
    assert!(request(760, 1040).canvas_fits());
    assert!(request(0, 0).canvas_fits());
    assert!(request(4096, 4096).canvas_fits());
    // Taken as 32-bit numbers, negative sides are huge.
    assert!(!request(-1, -1).canvas_fits());
}
