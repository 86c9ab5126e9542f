//! The failures of the frame pipeline.

use vstd::prelude::*;

verus! {

/// `zip::result::ZipError`, carried as it is.
#[verifier::external_type_specification]
#[verifier::external_body]
pub struct ExZipError(zip::result::ZipError);

/// `webp_animation::Error`, carried as it is.
#[verifier::external_type_specification]
#[verifier::external_body]
pub struct ExWebpError(webp_animation::Error);

/// `image::ImageError`, carried as it is.
#[verifier::external_type_specification]
#[verifier::external_body]
pub struct ExImageError(image::ImageError);

/// `std::io::Error`, carried as it is.
#[verifier::external_type_specification]
#[verifier::external_body]
pub struct ExIoError(std::io::Error);

/// Why a pipeline run was abandoned. Every failure ends the run: no partial
/// output is handed back.
#[derive(Debug)]
pub enum AppError {
    /// The archive container could not be read or written.
    ZipFailure(zip::result::ZipError),
    /// The animation encoder refused the frames.
    WebpFailure(webp_animation::Error),
    /// An archive entry is not named as a frame, or the request's slots do not
    /// match its characters.
    InvalidFileName(String),
    /// A frame's bytes are no readable image, or a still image could not be written.
    ImageOpsFailure(image::ImageError),
    /// An animation was asked for without a single frame.
    EmptyFrame,
    /// An archive entry could not be read to its end.
    IoError(std::io::Error),
    /// The request names no known calligraphic style.
    InvalidFontType(String),
}

/// What an [`AppError`] says, without the outside error value that it carries.
pub enum Failure {
    Zip,
    Webp,
    InvalidFileName(Seq<char>),
    ImageOps,
    EmptyFrame,
    Io,
    InvalidFontType(Seq<char>),
}

impl View for AppError {
    type V = Failure;

    open spec fn view(&self) -> Failure {
        match self {
            AppError::ZipFailure(_) => Failure::Zip,
            AppError::WebpFailure(_) => Failure::Webp,
            AppError::InvalidFileName(name) => Failure::InvalidFileName(name@),
            AppError::ImageOpsFailure(_) => Failure::ImageOps,
            AppError::EmptyFrame => Failure::EmptyFrame,
            AppError::IoError(_) => Failure::Io,
            AppError::InvalidFontType(name) => Failure::InvalidFontType(name@),
        }
    }
}

/// Joins a fixed prefix and a detail into one line of text.
fn prefixed(prefix: &str, detail: &str) -> (text: String)
    ensures
        text@ == prefix@ + detail@,
{
    let mut text = String::from_str(prefix);
    text.append(detail);
    text
}

impl AppError {
    /// The text of a failure that the library words itself; `None` where the
    /// text is that of the outside error carried.
    pub open spec fn own_message(failure: Failure) -> Option<Seq<char>> {
        match failure {
            Failure::InvalidFileName(name) => Some(
                "Invalid file name extracted from zip archive: "@ + name,
            ),
            Failure::EmptyFrame => Some("Cannot encode a list of empty frames."@),
            Failure::InvalidFontType(name) => Some("Invalid subject font type: "@ + name),
            _ => None,
        }
    }

    /// The line shown to a client for this failure.
    pub fn message(&self) -> (text: String)
        ensures
            Self::own_message(self@) matches Some(expected) ==> text@ == expected,
    {
        match self {
            AppError::ZipFailure(e) => e.to_string(),
            AppError::WebpFailure(e) => e.to_string(),
            AppError::InvalidFileName(name) => prefixed(
                "Invalid file name extracted from zip archive: ",
                name.as_str(),
            ),
            AppError::ImageOpsFailure(e) => e.to_string(),
            AppError::EmptyFrame => String::from_str("Cannot encode a list of empty frames."),
            AppError::IoError(e) => prefixed("I/O Error: ", e.to_string().as_str()),
            AppError::InvalidFontType(name) => prefixed(
                "Invalid subject font type: ",
                name.as_str(),
            ),
        }
    }
}

} // verus!
