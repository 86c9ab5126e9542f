//! What the request layer hands to the pipeline, and what it answers.

use vstd::prelude::*;
use crate::error::AppError;
use crate::raster::RasterView;

verus! {

/// Largest canvas side, in pixels, that the service draws.
pub const MAX_CANVAS_SIDE: isize = 4096;

/// A request for a static layout.
#[derive(Debug)]
pub struct LayoutRequest {
    pub content: String,
    pub font_type: String,
    pub fixed_space: String,
    pub width: isize,
    pub height: isize,
    pub letter_space: isize,
    pub line_space: isize,
}

/// The slot of one character on the canvas: where its frames are laid, and
/// the size they are brought to.
#[derive(Clone, Copy, Debug)]
pub struct AnimateSubject {
    pub pos_x: i64,
    pub pos_y: i64,
    pub width: isize,
    pub height: isize,
}

/// A request for the animation of a poem: the text, its style, one slot for
/// each character of the text, and the sides of the canvas.
#[derive(Debug)]
pub struct AnimationRequest {
    pub subject: String,
    pub subject_font_type: String,
    pub subject_list: Vec<AnimateSubject>,
    pub content: String,
    pub font_type: String,
    pub word_list: Vec<AnimateSubject>,
    pub width: isize,
    pub height: isize,
}

/// The answer to a request that gave no image.
#[derive(Debug)]
pub struct StatusResponse {
    pub code: String,
    pub message: String,
}

impl AnimateSubject {
    /// The width that the slot's frames are brought to.
    pub open spec fn slot_width(self) -> u32 {
        self.width as u32
    }

    /// The height that the slot's frames are brought to.
    pub open spec fn slot_height(self) -> u32 {
        self.height as u32
    }
}

impl AnimationRequest {
    /// The width of the canvas, as a 32-bit number.
    pub open spec fn canvas_width(self) -> u32 {
        self.width as u32
    }

    /// The height of the canvas, as a 32-bit number.
    pub open spec fn canvas_height(self) -> u32 {
        self.height as u32
    }

    /// Whether a side of the canvas is larger than the service draws.
    pub open spec fn canvas_too_large(self) -> bool {
        self.width > MAX_CANVAS_SIDE || self.height > MAX_CANVAS_SIDE
    }

    /// Whether a canvas of the sides asked for can be held in memory.
    pub fn canvas_fits(&self) -> (fits: bool)
        ensures
            fits == (RasterView::byte_len(self.canvas_width(), self.canvas_height())
                <= isize::MAX),
    {
        let width = #[verifier::truncate] (self.width as u32);
        let height = #[verifier::truncate] (self.height as u32);
        assert(0 <= width * height <= 0xffff_ffff * 0xffff_ffff) by (nonlinear_arith)
            requires
                0 <= width <= 0xffff_ffff,
                0 <= height <= 0xffff_ffff,
        ;
        let bytes: u128 = 4 * ((width as u128) * (height as u128));
        bytes <= isize::MAX as u128
    }

    /// The answer that turns the request away before any work is done: one
    /// for a canvas with a side over the limit, none otherwise.
    pub fn rejection(&self) -> (answer: Option<StatusResponse>)
        ensures
            answer is Some <==> self.canvas_too_large(),
            answer matches Some(status) ==> status.code@ == "200"@ && status.message@
                == "Canvas dimensions too large."@,
    {
        if self.width > MAX_CANVAS_SIDE || self.height > MAX_CANVAS_SIDE {
            Some(
                StatusResponse {
                    code: String::from_str("200"),
                    message: String::from_str("Canvas dimensions too large."),
                },
            )
        } else {
            None
        }
    }
}

impl StatusResponse {
    /// The answer to a request whose pipeline run failed.
    pub fn internal_error(error: &AppError) -> (status: StatusResponse)
        ensures
            status.code@ == "200"@,
            AppError::own_message(error@) matches Some(text) ==> status.message@
                == "Internal error: "@ + text,
    {
        let mut message = String::from_str("Internal error: ");
        message.append(error.message().as_str());
        StatusResponse { code: String::from_str("200"), message }
    }
}

} // verus!
