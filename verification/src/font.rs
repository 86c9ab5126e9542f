//! The calligraphic styles that frames exist for.

use vstd::prelude::*;
use crate::error::AppError;
use crate::error::Failure;
use crate::frame_name::chars_of;

verus! {

/// A calligraphic style.
#[derive(Clone, Copy, Debug, PartialEq, Eq, Structural)]
pub enum CalliFont {
    Clerical,
    Cursive,
    Regular,
    Seal,
    SemiCursive,
}

impl CalliFont {
    /// The style that a request means by its Chinese name.
    pub open spec fn named(name: Seq<char>) -> Option<CalliFont> {
        if name == seq!['楷', '書'] {
            Some(CalliFont::Regular)
        } else if name == seq!['草', '書'] {
            Some(CalliFont::Cursive)
        } else if name == seq!['行', '書'] {
            Some(CalliFont::SemiCursive)
        } else if name == seq!['隸', '書'] {
            Some(CalliFont::Clerical)
        } else if name == seq!['篆', '書'] {
            Some(CalliFont::Seal)
        } else {
            None
        }
    }

    /// The name under which the store keeps the frames of the style.
    pub open spec fn store_name(self) -> Seq<char> {
        match self {
            CalliFont::Clerical => "Clerical"@,
            CalliFont::Cursive => "Cursive"@,
            CalliFont::Regular => "Regular"@,
            CalliFont::Seal => "Seal"@,
            CalliFont::SemiCursive => "SemiCursive"@,
        }
    }

    /// Reads the style that a request names. Any name but the five known ones
    /// is refused, and the failure carries it.
    pub fn from_str(s: &str) -> (font: Result<CalliFont, AppError>)
        ensures
            match font {
                Ok(font) => Self::named(s@) == Some(font),
                Err(e) => Self::named(s@) is None && e@ == Failure::InvalidFontType(s@),
            },
    {
        let name = chars_of(s);
        if name.len() == 2 && name[1] == '書' {
            let first = name[0];
            assert(s@ =~= seq![first, '書']);
            if first == '楷' {
                return Ok(CalliFont::Regular);
            } else if first == '草' {
                return Ok(CalliFont::Cursive);
            } else if first == '行' {
                return Ok(CalliFont::SemiCursive);
            } else if first == '隸' {
                return Ok(CalliFont::Clerical);
            } else if first == '篆' {
                return Ok(CalliFont::Seal);
            }
        }
        Err(AppError::InvalidFontType(String::from_str(s)))
    }

    /// The name under which the store keeps the frames of the style.
    pub fn name(&self) -> (name: &'static str)
        ensures
            name@ == self.store_name(),
    {
        match self {
            CalliFont::Clerical => "Clerical",
            CalliFont::Cursive => "Cursive",
            CalliFont::Regular => "Regular",
            CalliFont::Seal => "Seal",
            CalliFont::SemiCursive => "SemiCursive",
        }
    }
}

} // verus!
