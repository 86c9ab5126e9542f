//! Where the blob store keeps the images of a character.

use vstd::prelude::*;
use crate::font::CalliFont;
use crate::text::push_char;

verus! {

/// The account and container of the blob store that holds the frames.
#[derive(Debug)]
pub struct BlobStorageConfig {
    pub account: String,
    pub access_key: String,
    pub container: String,
}

/// The punctuation marks that a poem's text must be free of before frames
/// are asked for.
pub open spec fn is_punctuation(c: char) -> bool {
    c == '，' || c == '。' || c == '？' || c == '！' || c == ',' || c == '?' || c == '!'
}

/// The name of the blob that holds something of a character in a style:
/// the style's name, a slash, the character, and the suffix.
pub open spec fn blob_name(font: CalliFont, glyph: char, suffix: Seq<char>) -> Seq<char> {
    font.store_name().push('/').push(glyph) + suffix
}

/// Whether `c` is one of the punctuation marks.
pub fn is_punctuation_mark(c: char) -> (mark: bool)
    ensures
        mark == is_punctuation(c),
{
    c == '，' || c == '。' || c == '？' || c == '！' || c == ',' || c == '?' || c == '!'
}

fn blob_name_of(font: &CalliFont, glyph: char, suffix: &str) -> (name: String)
    ensures
        name@ == blob_name(*font, glyph, suffix@),
{
    let mut name = String::from_str(font.name());
    push_char(&mut name, '/');
    push_char(&mut name, glyph);
    name.append(suffix);
    name
}

impl BlobStorageConfig {
    /// Points the configuration at another container.
    pub fn set_container_name(&mut self, name: &str)
        ensures
            final(self).container@ == name@,
            final(self).account == old(self).account,
            final(self).access_key == old(self).access_key,
    {
        self.container = String::from_str(name);
    }

    /// The blob that holds the still image of a character.
    pub fn static_font_blob_name(font: &CalliFont, font_name: char) -> (name: String)
        ensures
            name@ == blob_name(*font, font_name, ".png"@),
    {
        blob_name_of(font, font_name, ".png")
    }

    /// The blob that holds the archive of a character's frames.
    pub fn frame_blob_name(font: &CalliFont, zip_name: char) -> (name: String)
        ensures
            name@ == blob_name(*font, zip_name, ".zip"@),
    {
        blob_name_of(font, zip_name, ".zip")
    }
}

} // verus!
