//! The names of archive entries: which of them name a frame, and which frame.
//!
//! An entry names a frame when the last component of its path is a decimal
//! number, a dot, and one of the raster extensions `jpg`, `jpeg` or `png` in
//! any mix of upper and lower case: `7.png`, `strokes/012.JPG`. Separators
//! and single dots at the end of a path do not count: the last component of
//! `7.png/` is `7.png`.

use vstd::prelude::*;

verus! {

/// The position of the last `mark` in `text`, or -1 where there is none.
pub open spec fn last_index_of(text: Seq<char>, mark: char) -> int
    decreases text.len(),
{
    if text.len() == 0 {
        -1
    } else if text.last() == mark {
        text.len() - 1
    } else {
        last_index_of(text.drop_last(), mark)
    }
}

/// A path without what does not count at its end: separators, and components
/// that are a single dot.
pub open spec fn trimmed(path: Seq<char>) -> Seq<char>
    decreases path.len(),
{
    if path.len() > 0 && path.last() == '/' {
        trimmed(path.drop_last())
    } else if path.len() >= 2 && path.last() == '.' && path[path.len() - 2] == '/' {
        trimmed(path.drop_last())
    } else {
        path
    }
}

/// The last component of a path: what follows the last `/` of the path
/// without the separators and single dots at its end.
pub open spec fn file_name(path: Seq<char>) -> Seq<char> {
    trimmed(path).skip(last_index_of(trimmed(path), '/') + 1)
}

/// What follows the last dot of a file name. A name without a dot has no
/// extension, nor has one whose only dot comes first.
pub open spec fn extension(name: Seq<char>) -> Option<Seq<char>> {
    let dot = last_index_of(name, '.');
    if dot <= 0 {
        None
    } else {
        Some(name.skip(dot + 1))
    }
}

/// The file name without its extension and the dot before it.
pub open spec fn file_stem(name: Seq<char>) -> Seq<char> {
    let dot = last_index_of(name, '.');
    if dot <= 0 {
        name
    } else {
        name.take(dot)
    }
}

/// The lower-case form of an ASCII capital; any other character itself.
pub open spec fn ascii_lower(c: char) -> char {
    if 'A' <= c && c <= 'Z' {
        ((c as u32) + 32) as char
    } else {
        c
    }
}

/// `text` is `word` but for the case of its ASCII letters. `word` is in lower case.
pub open spec fn is_word_ignoring_case(text: Seq<char>, word: Seq<char>) -> bool {
    &&& text.len() == word.len()
    &&& forall|i: int| 0 <= i < text.len() ==> ascii_lower(#[trigger] text[i]) == word[i]
}

/// The extensions of the raster formats that frames come in.
pub open spec fn is_raster_extension(ext: Seq<char>) -> bool {
    ||| is_word_ignoring_case(ext, seq!['j', 'p', 'g'])
    ||| is_word_ignoring_case(ext, seq!['j', 'p', 'e', 'g'])
    ||| is_word_ignoring_case(ext, seq!['p', 'n', 'g'])
}

/// One of the ten decimal digits.
pub open spec fn is_digit(c: char) -> bool {
    '0' <= c && c <= '9'
}

/// What a decimal digit counts; 0 for any other character.
pub open spec fn digit_value(c: char) -> nat {
    if is_digit(c) {
        (c as u32 - '0' as u32) as nat
    } else {
        0
    }
}

/// The number that a run of decimal digits writes.
pub open spec fn decimal_value(digits: Seq<char>) -> nat
    decreases digits.len(),
{
    if digits.len() == 0 {
        0
    } else {
        10 * decimal_value(digits.drop_last()) + digit_value(digits.last())
    }
}

/// The digits of a frame number: the text itself, without a leading `+`.
pub open spec fn index_digits(text: Seq<char>) -> Seq<char> {
    if text.len() > 0 && text[0] == '+' {
        text.skip(1)
    } else {
        text
    }
}

/// The frame number that `text` writes: one or more decimal digits, after an
/// optional `+`, whose value fits 32 bits.
pub open spec fn parsed_index(text: Seq<char>) -> Option<u32> {
    let digits = index_digits(text);
    if digits.len() > 0 && (forall|i: int| 0 <= i < digits.len() ==> is_digit(#[trigger] digits[i]))
        && decimal_value(digits) <= u32::MAX {
        Some(decimal_value(digits) as u32)
    } else {
        None
    }
}

/// The number of the frame that an archive entry of this name holds; `None`
/// where the name is not that of a frame.
pub open spec fn frame_index(entry_name: Seq<char>) -> Option<u32> {
    let name = file_name(entry_name);
    match extension(name) {
        Some(ext) => if is_raster_extension(ext) {
            parsed_index(file_stem(name))
        } else {
            None
        },
        None => None,
    }
}

/// The character that a still image of this name draws: the name's last
/// component is that one character, a dot and a raster extension.
pub open spec fn static_glyph(blob_name: Seq<char>) -> Option<char> {
    let name = file_name(blob_name);
    match extension(name) {
        Some(ext) => if is_raster_extension(ext) && file_stem(name).len() == 1 {
            Some(file_stem(name)[0])
        } else {
            None
        },
        None => None,
    }
}

/// The number of characters before the first `mark` in `text`: all of them
/// where there is none.
pub open spec fn first_index_of(text: Seq<char>, mark: char) -> int
    decreases text.len(),
{
    if text.len() == 0 || text[0] == mark {
        0
    } else {
        1 + first_index_of(text.skip(1), mark)
    }
}

/// The character that a frame archive of this name belongs to: the name's
/// last component is that one character up to its first dot.
pub open spec fn archive_glyph(blob_name: Seq<char>) -> Option<char> {
    let name = file_name(blob_name);
    let stem = name.take(first_index_of(name, '.'));
    if stem.len() == 1 {
        Some(stem[0])
    } else {
        None
    }
}

/// A number never shrinks when digits are written behind it.
pub proof fn lemma_decimal_value_grows(digits: Seq<char>, n: int)
    requires
        0 <= n <= digits.len(),
    ensures
        decimal_value(digits.take(n)) <= decimal_value(digits),
    decreases digits.len(),
{
    if n == digits.len() {
        assert(digits.take(n) =~= digits);
    } else {
        lemma_decimal_value_grows(digits.drop_last(), n);
        assert(digits.drop_last().take(n) =~= digits.take(n));
    }
}

/// The characters of a string, one by one.
pub fn chars_of(text: &str) -> (chars: Vec<char>)
    ensures
        chars@ == text@,
{
    let mut chars: Vec<char> = Vec::new();
    for c in it: text.chars()
        invariant
            it.seq() == text@,
            chars@ == it.seq().take(it.index() as int),
    {
        chars.push(c);
    }
    chars
}

/// Where `mark` stands last in `chars`.
fn find_last(chars: &Vec<char>, mark: char) -> (found: Option<usize>)
    ensures
        match found {
            Some(at) => last_index_of(chars@, mark) == at && at < chars.len(),
            None => last_index_of(chars@, mark) == -1,
        },
{
    let mut found: Option<usize> = None;
    let mut i: usize = 0;
    while i < chars.len()
        invariant
            i <= chars.len(),
            match found {
                Some(at) => last_index_of(chars@.take(i as int), mark) == at && at < i,
                None => last_index_of(chars@.take(i as int), mark) == -1,
            },
        decreases chars.len() - i,
    {
        assert(chars@.take(i + 1).drop_last() =~= chars@.take(i as int));
        if chars[i] == mark {
            found = Some(i);
        }
        i = i + 1;
    }
    assert(chars@.take(i as int) =~= chars@);
    found
}

/// A copy of the characters from `from` up to `to`.
fn copy_range(chars: &Vec<char>, from: usize, to: usize) -> (part: Vec<char>)
    requires
        from <= to <= chars.len(),
    ensures
        part@ == chars@.subrange(from as int, to as int),
{
    let mut part: Vec<char> = Vec::new();
    let mut i: usize = from;
    while i < to
        invariant
            from <= i <= to <= chars.len(),
            part@ == chars@.subrange(from as int, i as int),
        decreases to - i,
    {
        part.push(chars[i]);
        i = i + 1;
    }
    part
}

/// The last component of a path.
fn file_name_of(path: &Vec<char>) -> (name: Vec<char>)
    ensures
        name@ == file_name(path@),
{
    let mut end: usize = path.len();
    assert(path@.take(end as int) =~= path@);
    while end > 0 && (path[end - 1] == '/' || (end >= 2 && path[end - 1] == '.' && path[end - 2]
        == '/'))
        invariant
            end <= path.len(),
            trimmed(path@) == trimmed(path@.take(end as int)),
        decreases end,
    {
        assert(path@.take(end as int).drop_last() =~= path@.take(end - 1));
        end = end - 1;
    }
    let whole = copy_range(path, 0, end);
    assert(whole@ =~= path@.take(end as int));
    let start: usize = match find_last(&whole, '/') {
        Some(at) => at + 1,
        None => 0,
    };
    copy_range(&whole, start, whole.len())
}

fn lower_of(c: char) -> (lower: char)
    ensures
        lower == ascii_lower(c),
{
    if c >= 'A' && c <= 'Z' {
        (((c as u8) + 32) as char)
    } else {
        c
    }
}

fn is_word(text: &Vec<char>, word: &Vec<char>) -> (same: bool)
    ensures
        same == is_word_ignoring_case(text@, word@),
{
    if text.len() != word.len() {
        return false;
    }
    let mut i: usize = 0;
    while i < text.len()
        invariant
            i <= text.len() == word.len(),
            forall|j: int| 0 <= j < i ==> ascii_lower(#[trigger] text@[j]) == word@[j],
        decreases text.len() - i,
    {
        if lower_of(text[i]) != word[i] {
            return false;
        }
        i = i + 1;
    }
    true
}

fn is_raster_extension_of(ext: &Vec<char>) -> (known: bool)
    ensures
        known == is_raster_extension(ext@),
{
    let jpg: Vec<char> = vec!['j', 'p', 'g'];
    let jpeg: Vec<char> = vec!['j', 'p', 'e', 'g'];
    let png: Vec<char> = vec!['p', 'n', 'g'];
    is_word(ext, &jpg) || is_word(ext, &jpeg) || is_word(ext, &png)
}

/// Splits a file name into its stem and extension, where it has an extension.
fn split_extension(name: &Vec<char>) -> (parts: Option<(Vec<char>, Vec<char>)>)
    ensures
        match parts {
            Some((stem, ext)) => extension(name@) == Some(ext@) && file_stem(name@) == stem@,
            None => extension(name@) is None,
        },
{
    match find_last(name, '.') {
        Some(dot) => {
            if dot == 0 {
                None
            } else {
                let stem = copy_range(name, 0, dot);
                let ext = copy_range(name, dot + 1, name.len());
                Some((stem, ext))
            }
        },
        None => None,
    }
}

/// Reads a frame number.
pub fn parse_index(text: &Vec<char>) -> (index: Option<u32>)
    ensures
        index == parsed_index(text@),
{
    let start: usize = if text.len() > 0 && text[0] == '+' {
        1
    } else {
        0
    };
    let ghost digits = index_digits(text@);
    if start == text.len() {
        return None;
    }
    let mut value: u64 = 0;
    let mut i: usize = start;
    while i < text.len()
        invariant
            start <= i <= text.len(),
            digits == index_digits(text@),
            digits == text@.skip(start as int),
            forall|j: int| 0 <= j < i - start ==> is_digit(#[trigger] digits[j]),
            value == decimal_value(digits.take(i - start)),
            value <= u32::MAX,
        decreases text.len() - i,
    {
        let c = text[i];
        assert(digits[i - start] == c);
        if !(c >= '0' && c <= '9') {
            return None;
        }
        assert(digits.take(i - start + 1).drop_last() =~= digits.take(i - start));
        value = 10 * value + ((c as u32 - '0' as u32) as u64);
        if value > u32::MAX as u64 {
            proof {
                lemma_decimal_value_grows(digits, i - start + 1);
            }
            return None;
        }
        i = i + 1;
    }
    assert(digits.take(i - start) =~= digits);
    Some(value as u32)
}

/// The number of the frame that an archive entry of this name holds.
pub fn frame_index_of(entry_name: &str) -> (index: Option<u32>)
    ensures
        index == frame_index(entry_name@),
{
    let path = chars_of(entry_name);
    let name = file_name_of(&path);
    match split_extension(&name) {
        Some((stem, ext)) => {
            if is_raster_extension_of(&ext) {
                parse_index(&stem)
            } else {
                None
            }
        },
        None => None,
    }
}

/// The character that a frame archive of this name belongs to.
pub fn archive_glyph_of(blob_name: &str) -> (glyph: Option<char>)
    ensures
        glyph == archive_glyph(blob_name@),
{
    let path = chars_of(blob_name);
    let name = file_name_of(&path);
    let mut dot: usize = 0;
    assert(name@.skip(0) =~= name@);
    while dot < name.len() && name[dot] != '.'
        invariant
            dot <= name.len(),
            first_index_of(name@, '.') == dot + first_index_of(name@.skip(dot as int), '.'),
        decreases name.len() - dot,
    {
        assert(name@.skip(dot as int).skip(1) =~= name@.skip(dot + 1));
        dot = dot + 1;
    }
    if dot == 1 {
        Some(name[0])
    } else {
        None
    }
}

/// The character that a still image of this name draws.
pub fn static_glyph_of(blob_name: &str) -> (glyph: Option<char>)
    ensures
        glyph == static_glyph(blob_name@),
{
    let path = chars_of(blob_name);
    let name = file_name_of(&path);
    match split_extension(&name) {
        Some((stem, ext)) => {
            if is_raster_extension_of(&ext) && stem.len() == 1 {
                Some(stem[0])
            } else {
                None
            }
        },
        None => None,
    }
}

} // verus!
