//! Building the names that the pipeline hands out.

use vstd::prelude::*;

verus! {

/// `String::push`: the character is added at the end and nothing else changes.
#[verifier::external_body]
pub(crate) fn push_char(text: &mut String, c: char)
    ensures
        final(text)@ == old(text)@.push(c),
{
    text.push(c)
}

/// The character of a decimal digit.
pub open spec fn digit_char(digit: nat) -> char
    recommends
        digit < 10,
{
    ('0' as u32 + digit) as char
}

/// A number in decimal digits, without leading zeros.
pub open spec fn decimal_digits(n: nat) -> Seq<char>
    decreases n,
{
    if n < 10 {
        seq![digit_char(n)]
    } else {
        decimal_digits(n / 10).push(digit_char(n % 10))
    }
}

/// A number in at least `width` decimal digits, with zeros in front where it
/// has fewer.
pub open spec fn zero_padded(n: nat, width: nat) -> Seq<char> {
    let digits = decimal_digits(n);
    if digits.len() >= width {
        digits
    } else {
        Seq::new((width - digits.len()) as nat, |i: int| '0') + digits
    }
}

/// Appends the characters of `chars` from the last to the first.
fn push_reversed(text: &mut String, chars: &Vec<char>)
    ensures
        final(text)@ == old(text)@ + chars@.reverse(),
{
    let mut left: usize = chars.len();
    while left > 0
        invariant
            left <= chars.len(),
            text@ == old(text)@ + chars@.subrange(left as int, chars.len() as int).reverse(),
        decreases left,
    {
        left = left - 1;
        push_char(text, chars[left]);
    }
}

/// Appends `n` in at least `width` decimal digits, zeros in front.
pub fn push_zero_padded(text: &mut String, n: usize, width: usize)
    ensures
        final(text)@ == old(text)@ + zero_padded(n as nat, width as nat),
{
    // The digits from the last to the first.
    let mut reversed: Vec<char> = Vec::new();
    let mut rest: usize = n;
    while rest >= 10
        invariant
            decimal_digits(n as nat) == decimal_digits(rest as nat) + reversed@.reverse(),
        decreases rest,
    {
        let digit = (rest % 10) as u8;
        reversed.push((('0' as u8) + digit) as char);
        rest = rest / 10;
    }
    reversed.push((('0' as u8) + (rest as u8)) as char);
    let mut zeros: usize = reversed.len();
    while zeros < width
        invariant
            reversed.len() <= zeros,
            zeros <= width || zeros == reversed.len(),
            text@ == old(text)@ + Seq::new((zeros - reversed.len()) as nat, |i: int| '0'),
        decreases width - zeros,
    {
        push_char(text, '0');
        zeros = zeros + 1;
    }
    push_reversed(text, &reversed);
}

} // verus!
