//! Characters and strings: the few operations of the standard library that
//! the grammar and the renderer rest on.

use vstd::prelude::*;

verus! {

/// Whether `code`, which is above the ASCII range, is the code point of a
/// character with the Unicode property White_Space.
pub open spec fn is_wide_white_space(code: u32) -> bool {
    ||| code == 0x0085
    ||| code == 0x00A0
    ||| code == 0x1680
    ||| 0x2000 <= code <= 0x200A
    ||| code == 0x2028
    ||| code == 0x2029
    ||| code == 0x202F
    ||| code == 0x205F
    ||| code == 0x3000
}

/// Whether `c` is white space as the standard library counts it: whether it
/// has the Unicode property White_Space. In the ASCII range these are the
/// space and the characters from the tabulator to the carriage return.
pub open spec fn is_white_space(c: char) -> bool {
    if c as u32 <= 0x7F {
        c == ' ' || ('\t' <= c && c <= '\r')
    } else {
        is_wide_white_space(c as u32)
    }
}

/// `char::is_whitespace`: whether the character has the Unicode property
/// White_Space.
pub assume_specification[ char::is_whitespace ](c: char) -> (b: bool)
    ensures
        b == is_white_space(c),
;

/// No visible ASCII character is white space.
pub proof fn lemma_visible_is_no_white_space()
    ensures
        forall|c: char| 0x21 <= c as u32 <= 0x7E ==> !#[trigger] is_white_space(c),
{
}

/// Whether `code` is a Unicode scalar value: a code point that is no
/// surrogate.
pub open spec fn is_scalar_value(code: u32) -> bool {
    code <= 0xD7FF || (0xE000 <= code && code <= 0x10FFFF)
}

/// `char::from_u32`: the character of a code that is a Unicode scalar value,
/// and `None` for any other code.
pub assume_specification[ char::from_u32 ](code: u32) -> (r: Option<char>)
    ensures
        r == (if is_scalar_value(code) {
            Some(code as char)
        } else {
            None
        }),
;

/// `String::push`: appends one character.
pub assume_specification[ std::string::String::push ](s: &mut std::string::String, c: char)
    ensures
        final(s)@ == old(s)@.push(c),
;

/// The characters of `text`, in order.
pub(crate) fn chars_of(text: &str) -> (r: Vec<char>)
    ensures
        r@ == text@,
{
    let mut r: Vec<char> = Vec::new();
    for c in it: text.chars()
        invariant
            r@ == it.seq().take(it.index() as int),
            it.seq() == text@,
    {
        r.push(c);
    }
    r
}

/// The string of the characters of `chars` from `from` up to `to`.
pub(crate) fn string_of(chars: &Vec<char>, from: usize, to: usize) -> (r: String)
    requires
        from <= to <= chars.len(),
    ensures
        r@ == chars@.subrange(from as int, to as int),
{
    let mut r = String::new();
    let mut i: usize = from;
    while i < to
        invariant
            from <= i <= to <= chars.len(),
            r@ == chars@.subrange(from as int, i as int),
        decreases to - i,
    {
        r.push(chars[i]);
        assert(chars@.subrange(from as int, i as int).push(chars@[i as int]) =~= chars@.subrange(
            from as int,
            i + 1,
        ));
        i += 1;
    }
    r
}

} // verus!
