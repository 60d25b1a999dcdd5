use vstd::prelude::*;
use vstd::utf8::*;

verus! {

/// Whether the Unicode scalar with this value has the `Alphabetic` property.
pub uninterp spec fn unicode_letter(v: u32) -> bool;

/// Whether the Unicode scalar with this value has the `Number` general category.
pub uninterp spec fn unicode_number(v: u32) -> bool;

/// Whether the Unicode scalar with this value has the `White_Space` property.
pub uninterp spec fn unicode_whitespace(v: u32) -> bool;

/// Relies on char::from_u32: `Some` exactly for values that are Unicode
/// scalars (at most 0x10FFFF and not in the surrogate range), and the
/// returned char has the given value.
#[verifier::external_body]
pub(crate) fn char_from_scalar(v: u32) -> (r: Option<char>)
    ensures
        r.is_some() <==> is_scalar(v),
        match r {
            Some(c) => c as u32 == v,
            None => true,
        },
{
    char::from_u32(v)
}

/// Relies on char::is_alphabetic: true exactly for characters with the
/// `Alphabetic` property; in the ASCII range those are `A`..`Z` and `a`..`z`.
#[verifier::external_body]
pub(crate) fn char_is_letter(c: char) -> (r: bool)
    ensures
        r == unicode_letter(c as u32),
        (c as u32) < 0x80 ==> (r <==> (0x41 <= c as u32 <= 0x5a || 0x61 <= c as u32 <= 0x7a)),
{
    c.is_alphabetic()
}

/// Relies on char::is_numeric: true exactly for characters in the `Number`
/// general category; in the ASCII range those are the digits `0`..`9`.
#[verifier::external_body]
pub(crate) fn char_is_number(c: char) -> (r: bool)
    ensures
        r == unicode_number(c as u32),
        (c as u32) < 0x80 ==> (r <==> 0x30 <= c as u32 <= 0x39),
{
    c.is_numeric()
}

/// Relies on char::is_whitespace: true exactly for characters with the
/// `White_Space` property; in the ASCII range those are space, `\t`, `\n`,
/// vertical tab, form feed and `\r`.
#[verifier::external_body]
pub(crate) fn char_is_whitespace(c: char) -> (r: bool)
    ensures
        r == unicode_whitespace(c as u32),
        (c as u32) < 0x80 ==> (r <==> (c as u32 == 0x20 || 0x09 <= c as u32 <= 0x0d)),
{
    c.is_whitespace()
}

/// Decode the UTF-8 scalar that starts at byte `pos` of `text`.  Returns the
/// scalar value and the number of bytes of its encoding, or `None` when no
/// well-formed encoding of a single scalar starts there.
pub(crate) fn decode_scalar(text: &Vec<u8>, pos: usize) -> (r: Option<(u32, usize)>)
    requires
        pos < text@.len(),
    ensures
        match r {
            Some(vl) => {
                &&& valid_first_scalar(text@.skip(pos as int))
                &&& vl.0 == decode_first_scalar(text@.skip(pos as int))
                &&& vl.1 == length_of_first_scalar(text@.skip(pos as int))
                &&& is_scalar(vl.0)
                &&& 1 <= vl.1 <= 4
                &&& pos + vl.1 <= text@.len()
            },
            None => !valid_first_scalar(text@.skip(pos as int)),
        },
{
    let ghost s = text@.skip(pos as int);
    assert(s.len() == text@.len() - pos);
    assert(s[0] == text@[pos as int]);
    let rem = text.len() - pos;
    let b0 = text[pos];
    if b0 < 0x80 {
        assert(b0 & 0x7f == b0) by (bit_vector)
            requires
                b0 < 0x80,
        ;
        Some((b0 as u32, 1))
    } else if 0xc0 <= b0 && b0 <= 0xdf {
        if rem < 2 {
            return None;
        }
        assert(s[1] == text@[pos as int + 1]);
        let b1 = text[pos + 1];
        if !(0x80 <= b1 && b1 <= 0xbf) {
            return None;
        }
        let v = (((b0 & 0x1f) as u32) << 6u32) | ((b1 & 0x3f) as u32);
        assert(v <= 0x7ff) by (bit_vector)
            requires
                v == (((b0 & 0x1f) as u32) << 6u32) | ((b1 & 0x3f) as u32),
        ;
        if v < 0x80 {
            // overlong encoding
            return None;
        }
        Some((v, 2))
    } else if 0xe0 <= b0 && b0 <= 0xef {
        if rem < 3 {
            return None;
        }
        assert(s[1] == text@[pos as int + 1]);
        assert(s[2] == text@[pos as int + 2]);
        let b1 = text[pos + 1];
        let b2 = text[pos + 2];
        if !(0x80 <= b1 && b1 <= 0xbf) || !(0x80 <= b2 && b2 <= 0xbf) {
            return None;
        }
        let v = (((b0 & 0x0f) as u32) << 12u32) | (((b1 & 0x3f) as u32) << 6u32) | ((b2
            & 0x3f) as u32);
        assert(v <= 0xffff) by (bit_vector)
            requires
                v == (((b0 & 0x0f) as u32) << 12u32) | (((b1 & 0x3f) as u32) << 6u32) | ((b2
                    & 0x3f) as u32),
        ;
        if v < 0x800 {
            // overlong encoding
            return None;
        }
        if 0xd800 <= v && v <= 0xdfff {
            // surrogate
            return None;
        }
        Some((v, 3))
    } else if 0xf0 <= b0 && b0 <= 0xf7 {
        if rem < 4 {
            return None;
        }
        assert(s[1] == text@[pos as int + 1]);
        assert(s[2] == text@[pos as int + 2]);
        assert(s[3] == text@[pos as int + 3]);
        let b1 = text[pos + 1];
        let b2 = text[pos + 2];
        let b3 = text[pos + 3];
        if !(0x80 <= b1 && b1 <= 0xbf) || !(0x80 <= b2 && b2 <= 0xbf) || !(0x80 <= b3 && b3
            <= 0xbf) {
            return None;
        }
        let v = (((b0 & 0x07) as u32) << 18u32) | (((b1 & 0x3f) as u32) << 12u32) | (((b2
            & 0x3f) as u32) << 6u32) | ((b3 & 0x3f) as u32);
        assert(v <= 0x1fffff) by (bit_vector)
            requires
                v == (((b0 & 0x07) as u32) << 18u32) | (((b1 & 0x3f) as u32) << 12u32) | (((b2
                    & 0x3f) as u32) << 6u32) | ((b3 & 0x3f) as u32),
        ;
        if v < 0x10000 || v > 0x10ffff {
            // overlong encoding or beyond the Unicode range
            return None;
        }
        Some((v, 4))
    } else {
        // continuation byte or invalid leading byte
        None
    }
}

} // verus!
