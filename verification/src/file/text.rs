//! Text encodings of the string pool: UTF-16 code units and UTF-8 bytes.

use vstd::prelude::*;
use vstd::utf8::{
    char_is_scalar, char_u32_cast, decode_utf8, encode_utf8, encode_utf8_decode_utf8,
    encode_utf8_valid_utf8, valid_utf8,
};

verus! {

/// Whether `unit` is the first half of a surrogate pair.
pub open spec fn is_high_surrogate(unit: u16) -> bool {
    0xD800 <= unit <= 0xDBFF
}

/// Whether `unit` is the second half of a surrogate pair.
pub open spec fn is_low_surrogate(unit: u16) -> bool {
    0xDC00 <= unit <= 0xDFFF
}

/// The code point that a surrogate pair stands for.
pub open spec fn pair_value(high: u16, low: u16) -> u32 {
    (0x1_0000 + (high - 0xD800) * 0x400 + (low - 0xDC00)) as u32
}

/// `chars` in front of a decoding outcome.
pub open spec fn chars_before(chars: Seq<char>, rest: Option<Seq<char>>) -> Option<Seq<char>> {
    match rest {
        Some(tail) => Some(chars + tail),
        None => None,
    }
}

/// The characters that UTF-16 code units spell, or `None` where a surrogate
/// stands without its partner.
pub open spec fn utf16_decode(units: Seq<u16>) -> Option<Seq<char>>
    decreases units.len(),
{
    if units.len() == 0 {
        Some(Seq::empty())
    } else if !is_high_surrogate(units[0]) && !is_low_surrogate(units[0]) {
        chars_before(seq![units[0] as char], utf16_decode(units.skip(1)))
    } else if is_high_surrogate(units[0]) && units.len() >= 2 && is_low_surrogate(units[1]) {
        chars_before(seq![pair_value(units[0], units[1]) as char], utf16_decode(units.skip(2)))
    } else {
        None
    }
}

/// The one or two UTF-16 code units that spell a character.
pub open spec fn utf16_encode_char(c: char) -> Seq<u16> {
    if (c as u32) < 0x1_0000 {
        seq![(c as u32) as u16]
    } else {
        seq![
            (0xD800 + (c as u32 - 0x1_0000) / 0x400) as u16,
            (0xDC00 + (c as u32 - 0x1_0000) % 0x400) as u16,
        ]
    }
}

/// The UTF-16 code units that spell `chars`.
pub open spec fn utf16_encode(chars: Seq<char>) -> Seq<u16>
    decreases chars.len(),
{
    if chars.len() == 0 {
        Seq::empty()
    } else {
        utf16_encode_char(chars[0]) + utf16_encode(chars.skip(1))
    }
}

/// Text that is spelled in UTF-16 decodes to itself.
pub proof fn lemma_utf16_round_trip(chars: Seq<char>)
    ensures
        utf16_decode(utf16_encode(chars)) == Some(chars),
    decreases chars.len(),
{
    if chars.len() > 0 {
        let c = chars[0];
        let rest = chars.skip(1);
        let units = utf16_encode(chars);
        lemma_utf16_round_trip(rest);
        char_is_scalar(c);
        if (c as u32) < 0x1_0000 {
            assert(units.skip(1) =~= utf16_encode(rest));
            char_u32_cast(c, units[0] as u32);
        } else {
            let high = (0xD800 + (c as u32 - 0x1_0000) / 0x400) as u16;
            let low = (0xDC00 + (c as u32 - 0x1_0000) % 0x400) as u16;
            assert(units.skip(2) =~= utf16_encode(rest));
            char_u32_cast(c, pair_value(high, low));
        }
    }
}

/// Whether `value` is a Unicode scalar value, that is, a value of a `char`.
pub open spec fn is_scalar_value(value: u32) -> bool {
    value <= 0xD7FF || 0xE000 <= value <= 0x10_FFFF
}

/// `char::from_u32` of std: the `char` with the given value, where the value
/// is a Unicode scalar value, and `None` for a surrogate or a value above
/// `0x10FFFF`.
#[verifier::external_body]
fn char_from_u32(value: u32) -> (r: Option<char>)
    ensures
        r is Some <==> is_scalar_value(value),
        r matches Some(c) ==> c as u32 == value,
{
    char::from_u32(value)
}

/// `String::from_iter` of std over the characters of a slice: the string made
/// of these characters in their order.
#[verifier::external_body]
fn string_from_chars(chars: &[char]) -> (s: String)
    ensures
        s@ == chars@,
{
    String::from_iter(chars.iter())
}

/// `String::from_utf8` of std: the string that the bytes encode, where they
/// are valid UTF-8, and `None` where they are not.
#[verifier::external_body]
pub(crate) fn string_from_utf8(bytes: Vec<u8>) -> (r: Option<String>)
    ensures
        r is Some <==> valid_utf8(bytes@),
        r matches Some(s) ==> s@ == decode_utf8(bytes@),
{
    String::from_utf8(bytes).ok()
}

/// Decoding `units` behind the characters `done` goes one character at a
/// time.
proof fn lemma_utf16_step(units: Seq<u16>, at: int, done: Seq<char>)
    requires
        0 <= at < units.len(),
    ensures
        chars_before(done, utf16_decode(units.skip(at))) == if !is_high_surrogate(units[at])
            && !is_low_surrogate(units[at]) {
            chars_before(done.push(units[at] as char), utf16_decode(units.skip(at + 1)))
        } else if is_high_surrogate(units[at]) && at + 1 < units.len() && is_low_surrogate(
            units[at + 1],
        ) {
            chars_before(
                done.push(pair_value(units[at], units[at + 1]) as char),
                utf16_decode(units.skip(at + 2)),
            )
        } else {
            None
        },
{
    let rest = units.skip(at);
    assert(rest.skip(1) =~= units.skip(at + 1));
    if at + 1 < units.len() {
        assert(rest.skip(2) =~= units.skip(at + 2));
    }
}

/// Decodes UTF-16 code units into characters.
pub fn decode_utf16(units: &[u16]) -> (r: Option<Vec<char>>)
    ensures
        match utf16_decode(units@) {
            Some(chars) => r matches Some(v) && v@ == chars,
            None => r is None,
        },
{
    let mut out: Vec<char> = Vec::new();
    let mut i: usize = 0;
    assert(units@.skip(0) =~= units@);
    while i < units.len()
        invariant
            i <= units.len(),
            utf16_decode(units@) == chars_before(out@, utf16_decode(units@.skip(i as int))),
        decreases units.len() - i,
    {
        proof {
            lemma_utf16_step(units@, i as int, out@);
        }
        let unit = units[i];
        if unit < 0xD800 || unit > 0xDFFF {
            match char_from_u32(unit as u32) {
                Some(c) => {
                    proof {
                        char_u32_cast(c, unit as u32);
                    }
                    out.push(c);
                },
                None => {
                    return None;
                },
            }
            i = i + 1;
        } else if unit <= 0xDBFF && i + 1 < units.len() && units[i + 1] >= 0xDC00 && units[i + 1]
            <= 0xDFFF {
            let value: u32 = 0x1_0000 + (unit - 0xD800) as u32 * 0x400 + (units[i + 1]
                - 0xDC00) as u32;
            match char_from_u32(value) {
                Some(c) => {
                    proof {
                        char_u32_cast(c, value);
                    }
                    out.push(c);
                },
                None => {
                    return None;
                },
            }
            i = i + 2;
        } else {
            return None;
        }
    }
    Some(out)
}

/// The text that UTF-16 code units spell.
pub fn string_from_utf16(units: &[u16]) -> (r: Option<String>)
    ensures
        match utf16_decode(units@) {
            Some(chars) => r matches Some(s) && s@ == chars,
            None => r is None,
        },
{
    match decode_utf16(units) {
        Some(chars) => Some(string_from_chars(chars.as_slice())),
        None => None,
    }
}

/// The characters that UTF-8 bytes spell, or `None` where the bytes are not
/// valid UTF-8.
pub open spec fn utf8_decode(bytes: Seq<u8>) -> Option<Seq<char>> {
    if valid_utf8(bytes) {
        Some(decode_utf8(bytes))
    } else {
        None
    }
}

/// Text that is spelled in UTF-8 decodes to itself.
pub proof fn lemma_utf8_round_trip(chars: Seq<char>)
    ensures
        utf8_decode(encode_utf8(chars)) == Some(chars),
{
    encode_utf8_valid_utf8(chars);
    encode_utf8_decode_utf8(chars);
}

} // verus!
