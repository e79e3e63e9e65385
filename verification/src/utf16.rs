//! Text in UTF-16, as the Windows interfaces hand it over.
use vstd::prelude::*;

use crate::text::{chars_of, string_of};

verus! {

/// `char::from_u32` gives the character with a code point, and nothing for a number that is no
/// code point of a character.
pub assume_specification[ char::from_u32 ](code: u32) -> (c: Option<char>)
    ensures
        c is Some <==> code <= 0xD7FF || 0xE000 <= code <= 0x10FFFF,
        c matches Some(found) ==> found as u32 == code,
;

pub open spec fn is_high_surrogate(unit: u16) -> bool {
    0xD800 <= unit <= 0xDBFF
}

pub open spec fn is_low_surrogate(unit: u16) -> bool {
    0xDC00 <= unit <= 0xDFFF
}

/// How many units the character at the start of `units` takes; none where there is no valid one.
pub open spec fn leading_width(units: Seq<u16>) -> int {
    if units.len() == 0 {
        0
    } else if is_high_surrogate(units[0]) {
        if units.len() >= 2 && is_low_surrogate(units[1]) {
            2
        } else {
            0
        }
    } else if is_low_surrogate(units[0]) {
        0
    } else {
        1
    }
}

/// The character at the start of `units`.
pub open spec fn leading_char(units: Seq<u16>) -> char
    recommends
        leading_width(units) > 0,
{
    if leading_width(units) == 2 {
        (0x1_0000 + (units[0] - 0xD800) * 0x400 + (units[1] - 0xDC00)) as char
    } else {
        units[0] as char
    }
}

/// The text that `units` encode, where they are well-formed.
pub open spec fn decoded(units: Seq<u16>) -> Option<Seq<char>>
    decreases units.len(),
{
    if units.len() == 0 {
        Some(Seq::empty())
    } else if leading_width(units) == 0 {
        None
    } else {
        match decoded(units.skip(leading_width(units))) {
            Some(rest) => Some(seq![leading_char(units)] + rest),
            None => None,
        }
    }
}

/// What stands for a unit that is not part of a character.
pub const REPLACEMENT_CHARACTER: char = '\u{FFFD}';

/// The text that `units` encode, with a replacement character for each unpaired surrogate.
pub open spec fn decoded_lossy(units: Seq<u16>) -> Seq<char>
    decreases units.len(),
{
    if units.len() == 0 {
        Seq::empty()
    } else if leading_width(units) == 0 {
        seq![REPLACEMENT_CHARACTER] + decoded_lossy(units.skip(1))
    } else {
        seq![leading_char(units)] + decoded_lossy(units.skip(leading_width(units)))
    }
}

pub open spec fn encoded_char(c: char) -> Seq<u16> {
    if (c as u32) < 0x1_0000 {
        seq![c as u16]
    } else {
        let offset = c as int - 0x1_0000;
        seq![(0xD800 + offset / 0x400) as u16, (0xDC00 + offset % 0x400) as u16]
    }
}

/// The units that encode `text`.
pub open spec fn encoded(text: Seq<char>) -> Seq<u16>
    decreases text.len(),
{
    if text.len() == 0 {
        Seq::empty()
    } else {
        encoded_char(text[0]) + encoded(text.drop_first())
    }
}

/// The code points that a character can have.
proof fn lemma_char_range(c: char)
    ensures
        0 <= c as int <= 0x10FFFF,
        !(0xD800 <= c as int <= 0xDFFF),
{
}

/// Decoding what was encoded gives the text back.
pub proof fn decoding_undoes_encoding(text: Seq<char>)
    ensures
        decoded(encoded(text)) == Some(text),
        decoded_lossy(encoded(text)) == text,
    decreases text.len(),
{
    if text.len() > 0 {
        let rest = text.drop_first();
        let units = encoded(text);
        decoding_undoes_encoding(rest);
        let width = encoded_char(text[0]).len() as int;
        lemma_char_range(text[0]);
        assert(leading_width(units) == width);
        assert(leading_char(units) == text[0]);
        assert(units.skip(width) =~= encoded(rest));
        assert(seq![text[0]] + rest =~= text);
    }
}

/// Where decoding succeeds, nothing is lost by the lossy form either.
pub proof fn lossy_decoding_agrees(units: Seq<u16>)
    requires
        decoded(units) is Some,
    ensures
        decoded(units) == Some(decoded_lossy(units)),
    decreases units.len(),
{
    if units.len() > 0 {
        lossy_decoding_agrees(units.skip(leading_width(units)));
    }
}

/// The character at `index`, with the number of units that it takes.
fn char_at(units: &[u16], index: usize) -> (found: Option<(char, usize)>)
    requires
        index < units@.len(),
    ensures
        match found {
            Some((c, width)) => width == leading_width(units@.skip(index as int)) && width > 0 && c
                == leading_char(units@.skip(index as int)) && index + width <= units@.len(),
            None => leading_width(units@.skip(index as int)) == 0,
        },
{
    let unit: u16 = units[index];
    assert(units@.skip(index as int)[0] == unit);
    if unit < 0xD800 || unit > 0xDFFF {
        match char::from_u32(unit as u32) {
            Some(c) => {
                proof {
                    lemma_char_range(c);
                }
                Some((c, 1))
            },
            None => None,
        }
    } else if unit <= 0xDBFF && units.len() - index >= 2 && 0xDC00 <= units[index + 1] && units[index
        + 1] <= 0xDFFF {
        let low: u16 = units[index + 1];
        assert(units@.skip(index as int)[1] == low);
        match char::from_u32(
            0x1_0000 + (unit as u32 - 0xD800) * 0x400 + (low as u32 - 0xDC00),
        ) {
            Some(c) => {
                proof {
                    lemma_char_range(c);
                }
                Some((c, 2))
            },
            None => None,
        }
    } else {
        proof {
            if units@.skip(index as int).len() >= 2 {
                assert(units@.skip(index as int)[1] == units@[index + 1]);
            }
        }
        None
    }
}

/// Decodes well-formed UTF-16.
pub fn decode(units: &[u16]) -> (text: Option<String>)
    ensures
        match decoded(units@) {
            Some(chars) => text matches Some(found) && found@ == chars,
            None => text is None,
        },
{
    let mut chars: Vec<char> = Vec::new();
    let mut index: usize = 0;
    assert(units@.skip(0) =~= units@);
    assert(decoded(units@) is Some ==> decoded(units@)->0 =~= chars@ + decoded(units@)->0);
    while index < units.len()
        invariant
            index <= units@.len(),
            decoded(units@) is Some <==> decoded(units@.skip(index as int)) is Some,
            decoded(units@) is Some ==> decoded(units@)->0 == chars@ + decoded(
                units@.skip(index as int),
            )->0,
        decreases units.len() - index,
    {
        match char_at(units, index) {
            None => {
                return None;
            },
            Some((c, width)) => {
                let ghost before = chars@;
                proof {
                    assert(units@.skip(index as int).skip(width as int) =~= units@.skip(
                        index + width,
                    ));
                    if decoded(units@) is Some {
                        let rest = decoded(units@.skip(index + width))->0;
                        assert(before + (seq![c] + rest) =~= before.push(c) + rest);
                    }
                }
                chars.push(c);
                index = index + width;
            },
        }
    }
    assert(decoded(units@)->0 =~= chars@);
    Some(string_of(chars.as_slice()))
}

/// Decodes UTF-16, with a replacement character for each unpaired surrogate.
pub fn decode_lossy(units: &[u16]) -> (text: String)
    ensures
        text@ == decoded_lossy(units@),
{
    let mut chars: Vec<char> = Vec::new();
    let mut index: usize = 0;
    assert(units@.skip(0) =~= units@);
    assert(decoded_lossy(units@) =~= chars@ + decoded_lossy(units@));
    while index < units.len()
        invariant
            index <= units@.len(),
            decoded_lossy(units@) == chars@ + decoded_lossy(units@.skip(index as int)),
        decreases units.len() - index,
    {
        let (c, width) = match char_at(units, index) {
            None => (REPLACEMENT_CHARACTER, 1),
            Some(found) => found,
        };
        proof {
            assert(units@.skip(index as int).skip(width as int) =~= units@.skip(index + width));
            let rest = decoded_lossy(units@.skip(index + width));
            assert(chars@ + (seq![c] + rest) =~= chars@.push(c) + rest);
        }
        chars.push(c);
        index = index + width;
    }
    assert(decoded_lossy(units@) =~= chars@);
    string_of(chars.as_slice())
}

/// Encodes `text`.
pub fn encode(text: &str) -> (units: Vec<u16>)
    ensures
        units@ == encoded(text@),
{
    let chars = chars_of(text);
    let mut units: Vec<u16> = Vec::new();
    assert(chars@.skip(0) =~= chars@);
    assert(encoded(chars@) =~= units@ + encoded(chars@));
    for index in 0..chars.len()
        invariant
            encoded(chars@) == units@ + encoded(chars@.skip(index as int)),
    {
        let c = chars[index];
        let ghost before = units@;
        proof {
            assert(chars@.skip(index as int).drop_first() =~= chars@.skip(index + 1));
            lemma_char_range(c);
            let rest = encoded(chars@.skip(index + 1));
            assert(before + (encoded_char(c) + rest) =~= before + encoded_char(c) + rest);
        }
        let code: u32 = c as u32;
        if code < 0x1_0000 {
            units.push(code as u16);
        } else {
            let offset: u32 = code - 0x1_0000;
            units.push((0xD800 + offset / 0x400) as u16);
            units.push((0xDC00 + offset % 0x400) as u16);
        }
        assert(units@ =~= before + encoded_char(c));
    }
    assert(encoded(chars@.skip(chars@.len() as int)) =~= Seq::<u16>::empty());
    assert(encoded(chars@) =~= units@);
    units
}

/// Encodes `text` with a zero unit behind it.
pub fn to_wide_null(text: &str) -> (units: Vec<u16>)
    ensures
        units@ == encoded(text@).push(0),
{
    let mut units = encode(text);
    units.push(0);
    units
}

} // verus!
