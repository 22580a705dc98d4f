//! Text that the operating system hands over as 16-bit code units: where it
//! ends, and what it says.

use vstd::prelude::*;
use vstd::string::*;

verus! {

/// The character that stands for code units that encode nothing.
pub const REPLACEMENT_CHARACTER: char = '\u{FFFD}';

/// Whether `unit` is the first half of a surrogate pair.
pub open spec fn is_high_surrogate(unit: u16) -> bool {
    0xD800 <= unit <= 0xDBFF
}

/// Whether `unit` is the second half of a surrogate pair.
pub open spec fn is_low_surrogate(unit: u16) -> bool {
    0xDC00 <= unit <= 0xDFFF
}

/// The code point that a surrogate pair encodes.
pub open spec fn pair_code_point(high: u16, low: u16) -> int {
    0x10000 + (high - 0xD800) * 0x400 + (low - 0xDC00)
}

/// The text that `units` encode in UTF-16. A high surrogate and the low
/// surrogate behind it give one character; any other surrogate gives the
/// replacement character; every other unit is its own character.
pub open spec fn decode_utf16_lossy(units: Seq<u16>) -> Seq<char>
    decreases units.len(),
{
    if units.len() == 0 {
        Seq::empty()
    } else if is_high_surrogate(units[0]) && units.len() >= 2 && is_low_surrogate(units[1]) {
        seq![pair_code_point(units[0], units[1]) as char] + decode_utf16_lossy(units.skip(2))
    } else if is_high_surrogate(units[0]) || is_low_surrogate(units[0]) {
        seq![REPLACEMENT_CHARACTER] + decode_utf16_lossy(units.skip(1))
    } else {
        seq![units[0] as char] + decode_utf16_lossy(units.skip(1))
    }
}

/// The number of code units before the text ends: before the first zero
/// unit, and at most `limit` and at most all of them.
pub open spec fn text_length(units: Seq<u16>, limit: nat) -> nat
    decreases units.len(),
{
    if units.len() == 0 || limit == 0 || units[0] == 0 {
        0
    } else {
        1 + text_length(units.skip(1), (limit - 1) as nat)
    }
}

/// The code units of the text: those before its end.
pub open spec fn terminated_text(units: Seq<u16>, limit: nat) -> Seq<u16> {
    units.take(text_length(units, limit) as int)
}

/// The text ends within the buffer and within the limit; no zero unit stands
/// in it; and it ends at a zero unit unless the buffer or the limit ends it.
pub proof fn lemma_text_length(units: Seq<u16>, limit: nat)
    ensures
        text_length(units, limit) <= units.len(),
        text_length(units, limit) <= limit,
        forall|i: int| 0 <= i < text_length(units, limit) ==> #[trigger] units[i] != 0,
        text_length(units, limit) == units.len() || text_length(units, limit) == limit
            || units[text_length(units, limit) as int] == 0,
    decreases units.len(),
{
    if !(units.len() == 0 || limit == 0 || units[0] == 0) {
        let rest = units.skip(1);
        lemma_text_length(rest, (limit - 1) as nat);
        assert forall|i: int| 0 <= i < text_length(units, limit) implies #[trigger] units[i]
            != 0 by {
            if i > 0 {
                assert(units[i] == rest[i - 1]);
            }
        }
        let n = text_length(rest, (limit - 1) as nat);
        if n < rest.len() {
            assert(rest[n as int] == units[n as int + 1]);
        }
    }
}

/// A character is the character of its code point.
proof fn lemma_char_of_code_point(c: char)
    ensures
        c as u32 as char == c,
        !(0xD800 <= c as u32 <= 0xDFFF),
        c as u32 <= 0x10FFFF,
{
}

/// Calls `char::from_u32`, which gives the character with the code point
/// `code`, and nothing exactly where `code` is a surrogate or lies beyond the
/// last code point.
#[verifier::external_body]
pub(crate) fn char_from_u32(code: u32) -> (c: Option<char>)
    ensures
        match c {
            Some(c) => c as u32 == code,
            None => 0xD800 <= code <= 0xDFFF || code > 0x10FFFF,
        },
{
    char::from_u32(code)
}

/// Calls `String::from_iter` on the characters, which gives the string that
/// holds them in their order.
#[verifier::external_body]
pub(crate) fn string_from_chars(chars: Vec<char>) -> (text: String)
    ensures
        text@ == chars@,
{
    String::from_iter(chars)
}

/// Finds where the text in `units` ends.
pub fn find_text_length(units: &[u16], limit: usize) -> (length: usize)
    ensures
        length == text_length(units@, limit as nat),
{
    let mut i: usize = 0;
    assert(units@.skip(0) =~= units@);
    while i < units.len() && i < limit && units[i] != 0
        invariant
            i <= units.len(),
            i <= limit,
            text_length(units@, limit as nat) == i + text_length(
                units@.skip(i as int),
                (limit - i) as nat,
            ),
        decreases units.len() - i,
    {
        assert(units@.skip(i as int).skip(1) =~= units@.skip(i + 1));
        i += 1;
    }
    i
}

/// The character of the code point `code`, or the replacement character
/// where there is none.
fn char_or_replacement(code: u32) -> (c: char)
    ensures
        !(0xD800 <= code <= 0xDFFF || code > 0x10FFFF) ==> c == code as char,
        (0xD800 <= code <= 0xDFFF || code > 0x10FFFF) ==> c == REPLACEMENT_CHARACTER,
{
    match char_from_u32(code) {
        Some(c) => {
            proof {
                lemma_char_of_code_point(c);
            }
            c
        },
        None => REPLACEMENT_CHARACTER,
    }
}

/// Decodes the first `length` code units as UTF-16. Code units that encode
/// nothing are replaced, not refused.
pub fn decode_units(units: &[u16], length: usize) -> (chars: Vec<char>)
    requires
        length <= units.len(),
    ensures
        chars@ == decode_utf16_lossy(units@.take(length as int)),
{
    let ghost text = units@.take(length as int);
    let mut chars: Vec<char> = Vec::new();
    let mut i: usize = 0;
    assert(text.skip(0) =~= text);
    while i < length
        invariant
            i <= length <= units.len(),
            text == units@.take(length as int),
            decode_utf16_lossy(text) == chars@ + decode_utf16_lossy(text.skip(i as int)),
        decreases length - i,
    {
        let ghost rest = text.skip(i as int);
        let ghost before = chars@;
        let unit = units[i];
        assert(rest[0] == unit);
        if 0xD800 <= unit && unit <= 0xDBFF && i + 1 < length && 0xDC00 <= units[i + 1] && units[i
            + 1] <= 0xDFFF {
            let low = units[i + 1];
            assert(rest[1] == low);
            let code: u32 = 0x10000 + (unit as u32 - 0xD800) * 0x400 + (low as u32 - 0xDC00);
            let c = char_or_replacement(code);
            chars.push(c);
            assert(rest.skip(2) =~= text.skip(i + 2));
            assert(chars@ + decode_utf16_lossy(text.skip(i + 2)) =~= before + (seq![c]
                + decode_utf16_lossy(rest.skip(2))));
            i += 2;
        } else {
            let c = char_or_replacement(unit as u32);
            chars.push(c);
            assert(rest.skip(1) =~= text.skip(i + 1));
            assert(chars@ + decode_utf16_lossy(text.skip(i + 1)) =~= before + (seq![c]
                + decode_utf16_lossy(rest.skip(1))));
            i += 1;
        }
    }
    assert(chars@ + Seq::<char>::empty() =~= chars@);
    chars
}

/// Reads the text in a buffer of code units: decodes what stands before the
/// first zero unit, and never looks at more than `limit` units.
pub fn decode_terminated(units: &[u16], limit: usize) -> (text: String)
    ensures
        text@ == decode_utf16_lossy(terminated_text(units@, limit as nat)),
{
    let length = find_text_length(units, limit);
    proof {
        lemma_text_length(units@, limit as nat);
    }
    let chars = decode_units(units, length);
    string_from_chars(chars)
}

} // verus!
