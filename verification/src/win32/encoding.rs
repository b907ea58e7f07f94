//! Text at the boundary with the system: UTF-16 code units and their bytes.

use utf16string::{WStr, WString, LE};
use vstd::prelude::*;

verus! {

/// The low byte of a code unit.
pub open spec fn low_byte(unit: u16) -> u8 {
    (unit & 0xff) as u8
}

/// The high byte of a code unit.
pub open spec fn high_byte(unit: u16) -> u8 {
    (unit >> 8) as u8
}

/// The code unit of two bytes, the low one first.
pub open spec fn unit_of(low: u8, high: u8) -> u16 {
    (low as u16) | ((high as u16) << 8)
}

/// The bytes of code units in little-endian order: two for each unit.
pub open spec fn le_bytes(units: Seq<u16>) -> Seq<u8> {
    Seq::new(
        2 * units.len(),
        |i: int|
            if i % 2 == 0 {
                low_byte(units[i / 2])
            } else {
                high_byte(units[i / 2])
            },
    )
}

/// The code units of little-endian bytes, pair by pair; a last byte without a
/// partner is left out.
pub open spec fn le_units(bytes: Seq<u8>) -> Seq<u16> {
    Seq::new((bytes.len() / 2) as nat, |i: int| unit_of(bytes[2 * i], bytes[2 * i + 1]))
}

/// Whether a code unit is the first of a surrogate pair.
pub open spec fn is_leading_surrogate(unit: u16) -> bool {
    0xd800 <= unit <= 0xdbff
}

/// Whether a code unit is the second of a surrogate pair.
pub open spec fn is_trailing_surrogate(unit: u16) -> bool {
    0xdc00 <= unit <= 0xdfff
}

/// The character of a surrogate pair: ten bits from each unit, above the
/// first 65536 characters.
pub open spec fn pair_char(leading: u16, trailing: u16) -> char {
    (0x1_0000 + (leading - 0xd800) * 0x400 + (trailing - 0xdc00)) as char
}

/// The text that UTF-16 code units spell. A unit that is no surrogate is
/// its own character; a leading surrogate and the trailing one after it
/// make one character; any other surrogate leaves the units without a text.
pub open spec fn utf16_text(units: Seq<u16>) -> Option<Seq<char>>
    decreases units.len(),
{
    if units.len() == 0 {
        Some(Seq::empty())
    } else if is_leading_surrogate(units[0]) {
        if units.len() >= 2 && is_trailing_surrogate(units[1]) {
            match utf16_text(units.skip(2)) {
                Some(rest) => Some(seq![pair_char(units[0], units[1])] + rest),
                None => None,
            }
        } else {
            None
        }
    } else if is_trailing_surrogate(units[0]) {
        None
    } else {
        match utf16_text(units.skip(1)) {
            Some(rest) => Some(seq![units[0] as char] + rest),
            None => None,
        }
    }
}

/// The text that little-endian UTF-16 bytes spell: that of their code
/// units, and none for an odd number of bytes.
pub open spec fn utf16le_decoded(bytes: Seq<u8>) -> Option<Seq<char>> {
    if bytes.len() % 2 == 0 {
        utf16_text(le_units(bytes))
    } else {
        None
    }
}

/// The UTF-16 code units of a character: itself below 65536, a surrogate
/// pair from there on.
pub open spec fn char_units(c: char) -> Seq<u16> {
    if (c as u32) < 0x1_0000 {
        seq![c as u16]
    } else {
        seq![
            (0xd800 + (c as u32 - 0x1_0000) / 0x400) as u16,
            (0xdc00 + (c as u32 - 0x1_0000) % 0x400) as u16,
        ]
    }
}

/// The UTF-16 code units of a text.
pub open spec fn utf16_units(text: Seq<char>) -> Seq<u16>
    decreases text.len(),
{
    if text.len() == 0 {
        Seq::empty()
    } else {
        utf16_units(text.drop_last()) + char_units(text.last())
    }
}

/// The little-endian UTF-16 bytes of a text.
pub open spec fn utf16le_encoded(text: Seq<char>) -> Seq<u8> {
    le_bytes(utf16_units(text))
}

/// Code units come back from their bytes as they were.
pub proof fn lemma_units_of_their_bytes(units: Seq<u16>)
    ensures
        le_bytes(units).len() == 2 * units.len(),
        le_units(le_bytes(units)) == units,
{
    assert forall|i: int| 0 <= i < units.len() implies #[trigger] le_units(le_bytes(units))[i]
        == units[i] by {
        let unit = units[i];
        assert(le_bytes(units)[2 * i] == low_byte(unit));
        assert(le_bytes(units)[2 * i + 1] == high_byte(unit));
        assert((((unit & 0xff) as u8) as u16) | ((((unit >> 8) as u8) as u16) << 8) == unit)
            by (bit_vector);
    }
    assert(le_units(le_bytes(units)) =~= units);
}

/// Units that spell a text, followed by units that spell another, spell
/// the first text followed by the second.
pub proof fn lemma_text_of_joined_units(first: Seq<u16>, second: Seq<u16>)
    requires
        utf16_text(first) is Some,
        utf16_text(second) is Some,
    ensures
        utf16_text(first + second) == Some(
            utf16_text(first).unwrap() + utf16_text(second).unwrap(),
        ),
    decreases first.len(),
{
    let joined = first + second;
    if first.len() == 0 {
        assert(joined =~= second);
        assert(utf16_text(first).unwrap() + utf16_text(second).unwrap() =~= utf16_text(
            second,
        ).unwrap());
    } else if is_leading_surrogate(first[0]) {
        assert(joined[0] == first[0] && joined[1] == first[1]);
        assert(joined.skip(2) =~= first.skip(2) + second);
        lemma_text_of_joined_units(first.skip(2), second);
        let head = seq![pair_char(first[0], first[1])];
        assert(head + (utf16_text(first.skip(2)).unwrap() + utf16_text(second).unwrap()) =~= (head
            + utf16_text(first.skip(2)).unwrap()) + utf16_text(second).unwrap());
    } else {
        assert(joined[0] == first[0]);
        assert(joined.skip(1) =~= first.skip(1) + second);
        lemma_text_of_joined_units(first.skip(1), second);
        let head = seq![first[0] as char];
        assert(head + (utf16_text(first.skip(1)).unwrap() + utf16_text(second).unwrap()) =~= (head
            + utf16_text(first.skip(1)).unwrap()) + utf16_text(second).unwrap());
    }
}

/// The code units of a character spell that character.
pub proof fn lemma_text_of_char_units(c: char)
    ensures
        utf16_text(char_units(c)) == Some(seq![c]),
{
    let units = char_units(c);
    reveal_with_fuel(utf16_text, 2);
    if (c as u32) < 0x1_0000 {
        assert(units.skip(1) =~= Seq::<u16>::empty());
        assert(seq![units[0] as char] + Seq::<char>::empty() =~= seq![c]);
    } else {
        assert(units.skip(2) =~= Seq::<u16>::empty());
        assert(pair_char(units[0], units[1]) == c);
        assert(seq![pair_char(units[0], units[1])] + Seq::<char>::empty() =~= seq![c]);
    }
}

/// Encoding loses nothing: the code units of a text spell that text.
pub proof fn lemma_text_of_its_units(text: Seq<char>)
    ensures
        utf16_text(utf16_units(text)) == Some(text),
        utf16le_decoded(utf16le_encoded(text)) == Some(text),
    decreases text.len(),
{
    if text.len() > 0 {
        lemma_text_of_its_units(text.drop_last());
        lemma_text_of_char_units(text.last());
        lemma_text_of_joined_units(utf16_units(text.drop_last()), char_units(text.last()));
        assert(text.drop_last() + seq![text.last()] =~= text);
    }
    lemma_units_of_their_bytes(utf16_units(text));
}

/// Decodes little-endian UTF-16 with `utf16string`: `WStr::from_utf16le`
/// checks the bytes and `WStr::to_utf8` collects the characters. The check
/// fails on an odd number of bytes, on a trailing surrogate that follows no
/// leading one, and on a leading surrogate that no trailing one follows;
/// the characters are the units that are no surrogates and one for each
/// surrogate pair.
#[verifier::external_body]
pub(crate) fn decode_utf16le(bytes: &[u8]) -> (text: Option<String>)
    ensures
        text is Some <==> utf16le_decoded(bytes@) is Some,
        text matches Some(t) ==> utf16le_decoded(bytes@) == Some(t@),
{
    match WStr::from_utf16le(bytes) {
        Ok(wide) => Some(wide.to_utf8()),
        Err(_) => None,
    }
}

/// Encodes a text as little-endian UTF-16 with `utf16string`:
/// `WString::<LE>::from` a string slice, handed out by `into_bytes`. Each
/// character gives one code unit, or a surrogate pair from 65536 on, and
/// each unit its low byte and then its high byte.
#[verifier::external_body]
pub(crate) fn encode_utf16le(text: &str) -> (bytes: Vec<u8>)
    ensures
        bytes@ == utf16le_encoded(text@),
{
    WString::<LE>::from(text).into_bytes()
}

/// Appends one character to a text, with `String::push`.
#[verifier::external_body]
pub(crate) fn push_char(text: &mut String, c: char)
    ensures
        final(text)@ == old(text)@.push(c),
{
    text.push(c)
}

/// The bytes of `units`, the low byte of each unit first.
pub fn units_to_le_bytes(units: &[u16]) -> (bytes: Vec<u8>)
    ensures
        bytes@ == le_bytes(units@),
{
    let mut bytes: Vec<u8> = Vec::new();
    let mut i: usize = 0;
    while i < units.len()
        invariant
            i <= units@.len(),
            bytes@.len() == 2 * i,
            forall|k: int|
                0 <= k < 2 * i ==> #[trigger] bytes@[k] == (if k % 2 == 0 {
                    low_byte(units@[k / 2])
                } else {
                    high_byte(units@[k / 2])
                }),
        decreases units@.len() - i,
    {
        let unit: u16 = units[i];
        bytes.push((unit & 0xff) as u8);
        bytes.push((unit >> 8) as u8);
        i += 1;
    }
    assert(bytes@ =~= le_bytes(units@));
    bytes
}

/// The code units of `bytes`, two bytes to a unit, the low one first.
pub fn le_bytes_to_units(bytes: &[u8]) -> (units: Vec<u16>)
    ensures
        units@ == le_units(bytes@),
{
    let mut units: Vec<u16> = Vec::new();
    let len: usize = bytes.len();
    let pairs: usize = len / 2;
    let mut i: usize = 0;
    while i < pairs
        invariant
            i <= pairs,
            len == bytes@.len(),
            pairs == len / 2,
            units@.len() == i,
            forall|k: int|
                0 <= k < i ==> #[trigger] units@[k] == unit_of(bytes@[2 * k], bytes@[2 * k + 1]),
        decreases pairs - i,
    {
        let low: u8 = bytes[2 * i];
        let high: u8 = bytes[2 * i + 1];
        units.push((low as u16) | ((high as u16) << 8));
        i += 1;
    }
    assert(units@ =~= le_units(bytes@));
    units
}

} // verus!
