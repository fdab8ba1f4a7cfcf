//! Decoding of the file names stored in a central directory.

use vstd::prelude::*;
use vstd::utf8::{decode_utf8, valid_utf8};

verus! {

/// The characters that code page 437 gives to the bytes 0x80 to 0xFF, in order.
pub const CP437_UPPER: &'static str = "\u{C7}\u{FC}\u{E9}\u{E2}\u{E4}\u{E0}\u{E5}\u{E7}\u{EA}\u{EB}\u{E8}\u{EF}\u{EE}\u{EC}\u{C4}\u{C5}\u{C9}\u{E6}\u{C6}\u{F4}\u{F6}\u{F2}\u{FB}\u{F9}\u{FF}\u{D6}\u{DC}\u{A2}\u{A3}\u{A5}\u{20A7}\u{192}\u{E1}\u{ED}\u{F3}\u{FA}\u{F1}\u{D1}\u{AA}\u{BA}\u{BF}\u{2310}\u{AC}\u{BD}\u{BC}\u{A1}\u{AB}\u{BB}\u{2591}\u{2592}\u{2593}\u{2502}\u{2524}\u{2561}\u{2562}\u{2556}\u{2555}\u{2563}\u{2551}\u{2557}\u{255D}\u{255C}\u{255B}\u{2510}\u{2514}\u{2534}\u{252C}\u{251C}\u{2500}\u{253C}\u{255E}\u{255F}\u{255A}\u{2554}\u{2569}\u{2566}\u{2560}\u{2550}\u{256C}\u{2567}\u{2568}\u{2564}\u{2565}\u{2559}\u{2558}\u{2552}\u{2553}\u{256B}\u{256A}\u{2518}\u{250C}\u{2588}\u{2584}\u{258C}\u{2590}\u{2580}\u{3B1}\u{DF}\u{393}\u{3C0}\u{3A3}\u{3C3}\u{B5}\u{3C4}\u{3A6}\u{398}\u{3A9}\u{3B4}\u{221E}\u{3C6}\u{3B5}\u{2229}\u{2261}\u{B1}\u{2265}\u{2264}\u{2320}\u{2321}\u{F7}\u{2248}\u{B0}\u{2219}\u{B7}\u{221A}\u{207F}\u{B2}\u{25A0}\u{A0}";

/// The character that code page 437 gives to `b`; the lower half is ASCII.
pub open spec fn cp437_char(b: u8) -> char {
    if b < 128 {
        b as char
    } else {
        CP437_UPPER@[b - 128]
    }
}

/// `raw` read as code page 437, one character per byte.
pub open spec fn cp437_of(raw: Seq<u8>) -> Seq<char> {
    raw.map_values(|b: u8| cp437_char(b))
}

/// What `String::from_utf8_lossy` makes of `raw`.
pub uninterp spec fn utf8_lossy_of(raw: Seq<u8>) -> Seq<char>;

/// A stored file name as text: UTF-8 where the entry's flags say so, with invalid
/// sequences replaced, else code page 437.
pub open spec fn decoded_name(raw: Seq<u8>, utf8: bool) -> Seq<char> {
    if utf8 {
        if valid_utf8(raw) {
            decode_utf8(raw)
        } else {
            utf8_lossy_of(raw)
        }
    } else {
        cp437_of(raw)
    }
}

/// Whether general purpose flags mark the name as UTF-8 (bit 11).
pub open spec fn spec_is_utf8_flag(flags: u16) -> bool {
    (flags / 2048) % 2 == 1
}

/// Whether general purpose flags mark the name as UTF-8 (bit 11).
pub fn is_utf8_flag(flags: u16) -> (r: bool)
    ensures
        r == spec_is_utf8_flag(flags),
{
    (flags / 2048) % 2 == 1
}

/// The code page 437 character of one byte.
pub fn cp437_decode_byte(b: u8) -> (c: char)
    ensures
        c == cp437_char(b),
{
    if b < 128 {
        b as char
    } else {
        proof {
            reveal_strlit("\u{C7}\u{FC}\u{E9}\u{E2}\u{E4}\u{E0}\u{E5}\u{E7}\u{EA}\u{EB}\u{E8}\u{EF}\u{EE}\u{EC}\u{C4}\u{C5}\u{C9}\u{E6}\u{C6}\u{F4}\u{F6}\u{F2}\u{FB}\u{F9}\u{FF}\u{D6}\u{DC}\u{A2}\u{A3}\u{A5}\u{20A7}\u{192}\u{E1}\u{ED}\u{F3}\u{FA}\u{F1}\u{D1}\u{AA}\u{BA}\u{BF}\u{2310}\u{AC}\u{BD}\u{BC}\u{A1}\u{AB}\u{BB}\u{2591}\u{2592}\u{2593}\u{2502}\u{2524}\u{2561}\u{2562}\u{2556}\u{2555}\u{2563}\u{2551}\u{2557}\u{255D}\u{255C}\u{255B}\u{2510}\u{2514}\u{2534}\u{252C}\u{251C}\u{2500}\u{253C}\u{255E}\u{255F}\u{255A}\u{2554}\u{2569}\u{2566}\u{2560}\u{2550}\u{256C}\u{2567}\u{2568}\u{2564}\u{2565}\u{2559}\u{2558}\u{2552}\u{2553}\u{256B}\u{256A}\u{2518}\u{250C}\u{2588}\u{2584}\u{258C}\u{2590}\u{2580}\u{3B1}\u{DF}\u{393}\u{3C0}\u{3A3}\u{3C3}\u{B5}\u{3C4}\u{3A6}\u{398}\u{3A9}\u{3B4}\u{221E}\u{3C6}\u{3B5}\u{2229}\u{2261}\u{B1}\u{2265}\u{2264}\u{2320}\u{2321}\u{F7}\u{2248}\u{B0}\u{2219}\u{B7}\u{221A}\u{207F}\u{B2}\u{25A0}\u{A0}");
        }
        CP437_UPPER.get_char((b - 128) as usize)
    }
}

/// Relies on `String::from_utf8_lossy`: the result depends on the bytes alone, and valid
/// UTF-8 is decoded as it stands.
#[verifier::external_body]
fn utf8_lossy(raw: &[u8]) -> (r: String)
    ensures
        r@ == utf8_lossy_of(raw@),
        valid_utf8(raw@) ==> r@ == decode_utf8(raw@),
{
    String::from_utf8_lossy(raw).into_owned()
}

/// Relies on `String`'s `FromIterator<char>`: the string holds the characters in order.
#[verifier::external_body]
pub(crate) fn string_of_chars(chars: Vec<char>) -> (r: String)
    ensures
        r@ == chars@,
{
    String::from_iter(chars)
}

/// Decodes a stored file name; invalid sequences become replacement characters.
pub fn decode_name(raw: &[u8], utf8: bool) -> (r: String)
    ensures
        r@ == decoded_name(raw@, utf8),
{
    if utf8 {
        utf8_lossy(raw)
    } else {
        let mut chars: Vec<char> = Vec::new();
        let mut i: usize = 0;
        while i < raw.len()
            invariant
                i <= raw@.len(),
                chars@ == cp437_of(raw@.subrange(0, i as int)),
            decreases raw@.len() - i,
        {
            chars.push(cp437_decode_byte(raw[i]));
            i += 1;
            assert(cp437_of(raw@.subrange(0, i as int)) =~= cp437_of(raw@.subrange(0, i - 1 as int)).push(cp437_char(raw@[i - 1])));
        }
        assert(raw@.subrange(0, raw@.len() as int) =~= raw@);
        string_of_chars(chars)
    }
}

} // verus!
