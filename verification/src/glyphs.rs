//! SMuFL (Bravura) codepoints used by the staff renderer.

use vstd::prelude::*;

verus! {

/// G (treble) clef.
pub const G_CLEF: char = '\u{E050}';
/// F (bass) clef.
pub const F_CLEF: char = '\u{E062}';
/// Time-signature digit 0; digit `d` is `TIME_SIG_0 + d`.
pub const TIME_SIG_0: char = '\u{E080}';
/// Whole notehead.
pub const NOTEHEAD_WHOLE: char = '\u{E0A2}';
/// Half notehead.
pub const NOTEHEAD_HALF: char = '\u{E0A3}';
/// Filled (quarter and shorter) notehead.
pub const NOTEHEAD_BLACK: char = '\u{E0A4}';
/// Flat accidental.
pub const FLAT: char = '\u{E260}';
/// Natural accidental.
pub const NATURAL: char = '\u{E261}';
/// Sharp accidental.
pub const SHARP: char = '\u{E262}';

/// Whether `n` is a Unicode scalar value (a valid `char`).
pub open spec fn is_scalar_value(n: u32) -> bool {
    n <= 0x10FFFF && !(0xD800 <= n <= 0xDFFF)
}

/// Codepoint of the up-stem flag for `count` flags (1 = eighth, 2 = sixteenth, otherwise
/// thirty-second); the down-stem flag is the next codepoint.
pub open spec fn flag_code(count: u8, down: bool) -> u32 {
    let up: u32 = if count == 1 {
        0xE240
    } else if count == 2 {
        0xE242
    } else {
        0xE244
    };
    if down {
        (up + 1) as u32
    } else {
        up
    }
}

/// `char::from_u32`: `Some(c)` with `c as u32 == n` exactly when `n` is a Unicode scalar value,
/// `None` otherwise (as the standard library documents).
#[verifier::external_body]
pub(crate) fn char_from_u32(n: u32) -> (r: Option<char>)
    ensures
        r is Some <==> is_scalar_value(n),
        r matches Some(c) ==> c as u32 == n,
{
    char::from_u32(n)
}

/// The flag glyph for `count` flags on an up (`down == false`) or down stem.
pub fn flag(count: u8, down: bool) -> (c: char)
    ensures
        c as u32 == flag_code(count, down),
{
    if count == 1 {
        if down { '\u{E241}' } else { '\u{E240}' }
    } else if count == 2 {
        if down { '\u{E243}' } else { '\u{E242}' }
    } else {
        if down { '\u{E245}' } else { '\u{E244}' }
    }
}

/// Is `ch` one of the flag glyphs (E240..E245)? Flags are anchored by their true ink box, not
/// the em/advance box, because the flag's ink is a small sliver offset far inside the em box —
/// anchoring by the em box leaves the flag floating off the stem.
pub fn is_flag(ch: char) -> (b: bool)
    ensures
        b == (0xE240 <= ch as u32 <= 0xE245),
{
    let n = ch as u32;
    0xE240 <= n && n <= 0xE245
}

/// Down-stem flags are the odd codepoints (up + 1).
pub fn is_flag_down(ch: char) -> (b: bool)
    ensures
        b == (0xE240 <= ch as u32 <= 0xE245 && ch as u32 % 2 == 1),
{
    let n = ch as u32;
    is_flag(ch) && n % 2 == 1
}

/// Every flag glyph is recognised as a flag, and as a down-stem flag exactly when it was made
/// for a down stem.
pub proof fn lemma_flag_recognised(count: u8, down: bool)
    ensures
        0xE240 <= flag_code(count, down) <= 0xE245,
        (flag_code(count, down) % 2 == 1) == down,
{
}

} // verus!
