//! Notation decisions of the scrolling grand staff: key signatures, accidentals, note values,
//! ottava runs, beaming and grace notes, voice (staff) assignment and measure lookup.
//!
//! Times are integer nanoseconds and durations are compared as exact ratios; pixel geometry is
//! left to the renderer.

use vstd::prelude::*;
use crate::glyphs::{
    char_from_u32, is_scalar_value, FLAT, NOTEHEAD_BLACK, NOTEHEAD_HALF, NOTEHEAD_WHOLE, SHARP,
};
use crate::pitch::{
    degree_of, diatonic_step, is_black_key, pitch_class_degree, spec_diatonic_step,
    spec_is_black_key,
};

verus! {

/// Order in which sharps enter a key signature: F C G D A E B (as diatonic letters, 0 = C).
pub open spec fn sharp_order() -> Seq<i32> {
    seq![3i32, 0, 4, 1, 5, 2, 6]
}

/// Order in which flats enter a key signature: B E A D G C F.
pub open spec fn flat_order() -> Seq<i32> {
    seq![6i32, 2, 5, 1, 4, 0, 3]
}

/// Letters altered by a key signature of `key` sharps (negative: flats).
pub open spec fn spec_key_signature_letters(key: int) -> Seq<i32> {
    if key > 0 {
        sharp_order().take(key)
    } else if key < 0 {
        flat_order().take(-key)
    } else {
        Seq::empty()
    }
}

/// Every letter a key signature alters is a diatonic letter in `0..7`.
pub proof fn lemma_key_signature_letters_range(key: int, i: int)
    requires
        -7 <= key <= 7,
        0 <= i < spec_key_signature_letters(key).len(),
    ensures
        0 <= spec_key_signature_letters(key)[i] < 7,
{
    let s = sharp_order();
    let f = flat_order();
    assert(s[0] == 3 && s[1] == 0 && s[2] == 4 && s[3] == 1 && s[4] == 5 && s[5] == 2 && s[6] == 6);
    assert(f[0] == 6 && f[1] == 2 && f[2] == 5 && f[3] == 1 && f[4] == 4 && f[5] == 0 && f[6] == 3);
}

/// Diatonic letter (0=C .. 6=B) of a MIDI note (sharps share the natural's letter).
pub fn note_letter(midi: u8) -> (l: i32)
    ensures
        l == degree_of(midi as int % 12),
        0 <= l < 7,
{
    pitch_class_degree(midi % 12)
}

/// Letters altered by the key signature (sharps: F C G D A E B ; flats: B E A D G C F).
pub fn key_signature_letters(key: i8) -> (out: Vec<i32>)
    requires
        -7 <= key <= 7,
    ensures
        out@ == spec_key_signature_letters(key as int),
{
    let sharps: Vec<i32> = vec![3, 0, 4, 1, 5, 2, 6];
    let flats: Vec<i32> = vec![6, 2, 5, 1, 4, 0, 3];
    assert(sharps@ == sharp_order());
    assert(flats@ == flat_order());
    let (order, count) = if key > 0 {
        (sharps, key as usize)
    } else if key < 0 {
        (flats, (-key) as usize)
    } else {
        (sharps, 0usize)
    };
    let mut out: Vec<i32> = Vec::new();
    let mut i: usize = 0;
    while i < count
        invariant
            count <= 7,
            order@.len() == 7,
            i <= count,
            out@ == order@.take(i as int),
        decreases count - i,
    {
        out.push(order[i]);
        i = i + 1;
        assert(out@ =~= order@.take(i as int));
    }
    assert(out@ =~= spec_key_signature_letters(key as int));
    out
}

/// The step `k` octaves above `letter` (below it for negative `k`).
pub open spec fn step_with_letter(letter: int, k: int) -> int {
    letter + 7 * k
}

/// The step with the same letter as `letter` nearest to `center`: the distance is rounded to a
/// whole number of octaves, and since a seventh never ends in a half the rounding never ties.
pub open spec fn spec_nearest_step(letter: int, center: int) -> int {
    step_with_letter(letter, (center - letter + 3) / 7)
}

/// Nearest diatonic step that equals `letter` (mod 7) to `center`: the unique step with that
/// letter within three steps of `center`, nearer than every other step with that letter.
pub fn nearest_step(letter: i32, center: i32) -> (s: i32)
    requires
        -0x100_0000 < center - letter < 0x100_0000,
        i32::MIN <= spec_nearest_step(letter as int, center as int) <= i32::MAX,
    ensures
        s == spec_nearest_step(letter as int, center as int),
        (s - letter) % 7 == 0,
        -3 <= s - center <= 3,
        forall|k: int| #![trigger step_with_letter(letter as int, k)]
            step_with_letter(letter as int, k) != s ==> {
                let m = step_with_letter(letter as int, k);
                &&& m - center > 3 || m - center < -3
            },
{
    let n: i64 = center as i64 - letter as i64 + 3;
    let k: i64 = if n >= 0 {
        n / 7
    } else {
        -((-n + 6) / 7)
    };
    proof {
        let ni = n as int;
        vstd::arithmetic::div_mod::lemma_fundamental_div_mod(ni, 7);
        if n < 0 {
            let m = -ni + 6;
            vstd::arithmetic::div_mod::lemma_fundamental_div_mod(m, 7);
            vstd::arithmetic::div_mod::lemma_fundamental_div_mod_converse(ni, 7, -(m / 7), 6 - m % 7);
        }
        assert(k == ni / 7);
        assert forall|j: int| #![trigger step_with_letter(letter as int, j)]
            step_with_letter(letter as int, j) != step_with_letter(letter as int, k as int) implies {
                let m = step_with_letter(letter as int, j);
                &&& m - center > 3 || m - center < -3
            } by {
            if j > k {
                assert(7 * j >= 7 * k + 7);
            } else {
                assert(7 * j <= 7 * k - 7);
            }
        }
    }
    (letter as i64 + 7 * k) as i32
}

/// Ottava bracket label for a run: above the staff (high) → 8va / 15ma, below (low) → 8vb / 15mb.
pub fn ottava_label(high: bool, shift: u8) -> (l: &'static str)
    ensures
        high && shift == 1 ==> l@ == "8va"@,
        high && shift != 1 ==> l@ == "15ma"@,
        !high && shift == 1 ==> l@ == "8vb"@,
        !high && shift != 1 ==> l@ == "15mb"@,
{
    match (high, shift) {
        (true, 1) => "8va",
        (true, _) => "15ma",
        (false, 1) => "8vb",
        (false, _) => "15mb",
    }
}

/// Note value of a duration of `duration / quarter` beats: (notehead, has stem, flag count).
/// Whole from 3 beats, half from 1.5, quarter from 0.75, eighth from 0.375, sixteenth from
/// 0.1875, thirty-second below that.
pub open spec fn note_value(duration: int, quarter: int) -> (char, bool, u8) {
    if duration >= 3 * quarter {
        (NOTEHEAD_WHOLE, false, 0)
    } else if 2 * duration >= 3 * quarter {
        (NOTEHEAD_HALF, true, 0)
    } else if 4 * duration >= 3 * quarter {
        (NOTEHEAD_BLACK, true, 0)
    } else if 8 * duration >= 3 * quarter {
        (NOTEHEAD_BLACK, true, 1)
    } else if 16 * duration >= 3 * quarter {
        (NOTEHEAD_BLACK, true, 2)
    } else {
        (NOTEHEAD_BLACK, true, 3)
    }
}

fn classify_ratio(num: u128, den: u128) -> (r: (char, bool, u8))
    requires
        num < 0x1_0000_0000_0000_0000_0000_0000,
        den < 0x1_0000_0000_0000_0000_0000_0000,
    ensures
        r == note_value(num as int, den as int),
{
    if num >= 3 * den {
        (NOTEHEAD_WHOLE, false, 0)
    } else if 2 * num >= 3 * den {
        (NOTEHEAD_HALF, true, 0)
    } else if 4 * num >= 3 * den {
        (NOTEHEAD_BLACK, true, 0)
    } else if 8 * num >= 3 * den {
        (NOTEHEAD_BLACK, true, 1)
    } else if 16 * num >= 3 * den {
        (NOTEHEAD_BLACK, true, 2)
    } else {
        (NOTEHEAD_BLACK, true, 3)
    }
}

/// Classify a note by its duration in beats (`duration / quarter`, both in the same time unit,
/// the quarter positive) -> (notehead glyph, has stem, flag count).
pub fn classify(duration: u64, quarter: u64) -> (r: (char, bool, u8))
    requires
        quarter > 0,
    ensures
        r == note_value(duration as int, quarter as int),
{
    classify_ratio(duration as u128, quarter as u128)
}

/// Note value of a duration within a measure of `measure_len` (four quarters): the duration is
/// `4 * duration / measure_len` beats.
pub fn classify_in_measure(duration: u64, measure_len: u64) -> (r: (char, bool, u8))
    requires
        measure_len > 0,
    ensures
        r == note_value(4 * duration, measure_len as int),
{
    classify_ratio(4 * (duration as u128), measure_len as u128)
}

/// Accidental drawn before a note under key signature `key`: a black key whose letter the key
/// signature does not already alter gets a sharp (sharp or neutral keys) or a flat (flat keys).
pub open spec fn spec_accidental(midi: int, key: int) -> Option<char> {
    if spec_is_black_key(midi) && !spec_key_signature_letters(key).contains(
        degree_of(midi % 12) as i32,
    ) {
        Some(if key >= 0 { SHARP } else { FLAT })
    } else {
        None
    }
}

/// Accidentals against the key signature, over every key and note: a white key never gets
/// one. A black key (pitch class 1, 3, 6, 8 or 10, sharing the letter of the white key below
/// it) gets none when its letter is any one of the letters the key signature alters — the first
/// `key` of F C G D A E B for sharp keys, the first `-key` of B E A D G C F for flat keys — and
/// otherwise a sharp in a sharp or neutral key and a flat in a flat key.
pub proof fn lemma_accidental_against_key(midi: nat, key: int)
    requires
        -7 <= key <= 7,
    ensures
        ({
            let pc = midi % 12;
            let black = pc == 1 || pc == 3 || pc == 6 || pc == 8 || pc == 10;
            let letter: int = if pc <= 1 { 0 } else if pc <= 3 { 1 } else if pc <= 6 { 3 } else if pc <= 8 { 4 } else { 5 };
            let sharps: Seq<int> = seq![3, 0, 4, 1, 5, 2, 6];
            let flats: Seq<int> = seq![6, 2, 5, 1, 4, 0, 3];
            let altered = (key > 0 && exists|j: int| 0 <= j < key && sharps[j] == letter)
                || (key < 0 && exists|j: int| 0 <= j < -key && flats[j] == letter);
            &&& !black ==> spec_accidental(midi as int, key) is None
            &&& black && altered ==> spec_accidental(midi as int, key) is None
            &&& black && !altered && key >= 0 ==> spec_accidental(midi as int, key) == Some(SHARP)
            &&& black && !altered && key < 0 ==> spec_accidental(midi as int, key) == Some(FLAT)
        }),
{
    let pc = midi % 12;
    let letter: int = if pc <= 1 { 0 } else if pc <= 3 { 1 } else if pc <= 6 { 3 } else if pc <= 8 { 4 } else { 5 };
    let sharps: Seq<int> = seq![3, 0, 4, 1, 5, 2, 6];
    let flats: Seq<int> = seq![6, 2, 5, 1, 4, 0, 3];
    let letters = spec_key_signature_letters(key);
    let so = sharp_order();
    let fo = flat_order();
    assert(so[0] == 3 && so[1] == 0 && so[2] == 4 && so[3] == 1 && so[4] == 5 && so[5] == 2 && so[6] == 6);
    assert(fo[0] == 6 && fo[1] == 2 && fo[2] == 5 && fo[3] == 1 && fo[4] == 4 && fo[5] == 0 && fo[6] == 3);
    if pc == 1 || pc == 3 || pc == 6 || pc == 8 || pc == 10 {
        assert(degree_of(midi as int % 12) == letter);
        if key > 0 {
            assert forall|j: int| 0 <= j < key implies (letters[j] as int == letter <==> sharps[j] == letter) by {
                assert(letters[j] == so[j]);
            }
            if letters.contains(letter as i32) {
                let j = choose|j: int| 0 <= j < letters.len() && letters[j] == letter as i32;
                assert(sharps[j] == letter);
            }
            if exists|j: int| 0 <= j < key && sharps[j] == letter {
                let j = choose|j: int| 0 <= j < key && sharps[j] == letter;
                assert(letters[j] == letter as i32);
                assert(letters.contains(letter as i32));
            }
        } else if key < 0 {
            assert forall|j: int| 0 <= j < -key implies (letters[j] as int == letter <==> flats[j] == letter) by {
                assert(letters[j] == fo[j]);
            }
            if letters.contains(letter as i32) {
                let j = choose|j: int| 0 <= j < letters.len() && letters[j] == letter as i32;
                assert(flats[j] == letter);
            }
            if exists|j: int| 0 <= j < -key && flats[j] == letter {
                let j = choose|j: int| 0 <= j < -key && flats[j] == letter;
                assert(letters[j] == letter as i32);
                assert(letters.contains(letter as i32));
            }
        } else {
            assert(letters.len() == 0);
            assert(!letters.contains(letter as i32));
        }
    }
}

/// The accidental glyph to draw before `midi` under key signature `key`, if any.
pub fn accidental(midi: u8, key: i8) -> (a: Option<char>)
    requires
        -7 <= key <= 7,
    ensures
        a == spec_accidental(midi as int, key as int),
{
    if !is_black_key(midi) {
        return None;
    }
    let letters = key_signature_letters(key);
    let letter = note_letter(midi);
    let mut found = false;
    let mut i: usize = 0;
    while i < letters.len()
        invariant
            i <= letters@.len(),
            found <==> exists|j: int| 0 <= j < i && letters@[j] == letter,
        decreases letters@.len() - i,
    {
        if letters[i] == letter {
            found = true;
        }
        i = i + 1;
    }
    if found {
        assert(letters@.contains(letter));
        None
    } else {
        Some(
            if key >= 0 {
                SHARP
            } else {
                FLAT
            },
        )
    }
}

/// Staff steps of the key-signature accidentals on one staff: each altered letter is placed on
/// its step nearest to B4 (treble) or D3 (bass).
pub open spec fn key_signature_center(treble: bool) -> int {
    spec_diatonic_step(if treble { 71 } else { 50 })
}

/// Staff steps at which the key signature's accidentals are drawn on the treble or bass staff,
/// in key-signature order.
pub fn key_signature_steps(key: i8, treble: bool) -> (out: Vec<i32>)
    requires
        -7 <= key <= 7,
    ensures
        out@.len() == spec_key_signature_letters(key as int).len(),
        forall|i: int|
            0 <= i < out@.len() ==> {
                let letter = spec_key_signature_letters(key as int)[i];
                &&& (#[trigger] out@[i] - letter) % 7 == 0
                &&& -3 <= out@[i] - key_signature_center(treble) <= 3
            },
{
    let center = diatonic_step(if treble { 71 } else { 50 });
    let letters = key_signature_letters(key);
    let mut out: Vec<i32> = Vec::new();
    let mut i: usize = 0;
    while i < letters.len()
        invariant
            i <= letters@.len(),
            -7 <= key <= 7,
            letters@ == spec_key_signature_letters(key as int),
            center == key_signature_center(treble),
            out@.len() == i,
            forall|j: int|
                0 <= j < i ==> {
                    &&& (#[trigger] out@[j] - letters@[j]) % 7 == 0
                    &&& -3 <= out@[j] - center <= 3
                },
        decreases letters@.len() - i,
    {
        proof {
            lemma_key_signature_letters_range(key as int, i as int);
        }
        out.push(nearest_step(letters[i], center));
        i = i + 1;
    }
    out
}

/// Time-signature digit glyph for `digit` (the SMuFL digits follow `TIME_SIG_0`).
pub fn time_signature_glyph(digit: u8) -> (c: char)
    ensures
        c as u32 == 0xE080 + digit as u32,
{
    let n = 0xE080u32 + digit as u32;
    assert(is_scalar_value(n));
    match char_from_u32(n) {
        Some(c) => c,
        None => NOTEHEAD_BLACK,
    }
}

} // verus!
