//! The engraving rules of the subset, in staff units: where a pitch sits on
//! its staff, which glyphs an event takes, stem direction, ledger lines,
//! accidentals against the key signature, beaming of eighth pairs, tie
//! links, the onset columns of a measure and the breaking of measures into
//! systems. Horizontal lengths are in hundredths of a staff space
//! ("centi-spaces"); vertical staff positions are in half-spaces (diatonic
//! steps). Turning these into pixels is the caller's affair.

use vstd::prelude::*;

use crate::score::{Clef, Duration, Note, NoteView, Pitch};
use crate::smufl;

pub mod columns;
pub mod grouping;

verus! {

/// What an element is (feedback code keys off this).
#[derive(Debug, Clone, Copy, PartialEq, Eq, Structural)]
pub enum ElementKind {
    StaffLine,
    LedgerLine,
    Barline,
    Brace,
    Clef,
    KeySignature,
    TimeSignature,
    Notehead,
    Stem,
    Flag,
    Beam,
    Dot,
    Accidental,
    Rest,
    Tie,
}

// ---------------------------------------------------------------------
// Key signatures
// ---------------------------------------------------------------------

/// Position of a step letter (C = 0 ... B = 6) in the order sharps enter a
/// key signature: F C G D A E B.
pub open spec fn sharp_rank(step: int) -> int {
    if step == 3 {
        0
    } else if step == 0 {
        1
    } else if step == 4 {
        2
    } else if step == 1 {
        3
    } else if step == 5 {
        4
    } else if step == 2 {
        5
    } else if step == 6 {
        6
    } else {
        7
    }
}

/// Position of a step letter in the order flats enter a key signature:
/// B E A D G C F.
pub open spec fn flat_rank(step: int) -> int {
    if step == 6 {
        0
    } else if step == 2 {
        1
    } else if step == 5 {
        2
    } else if step == 1 {
        3
    } else if step == 4 {
        4
    } else if step == 0 {
        5
    } else if step == 3 {
        6
    } else {
        7
    }
}

/// The alteration a key signature of `fifths` gives a step letter: +1 for
/// the first `fifths` letters of the sharp order, -1 for the first
/// `-fifths` letters of the flat order, 0 otherwise.
pub open spec fn spec_key_alteration(step: int, fifths: int) -> int {
    if 0 <= step <= 6 && fifths > 0 && sharp_rank(step) < fifths {
        1
    } else if 0 <= step <= 6 && fifths < 0 && flat_rank(step) < -fifths {
        -1
    } else {
        0
    }
}

/// Key-signature alteration for a step letter (sharp order F C G D A E B).
pub fn key_alteration(step: u8, fifths: i32) -> (r: i32)
    requires
        fifths > i32::MIN,
    ensures
        r == spec_key_alteration(step as int, fifths as int),
{
    let sharp_order: [u8; 7] = [3, 0, 4, 1, 5, 2, 6];
    let flat_order: [u8; 7] = [6, 2, 5, 1, 4, 0, 3];
    if fifths > 0 {
        let n: usize = if fifths > 7 {
            7
        } else {
            fifths as usize
        };
        let mut k: usize = 0;
        while k < n
            invariant
                n <= 7,
                n <= fifths,
                k <= n,
                sharp_order@ == seq![3u8, 0, 4, 1, 5, 2, 6],
                forall|j: int| 0 <= j < k ==> sharp_order@[j] != step,
            decreases n - k,
        {
            if sharp_order[k] == step {
                return 1;
            }
            k = k + 1;
        }
        assert(sharp_rank(step as int) >= n) by {
            if sharp_rank(step as int) < n {
                assert(sharp_order@[sharp_rank(step as int)] == step);
            }
        }
        return 0;
    }
    if fifths < 0 {
        let n: usize = if fifths < -7 {
            7
        } else {
            (-fifths) as usize
        };
        let mut k: usize = 0;
        while k < n
            invariant
                n <= 7,
                n <= -fifths,
                k <= n,
                flat_order@ == seq![6u8, 2, 5, 1, 4, 0, 3],
                forall|j: int| 0 <= j < k ==> flat_order@[j] != step,
            decreases n - k,
        {
            if flat_order[k] == step {
                return -1;
            }
            k = k + 1;
        }
        assert(flat_rank(step as int) >= n) by {
            if flat_rank(step as int) < n {
                assert(flat_order@[flat_rank(step as int)] == step);
            }
        }
        return 0;
    }
    0
}

/// The signature columns of one clef: for each accidental in signature
/// order, its step letter and its staff position in half-spaces below the
/// top line.
pub open spec fn spec_signature_positions(clef: Clef, sharp: bool) -> Seq<(u8, i32)> {
    match (clef, sharp) {
        (Clef::Treble, true) => seq![(3u8, 0i32), (0u8, 3i32), (4u8, -1i32), (1u8, 2i32), (5u8, 5i32), (2u8, 1i32), (6u8, 4i32)],
        (Clef::Bass, true) => seq![(3u8, 2i32), (0u8, 5i32), (4u8, 1i32), (1u8, 4i32), (5u8, 7i32), (2u8, 3i32), (6u8, 6i32)],
        (Clef::Treble, false) => seq![(6u8, 4i32), (2u8, 1i32), (5u8, 5i32), (1u8, 2i32), (4u8, 6i32), (0u8, 3i32), (3u8, 7i32)],
        (Clef::Bass, false) => seq![(6u8, 6i32), (2u8, 3i32), (5u8, 7i32), (1u8, 4i32), (4u8, 8i32), (0u8, 5i32), (3u8, 9i32)],
    }
}

/// Per-key accidental columns: (letter step 0=C ... 6=B, half-spaces below
/// the top line) for sharps and flats in signature order, per clef.
pub fn signature_positions(clef: Clef, sharp: bool) -> (r: [(u8, i32); 7])
    ensures
        r@ == spec_signature_positions(clef, sharp),
{
    let r = match (clef, sharp) {
        (Clef::Treble, true) => [(3, 0), (0, 3), (4, -1), (1, 2), (5, 5), (2, 1), (6, 4)],
        (Clef::Bass, true) => [(3, 2), (0, 5), (4, 1), (1, 4), (5, 7), (2, 3), (6, 6)],
        (Clef::Treble, false) => [(6, 4), (2, 1), (5, 5), (1, 2), (4, 6), (0, 3), (3, 7)],
        (Clef::Bass, false) => [(6, 6), (2, 3), (5, 7), (1, 4), (4, 8), (0, 5), (3, 9)],
    };
    assert(r@ =~= spec_signature_positions(clef, sharp));
    r
}

/// The glyph of a key signature: sharps for positive `fifths`, flats otherwise.
pub fn key_signature_glyph(fifths: i32) -> (c: char)
    ensures
        c == (if fifths > 0 {
            smufl::ACCIDENTAL_SHARP
        } else {
            smufl::ACCIDENTAL_FLAT
        }),
{
    if fifths > 0 {
        smufl::ACCIDENTAL_SHARP
    } else {
        smufl::ACCIDENTAL_FLAT
    }
}

/// The number of accidentals a key signature shows: `|fifths|`.
pub fn key_signature_count(fifths: i32) -> (n: u32)
    ensures
        n == (if fifths >= 0 {
            fifths as int
        } else {
            -(fifths as int)
        }),
{
    if fifths >= 0 {
        fifths as u32
    } else {
        ((-(fifths as i64)) as u64) as u32
    }
}

/// The decimal digits of `n`, most significant first.
pub open spec fn decimal_digits(n: u32) -> Seq<u32>
    decreases n,
{
    if n < 10 {
        seq![n]
    } else {
        decimal_digits(n / 10).push(n % 10)
    }
}

/// The number the numerator of a time signature shows: the meter's beats;
/// a negative count, which names no meter, shows as 9.
pub open spec fn numerator_value(beats: i32) -> u32 {
    if beats >= 0 {
        beats as u32
    } else {
        9
    }
}

/// The digits of the numerator of a meter of `beats` beats, in order.
pub open spec fn numerator_digits(beats: i32) -> Seq<u32> {
    decimal_digits(numerator_value(beats))
}

/// A number has one to ten decimal digits, each 0 ... 9.
pub proof fn lemma_decimal_digits(n: u32)
    ensures
        1 <= decimal_digits(n).len() <= 10,
        forall|k: int| 0 <= k < decimal_digits(n).len() ==> #[trigger] decimal_digits(n)[k] <= 9,
        n < 10 <==> decimal_digits(n).len() == 1,
    decreases n,
{
    if n >= 10 {
        lemma_decimal_digits(n / 10);
        lemma_digits_bound(n / 10);
        let d = decimal_digits(n);
        assert forall|k: int| 0 <= k < d.len() implies #[trigger] d[k] <= 9 by {
            if k < d.len() - 1 {
                assert(d[k] == decimal_digits(n / 10)[k]);
            }
        }
    }
}

pub(crate) proof fn lemma_digits_bound(n: u32)
    ensures
        n < 1_000_000_000 ==> decimal_digits(n).len() <= 9,
        n < 100_000_000 ==> decimal_digits(n).len() <= 8,
        n < 10_000_000 ==> decimal_digits(n).len() <= 7,
        n < 1_000_000 ==> decimal_digits(n).len() <= 6,
        n < 100_000 ==> decimal_digits(n).len() <= 5,
        n < 10_000 ==> decimal_digits(n).len() <= 4,
        n < 1_000 ==> decimal_digits(n).len() <= 3,
        n < 100 ==> decimal_digits(n).len() <= 2,
        decimal_digits(n).len() <= 10,
    decreases n,
{
    if n >= 10 {
        lemma_digits_bound(n / 10);
    }
}

/// The decimal digits of `n`, most significant first.
pub fn digits_of(n: u32) -> (d: Vec<u32>)
    ensures
        d@ == decimal_digits(n),
    decreases n,
{
    if n < 10 {
        vec![n]
    } else {
        let mut d = digits_of(n / 10);
        d.push(n % 10);
        d
    }
}

/// The digits a time signature's numerator shows for a meter of `beats`
/// beats: those of the count, or 9 for a negative count.
pub fn time_signature_digits(beats: i32) -> (d: Vec<u32>)
    ensures
        d@ == numerator_digits(beats),
{
    if beats >= 0 {
        digits_of(beats as u32)
    } else {
        digits_of(9)
    }
}

// ---------------------------------------------------------------------
// Staff positions
// ---------------------------------------------------------------------

/// The diatonic index (C-1 = 0) of each clef's bottom-line pitch: E4 on
/// the treble staff, G2 on the bass staff.
pub open spec fn bottom_line_index(clef: Clef) -> int {
    match clef {
        Clef::Treble => 37,
        Clef::Bass => 25,
    }
}

/// Half-spaces above the bottom line at which a pitch sits on a staff.
pub open spec fn spec_staff_step(pitch: Pitch, clef: Clef) -> int {
    pitch.spec_diatonic_index() - bottom_line_index(clef)
}

/// Half-spaces above the bottom line at which `pitch` sits on a staff of
/// `clef` (the bottom line is 0, the top line 8).
pub fn staff_step(pitch: Pitch, clef: Clef) -> (s: i64)
    ensures
        s == spec_staff_step(pitch, clef),
{
    let index = (pitch.octave as i64 + 1) * 7 + pitch.step as i64;
    match clef {
        Clef::Treble => index - 37,
        Clef::Bass => index - 25,
    }
}

/// Ledger lines above the staff for a note at `step`: one for each line
/// position from the first above the staff up to the note.
pub open spec fn spec_ledger_above(step: int) -> int {
    if step >= 10 {
        (step - 8) / 2
    } else {
        0
    }
}

/// Ledger lines below the staff for a note at `step`.
pub open spec fn spec_ledger_below(step: int) -> int {
    if step <= -2 {
        (-step) / 2
    } else {
        0
    }
}

/// Whether ledger line `k` above the staff (k = 1 is the first line above
/// the top line) reaches a note at `step`: the line lies more than a
/// quarter space below the note's centre.
pub open spec fn ledger_line_above(step: int, k: int) -> bool {
    4 * k < 2 * step - 15
}

/// Whether ledger line `k` below the staff reaches a note at `step`: the
/// line lies more than a quarter space above the note's centre.
pub open spec fn ledger_line_below(step: int, k: int) -> bool {
    4 * k < 1 - 2 * step
}

/// The ledger lines a note at `step` needs: `(above, below)` the staff.
/// Line `k` above (k >= 1) is drawn when it lies more than a quarter space
/// below the note's centre line; symmetrically below.
pub fn ledger_lines(step: i64) -> (r: (u64, u64))
    ensures
        r.0 == spec_ledger_above(step as int),
        r.1 == spec_ledger_below(step as int),
        forall|k: int| 1 <= k ==> (k <= r.0 <==> #[trigger] ledger_line_above(step as int, k)),
        forall|k: int| 1 <= k ==> (k <= r.1 <==> #[trigger] ledger_line_below(step as int, k)),
{
    let above: u64 = if step >= 10 {
        ((step - 8) / 2) as u64
    } else {
        0
    };
    let below: u64 = if step <= -2 {
        ((-(step as i128)) / 2) as u64
    } else {
        0
    };
    proof {
        above_below_facts(step as int);
    }
    (above, below)
}

pub(crate) proof fn above_below_facts(step: int)
    ensures
        forall|k: int| 1 <= k ==> (k <= spec_ledger_above(step) <==> #[trigger] ledger_line_above(step, k)),
        forall|k: int| 1 <= k ==> (k <= spec_ledger_below(step) <==> #[trigger] ledger_line_below(step, k)),
{
}

// ---------------------------------------------------------------------
// Glyph choices
// ---------------------------------------------------------------------

/// The notehead of a duration: whole, half or black.
pub open spec fn spec_notehead(d: Duration) -> char {
    if d.base_units == 8 {
        smufl::NOTEHEAD_WHOLE
    } else if d.base_units == 4 {
        smufl::NOTEHEAD_HALF
    } else {
        smufl::NOTEHEAD_BLACK
    }
}

/// Notehead glyph for a duration.
pub fn notehead_glyph(d: Duration) -> (c: char)
    ensures
        c == spec_notehead(d),
{
    match d.base_units {
        8 => smufl::NOTEHEAD_WHOLE,
        4 => smufl::NOTEHEAD_HALF,
        _ => smufl::NOTEHEAD_BLACK,
    }
}

/// The rest glyph of a duration.
pub open spec fn spec_rest_glyph(d: Duration) -> char {
    if d.base_units == 1 {
        smufl::REST_8TH
    } else if d.base_units == 2 {
        smufl::REST_QUARTER
    } else if d.base_units == 4 {
        smufl::REST_HALF
    } else {
        smufl::REST_WHOLE
    }
}

/// Rest glyph for a duration, and the staff line (from the top) it hangs
/// on: whole rests under the second line, others on the middle line.
pub fn rest_glyph(d: Duration) -> (r: (char, u8))
    ensures
        r.0 == spec_rest_glyph(d),
        r.1 == (if spec_rest_glyph(d) == smufl::REST_WHOLE {
            1u8
        } else {
            2u8
        }),
{
    let ch = match d.base_units {
        1 => smufl::REST_8TH,
        2 => smufl::REST_QUARTER,
        4 => smufl::REST_HALF,
        _ => smufl::REST_WHOLE,
    };
    let line: u8 = if ch == smufl::REST_WHOLE {
        1
    } else {
        2
    };
    (ch, line)
}

/// Advance width of a SMuFL glyph in centi-spaces (notehead-class glyphs
/// advance about 1.18 staff spaces; clefs and rests wider).
pub open spec fn spec_glyph_width(ch: char) -> int {
    if ch == smufl::NOTEHEAD_WHOLE {
        170
    } else if ch == smufl::NOTEHEAD_HALF || ch == smufl::NOTEHEAD_BLACK {
        118
    } else if ch == smufl::G_CLEF || ch == smufl::F_CLEF {
        260
    } else if ch == smufl::ACCIDENTAL_SHARP {
        100
    } else if ch == smufl::ACCIDENTAL_FLAT {
        90
    } else if ch == smufl::ACCIDENTAL_NATURAL {
        70
    } else if ch == smufl::REST_WHOLE || ch == smufl::REST_HALF {
        130
    } else if ch == smufl::REST_QUARTER {
        110
    } else if ch == smufl::REST_8TH {
        100
    } else if ch == smufl::AUGMENTATION_DOT {
        40
    } else {
        180
    }
}

/// Advance width of a SMuFL glyph, in centi-spaces.
pub fn glyph_width(ch: char) -> (w: u32)
    ensures
        w == spec_glyph_width(ch),
{
    if ch == smufl::NOTEHEAD_WHOLE {
        170
    } else if ch == smufl::NOTEHEAD_HALF || ch == smufl::NOTEHEAD_BLACK {
        118
    } else if ch == smufl::G_CLEF || ch == smufl::F_CLEF {
        260
    } else if ch == smufl::ACCIDENTAL_SHARP {
        100
    } else if ch == smufl::ACCIDENTAL_FLAT {
        90
    } else if ch == smufl::ACCIDENTAL_NATURAL {
        70
    } else if ch == smufl::REST_WHOLE || ch == smufl::REST_HALF {
        130
    } else if ch == smufl::REST_QUARTER {
        110
    } else if ch == smufl::REST_8TH {
        100
    } else if ch == smufl::AUGMENTATION_DOT {
        40
    } else {
        180
    }
}

// ---------------------------------------------------------------------
// Stems
// ---------------------------------------------------------------------

/// Distance, in half-spaces, of a staff step from the middle line.
pub open spec fn middle_distance(step: int) -> int {
    if step >= 4 {
        step - 4
    } else {
        4 - step
    }
}

/// The index of the last of `steps[..k]` farthest from the middle line.
pub open spec fn farthest_index(steps: Seq<i64>, k: int) -> int
    decreases k,
{
    if k <= 1 {
        0
    } else {
        let prev = farthest_index(steps, k - 1);
        if middle_distance(steps[k - 1] as int) >= middle_distance(steps[prev] as int) {
            k - 1
        } else {
            prev
        }
    }
}

/// Whether a chord's stem goes up: the note farthest from the middle line
/// (the last one, among equals) lies below it.
pub open spec fn spec_stem_up(steps: Seq<i64>) -> bool {
    steps.len() > 0 && steps[farthest_index(steps, steps.len() as int)] < 4
}

pub(crate) proof fn lemma_farthest_index_bounds(steps: Seq<i64>, k: int)
    requires
        1 <= k <= steps.len(),
    ensures
        0 <= farthest_index(steps, k) < k,
        forall|j: int|
            0 <= j < k ==> middle_distance(#[trigger] steps[j] as int) <= middle_distance(
                steps[farthest_index(steps, k)] as int,
            ),
    decreases k,
{
    if k > 1 {
        lemma_farthest_index_bounds(steps, k - 1);
    }
}

/// The note farthest from the middle line is one of the notes.
pub proof fn lemma_farthest_index_in(steps: Seq<i64>)
    requires
        steps.len() > 0,
    ensures
        0 <= farthest_index(steps, steps.len() as int) < steps.len(),
{
    lemma_farthest_index_bounds(steps, steps.len() as int);
}

/// The staff step of the note farthest from the middle line (the last one,
/// among equals).
pub fn farthest_step(steps: &Vec<i64>) -> (s: i64)
    requires
        steps@.len() > 0,
    ensures
        s == steps@[farthest_index(steps@, steps@.len() as int)],
{
    let n = steps.len();
    let mut best: usize = 0;
    let mut k: usize = 1;
    while k < n
        invariant
            1 <= k <= n == steps@.len(),
            best < k,
            best == farthest_index(steps@, k as int),
        decreases n - k,
    {
        proof {
            lemma_farthest_index_bounds(steps@, k as int);
        }
        let dk: i128 = if steps[k] >= 4 {
            steps[k] as i128 - 4
        } else {
            4 - steps[k] as i128
        };
        let db: i128 = if steps[best] >= 4 {
            steps[best] as i128 - 4
        } else {
            4 - steps[best] as i128
        };
        if dk >= db {
            best = k;
        }
        k = k + 1;
    }
    steps[best]
}

/// Stem direction of a note or chord, from the staff steps of its notes
/// (the stem points away from the note farthest from the middle line).
pub fn stem_up(steps: &Vec<i64>) -> (up: bool)
    ensures
        up == spec_stem_up(steps@),
{
    if steps.len() == 0 {
        return false;
    }
    farthest_step(steps) < 4
}

// ---------------------------------------------------------------------
// Accidentals
// ---------------------------------------------------------------------

/// The accidental glyph a note shows, if any: one appears when the encoding
/// asks for it, or when the pitch contradicts the key signature and the
/// note does not continue a tie.
pub open spec fn spec_accidental(note: NoteView, fifths: i32) -> Option<char> {
    if note.explicit_accidental || (!note.tie_stop && note.pitch.alter != spec_key_alteration(
        note.pitch.step as int,
        fifths as int,
    )) {
        Some(
            if note.pitch.alter == -1 {
                smufl::ACCIDENTAL_FLAT
            } else if note.pitch.alter == 0 {
                smufl::ACCIDENTAL_NATURAL
            } else {
                smufl::ACCIDENTAL_SHARP
            },
        )
    } else {
        None
    }
}

/// The accidental glyph `note` shows under a key signature of `fifths`.
pub fn accidental_glyph(note: &Note, fifths: i32) -> (r: Option<char>)
    requires
        fifths > i32::MIN,
    ensures
        r == spec_accidental(note@, fifths),
{
    let needed = note.explicit_accidental || (!note.tie_stop && note.pitch.alter != key_alteration(
        note.pitch.step,
        fifths,
    ));
    if !needed {
        return None;
    }
    Some(
        match note.pitch.alter {
            -1 => smufl::ACCIDENTAL_FLAT,
            0 => smufl::ACCIDENTAL_NATURAL,
            _ => smufl::ACCIDENTAL_SHARP,
        },
    )
}

} // verus!
