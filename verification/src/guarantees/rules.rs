//! What the engraving rules mean in music terms: where beams may start, the
//! semitones of the step letters, the circle of fifths behind key
//! signatures, the accidental glyph a note shows, and the step letters the
//! importer reads.

use vstd::prelude::*;

use crate::engrave::{spec_accidental, spec_key_alteration, spec_signature_positions};
use crate::engrave::grouping::{groups_from, VoiceGroup};
use crate::import::step_number;
use crate::score::{Clef, EventView, NoteView, Pitch};

verus! {

// ---------------------------------------------------------------------
// Beams
// ---------------------------------------------------------------------

/// Whether events `i` and `i + 1` of a voice can share a beam: two undotted
/// eighth notes or chords, the second one eighth after the first, the first
/// on the beat (an even eighth position), so that a beam never crosses a
/// quarter-beat boundary.
pub open spec fn beamable_at(voice: Seq<EventView>, i: int) -> bool {
    &&& 0 <= i
    &&& i + 1 < voice.len()
    &&& voice[i].notes.len() > 0
    &&& voice[i + 1].notes.len() > 0
    &&& voice[i].duration.base_units == 1 && !voice[i].duration.dotted
    &&& voice[i + 1].duration.base_units == 1 && !voice[i + 1].duration.dotted
    &&& voice[i].onset_units % 2 == 0
    &&& voice[i + 1].onset_units == voice[i].onset_units + 1
}

/// What each group of `groups_from(voice, i)` names.
pub open spec fn groups_sound(voice: Seq<EventView>, gs: Seq<VoiceGroup>) -> bool {
    forall|k: int|
        0 <= k < gs.len() ==> match #[trigger] gs[k] {
            VoiceGroup::Rest(j) => j < voice.len() && voice[j as int].notes.len() == 0,
            VoiceGroup::Single(j) => j < voice.len() && voice[j as int].notes.len() > 0 && !beamable_at(
                voice,
                j as int,
            ),
            VoiceGroup::BeamedPair(j) => beamable_at(voice, j as int),
        }
}

pub(crate) proof fn lemma_groups_sound(voice: Seq<EventView>, i: int)
    requires
        0 <= i,
        voice.len() <= usize::MAX,
    ensures
        groups_sound(voice, groups_from(voice, i)),
    decreases voice.len() - i,
{
    let gs = groups_from(voice, i);
    if i < voice.len() {
        let next = if voice[i].notes.len() == 0 {
            i + 1
        } else if crate::engrave::grouping::starts_beam_pair(voice, i) {
            i + 2
        } else {
            i + 1
        };
        lemma_groups_sound(voice, next);
        let rest = groups_from(voice, next);
        assert forall|k: int| 0 <= k < gs.len() implies match #[trigger] gs[k] {
            VoiceGroup::Rest(j) => j < voice.len() && voice[j as int].notes.len() == 0,
            VoiceGroup::Single(j) => j < voice.len() && voice[j as int].notes.len() > 0 && !beamable_at(
                voice,
                j as int,
            ),
            VoiceGroup::BeamedPair(j) => beamable_at(voice, j as int),
        } by {
            if k > 0 {
                assert(gs[k] == rest[k - 1]);
            }
        }
    }
}

/// Beamed pairs start on the beat: every group of a voice's grouping is a
/// rest, a note or chord that could not be beamed with the next event, or
/// a pair of undotted eighths an eighth apart whose first sits on an even
/// eighth position, so that no beam crosses a quarter-beat boundary; and
/// every event that can open such a pair where a group starts does.
pub proof fn law_beams_start_on_the_beat(voice: Seq<EventView>, k: int)
    requires
        voice.len() <= usize::MAX,
        0 <= k < groups_from(voice, 0).len(),
    ensures
        match groups_from(voice, 0)[k] {
            VoiceGroup::Rest(j) => j < voice.len() && voice[j as int].notes.len() == 0,
            VoiceGroup::Single(j) => j < voice.len() && voice[j as int].notes.len() > 0 && !beamable_at(
                voice,
                j as int,
            ),
            VoiceGroup::BeamedPair(j) => beamable_at(voice, j as int) && voice[j as int].onset_units % 2
                == 0,
        },
{
    lemma_groups_sound(voice, 0);
    let g = groups_from(voice, 0)[k];
    assert(groups_sound(voice, groups_from(voice, 0)));
    assert(match g {
        VoiceGroup::Rest(j) => j < voice.len() && voice[j as int].notes.len() == 0,
        VoiceGroup::Single(j) => j < voice.len() && voice[j as int].notes.len() > 0 && !beamable_at(
            voice,
            j as int,
        ),
        VoiceGroup::BeamedPair(j) => beamable_at(voice, j as int),
    });
}

// ---------------------------------------------------------------------
// Semitones of the step letters
// ---------------------------------------------------------------------

/// The step letters are a whole tone apart but for the half tones E-F and
/// B-C: C of octave `o`, altered by `a`, is semitone `12 * (o + 1) + a`
/// (so middle C is 60 and A4 is 69), each next letter of the octave adds
/// two semitones but F, which adds one, and C adds one after the B below
/// it. A MIDI number is that semitone number wherever it lies in 0 ... 127.
pub proof fn law_step_semitones(p: Pitch)
    requires
        p.step <= 6,
    ensures
        (Pitch { step: 0, ..p }).spec_semitone_number() == 12 * (p.octave + 1) + p.alter,
        p.step < 6 ==> (Pitch { step: (p.step + 1) as u8, ..p }).spec_semitone_number()
            == p.spec_semitone_number() + (if p.step == 2 {
            1int
        } else {
            2int
        }),
        p.step == 6 && p.octave < i32::MAX ==> (Pitch { step: 0, octave: (p.octave + 1) as i32, ..p }).spec_semitone_number()
            == p.spec_semitone_number() + 1,
        0 <= p.spec_semitone_number() <= 127 ==> p.spec_midi() == p.spec_semitone_number(),
        (Pitch { step: 5, alter: 0, octave: 4 }).spec_midi() == 69,
        (Pitch { step: 0, alter: 0, octave: 4 }).spec_midi() == 60,
{
}

// ---------------------------------------------------------------------
// Key signatures
// ---------------------------------------------------------------------

/// Each key of one more sharp raises one more letter, a fifth (four steps)
/// above the letter the previous sharp raised, starting from F: F C G D A
/// E B; each key of one more flat lowers one more letter, a fourth (three
/// steps) above the previous, starting from B: B E A D G C F. C major
/// alters nothing, and a key never both raises and lowers.
pub proof fn law_keys_follow_the_circle_of_fifths(step: int, f: int)
    requires
        0 <= step <= 6,
    ensures
        spec_key_alteration(step, 0) == 0,
        1 <= f <= 7 ==> (spec_key_alteration(step, f) == 1 <==> (spec_key_alteration(step, f - 1) == 1
            || step == (3 + 4 * (f - 1)) % 7)),
        1 <= f <= 7 ==> spec_key_alteration(step, f) != -1,
        -7 <= f <= -1 ==> (spec_key_alteration(step, f) == -1 <==> (spec_key_alteration(step, f + 1)
            == -1 || step == (6 + 3 * (-f - 1)) % 7)),
        -7 <= f <= -1 ==> spec_key_alteration(step, f) != 1,
{
}

/// The top line of a staff: F5 on the treble staff, A3 on the bass staff,
/// as a step letter.
pub open spec fn top_line_letter(clef: Clef) -> int {
    match clef {
        Clef::Treble => 3,
        Clef::Bass => 5,
    }
}

/// The columns of a key signature follow the circle of fifths: the `k`-th
/// sharp is the letter four steps above the previous, starting from F, the
/// `k`-th flat the letter three steps above the previous, starting from B;
/// and each accidental sits on a staff position of its own letter (that
/// many half-spaces below the top line, counted down the letters), within
/// a step of the staff; each next sharp sits a fourth lower or a fifth
/// higher than the one before it, each next flat a fourth higher or a
/// fifth lower.
pub proof fn law_signature_columns(clef: Clef, sharp: bool, k: int)
    requires
        0 <= k < 7,
    ensures
        -1 <= spec_signature_positions(clef, sharp)[k].1 <= 9,
        k > 0 ==> ({
            let d = spec_signature_positions(clef, sharp)[k].1 - spec_signature_positions(clef, sharp)[k
                - 1].1;
            if sharp {
                d == 3 || d == -4
            } else {
                d == -3 || d == 4
            }
        }),
        spec_signature_positions(clef, sharp).len() == 7,
        spec_signature_positions(clef, sharp)[k].0 == (if sharp {
            (3 + 4 * k) % 7
        } else {
            (6 + 3 * k) % 7
        }),
        ((top_line_letter(clef) - spec_signature_positions(clef, sharp)[k].1) % 7 + 7) % 7
            == spec_signature_positions(clef, sharp)[k].0,
{
}

// ---------------------------------------------------------------------
// Accidentals
// ---------------------------------------------------------------------

/// The accidental a note shows spells its own alteration: a flat (SMuFL
/// U+E260) for a lowered note, a natural (U+E261) for an unaltered one, a
/// sharp (U+E262) for a raised one; and one shows exactly when the encoding
/// asks for it, or when the note does not continue a tie and its
/// alteration differs from the one the key gives its letter.
pub proof fn law_accidental_spells_alteration(note: NoteView, fifths: i32)
    ensures
        spec_accidental(note, fifths) is Some <==> (note.explicit_accidental || (!note.tie_stop
            && note.pitch.alter != spec_key_alteration(note.pitch.step as int, fifths as int))),
        spec_accidental(note, fifths) matches Some(g) ==> {
            &&& (g == '\u{E260}' <==> note.pitch.alter == -1)
            &&& (g == '\u{E261}' <==> note.pitch.alter == 0)
            &&& (g == '\u{E262}' <==> note.pitch.alter >= 1 || note.pitch.alter <= -2)
        },
{
}

// ---------------------------------------------------------------------
// Step letters
// ---------------------------------------------------------------------

/// The step letters in order, C = 0 ... B = 6.
pub open spec fn step_letters() -> Seq<char> {
    seq!['C', 'D', 'E', 'F', 'G', 'A', 'B']
}

/// The importer reads a step letter as its place in C D E F G A B, and
/// nothing else as a step: each letter gives its own number, and a text
/// that gives a number is that letter.
pub proof fn law_step_letters(text: Seq<char>, k: int)
    ensures
        0 <= k < 7 ==> step_number(seq![step_letters()[k]]) == Some(k as u8),
        step_number(text) matches Some(s) ==> s < 7 && text == seq![step_letters()[s as int]],
{
    reveal_strlit("C");
    reveal_strlit("D");
    reveal_strlit("E");
    reveal_strlit("F");
    reveal_strlit("G");
    reveal_strlit("A");
    reveal_strlit("B");
    assert("C"@ =~= seq!['C']);
    assert("C"@[0] == 'C');
    assert("D"@ =~= seq!['D']);
    assert("D"@[0] == 'D');
    assert("E"@ =~= seq!['E']);
    assert("E"@[0] == 'E');
    assert("F"@ =~= seq!['F']);
    assert("F"@[0] == 'F');
    assert("G"@ =~= seq!['G']);
    assert("G"@[0] == 'G');
    assert("A"@ =~= seq!['A']);
    assert("A"@[0] == 'A');
    assert("B"@ =~= seq!['B']);
    assert("B"@[0] == 'B');
    if 0 <= k < 7 {
        let t = seq![step_letters()[k]];
        assert(t[0] == step_letters()[k]);
        if k == 0 {
            assert(t =~= "C"@);
        } else if k == 1 {
            assert(t =~= "D"@);
            assert(t != "C"@);
        } else if k == 2 {
            assert(t =~= "E"@);
            assert(t != "C"@ && t != "D"@);
        } else if k == 3 {
            assert(t =~= "F"@);
            assert(t != "C"@ && t != "D"@ && t != "E"@);
        } else if k == 4 {
            assert(t =~= "G"@);
            assert(t != "C"@ && t != "D"@ && t != "E"@ && t != "F"@);
        } else if k == 5 {
            assert(t =~= "A"@);
            assert(t != "C"@ && t != "D"@ && t != "E"@ && t != "F"@ && t != "G"@);
        } else {
            assert(t =~= "B"@);
            assert(t != "C"@ && t != "D"@ && t != "E"@ && t != "F"@ && t != "G"@ && t != "A"@);
        }
    }
}

} // verus!
