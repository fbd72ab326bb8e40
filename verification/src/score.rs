//! The loaded score model the engraving pass consumes: the validated result
//! of MusicXML import (`Score -> Measure -> voice -> Event -> Note`).
//!
//! Pitches keep the spelling from the source file (step/alter/octave);
//! only the accidental glyph depends on the key signature.

use vstd::prelude::*;

verus! {

/// Duration of one event, in eighth-note units (1 = eighth ... 8 = whole).
/// Dotted values carry the dot separately so the glyph choice stays simple.
#[derive(Debug, Clone, Copy, PartialEq, Eq, Structural)]
pub struct Duration {
    /// Base type in eighth units: 1 = eighth, 2 = quarter, 4 = half, 8 = whole.
    pub base_units: i32,
    pub dotted: bool,
}

/// Rust's `/ 2` on an integer: the quotient truncated toward zero.
pub open spec fn half_toward_zero(x: int) -> int {
    if x >= 0 {
        x / 2
    } else {
        -((-x) / 2)
    }
}

impl Duration {
    /// Total length in eighth units: a dot adds half the base.
    pub open spec fn spec_total_units(self) -> int {
        if self.dotted {
            self.base_units + half_toward_zero(self.base_units as int)
        } else {
            self.base_units as int
        }
    }

    /// The base/dot split of a raw eighth-unit length, where the subset
    /// has one (eighth ... whole, dotted quarter and dotted half).
    pub open spec fn spec_from_units(units: int) -> Option<Duration> {
        if units == 1 {
            Some(Duration { base_units: 1, dotted: false })
        } else if units == 2 {
            Some(Duration { base_units: 2, dotted: false })
        } else if units == 3 {
            Some(Duration { base_units: 2, dotted: true })
        } else if units == 4 {
            Some(Duration { base_units: 4, dotted: false })
        } else if units == 6 {
            Some(Duration { base_units: 4, dotted: true })
        } else if units == 8 {
            Some(Duration { base_units: 8, dotted: false })
        } else {
            None
        }
    }

    /// Whether a duration is one the subset writes: an undotted eighth,
    /// quarter, half or whole, or a dotted quarter or half.
    pub open spec fn in_subset(self) -> bool {
        ||| !self.dotted && (self.base_units == 1 || self.base_units == 2 || self.base_units == 4
            || self.base_units == 8)
        ||| self.dotted && (self.base_units == 2 || self.base_units == 4)
    }

    /// Splitting a length and totalling the parts undo each other: a
    /// length that splits totals back to itself, and every duration of the
    /// subset splits back out of its total.
    pub proof fn law_units_round_trip(units: int, d: Duration)
        ensures
            Duration::spec_from_units(units) matches Some(e) ==> e.spec_total_units() == units
                && e.in_subset(),
            d.in_subset() ==> Duration::spec_from_units(d.spec_total_units()) == Some(d),
    {
    }

    /// Total length in eighth units (a dot adds half the base).
    pub fn total_units(self) -> (r: i32)
        requires
            i32::MIN <= self.spec_total_units() <= i32::MAX,
        ensures
            r == self.spec_total_units(),
    {
        if self.dotted {
            let half: i32 = if self.base_units >= 0 {
                self.base_units / 2
            } else {
                -((-(self.base_units as i64)) / 2) as i32
            };
            self.base_units + half
        } else {
            self.base_units
        }
    }

    /// Classify a raw eighth-unit length into base + dot, if representable
    /// in the subset (eighth ... whole incl. dotted quarter/half).
    pub fn from_units(units: i32) -> (r: Option<Duration>)
        ensures
            r == Self::spec_from_units(units as int),
    {
        match units {
            1 => Some(Duration { base_units: 1, dotted: false }),
            2 => Some(Duration { base_units: 2, dotted: false }),
            3 => Some(Duration { base_units: 2, dotted: true }),
            4 => Some(Duration { base_units: 4, dotted: false }),
            6 => Some(Duration { base_units: 4, dotted: true }),
            8 => Some(Duration { base_units: 8, dotted: false }),
            _ => None,
        }
    }
}

/// A spelled pitch, exactly as encoded in the source file.
#[derive(Debug, Clone, Copy, PartialEq, Eq, Structural)]
pub struct Pitch {
    /// Diatonic step letter 0=C ... 6=B.
    pub step: u8,
    /// -1 flat, 0 natural, +1 sharp.
    pub alter: i32,
    /// Scientific octave (C4 = middle C).
    pub octave: i32,
}

/// Semitones above C of each diatonic step letter (C D E F G A B).
pub open spec fn step_semitones(step: int) -> int {
    if step == 0 {
        0
    } else if step == 1 {
        2
    } else if step == 2 {
        4
    } else if step == 3 {
        5
    } else if step == 4 {
        7
    } else if step == 5 {
        9
    } else {
        11
    }
}

/// `x` limited to the closed range `lo ..= hi`.
pub open spec fn clamp_int(x: int, lo: int, hi: int) -> int {
    if x < lo {
        lo
    } else if x > hi {
        hi
    } else {
        x
    }
}

impl Pitch {
    /// Semitones from C-1 of this spelling, before clamping to MIDI range.
    pub open spec fn spec_semitone_number(self) -> int {
        (self.octave + 1) * 12 + step_semitones(self.step as int) + self.alter
    }

    /// MIDI note number of this spelling, clamped to 0 ..= 127.
    pub open spec fn spec_midi(self) -> int {
        clamp_int(self.spec_semitone_number(), 0, 127)
    }

    /// Absolute diatonic index (C-1 = 0): one per staff position.
    pub open spec fn spec_diatonic_index(self) -> int {
        (self.octave + 1) * 7 + self.step
    }

    /// MIDI note number of this spelling.
    pub fn midi(self) -> (r: u8)
        requires
            self.step <= 6,
        ensures
            r == self.spec_midi(),
    {
        let table: [i64; 7] = [0, 2, 4, 5, 7, 9, 11];
        assert(table@[self.step as int] == step_semitones(self.step as int));
        let semitones = table[self.step as usize] + self.alter as i64;
        let n = (self.octave as i64 + 1) * 12 + semitones;
        if n < 0 {
            0
        } else if n > 127 {
            127
        } else {
            n as u8
        }
    }

    /// Absolute diatonic index (C-1 = 0) -- one per staff position.
    pub fn diatonic_index(self) -> (r: i32)
        requires
            i32::MIN <= (self.octave + 1) * 7 <= i32::MAX,
            i32::MIN <= self.spec_diatonic_index() <= i32::MAX,
        ensures
            r == self.spec_diatonic_index(),
    {
        (self.octave + 1) * 7 + self.step as i32
    }
}

/// One note of an event (an event with several notes is a chord).
#[derive(Debug, Clone, PartialEq)]
pub struct Note {
    pub pitch: Pitch,
    /// Stable element id, `note-<n>` in document order.
    pub id: String,
    /// This note is tied to the same pitch in the next event.
    pub tie_start: bool,
    /// This note continues a tie from the previous event.
    pub tie_stop: bool,
    /// An explicit accidental glyph was encoded.
    pub explicit_accidental: bool,
}

/// The mathematical value of a [`Note`].
pub struct NoteView {
    pub pitch: Pitch,
    pub id: Seq<char>,
    pub tie_start: bool,
    pub tie_stop: bool,
    pub explicit_accidental: bool,
}

impl View for Note {
    type V = NoteView;

    open spec fn view(&self) -> NoteView {
        NoteView {
            pitch: self.pitch,
            id: self.id@,
            tie_start: self.tie_start,
            tie_stop: self.tie_stop,
            explicit_accidental: self.explicit_accidental,
        }
    }
}

/// One rhythmic moment in a voice: a rest, a note, or a chord.
#[derive(Debug, Clone, PartialEq)]
pub struct Event {
    /// Onset in eighth units from the start of the score.
    pub onset_units: i32,
    pub duration: Duration,
    /// Empty = rest.
    pub notes: Vec<Note>,
    /// Rest id (rests are addressable too, as `rest-<n>`).
    pub rest_id: Option<String>,
}

/// The mathematical value of an [`Event`].
pub struct EventView {
    pub onset_units: i32,
    pub duration: Duration,
    pub notes: Seq<NoteView>,
    pub rest_id: Option<Seq<char>>,
}

/// The view of an optional string.
pub open spec fn opt_str_view(s: Option<String>) -> Option<Seq<char>> {
    match s {
        Some(t) => Some(t@),
        None => None,
    }
}

/// The views of a sequence of notes.
pub open spec fn notes_view(v: Seq<Note>) -> Seq<NoteView> {
    Seq::new(v.len(), |i: int| v[i]@)
}

/// The views of a sequence of events.
pub open spec fn events_view(v: Seq<Event>) -> Seq<EventView> {
    Seq::new(v.len(), |i: int| v[i]@)
}

impl View for Event {
    type V = EventView;

    open spec fn view(&self) -> EventView {
        EventView {
            onset_units: self.onset_units,
            duration: self.duration,
            notes: notes_view(self.notes@),
            rest_id: opt_str_view(self.rest_id),
        }
    }
}

impl Event {
    pub fn is_rest(&self) -> (r: bool)
        ensures
            r == (self.notes@.len() == 0),
    {
        self.notes.len() == 0
    }
}

/// One measure: two voices (voice 0 = staff 1/treble, voice 1 =
/// staff 2/bass, one voice per staff).
#[derive(Debug, Clone, PartialEq)]
pub struct Measure {
    pub voices: [Vec<Event>; 2],
}

/// The mathematical value of a [`Measure`]: the events of each voice.
pub struct MeasureView {
    pub treble: Seq<EventView>,
    pub bass: Seq<EventView>,
}

impl View for Measure {
    type V = MeasureView;

    open spec fn view(&self) -> MeasureView {
        MeasureView { treble: events_view(self.voices@[0]@), bass: events_view(self.voices@[1]@) }
    }
}

impl Default for Measure {
    fn default() -> (m: Measure)
        ensures
            m@.treble.len() == 0,
            m@.bass.len() == 0,
    {
        Measure { voices: [Vec::new(), Vec::new()] }
    }
}

/// Clef of a staff.
#[derive(Debug, Clone, Copy, PartialEq, Eq, Structural)]
pub enum Clef {
    Treble,
    Bass,
}

/// The validated score the layout pass consumes.
#[derive(Debug, Clone, PartialEq)]
pub struct Score {
    /// 1 = single treble staff, 2 = grand staff.
    pub staves: usize,
    /// Key signature (-7 ... +7).
    pub fifths: i32,
    /// Quarter-note beats per measure (`beat-type` is always 4 in the subset).
    pub beats_per_measure: i32,
    pub measures: Vec<Measure>,
    pub title: Option<String>,
}

/// The mathematical value of a [`Score`].
pub struct ScoreView {
    pub staves: usize,
    pub fifths: i32,
    pub beats_per_measure: i32,
    pub measures: Seq<MeasureView>,
    pub title: Option<Seq<char>>,
}

/// The views of a sequence of measures.
pub open spec fn measures_view(v: Seq<Measure>) -> Seq<MeasureView> {
    Seq::new(v.len(), |i: int| v[i]@)
}

impl View for Score {
    type V = ScoreView;

    open spec fn view(&self) -> ScoreView {
        ScoreView {
            staves: self.staves,
            fifths: self.fifths,
            beats_per_measure: self.beats_per_measure,
            measures: measures_view(self.measures@),
            title: opt_str_view(self.title),
        }
    }
}

impl Score {
    /// Eighth units in one full measure.
    pub fn units_per_measure(&self) -> (r: i32)
        requires
            i32::MIN <= self.beats_per_measure * 2 <= i32::MAX,
        ensures
            r == self.beats_per_measure * 2,
    {
        self.beats_per_measure * 2
    }
}

} // verus!
