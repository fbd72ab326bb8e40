//! MusicXML import for the supported subset: single part, one or two
//! staves (one voice per staff), chords, ties, key signatures, `beat-type`
//! 4 meters of at least one beat, durations eighth ... whole incl. dotted,
//! whole-semitone alterations, full measures, and one staff count, key and
//! meter for the whole score. Anything else is rejected with a specific
//! error, never silently mis-engraved.
//!
//! Element ids are assigned in document order (`note-<n>`, `rest-<n>`).

use vstd::prelude::*;

use crate::score::{Duration, EventView, MeasureView, NoteView, Pitch, Score, ScoreView};
use crate::text::{decimal, owned, trim};
use crate::xml::{string_value, Node};
use vstd::string::StringExecFns;

pub mod facts;
pub mod note;
pub mod reading;

pub use self::reading::{parse_music_xml, score_from_document};

verus! {

/// Why a document was rejected.
#[derive(Debug, Clone, PartialEq, Eq)]
pub enum ImportError {
    NotMusicXml,
    MultipleParts,
    Unsupported(String),
}

/// The mathematical value of an [`ImportError`].
pub enum ImportErrorView {
    NotMusicXml,
    MultipleParts,
    Unsupported(Seq<char>),
}

impl View for ImportError {
    type V = ImportErrorView;

    open spec fn view(&self) -> ImportErrorView {
        match self {
            ImportError::NotMusicXml => ImportErrorView::NotMusicXml,
            ImportError::MultipleParts => ImportErrorView::MultipleParts,
            ImportError::Unsupported(s) => ImportErrorView::Unsupported(s@),
        }
    }
}

/// The text a reader sees for an error.
pub open spec fn error_message(e: ImportErrorView) -> Seq<char> {
    match e {
        ImportErrorView::NotMusicXml => "not a readable MusicXML file"@,
        ImportErrorView::MultipleParts => "multi-part scores aren't supported"@,
        ImportErrorView::Unsupported(what) => "unsupported for now: "@ + what,
    }
}

impl ImportError {
    /// The text a reader sees for this error.
    pub fn message(&self) -> (s: String)
        ensures
            s@ == error_message(self@),
    {
        match self {
            ImportError::NotMusicXml => owned("not a readable MusicXML file"),
            ImportError::MultipleParts => owned("multi-part scores aren't supported"),
            ImportError::Unsupported(what) => {
                let mut s = owned("unsupported for now: ");
                s.append(what.as_str());
                s
            },
        }
    }
}

/// An `Unsupported` error with the given reason.
pub open spec fn unsupported(what: Seq<char>) -> ImportErrorView {
    ImportErrorView::Unsupported(what)
}

/// The running state of a note-by-note import within one measure: the two
/// voices of the measure so far, each voice's running onset (eighth
/// units), and the next free note and rest numbers.
pub struct NoteState {
    pub voices: Seq<Seq<EventView>>,
    pub units: Seq<i32>,
    pub next_note_id: usize,
    pub next_rest_id: usize,
}

/// Whether `n` holds a `<tie>` whose `type` attribute is `kind`.
pub open spec fn has_tie(n: Node, kind: Seq<char>) -> bool {
    exists|i: int|
        0 <= i < n.elements("tie"@).len() && #[trigger] n.elements("tie"@)[i].attribute("type"@)
            == Some(kind)
}

/// The step number (C = 0 ... B = 6) of a step letter.
pub open spec fn step_number(text: Seq<char>) -> Option<u8> {
    if text == "C"@ {
        Some(0)
    } else if text == "D"@ {
        Some(1)
    } else if text == "E"@ {
        Some(2)
    } else if text == "F"@ {
        Some(3)
    } else if text == "G"@ {
        Some(4)
    } else if text == "A"@ {
        Some(5)
    } else if text == "B"@ {
        Some(6)
    } else {
        None
    }
}

/// The trimmed string-value of the first child of `n` named `name`.
pub open spec fn child_text(n: Node, name: Seq<char>) -> Option<Seq<char>> {
    match n.first(name) {
        Some(c) => Some(trim(string_value(c))),
        None => None,
    }
}

/// The duration of a note written as `raw` divisions: its length in eighth
/// units must be a whole number the subset can engrave.
pub open spec fn note_duration(raw: i32, divisions: i32) -> Option<Duration> {
    let scaled = raw * 2;
    if scaled % (divisions as int) != 0 {
        None
    } else {
        Duration::spec_from_units(scaled / (divisions as int))
    }
}

/// The alteration of a `<pitch>` element in semitones: 0 without an
/// `<alter>`, `None` where the `<alter>` is not a whole number.
pub open spec fn alter_of(p: Node) -> Option<i32> {
    match p.first("alter"@) {
        None => Some(0i32),
        Some(_) => p.int_child("alter"@),
    }
}

/// The spelled pitch of a `<pitch>` element, or why it cannot be read.
pub open spec fn pitch_of(p: Node) -> Result<Pitch, ImportErrorView> {
    match child_text(p, "step"@) {
        None => Err(unsupported("unreadable pitch"@)),
        Some(t) => match step_number(t) {
            None => Err(unsupported("unreadable pitch"@)),
            Some(step) => match p.int_child("octave"@) {
                None => Err(unsupported("unreadable pitch"@)),
                Some(octave) => match alter_of(p) {
                    None => Err(unsupported("alterations that are not whole semitones"@)),
                    Some(alter) => if alter < -1 || alter > 1 {
                        Err(unsupported("double accidentals"@))
                    } else {
                        Ok(Pitch { step, alter, octave })
                    },
                },
            },
        },
    }
}

/// Appends `ev` to voice `v` and advances that voice's onset by its length.
pub open spec fn push_event(st: NoteState, v: int, ev: EventView) -> NoteState {
    NoteState {
        voices: st.voices.update(v, st.voices[v].push(ev)),
        units: st.units.update(v, st.units[v].wrapping_add(ev.duration.spec_total_units() as i32)),
        ..st
    }
}

/// Adds `note` to the last event of voice `v` (a chord member).
pub open spec fn add_to_chord(st: NoteState, v: int, note: NoteView) -> NoteState {
    let voice = st.voices[v];
    let last = voice.last();
    NoteState {
        voices: st.voices.update(
            v,
            voice.update(voice.len() - 1, EventView { notes: last.notes.push(note), ..last }),
        ),
        ..st
    }
}

/// The effect of one `<note>` element on the import state. A note on the
/// second staff is refused on a score of one staff, where nothing would
/// engrave it; that test comes last, once the note has passed every other
/// test and is about to be placed.
pub open spec fn note_step(n: Node, divisions: i32, staves: usize, st: NoteState) -> Result<
    NoteState,
    ImportErrorView,
> {
    if n.first("grace"@) is Some {
        Err(unsupported("grace notes"@))
    } else if n.first("time-modification"@) is Some {
        Err(unsupported("tuplets"@))
    } else {
        let staff = match n.int_child("staff"@) {
            Some(s) => s,
            None => 1i32,
        };
        if staff != 1 && staff != 2 {
            Err(unsupported("more than two staves"@))
        } else {
            let v = staff - 1;
            let misplaced = staff == 2 && staves != 2;
            match n.int_child("duration"@) {
                None => Err(unsupported("notes without duration"@)),
                Some(raw) => match note_duration(raw, divisions) {
                    None => Err(unsupported("note values outside eighth\u{2013}whole"@)),
                    Some(duration) => if n.first("rest"@) is Some {
                        if misplaced {
                            Err(unsupported("notes on a second staff of a one-staff score"@))
                        } else {
                        Ok(
                            NoteState {
                                next_rest_id: st.next_rest_id.wrapping_add(1),
                                ..push_event(
                                    st,
                                    v,
                                    EventView {
                                        onset_units: st.units[v],
                                        duration,
                                        notes: Seq::empty(),
                                        rest_id: Some("rest-"@ + decimal(st.next_rest_id as nat)),
                                    },
                                )
                            },
                        )
                        }
                    } else {
                        match n.first("pitch"@) {
                            None => Err(unsupported("unreadable pitch"@)),
                            Some(p) => match pitch_of(p) {
                                Err(e) => Err(e),
                                Ok(pitch) => {
                                    let note = NoteView {
                                        pitch,
                                        id: "note-"@ + decimal(st.next_note_id as nat),
                                        tie_start: has_tie(n, "start"@),
                                        tie_stop: has_tie(n, "stop"@),
                                        explicit_accidental: n.first("accidental"@) is Some,
                                    };
                                    let st1 = NoteState {
                                        next_note_id: st.next_note_id.wrapping_add(1),
                                        ..st
                                    };
                                    if n.first("chord"@) is Some {
                                        if st.voices[v].len() == 0 {
                                            Err(unsupported("chord member without anchor"@))
                                        } else if misplaced {
                                            Err(unsupported("notes on a second staff of a one-staff score"@))
                                        } else {
                                            Ok(add_to_chord(st1, v, note))
                                        }
                                    } else if misplaced {
                                        Err(unsupported("notes on a second staff of a one-staff score"@))
                                    } else {
                                        Ok(
                                            push_event(
                                                st1,
                                                v,
                                                EventView {
                                                    onset_units: st.units[v],
                                                    duration,
                                                    notes: seq![note],
                                                    rest_id: None,
                                                },
                                            ),
                                        )
                                    }
                                },
                            },
                        }
                    },
                },
            }
        }
    }
}

/// Whether a `<note>` that failed with `e` had taken its note number: a
/// pitched note that failed only at being placed, as a chord member with
/// no note before it or as a note on a staff the score lacks.
pub open spec fn failed_numbered(n: Node, e: ImportErrorView) -> bool {
    &&& n.first("rest"@) is None
    &&& (e == unsupported("chord member without anchor"@) || e == unsupported(
        "notes on a second staff of a one-staff score"@,
    ))
}

/// The import state after the first `k` notes of a measure.
pub open spec fn notes_prefix(notes: Seq<Node>, k: int, divisions: i32, staves: usize, st: NoteState) -> Result<
    NoteState,
    ImportErrorView,
>
    decreases k,
{
    if k <= 0 {
        Ok(st)
    } else {
        match notes_prefix(notes, k - 1, divisions, staves, st) {
            Err(e) => Err(e),
            Ok(s) => if divisions <= 0 {
                Err(unsupported("missing divisions"@))
            } else {
                note_step(notes[k - 1], divisions, staves, s)
            },
        }
    }
}

/// The running state of the whole import.
pub struct ImportState {
    pub divisions: i32,
    pub fifths: i32,
    pub beats_per_measure: i32,
    pub staves: usize,
    pub measures: Seq<MeasureView>,
    pub units: Seq<i32>,
    pub next_note_id: usize,
    pub next_rest_id: usize,
}

/// The state before the first measure.
pub open spec fn initial_import_state() -> ImportState {
    ImportState {
        divisions: 0,
        fifths: 0,
        beats_per_measure: 4,
        staves: 1,
        measures: Seq::empty(),
        units: seq![0i32, 0i32],
        next_note_id: 0,
        next_rest_id: 0,
    }
}

/// Whether a `<clef>` is one the subset engraves on a score of `staves`
/// staves: treble, or bass on a grand staff.
pub open spec fn clef_supported(c: Node, staves: usize) -> bool {
    let sign = child_text(c, "sign"@);
    sign == Some("G"@) || (sign == Some("F"@) && staves == 2)
}

/// `st` if every clef is supported on its staves, else the clef error.
pub open spec fn clefs_check(clefs: Seq<Node>, st: ImportState) -> Result<ImportState, ImportErrorView> {
    if exists|i: int| 0 <= i < clefs.len() && !clef_supported(#[trigger] clefs[i], st.staves) {
        Err(unsupported("clefs other than treble/bass"@))
    } else {
        Ok(st)
    }
}

/// The beats of a `<time>` element: 4 where it names none.
pub open spec fn time_beats(t: Node) -> i32 {
    match t.int_child("beats"@) {
        Some(b) => b,
        None => 4i32,
    }
}

/// The effect of an `<attributes>` element on the import state. The score
/// holds one staff count, key and meter for all its measures, so a later
/// measure may repeat them but not change them; a meter has at least one
/// beat.
pub open spec fn attributes_step(a: Node, st: ImportState) -> Result<ImportState, ImportErrorView> {
    let later = st.measures.len() > 0;
    let st1 = match a.int_child("divisions"@) {
        Some(d) => ImportState { divisions: d, ..st },
        None => st,
    };
    match a.int_child("staves"@) {
        Some(s) if s < 1 || s > 2 => Err(unsupported("more than two staves"@)),
        Some(s) if later && s as usize != st.staves => Err(unsupported("changes of staff count"@)),
        _ => {
            let st2 = match a.int_child("staves"@) {
                Some(s) => ImportState { staves: s as usize, ..st1 },
                None => st1,
            };
            let key_fifths = match a.first("key"@) {
                Some(k) => k.int_child("fifths"@),
                None => None,
            };
            match key_fifths {
                Some(f) if f < -7 || f > 7 => Err(unsupported("key signature out of range"@)),
                Some(f) if later && f != st.fifths => Err(unsupported("key changes"@)),
                _ => {
                    let st3 = match key_fifths {
                        Some(f) => ImportState { fifths: f, ..st2 },
                        None => st2,
                    };
                    match a.first("time"@) {
                        Some(t) if t.int_child("beat-type"@) != Some(4i32) => Err(
                            unsupported("time signatures not over 4"@),
                        ),
                        Some(t) if time_beats(t) < 1 => Err(
                            unsupported("meters without beats"@),
                        ),
                        Some(t) if later && time_beats(t) != st.beats_per_measure => Err(
                            unsupported("meter changes"@),
                        ),
                        _ => {
                            let st4 = match a.first("time"@) {
                                Some(t) => ImportState { beats_per_measure: time_beats(t), ..st3 },
                                None => st3,
                            };
                            clefs_check(a.elements("clef"@), st4)
                        },
                    }
                },
            }
        },
    }
}

/// The length of a voice in eighth units: the sum of its events' lengths.
pub open spec fn voice_span(v: Seq<EventView>) -> int
    decreases v.len(),
{
    if v.len() == 0 {
        0
    } else {
        voice_span(v.drop_last()) + v.last().duration.spec_total_units()
    }
}

/// Whether the voices of a measure fill a meter of `beats` quarters: the
/// upper voice, and the lower one on a grand staff.
pub open spec fn voices_fill(voices: Seq<Seq<EventView>>, staves: usize, beats: i32) -> bool {
    &&& voice_span(voices[0]) == 2 * beats
    &&& staves == 2 ==> voice_span(voices[1]) == 2 * beats
}

/// Whether a measure is whole on a score of `staves` staves in a meter of
/// `beats` quarters: its voices fill the meter, and a score of one staff
/// has nothing in the lower voice.
pub open spec fn measure_full(m: MeasureView, staves: usize, beats: i32) -> bool {
    &&& voices_fill(seq![m.treble, m.bass], staves, beats)
    &&& staves != 2 ==> m.bass.len() == 0
}

/// The import state once a measure's notes gave `notes` (or the error
/// they gave): a measure whose voices do not fill the meter is refused.
pub open spec fn close_measure(st: ImportState, notes: Result<NoteState, ImportErrorView>) -> Result<
    ImportState,
    ImportErrorView,
> {
    match notes {
        Err(e) => Err(e),
        Ok(ns) => if !voices_fill(ns.voices, st.staves, st.beats_per_measure) {
            Err(unsupported("measures that do not fill the meter"@))
        } else {
            Ok(
                ImportState {
                    measures: st.measures.push(MeasureView { treble: ns.voices[0], bass: ns.voices[1] }),
                    units: ns.units,
                    next_note_id: ns.next_note_id,
                    next_rest_id: ns.next_rest_id,
                    ..st
                },
            )
        },
    }
}

/// The effect of one `<measure>` element on the import state.
pub open spec fn measure_step(m: Node, st: ImportState) -> Result<ImportState, ImportErrorView> {
    let attributes = match m.first("attributes"@) {
        Some(a) => attributes_step(a, st),
        None => Ok(st),
    };
    match attributes {
        Err(e) => Err(e),
        Ok(st1) => if st1.staves == 1 && m.first("backup"@) is Some {
            Err(unsupported("multiple voices on one staff"@))
        } else if m.first("forward"@) is Some {
            Err(unsupported("forward skips (partial voices)"@))
        } else {
            let notes = m.elements("note"@);
            let start = NoteState {
                voices: seq![Seq::empty(), Seq::empty()],
                units: st1.units,
                next_note_id: st1.next_note_id,
                next_rest_id: st1.next_rest_id,
            };
            close_measure(st1, notes_prefix(notes, notes.len() as int, st1.divisions, st1.staves, start))
        },
    }
}

/// The import state after the first `k` measures.
pub open spec fn measures_prefix(measures: Seq<Node>, k: int) -> Result<ImportState, ImportErrorView>
    decreases k,
{
    if k <= 0 {
        Ok(initial_import_state())
    } else {
        match measures_prefix(measures, k - 1) {
            Err(e) => Err(e),
            Ok(st) => measure_step(measures[k - 1], st),
        }
    }
}

/// The node reached from `n` by following first children named along `path`.
pub open spec fn follow_path(n: Node, path: Seq<Seq<char>>) -> Option<Node>
    decreases path.len(),
{
    if path.len() == 0 {
        Some(n)
    } else {
        match n.first(path[0]) {
            Some(c) => follow_path(c, path.drop_first()),
            None => None,
        }
    }
}

/// The trimmed text at the end of `path`, if it is there and not empty.
pub open spec fn text_at(n: Node, path: Seq<Seq<char>>) -> Option<Seq<char>> {
    match follow_path(n, path) {
        Some(c) => {
            let t = trim(string_value(c));
            if t.len() == 0 {
                None
            } else {
                Some(t)
            }
        },
        None => None,
    }
}

/// The score's title: the work title, else the movement title.
pub open spec fn score_title(root: Node) -> Option<Seq<char>> {
    match text_at(root, seq!["work"@, "work-title"@]) {
        Some(t) => Some(t),
        None => text_at(root, seq!["movement-title"@]),
    }
}

/// The score once all measures gave `st` (or the error they gave).
pub open spec fn close_score(st: Result<ImportState, ImportErrorView>, title: Option<Seq<char>>) -> Result<
    ScoreView,
    ImportErrorView,
> {
    match st {
        Err(e) => Err(e),
        Ok(st) => Ok(
            ScoreView {
                staves: st.staves,
                fifths: st.fifths,
                beats_per_measure: st.beats_per_measure,
                measures: st.measures,
                title,
            },
        ),
    }
}

/// The score a MusicXML document tree describes, or why it is rejected.
pub open spec fn import_tree(doc: Option<Node>) -> Result<ScoreView, ImportErrorView> {
    match doc {
        None => Err(ImportErrorView::NotMusicXml),
        Some(root) => {
            let parts = root.elements("part"@);
            if root.name != "score-partwise"@ {
                Err(ImportErrorView::NotMusicXml)
            } else if parts.len() == 0 {
                Err(ImportErrorView::NotMusicXml)
            } else if parts.len() > 1 {
                Err(ImportErrorView::MultipleParts)
            } else {
                let measures = parts[0].elements("measure"@);
                if measures.len() == 0 {
                    Err(ImportErrorView::NotMusicXml)
                } else {
                    close_score(measures_prefix(measures, measures.len() as int), score_title(root))
                }
            }
        },
    }
}

/// The view of an import result.
pub open spec fn import_view(r: Result<Score, ImportError>) -> Result<ScoreView, ImportErrorView> {
    match r {
        Ok(s) => Ok(s@),
        Err(e) => Err(e@),
    }
}

} // verus!
