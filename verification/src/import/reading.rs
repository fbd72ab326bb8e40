//! Reading a MusicXML document tree into a score, note by note and
//! measure by measure, as the import specification describes.

use vstd::prelude::*;

use crate::score::{
    events_view, measures_view, notes_view, Event, EventView, Measure, MeasureView, Note, NoteView,
    Score,
};
use crate::text::{numbered_id, owned, str_is, trim_string};
use crate::xml::{document_tree, opt_element_view, refs_view, string_value, Element, Node};
use crate::xml::reader::{parse_document, xml_events};
use crate::import::note::{
    child_text_of, duration_of, lemma_notes_prefix_err, pitch_from, tie_of_kind, voice_fills,
};
use vstd::string::StringExecFns;
use crate::import::{
    add_to_chord, attributes_step, clef_supported, clefs_check, close_measure, close_score,
    follow_path, import_tree, import_view, initial_import_state, measure_step, measures_prefix,
    failed_numbered, note_step, notes_prefix, push_event, score_title, text_at, unsupported,
    ImportError,
    ImportErrorView, ImportState, NoteState,
};

verus! {

/// The note-by-note state of one measure's import.
struct NoteContext {
    treble: Vec<Event>,
    bass: Vec<Event>,
    treble_units: i32,
    bass_units: i32,
    next_note_id: usize,
    next_rest_id: usize,
}

impl View for NoteContext {
    type V = NoteState;

    closed spec fn view(&self) -> NoteState {
        NoteState {
            voices: seq![events_view(self.treble@), events_view(self.bass@)],
            units: seq![self.treble_units, self.bass_units],
            next_note_id: self.next_note_id,
            next_rest_id: self.next_rest_id,
        }
    }
}

impl NoteContext {
    /// The running onset of voice `v`.
    fn units_of(&self, v: usize) -> (u: i32)
        requires
            v < 2,
        ensures
            u == self@.units[v as int],
    {
        if v == 0 {
            self.treble_units
        } else {
            self.bass_units
        }
    }

    /// Whether voice `v` has no event yet.
    fn voice_is_empty(&self, v: usize) -> (r: bool)
        requires
            v < 2,
        ensures
            r == (self@.voices[v as int].len() == 0),
    {
        if v == 0 {
            self.treble.len() == 0
        } else {
            self.bass.len() == 0
        }
    }

    /// Appends `ev` to voice `v` and advances its onset.
    fn push_event(&mut self, v: usize, ev: Event)
        requires
            v < 2,
            ev.duration.spec_total_units() <= 12,
            ev.duration.spec_total_units() >= 0,
        ensures
            final(self)@ == push_event(old(self)@, v as int, ev@),
    {
        let total = ev.duration.total_units();
        if v == 0 {
            self.treble.push(ev);
            self.treble_units = self.treble_units.wrapping_add(total);
        } else {
            self.bass.push(ev);
            self.bass_units = self.bass_units.wrapping_add(total);
        }
        proof {
            assert(events_view(self.treble@) =~= if v == 0 {
                events_view(old(self).treble@).push(ev@)
            } else {
                events_view(old(self).treble@)
            });
            assert(events_view(self.bass@) =~= if v == 1 {
                events_view(old(self).bass@).push(ev@)
            } else {
                events_view(old(self).bass@)
            });
            assert(self@.voices =~= push_event(old(self)@, v as int, ev@).voices);
            assert(self@.units =~= push_event(old(self)@, v as int, ev@).units);
        }
    }

    /// Adds `note` to the last event of voice `v`.
    fn add_to_chord(&mut self, v: usize, note: Note)
        requires
            v < 2,
            old(self)@.voices[v as int].len() > 0,
        ensures
            final(self)@ == add_to_chord(old(self)@, v as int, note@),
    {
        let mut voice = Vec::new();
        if v == 0 {
            std::mem::swap(&mut voice, &mut self.treble);
        } else {
            std::mem::swap(&mut voice, &mut self.bass);
        }
        let ghost old_voice = voice@;
        let mut last = voice.pop().unwrap();
        let ghost old_notes = last.notes@;
        last.notes.push(note);
        voice.push(last);
        proof {
            assert(notes_view(last.notes@) =~= notes_view(old_notes).push(note@));
            assert(events_view(voice@) =~= events_view(old_voice).update(
                old_voice.len() - 1,
                EventView { notes: notes_view(old_notes).push(note@), ..events_view(old_voice).last() },
            ));
        }
        if v == 0 {
            self.treble = voice;
        } else {
            self.bass = voice;
        }
        proof {
            assert(self@.voices =~= add_to_chord(old(self)@, v as int, note@).voices);
            assert(self@.units =~= old(self)@.units);
        }
    }
}

/// The effect of one `<note>` element on the measure being imported.
///
/// On an error the measure so far, the running onsets and the rest counter
/// are as they were; so is the note counter, but for a pitched note that
/// failed only at being placed (see [`failed_numbered`]), which has taken
/// its number.
pub(crate) fn parse_note_into(
    element: &Element,
    divisions: i32,
    staves: usize,
    ctx: &mut NoteContext,
) -> (r: Result<(), ImportError>)
    requires
        divisions > 0,
    ensures
        match note_step(element@, divisions, staves, old(ctx)@) {
            Ok(s) => r is Ok && final(ctx)@ == s,
            Err(e) => r matches Err(x) && x@ == e && final(ctx)@ == (if failed_numbered(element@, e) {
                NoteState { next_note_id: old(ctx)@.next_note_id.wrapping_add(1), ..old(ctx)@ }
            } else {
                old(ctx)@
            }),
        },
{
    proof {
        reveal_strlit("chord member without anchor");
        reveal_strlit("grace notes");
        reveal_strlit("tuplets");
        reveal_strlit("more than two staves");
        reveal_strlit("notes on a second staff of a one-staff score");
        reveal_strlit("notes without duration");
        reveal_strlit("note values outside eighth\u{2013}whole");
        reveal_strlit("unreadable pitch");
        reveal_strlit("alterations that are not whole semitones");
        reveal_strlit("double accidentals");
        let anchorless = "chord member without anchor"@;
        let misplaced = "notes on a second staff of a one-staff score"@;
        assert(misplaced.len() != anchorless.len());
        assert("grace notes"@.len() != anchorless.len() && "grace notes"@.len() != misplaced.len());
        assert("tuplets"@.len() != anchorless.len() && "tuplets"@.len() != misplaced.len());
        assert("more than two staves"@.len() != anchorless.len() && "more than two staves"@.len() != misplaced.len());
        assert("notes without duration"@.len() != anchorless.len() && "notes without duration"@.len() != misplaced.len());
        assert("note values outside eighth\u{2013}whole"@.len() != anchorless.len() && "note values outside eighth\u{2013}whole"@.len() != misplaced.len());
        assert("unreadable pitch"@.len() != anchorless.len() && "unreadable pitch"@.len() != misplaced.len());
        assert("alterations that are not whole semitones"@.len() != anchorless.len() && "alterations that are not whole semitones"@.len() != misplaced.len());
        assert("double accidentals"@.len() != anchorless.len() && "double accidentals"@.len() != misplaced.len());
    }
    if element.first("grace").is_some() {
        return Err(ImportError::Unsupported(owned("grace notes")));
    }
    if element.first("time-modification").is_some() {
        return Err(ImportError::Unsupported(owned("tuplets")));
    }
    let is_chord_member = element.first("chord").is_some();
    let staff = match element.int_child("staff") {
        Some(s) => s,
        None => 1,
    };
    let v: usize = if staff == 1 {
        0
    } else if staff == 2 {
        1
    } else {
        return Err(ImportError::Unsupported(owned("more than two staves")));
    };
    let misplaced = v == 1 && staves != 2;
    let tie_stop = tie_of_kind(element, "stop");
    let tie_start = tie_of_kind(element, "start");
    let explicit_accidental = element.first("accidental").is_some();
    let raw = match element.int_child("duration") {
        Some(d) => d,
        None => return Err(ImportError::Unsupported(owned("notes without duration"))),
    };
    let duration = match duration_of(raw, divisions) {
        Some(d) => d,
        None => return Err(ImportError::Unsupported(owned("note values outside eighth\u{2013}whole"))),
    };
    let onset = ctx.units_of(v);
    if element.first("rest").is_some() {
        if misplaced {
            return Err(ImportError::Unsupported(owned("notes on a second staff of a one-staff score")));
        }
        let id = numbered_id("rest-", ctx.next_rest_id);
        ctx.next_rest_id = ctx.next_rest_id.wrapping_add(1);
        let ev = Event { onset_units: onset, duration, notes: Vec::new(), rest_id: Some(id) };
        assert(ev@.notes =~= Seq::<NoteView>::empty());
        ctx.push_event(v, ev);
        return Ok(());
    }
    let pitch_el = match element.first("pitch") {
        Some(p) => p,
        None => return Err(ImportError::Unsupported(owned("unreadable pitch"))),
    };
    let pitch = match pitch_from(pitch_el) {
        Ok(p) => p,
        Err(e) => return Err(e),
    };
    let id = numbered_id("note-", ctx.next_note_id);
    ctx.next_note_id = ctx.next_note_id.wrapping_add(1);
    let note = Note { pitch, id, tie_start, tie_stop, explicit_accidental };
    if is_chord_member {
        if ctx.voice_is_empty(v) {
            return Err(ImportError::Unsupported(owned("chord member without anchor")));
        }
        if misplaced {
            return Err(ImportError::Unsupported(owned("notes on a second staff of a one-staff score")));
        }
        ctx.add_to_chord(v, note);
    } else {
        if misplaced {
            return Err(ImportError::Unsupported(owned("notes on a second staff of a one-staff score")));
        }
        let ghost nv = note@;
        let notes = vec![note];
        assert(notes_view(notes@) =~= seq![nv]);
        let ev = Event { onset_units: onset, duration, notes, rest_id: None };
        ctx.push_event(v, ev);
    }
    Ok(())
}


/// An error in the first `k` measures is the score's error.
pub(crate) proof fn lemma_measures_prefix_err(measures: Seq<Node>, k: int, n: int)
    requires
        0 <= k <= n,
        measures_prefix(measures, k) is Err,
    ensures
        measures_prefix(measures, n) == measures_prefix(measures, k),
    decreases n - k,
{
    if k < n {
        lemma_measures_prefix_err(measures, k, n - 1);
    }
}

/// The running state of the whole import.
struct ImportContext {
    divisions: i32,
    fifths: i32,
    beats_per_measure: i32,
    staves: usize,
    measures: Vec<Measure>,
    treble_units: i32,
    bass_units: i32,
    next_note_id: usize,
    next_rest_id: usize,
}

impl View for ImportContext {
    type V = ImportState;

    closed spec fn view(&self) -> ImportState {
        ImportState {
            divisions: self.divisions,
            fifths: self.fifths,
            beats_per_measure: self.beats_per_measure,
            staves: self.staves,
            measures: measures_view(self.measures@),
            units: seq![self.treble_units, self.bass_units],
            next_note_id: self.next_note_id,
            next_rest_id: self.next_rest_id,
        }
    }
}

/// Whether a `<clef>` is one the subset engraves on `staves` staves.
pub(crate) fn clef_is_supported(c: &Element, staves: usize) -> (r: bool)
    ensures
        r == clef_supported(c@, staves),
{
    match child_text_of(c, "sign") {
        Some(sign) => str_is(&sign, "G") || (str_is(&sign, "F") && staves == 2),
        None => false,
    }
}

impl ImportContext {
    /// The state before the first measure.
    fn new() -> (c: ImportContext)
        ensures
            c@ == initial_import_state(),
    {
        let c = ImportContext {
            divisions: 0,
            fifths: 0,
            beats_per_measure: 4,
            staves: 1,
            measures: Vec::new(),
            treble_units: 0,
            bass_units: 0,
            next_note_id: 0,
            next_rest_id: 0,
        };
        assert(c@.measures =~= Seq::<MeasureView>::empty());
        c
    }

    /// Applies an `<attributes>` element.
    fn apply_attributes(&mut self, a: &Element) -> (r: Result<(), ImportError>)
        ensures
            match attributes_step(a@, old(self)@) {
                Ok(s) => r is Ok && final(self)@ == s,
                Err(e) => r matches Err(x) && x@ == e,
            },
    {
        let later = self.measures.len() > 0;
        if let Some(d) = a.int_child("divisions") {
            self.divisions = d;
        }
        if let Some(s) = a.int_child("staves") {
            if s < 1 || s > 2 {
                return Err(ImportError::Unsupported(owned("more than two staves")));
            }
            if later && s as usize != self.staves {
                return Err(ImportError::Unsupported(owned("changes of staff count")));
            }
            self.staves = s as usize;
        }
        if let Some(key) = a.first("key") {
            if let Some(f) = key.int_child("fifths") {
                if f < -7 || f > 7 {
                    return Err(ImportError::Unsupported(owned("key signature out of range")));
                }
                if later && f != self.fifths {
                    return Err(ImportError::Unsupported(owned("key changes")));
                }
                self.fifths = f;
            }
        }
        if let Some(time) = a.first("time") {
            match time.int_child("beat-type") {
                Some(4) => {},
                _ => return Err(ImportError::Unsupported(owned("time signatures not over 4"))),
            }
            let beats = match time.int_child("beats") {
                Some(b) => b,
                None => 4,
            };
            if beats < 1 {
                return Err(ImportError::Unsupported(owned("meters without beats")));
            }
            if later && beats != self.beats_per_measure {
                return Err(ImportError::Unsupported(owned("meter changes")));
            }
            self.beats_per_measure = beats;
        }
        let clefs = a.elements("clef");
        let ghost cv = a@.elements("clef"@);
        let ghost st4 = self@;
        let mut i: usize = 0;
        while i < clefs.len()
            invariant
                refs_view(clefs@) == cv,
                cv == a@.elements("clef"@),
                i <= clefs@.len(),
                self@ == st4,
                attributes_step(a@, old(self)@) == clefs_check(cv, st4),
                forall|j: int| 0 <= j < i ==> clef_supported(#[trigger] cv[j], st4.staves),
            decreases clefs@.len() - i,
        {
            assert(cv[i as int] == clefs[i as int]@);
            if !clef_is_supported(clefs[i], self.staves) {
                assert(!clef_supported(cv[i as int], st4.staves));
                return Err(ImportError::Unsupported(owned("clefs other than treble/bass")));
            }
            i = i + 1;
        }
        Ok(())
    }

    /// Imports one `<measure>` element.
    fn import_measure(&mut self, m: &Element) -> (r: Result<(), ImportError>)
        ensures
            match measure_step(m@, old(self)@) {
                Ok(s) => r is Ok && final(self)@ == s,
                Err(e) => r matches Err(x) && x@ == e,
            },
    {
        if let Some(attributes) = m.first("attributes") {
            let r = self.apply_attributes(attributes);
            if r.is_err() {
                return r;
            }
        }
        if self.staves == 1 && m.first("backup").is_some() {
            return Err(ImportError::Unsupported(owned("multiple voices on one staff")));
        }
        if m.first("forward").is_some() {
            return Err(ImportError::Unsupported(owned("forward skips (partial voices)")));
        }
        let notes = m.elements("note");
        let ghost nv = m@.elements("note"@);
        let mut ctx = NoteContext {
            treble: Vec::new(),
            bass: Vec::new(),
            treble_units: self.treble_units,
            bass_units: self.bass_units,
            next_note_id: self.next_note_id,
            next_rest_id: self.next_rest_id,
        };
        let ghost start = ctx@;
        assert(events_view(ctx.treble@) =~= Seq::<EventView>::empty());
        assert(events_view(ctx.bass@) =~= Seq::<EventView>::empty());
        assert(start.voices =~= seq![Seq::<EventView>::empty(), Seq::<EventView>::empty()]);
        let ghost st1 = self@;
        let divisions = self.divisions;
        let staves = self.staves;
        let mut i: usize = 0;
        while i < notes.len()
            invariant
                refs_view(notes@) == nv,
                i <= notes@.len(),
                nv == m@.elements("note"@),
                divisions == self.divisions,
                staves == self.staves,
                self@ == st1,
                measure_step(m@, old(self)@) == close_measure(
                    st1,
                    notes_prefix(nv, nv.len() as int, divisions, staves, start),
                ),
                notes_prefix(nv, i as int, divisions, staves, start) == Ok::<NoteState, ImportErrorView>(ctx@),
            decreases notes@.len() - i,
        {
            if divisions <= 0 {
                proof {
                    lemma_notes_prefix_err(nv, i + 1, nv.len() as int, divisions, staves, start);
                }
                return Err(ImportError::Unsupported(owned("missing divisions")));
            }
            assert(nv[i as int] == notes[i as int]@);
            let r = parse_note_into(notes[i], divisions, staves, &mut ctx);
            if r.is_err() {
                proof {
                    lemma_notes_prefix_err(nv, i + 1, nv.len() as int, divisions, staves, start);
                }
                return r;
            }
            i = i + 1;
        }
        let ghost ns = ctx@;
        let target: i64 = 2 * (self.beats_per_measure as i64);
        if !voice_fills(&ctx.treble, target) || (staves == 2 && !voice_fills(&ctx.bass, target)) {
            return Err(ImportError::Unsupported(owned("measures that do not fill the meter")));
        }
        let measure = Measure { voices: [ctx.treble, ctx.bass] };
        assert(measure@ == MeasureView { treble: ns.voices[0], bass: ns.voices[1] });
        let ghost old_measures = self.measures@;
        self.measures.push(measure);
        assert(measures_view(self.measures@) =~= measures_view(old_measures).push(measure@));
        self.treble_units = ctx.treble_units;
        self.bass_units = ctx.bass_units;
        self.next_note_id = ctx.next_note_id;
        self.next_rest_id = ctx.next_rest_id;
        assert(self@.units =~= ns.units);
        Ok(())
    }
}

/// The trimmed text at the end of `path` below `element`, if it is there
/// and not empty.
pub(crate) fn first_text(element: &Element, path: &[&str]) -> (r: Option<String>)
    ensures
        match r {
            Some(t) => text_at(element@, path@.map_values(|s: &str| s@)) == Some(t@),
            None => text_at(element@, path@.map_values(|s: &str| s@)) is None,
        },
{
    let ghost names = path@.map_values(|s: &str| s@);
    let mut current = element;
    let mut i: usize = 0;
    assert(names.subrange(0, names.len() as int) == names);
    while i < path.len()
        invariant
            names == path@.map_values(|s: &str| s@),
            i <= path@.len(),
            follow_path(element@, names) == follow_path(current@, names.subrange(i as int, names.len() as int)),
        decreases path@.len() - i,
    {
        let ghost rest = names.subrange(i as int, names.len() as int);
        assert(rest.drop_first() == names.subrange(i + 1, names.len() as int));
        assert(rest[0] == path@[i as int]@);
        match current.first(path[i]) {
            Some(c) => {
                current = c;
            },
            None => {
                return None;
            },
        }
        i = i + 1;
    }
    assert(names.subrange(i as int, names.len() as int) =~= Seq::<Seq<char>>::empty());
    let text = trim_string(&current.string_value());
    if text.as_str().unicode_len() == 0 {
        None
    } else {
        Some(text)
    }
}

/// The score a parsed MusicXML document tree describes, or why it is
/// rejected.
pub fn score_from_document(doc: Option<Element>) -> (r: Result<Score, ImportError>)
    ensures
        import_view(r) == import_tree(opt_element_view(doc)),
{
    let root = match doc {
        Some(root) => root,
        None => return Err(ImportError::NotMusicXml),
    };
    if !str_is(&root.name, "score-partwise") {
        return Err(ImportError::NotMusicXml);
    }
    let parts = root.elements("part");
    if parts.len() == 0 {
        return Err(ImportError::NotMusicXml);
    }
    if parts.len() > 1 {
        return Err(ImportError::MultipleParts);
    }
    let part = parts[0];
    let title = match first_text(&root, &["work", "work-title"]) {
        Some(t) => Some(t),
        None => first_text(&root, &["movement-title"]),
    };
    let measures = part.elements("measure");
    let ghost mv = part@.elements("measure"@);
    if measures.len() == 0 {
        return Err(ImportError::NotMusicXml);
    }
    let ghost title_v = score_title(root@);
    proof {
        assert(["work", "work-title"]@.map_values(|s: &str| s@) =~= seq!["work"@, "work-title"@]);
        assert(["movement-title"]@.map_values(|s: &str| s@) =~= seq!["movement-title"@]);
    }
    let mut ctx = ImportContext::new();
    let mut i: usize = 0;
    while i < measures.len()
        invariant
            import_tree(opt_element_view(doc)) == close_score(measures_prefix(mv, mv.len() as int), title_v),
            refs_view(measures@) == mv,
            i <= measures@.len(),
            measures_prefix(mv, i as int) == Ok::<ImportState, ImportErrorView>(ctx@),
        decreases measures@.len() - i,
    {
        assert(mv[i as int] == measures[i as int]@);
        let r = ctx.import_measure(measures[i]);
        if let Err(e) = r {
            proof {
                lemma_measures_prefix_err(mv, i + 1, mv.len() as int);
            }
            return Err(e);
        }
        i = i + 1;
    }

    Ok(
        Score {
            staves: ctx.staves,
            fifths: ctx.fifths,
            beats_per_measure: ctx.beats_per_measure,
            measures: ctx.measures,
            title,
        },
    )
}

/// Parses and validates a MusicXML document of the supported subset.
pub fn parse_music_xml(data: &[u8]) -> (r: Result<Score, ImportError>)
    ensures
        import_view(r) == import_tree(document_tree(xml_events(data@))),
{
    let doc = parse_document(data);
    score_from_document(doc)
}

} // verus!
