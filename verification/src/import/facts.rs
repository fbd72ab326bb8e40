//! What every import keeps: the contents the engraving needs, and note
//! ids numbered one per note without repeats.

use vstd::prelude::*;

use crate::score::{EventView, MeasureView, NoteView};
use crate::engrave::grouping::{score_spelled, voice_steps_valid};
use crate::timemap::lookup::{score_notes, voice_notes};
use crate::text::decimal;
use crate::xml::Node;
use vstd::string::StringExecFns;
use crate::import::{
    add_to_chord, attributes_step, has_tie, import_tree, initial_import_state, measure_step,
    measure_full, measures_prefix, note_duration, note_step, notes_prefix, pitch_of, push_event,
    ImportState,
    NoteState,
};

verus! {

// ---------------------------------------------------------------------
// What the importer accepts
// ---------------------------------------------------------------------

/// What every note state of an import keeps: two voices whose notes are
/// all spelled with a letter step.
pub open spec fn note_state_ok(st: NoteState) -> bool {
    &&& st.voices.len() == 2
    &&& st.units.len() == 2
    &&& voice_steps_valid(st.voices[0])
    &&& voice_steps_valid(st.voices[1])
}

/// What every import state keeps: a key of -7 ... +7, one or two staves,
/// and every note spelled with a letter step.
pub open spec fn import_state_ok(st: ImportState) -> bool {
    &&& -7 <= st.fifths <= 7
    &&& st.staves == 1 || st.staves == 2
    &&& 1 <= st.beats_per_measure
    &&& st.units.len() == 2
    &&& score_spelled(st.measures)
    &&& forall|i: int|
        0 <= i < st.measures.len() ==> measure_full(#[trigger] st.measures[i], st.staves, st.beats_per_measure)
}

/// A note state of a one-staff score keeps its lower voice empty.
pub(crate) proof fn lemma_notes_prefix_one_staff(
    notes: Seq<Node>,
    k: int,
    divisions: i32,
    staves: usize,
    st: NoteState,
)
    requires
        staves != 2,
        st.voices.len() == 2,
        st.voices[1].len() == 0,
    ensures
        notes_prefix(notes, k, divisions, staves, st) matches Ok(st2) ==> st2.voices.len() == 2
            && st2.voices[1].len() == 0,
    decreases k,
{
    if k > 0 {
        lemma_notes_prefix_one_staff(notes, k - 1, divisions, staves, st);
    }
}

/// Attributes after the first measure keep the staff count, key and meter;
/// every accepted one keeps them in range.
pub(crate) proof fn lemma_attributes_ok(a: Node, st: ImportState)
    requires
        import_state_ok(st),
    ensures
        attributes_step(a, st) matches Ok(st2) ==> {
            &&& -7 <= st2.fifths <= 7
            &&& st2.staves == 1 || st2.staves == 2
            &&& 1 <= st2.beats_per_measure
            &&& st2.units == st.units
            &&& st2.measures == st.measures
            &&& st.measures.len() > 0 ==> st2.staves == st.staves && st2.fifths == st.fifths
                && st2.beats_per_measure == st.beats_per_measure
        },
{
}

pub(crate) proof fn lemma_push_event_ok(st: NoteState, v: int, ev: EventView)
    requires
        note_state_ok(st),
        v == 0 || v == 1,
        forall|j: int| 0 <= j < ev.notes.len() ==> #[trigger] ev.notes[j].pitch.step <= 6,
    ensures
        note_state_ok(push_event(st, v, ev)),
{
    let st2 = push_event(st, v, ev);
    assert forall|w: int| 0 <= w < 2 implies voice_steps_valid(#[trigger] st2.voices[w]) by {
        if w == v {
            let vv = st.voices[v].push(ev);
            assert(st2.voices[w] == vv);
            assert forall|i: int, j: int| 0 <= i < vv.len() && 0 <= j < vv[i].notes.len() implies #[trigger] vv[i].notes[j].pitch.step
                <= 6 by {
                if i < st.voices[v].len() {
                    assert(vv[i] == st.voices[v][i]);
                }
            }
        }
    }
    assert(voice_steps_valid(st2.voices[0]));
    assert(voice_steps_valid(st2.voices[1]));
}

pub(crate) proof fn lemma_add_to_chord_ok(st: NoteState, v: int, note: NoteView)
    requires
        note_state_ok(st),
        v == 0 || v == 1,
        st.voices[v].len() > 0,
        note.pitch.step <= 6,
    ensures
        note_state_ok(add_to_chord(st, v, note)),
{
    let st2 = add_to_chord(st, v, note);
    let voice = st.voices[v];
    let last = voice.last();
    let nv = voice.update(voice.len() - 1, EventView { notes: last.notes.push(note), ..last });
    assert(st2.voices[v] == nv);
    assert forall|i: int, j: int| 0 <= i < nv.len() && 0 <= j < nv[i].notes.len() implies #[trigger] nv[i].notes[j].pitch.step
        <= 6 by {
        if i < voice.len() - 1 {
            assert(nv[i] == voice[i]);
        } else {
            assert(nv[i].notes == last.notes.push(note));
            if j < last.notes.len() {
                assert(last == voice[voice.len() - 1]);
                assert(last.notes[j].pitch.step <= 6);
            }
        }
    }
    assert(voice_steps_valid(st2.voices[0]));
    assert(voice_steps_valid(st2.voices[1]));
}

pub(crate) proof fn lemma_note_step_ok(n: Node, divisions: i32, staves: usize, st: NoteState)
    requires
        note_state_ok(st),
    ensures
        note_step(n, divisions, staves, st) matches Ok(st2) ==> note_state_ok(st2),
{
    if let Ok(st2) = note_step(n, divisions, staves, st) {
        let staff = match n.int_child("staff"@) {
            Some(s) => s,
            None => 1i32,
        };
        let v = staff - 1;
        let raw = n.int_child("duration"@).unwrap();
        let duration = note_duration(raw, divisions).unwrap();
        if n.first("rest"@) is Some {
            let ev = EventView {
                onset_units: st.units[v],
                duration,
                notes: Seq::empty(),
                rest_id: Some("rest-"@ + decimal(st.next_rest_id as nat)),
            };
            lemma_push_event_ok(st, v, ev);
        } else {
            let p = n.first("pitch"@).unwrap();
            let pitch = pitch_of(p)->Ok_0;
            let note = NoteView {
                pitch,
                id: "note-"@ + decimal(st.next_note_id as nat),
                tie_start: has_tie(n, "start"@),
                tie_stop: has_tie(n, "stop"@),
                explicit_accidental: n.first("accidental"@) is Some,
            };
            let st1 = NoteState { next_note_id: st.next_note_id.wrapping_add(1), ..st };
            if n.first("chord"@) is Some {
                lemma_add_to_chord_ok(st1, v, note);
            } else {
                let ev = EventView { onset_units: st.units[v], duration, notes: seq![note], rest_id: None };
                lemma_push_event_ok(st1, v, ev);
            }
        }
    }
}

pub(crate) proof fn lemma_notes_prefix_ok(notes: Seq<Node>, k: int, divisions: i32, staves: usize, st: NoteState)
    requires
        note_state_ok(st),
    ensures
        notes_prefix(notes, k, divisions, staves, st) matches Ok(st2) ==> note_state_ok(st2),
    decreases k,
{
    if k > 0 {
        lemma_notes_prefix_ok(notes, k - 1, divisions, staves, st);
        if let Ok(s) = notes_prefix(notes, k - 1, divisions, staves, st) {
            lemma_note_step_ok(notes[k - 1], divisions, staves, s);
        }
    }
}

pub(crate) proof fn lemma_measure_step_ok(m: Node, st: ImportState)
    requires
        import_state_ok(st),
    ensures
        measure_step(m, st) matches Ok(st2) ==> import_state_ok(st2),
{
    if let Ok(st2) = measure_step(m, st) {
        let st1 = match m.first("attributes"@) {
            Some(a) => attributes_step(a, st)->Ok_0,
            None => st,
        };
        if let Some(a) = m.first("attributes"@) {
            lemma_attributes_ok(a, st);
        }
        let notes = m.elements("note"@);
        let start = NoteState {
            voices: seq![Seq::empty(), Seq::empty()],
            units: st1.units,
            next_note_id: st1.next_note_id,
            next_rest_id: st1.next_rest_id,
        };
        assert(note_state_ok(start));
        lemma_notes_prefix_ok(notes, notes.len() as int, st1.divisions, st1.staves, start);
        if st1.staves != 2 {
            lemma_notes_prefix_one_staff(notes, notes.len() as int, st1.divisions, st1.staves, start);
        }
        let ns = notes_prefix(notes, notes.len() as int, st1.divisions, st1.staves, start)->Ok_0;
        let mv = MeasureView { treble: ns.voices[0], bass: ns.voices[1] };
        assert(st2.measures == st1.measures.push(mv));
        assert(seq![mv.treble, mv.bass] =~= ns.voices);
        assert forall|i: int| 0 <= i < st2.measures.len() implies measure_full(
            #[trigger] st2.measures[i],
            st2.staves,
            st2.beats_per_measure,
        ) by {
            if i < st1.measures.len() {
                assert(st2.measures[i] == st.measures[i]);
            }
        }
        assert forall|i: int| 0 <= i < st2.measures.len() implies voice_steps_valid(#[trigger] st2.measures[i].treble)
            && voice_steps_valid(st2.measures[i].bass) by {
            if i < st1.measures.len() {
                assert(st2.measures[i] == st1.measures[i]);
            }
        }
    }
}

pub(crate) proof fn lemma_measures_prefix_ok(measures: Seq<Node>, k: int)
    ensures
        measures_prefix(measures, k) matches Ok(st) ==> import_state_ok(st),
    decreases k,
{
    if k > 0 {
        lemma_measures_prefix_ok(measures, k - 1);
        if let Ok(st) = measures_prefix(measures, k - 1) {
            lemma_measure_step_ok(measures[k - 1], st);
        }
    } else {
        assert(score_spelled(initial_import_state().measures));
    }
}

/// Every score the importer accepts keeps to what the engraving needs of
/// its contents: a key signature of -7 ... +7, one or two staves, a meter
/// of at least one beat, every note spelled with a letter step (0 = C ...
/// 6 = B), and whole measures (each voice fills the meter, and a score of
/// one staff has nothing in its lower voice); so it can be engraved
/// whenever its measures and voices are within the engraving's size
/// limits.
pub proof fn law_imported_scores_are_engravable(doc: Option<Node>)
    ensures
        import_tree(doc) matches Ok(sc) ==> {
            &&& -7 <= sc.fifths <= 7
            &&& sc.staves == 1 || sc.staves == 2
            &&& 1 <= sc.beats_per_measure
            &&& score_spelled(sc.measures)
            &&& forall|i: int|
                0 <= i < sc.measures.len() ==> measure_full(#[trigger] sc.measures[i], sc.staves, sc.beats_per_measure)
            &&& (sc.measures.len() <= 0x1_0000_0000 && forall|i: int|
                0 <= i < sc.measures.len() ==> crate::layout::systems::measure_fits(#[trigger] sc.measures[i]))
                ==> crate::layout::systems::engravable(sc)
        },
{
    if let Some(root) = doc {
        let parts = root.elements("part"@);
        if root.name == "score-partwise"@ && parts.len() == 1 {
            let measures = parts[0].elements("measure"@);
            lemma_measures_prefix_ok(measures, measures.len() as int);
            if let Ok(sc) = import_tree(doc) {
                crate::engrave::grouping::lemma_spelled_score_ties_safe(sc.measures, sc.staves == 2);
            }
        }
    }
}

// ---------------------------------------------------------------------
// Note ids
// ---------------------------------------------------------------------

/// The id the importer gives its `k`-th note.
pub open spec fn note_id(k: nat) -> Seq<char> {
    "note-"@ + decimal(k)
}

/// Whether `id` is the id of one of the first `count` notes.
pub open spec fn numbered_below(id: Seq<char>, count: nat) -> bool {
    exists|k: nat| k < count && id == #[trigger] note_id(k)
}

/// The ids of a sequence of notes.
pub open spec fn note_ids(notes: Seq<NoteView>) -> Seq<Seq<char>> {
    Seq::new(notes.len(), |i: int| notes[i].id)
}

/// Whether the ids `ids` are distinct, each that of one of the first
/// `count` notes.
pub open spec fn ids_ok(ids: Seq<Seq<char>>, count: nat) -> bool {
    &&& forall|i: int| 0 <= i < ids.len() ==> numbered_below(#[trigger] ids[i], count)
    &&& forall|i: int, j: int| 0 <= i < j < ids.len() ==> ids[i] != ids[j]
}

pub(crate) proof fn lemma_note_id_injective(a: nat, b: nat)
    requires
        note_id(a) == note_id(b),
    ensures
        a == b,
{
    let p = "note-"@;
    assert(note_id(a).subrange(p.len() as int, note_id(a).len() as int) =~= decimal(a));
    assert(note_id(b).subrange(p.len() as int, note_id(b).len() as int) =~= decimal(b));
    crate::text::lemma_decimal_injective(a, b);
}

pub(crate) proof fn lemma_ids_insert(a: Seq<Seq<char>>, b: Seq<Seq<char>>, c: nat)
    requires
        ids_ok(a + b, c),
    ensures
        ids_ok(a + seq![note_id(c)] + b, c + 1),
{
    let old = a + b;
    let x = note_id(c);
    let new = a + seq![x] + b;
    assert forall|i: int| 0 <= i < old.len() implies #[trigger] old[i] != x by {
        assert(numbered_below(old[i], c));
        let k = choose|k: nat| k < c && old[i] == #[trigger] note_id(k);
        if old[i] == x {
            lemma_note_id_injective(k, c);
        }
    }
    assert forall|i: int| 0 <= i < new.len() implies numbered_below(#[trigger] new[i], c + 1) by {
        if i < a.len() {
            assert(new[i] == old[i]);
            assert(numbered_below(old[i], c));
            let k = choose|k: nat| k < c && old[i] == #[trigger] note_id(k);
            assert(k < c + 1 && new[i] == note_id(k));
        } else if i == a.len() {
            assert(new[i] == x);
            assert(c < c + 1 && new[i] == note_id(c));
        } else {
            assert(new[i] == old[i - 1]);
            assert(numbered_below(old[i - 1], c));
            let k = choose|k: nat| k < c && old[i - 1] == #[trigger] note_id(k);
            assert(k < c + 1 && new[i] == note_id(k));
        }
    }
    assert forall|i: int, j: int| 0 <= i < j < new.len() implies new[i] != new[j] by {
        let oi = if i < a.len() {
            i
        } else {
            i - 1
        };
        let oj = if j < a.len() {
            j
        } else {
            j - 1
        };
        if i != a.len() && j != a.len() {
            assert(new[i] == old[oi]);
            assert(new[j] == old[oj]);
        } else if i == a.len() {
            assert(new[j] == old[oj]);
        } else {
            assert(new[i] == old[oi]);
        }
    }
}

pub(crate) proof fn lemma_note_ids_add(u: Seq<NoteView>, w: Seq<NoteView>)
    ensures
        note_ids(u + w) == note_ids(u) + note_ids(w),
{
    assert(note_ids(u + w) =~= note_ids(u) + note_ids(w));
}

/// All the notes of a note state, treble voice then bass voice.
pub open spec fn state_notes(ns: NoteState) -> Seq<NoteView> {
    voice_notes(ns.voices[0]) + voice_notes(ns.voices[1])
}

/// What the ids of a note state keep, after the notes `before` of the
/// measures already closed: one id per note so far, `note-0` onward, all
/// distinct, as long as their count fits a counter.
pub open spec fn note_ids_kept(before: Seq<NoteView>, ns: NoteState) -> bool {
    let all = note_ids(before + state_notes(ns));
    &&& ns.voices.len() == 2
    &&& ns.units.len() == 2
    &&& all.len() <= usize::MAX ==> ns.next_note_id == all.len() && ids_ok(all, all.len())
}

pub(crate) proof fn lemma_voice_gains_note(voice: Seq<EventView>, grown: Seq<EventView>, n: NoteView)
    requires
        grown == voice.push(EventView { notes: seq![n], ..grown.last() }) || (voice.len() > 0
            && grown == voice.update(
            voice.len() - 1,
            EventView { notes: voice.last().notes.push(n), ..voice.last() },
        )),
    ensures
        voice_notes(grown) == voice_notes(voice).push(n),
{
    if grown == voice.push(EventView { notes: seq![n], ..grown.last() }) {
        assert(grown.drop_last() =~= voice);
        assert(voice_notes(voice) + seq![n] =~= voice_notes(voice).push(n));
    } else {
        assert(grown.drop_last() =~= voice.drop_last());
        assert(voice_notes(voice) == voice_notes(voice.drop_last()) + voice.last().notes);
        assert(voice_notes(voice.drop_last()) + voice.last().notes.push(n) =~= (voice_notes(
            voice.drop_last(),
        ) + voice.last().notes).push(n));
    }
}

pub(crate) proof fn lemma_state_gains_note(before: Seq<NoteView>, ns: NoteState, ns2: NoteState, v: int, n: NoteView)
    requires
        note_ids_kept(before, ns),
        v == 0 || v == 1,
        voice_notes(ns2.voices[v]) == voice_notes(ns.voices[v]).push(n),
        ns2.voices[1 - v] == ns.voices[1 - v],
        ns2.voices.len() == 2,
        ns2.units.len() == 2,
        n.id == note_id(ns.next_note_id as nat),
        ns2.next_note_id == ns.next_note_id.wrapping_add(1),
    ensures
        note_ids_kept(before, ns2),
{
    let t = voice_notes(ns.voices[0]);
    let b = voice_notes(ns.voices[1]);
    let old = note_ids(before + state_notes(ns));
    let new = note_ids(before + state_notes(ns2));
    lemma_note_ids_add(before, state_notes(ns));
    lemma_note_ids_add(before, state_notes(ns2));
    lemma_note_ids_add(t, b);
    if v == 0 {
        lemma_note_ids_add(t.push(n), b);
        assert(note_ids(t.push(n)) =~= note_ids(t) + seq![n.id]);
        assert(new =~= (note_ids(before) + note_ids(t)) + seq![n.id] + note_ids(b));
        assert(old =~= (note_ids(before) + note_ids(t)) + note_ids(b));
        if new.len() <= usize::MAX {
            lemma_ids_insert(note_ids(before) + note_ids(t), note_ids(b), old.len());
        }
    } else {
        lemma_note_ids_add(t, b.push(n));
        assert(note_ids(b.push(n)) =~= note_ids(b) + seq![n.id]);
        assert(new =~= (note_ids(before) + note_ids(t) + note_ids(b)) + seq![n.id] + Seq::<Seq<char>>::empty());
        assert(old =~= (note_ids(before) + note_ids(t) + note_ids(b)) + Seq::<Seq<char>>::empty());
        if new.len() <= usize::MAX {
            lemma_ids_insert(note_ids(before) + note_ids(t) + note_ids(b), Seq::empty(), old.len());
        }
    }
}

pub(crate) proof fn lemma_note_step_ids(n: Node, divisions: i32, staves: usize, before: Seq<NoteView>, st: NoteState)
    requires
        note_ids_kept(before, st),
    ensures
        note_step(n, divisions, staves, st) matches Ok(st2) ==> note_ids_kept(before, st2),
{
    if let Ok(st2) = note_step(n, divisions, staves, st) {
        let staff = match n.int_child("staff"@) {
            Some(s) => s,
            None => 1i32,
        };
        let v = staff - 1;
        let raw = n.int_child("duration"@).unwrap();
        let duration = note_duration(raw, divisions).unwrap();
        if n.first("rest"@) is Some {
            let ev = EventView {
                onset_units: st.units[v],
                duration,
                notes: Seq::empty(),
                rest_id: Some("rest-"@ + decimal(st.next_rest_id as nat)),
            };
            let pushed = st.voices[v].push(ev);
            assert(pushed.drop_last() =~= st.voices[v]);
            assert(voice_notes(pushed) =~= voice_notes(st.voices[v]));
            assert(state_notes(st2) == state_notes(st));
        } else {
            let p = n.first("pitch"@).unwrap();
            let pitch = pitch_of(p)->Ok_0;
            let note = NoteView {
                pitch,
                id: "note-"@ + decimal(st.next_note_id as nat),
                tie_start: has_tie(n, "start"@),
                tie_stop: has_tie(n, "stop"@),
                explicit_accidental: n.first("accidental"@) is Some,
            };
            let st1 = NoteState { next_note_id: st.next_note_id.wrapping_add(1), ..st };
            if n.first("chord"@) is Some {
                let voice = st.voices[v];
                lemma_voice_gains_note(voice, st2.voices[v], note);
            } else {
                let ev = EventView { onset_units: st.units[v], duration, notes: seq![note], rest_id: None };
                assert(st2.voices[v] == st.voices[v].push(ev));
                assert(st2.voices[v].last() == ev);
                lemma_voice_gains_note(st.voices[v], st2.voices[v], note);
            }
            lemma_state_gains_note(before, st, st2, v, note);
        }
    }
}

pub(crate) proof fn lemma_notes_prefix_ids(notes: Seq<Node>, k: int, divisions: i32, staves: usize, before: Seq<NoteView>, st: NoteState)
    requires
        note_ids_kept(before, st),
    ensures
        notes_prefix(notes, k, divisions, staves, st) matches Ok(st2) ==> note_ids_kept(before, st2),
    decreases k,
{
    if k > 0 {
        lemma_notes_prefix_ids(notes, k - 1, divisions, staves, before, st);
        if let Ok(s) = notes_prefix(notes, k - 1, divisions, staves, st) {
            lemma_note_step_ids(notes[k - 1], divisions, staves, before, s);
        }
    }
}

/// What the ids of an import state keep: one id per note so far,
/// `note-0` onward, all distinct, as long as their count fits a counter.
pub open spec fn import_ids_kept(st: ImportState) -> bool {
    let all = note_ids(score_notes(st.measures));
    &&& st.units.len() == 2
    &&& all.len() <= usize::MAX ==> st.next_note_id == all.len() && ids_ok(all, all.len())
}

pub(crate) proof fn lemma_measure_step_ids(m: Node, st: ImportState)
    requires
        import_ids_kept(st),
    ensures
        measure_step(m, st) matches Ok(st2) ==> import_ids_kept(st2),
{
    if let Ok(st2) = measure_step(m, st) {
        let st1 = match m.first("attributes"@) {
            Some(a) => attributes_step(a, st)->Ok_0,
            None => st,
        };
        assert(st1.measures == st.measures && st1.next_note_id == st.next_note_id) by {
            if let Some(a) = m.first("attributes"@) {
                lemma_attributes_keep_notes(a, st);
            }
        }
        let notes = m.elements("note"@);
        let start = NoteState {
            voices: seq![Seq::empty(), Seq::empty()],
            units: st1.units,
            next_note_id: st1.next_note_id,
            next_rest_id: st1.next_rest_id,
        };
        let before = score_notes(st.measures);
        assert(state_notes(start) =~= Seq::<NoteView>::empty());
        assert(before + state_notes(start) =~= before);
        lemma_notes_prefix_ids(notes, notes.len() as int, st1.divisions, st1.staves, before, start);
        let ns = notes_prefix(notes, notes.len() as int, st1.divisions, st1.staves, start)->Ok_0;
        let mv = MeasureView { treble: ns.voices[0], bass: ns.voices[1] };
        assert(st2.measures == st.measures.push(mv));
        assert(st2.measures.drop_last() =~= st.measures);
        assert(score_notes(st2.measures) =~= before + state_notes(ns));
    }
}

pub(crate) proof fn lemma_attributes_keep_notes(a: Node, st: ImportState)
    ensures
        attributes_step(a, st) matches Ok(st2) ==> st2.measures == st.measures && st2.next_note_id
            == st.next_note_id && st2.units == st.units && st2.next_rest_id == st.next_rest_id,
{
}

pub(crate) proof fn lemma_measures_prefix_ids(measures: Seq<Node>, k: int)
    ensures
        measures_prefix(measures, k) matches Ok(st) ==> import_ids_kept(st),
    decreases k,
{
    if k > 0 {
        lemma_measures_prefix_ids(measures, k - 1);
        if let Ok(st) = measures_prefix(measures, k - 1) {
            lemma_measure_step_ids(measures[k - 1], st);
        }
    } else {
        assert(note_ids(score_notes(initial_import_state().measures)) =~= Seq::<Seq<char>>::empty());
    }
}

/// Every imported note carries an id `note-<k>`, numbered in the order the
/// notes are read, so that the ids are exactly `note-0` up to one less
/// than the number of notes, and no two notes share one (for scores whose
/// note count fits the id counter).
pub proof fn law_imported_note_ids(doc: Option<Node>)
    ensures
        import_tree(doc) matches Ok(sc) ==> {
            let notes = score_notes(sc.measures);
            notes.len() <= usize::MAX ==> {
                &&& forall|i: int| 0 <= i < notes.len() ==> numbered_below(#[trigger] notes[i].id, notes.len())
                &&& forall|i: int, j: int| 0 <= i < j < notes.len() ==> notes[i].id != notes[j].id
            }
        },
{
    if let Some(root) = doc {
        let parts = root.elements("part"@);
        if root.name == "score-partwise"@ && parts.len() == 1 {
            let measures = parts[0].elements("measure"@);
            lemma_measures_prefix_ids(measures, measures.len() as int);
            if let Ok(sc) = import_tree(doc) {
                let notes = score_notes(sc.measures);
                let ids = note_ids(notes);
                if notes.len() <= usize::MAX {
                    assert forall|i: int| 0 <= i < notes.len() implies numbered_below(#[trigger] notes[i].id, notes.len()) by {
                        assert(ids[i] == notes[i].id);
                    }
                    assert forall|i: int, j: int| 0 <= i < j < notes.len() implies notes[i].id != notes[j].id by {
                        assert(ids[i] == notes[i].id);
                        assert(ids[j] == notes[j].id);
                    }
                }
            }
        }
    }
}

} // verus!
