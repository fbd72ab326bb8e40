//! Notes by id: the notes of a score in document order, and the MIDI
//! number of the note with a given id.

use vstd::prelude::*;

use crate::score::{
    events_view, measures_view, notes_view, EventView, MeasureView, Note, NoteView, Score,
};
use crate::text::str_is;

verus! {

/// The notes of a voice's events, in order.
pub open spec fn voice_notes(evs: Seq<EventView>) -> Seq<NoteView>
    decreases evs.len(),
{
    if evs.len() == 0 {
        Seq::empty()
    } else {
        voice_notes(evs.drop_last()) + evs.last().notes
    }
}

/// The notes of measures in document order: measure by measure, treble
/// voice then bass voice.
pub open spec fn score_notes(ms: Seq<MeasureView>) -> Seq<NoteView>
    decreases ms.len(),
{
    if ms.len() == 0 {
        Seq::empty()
    } else {
        score_notes(ms.drop_last()) + voice_notes(ms.last().treble) + voice_notes(ms.last().bass)
    }
}

/// What looking up `id` among `notes` gives: the MIDI number of the first
/// note with that id, if there is one.
pub open spec fn midi_of_id(notes: Seq<NoteView>, id: Seq<char>) -> Option<int>
    decreases notes.len(),
{
    if notes.len() == 0 {
        None
    } else {
        match midi_of_id(notes.drop_last(), id) {
            Some(m) => Some(m),
            None => if notes.last().id == id {
                Some(notes.last().pitch.spec_midi())
            } else {
                None
            },
        }
    }
}

/// Whether the note that looking up `id` among `notes` finds, the first
/// with that id, has a letter step (0 = C ... 6 = B), where there is one.
#[verifier::opaque]
pub open spec fn lookup_spelled(notes: Seq<NoteView>, id: Seq<char>) -> bool {
    forall|i: int|
        0 <= i < notes.len() && (#[trigger] notes[i]).id == id && (forall|j: int|
            0 <= j < i ==> notes[j].id != id) ==> notes[i].pitch.step <= 6
}

/// Looking `id` up finds nothing exactly when no note has that id.
pub(crate) proof fn lemma_midi_of_id_none(notes: Seq<NoteView>, id: Seq<char>)
    ensures
        midi_of_id(notes, id) is None <==> forall|i: int| 0 <= i < notes.len() ==> #[trigger] notes[i].id != id,
    decreases notes.len(),
{
    if notes.len() > 0 {
        lemma_midi_of_id_none(notes.drop_last(), id);
        if midi_of_id(notes, id) is None {
            assert forall|i: int| 0 <= i < notes.len() implies #[trigger] notes[i].id != id by {
                if i < notes.len() - 1 {
                    assert(notes.drop_last()[i] == notes[i]);
                }
            }
        } else if forall|i: int| 0 <= i < notes.len() ==> #[trigger] notes[i].id != id {
            assert forall|i: int| 0 <= i < notes.drop_last().len() implies #[trigger] notes.drop_last()[i].id != id by {
                assert(notes.drop_last()[i] == notes[i]);
            }
            assert(notes[notes.len() - 1].id != id);
        }
    }
}

/// A lookup that is spelled over `a + b` is spelled over `a`, and over `b`
/// when `a` holds no note with that id.
pub(crate) proof fn lemma_lookup_spelled_split(a: Seq<NoteView>, b: Seq<NoteView>, id: Seq<char>)
    requires
        lookup_spelled(a + b, id),
    ensures
        lookup_spelled(a, id),
        midi_of_id(a, id) is None ==> lookup_spelled(b, id),
{
    reveal(lookup_spelled);
    lemma_midi_of_id_none(a, id);
    assert forall|i: int|
        0 <= i < a.len() && (#[trigger] a[i]).id == id && (forall|j: int| 0 <= j < i ==> a[j].id != id) implies a[i].pitch.step
        <= 6 by {
        assert((a + b)[i] == a[i]);
        assert forall|j: int| 0 <= j < i implies (a + b)[j].id != id by {
            assert((a + b)[j] == a[j]);
        }
    }
    if midi_of_id(a, id) is None {
        assert forall|i: int|
            0 <= i < b.len() && (#[trigger] b[i]).id == id && (forall|j: int| 0 <= j < i ==> b[j].id != id) implies b[i].pitch.step
            <= 6 by {
            assert((a + b)[a.len() + i] == b[i]);
            assert forall|j: int| 0 <= j < a.len() + i implies (a + b)[j].id != id by {
                if j < a.len() {
                    assert((a + b)[j] == a[j]);
                } else {
                    assert((a + b)[j] == b[j - a.len()]);
                }
            }
        }
    }
}

pub(crate) proof fn lemma_midi_of_id_append(a: Seq<NoteView>, b: Seq<NoteView>, id: Seq<char>)
    ensures
        midi_of_id(a + b, id) == match midi_of_id(a, id) {
            Some(m) => Some(m),
            None => midi_of_id(b, id),
        },
    decreases b.len(),
{
    if b.len() == 0 {
        assert(a + b =~= a);
    } else {
        lemma_midi_of_id_append(a, b.drop_last(), id);
        assert((a + b).drop_last() =~= a + b.drop_last());
        assert((a + b).last() == b.last());
    }
}

/// Looks `id` up among the notes of `notes`, in order.
pub(crate) fn midi_in_notes(notes: &Vec<Note>, id: &str) -> (r: Option<u8>)
    requires
        lookup_spelled(notes_view(notes@), id@),
    ensures
        r matches Some(m) ==> midi_of_id(notes_view(notes@), id@) == Some(m as int),
        r is None ==> midi_of_id(notes_view(notes@), id@) is None,
{
    let ghost nv = notes_view(notes@);
    let mut j: usize = 0;
    while j < notes.len()
        invariant
            nv == notes_view(notes@),
            lookup_spelled(nv, id@),
            j <= notes@.len(),
            midi_of_id(nv.take(j as int), id@) is None,
        decreases notes@.len() - j,
    {
        assert(nv.take(j + 1).drop_last() == nv.take(j as int));
        assert(nv.take(j + 1).last() == notes@[j as int]@);
        if str_is(&notes[j].id, id) {
            proof {
                reveal(lookup_spelled);
                lemma_midi_of_id_none(nv.take(j as int), id@);
                assert forall|i: int| 0 <= i < j implies nv[i].id != id@ by {
                    assert(nv.take(j as int)[i] == nv[i]);
                }
                assert(nv[j as int].id == id@);
                assert(nv[j as int].pitch.step <= 6);
            }
            let m = notes[j].pitch.midi();
            proof {
                lemma_midi_of_id_append(nv.take(j + 1), nv.skip(j + 1), id@);
                assert(nv.take(j + 1) + nv.skip(j + 1) =~= nv);
            }
            return Some(m);
        }
        j = j + 1;
    }
    assert(nv.take(notes@.len() as int) =~= nv);
    None
}

/// Looks `id` up among the notes of a voice's events, in order.
pub(crate) fn midi_in_voice(voice: &Vec<crate::score::Event>, id: &str) -> (r: Option<u8>)
    requires
        lookup_spelled(voice_notes(events_view(voice@)), id@),
    ensures
        r matches Some(m) ==> midi_of_id(voice_notes(events_view(voice@)), id@) == Some(m as int),
        r is None ==> midi_of_id(voice_notes(events_view(voice@)), id@) is None,
{
    let ghost ev = events_view(voice@);
    let mut i: usize = 0;
    while i < voice.len()
        invariant
            ev == events_view(voice@),
            lookup_spelled(voice_notes(ev), id@),
            i <= voice@.len(),
            midi_of_id(voice_notes(ev.take(i as int)), id@) is None,
        decreases voice@.len() - i,
    {
        let ghost pre = voice_notes(ev.take(i as int));
        let ghost here = voice@[i as int]@.notes;
        proof {
            assert(ev.take(i + 1).drop_last() == ev.take(i as int));
            assert(ev.take(i + 1).last() == voice@[i as int]@);
            lemma_voice_notes_prefix(ev, i + 1);
            lemma_lookup_spelled_split(voice_notes(ev.take(i + 1)), voice_notes(ev).skip(voice_notes(ev.take(i + 1)).len() as int), id@);
            lemma_lookup_spelled_split(pre, here, id@);
        }
        let found = midi_in_notes(&voice[i].notes, id);
        proof {
            lemma_midi_of_id_append(pre, here, id@);
        }
        if let Some(m) = found {
            proof {
                lemma_voice_notes_prefix(ev, i + 1);
                let rest = voice_notes(ev).skip(voice_notes(ev.take(i + 1)).len() as int);
                lemma_midi_of_id_append(voice_notes(ev.take(i + 1)), rest, id@);
            }
            return Some(m);
        }
        i = i + 1;
    }
    assert(ev.take(voice@.len() as int) =~= ev);
    None
}

pub(crate) proof fn lemma_voice_notes_prefix(evs: Seq<EventView>, k: int)
    requires
        0 <= k <= evs.len(),
    ensures
        voice_notes(evs) =~= voice_notes(evs.take(k)) + voice_notes(evs).skip(
            voice_notes(evs.take(k)).len() as int,
        ),
        voice_notes(evs.take(k)).len() <= voice_notes(evs).len(),
        voice_notes(evs).take(voice_notes(evs.take(k)).len() as int) =~= voice_notes(evs.take(k)),
    decreases evs.len(),
{
    if k == evs.len() {
        assert(evs.take(k) =~= evs);
    } else {
        lemma_voice_notes_prefix(evs.drop_last(), k);
        assert(evs.drop_last().take(k) =~= evs.take(k));
    }
}

/// The MIDI number of the note with id `id` (the first one in document
/// order), or `None` when no note has that id.
pub fn note_midi(score: &Score, id: &str) -> (r: Option<u8>)
    requires
        lookup_spelled(score_notes(score@.measures), id@),
    ensures
        r matches Some(m) ==> midi_of_id(score_notes(score@.measures), id@) == Some(m as int),
        r is None ==> midi_of_id(score_notes(score@.measures), id@) is None,
{
    let measures = &score.measures;
    let ghost mv = measures_view(measures@);
    assert(score@.measures == mv);
    let mut k: usize = 0;
    while k < measures.len()
        invariant
            mv == measures_view(measures@),
            mv == score@.measures,
            lookup_spelled(score_notes(mv), id@),
            k <= measures@.len(),
            midi_of_id(score_notes(mv.take(k as int)), id@) is None,
        decreases measures@.len() - k,
    {
        let m = &measures[k];
        proof {
            lemma_measure_lookup(mv, k as int, id@);
            assert(mv[k as int] == m@);
            assert(m@.treble == events_view(m.voices@[0]@));
            assert(m@.bass == events_view(m.voices@[1]@));
        }
        if let Some(v) = midi_in_voice(&m.voices[0], id) {
            return Some(v);
        }
        if let Some(v) = midi_in_voice(&m.voices[1], id) {
            return Some(v);
        }
        k = k + 1;
    }
    assert(mv.take(measures@.len() as int) =~= mv);
    None
}

/// What looking up `id` in measure `k` gives, when the measures before it
/// hold no note with that id: the lookup over the whole score finds what the
/// upper voice of measure `k` finds, or else what its lower voice finds, and
/// the note found is spelled.
pub(crate) proof fn lemma_measure_lookup(mv: Seq<MeasureView>, k: int, id: Seq<char>)
    requires
        0 <= k < mv.len(),
        lookup_spelled(score_notes(mv), id),
        midi_of_id(score_notes(mv.take(k)), id) is None,
    ensures
        ({
            let tn = voice_notes(mv[k].treble);
            let bn = voice_notes(mv[k].bass);
            &&& lookup_spelled(tn, id)
            &&& midi_of_id(tn, id) is Some ==> midi_of_id(score_notes(mv), id) == midi_of_id(tn, id)
            &&& midi_of_id(tn, id) is None ==> lookup_spelled(bn, id)
            &&& midi_of_id(tn, id) is None && midi_of_id(bn, id) is Some ==> midi_of_id(score_notes(mv), id)
                == midi_of_id(bn, id)
            &&& midi_of_id(tn, id) is None && midi_of_id(bn, id) is None ==> midi_of_id(
                score_notes(mv.take(k + 1)),
                id,
            ) is None
        }),
{
    let pre = score_notes(mv.take(k));
    let tn = voice_notes(mv[k].treble);
    let bn = voice_notes(mv[k].bass);
    let upto = score_notes(mv.take(k + 1));
    let rest = score_notes(mv).skip(upto.len() as int);
    assert(mv.take(k + 1).drop_last() == mv.take(k));
    assert(mv.take(k + 1).last() == mv[k]);
    lemma_score_notes_prefix(mv, k + 1);
    assert(upto == pre + tn + bn);
    lemma_lookup_spelled_split(upto, rest, id);
    lemma_lookup_spelled_split(pre + tn, bn, id);
    lemma_lookup_spelled_split(pre, tn, id);
    lemma_midi_of_id_append(pre, tn, id);
    lemma_midi_of_id_append(pre + tn, bn, id);
    lemma_midi_of_id_append(upto, rest, id);
}

pub(crate) proof fn lemma_score_notes_prefix(ms: Seq<MeasureView>, k: int)
    requires
        0 <= k <= ms.len(),
    ensures
        score_notes(ms) =~= score_notes(ms.take(k)) + score_notes(ms).skip(
            score_notes(ms.take(k)).len() as int,
        ),
        score_notes(ms.take(k)).len() <= score_notes(ms).len(),
    decreases ms.len(),
{
    if k == ms.len() {
        assert(ms.take(k) =~= ms);
    } else {
        lemma_score_notes_prefix(ms.drop_last(), k);
        assert(ms.drop_last().take(k) =~= ms.take(k));
    }
}

} // verus!
