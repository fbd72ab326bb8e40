//! The onset timemap of a score: every onset moment with the ids of the
//! notes that start sounding there, in document order (treble voice, then
//! bass), and lookups of notes by id.

use vstd::prelude::*;

use crate::engrave::columns::{any_at, strictly_increasing};
use crate::score::{
    events_view, measures_view, notes_view, EventView, Measure, MeasureView, Note, NoteView, Score,
};

pub mod lookup;
pub mod moments;

pub use self::lookup::note_midi;
use self::moments::{moments_hold, onset_moments, ordered_onsets};

verus! {

/// A timemap moment: every note id sounding at an onset (document order:
/// treble voice, then bass).
#[derive(Debug, Clone, PartialEq)]
pub struct TimemapEntry {
    pub onset_units: i32,
    pub note_ids: Vec<String>,
}

/// The mathematical value of a [`TimemapEntry`].
pub struct TimemapEntryView {
    pub onset_units: i32,
    pub note_ids: Seq<Seq<char>>,
}

/// The views of a sequence of strings.
pub open spec fn strings_view(v: Seq<String>) -> Seq<Seq<char>> {
    Seq::new(v.len(), |i: int| v[i]@)
}

impl View for TimemapEntry {
    type V = TimemapEntryView;

    open spec fn view(&self) -> TimemapEntryView {
        TimemapEntryView { onset_units: self.onset_units, note_ids: strings_view(self.note_ids@) }
    }
}

/// The views of a sequence of timemap entries.
pub open spec fn entries_view(v: Seq<TimemapEntry>) -> Seq<TimemapEntryView> {
    Seq::new(v.len(), |i: int| v[i]@)
}

/// The ids of the notes of a chord that start sounding (tie continuations
/// are not new onsets), in order.
pub open spec fn sounding_ids(notes: Seq<NoteView>) -> Seq<Seq<char>>
    decreases notes.len(),
{
    if notes.len() == 0 {
        Seq::empty()
    } else if notes.last().tie_stop {
        sounding_ids(notes.drop_last())
    } else {
        sounding_ids(notes.drop_last()).push(notes.last().id)
    }
}

/// The ids starting to sound at onset `t` in a voice's events, in order.
pub open spec fn voice_ids_at(evs: Seq<EventView>, t: i32) -> Seq<Seq<char>>
    decreases evs.len(),
{
    if evs.len() == 0 {
        Seq::empty()
    } else {
        voice_ids_at(evs.drop_last(), t) + if evs.last().onset_units == t {
            sounding_ids(evs.last().notes)
        } else {
            Seq::empty()
        }
    }
}

/// The events of one voice of a measure.
pub open spec fn voice_of(m: MeasureView, bass: bool) -> Seq<EventView> {
    if bass {
        m.bass
    } else {
        m.treble
    }
}

/// The ids starting to sound at onset `t` in one voice, over all measures.
pub open spec fn part_ids_at(ms: Seq<MeasureView>, bass: bool, t: i32) -> Seq<Seq<char>>
    decreases ms.len(),
{
    if ms.len() == 0 {
        Seq::empty()
    } else {
        part_ids_at(ms.drop_last(), bass, t) + voice_ids_at(voice_of(ms.last(), bass), t)
    }
}

/// The ids starting to sound at onset `t`: treble first, then bass.
pub open spec fn moment_ids(ms: Seq<MeasureView>, t: i32) -> Seq<Seq<char>> {
    part_ids_at(ms, false, t) + part_ids_at(ms, true, t)
}

/// Whether `entries` is the timemap of the measures `ms`: one entry per
/// onset at which some note starts sounding, in increasing onset order,
/// each with the ids of the notes starting there.
pub open spec fn is_timemap(ms: Seq<MeasureView>, entries: Seq<TimemapEntryView>) -> bool {
    &&& forall|i: int, j: int|
        0 <= i < j < entries.len() ==> entries[i].onset_units < entries[j].onset_units
    &&& forall|t: i32|
        moment_ids(ms, t).len() > 0 <==> exists|i: int|
            0 <= i < entries.len() && #[trigger] entries[i].onset_units == t
    &&& forall|i: int|
        0 <= i < entries.len() ==> #[trigger] entries[i].note_ids == moment_ids(
            ms,
            entries[i].onset_units,
        )
}

pub(crate) proof fn lemma_voice_ids_onset(evs: Seq<EventView>, t: i32)
    requires
        voice_ids_at(evs, t).len() > 0,
    ensures
        any_at(evs, t),
    decreases evs.len(),
{
    if evs.len() > 0 {
        if evs.last().onset_units == t {
            assert(evs[evs.len() - 1].onset_units == t);
        } else {
            lemma_voice_ids_onset(evs.drop_last(), t);
            let i = choose|i: int| 0 <= i < evs.len() - 1 && #[trigger] evs.drop_last()[i].onset_units == t;
            assert(evs[i].onset_units == t);
        }
    }
}

/// Whether a measure has an event (either voice) starting at `t`.
pub open spec fn onset_in(m: MeasureView, t: i32) -> bool {
    any_at(m.treble, t) || any_at(m.bass, t)
}

/// Whether one of the first `k` measures has an event starting at `t`.
pub open spec fn measures_have_onset(ms: Seq<MeasureView>, k: int, t: i32) -> bool {
    exists|m: int| 0 <= m < k && #[trigger] onset_in(ms[m], t)
}

pub(crate) proof fn lemma_part_ids_onset(ms: Seq<MeasureView>, bass: bool, t: i32)
    requires
        part_ids_at(ms, bass, t).len() > 0,
    ensures
        measures_have_onset(ms, ms.len() as int, t),
    decreases ms.len(),
{
    if ms.len() > 0 {
        let last = ms.len() - 1;
        if voice_ids_at(voice_of(ms.last(), bass), t).len() > 0 {
            lemma_voice_ids_onset(voice_of(ms.last(), bass), t);
            assert(onset_in(ms[last], t));
        } else {
            lemma_part_ids_onset(ms.drop_last(), bass, t);
            let m = choose|m: int| 0 <= m < last && #[trigger] onset_in(ms.drop_last()[m], t);
            assert(ms[m] == ms.drop_last()[m]);
            assert(onset_in(ms[m], t));
        }
    }
}

/// The ids of the notes of `notes` that start sounding, appended to `out`.
pub(crate) fn push_sounding_ids(out: &mut Vec<String>, notes: &Vec<Note>)
    ensures
        strings_view(final(out)@) == strings_view(old(out)@) + sounding_ids(notes_view(notes@)),
{
    let ghost nv = notes_view(notes@);
    let ghost start = strings_view(out@);
    let mut j: usize = 0;
    while j < notes.len()
        invariant
            nv == notes_view(notes@),
            j <= notes@.len(),
            strings_view(out@) == start + sounding_ids(nv.take(j as int)),
        decreases notes@.len() - j,
    {
        let n = &notes[j];
        assert(nv.take(j + 1).drop_last() == nv.take(j as int));
        assert(nv.take(j + 1).last() == n@);
        if !n.tie_stop {
            let ghost before = out@;
            out.push(n.id.clone());
            assert(strings_view(out@) == strings_view(before).push(n.id@));
        }
        j = j + 1;
    }
    assert(nv.take(notes@.len() as int) == nv);
}

/// The ids starting to sound at `t` in `voice`, appended to `out`.
pub(crate) fn push_voice_ids(out: &mut Vec<String>, voice: &Vec<crate::score::Event>, t: i32)
    ensures
        strings_view(final(out)@) == strings_view(old(out)@) + voice_ids_at(events_view(voice@), t),
{
    let ghost ev = events_view(voice@);
    let ghost start = strings_view(out@);
    let mut i: usize = 0;
    while i < voice.len()
        invariant
            ev == events_view(voice@),
            i <= voice@.len(),
            strings_view(out@) == start + voice_ids_at(ev.take(i as int), t),
        decreases voice@.len() - i,
    {
        let e = &voice[i];
        assert(ev.take(i + 1).drop_last() == ev.take(i as int));
        assert(ev.take(i + 1).last() == e@);
        if e.onset_units == t {
            push_sounding_ids(out, &e.notes);
        } else {
            assert(voice_ids_at(ev.take(i + 1), t) == voice_ids_at(ev.take(i as int), t) + Seq::<
                Seq<char>,
            >::empty());
        }
        i = i + 1;
    }
    assert(ev.take(voice@.len() as int) == ev);
}

/// The ids starting to sound at `t` in one voice over all `measures`,
/// appended to `out`.
pub(crate) fn push_part_ids(out: &mut Vec<String>, measures: &Vec<Measure>, bass: bool, t: i32)
    ensures
        strings_view(final(out)@) == strings_view(old(out)@) + part_ids_at(
            measures_view(measures@),
            bass,
            t,
        ),
{
    let ghost mv = measures_view(measures@);
    let ghost start = strings_view(out@);
    let mut k: usize = 0;
    while k < measures.len()
        invariant
            mv == measures_view(measures@),
            k <= measures@.len(),
            strings_view(out@) == start + part_ids_at(mv.take(k as int), bass, t),
        decreases measures@.len() - k,
    {
        let m = &measures[k];
        assert(mv.take(k + 1).drop_last() == mv.take(k as int));
        assert(mv.take(k + 1).last() == m@);
        let voice = if bass {
            &m.voices[1]
        } else {
            &m.voices[0]
        };
        assert(voice_of(m@, bass) == events_view(voice@));
        push_voice_ids(out, voice, t);
        k = k + 1;
    }
    assert(mv.take(measures@.len() as int) == mv);
}

/// The ids of the notes starting to sound at onset `t`, treble first.
pub fn ids_at(measures: &Vec<Measure>, t: i32) -> (r: Vec<String>)
    ensures
        strings_view(r@) == moment_ids(measures_view(measures@), t),
{
    let mut out: Vec<String> = Vec::new();
    assert(strings_view(out@) =~= Seq::<Seq<char>>::empty());
    push_part_ids(&mut out, measures, false, t);
    push_part_ids(&mut out, measures, true, t);
    out
}

/// What the timemap loop keeps: the entries so far are those onsets among
/// the first `i` of `onsets` at which some note starts, in order, each with
/// the ids starting there.
pub open spec fn timemap_prefix(
    ms: Seq<MeasureView>,
    onsets: Seq<i32>,
    i: int,
    entries: Seq<TimemapEntryView>,
) -> bool {
    &&& forall|e: int|
        #![trigger entries[e]]
        0 <= e < entries.len() ==> exists|j: int|
            0 <= j < i && #[trigger] onsets[j] == entries[e].onset_units
    &&& forall|a: int, b: int|
        0 <= a < b < entries.len() ==> entries[a].onset_units < entries[b].onset_units
    &&& forall|e: int|
        0 <= e < entries.len() ==> #[trigger] entries[e].note_ids == moment_ids(
            ms,
            entries[e].onset_units,
        ) && entries[e].note_ids.len() > 0
    &&& forall|j: int|
        0 <= j < i && moment_ids(ms, #[trigger] onsets[j]).len() > 0 ==> exists|e: int|
            0 <= e < entries.len() && #[trigger] entries[e].onset_units == onsets[j]
}

pub(crate) proof fn lemma_timemap_skip(
    ms: Seq<MeasureView>,
    onsets: Seq<i32>,
    i: int,
    entries: Seq<TimemapEntryView>,
)
    requires
        0 <= i < onsets.len(),
        timemap_prefix(ms, onsets, i, entries),
        moment_ids(ms, onsets[i]).len() == 0,
    ensures
        timemap_prefix(ms, onsets, i + 1, entries),
{
    assert forall|e: int| #![trigger entries[e]]
        0 <= e < entries.len() implies exists|j: int|
            0 <= j < i + 1 && #[trigger] onsets[j] == entries[e].onset_units by {
        let j = choose|j: int| 0 <= j < i && #[trigger] onsets[j] == entries[e].onset_units;
    }
}

pub(crate) proof fn lemma_timemap_push(
    ms: Seq<MeasureView>,
    onsets: Seq<i32>,
    i: int,
    entries: Seq<TimemapEntryView>,
    entry: TimemapEntryView,
)
    requires
        0 <= i < onsets.len(),
        strictly_increasing(onsets),
        timemap_prefix(ms, onsets, i, entries),
        entry.onset_units == onsets[i],
        entry.note_ids == moment_ids(ms, onsets[i]),
        entry.note_ids.len() > 0,
    ensures
        timemap_prefix(ms, onsets, i + 1, entries.push(entry)),
{
    let next = entries.push(entry);
    assert forall|e: int| 0 <= e < entries.len() implies entries[e].onset_units < entry.onset_units by {
        let j = choose|j: int| 0 <= j < i && #[trigger] onsets[j] == entries[e].onset_units;
    }
    assert forall|e: int| #![trigger next[e]]
        0 <= e < next.len() implies exists|j: int|
            0 <= j < i + 1 && #[trigger] onsets[j] == next[e].onset_units by {
        if e < entries.len() {
            let j = choose|j: int| 0 <= j < i && #[trigger] onsets[j] == entries[e].onset_units;
            assert(onsets[j] == next[e].onset_units);
        } else {
            assert(onsets[i] == next[e].onset_units);
        }
    }
    assert forall|j: int|
        0 <= j < i + 1 && moment_ids(ms, #[trigger] onsets[j]).len() > 0 implies exists|e: int|
            0 <= e < next.len() && #[trigger] next[e].onset_units == onsets[j] by {
        if j < i {
            let e = choose|e: int| 0 <= e < entries.len() && #[trigger] entries[e].onset_units == onsets[j];
            assert(next[e].onset_units == onsets[j]);
        } else {
            assert(next[entries.len() as int].onset_units == onsets[j]);
        }
    }
    assert forall|e: int| 0 <= e < next.len() implies #[trigger] next[e].note_ids == moment_ids(
        ms,
        next[e].onset_units,
    ) && next[e].note_ids.len() > 0 by {
        if e < entries.len() {
            assert(next[e] == entries[e]);
        }
    }
}

pub(crate) proof fn lemma_timemap_done(ms: Seq<MeasureView>, onsets: Seq<i32>, entries: Seq<TimemapEntryView>)
    requires
        strictly_increasing(onsets),
        forall|x: i32| onsets.contains(x) <==> measures_have_onset(ms, ms.len() as int, x),
        timemap_prefix(ms, onsets, onsets.len() as int, entries),
    ensures
        is_timemap(ms, entries),
{
    assert forall|t: i32|
        moment_ids(ms, t).len() > 0 <==> exists|e: int|
            0 <= e < entries.len() && #[trigger] entries[e].onset_units == t by {
        if moment_ids(ms, t).len() > 0 {
            if part_ids_at(ms, false, t).len() > 0 {
                lemma_part_ids_onset(ms, false, t);
            } else {
                lemma_part_ids_onset(ms, true, t);
            }
            assert(onsets.contains(t));
            let j = choose|j: int| 0 <= j < onsets.len() && onsets[j] == t;
            assert(moment_ids(ms, onsets[j]).len() > 0);
        }
        if exists|e: int| 0 <= e < entries.len() && #[trigger] entries[e].onset_units == t {
            let e = choose|e: int| 0 <= e < entries.len() && #[trigger] entries[e].onset_units == t;
            assert(entries[e].note_ids == moment_ids(ms, t));
        }
    }
}

/// Every onset moment of the score with its sounding note ids, in onset
/// order (treble voice then bass within a moment).
pub fn build_timemap(score: &Score) -> (r: Vec<TimemapEntry>)
    ensures
        is_timemap(score@.measures, entries_view(r@)),
{
    let measures = &score.measures;
    let ghost mv = measures_view(measures@);
    assert(score@.measures == mv);
    let mut moments = onset_moments(measures);
    let onsets = ordered_onsets(&moments);
    let mut entries: Vec<TimemapEntry> = Vec::new();
    let mut i: usize = 0;
    assert(entries_view(entries@) =~= Seq::<TimemapEntryView>::empty());
    assert forall|j: int| 0 <= j < onsets@.len() implies #[trigger] moments@.contains_key(onsets@[j]) by {
        assert(onsets@.contains(onsets@[j]));
    }
    while i < onsets.len()
        invariant
            mv == measures_view(measures@),
            i <= onsets@.len(),
            strictly_increasing(onsets@),
            moments_hold(moments@, mv),
            forall|j: int| i <= j < onsets@.len() ==> #[trigger] moments@.contains_key(onsets@[j]),
            timemap_prefix(mv, onsets@, i as int, entries_view(entries@)),
        decreases onsets@.len() - i,
    {
        let t = onsets[i];
        assert(moments@.contains_key(onsets@[i as int]));
        let ghost before = moments@;
        let ids = moments.remove(&t).unwrap();
        proof {
            assert(before[t] == ids);
            assert(moments@ == before.remove(t));
            assert forall|j: int| i + 1 <= j < onsets@.len() implies #[trigger] moments@.contains_key(onsets@[j]) by {
                assert(onsets@[i as int] < onsets@[j]);
                assert(before.contains_key(onsets@[j]));
            }
        }
        let ghost ev = entries_view(entries@);
        if ids.len() > 0 {
            let entry = TimemapEntry { onset_units: t, note_ids: ids };
            entries.push(entry);
            proof {
                assert(entries_view(entries@) =~= ev.push(entry@));
                lemma_timemap_push(mv, onsets@, i as int, ev, entry@);
            }
        } else {
            proof {
                assert(strings_view(ids@).len() == 0);
                lemma_timemap_skip(mv, onsets@, i as int, ev);
            }
        }
        i = i + 1;
    }
    proof {
        lemma_timemap_done(mv, onsets@, entries_view(entries@));
    }
    entries
}

} // verus!
