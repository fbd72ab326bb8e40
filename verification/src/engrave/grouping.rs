//! How the events of a voice group for engraving (rests, lone notes and
//! chords, beamed eighth pairs), whether its notes are spelled, and which
//! of its notes tie into the next event.

use vstd::prelude::*;

use crate::score::{events_view, Event, EventView, Measure, MeasureView, Note, NoteView};

verus! {

// ---------------------------------------------------------------------
// Beaming
// ---------------------------------------------------------------------

/// How the events of a voice are engraved: a rest, a lone note or chord,
/// or the first of two eighths joined by a beam (the pair takes no flags).
#[derive(Debug, Clone, Copy, PartialEq, Eq, Structural)]
pub enum VoiceGroup {
    Rest(usize),
    Single(usize),
    BeamedPair(usize),
}

/// Whether event `i` of a voice opens a beamed pair: an undotted eighth on
/// an even eighth position, followed at the next eighth position by an
/// undotted eighth note or chord.
pub open spec fn starts_beam_pair(voice: Seq<EventView>, i: int) -> bool {
    let e = voice[i];
    &&& e.duration.base_units == 1
    &&& !e.duration.dotted
    &&& e.onset_units % 2 == 0
    &&& i + 1 < voice.len()
    &&& voice[i + 1].notes.len() > 0
    &&& voice[i + 1].duration.base_units == 1
    &&& !voice[i + 1].duration.dotted
    &&& voice[i + 1].onset_units == e.onset_units + 1
}

/// The grouping of `voice[i..]`.
pub open spec fn groups_from(voice: Seq<EventView>, i: int) -> Seq<VoiceGroup>
    decreases voice.len() - i,
{
    if i < 0 || i >= voice.len() {
        Seq::empty()
    } else if voice[i].notes.len() == 0 {
        seq![VoiceGroup::Rest(i as usize)] + groups_from(voice, i + 1)
    } else if starts_beam_pair(voice, i) {
        seq![VoiceGroup::BeamedPair(i as usize)] + groups_from(voice, i + 2)
    } else {
        seq![VoiceGroup::Single(i as usize)] + groups_from(voice, i + 1)
    }
}

/// How the events of a voice group for engraving, in order: rests, lone
/// notes/chords, and beamed eighth pairs.
pub fn voice_groups(voice: &Vec<Event>) -> (r: Vec<VoiceGroup>)
    ensures
        r@ == groups_from(events_view(voice@), 0),
{
    let ghost v = events_view(voice@);
    let n = voice.len();
    let mut out: Vec<VoiceGroup> = Vec::new();
    let mut i: usize = 0;
    while i < n
        invariant
            n == voice@.len() == v.len(),
            v == events_view(voice@),
            i <= n + 1,
            groups_from(v, 0) == out@ + groups_from(v, i as int),
        decreases n + 1 - i,
    {
        let e = &voice[i];
        let ghost rest_groups = groups_from(v, i as int);
        if e.notes.len() == 0 {
            out.push(VoiceGroup::Rest(i));
            assert(out@ + groups_from(v, i + 1) =~= out@.drop_last() + rest_groups);
            i = i + 1;
        } else {
            let pair = e.duration.base_units == 1 && !e.duration.dotted && e.onset_units % 2 == 0
                && i + 1 < n && voice[i + 1].notes.len() > 0 && voice[i + 1].duration.base_units
                == 1 && !voice[i + 1].duration.dotted && voice[i + 1].onset_units as i64
                == e.onset_units as i64 + 1;
            if pair {
                out.push(VoiceGroup::BeamedPair(i));
                assert(out@ + groups_from(v, i + 2) =~= out@.drop_last() + rest_groups);
                i = i + 2;
            } else {
                out.push(VoiceGroup::Single(i));
                assert(out@ + groups_from(v, i + 1) =~= out@.drop_last() + rest_groups);
                i = i + 1;
            }
        }
    }
    assert(groups_from(v, i as int) =~= Seq::<VoiceGroup>::empty());
    assert(out@ + Seq::<VoiceGroup>::empty() =~= out@);
    out
}

// ---------------------------------------------------------------------
// Ties
// ---------------------------------------------------------------------

/// Whether every note of every event of `voice` has a step letter in range.
pub open spec fn voice_steps_valid(voice: Seq<EventView>) -> bool {
    forall|i: int, j: int|
        0 <= i < voice.len() && 0 <= j < voice[i].notes.len() ==> #[trigger] voice[i].notes[j].pitch.step
            <= 6
}

/// Whether every note of every measure, in either voice, has a step letter
/// in range.
pub open spec fn score_spelled(ms: Seq<MeasureView>) -> bool {
    forall|i: int|
        0 <= i < ms.len() ==> voice_steps_valid(#[trigger] ms[i].treble) && voice_steps_valid(
            ms[i].bass,
        )
}

/// Whether looking for the stop of a tie that `note` starts among the
/// notes `ns` of the next event reads only spelled pitches: the search goes
/// through the notes in order and, at each tie-stop note, compares its MIDI
/// number with the starting note's, until the two agree; the pitches it
/// compares have a step letter (0 = C ... 6 = B).
pub open spec fn tie_scan_safe(note: NoteView, ns: Seq<NoteView>) -> bool
    decreases ns.len(),
{
    if ns.len() == 0 {
        true
    } else if !ns[0].tie_stop {
        tie_scan_safe(note, ns.drop_first())
    } else {
        &&& ns[0].pitch.step <= 6
        &&& note.pitch.step <= 6
        &&& (ns[0].pitch.spec_midi() == note.pitch.spec_midi() || tie_scan_safe(note, ns.drop_first()))
    }
}

/// Whether every tie that a note of event `i` of `voice` starts, with a next
/// event `next` to stop it, is looked for over spelled pitches.
pub open spec fn event_ties_safe(e: EventView, next: EventView) -> bool {
    forall|j: int| 0 <= j < e.notes.len() && (#[trigger] e.notes[j]).tie_start ==> tie_scan_safe(e.notes[j], next.notes)
}

/// Whether the ties of a voice are looked for over spelled pitches.
pub open spec fn voice_ties_safe(voice: Seq<EventView>) -> bool {
    forall|i: int| 0 <= i < voice.len() - 1 ==> event_ties_safe(#[trigger] voice[i], voice[i + 1])
}

/// Whether the ties from the last event of `voice` over the barline to the
/// first event of `next` are looked for over spelled pitches.
pub open spec fn carry_ties_safe(voice: Seq<EventView>, next: Seq<EventView>) -> bool {
    voice.len() > 0 && next.len() > 0 ==> event_ties_safe(voice.last(), next[0])
}

/// Whether every tie the engraving of measures looks for reads only spelled
/// pitches: those of the upper voice, and on a grand staff (`two`) those of
/// the lower voice, within measures and over barlines.
pub open spec fn score_ties_safe(ms: Seq<MeasureView>, two: bool) -> bool {
    forall|i: int| 0 <= i < ms.len() ==> #[trigger] measure_ties_safe(ms, i, two)
}

/// Whether looking for the stop of a tie that `note` starts among the notes
/// of `next` reads only spelled pitches (see [`tie_scan_safe`]).
pub fn tie_scan_is_safe(note: &Note, next: &Event) -> (r: bool)
    ensures
        r == tie_scan_safe(note@, next@.notes),
{
    let ghost ns = next@.notes;
    let mut m: usize = 0;
    assert(ns.skip(0) =~= ns);
    while m < next.notes.len()
        invariant
            ns == next@.notes,
            m <= ns.len(),
            tie_scan_safe(note@, ns) == tie_scan_safe(note@, ns.skip(m as int)),
        decreases ns.len() - m,
    {
        let n = &next.notes[m];
        assert(ns[m as int] == n@);
        assert(ns.skip(m as int)[0] == n@);
        assert(ns.skip(m as int).drop_first() =~= ns.skip(m + 1));
        if n.tie_stop {
            if n.pitch.step > 6 || note.pitch.step > 6 {
                return false;
            }
            if n.pitch.midi() == note.pitch.midi() {
                return true;
            }
        }
        m = m + 1;
    }
    assert(ns.skip(m as int).len() == 0);
    true
}

/// Whether the ties the notes of `e` start are looked for in `next` over
/// spelled pitches (see [`event_ties_safe`]).
pub fn event_ties_are_safe(e: &Event, next: &Event) -> (r: bool)
    ensures
        r == event_ties_safe(e@, next@),
{
    let mut j: usize = 0;
    while j < e.notes.len()
        invariant
            j <= e@.notes.len(),
            forall|k: int|
                0 <= k < j && (#[trigger] e@.notes[k]).tie_start ==> tie_scan_safe(e@.notes[k], next@.notes),
        decreases e@.notes.len() - j,
    {
        let note = &e.notes[j];
        assert(e@.notes[j as int] == note@);
        if note.tie_start && !tie_scan_is_safe(note, next) {
            return false;
        }
        j = j + 1;
    }
    true
}

/// Whether the ties of `voice` are looked for over spelled pitches.
pub fn voice_ties_are_safe(voice: &Vec<Event>) -> (r: bool)
    ensures
        r == voice_ties_safe(events_view(voice@)),
{
    let ghost v = events_view(voice@);
    if voice.len() == 0 {
        return true;
    }
    let last = voice.len() - 1;
    let mut i: usize = 0;
    while i < last
        invariant
            v == events_view(voice@),
            last == v.len() - 1,
            i <= last,
            forall|k: int| 0 <= k < i && k < v.len() - 1 ==> event_ties_safe(#[trigger] v[k], v[k + 1]),
        decreases v.len() - i,
    {
        assert(v[i as int] == voice@[i as int]@ && v[i + 1] == voice@[i + 1]@);
        if !event_ties_are_safe(&voice[i], &voice[i + 1]) {
            return false;
        }
        i = i + 1;
    }
    true
}

/// Whether the ties from the last event of `voice` to the first of `next`
/// are looked for over spelled pitches.
pub fn carry_ties_are_safe(voice: &Vec<Event>, next: &Vec<Event>) -> (r: bool)
    ensures
        r == carry_ties_safe(events_view(voice@), events_view(next@)),
{
    if voice.len() == 0 || next.len() == 0 {
        return true;
    }
    let last = voice.len() - 1;
    assert(events_view(voice@).last() == voice@[last as int]@);
    assert(events_view(next@)[0] == next@[0]@);
    event_ties_are_safe(&voice[last], &next[0])
}

/// Whether every tie the engraving of `measures` looks for reads only
/// spelled pitches (see [`score_ties_safe`]).
pub fn score_ties_are_safe(measures: &Vec<Measure>, two: bool) -> (r: bool)
    ensures
        r == score_ties_safe(crate::score::measures_view(measures@), two),
{
    let ghost mv = crate::score::measures_view(measures@);
    let mut i: usize = 0;
    while i < measures.len()
        invariant
            mv == crate::score::measures_view(measures@),
            i <= mv.len(),
            forall|k: int| 0 <= k < i ==> #[trigger] measure_ties_safe(mv, k, two),
        decreases mv.len() - i,
    {
        let m = &measures[i];
        assert(mv[i as int] == m@);
        assert(m@.treble == events_view(m.voices@[0]@));
        assert(m@.bass == events_view(m.voices@[1]@));
        if !voice_ties_are_safe(&m.voices[0]) {
            assert(!measure_ties_safe(mv, i as int, two));
            return false;
        }
        if two && !voice_ties_are_safe(&m.voices[1]) {
            assert(!measure_ties_safe(mv, i as int, two));
            return false;
        }
        if i + 1 < measures.len() {
            let n = &measures[i + 1];
            assert(mv[i + 1] == n@);
            assert(n@.treble == events_view(n.voices@[0]@));
            assert(n@.bass == events_view(n.voices@[1]@));
            if !carry_ties_are_safe(&m.voices[0], &n.voices[0]) {
                assert(!measure_ties_safe(mv, i as int, two));
                return false;
            }
            if two && !carry_ties_are_safe(&m.voices[1], &n.voices[1]) {
                assert(!measure_ties_safe(mv, i as int, two));
                return false;
            }
        }
        assert(measure_ties_safe(mv, i as int, two));
        i = i + 1;
    }
    true
}

/// Spelled pitches are always safe to compare.
pub proof fn lemma_spelled_tie_scan(note: NoteView, ns: Seq<NoteView>)
    requires
        note.pitch.step <= 6,
        forall|m: int| 0 <= m < ns.len() ==> #[trigger] ns[m].pitch.step <= 6,
    ensures
        tie_scan_safe(note, ns),
    decreases ns.len(),
{
    if ns.len() > 0 {
        assert(ns[0].pitch.step <= 6);
        assert forall|m: int| 0 <= m < ns.drop_first().len() implies #[trigger] ns.drop_first()[m].pitch.step
            <= 6 by {
            assert(ns.drop_first()[m] == ns[m + 1]);
        }
        lemma_spelled_tie_scan(note, ns.drop_first());
    }
}

/// Whether measure `i` of `ms` has its ties looked for over spelled
/// pitches (see [`score_ties_safe`]).
pub open spec fn measure_ties_safe(ms: Seq<MeasureView>, i: int, two: bool) -> bool {
    &&& voice_ties_safe(ms[i].treble)
    &&& (two ==> voice_ties_safe(ms[i].bass))
    &&& (i + 1 < ms.len() ==> carry_ties_safe(ms[i].treble, ms[i + 1].treble))
    &&& (two && i + 1 < ms.len() ==> carry_ties_safe(ms[i].bass, ms[i + 1].bass))
}

pub(crate) proof fn lemma_spelled_measure_safe(ms: Seq<MeasureView>, i: int, two: bool)
    requires
        score_spelled(ms),
        0 <= i < ms.len(),
    ensures
        measure_ties_safe(ms, i, two),
{
    let m = ms[i];
    assert(voice_steps_valid(m.treble));
    assert(voice_steps_valid(m.bass));
    lemma_spelled_voice_safe(m.treble);
    lemma_spelled_voice_safe(m.bass);
    if i + 1 < ms.len() {
        let n = ms[i + 1];
        assert(voice_steps_valid(n.treble));
        assert(voice_steps_valid(n.bass));
        lemma_spelled_carry_safe(m.treble, n.treble);
        lemma_spelled_carry_safe(m.bass, n.bass);
    }
}

/// A score whose notes all have a step letter is safe to engrave.
pub proof fn lemma_spelled_score_ties_safe(ms: Seq<MeasureView>, two: bool)
    requires
        score_spelled(ms),
    ensures
        score_ties_safe(ms, two),
{
    assert forall|i: int| 0 <= i < ms.len() implies #[trigger] measure_ties_safe(ms, i, two) by {
        lemma_spelled_measure_safe(ms, i, two);
    }
}

pub(crate) proof fn lemma_spelled_events_safe(e: EventView, next: EventView)
    requires
        forall|j: int| 0 <= j < e.notes.len() ==> #[trigger] e.notes[j].pitch.step <= 6,
        forall|m: int| 0 <= m < next.notes.len() ==> #[trigger] next.notes[m].pitch.step <= 6,
    ensures
        event_ties_safe(e, next),
{
    assert forall|j: int| 0 <= j < e.notes.len() && (#[trigger] e.notes[j]).tie_start implies tie_scan_safe(
        e.notes[j],
        next.notes,
    ) by {
        lemma_spelled_tie_scan(e.notes[j], next.notes);
    }
}

pub(crate) proof fn lemma_spelled_voice_safe(v: Seq<EventView>)
    requires
        voice_steps_valid(v),
    ensures
        voice_ties_safe(v),
{
    assert forall|i: int| 0 <= i < v.len() - 1 implies event_ties_safe(#[trigger] v[i], v[i + 1]) by {
        assert forall|j: int| 0 <= j < v[i].notes.len() implies #[trigger] v[i].notes[j].pitch.step <= 6 by {}
        assert forall|m: int| 0 <= m < v[i + 1].notes.len() implies #[trigger] v[i + 1].notes[m].pitch.step <= 6 by {}
        lemma_spelled_events_safe(v[i], v[i + 1]);
    }
}

pub(crate) proof fn lemma_spelled_carry_safe(v: Seq<EventView>, w: Seq<EventView>)
    requires
        voice_steps_valid(v),
        voice_steps_valid(w),
    ensures
        carry_ties_safe(v, w),
{
    if v.len() > 0 && w.len() > 0 {
        let l = v.len() - 1;
        assert forall|j: int| 0 <= j < v.last().notes.len() implies #[trigger] v.last().notes[j].pitch.step <= 6 by {
            assert(v[l].notes[j].pitch.step <= 6);
        }
        assert forall|m: int| 0 <= m < w[0].notes.len() implies #[trigger] w[0].notes[m].pitch.step <= 6 by {
            assert(w[0].notes[m].pitch.step <= 6);
        }
        lemma_spelled_events_safe(v.last(), w[0]);
    }
}

/// Whether note `j` of event `i` starts a tie that the next event stops:
/// that event holds a tie-stop note of the same MIDI pitch.
pub open spec fn is_tie_link(voice: Seq<EventView>, i: int, j: int) -> bool {
    &&& voice[i].notes[j].tie_start
    &&& i + 1 < voice.len()
    &&& exists|m: int|
        0 <= m < voice[i + 1].notes.len() && #[trigger] voice[i + 1].notes[m].tie_stop
            && voice[i + 1].notes[m].pitch.spec_midi() == voice[i].notes[j].pitch.spec_midi()
}

/// The tie links among the first `k` notes of event `i`.
pub open spec fn event_tie_links(voice: Seq<EventView>, i: int, k: int) -> Seq<(usize, usize)>
    decreases k,
{
    if k <= 0 {
        Seq::empty()
    } else if is_tie_link(voice, i, k - 1) {
        event_tie_links(voice, i, k - 1).push((i as usize, (k - 1) as usize))
    } else {
        event_tie_links(voice, i, k - 1)
    }
}

/// The tie links of the first `k` events of a voice, in document order.
pub open spec fn voice_tie_links(voice: Seq<EventView>, k: int) -> Seq<(usize, usize)>
    decreases k,
{
    if k <= 0 {
        Seq::empty()
    } else {
        voice_tie_links(voice, k - 1) + event_tie_links(voice, k - 1, voice[k - 1].notes.len() as int)
    }
}

/// Whether event `next` holds a tie-stop note sounding as `note` does: its
/// notes are searched in order, comparing MIDI numbers at each tie-stop
/// note until one agrees.
pub(crate) fn stops_tie(next: &Event, note: &Note) -> (r: bool)
    requires
        tie_scan_safe(note@, next@.notes),
    ensures
        r == exists|m: int|
            0 <= m < next@.notes.len() && #[trigger] next@.notes[m].tie_stop
                && next@.notes[m].pitch.spec_midi() == note@.pitch.spec_midi(),
{
    let ghost ns = next@.notes;
    let mut m: usize = 0;
    assert(ns.skip(0) =~= ns);
    while m < next.notes.len()
        invariant
            ns == next@.notes,
            m <= ns.len(),
            tie_scan_safe(note@, ns.skip(m as int)),
            forall|k: int|
                0 <= k < m ==> !(#[trigger] ns[k].tie_stop && ns[k].pitch.spec_midi() == note@.pitch.spec_midi()),
        decreases ns.len() - m,
    {
        let n = &next.notes[m];
        assert(ns[m as int] == n@);
        assert(ns.skip(m as int)[0] == n@);
        assert(ns.skip(m as int).drop_first() =~= ns.skip(m + 1));
        if n.tie_stop {
            if n.pitch.midi() == note.pitch.midi() {
                return true;
            }
        }
        m = m + 1;
    }
    false
}

/// The ties a voice engraves: `(event, note)` for each note that starts a
/// tie stopped in the next event by a note of the same pitch.
pub fn tie_links(voice: &Vec<Event>) -> (r: Vec<(usize, usize)>)
    requires
        voice_ties_safe(events_view(voice@)),
    ensures
        r@ == voice_tie_links(events_view(voice@), voice@.len() as int),
{
    let ghost v = events_view(voice@);
    let n = voice.len();
    let mut out: Vec<(usize, usize)> = Vec::new();
    let mut i: usize = 0;
    while i < n
        invariant
            n == voice@.len() == v.len(),
            v == events_view(voice@),
            voice_ties_safe(v),
            i <= n,
            out@ == voice_tie_links(v, i as int),
        decreases n - i,
    {
        let e = &voice[i];
        assert(v[i as int] == e@);
        let ghost before = out@;
        let mut j: usize = 0;
        while j < e.notes.len()
            invariant
                n == voice@.len() == v.len(),
                v == events_view(voice@),
                voice_ties_safe(v),
                i < n,
                v[i as int] == e@,
                j <= e@.notes.len(),
                out@ == before + event_tie_links(v, i as int, j as int),
            decreases e@.notes.len() - j,
        {
            let note = &e.notes[j];
            assert(e@.notes[j as int] == note@);
            let link = note.tie_start && i + 1 < n && {
                let next = &voice[i + 1];
                assert(v[i + 1] == next@);
                assert(event_ties_safe(v[i as int], v[i + 1]));
                assert(v[i as int].notes[j as int] == note@);
                stops_tie(next, note)
            };
            if link {
                out.push((i, j));
            }
            j = j + 1;
        }
        i = i + 1;
    }
    out
}

} // verus!
