//! What a voice's engraving promises: a beam per beamed pair, flags only
//! on lone eighths, a tie per tie link, and a head for every note, which
//! stays addressable on whichever system it falls, for every imported
//! score.

use vstd::prelude::*;

use crate::engrave::{spec_notehead, ElementKind};
use crate::engrave::grouping::{groups_from, starts_beam_pair, voice_tie_links, VoiceGroup};
use crate::layout::MarkView;
use crate::layout::beams::pair_marks;
use crate::layout::notes::{
    chord_marks, event_marks, ledger_marks, note_marks, rest_marks, stem_marks,
};
use crate::layout::opening::{barline_mark, opening_marks, staff_line_marks};
use crate::layout::systems::{
    measure_marks, run_marks, system_layout, system_marks, system_stop, systems_marks,
};
use crate::layout::voices::{group_marks, groups_marks, tie_marks, voice_marks};
use crate::score::{Clef, Duration, EventView, MeasureView, NoteView, ScoreView};
use crate::import::{import_tree, measure_full, ImportErrorView};
use crate::import::facts::law_imported_scores_are_engravable;
use crate::xml::Node;
use crate::guarantees::{
    count_kind, lemma_chord_kinds, lemma_count_add, lemma_count_none, lemma_count_uniform,
};

verus! {

// ---------------------------------------------------------------------
// Beams, flags, ties
// ---------------------------------------------------------------------

/// The number of beamed pairs among groups.
pub open spec fn pair_count(gs: Seq<VoiceGroup>) -> nat
    decreases gs.len(),
{
    if gs.len() == 0 {
        0
    } else {
        pair_count(gs.drop_last()) + if gs.last() is BeamedPair {
            1nat
        } else {
            0nat
        }
    }
}

/// The number of eighths engraved alone (not in a beamed pair) among
/// groups.
pub open spec fn lone_eighth_count(v: Seq<EventView>, gs: Seq<VoiceGroup>) -> nat
    decreases gs.len(),
{
    if gs.len() == 0 {
        0
    } else {
        lone_eighth_count(v, gs.drop_last()) + match gs.last() {
            VoiceGroup::Single(i) => if v[i as int].duration.base_units == 1 {
                1nat
            } else {
                0nat
            },
            _ => 0nat,
        }
    }
}

pub(crate) proof fn lemma_count_single(m: MarkView, k: ElementKind)
    ensures
        count_kind(seq![m], k) == if m.kind == k {
            1nat
        } else {
            0nat
        },
{
    reveal_with_fuel(count_kind, 2);
    assert(seq![m].drop_last() =~= Seq::<MarkView>::empty());
}

pub(crate) proof fn lemma_event_counts(ev: EventView, top: int, clef: Clef, x: int, fifths: i32, with_flag: bool)
    ensures
        count_kind(event_marks(ev, top, clef, x, fifths, with_flag), ElementKind::Beam) == 0,
        count_kind(event_marks(ev, top, clef, x, fifths, with_flag), ElementKind::Tie) == 0,
        count_kind(event_marks(ev, top, clef, x, fifths, with_flag), ElementKind::Flag) == if with_flag
            && ev.duration.base_units == 1 {
            1int
        } else {
            0int
        },
{
    reveal(event_marks);
    let c = chord_marks(ev.notes, ev.duration, top, clef, x, fifths);
    let st = stem_marks(ev, top, clef, x, with_flag);
    lemma_chord_kinds(ev.notes, ev.duration, top, clef, x, fifths);
    lemma_count_none(c, ElementKind::Beam);
    lemma_count_none(c, ElementKind::Tie);
    lemma_count_none(c, ElementKind::Flag);
    lemma_count_add(c, st, ElementKind::Beam);
    lemma_count_add(c, st, ElementKind::Tie);
    lemma_count_add(c, st, ElementKind::Flag);
    if ev.duration.base_units < 8 {
        let a = seq![st[0]];
        assert(st[0].kind == ElementKind::Stem);
        lemma_count_single(st[0], ElementKind::Beam);
        lemma_count_single(st[0], ElementKind::Tie);
        lemma_count_single(st[0], ElementKind::Flag);
        if with_flag && ev.duration.base_units == 1 {
            let b = seq![st[1]];
            assert(st =~= a + b);
            assert(st[1].kind == ElementKind::Flag);
            lemma_count_single(st[1], ElementKind::Beam);
            lemma_count_single(st[1], ElementKind::Tie);
            lemma_count_single(st[1], ElementKind::Flag);
            lemma_count_add(a, b, ElementKind::Beam);
            lemma_count_add(a, b, ElementKind::Tie);
            lemma_count_add(a, b, ElementKind::Flag);
        } else {
            assert(st =~= a);
        }
    } else {
        assert(st =~= Seq::<MarkView>::empty());
    }
}

/// The beams, flags and ties one group draws.
pub open spec fn group_count(v: Seq<EventView>, g: VoiceGroup, k: ElementKind) -> int {
    if k == ElementKind::Beam {
        if g is BeamedPair {
            1
        } else {
            0
        }
    } else if k == ElementKind::Flag {
        match g {
            VoiceGroup::Single(i) => if v[i as int].duration.base_units == 1 {
                1int
            } else {
                0int
            },
            _ => 0int,
        }
    } else {
        0
    }
}

pub(crate) proof fn lemma_group_counts(
    voice: Seq<EventView>,
    g: VoiceGroup,
    top: int,
    clef: Clef,
    onsets: Seq<i32>,
    x: int,
    fifths: i32,
    k: ElementKind,
)
    requires
        k == ElementKind::Beam || k == ElementKind::Flag || k == ElementKind::Tie,
    ensures
        count_kind(group_marks(voice, g, top, clef, onsets, x, fifths), k) == group_count(voice, g, k),
{
    match g {
        VoiceGroup::Rest(i) => {
            reveal(rest_marks);
            let r = group_marks(voice, g, top, clef, onsets, x, fifths);
            assert forall|j: int| 0 <= j < r.len() implies #[trigger] r[j].kind != k by {
                assert(r[j].kind == ElementKind::Rest || r[j].kind == ElementKind::Dot);
            }
            lemma_count_none(r, k);
            assert(count_kind(r, k) == 0);
            assert(group_count(voice, g, k) == 0);
        },
        VoiceGroup::Single(i) => {
            lemma_event_counts(
                voice[i as int],
                top,
                clef,
                crate::layout::voices::event_x(onsets, x, voice[i as int].onset_units),
                fifths,
                true,
            );
        },
        VoiceGroup::BeamedPair(i) => {
            reveal(pair_marks);
            let xa = crate::layout::voices::event_x(onsets, x, voice[i as int].onset_units);
            let xb = crate::layout::voices::event_x(onsets, x, voice[i + 1].onset_units);
            let ea = event_marks(voice[i as int], top, clef, xa, fifths, false);
            let eb = event_marks(voice[i + 1], top, clef, xb, fifths, false);
            lemma_event_counts(voice[i as int], top, clef, xa, fifths, false);
            lemma_event_counts(voice[i + 1], top, clef, xb, fifths, false);
            let pm = pair_marks(voice[i as int], voice[i + 1], top, clef, xa, xb, fifths);
            let beam = seq![pm.last()];
            assert(pm == ea + eb + beam);
            lemma_count_add(ea, eb, k);
            lemma_count_add(ea + eb, beam, k);
            assert(pm.last().kind == ElementKind::Beam);
            lemma_count_single(pm.last(), k);
        },
    }
}

pub(crate) proof fn lemma_groups_counts(
    voice: Seq<EventView>,
    gs: Seq<VoiceGroup>,
    top: int,
    clef: Clef,
    onsets: Seq<i32>,
    x: int,
    fifths: i32,
)
    ensures
        count_kind(groups_marks(voice, gs, top, clef, onsets, x, fifths), ElementKind::Beam) == pair_count(
            gs,
        ),
        count_kind(groups_marks(voice, gs, top, clef, onsets, x, fifths), ElementKind::Flag)
            == lone_eighth_count(voice, gs),
        count_kind(groups_marks(voice, gs, top, clef, onsets, x, fifths), ElementKind::Tie) == 0,
    decreases gs.len(),
{
    if gs.len() > 0 {
        lemma_groups_counts(voice, gs.drop_last(), top, clef, onsets, x, fifths);
        let pre = groups_marks(voice, gs.drop_last(), top, clef, onsets, x, fifths);
        let last = group_marks(voice, gs.last(), top, clef, onsets, x, fifths);
        lemma_group_counts(voice, gs.last(), top, clef, onsets, x, fifths, ElementKind::Beam);
        lemma_group_counts(voice, gs.last(), top, clef, onsets, x, fifths, ElementKind::Flag);
        lemma_group_counts(voice, gs.last(), top, clef, onsets, x, fifths, ElementKind::Tie);
        lemma_count_add(pre, last, ElementKind::Beam);
        lemma_count_add(pre, last, ElementKind::Flag);
        lemma_count_add(pre, last, ElementKind::Tie);
    } else {
        assert(groups_marks(voice, gs, top, clef, onsets, x, fifths) =~= Seq::<MarkView>::empty());
    }
}

/// A voice of a measure engraves one beam per beamed eighth pair, a flag
/// on each eighth engraved alone and none on beamed ones, and one tie per
/// tie link (a note tied into the same pitch in the next event of the
/// measure; ties over the closing barline are drawn after the measure,
/// see `law_ties_over_barlines`).
pub proof fn law_voice_beams_flags_ties(
    voice: Seq<EventView>,
    top: int,
    clef: Clef,
    onsets: Seq<i32>,
    x: int,
    fifths: i32,
)
    ensures
        ({
            let marks = voice_marks(voice, top, clef, onsets, x, fifths);
            let gs = groups_from(voice, 0);
            &&& count_kind(marks, ElementKind::Beam) == pair_count(gs)
            &&& count_kind(marks, ElementKind::Flag) == lone_eighth_count(voice, gs)
            &&& count_kind(marks, ElementKind::Tie) == voice_tie_links(voice, voice.len() as int).len()
        }),
{
    let gs = groups_from(voice, 0);
    lemma_groups_counts(voice, gs, top, clef, onsets, x, fifths);
    let g = groups_marks(voice, gs, top, clef, onsets, x, fifths);
    let t = tie_marks(voice, voice_tie_links(voice, voice.len() as int), top, clef, onsets, x);
    lemma_count_uniform(t, ElementKind::Tie, ElementKind::Beam);
    lemma_count_uniform(t, ElementKind::Tie, ElementKind::Flag);
    lemma_count_uniform(t, ElementKind::Tie, ElementKind::Tie);
    lemma_count_add(g, t, ElementKind::Beam);
    lemma_count_add(g, t, ElementKind::Flag);
    lemma_count_add(g, t, ElementKind::Tie);
}

// ---------------------------------------------------------------------
// Every note is addressable
// ---------------------------------------------------------------------

/// Whether `marks` hold a notehead carrying `id`.
pub open spec fn has_head(marks: Seq<MarkView>, id: Seq<char>) -> bool {
    exists|k: int|
        0 <= k < marks.len() && #[trigger] marks[k].kind == ElementKind::Notehead && marks[k].id == Some(
            id,
        )
}

pub(crate) proof fn lemma_head_left(a: Seq<MarkView>, b: Seq<MarkView>, id: Seq<char>)
    requires
        has_head(a, id),
    ensures
        has_head(a + b, id),
{
    let k = choose|k: int|
        0 <= k < a.len() && #[trigger] a[k].kind == ElementKind::Notehead && a[k].id == Some(id);
    assert((a + b)[k] == a[k]);
}

pub(crate) proof fn lemma_head_right(a: Seq<MarkView>, b: Seq<MarkView>, id: Seq<char>)
    requires
        has_head(b, id),
    ensures
        has_head(a + b, id),
{
    let k = choose|k: int|
        0 <= k < b.len() && #[trigger] b[k].kind == ElementKind::Notehead && b[k].id == Some(id);
    assert((a + b)[a.len() + k] == b[k]);
}

pub(crate) proof fn lemma_chord_heads(notes: Seq<NoteView>, d: Duration, top: int, clef: Clef, x: int, fifths: i32, j: int)
    requires
        0 <= j < notes.len(),
    ensures
        has_head(chord_marks(notes, d, top, clef, x, fifths), notes[j].id),
    decreases notes.len(),
{
    let pre = chord_marks(notes.drop_last(), d, top, clef, x, fifths);
    let n = notes.last();
    let nm = note_marks(n, d, top, clef, x, fifths);
    if j == notes.len() - 1 {
        let step = crate::engrave::spec_staff_step(n.pitch, clef);
        let w = crate::engrave::spec_glyph_width(spec_notehead(d));
        let l = ledger_marks(top, x, step, w);
        let k = l.len() as int;
        assert(nm[k].kind == ElementKind::Notehead && nm[k].id == Some(n.id));
        lemma_head_right(pre, nm, n.id);
    } else {
        lemma_chord_heads(notes.drop_last(), d, top, clef, x, fifths, j);
        assert(notes.drop_last()[j] == notes[j]);
        lemma_head_left(pre, nm, notes[j].id);
    }
}

pub(crate) proof fn lemma_event_heads(ev: EventView, top: int, clef: Clef, x: int, fifths: i32, with_flag: bool, j: int)
    requires
        0 <= j < ev.notes.len(),
    ensures
        has_head(event_marks(ev, top, clef, x, fifths, with_flag), ev.notes[j].id),
{
    reveal(event_marks);
    lemma_chord_heads(ev.notes, ev.duration, top, clef, x, fifths, j);
    lemma_head_left(
        chord_marks(ev.notes, ev.duration, top, clef, x, fifths),
        stem_marks(ev, top, clef, x, with_flag),
        ev.notes[j].id,
    );
}

/// Whether group `g` engraves event `i`.
pub open spec fn covers(g: VoiceGroup, i: int) -> bool {
    match g {
        VoiceGroup::Rest(a) => a == i,
        VoiceGroup::Single(a) => a == i,
        VoiceGroup::BeamedPair(a) => a == i || a + 1 == i,
    }
}

pub(crate) proof fn lemma_groups_cover(v: Seq<EventView>, s: int, i: int)
    requires
        v.len() <= usize::MAX,
        0 <= s <= i < v.len(),
    ensures
        exists|e: int| 0 <= e < groups_from(v, s).len() && covers(#[trigger] groups_from(v, s)[e], i),
    decreases i - s,
{
    let gs = groups_from(v, s);
    if v[s].notes.len() == 0 {
        if s == i {
            assert(covers(gs[0], i));
        } else {
            lemma_groups_cover(v, s + 1, i);
            let rest = groups_from(v, s + 1);
            let e = choose|e: int| 0 <= e < rest.len() && covers(#[trigger] rest[e], i);
            assert(gs[e + 1] == rest[e]);
        }
    } else if starts_beam_pair(v, s) {
        if s == i || s + 1 == i {
            assert(covers(gs[0], i));
        } else {
            lemma_groups_cover(v, s + 2, i);
            let rest = groups_from(v, s + 2);
            let e = choose|e: int| 0 <= e < rest.len() && covers(#[trigger] rest[e], i);
            assert(gs[e + 1] == rest[e]);
        }
    } else {
        if s == i {
            assert(covers(gs[0], i));
        } else {
            lemma_groups_cover(v, s + 1, i);
            let rest = groups_from(v, s + 1);
            let e = choose|e: int| 0 <= e < rest.len() && covers(#[trigger] rest[e], i);
            assert(gs[e + 1] == rest[e]);
        }
    }
}

pub(crate) proof fn lemma_groups_marks_head(
    voice: Seq<EventView>,
    gs: Seq<VoiceGroup>,
    top: int,
    clef: Clef,
    onsets: Seq<i32>,
    x: int,
    fifths: i32,
    e: int,
    id: Seq<char>,
)
    requires
        0 <= e < gs.len(),
        has_head(group_marks(voice, gs[e], top, clef, onsets, x, fifths), id),
    ensures
        has_head(groups_marks(voice, gs, top, clef, onsets, x, fifths), id),
    decreases gs.len(),
{
    let pre = groups_marks(voice, gs.drop_last(), top, clef, onsets, x, fifths);
    let last = group_marks(voice, gs.last(), top, clef, onsets, x, fifths);
    if e == gs.len() - 1 {
        lemma_head_right(pre, last, id);
    } else {
        assert(gs.drop_last()[e] == gs[e]);
        lemma_groups_marks_head(voice, gs.drop_last(), top, clef, onsets, x, fifths, e, id);
        lemma_head_left(pre, last, id);
    }
}

/// Every note of a voice is engraved as a notehead carrying its id.
pub proof fn law_voice_heads(
    voice: Seq<EventView>,
    top: int,
    clef: Clef,
    onsets: Seq<i32>,
    x: int,
    fifths: i32,
    i: int,
    j: int,
)
    requires
        voice.len() <= usize::MAX,
        0 <= i < voice.len(),
        0 <= j < voice[i].notes.len(),
    ensures
        has_head(voice_marks(voice, top, clef, onsets, x, fifths), voice[i].notes[j].id),
{
    let gs = groups_from(voice, 0);
    crate::layout::voices::lemma_groups_valid(voice, 0);
    lemma_groups_cover(voice, 0, i);
    let e = choose|e: int| 0 <= e < gs.len() && covers(#[trigger] gs[e], i);
    let id = voice[i].notes[j].id;
    let g = gs[e];
    assert(crate::layout::voices::group_ok(voice, g));
    reveal(pair_marks);
    match g {
        VoiceGroup::Rest(a) => {},
        VoiceGroup::Single(a) => {
            lemma_event_heads(
                voice[i],
                top,
                clef,
                crate::layout::voices::event_x(onsets, x, voice[i].onset_units),
                fifths,
                true,
                j,
            );
        },
        VoiceGroup::BeamedPair(a) => {
            let xa = crate::layout::voices::event_x(onsets, x, voice[a as int].onset_units);
            let xb = crate::layout::voices::event_x(onsets, x, voice[a + 1].onset_units);
            let ea = event_marks(voice[a as int], top, clef, xa, fifths, false);
            let eb = event_marks(voice[a + 1], top, clef, xb, fifths, false);
            let pm = pair_marks(voice[a as int], voice[a + 1], top, clef, xa, xb, fifths);
            assert(pm == ea + eb + seq![pm.last()]);
            if a == i {
                lemma_event_heads(voice[i], top, clef, xa, fifths, false, j);
                lemma_head_left(ea, eb, id);
            } else {
                lemma_event_heads(voice[i], top, clef, xb, fifths, false, j);
                lemma_head_right(ea, eb, id);
            }
            lemma_head_left(ea + eb, seq![pm.last()], id);
        },
    }
    lemma_groups_marks_head(voice, gs, top, clef, onsets, x, fifths, e, id);
    lemma_head_left(
        groups_marks(voice, gs, top, clef, onsets, x, fifths),
        tie_marks(voice, voice_tie_links(voice, voice.len() as int), top, clef, onsets, x),
        id,
    );
}

/// The voice of a measure on staff `bass` (false: the upper staff).
pub open spec fn voice_on(m: MeasureView, bass: bool) -> Seq<EventView> {
    if bass {
        m.bass
    } else {
        m.treble
    }
}

/// Whether note `j` of event `e` of the voice on staff `bass` of measure
/// `i` exists and is engraved (the lower voice only on a grand staff).
pub open spec fn drawn_note(sc: ScoreView, i: int, bass: bool, e: int, j: int) -> bool {
    &&& 0 <= i < sc.measures.len()
    &&& (bass ==> sc.staves == 2)
    &&& 0 <= e < voice_on(sc.measures[i], bass).len()
    &&& 0 <= j < voice_on(sc.measures[i], bass)[e].notes.len()
    &&& voice_on(sc.measures[i], bass).len() <= usize::MAX
}

pub(crate) proof fn lemma_measure_head(sc: ScoreView, i: int, bass: bool, e: int, j: int, system: int, x: int)
    requires
        drawn_note(sc, i, bass, e, j),
    ensures
        has_head(
            measure_marks(sc.measures[i], sc.staves == 2, system, x, sc.fifths),
            voice_on(sc.measures[i], bass)[e].notes[j].id,
        ),
{
    let m = sc.measures[i];
    let two = sc.staves == 2;
    let on = crate::layout::systems::measure_onsets(m);
    let id = voice_on(m, bass)[e].notes[j].id;
    let t0 = crate::layout::staff_top(two, system, 0);
    let t1 = crate::layout::staff_top(two, system, 1);
    let t = voice_marks(m.treble, t0, Clef::Treble, on, x, sc.fifths);
    let b = if two {
        voice_marks(m.bass, t1, Clef::Bass, on, x, sc.fifths)
    } else {
        Seq::empty()
    };
    let bar = seq![barline_mark(two, system, x + crate::layout::systems::measure_right(m))];
    assert(measure_marks(m, two, system, x, sc.fifths) == t + b + bar);
    if bass {
        law_voice_heads(m.bass, t1, Clef::Bass, on, x, sc.fifths, e, j);
        lemma_head_right(t, b, id);
    } else {
        law_voice_heads(m.treble, t0, Clef::Treble, on, x, sc.fifths, e, j);
        lemma_head_left(t, b, id);
    }
    lemma_head_left(t + b, bar, id);
}

pub(crate) proof fn lemma_run_head(sc: ScoreView, i: int, bass: bool, e: int, j: int, system: int, from: int, to: int, x: int)
    requires
        drawn_note(sc, i, bass, e, j),
        from <= i < to,
    ensures
        has_head(run_marks(sc, system, from, to, x), voice_on(sc.measures[i], bass)[e].notes[j].id),
    decreases i - from,
{
    let id = voice_on(sc.measures[i], bass)[e].notes[j].id;
    let w = crate::layout::systems::measure_width(sc.measures[from]);
    let here = measure_marks(sc.measures[from], sc.staves == 2, system, x, sc.fifths);
    let rest = run_marks(sc, system, from + 1, to, x + w);
    let carried = crate::layout::carry::carry_marks(sc, system, from, to, x);
    if from == i {
        lemma_measure_head(sc, i, bass, e, j, system, x);
        lemma_head_left(here, carried, id);
        lemma_head_left(here + carried, rest, id);
    } else {
        lemma_run_head(sc, i, bass, e, j, system, from + 1, to, x + w);
        lemma_head_right(here + carried, rest, id);
    }
}

pub(crate) proof fn lemma_systems_head(sc: ScoreView, starts: Seq<usize>, n: int, k: int, i: int, bass: bool, e: int, j: int)
    requires
        0 <= k < n <= starts.len(),
        drawn_note(sc, i, bass, e, j),
        starts[k] <= i < system_stop(starts, k, sc.measures.len() as int),
    ensures
        has_head(systems_marks(sc, starts, n), voice_on(sc.measures[i], bass)[e].notes[j].id),
    decreases n,
{
    let id = voice_on(sc.measures[i], bass)[e].notes[j].id;
    let pre = systems_marks(sc, starts, n - 1);
    let stop = system_stop(starts, n - 1, sc.measures.len() as int);
    let last = system_marks(sc, n - 1, starts[n - 1] as int, stop, n - 1 == 0);
    if k == n - 1 {
        let two = sc.staves == 2;
        let op = opening_marks(two, sc.fifths, sc.beats_per_measure, n - 1, n - 1 == 0);
        let run = run_marks(sc, n - 1, starts[n - 1] as int, stop, crate::layout::opening::opening_width(two, sc.fifths, sc.beats_per_measure, n - 1 == 0));
        let lines = staff_line_marks(
            two,
            n - 1,
            crate::layout::systems::staff_left(two),
            crate::layout::systems::system_right(sc, starts[n - 1] as int, stop, n - 1 == 0),
        );
        let bar = seq![barline_mark(two, n - 1, crate::layout::systems::staff_left(two))];
        assert(last == op + run + lines + bar);
        lemma_run_head(sc, i, bass, e, j, n - 1, starts[n - 1] as int, stop, crate::layout::opening::opening_width(two, sc.fifths, sc.beats_per_measure, n - 1 == 0));
        lemma_head_right(op, run, id);
        lemma_head_left(op + run, lines, id);
        lemma_head_left(op + run + lines, bar, id);
        lemma_head_right(pre, last, id);
    } else {
        lemma_systems_head(sc, starts, n - 1, k, i, bass, e, j);
        lemma_head_left(pre, last, id);
    }
}

pub(crate) proof fn lemma_find_system(starts: Seq<usize>, n: int, i: int)
    requires
        crate::layout::systems::starts_ok(starts, n),
        0 <= i < n,
    ensures
        exists|k: int|
            0 <= k < starts.len() && #[trigger] starts[k] <= i < system_stop(starts, k, n),
{
    let last = starts.len() - 1;
    if starts[last] <= i {
        assert(starts[last] <= i < system_stop(starts, last, n));
    } else {
        lemma_find_below(starts, n, i, last);
    }
}

pub(crate) proof fn lemma_find_below(starts: Seq<usize>, n: int, i: int, k: int)
    requires
        crate::layout::systems::starts_ok(starts, n),
        0 <= i < n,
        0 < k < starts.len(),
        i < starts[k],
    ensures
        exists|a: int|
            0 <= a < starts.len() && #[trigger] starts[a] <= i < system_stop(starts, a, n),
    decreases k,
{
    if starts[k - 1] <= i {
        assert(system_stop(starts, k - 1, n) == starts[k] as int);
        assert(starts[k - 1] <= i < system_stop(starts, k - 1, n));
    } else {
        lemma_find_below(starts, n, i, k - 1);
    }
}

/// Every note the engraving draws (the upper voice of each measure, and
/// the lower one on a grand staff) appears as a notehead carrying the
/// note's id, whichever system its measure falls on: every note stays
/// addressable, wrapped or not.
pub proof fn law_every_note_addressable(sc: ScoreView, room: Option<i64>, i: int, bass: bool, e: int, j: int)
    requires
        sc.measures.len() <= 0x1_0000_0000,
        sc.measures.len() <= usize::MAX,
        drawn_note(sc, i, bass, e, j),
    ensures
        has_head(
            systems_marks(sc, system_layout(sc, room), system_layout(sc, room).len() as int),
            voice_on(sc.measures[i], bass)[e].notes[j].id,
        ),
{
    let starts = system_layout(sc, room);
    crate::layout::systems::lemma_layout_ok(sc, room);
    lemma_find_system(starts, sc.measures.len() as int, i);
    let k = choose|k: int|
        0 <= k < starts.len() && #[trigger] starts[k] <= i < system_stop(starts, k, sc.measures.len() as int);
    lemma_systems_head(sc, starts, starts.len() as int, k, i, bass, e, j);
}

/// Every note of every score the importer accepts is engraved as a
/// notehead carrying its id, whichever system its measure falls on (for
/// scores within the engraving's size limits): no imported note goes
/// undrawn.
pub proof fn law_imported_notes_addressable(
    doc: Option<Node>,
    sc: ScoreView,
    room: Option<i64>,
    i: int,
    bass: bool,
    e: int,
    j: int,
)
    requires
        import_tree(doc) == Ok::<ScoreView, ImportErrorView>(sc),
        sc.measures.len() <= 0x1_0000_0000,
        sc.measures.len() <= usize::MAX,
        0 <= i < sc.measures.len(),
        0 <= e < voice_on(sc.measures[i], bass).len(),
        voice_on(sc.measures[i], bass).len() <= usize::MAX,
        0 <= j < voice_on(sc.measures[i], bass)[e].notes.len(),
    ensures
        has_head(
            systems_marks(sc, system_layout(sc, room), system_layout(sc, room).len() as int),
            voice_on(sc.measures[i], bass)[e].notes[j].id,
        ),
{
    law_imported_scores_are_engravable(doc);
    assert(measure_full(sc.measures[i], sc.staves, sc.beats_per_measure));
    law_every_note_addressable(sc, room, i, bass, e, j);
}

/// Systems stack downward: each staff of a later system sits a whole
/// system height per system lower than on an earlier one.
pub proof fn law_later_systems_lower(two: bool, k1: int, k2: int, staff: int)
    requires
        0 <= k1 < k2,
    ensures
        crate::layout::staff_top(two, k2, staff) == crate::layout::staff_top(two, k1, staff) + (k2 - k1)
            * crate::layout::system_pitch(two),
        crate::layout::staff_top(two, k2, staff) > crate::layout::staff_top(two, k1, staff),
{
    assert(k2 * crate::layout::system_pitch(two) == k1 * crate::layout::system_pitch(two) + (k2 - k1)
        * crate::layout::system_pitch(two)) by (nonlinear_arith);
    assert((k2 - k1) * crate::layout::system_pitch(two) > 0) by (nonlinear_arith)
        requires
            k2 - k1 > 0,
            crate::layout::system_pitch(two) > 0,
    ;
}

} // verus!
