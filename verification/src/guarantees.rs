//! What an engraving promises as a whole: the furniture of every system
//! (clefs on each system, the time signature on the first only), the
//! marks of each voice (a beam per beamed pair, flags only on lone
//! eighths, a tie per tie link), reading order and pitch height, and that
//! a wrapped score stays within its room.

use vstd::prelude::*;

use crate::engrave::{numerator_digits, spec_notehead, ElementKind};
use crate::engrave::grouping::{groups_from, voice_tie_links, VoiceGroup};
use crate::layout::{staff_count, MarkView};
use crate::layout::beams::pair_marks;
use crate::layout::notes::{
    chord_marks, event_marks, ledger_marks, note_marks, rest_marks, stem_marks,
};
use crate::layout::opening::{
    barline_mark, brace_mark, clef_marks, key_glyph_count, key_marks, opening_marks,
    staff_line_marks, time_marks,
};
use crate::layout::systems::{
    measure_marks, run_marks, system_layout, system_marks, system_stop, systems_marks,
};
use crate::layout::voices::{group_marks, groups_marks, tie_marks, voice_marks};
use crate::score::{Clef, Duration, EventView, MeasureView, NoteView, ScoreView};

pub mod order;
pub mod rules;
pub mod voices;

verus! {

// ---------------------------------------------------------------------
// Counting marks
// ---------------------------------------------------------------------

/// The number of marks of kind `k`.
pub open spec fn count_kind(marks: Seq<MarkView>, k: ElementKind) -> nat
    decreases marks.len(),
{
    if marks.len() == 0 {
        0
    } else {
        count_kind(marks.drop_last(), k) + if marks.last().kind == k {
            1nat
        } else {
            0nat
        }
    }
}

/// Counting distributes over concatenation.
pub proof fn lemma_count_add(a: Seq<MarkView>, b: Seq<MarkView>, k: ElementKind)
    ensures
        count_kind(a + b, k) == count_kind(a, k) + count_kind(b, k),
    decreases b.len(),
{
    if b.len() == 0 {
        assert(a + b =~= a);
    } else {
        lemma_count_add(a, b.drop_last(), k);
        assert((a + b).drop_last() =~= a + b.drop_last());
        assert((a + b).last() == b.last());
    }
}

pub(crate) proof fn lemma_count_none(s: Seq<MarkView>, k: ElementKind)
    requires
        forall|i: int| 0 <= i < s.len() ==> #[trigger] s[i].kind != k,
    ensures
        count_kind(s, k) == 0,
    decreases s.len(),
{
    if s.len() > 0 {
        assert(s.last() == s[s.len() - 1]);
        lemma_count_none(s.drop_last(), k);
    }
}

pub(crate) proof fn lemma_count_all(s: Seq<MarkView>, k: ElementKind)
    requires
        forall|i: int| 0 <= i < s.len() ==> #[trigger] s[i].kind == k,
    ensures
        count_kind(s, k) == s.len(),
    decreases s.len(),
{
    if s.len() > 0 {
        assert(s.last() == s[s.len() - 1]);
        lemma_count_all(s.drop_last(), k);
    }
}

// ---------------------------------------------------------------------
// The kinds a measure draws
// ---------------------------------------------------------------------

/// The kinds of element a voice draws.
pub open spec fn is_voice_kind(k: ElementKind) -> bool {
    ||| k == ElementKind::LedgerLine
    ||| k == ElementKind::Notehead
    ||| k == ElementKind::Dot
    ||| k == ElementKind::Accidental
    ||| k == ElementKind::Stem
    ||| k == ElementKind::Flag
    ||| k == ElementKind::Beam
    ||| k == ElementKind::Rest
    ||| k == ElementKind::Tie
}

/// Whether every mark is of a kind a voice draws.
pub open spec fn voice_kinds_only(s: Seq<MarkView>) -> bool {
    forall|i: int| 0 <= i < s.len() ==> is_voice_kind(#[trigger] s[i].kind)
}

pub(crate) proof fn lemma_voice_kinds_add(a: Seq<MarkView>, b: Seq<MarkView>)
    requires
        voice_kinds_only(a),
        voice_kinds_only(b),
    ensures
        voice_kinds_only(a + b),
{
    assert forall|i: int| 0 <= i < (a + b).len() implies is_voice_kind(#[trigger] (a + b)[i].kind) by {
        if i < a.len() {
            assert((a + b)[i] == a[i]);
        } else {
            assert((a + b)[i] == b[i - a.len()]);
        }
    }
}

/// The kinds of element a chord's notes draw.
pub open spec fn is_head_kind(k: ElementKind) -> bool {
    ||| k == ElementKind::LedgerLine
    ||| k == ElementKind::Notehead
    ||| k == ElementKind::Dot
    ||| k == ElementKind::Accidental
}

/// Whether every mark is of a kind a chord's notes draw.
pub open spec fn head_kinds_only(s: Seq<MarkView>) -> bool {
    forall|i: int| 0 <= i < s.len() ==> is_head_kind(#[trigger] s[i].kind)
}

pub(crate) proof fn lemma_chord_kinds(notes: Seq<NoteView>, d: Duration, top: int, clef: Clef, x: int, fifths: i32)
    ensures
        head_kinds_only(chord_marks(notes, d, top, clef, x, fifths)),
        voice_kinds_only(chord_marks(notes, d, top, clef, x, fifths)),
    decreases notes.len(),
{
    if notes.len() > 0 {
        lemma_chord_kinds(notes.drop_last(), d, top, clef, x, fifths);
        let n = notes.last();
        let step = crate::engrave::spec_staff_step(n.pitch, clef);
        let w = crate::engrave::spec_glyph_width(spec_notehead(d));
        let l = ledger_marks(top, x, step, w);
        let nm = note_marks(n, d, top, clef, x, fifths);
        assert forall|i: int| 0 <= i < nm.len() implies is_head_kind(#[trigger] nm[i].kind) by {
            if i < l.len() {
                assert(nm[i] == l[i]);
            }
        }
        let pre = chord_marks(notes.drop_last(), d, top, clef, x, fifths);
        assert forall|i: int| 0 <= i < (pre + nm).len() implies is_head_kind(#[trigger] (pre + nm)[i].kind) by {
            if i < pre.len() {
                assert((pre + nm)[i] == pre[i]);
            } else {
                assert((pre + nm)[i] == nm[i - pre.len()]);
            }
        }
    }
}

pub(crate) proof fn lemma_event_kinds(ev: EventView, top: int, clef: Clef, x: int, fifths: i32, with_flag: bool)
    ensures
        voice_kinds_only(event_marks(ev, top, clef, x, fifths, with_flag)),
{
    reveal(event_marks);
    lemma_chord_kinds(ev.notes, ev.duration, top, clef, x, fifths);
    lemma_voice_kinds_add(
        chord_marks(ev.notes, ev.duration, top, clef, x, fifths),
        stem_marks(ev, top, clef, x, with_flag),
    );
}

pub(crate) proof fn lemma_group_kinds(
    voice: Seq<EventView>,
    g: VoiceGroup,
    top: int,
    clef: Clef,
    onsets: Seq<i32>,
    x: int,
    fifths: i32,
)
    ensures
        voice_kinds_only(group_marks(voice, g, top, clef, onsets, x, fifths)),
{
    reveal(rest_marks);
    reveal(pair_marks);
    match g {
        VoiceGroup::Rest(i) => {},
        VoiceGroup::Single(i) => {
            lemma_event_kinds(
                voice[i as int],
                top,
                clef,
                crate::layout::voices::event_x(onsets, x, voice[i as int].onset_units),
                fifths,
                true,
            );
        },
        VoiceGroup::BeamedPair(i) => {
            let xa = crate::layout::voices::event_x(onsets, x, voice[i as int].onset_units);
            let xb = crate::layout::voices::event_x(onsets, x, voice[i + 1].onset_units);
            let ea = event_marks(voice[i as int], top, clef, xa, fifths, false);
            let eb = event_marks(voice[i + 1], top, clef, xb, fifths, false);
            lemma_event_kinds(voice[i as int], top, clef, xa, fifths, false);
            lemma_event_kinds(voice[i + 1], top, clef, xb, fifths, false);
            lemma_voice_kinds_add(ea, eb);
            let pm = pair_marks(voice[i as int], voice[i + 1], top, clef, xa, xb, fifths);
            assert(pm == ea + eb + seq![pm.last()]);
            lemma_voice_kinds_add(ea + eb, seq![pm.last()]);
        },
    }
}

pub(crate) proof fn lemma_groups_kinds(
    voice: Seq<EventView>,
    gs: Seq<VoiceGroup>,
    top: int,
    clef: Clef,
    onsets: Seq<i32>,
    x: int,
    fifths: i32,
)
    ensures
        voice_kinds_only(groups_marks(voice, gs, top, clef, onsets, x, fifths)),
    decreases gs.len(),
{
    if gs.len() > 0 {
        lemma_groups_kinds(voice, gs.drop_last(), top, clef, onsets, x, fifths);
        lemma_group_kinds(voice, gs.last(), top, clef, onsets, x, fifths);
        lemma_voice_kinds_add(
            groups_marks(voice, gs.drop_last(), top, clef, onsets, x, fifths),
            group_marks(voice, gs.last(), top, clef, onsets, x, fifths),
        );
    }
}

/// A voice draws only notes, rests and what belongs to them.
pub proof fn lemma_voice_kinds(
    voice: Seq<EventView>,
    top: int,
    clef: Clef,
    onsets: Seq<i32>,
    x: int,
    fifths: i32,
)
    ensures
        voice_kinds_only(voice_marks(voice, top, clef, onsets, x, fifths)),
{
    lemma_groups_kinds(voice, groups_from(voice, 0), top, clef, onsets, x, fifths);
    let t = tie_marks(voice, voice_tie_links(voice, voice.len() as int), top, clef, onsets, x);
    assert(voice_kinds_only(t));
    lemma_voice_kinds_add(groups_marks(voice, groups_from(voice, 0), top, clef, onsets, x, fifths), t);
}

/// The kinds that open a system (and never appear in a measure).
pub open spec fn is_furniture(k: ElementKind) -> bool {
    ||| k == ElementKind::Clef
    ||| k == ElementKind::TimeSignature
    ||| k == ElementKind::KeySignature
    ||| k == ElementKind::Brace
    ||| k == ElementKind::StaffLine
}

/// A measure draws no system furniture.
pub proof fn lemma_measure_no_furniture(m: MeasureView, two: bool, system: int, x: int, fifths: i32, k: ElementKind)
    requires
        is_furniture(k),
    ensures
        count_kind(measure_marks(m, two, system, x, fifths), k) == 0,
{
    let on = crate::layout::systems::measure_onsets(m);
    let t = voice_marks(m.treble, crate::layout::staff_top(two, system, 0), Clef::Treble, on, x, fifths);
    let b = if two {
        voice_marks(m.bass, crate::layout::staff_top(two, system, 1), Clef::Bass, on, x, fifths)
    } else {
        Seq::empty()
    };
    lemma_voice_kinds(m.treble, crate::layout::staff_top(two, system, 0), Clef::Treble, on, x, fifths);
    lemma_voice_kinds(m.bass, crate::layout::staff_top(two, system, 1), Clef::Bass, on, x, fifths);
    lemma_voice_kinds_add(t, b);
    let bar = seq![barline_mark(two, system, x + crate::layout::systems::measure_right(m))];
    let all = t + b + bar;
    assert(all == measure_marks(m, two, system, x, fifths));
    assert forall|i: int| 0 <= i < all.len() implies #[trigger] all[i].kind != k by {
        if i < (t + b).len() {
            assert(all[i] == (t + b)[i]);
        } else {
            assert(all[i] == bar[i - (t + b).len()]);
        }
    }
    lemma_count_none(all, k);
}

pub(crate) proof fn lemma_run_no_furniture(sc: ScoreView, system: int, from: int, to: int, x: int, k: ElementKind)
    requires
        is_furniture(k),
    ensures
        count_kind(run_marks(sc, system, from, to, x), k) == 0,
    decreases to - from,
{
    if from < to {
        let w = crate::layout::systems::measure_width(sc.measures[from]);
        lemma_run_no_furniture(sc, system, from + 1, to, x + w, k);
        lemma_measure_no_furniture(sc.measures[from], sc.staves == 2, system, x, sc.fifths, k);
        let here = measure_marks(sc.measures[from], sc.staves == 2, system, x, sc.fifths);
        let carried = crate::layout::carry::carry_marks(sc, system, from, to, x);
        crate::layout::carry::lemma_carry_all_ties(sc, system, from, to, x);
        lemma_count_uniform(carried, ElementKind::Tie, k);
        lemma_count_add(here, carried, k);
        lemma_count_add(here + carried, run_marks(sc, system, from + 1, to, x + w), k);
    }
}

// ---------------------------------------------------------------------
// System furniture
// ---------------------------------------------------------------------

/// How many marks of furniture kind `k` one system carries: a clef per
/// staff, the key signature's accidentals per staff, the two time
/// signature digits per staff on the first system only, a brace on a grand
/// staff, and five staff lines per staff.
pub open spec fn furniture_count(two: bool, fifths: i32, beats: i32, first: bool, k: ElementKind) -> int {
    let staves = staff_count(two);
    if k == ElementKind::Clef {
        staves
    } else if k == ElementKind::TimeSignature {
        if first {
            (numerator_digits(beats).len() + 1) * staves
        } else {
            0
        }
    } else if k == ElementKind::KeySignature {
        key_glyph_count(fifths) * staves
    } else if k == ElementKind::Brace {
        if two {
            1
        } else {
            0
        }
    } else if k == ElementKind::StaffLine {
        5 * staves
    } else {
        0
    }
}

pub(crate) proof fn lemma_count_uniform(s: Seq<MarkView>, kind: ElementKind, k: ElementKind)
    requires
        forall|i: int| 0 <= i < s.len() ==> #[trigger] s[i].kind == kind,
    ensures
        count_kind(s, k) == if kind == k {
            s.len()
        } else {
            0
        },
{
    if kind == k {
        lemma_count_all(s, k);
    } else {
        lemma_count_none(s, k);
    }
}

pub(crate) proof fn lemma_system_furniture(sc: ScoreView, system: int, from: int, to: int, first: bool, k: ElementKind)
    requires
        is_furniture(k),
    ensures
        count_kind(system_marks(sc, system, from, to, first), k) == furniture_count(sc.staves == 2, sc.fifths, sc.beats_per_measure,
            first,
            k,
        ),
{
    let two = sc.staves == 2;
    let x0 = if two {
        160int
    } else {
        0int
    };
    let brace = if two {
        seq![brace_mark(system, 0)]
    } else {
        Seq::<MarkView>::empty()
    };
    let clefs = clef_marks(two, system, x0);
    let keys = key_marks(sc.fifths, two, system, x0 + 340);
    let time = if first {
        time_marks(
            sc.beats_per_measure,
            two,
            system,
            x0 + 340 + crate::layout::opening::key_advance(sc.fifths),
        )
    } else {
        Seq::<MarkView>::empty()
    };
    let op = opening_marks(two, sc.fifths, sc.beats_per_measure, system, first);
    assert(op == brace + clefs + keys + time);
    lemma_count_uniform(brace, ElementKind::Brace, k);
    lemma_count_uniform(clefs, ElementKind::Clef, k);
    lemma_count_uniform(keys, ElementKind::KeySignature, k);
    lemma_count_uniform(time, ElementKind::TimeSignature, k);
    lemma_count_add(brace, clefs, k);
    lemma_count_add(brace + clefs, keys, k);
    lemma_count_add(brace + clefs + keys, time, k);
    let x = crate::layout::opening::opening_width(two, sc.fifths, sc.beats_per_measure, first);
    let run = run_marks(sc, system, from, to, x);
    lemma_run_no_furniture(sc, system, from, to, x, k);
    let lines = staff_line_marks(
        two,
        system,
        crate::layout::systems::staff_left(two),
        crate::layout::systems::system_right(sc, from, to, first),
    );
    lemma_count_uniform(lines, ElementKind::StaffLine, k);
    let bar = seq![barline_mark(two, system, crate::layout::systems::staff_left(two))];
    lemma_count_uniform(bar, ElementKind::Barline, k);
    lemma_count_add(op, run, k);
    lemma_count_add(op + run, lines, k);
    lemma_count_add(op + run + lines, bar, k);
    assert(system_marks(sc, system, from, to, first) == op + run + lines + bar);
    assert(key_glyph_count(sc.fifths) >= 0);
    assert(keys.len() == key_glyph_count(sc.fifths) * staff_count(two));
    assert(time.len() == (if first {
        (numerator_digits(sc.beats_per_measure).len() + 1) * staff_count(two)
    } else {
        0
    }));
}

pub(crate) proof fn lemma_systems_furniture(sc: ScoreView, starts: Seq<usize>, n: int, k: ElementKind)
    requires
        is_furniture(k),
        n >= 1,
    ensures
        count_kind(systems_marks(sc, starts, n), k) == furniture_count(sc.staves == 2, sc.fifths, sc.beats_per_measure, true, k)
            + (n - 1) * furniture_count(sc.staves == 2, sc.fifths, sc.beats_per_measure, false, k),
    decreases n,
{
    let two = sc.staves == 2;
    let stop = system_stop(starts, n - 1, sc.measures.len() as int);
    let last = system_marks(sc, n - 1, starts[n - 1] as int, stop, n - 1 == 0);
    lemma_system_furniture(sc, n - 1, starts[n - 1] as int, stop, n - 1 == 0, k);
    if n == 1 {
        assert(systems_marks(sc, starts, 0) =~= Seq::<MarkView>::empty());
        lemma_count_add(Seq::<MarkView>::empty(), last, k);
        assert(Seq::<MarkView>::empty() + last =~= last);
    } else {
        lemma_systems_furniture(sc, starts, n - 1, k);
        lemma_count_add(systems_marks(sc, starts, n - 1), last, k);
        assert((n - 1) * furniture_count(two, sc.fifths, sc.beats_per_measure, false, k) == (n - 2) * furniture_count(two, sc.fifths, sc.beats_per_measure, false,
            k,
        ) + furniture_count(two, sc.fifths, sc.beats_per_measure, false, k)) by (nonlinear_arith);
    }
}

/// Every system opens with a clef on each staff, the key signature's
/// accidentals (at most seven) on each staff and, on a grand staff, a
/// brace, and carries five lines per staff; the time signature (the
/// numerator's digits and the denominator on each staff) opens the first
/// system only. Without a room limit the score is a single system.
pub proof fn law_system_furniture(sc: ScoreView, room: Option<i64>)
    requires
        sc.measures.len() <= 0x1_0000_0000,
        sc.measures.len() <= usize::MAX,
    ensures
        ({
            let starts = system_layout(sc, room);
            let n = starts.len() as int;
            let marks = systems_marks(sc, starts, n);
            let staves = staff_count(sc.staves == 2);
            &&& n >= 1
            &&& room is None ==> n == 1
            &&& count_kind(marks, ElementKind::Clef) == n * staves
            &&& count_kind(marks, ElementKind::TimeSignature) == (numerator_digits(sc.beats_per_measure).len()
                + 1) * staves
            &&& count_kind(marks, ElementKind::KeySignature) == n * key_glyph_count(sc.fifths) * staves
            &&& count_kind(marks, ElementKind::Brace) == (if sc.staves == 2 {
                n
            } else {
                0
            })
            &&& count_kind(marks, ElementKind::StaffLine) == 5 * n * staves
        }),
{
    let starts = system_layout(sc, room);
    let n = starts.len() as int;
    crate::layout::systems::lemma_layout_ok(sc, room);
    let two = sc.staves == 2;
    let staves = staff_count(two);
    lemma_systems_furniture(sc, starts, n, ElementKind::Clef);
    lemma_systems_furniture(sc, starts, n, ElementKind::TimeSignature);
    lemma_systems_furniture(sc, starts, n, ElementKind::KeySignature);
    lemma_systems_furniture(sc, starts, n, ElementKind::Brace);
    lemma_systems_furniture(sc, starts, n, ElementKind::StaffLine);
    let kg = key_glyph_count(sc.fifths);
    assert(staves + (n - 1) * staves == n * staves) by (nonlinear_arith);
    assert(kg * staves + (n - 1) * (kg * staves) == n * kg * staves) by (nonlinear_arith);
    assert(5 * staves + (n - 1) * (5 * staves) == 5 * n * staves) by (nonlinear_arith);
    assert((n - 1) * 0 == 0) by (nonlinear_arith);
    assert((numerator_digits(sc.beats_per_measure).len() + 1) * staves + (n - 1) * 0 == (
    numerator_digits(sc.beats_per_measure).len() + 1) * staves);
    assert(1 + (n - 1) * 1 == n) by (nonlinear_arith);
}

} // verus!
