//! Measures and systems: the measures of a system side by side, systems
//! one under another, and the whole engraving of a score.

use vstd::prelude::*;

use crate::engrave::{
    glyph_width, key_signature_count, key_signature_glyph, lemma_decimal_digits, numerator_value,
    time_signature_digits,
};
use crate::engrave::columns::{
    column_offset, columns_of, has_onset, measure_columns, spec_longest, strictly_increasing,
    system_starts, Columns,
};
use crate::engrave::grouping::{score_ties_are_safe, score_ties_safe, voice_ties_safe};
use crate::score::{events_view, Clef, Measure, MeasureView, Score, ScoreView};
use crate::layout::{
    exec_staff_top, lemma_top_bounds, marks_view, staff_top, system_ok, system_pitch, Mark,
    MarkView,
};
use crate::layout::opening::{
    barline_mark, draw_barline, draw_opening, draw_staff_lines, opening_marks, opening_width,
    staff_line_marks,
};
use crate::layout::voices::{draw_voice, voice_marks};
use crate::layout::carry::{carry_marks, draw_carry};

verus! {

// ---------------------------------------------------------------------
// Measures
// ---------------------------------------------------------------------

/// The onsets of a measure (either voice), in increasing order.
pub open spec fn measure_onsets(m: MeasureView) -> Seq<i32> {
    choose|s: Seq<i32>| strictly_increasing(s) && forall|t: i32| #[trigger] s.contains(t) <==> has_onset(m, t)
}

/// Where a measure ends, from its start: 1.4 spaces plus 0.85 spaces per
/// eighth of its longest last event after its last column (3.1 spaces
/// after the start when it is empty).
pub open spec fn measure_right(m: MeasureView) -> int {
    let on = measure_onsets(m);
    if on.len() == 0 {
        310
    } else {
        column_offset(on, on.len() - 1) + 140 + 85 * spec_longest(m, on.last())
    }
}

/// The room a measure takes in its system: up to its closing barline and
/// 0.4 spaces after it.
pub open spec fn measure_width(m: MeasureView) -> int {
    measure_right(m) + 40
}

/// The marks of a measure starting at `x` on system `system`: the treble
/// voice, the bass voice on a grand staff (a single staff shows only the
/// treble voice), and the closing barline.
pub open spec fn measure_marks(m: MeasureView, two: bool, system: int, x: int, fifths: i32) -> Seq<MarkView> {
    let on = measure_onsets(m);
    voice_marks(m.treble, staff_top(two, system, 0), Clef::Treble, on, x, fifths) + (if two {
        voice_marks(m.bass, staff_top(two, system, 1), Clef::Bass, on, x, fifths)
    } else {
        Seq::empty()
    }) + seq![barline_mark(two, system, x + measure_right(m))]
}

/// Two strictly increasing sequences with the same elements are equal.
pub proof fn lemma_sorted_unique(a: Seq<i32>, b: Seq<i32>)
    requires
        strictly_increasing(a),
        strictly_increasing(b),
        forall|t: i32| a.contains(t) <==> b.contains(t),
    ensures
        a == b,
    decreases a.len(),
{
    if a.len() == 0 {
        if b.len() > 0 {
            assert(b.contains(b[0]));
        }
        assert(a =~= b);
    } else {
        assert(a.contains(a[0]));
        assert(b.len() > 0);
        assert(b.contains(b[0]));
        let i = choose|i: int| 0 <= i < a.len() && a[i] == b[0];
        let j = choose|j: int| 0 <= j < b.len() && b[j] == a[0];
        if i > 0 {
            assert(a[0] < a[i]);
        }
        if j > 0 {
            assert(b[0] < b[j]);
        }
        assert(a[0] == b[0]);
        let a1 = a.drop_first();
        let b1 = b.drop_first();
        assert forall|t: i32| a1.contains(t) <==> b1.contains(t) by {
            if a1.contains(t) {
                let k = choose|k: int| 0 <= k < a1.len() && a1[k] == t;
                assert(a[k + 1] == t && a[0] < a[k + 1]);
                assert(b.contains(t));
                let l = choose|l: int| 0 <= l < b.len() && b[l] == t;
                assert(l > 0);
                assert(b1[l - 1] == t);
            }
            if b1.contains(t) {
                let k = choose|k: int| 0 <= k < b1.len() && b1[k] == t;
                assert(b[k + 1] == t && b[0] < b[k + 1]);
                assert(a.contains(t));
                let l = choose|l: int| 0 <= l < a.len() && a[l] == t;
                assert(l > 0);
                assert(a1[l - 1] == t);
            }
        }
        lemma_sorted_unique(a1, b1);
        assert(a =~= seq![a[0]] + a1);
        assert(b =~= seq![b[0]] + b1);
    }
}

/// Whether the voices of a measure are small enough to engrave: each has
/// at most 2^32 events.
pub open spec fn measure_fits(m: MeasureView) -> bool {
    m.treble.len() <= 0x1_0000_0000 && m.bass.len() <= 0x1_0000_0000
}

/// The columns computed for a measure are the measure's own.
pub(crate) proof fn lemma_columns_are_measure_onsets(m: MeasureView, c: (Seq<i32>, Seq<i128>, i128, Map<i32, i128>))
    requires
        columns_of(m, c),
    ensures
        c.0 == measure_onsets(m),
        c.2 == measure_right(m),
{
    let on = measure_onsets(m);
    assert(strictly_increasing(c.0) && forall|t: i32| #[trigger] c.0.contains(t) <==> has_onset(m, t));
    assert(strictly_increasing(on) && forall|t: i32| #[trigger] on.contains(t) <==> has_onset(m, t));
    lemma_sorted_unique(c.0, on);
    if c.0.len() > 0 {
        assert(c.1.last() == column_offset(c.0, c.0.len() - 1));
    }
}

/// A measure's computed columns, with the bounds the drawing needs.
pub open spec fn columns_bounded(m: MeasureView, c: (Seq<i32>, Seq<i128>, i128, Map<i32, i128>)) -> bool {
    &&& columns_of(m, c)
    &&& forall|k: int| 0 <= k < c.1.len() ==> 0 <= #[trigger] c.1[k] <= 0x1000_0000_0000
    &&& -0x2000_0000_0000 <= c.2 <= 0x2000_0000_0000
}

/// The columns of a measure, with their bounds.
pub(crate) fn bounded_columns(m: &Measure) -> (c: Columns)
    requires
        measure_fits(m@),
    ensures
        columns_bounded(m@, c.spec_parts()),
{
    let c = measure_columns(m);
    proof {
        let n = m@.treble.len() + m@.bass.len();
        assert(100 + 140 * n + 85 * 0x1_0000_0000 <= 0x1000_0000_0000);
        if c.offsets@.len() > 0 {
            assert(c.offsets@.last() == c.offsets@[c.offsets@.len() - 1]);
        }
    }
    c
}

/// Draws a measure starting at `x`: its voices, then the closing barline
/// at its right edge (`x + measure_right`), which this function draws
/// itself; returns where the next measure starts, 0.4 spaces past that
/// barline.
pub(crate) fn draw_measure(
    out: &mut Vec<Mark>,
    m: &Measure,
    cols: &Columns,
    two: bool,
    system: usize,
    x: i128,
    fifths: i32,
) -> (next: i128)
    requires
        columns_bounded(m@, cols.spec_parts()),
        voice_ties_safe(m@.treble),
        two ==> voice_ties_safe(m@.bass),
        system_ok(system as int),
        -0x8000_0000_0000_0000_0000 <= x <= 0x8000_0000_0000_0000_0000,
        fifths > i32::MIN,
    ensures
        marks_view(final(out)@) == marks_view(old(out)@) + measure_marks(
            m@,
            two,
            system as int,
            x as int,
            fifths,
        ),
        marks_view(final(out)@).last() == barline_mark(two, system as int, x + measure_right(m@)),
        next == x + measure_right(m@) + 40,
        next == x + measure_width(m@),
{
    let ghost start = marks_view(out@);
    proof {
        lemma_columns_are_measure_onsets(m@, cols.spec_parts());
        lemma_top_bounds(two, system as int, 0);
        lemma_top_bounds(two, system as int, 1);
        assert forall|i: int| 0 <= i < m@.treble.len() implies cols.onsets@.contains(#[trigger] m@.treble[i].onset_units) by {
            assert(has_onset(m@, m@.treble[i].onset_units));
        }
        assert forall|i: int| 0 <= i < m@.bass.len() implies cols.onsets@.contains(#[trigger] m@.bass[i].onset_units) by {
            assert(has_onset(m@, m@.bass[i].onset_units));
        }
    }
    assert(m@.treble == events_view(m.voices@[0]@));
    assert(m@.bass == events_view(m.voices@[1]@));
    let top0 = exec_staff_top(two, system, 0);
    draw_voice(out, &m.voices[0], top0, Clef::Treble, cols, x, fifths);
    if two {
        let top1 = exec_staff_top(two, system, 1);
        draw_voice(out, &m.voices[1], top1, Clef::Bass, cols, x, fifths);
    }
    let right = x + cols.right;
    draw_barline(out, two, system, right);
    assert(marks_view(out@) =~= start + measure_marks(m@, two, system as int, x as int, fifths));
    right + 40
}

// ---------------------------------------------------------------------
// Systems
// ---------------------------------------------------------------------

/// Whether a score can be engraved: its key signature is not `i32::MIN`
/// (whose accidental count has no `i32` negation), it has at most 2^32
/// measures and each voice at most 2^32 events, and every pitch that the
/// search for the stop of a tie compares has a step letter (0 = C ... 6 =
/// B; see [`score_ties_safe`]).
pub open spec fn engravable(sc: ScoreView) -> bool {
    &&& sc.fifths > i32::MIN
    &&& sc.measures.len() <= 0x1_0000_0000
    &&& forall|i: int| 0 <= i < sc.measures.len() ==> measure_fits(#[trigger] sc.measures[i])
    &&& score_ties_safe(sc.measures, sc.staves == 2)
}

/// Whether `score` can be engraved (see [`engravable`]).
pub fn can_engrave(score: &Score) -> (r: bool)
    ensures
        r == engravable(score@),
{
    let ghost sc = score@;
    if score.fifths == i32::MIN || score.measures.len() as u64 > 0x1_0000_0000 {
        return false;
    }
    let mut i: usize = 0;
    while i < score.measures.len()
        invariant
            sc == score@,
            i <= sc.measures.len(),
            forall|k: int| 0 <= k < i ==> measure_fits(#[trigger] sc.measures[k]),
        decreases sc.measures.len() - i,
    {
        let m = &score.measures[i];
        assert(sc.measures[i as int] == m@);
        if m.voices[0].len() as u64 > 0x1_0000_0000 || m.voices[1].len() as u64 > 0x1_0000_0000 {
            return false;
        }
        i = i + 1;
    }
    score_ties_are_safe(&score.measures, score.staves == 2)
}

/// The marks of measures `from..to` of a system, the first starting at `x`:
/// each measure, then its ties over the closing barline.
pub open spec fn run_marks(sc: ScoreView, system: int, from: int, to: int, x: int) -> Seq<MarkView>
    decreases to - from,
{
    if from >= to {
        Seq::empty()
    } else {
        measure_marks(sc.measures[from], sc.staves == 2, system, x, sc.fifths) + carry_marks(
            sc,
            system,
            from,
            to,
            x,
        ) + run_marks(sc, system, from + 1, to, x + measure_width(sc.measures[from]))
    }
}

/// Where measures `from..to`, the first starting at `x`, end.
pub open spec fn run_end(sc: ScoreView, from: int, to: int, x: int) -> int
    decreases to - from,
{
    if from >= to {
        x
    } else {
        run_end(sc, from + 1, to, x + measure_width(sc.measures[from]))
    }
}

/// Where the staff lines of a system start: at the clefs, or 0.4 spaces
/// into the brace column of a grand staff.
pub open spec fn staff_left(two: bool) -> int {
    if two {
        40
    } else {
        0
    }
}

/// Where a system holding measures `from..to` ends.
pub open spec fn system_right(sc: ScoreView, from: int, to: int, first: bool) -> int {
    run_end(sc, from, to, opening_width(sc.staves == 2, sc.fifths, sc.beats_per_measure, first))
}

/// The marks of system `system`, holding measures `from..to`: its opening
/// (with the time signature only on the first system), its measures, its
/// staff lines and its opening barline.
pub open spec fn system_marks(sc: ScoreView, system: int, from: int, to: int, first: bool) -> Seq<MarkView> {
    let two = sc.staves == 2;
    opening_marks(two, sc.fifths, sc.beats_per_measure, system, first) + run_marks(
        sc,
        system,
        from,
        to,
        opening_width(two, sc.fifths, sc.beats_per_measure, first),
    ) + staff_line_marks(two, system, staff_left(two), system_right(sc, from, to, first)) + seq![
        barline_mark(two, system, staff_left(two)),
    ]
}

/// The room a measure claims when measures are broken into systems (a
/// measure never claims less than nothing).
pub open spec fn break_width(m: MeasureView) -> int {
    if measure_width(m) < 0 {
        0
    } else {
        measure_width(m)
    }
}

/// The break widths of measures.
pub open spec fn break_widths(ms: Seq<MeasureView>) -> Seq<i128> {
    Seq::new(ms.len(), |i: int| break_width(ms[i]) as i128)
}

/// The first measure of each system. Without a room limit everything is
/// one system. With one, systems are filled greedily: each takes measures
/// while they fit in the room left after its opening, and at least one.
pub open spec fn system_layout(sc: ScoreView, room: Option<i64>) -> Seq<usize> {
    match room {
        None => seq![0usize],
        Some(r) => {
            let two = sc.staves == 2;
            let starts = system_starts(
                break_widths(sc.measures),
                0,
                r - opening_width(two, sc.fifths, sc.beats_per_measure, true),
                r - opening_width(two, sc.fifths, sc.beats_per_measure, false),
            );
            if starts.len() == 0 {
                seq![0usize]
            } else {
                starts
            }
        },
    }
}

/// The measure after the last of system `k`.
pub open spec fn system_stop(starts: Seq<usize>, k: int, n: int) -> int {
    if k + 1 < starts.len() {
        starts[k + 1] as int
    } else {
        n
    }
}

/// The marks of the first `k` systems.
pub open spec fn systems_marks(sc: ScoreView, starts: Seq<usize>, k: int) -> Seq<MarkView>
    decreases k,
{
    if k <= 0 {
        Seq::empty()
    } else {
        systems_marks(sc, starts, k - 1) + system_marks(
            sc,
            k - 1,
            starts[k - 1] as int,
            system_stop(starts, k - 1, sc.measures.len() as int),
            k - 1 == 0,
        )
    }
}

/// The widest of the first `k` systems (0 for none).
pub open spec fn systems_width(sc: ScoreView, starts: Seq<usize>, k: int) -> int
    decreases k,
{
    if k <= 0 {
        0
    } else {
        let w = system_right(
            sc,
            starts[k - 1] as int,
            system_stop(starts, k - 1, sc.measures.len() as int),
            k - 1 == 0,
        );
        let before = systems_width(sc, starts, k - 1);
        if k == 1 || w > before {
            w
        } else {
            before
        }
    }
}

/// An engraved score: its marks, and its extent in centi-spaces, margins
/// excluded (the caller adds a margin on each side).
pub struct Engraving {
    pub marks: Vec<Mark>,
    pub width: i128,
    pub height: i128,
}

/// The room the opening of a system takes (see [`opening_width`]).
pub(crate) fn opening_room(two: bool, fifths: i32, beats: i32, with_time: bool) -> (w: i128)
    requires
        fifths > i32::MIN,
    ensures
        w == opening_width(two, fifths, beats, with_time),
        0 < w <= 0x100_0000_0000,
{
    let count = key_signature_count(fifths);
    let step_width: i128 = glyph_width(key_signature_glyph(fifths)) as i128 + 10;
    assert(0 <= count * step_width <= 0x8000_0000 * 110) by (nonlinear_arith)
        requires
            count <= 0x8000_0000,
            0 <= step_width <= 110,
    ;
    let kw: i128 = if fifths == 0 {
        0
    } else {
        count as i128 * step_width + 60
    };
    let x0: i128 = if two {
        160
    } else {
        0
    };
    let tw: i128 = if with_time {
        let digits = time_signature_digits(beats);
        proof {
            lemma_decimal_digits(numerator_value(beats));
        }
        240 + 180 * (digits.len() as i128 - 1)
    } else {
        0
    };
    x0 + 340 + kw + tw + 100
}

/// Draws measures `from..to` of a system, the first at `x`; returns where
/// they end.
pub(crate) fn draw_run(
    out: &mut Vec<Mark>,
    score: &Score,
    cols: &Vec<Columns>,
    system: usize,
    from: usize,
    to: usize,
    x: i128,
) -> (end: i128)
    requires
        engravable(score@),
        cols@.len() == score@.measures.len(),
        forall|i: int| 0 <= i < cols@.len() ==> columns_bounded(score@.measures[i], #[trigger] cols@[i].spec_parts()),
        system_ok(system as int),
        from <= to <= score@.measures.len(),
        0 < x <= 0x100_0000_0000,
    ensures
        marks_view(final(out)@) == marks_view(old(out)@) + run_marks(
            score@,
            system as int,
            from as int,
            to as int,
            x as int,
        ),
        end == run_end(score@, from as int, to as int, x as int),
        -0x8000_0000_0000_0000_0000 <= end <= 0x8000_0000_0000_0000_0000,
{
    let ghost start = marks_view(out@);
    let ghost sc = score@;
    let two = score.staves == 2;
    let mut i = from;
    let mut xx = x;
    while i < to
        invariant
            sc == score@,
            engravable(sc),
            cols@.len() == sc.measures.len(),
            forall|i: int| 0 <= i < cols@.len() ==> columns_bounded(sc.measures[i], #[trigger] cols@[i].spec_parts()),
            system_ok(system as int),
            two == (sc.staves == 2),
            from <= i <= to <= sc.measures.len(),
            -0x4000_0000_0000 * (i - from) <= xx <= 0x100_0000_0000 + 0x4000_0000_0000 * (i - from),
            marks_view(out@) + run_marks(sc, system as int, i as int, to as int, xx as int) == start
                + run_marks(sc, system as int, from as int, to as int, x as int),
            run_end(sc, i as int, to as int, xx as int) == run_end(sc, from as int, to as int, x as int),
        decreases to - i,
    {
        let ghost before = marks_view(out@);
        let m = &score.measures[i];
        assert(sc.measures[i as int] == m@);
        assert(crate::engrave::grouping::measure_ties_safe(sc.measures, i as int, two));
        assert(sc.measures.len() <= 0x1_0000_0000);
        assert(0x4000_0000_0000 * (i - from) <= 0x4000_0000_0000 * 0x1_0000_0000) by (nonlinear_arith)
            requires
                0 <= i - from <= 0x1_0000_0000,
        ;
        let c = &cols[i];
        assert(columns_bounded(sc.measures[i as int], cols@[i as int].spec_parts()));
        let next = draw_measure(out, m, c, two, system, xx, score.fifths);
        draw_carry(out, score, cols, system, i, to, xx, next);
        proof {
            lemma_columns_are_measure_onsets(m@, c.spec_parts());
            let carried = carry_marks(sc, system as int, i as int, to as int, xx as int);
            assert(run_marks(sc, system as int, i as int, to as int, xx as int) == measure_marks(
                m@,
                two,
                system as int,
                xx as int,
                sc.fifths,
            ) + carried + run_marks(sc, system as int, i + 1, to as int, next as int));
            assert(marks_view(out@) =~= before + measure_marks(m@, two, system as int, xx as int, sc.fifths)
                + carried);
            assert(marks_view(out@) + run_marks(sc, system as int, i + 1, to as int, next as int) =~= before
                + run_marks(sc, system as int, i as int, to as int, xx as int));
        }
        xx = next;
        i = i + 1;
    }
    assert(run_marks(sc, system as int, i as int, to as int, xx as int) =~= Seq::<MarkView>::empty());
    assert(0x4000_0000_0000 * (i - from) <= 0x4000_0000_0000 * 0x1_0000_0000) by (nonlinear_arith)
        requires
            0 <= i - from <= 0x1_0000_0000,
    ;
    xx
}

/// Draws system `system`, holding measures `from..to`; returns where it
/// ends.
pub(crate) fn draw_system(
    out: &mut Vec<Mark>,
    score: &Score,
    cols: &Vec<Columns>,
    system: usize,
    from: usize,
    to: usize,
) -> (end: i128)
    requires
        engravable(score@),
        cols@.len() == score@.measures.len(),
        forall|i: int| 0 <= i < cols@.len() ==> columns_bounded(score@.measures[i], #[trigger] cols@[i].spec_parts()),
        system_ok(system as int),
        from <= to <= score@.measures.len(),
    ensures
        marks_view(final(out)@) == marks_view(old(out)@) + system_marks(
            score@,
            system as int,
            from as int,
            to as int,
            system == 0,
        ),
        end == system_right(score@, from as int, to as int, system == 0),
{
    let ghost start = marks_view(out@);
    let two = score.staves == 2;
    let first = system == 0;
    let x0 = draw_opening(out, two, score.fifths, score.beats_per_measure, system, first);
    let end = draw_run(out, score, cols, system, from, to, x0);
    let left: i128 = if two {
        40
    } else {
        0
    };
    draw_staff_lines(out, two, system, left, end);
    assert(marks_view(out@) =~= start + system_marks(score@, system as int, from as int, to as int, first));
    end
}

/// The system starts of a layout are usable: at least one, the first at
/// measure 0, in increasing order, each below the measure count (or the
/// lone start 0 of an empty score).
pub open spec fn starts_ok(starts: Seq<usize>, n: int) -> bool {
    &&& starts.len() > 0
    &&& starts[0] == 0
    &&& starts.len() <= n + 1
    &&& forall|a: int, b: int| 0 <= a < b < starts.len() ==> starts[a] < starts[b]
    &&& forall|k: int| 0 <= k < starts.len() ==> #[trigger] starts[k] <= n
    &&& forall|k: int| 1 <= k < starts.len() ==> #[trigger] starts[k] < n
}

pub proof fn lemma_layout_ok(sc: ScoreView, room: Option<i64>)
    requires
        sc.measures.len() <= 0x1_0000_0000,
        sc.measures.len() <= usize::MAX,
    ensures
        starts_ok(system_layout(sc, room), sc.measures.len() as int),
{
    if let Some(r) = room {
        let two = sc.staves == 2;
        let w = break_widths(sc.measures);
        crate::engrave::columns::lemma_system_starts_valid(
            w,
            0,
            r - opening_width(two, sc.fifths, sc.beats_per_measure, true),
            r - opening_width(two, sc.fifths, sc.beats_per_measure, false),
        );
    }
}

/// Engraves a score: its systems one under the other, each holding the
/// measures [`system_layout`] gives it. Without `room` the score is one
/// system; with it (the room a system may take, in centi-spaces, margins
/// excluded) measures wrap into further systems.
pub fn engrave(score: &Score, room: Option<i64>) -> (r: Engraving)
    requires
        engravable(score@),
    ensures
        marks_view(r.marks@) == systems_marks(
            score@,
            system_layout(score@, room),
            system_layout(score@, room).len() as int,
        ),
        r.width == systems_width(score@, system_layout(score@, room), system_layout(score@, room).len() as int),
        r.height == system_layout(score@, room).len() * system_pitch(score@.staves == 2),
{
    let ghost sc = score@;
    let n = score.measures.len();
    let two = score.staves == 2;
    let mut cols: Vec<Columns> = Vec::new();
    let mut widths: Vec<i128> = Vec::new();
    let mut i: usize = 0;
    while i < n
        invariant
            sc == score@,
            engravable(sc),
            n == sc.measures.len(),
            i <= n,
            cols@.len() == i,
            widths@.len() == i,
            forall|j: int| 0 <= j < i ==> columns_bounded(sc.measures[j], #[trigger] cols@[j].spec_parts()),
            forall|j: int| 0 <= j < i ==> #[trigger] widths@[j] == break_width(sc.measures[j]),
            forall|j: int| 0 <= j < i ==> 0 <= #[trigger] widths@[j] <= 0x1_0000_0000_0000,
        decreases n - i,
    {
        let m = &score.measures[i];
        assert(sc.measures[i as int] == m@);
        assert(measure_fits(sc.measures[i as int]));
        let c = bounded_columns(m);
        proof {
            lemma_columns_are_measure_onsets(m@, c.spec_parts());
        }
        let w = c.right + 40;
        let bw: i128 = if w < 0 {
            0
        } else {
            w
        };
        cols.push(c);
        widths.push(bw);
        i = i + 1;
    }
    assert(widths@ =~= break_widths(sc.measures));
    proof {
        lemma_layout_ok(sc, room);
    }
    let starts: Vec<usize> = match room {
        None => {
            let v: Vec<usize> = vec![0];
            assert(v@ =~= seq![0usize]);
            v
        },
        Some(r) => {
            let first = r as i128 - opening_room(two, score.fifths, score.beats_per_measure, true);
            let later = r as i128 - opening_room(two, score.fifths, score.beats_per_measure, false);
            let ss = crate::engrave::columns::system_breaks(&widths, first, later);
            if ss.len() == 0 {
                let v: Vec<usize> = vec![0];
                assert(v@ =~= seq![0usize]);
                v
            } else {
                ss
            }
        },
    };
    assert(starts@ == system_layout(sc, room));
    let ghost ss = starts@;
    let mut marks: Vec<Mark> = Vec::new();
    let mut width: i128 = 0;
    let mut k: usize = 0;
    assert(marks_view(marks@) =~= Seq::<MarkView>::empty());
    while k < starts.len()
        invariant
            sc == score@,
            engravable(sc),
            n == sc.measures.len(),
            cols@.len() == n,
            forall|j: int| 0 <= j < n ==> columns_bounded(sc.measures[j], #[trigger] cols@[j].spec_parts()),
            ss == starts@,
            starts_ok(ss, n as int),
            k <= ss.len(),
            marks_view(marks@) == systems_marks(sc, ss, k as int),
            width == systems_width(sc, ss, k as int),
        decreases ss.len() - k,
    {
        let from = starts[k];
        let to = if k + 1 < starts.len() {
            starts[k + 1]
        } else {
            n
        };
        assert(from <= to) by {
            if k + 1 < ss.len() {
                assert(ss[k as int] < ss[k + 1]);
            }
        }
        let end = draw_system(&mut marks, score, &cols, k, from, to);
        if k == 0 || end > width {
            width = end;
        }
        k = k + 1;
    }
    let pitch: i128 = if two {
        2300
    } else {
        1000
    };
    let height = starts.len() as i128 * pitch;
    Engraving { marks, width, height }
}

} // verus!
