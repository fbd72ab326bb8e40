//! Ties over a barline: a note that ends a measure's voice and starts a tie
//! stopped by the first event of the same voice in the next measure.

use vstd::prelude::*;

use crate::engrave::{glyph_width, notehead_glyph, spec_glyph_width, spec_notehead, spec_staff_step, staff_step, ElementKind};
use crate::engrave::columns::Columns;
use crate::engrave::grouping::{carry_ties_safe, event_ties_safe, event_tie_links, is_tie_link, stops_tie};
use crate::engrave::columns::has_onset;
use crate::score::{events_view, Clef, Event, EventView, MeasureView, Score, ScoreView};
use crate::layout::{
    exec_staff_top, lemma_top_bounds, marks_view, note_y, staff_top, system_ok, x_ok, Mark, MarkView,
    Shape, ShapeView,
};
use crate::layout::systems::{
    columns_bounded, engravable, lemma_columns_are_measure_onsets, measure_onsets, measure_right,
    measure_width,
};
use crate::layout::notes::{lemma_step_ok, push_with_id, top_ok, with_id};
use crate::layout::voices::{columns_fit, event_x, exec_event_x};

verus! {

/// The tie links from the last event of `voice` to the first event of
/// `next` (the same voice in the following measure): `(0, j)` for each
/// note `j` of that last event that starts a tie which the first event
/// stops with a note of the same pitch.
pub open spec fn carry_links(voice: Seq<EventView>, next: Seq<EventView>) -> Seq<(usize, usize)> {
    if voice.len() == 0 || next.len() == 0 {
        Seq::empty()
    } else {
        event_tie_links(seq![voice.last(), next[0]], 0, voice.last().notes.len() as int)
    }
}

/// The tie of note `j` of `last`, whose heads stand at `xa`, running to
/// `x2`: from just right of its head, a little off the note and bulging
/// away from the middle line, carrying the note's id.
pub open spec fn carry_tie_mark(last: EventView, j: int, top: int, clef: Clef, xa: int, x2: int) -> MarkView {
    let n = last.notes[j];
    let step = spec_staff_step(n.pitch, clef);
    let y = note_y(top, step);
    let w = spec_glyph_width(spec_notehead(last.duration));
    let below = step < 4;
    let edge = if below {
        y + 55
    } else {
        y - 55
    };
    with_id(
        ElementKind::Tie,
        n.id,
        ShapeView::Tie {
            x1: xa + w + 15,
            y1: edge,
            x2,
            y2: edge,
            bulge: if below {
                90
            } else {
                -90
            },
        },
    )
}

/// The ties of `last` for the links `links`, in order.
pub open spec fn carry_tie_marks(
    last: EventView,
    links: Seq<(usize, usize)>,
    top: int,
    clef: Clef,
    xa: int,
    x2: int,
) -> Seq<MarkView> {
    Seq::new(links.len(), |k: int| carry_tie_mark(last, links[k].1 as int, top, clef, xa, x2))
}

/// The ties of a voice of a measure starting at `x` that run over its
/// closing barline to `x2`, one per link to the next measure's voice.
pub open spec fn voice_carry_marks(
    voice: Seq<EventView>,
    next: Seq<EventView>,
    top: int,
    clef: Clef,
    onsets: Seq<i32>,
    x: int,
    x2: int,
) -> Seq<MarkView> {
    if voice.len() == 0 || next.len() == 0 {
        Seq::empty()
    } else {
        carry_tie_marks(
            voice.last(),
            carry_links(voice, next),
            top,
            clef,
            event_x(onsets, x, voice.last().onset_units),
            x2,
        )
    }
}

/// Where a tie over a barline ends: just left of the first event of the
/// next measure's voice where that measure follows on the same system,
/// else at the closing barline `bar_x`, the end of the system.
pub open spec fn carry_end(next: Seq<EventView>, next_onsets: Seq<i32>, next_x: int, bar_x: int, continues: bool) -> int {
    if continues && next.len() > 0 {
        event_x(next_onsets, next_x, next[0].onset_units) - 15
    } else {
        bar_x
    }
}

/// Draws the ties of a voice of a measure at `x` over its closing barline
/// to `x2`.
pub(crate) fn draw_voice_carry(
    out: &mut Vec<Mark>,
    voice: &Vec<Event>,
    next: &Vec<Event>,
    top: i128,
    clef: Clef,
    cols: &Columns,
    x: i128,
    x2: i128,
)
    requires
        carry_ties_safe(events_view(voice@), events_view(next@)),
        top_ok(top as int),
        columns_fit(events_view(voice@), cols.spec_parts(), x as int),
        x_ok(x2 as int),
    ensures
        marks_view(final(out)@) == marks_view(old(out)@) + voice_carry_marks(
            events_view(voice@),
            events_view(next@),
            top as int,
            clef,
            cols.onsets@,
            x as int,
            x2 as int,
        ),
{
    let ghost v = events_view(voice@);
    let ghost nv = events_view(next@);
    let ghost start = marks_view(out@);
    if voice.len() == 0 || next.len() == 0 {
        assert(marks_view(out@) =~= start + Seq::<MarkView>::empty());
        return;
    }
    let li = voice.len() - 1;
    let last = &voice[li];
    let first = &next[0];
    assert(v[li as int] == last@ && v.last() == last@);
    assert(nv[0] == first@);
    let ghost pair = seq![last@, first@];
    let xa = exec_event_x(voice, li, cols, x);
    let w = glyph_width(notehead_glyph(last.duration)) as i128;
    assert(event_ties_safe(last@, first@));
    let ghost all = voice_carry_marks(v, nv, top as int, clef, cols.onsets@, x as int, x2 as int);
    let mut j: usize = 0;
    while j < last.notes.len()
        invariant
            v == events_view(voice@),
            v.last() == last@,
            v.len() > 0,
            li as int == v.len() - 1,
            v[li as int] == last@,
            nv.len() > 0,
            nv[0] == first@,
            pair == seq![last@, first@],
            event_ties_safe(last@, first@),
            top_ok(top as int),
            x_ok(x2 as int),
            xa == event_x(cols.onsets@, x as int, last@.onset_units),
            x_ok(xa as int),
            w == spec_glyph_width(spec_notehead(last@.duration)),
            j <= last@.notes.len(),
            marks_view(out@) == start + carry_tie_marks(
                last@,
                event_tie_links(pair, 0, j as int),
                top as int,
                clef,
                xa as int,
                x2 as int,
            ),
        decreases last@.notes.len() - j,
    {
        let ghost before = marks_view(out@);
        let ghost links = event_tie_links(pair, 0, j as int);
        let n = &last.notes[j];
        assert(last@.notes[j as int] == n@);
        let link = n.tie_start && stops_tie(first, n);
        assert(link == is_tie_link(pair, 0, j as int));
        if link {
            proof {
                lemma_step_ok(n.pitch, clef);
            }
            let step = staff_step(n.pitch, clef);
            let y = top + 400 - 50 * step as i128;
            let below = step < 4;
            let edge = if below {
                y + 55
            } else {
                y - 55
            };
            let bulge: i128 = if below {
                90
            } else {
                -90
            };
            push_with_id(out, ElementKind::Tie, &n.id, Shape::Tie { x1: xa + w + 15, y1: edge, x2, y2: edge, bulge });
            let ghost grown = links.push((0usize, j));
            assert(event_tie_links(pair, 0, j + 1) == grown);
            assert(carry_tie_marks(last@, grown, top as int, clef, xa as int, x2 as int) =~= carry_tie_marks(
                last@,
                links,
                top as int,
                clef,
                xa as int,
                x2 as int,
            ).push(carry_tie_mark(last@, j as int, top as int, clef, xa as int, x2 as int)));
        } else {
            assert(event_tie_links(pair, 0, j + 1) == links);
        }
        j = j + 1;
    }
    assert(marks_view(out@) == start + all);
}

/// The ties of measure `i` of a score, starting at `x` on system `system`
/// that holds measures up to `to`, which run over its closing barline to
/// measure `i + 1`: those of the upper voice, then on a grand staff those
/// of the lower one.
pub open spec fn carry_marks(sc: ScoreView, system: int, i: int, to: int, x: int) -> Seq<MarkView> {
    if i + 1 >= sc.measures.len() {
        Seq::empty()
    } else {
        let m = sc.measures[i];
        let n = sc.measures[i + 1];
        let two = sc.staves == 2;
        let on = measure_onsets(m);
        let next_on = measure_onsets(n);
        let next_x = x + measure_width(m);
        let bar_x = x + measure_right(m);
        let continues = i + 1 < to;
        voice_carry_marks(
            m.treble,
            n.treble,
            staff_top(two, system, 0),
            Clef::Treble,
            on,
            x,
            carry_end(n.treble, next_on, next_x, bar_x, continues),
        ) + if two {
            voice_carry_marks(
                m.bass,
                n.bass,
                staff_top(two, system, 1),
                Clef::Bass,
                on,
                x,
                carry_end(n.bass, next_on, next_x, bar_x, continues),
            )
        } else {
            Seq::empty()
        }
    }
}

/// Every mark over a barline is a tie.
pub(crate) proof fn lemma_carry_all_ties(sc: ScoreView, system: int, i: int, to: int, x: int)
    ensures
        forall|k: int|
            0 <= k < carry_marks(sc, system, i, to, x).len() ==> (#[trigger] carry_marks(sc, system, i, to, x)[k]).kind
                == ElementKind::Tie,
{
    let all = carry_marks(sc, system, i, to, x);
    if i + 1 < sc.measures.len() {
        let m = sc.measures[i];
        let n = sc.measures[i + 1];
        let two = sc.staves == 2;
        let on = measure_onsets(m);
        let next_on = measure_onsets(n);
        let next_x = x + measure_width(m);
        let bar_x = x + measure_right(m);
        let continues = i + 1 < to;
        let t = voice_carry_marks(
            m.treble,
            n.treble,
            staff_top(two, system, 0),
            Clef::Treble,
            on,
            x,
            carry_end(n.treble, next_on, next_x, bar_x, continues),
        );
        let b = if two {
            voice_carry_marks(
                m.bass,
                n.bass,
                staff_top(two, system, 1),
                Clef::Bass,
                on,
                x,
                carry_end(n.bass, next_on, next_x, bar_x, continues),
            )
        } else {
            Seq::empty()
        };
        assert(all == t + b);
        assert forall|k: int| 0 <= k < all.len() implies (#[trigger] all[k]).kind == ElementKind::Tie by {
            if k < t.len() {
                assert(all[k] == t[k]);
            } else {
                assert(all[k] == b[k - t.len()]);
            }
        }
    }
}

/// The links of an event are exactly its notes that start a tie stopped
/// by the next event.
pub(crate) proof fn lemma_event_tie_links_exact(v: Seq<EventView>, i: int, k: int, j: int)
    requires
        0 <= i,
        0 <= k <= v[i].notes.len() <= usize::MAX,
        i <= usize::MAX,
    ensures
        event_tie_links(v, i, k).contains((i as usize, j as usize)) && 0 <= j <= usize::MAX <==> 0 <= j < k
            && is_tie_link(v, i, j),
        forall|e: int| 0 <= e < event_tie_links(v, i, k).len() ==> (#[trigger] event_tie_links(v, i, k)[e]).0 == i,
    decreases k,
{
    if k > 0 {
        lemma_event_tie_links_exact(v, i, k - 1, j);
        let prev = event_tie_links(v, i, k - 1);
        if is_tie_link(v, i, k - 1) {
            let l = (i as usize, (k - 1) as usize);
            assert(event_tie_links(v, i, k) == prev.push(l));
            if prev.push(l).contains((i as usize, j as usize)) && 0 <= j <= usize::MAX {
                let e = choose|e: int| 0 <= e < prev.push(l).len() && prev.push(l)[e] == (i as usize, j as usize);
                if e < prev.len() {
                    assert(prev[e] == (i as usize, j as usize));
                }
            }
            if 0 <= j < k && is_tie_link(v, i, j) {
                if j == k - 1 {
                    assert(prev.push(l)[prev.len() as int] == l);
                } else {
                    let e = choose|e: int| 0 <= e < prev.len() && prev[e] == (i as usize, j as usize);
                    assert(prev.push(l)[e] == prev[e]);
                }
            }
            assert forall|e: int| 0 <= e < prev.push(l).len() implies (#[trigger] prev.push(l)[e]).0 == i by {
                if e < prev.len() {
                    assert(prev.push(l)[e] == prev[e]);
                }
            }
        }
    }
}

/// Ties over a barline: the last event of a voice of a measure ties over
/// the barline once for each of its notes that starts a tie stopped, with
/// a note of the same pitch, by the first event of the same voice in the
/// next measure, and for no other note; each such tie carries the id of
/// the note it starts from and ends at `x2` (see [`carry_end`]).
pub proof fn law_ties_over_barlines(
    voice: Seq<EventView>,
    next: Seq<EventView>,
    top: int,
    clef: Clef,
    onsets: Seq<i32>,
    x: int,
    x2: int,
    j: int,
)
    requires
        voice.len() > 0,
        next.len() > 0,
        voice.last().notes.len() <= usize::MAX,
    ensures
        ({
            let marks = voice_carry_marks(voice, next, top, clef, onsets, x, x2);
            let links = carry_links(voice, next);
            let last = voice.last();
            &&& marks.len() == links.len()
            &&& forall|k: int|
                0 <= k < marks.len() ==> {
                    &&& (#[trigger] marks[k]).kind == ElementKind::Tie
                    &&& marks[k].id == Some(last.notes[links[k].1 as int].id)
                    &&& marks[k].shape matches ShapeView::Tie { x2: end, .. } && end == x2
                }
            &&& (links.contains((0usize, j as usize)) && 0 <= j <= usize::MAX) <==> (0 <= j < last.notes.len()
                && last.notes[j].tie_start && exists|m: int|
                0 <= m < next[0].notes.len() && #[trigger] next[0].notes[m].tie_stop
                    && next[0].notes[m].pitch.spec_midi() == last.notes[j].pitch.spec_midi())
        }),
{
    let pair = seq![voice.last(), next[0]];
    lemma_event_tie_links_exact(pair, 0, voice.last().notes.len() as int, j);
}

/// What the drawing of ties over a barline needs of a measure's columns.
pub(crate) proof fn lemma_columns_fit(m: MeasureView, c: (Seq<i32>, Seq<i128>, i128, Map<i32, i128>), x: int)
    requires
        columns_bounded(m, c),
        -0x1_0000_0000_0000_0000_0000 + 0x1000_0000_0000 <= x <= 0x1_0000_0000_0000_0000_0000
            - 0x1000_0000_0000,
    ensures
        columns_fit(m.treble, c, x),
        columns_fit(m.bass, c, x),
        c.0 == measure_onsets(m),
        c.2 == measure_right(m),
{
    lemma_columns_are_measure_onsets(m, c);
    assert forall|i: int| 0 <= i < m.treble.len() implies c.0.contains(#[trigger] m.treble[i].onset_units) by {
        assert(has_onset(m, m.treble[i].onset_units));
    }
    assert forall|i: int| 0 <= i < m.bass.len() implies c.0.contains(#[trigger] m.bass[i].onset_units) by {
        assert(has_onset(m, m.bass[i].onset_units));
    }
}

/// Where a tie of a voice over the barline of a measure ends.
pub(crate) fn exec_carry_end(next: &Vec<Event>, next_cols: &Columns, next_x: i128, bar_x: i128, continues: bool) -> (r: i128)
    requires
        columns_fit(events_view(next@), next_cols.spec_parts(), next_x as int),
        x_ok(bar_x as int),
    ensures
        r == carry_end(events_view(next@), next_cols.onsets@, next_x as int, bar_x as int, continues),
        x_ok(r as int),
{
    if continues && next.len() > 0 {
        let ghost on = next_cols.onsets@;
        let ghost t = events_view(next@)[0].onset_units;
        assert(on.contains(t));
        let ghost k = crate::layout::voices::onset_index(on, t);
        assert(0 <= k < on.len() && on[k] == t);
        assert(next_cols.offsets@[k] == crate::engrave::columns::column_offset(on, k));
        exec_event_x(next, 0, next_cols, next_x) - 15
    } else {
        bar_x
    }
}

/// Draws the ties of measure `i` over its closing barline; `x` is where
/// the measure starts and `next_x` where the next one does.
pub(crate) fn draw_carry(
    out: &mut Vec<Mark>,
    score: &Score,
    cols: &Vec<Columns>,
    system: usize,
    i: usize,
    to: usize,
    x: i128,
    next_x: i128,
)
    requires
        engravable(score@),
        cols@.len() == score@.measures.len(),
        forall|k: int| 0 <= k < cols@.len() ==> columns_bounded(score@.measures[k], #[trigger] cols@[k].spec_parts()),
        system_ok(system as int),
        i < to <= score@.measures.len(),
        -0x8000_0000_0000_0000_0000 <= x <= 0x8000_0000_0000_0000_0000,
        next_x == x + measure_width(score@.measures[i as int]),
    ensures
        marks_view(final(out)@) == marks_view(old(out)@) + carry_marks(
            score@,
            system as int,
            i as int,
            to as int,
            x as int,
        ),
{
    let ghost sc = score@;
    let ghost start = marks_view(out@);
    if i + 1 >= score.measures.len() {
        assert(marks_view(out@) =~= start + Seq::<MarkView>::empty());
        return;
    }
    let two = score.staves == 2;
    let m = &score.measures[i];
    let n = &score.measures[i + 1];
    assert(sc.measures[i as int] == m@ && sc.measures[i + 1] == n@);
    let c = &cols[i];
    let nc = &cols[i + 1];
    assert(columns_bounded(m@, c.spec_parts()) && columns_bounded(n@, nc.spec_parts()));
    proof {
        lemma_columns_fit(m@, c.spec_parts(), x as int);
        lemma_columns_fit(n@, nc.spec_parts(), next_x as int);
        lemma_top_bounds(two, system as int, 0);
        lemma_top_bounds(two, system as int, 1);
    }
    assert(m@.treble == events_view(m.voices@[0]@) && m@.bass == events_view(m.voices@[1]@));
    assert(n@.treble == events_view(n.voices@[0]@) && n@.bass == events_view(n.voices@[1]@));
    assert(crate::engrave::grouping::measure_ties_safe(sc.measures, i as int, two));
    let bar_x = x + c.right;
    let continues = i + 1 < to;
    let top0 = exec_staff_top(two, system, 0);
    let end0 = exec_carry_end(&n.voices[0], nc, next_x, bar_x, continues);
    draw_voice_carry(out, &m.voices[0], &n.voices[0], top0, Clef::Treble, c, x, end0);
    if two {
        let top1 = exec_staff_top(two, system, 1);
        let end1 = exec_carry_end(&n.voices[1], nc, next_x, bar_x, continues);
        draw_voice_carry(out, &m.voices[1], &n.voices[1], top1, Clef::Bass, c, x, end1);
    }
    assert(marks_view(out@) =~= start + carry_marks(sc, system as int, i as int, to as int, x as int));
}

} // verus!
