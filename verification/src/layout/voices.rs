//! The marks of a voice of a measure: its engraving groups at their
//! columns, then its ties.

use vstd::prelude::*;

use crate::engrave::{
    glyph_width, notehead_glyph, spec_glyph_width, spec_notehead, spec_staff_step, staff_step,
    ElementKind,
};
use crate::engrave::columns::{column_offset, positions_of, strictly_increasing, Columns};
use crate::engrave::grouping::{
    event_tie_links, groups_from, is_tie_link, starts_beam_pair, tie_links, voice_groups,
    voice_ties_safe, voice_tie_links, VoiceGroup,
};
use crate::score::{events_view, Clef, Event, EventView};
use crate::layout::{marks_view, note_y, x_ok, Mark, MarkView, Shape, ShapeView};
use crate::layout::beams::{draw_beamed_pair, pair_marks};
use crate::layout::notes::{
    draw_event, draw_rest, event_marks, lemma_step_ok, push_with_id, rest_marks, top_ok, with_id,
};

verus! {

// ---------------------------------------------------------------------
// Voices
// ---------------------------------------------------------------------

/// The column of onset `t` among a measure's onsets.
pub open spec fn onset_index(onsets: Seq<i32>, t: i32) -> int {
    choose|k: int| 0 <= k < onsets.len() && onsets[k] == t
}

/// The x of the column of onset `t` in a measure starting at `x`.
pub open spec fn event_x(onsets: Seq<i32>, x: int, t: i32) -> int {
    x + column_offset(onsets, onset_index(onsets, t))
}

/// The marks of one engraving group of a voice (see [`VoiceGroup`]).
pub open spec fn group_marks(
    voice: Seq<EventView>,
    g: VoiceGroup,
    top: int,
    clef: Clef,
    onsets: Seq<i32>,
    x: int,
    fifths: i32,
) -> Seq<MarkView> {
    match g {
        VoiceGroup::Rest(i) => rest_marks(voice[i as int], top, event_x(onsets, x, voice[i as int].onset_units)),
        VoiceGroup::Single(i) => event_marks(
            voice[i as int],
            top,
            clef,
            event_x(onsets, x, voice[i as int].onset_units),
            fifths,
            true,
        ),
        VoiceGroup::BeamedPair(i) => pair_marks(
            voice[i as int],
            voice[i + 1],
            top,
            clef,
            event_x(onsets, x, voice[i as int].onset_units),
            event_x(onsets, x, voice[i + 1].onset_units),
            fifths,
        ),
    }
}

/// The marks of a sequence of groups of a voice, in order.
pub open spec fn groups_marks(
    voice: Seq<EventView>,
    gs: Seq<VoiceGroup>,
    top: int,
    clef: Clef,
    onsets: Seq<i32>,
    x: int,
    fifths: i32,
) -> Seq<MarkView>
    decreases gs.len(),
{
    if gs.len() == 0 {
        Seq::empty()
    } else {
        groups_marks(voice, gs.drop_last(), top, clef, onsets, x, fifths) + group_marks(
            voice,
            gs.last(),
            top,
            clef,
            onsets,
            x,
            fifths,
        )
    }
}

/// The tie of note `link.1` of event `link.0` to the next event: an arc
/// from just right of its head to just left of the next column, a little
/// off the note and bulging away from the middle line, carrying the
/// note's id.
pub open spec fn tie_mark(
    voice: Seq<EventView>,
    link: (usize, usize),
    top: int,
    clef: Clef,
    onsets: Seq<i32>,
    x: int,
) -> MarkView {
    let i = link.0 as int;
    let n = voice[i].notes[link.1 as int];
    let step = spec_staff_step(n.pitch, clef);
    let y = note_y(top, step);
    let w = spec_glyph_width(spec_notehead(voice[i].duration));
    let below = step < 4;
    with_id(
        ElementKind::Tie,
        n.id,
        ShapeView::Tie {
            x1: event_x(onsets, x, voice[i].onset_units) + w + 15,
            y1: y + if below {
                55int
            } else {
                -55int
            },
            x2: event_x(onsets, x, voice[i + 1].onset_units) - 15,
            y2: y + if below {
                55int
            } else {
                -55int
            },
            bulge: if below {
                90
            } else {
                -90
            },
        },
    )
}

/// The ties of a voice, one per tie link, in document order.
pub open spec fn tie_marks(
    voice: Seq<EventView>,
    links: Seq<(usize, usize)>,
    top: int,
    clef: Clef,
    onsets: Seq<i32>,
    x: int,
) -> Seq<MarkView> {
    Seq::new(links.len(), |k: int| tie_mark(voice, links[k], top, clef, onsets, x))
}

/// The marks of a voice of a measure starting at `x`: its groups in order
/// (rests, lone notes and chords with flags, beamed eighth pairs), then its
/// ties.
pub open spec fn voice_marks(
    voice: Seq<EventView>,
    top: int,
    clef: Clef,
    onsets: Seq<i32>,
    x: int,
    fifths: i32,
) -> Seq<MarkView> {
    groups_marks(voice, groups_from(voice, 0), top, clef, onsets, x, fifths) + tie_marks(
        voice,
        voice_tie_links(voice, voice.len() as int),
        top,
        clef,
        onsets,
        x,
    )
}

/// What the drawing of a voice needs of its measure's columns: every event
/// of the voice has a column, and the columns sit within a bounded
/// distance of a measure start that is itself bounded.
pub open spec fn columns_fit(voice: Seq<EventView>, c: (Seq<i32>, Seq<i128>, i128, Map<i32, i128>), x: int) -> bool {
    &&& strictly_increasing(c.0)
    &&& c.1.len() == c.0.len()
    &&& positions_of(c.0, c.1, c.3)
    &&& forall|i: int| 0 <= i < c.1.len() ==> #[trigger] c.1[i] == column_offset(c.0, i)
    &&& forall|i: int| 0 <= i < c.1.len() ==> 0 <= #[trigger] c.1[i] <= 0x1000_0000_0000
    &&& forall|i: int| 0 <= i < voice.len() ==> c.0.contains(#[trigger] voice[i].onset_units)
    &&& -0x1_0000_0000_0000_0000_0000 + 0x1000_0000_0000 <= x <= 0x1_0000_0000_0000_0000_0000
        - 0x1000_0000_0000
}

/// The x of the column of event `i` of a voice.
pub(crate) fn exec_event_x(voice: &Vec<Event>, i: usize, cols: &Columns, x: i128) -> (r: i128)
    requires
        i < voice@.len(),
        columns_fit(events_view(voice@), cols.spec_parts(), x as int),
    ensures
        r == event_x(cols.onsets@, x as int, voice@[i as int].onset_units),
        x_ok(r as int),
{
    let t = voice[i].onset_units;
    assert(events_view(voice@)[i as int].onset_units == t);
    let ghost k = onset_index(cols.onsets@, t);
    assert(cols.onsets@.contains(t));
    assert(0 <= k < cols.onsets@.len() && cols.onsets@[k] == t);
    assert(cols.offsets@[k] == column_offset(cols.onsets@, k));
    assert(cols.positions@.contains_key(cols.onsets@[k]));
    let offset = *cols.positions.get(&t).unwrap();
    x + offset
}

/// Whether the lengths of a voice and of its chords fit in `usize`.
pub open spec fn voice_lens_fit(v: Seq<EventView>) -> bool {
    &&& v.len() <= usize::MAX
    &&& forall|i: int| 0 <= i < v.len() ==> #[trigger] v[i].notes.len() <= usize::MAX
}

pub(crate) proof fn lemma_event_tie_links_valid(v: Seq<EventView>, i: int, k: int)
    requires
        voice_lens_fit(v),
        0 <= i < v.len(),
        k <= v[i].notes.len(),
    ensures
        forall|e: int|
            0 <= e < event_tie_links(v, i, k).len() ==> {
                let l = #[trigger] event_tie_links(v, i, k)[e];
                &&& l.0 == i
                &&& l.1 < v[i].notes.len()
                &&& i + 1 < v.len()
            },
    decreases k,
{
    if k > 0 {
        lemma_event_tie_links_valid(v, i, k - 1);
        let prev = event_tie_links(v, i, k - 1);
        if is_tie_link(v, i, k - 1) {
            let l = (i as usize, (k - 1) as usize);
            assert(event_tie_links(v, i, k) == prev.push(l));
            assert forall|e: int| 0 <= e < prev.push(l).len() implies {
                let m = #[trigger] prev.push(l)[e];
                &&& m.0 == i
                &&& m.1 < v[i].notes.len()
                &&& i + 1 < v.len()
            } by {
                if e < prev.len() {
                    assert(prev.push(l)[e] == prev[e]);
                }
            }
        }
    }
}

pub(crate) proof fn lemma_tie_links_valid(v: Seq<EventView>, k: int)
    requires
        voice_lens_fit(v),
        k <= v.len(),
    ensures
        forall|e: int|
            0 <= e < voice_tie_links(v, k).len() ==> {
                let l = #[trigger] voice_tie_links(v, k)[e];
                &&& 0 <= l.0 < k
                &&& l.0 + 1 < v.len()
                &&& l.1 < v[l.0 as int].notes.len()
            },
    decreases k,
{
    if k > 0 {
        lemma_tie_links_valid(v, k - 1);
        lemma_event_tie_links_valid(v, k - 1, v[k - 1].notes.len() as int);
        let a = voice_tie_links(v, k - 1);
        let b = event_tie_links(v, k - 1, v[k - 1].notes.len() as int);
        assert forall|e: int| 0 <= e < (a + b).len() implies {
            let l = #[trigger] (a + b)[e];
            &&& 0 <= l.0 < k
            &&& l.0 + 1 < v.len()
            &&& l.1 < v[l.0 as int].notes.len()
        } by {
            if e < a.len() {
                assert((a + b)[e] == a[e]);
            } else {
                assert((a + b)[e] == b[e - a.len()]);
            }
        }
    }
}

/// Draws the ties of a voice.
pub(crate) fn draw_ties(out: &mut Vec<Mark>, voice: &Vec<Event>, top: i128, clef: Clef, cols: &Columns, x: i128)
    requires
        voice_ties_safe(events_view(voice@)),
        top_ok(top as int),
        columns_fit(events_view(voice@), cols.spec_parts(), x as int),
    ensures
        marks_view(final(out)@) == marks_view(old(out)@) + tie_marks(
            events_view(voice@),
            voice_tie_links(events_view(voice@), voice@.len() as int),
            top as int,
            clef,
            cols.onsets@,
            x as int,
        ),
{
    let ghost v = events_view(voice@);
    let ghost start = marks_view(out@);
    let links = tie_links(voice);
    proof {
        assert(v.len() == voice.len());
        assert forall|i: int| 0 <= i < v.len() implies #[trigger] v[i].notes.len() <= usize::MAX by {
            assert(v[i].notes.len() == voice@[i].notes@.len());
            assert(voice@[i].notes.len() == voice@[i].notes@.len());
        }
        lemma_tie_links_valid(v, v.len() as int);
    }
    let ghost all = tie_marks(v, links@, top as int, clef, cols.onsets@, x as int);
    let mut k: usize = 0;
    while k < links.len()
        invariant
            v == events_view(voice@),
            top_ok(top as int),
            columns_fit(v, cols.spec_parts(), x as int),
            links@ == voice_tie_links(v, v.len() as int),
            voice_lens_fit(v),
            forall|e: int|
                0 <= e < links@.len() ==> {
                    let l = #[trigger] links@[e];
                    &&& 0 <= l.0 < v.len()
                    &&& l.0 + 1 < v.len()
                    &&& l.1 < v[l.0 as int].notes.len()
                },
            all == tie_marks(v, links@, top as int, clef, cols.onsets@, x as int),
            k <= links@.len(),
            marks_view(out@) == start + all.take(k as int),
        decreases links@.len() - k,
    {
        let (i, j) = links[k];
        assert(links@[k as int] == (i, j));
        let ev = &voice[i];
        assert(v[i as int] == ev@);
        let n = &ev.notes[j];
        assert(ev@.notes[j as int] == n@);
        proof {
            lemma_step_ok(n.pitch, clef);
        }
        let step = staff_step(n.pitch, clef);
        let y = top + 400 - 50 * step as i128;
        let w = glyph_width(notehead_glyph(ev.duration)) as i128;
        let x1 = exec_event_x(voice, i, cols, x) + w + 15;
        let x2 = exec_event_x(voice, i + 1, cols, x) - 15;
        assert(v[i + 1] == voice@[i + 1]@);
        let below = step < 4;
        let edge = if below {
            y + 55
        } else {
            y - 55
        };
        let bulge: i128 = if below {
            90
        } else {
            -90
        };
        push_with_id(out, ElementKind::Tie, &n.id, Shape::Tie { x1, y1: edge, x2, y2: edge, bulge });
        assert(all.take(k + 1) =~= all.take(k as int).push(all[k as int]));
        k = k + 1;
    }
    assert(all.take(k as int) =~= all);
}

/// Whether a group names events of the voice of the right kind.
pub open spec fn group_ok(v: Seq<EventView>, g: VoiceGroup) -> bool {
    match g {
        VoiceGroup::Rest(i) => i < v.len() && v[i as int].notes.len() == 0,
        VoiceGroup::Single(i) => i < v.len() && v[i as int].notes.len() > 0,
        VoiceGroup::BeamedPair(i) => i + 1 < v.len() && v[i as int].notes.len() > 0 && v[i
            + 1].notes.len() > 0,
    }
}

pub proof fn lemma_groups_valid(v: Seq<EventView>, i: int)
    requires
        v.len() <= usize::MAX,
        0 <= i,
    ensures
        forall|e: int| 0 <= e < groups_from(v, i).len() ==> group_ok(v, #[trigger] groups_from(v, i)[e]),
    decreases v.len() - i,
{
    if i < v.len() {
        let g = groups_from(v, i);
        if v[i].notes.len() == 0 {
            lemma_groups_valid(v, i + 1);
            let rest = groups_from(v, i + 1);
            assert forall|e: int| 0 <= e < g.len() implies group_ok(v, #[trigger] g[e]) by {
                if e > 0 {
                    assert(g[e] == rest[e - 1]);
                }
            }
        } else if starts_beam_pair(v, i) {
            lemma_groups_valid(v, i + 2);
            let rest = groups_from(v, i + 2);
            assert forall|e: int| 0 <= e < g.len() implies group_ok(v, #[trigger] g[e]) by {
                if e > 0 {
                    assert(g[e] == rest[e - 1]);
                }
            }
        } else {
            lemma_groups_valid(v, i + 1);
            let rest = groups_from(v, i + 1);
            assert forall|e: int| 0 <= e < g.len() implies group_ok(v, #[trigger] g[e]) by {
                if e > 0 {
                    assert(g[e] == rest[e - 1]);
                }
            }
        }
    }
}

/// Draws a voice of a measure: its groups, then its ties.
pub(crate) fn draw_voice(
    out: &mut Vec<Mark>,
    voice: &Vec<Event>,
    top: i128,
    clef: Clef,
    cols: &Columns,
    x: i128,
    fifths: i32,
)
    requires
        voice_ties_safe(events_view(voice@)),
        top_ok(top as int),
        columns_fit(events_view(voice@), cols.spec_parts(), x as int),
        fifths > i32::MIN,
    ensures
        marks_view(final(out)@) == marks_view(old(out)@) + voice_marks(
            events_view(voice@),
            top as int,
            clef,
            cols.onsets@,
            x as int,
            fifths,
        ),
{
    let ghost v = events_view(voice@);
    let ghost start = marks_view(out@);
    let groups = voice_groups(voice);
    proof {
        assert(v.len() == voice.len());
        lemma_groups_valid(v, 0);
    }
    let ghost gs = groups@;
    let mut k: usize = 0;
    while k < groups.len()
        invariant
            v == events_view(voice@),
            gs == groups@,
            gs == groups_from(v, 0),
            v.len() <= usize::MAX,
            forall|e: int| 0 <= e < gs.len() ==> group_ok(v, #[trigger] gs[e]),
            top_ok(top as int),
            columns_fit(v, cols.spec_parts(), x as int),
            fifths > i32::MIN,
            k <= gs.len(),
            marks_view(out@) == start + groups_marks(v, gs.take(k as int), top as int, clef, cols.onsets@, x as int, fifths),
        decreases gs.len() - k,
    {
        let g = groups[k];
        assert(group_ok(v, gs[k as int]));
        match g {
            VoiceGroup::Rest(i) => {
                assert(v[i as int] == voice@[i as int]@);
                let ex = exec_event_x(voice, i, cols, x);
                draw_rest(out, &voice[i], top, ex);
            },
            VoiceGroup::Single(i) => {
                assert(v[i as int] == voice@[i as int]@);
                let ex = exec_event_x(voice, i, cols, x);
                draw_event(out, &voice[i], top, clef, ex, fifths, true);
            },
            VoiceGroup::BeamedPair(i) => {
                assert(v[i as int] == voice@[i as int]@);
                assert(v[i + 1] == voice@[i + 1]@);
                let xa = exec_event_x(voice, i, cols, x);
                let xb = exec_event_x(voice, i + 1, cols, x);
                draw_beamed_pair(out, &voice[i], &voice[i + 1], top, clef, xa, xb, fifths);
            },
        }
        assert(gs.take(k + 1).drop_last() =~= gs.take(k as int));
        assert(gs.take(k + 1).last() == g);
        k = k + 1;
    }
    assert(gs.take(k as int) =~= gs);
    draw_ties(out, voice, top, clef, cols, x);
}

} // verus!
