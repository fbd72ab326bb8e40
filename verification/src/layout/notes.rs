//! The marks of notes, chords and rests: ledger lines, heads, dots,
//! accidentals, stems and flags.

use vstd::prelude::*;

use crate::engrave::{
    accidental_glyph, farthest_index, glyph_width, notehead_glyph, rest_glyph, spec_accidental,
    spec_glyph_width, spec_ledger_above, spec_ledger_below, spec_notehead, spec_rest_glyph,
    middle_distance, spec_staff_step, spec_stem_up, staff_step, stem_up, ElementKind,
};
use crate::score::{notes_view, Clef, Duration, Event, EventView, Note, NoteView, Pitch};
use crate::smufl;
use crate::layout::{
    glyph_at, hline, marks_view, note_y, plain, x_ok, Mark, MarkView, Shape, ShapeView, Stroke,
};
use crate::layout::opening::push_plain;
use crate::layout::systems::engrave;

verus! {

// ---------------------------------------------------------------------
// Notes, chords, rests
// ---------------------------------------------------------------------

/// A mark carrying an element id.
pub open spec fn with_id(kind: ElementKind, id: Seq<char>, shape: ShapeView) -> MarkView {
    MarkView { kind, id: Some(id), shape }
}

/// The ledger lines of a note at staff step `step` whose head (of width
/// `w`) sits at `x`, on a staff whose top line is at `top`: the lines
/// above the staff from the nearest up, then those below from the nearest
/// down; each overhangs the head by 0.35 spaces on both sides.
pub open spec fn ledger_marks(top: int, x: int, step: int, w: int) -> Seq<MarkView> {
    Seq::new(
        spec_ledger_above(step) as nat,
        |k: int|
            plain(ElementKind::LedgerLine, hline(x - 35, x + w + 35, top - 100 * (k + 1), Stroke::Ledger)),
    ) + Seq::new(
        spec_ledger_below(step) as nat,
        |k: int|
            plain(
                ElementKind::LedgerLine,
                hline(x - 35, x + w + 35, top + 400 + 100 * (k + 1), Stroke::Ledger),
            ),
    )
}

/// The marks of one note of a chord with duration `d` whose heads sit at
/// `x`: its ledger lines, its head, its augmentation dot, and its
/// accidental (left of the head) when the key signature asks for one.
pub open spec fn note_marks(n: NoteView, d: Duration, top: int, clef: Clef, x: int, fifths: i32) -> Seq<
    MarkView,
> {
    let step = spec_staff_step(n.pitch, clef);
    let y = note_y(top, step);
    let head = spec_notehead(d);
    let w = spec_glyph_width(head);
    let dot = if d.dotted {
        seq![with_id(ElementKind::Dot, n.id, glyph_at(smufl::AUGMENTATION_DOT, x + w + 35, y - 50))]
    } else {
        Seq::empty()
    };
    let acc = match spec_accidental(n, fifths) {
        Some(c) => seq![with_id(ElementKind::Accidental, n.id, glyph_at(c, x - spec_glyph_width(c) - 25, y))],
        None => Seq::empty(),
    };
    ledger_marks(top, x, step, w) + seq![with_id(ElementKind::Notehead, n.id, glyph_at(head, x, y))] + dot
        + acc
}

/// The marks of the notes of a chord, in order.
pub open spec fn chord_marks(
    notes: Seq<NoteView>,
    d: Duration,
    top: int,
    clef: Clef,
    x: int,
    fifths: i32,
) -> Seq<MarkView>
    decreases notes.len(),
{
    if notes.len() == 0 {
        Seq::empty()
    } else {
        chord_marks(notes.drop_last(), d, top, clef, x, fifths) + note_marks(
            notes.last(),
            d,
            top,
            clef,
            x,
            fifths,
        )
    }
}

/// The staff steps of the notes of a chord.
pub open spec fn chord_steps(notes: Seq<NoteView>, clef: Clef) -> Seq<i64> {
    Seq::new(notes.len(), |j: int| spec_staff_step(notes[j].pitch, clef) as i64)
}

/// The highest of a non-empty sequence of steps.
pub open spec fn highest_step(steps: Seq<i64>) -> int
    decreases steps.len(),
{
    if steps.len() <= 1 {
        steps[0] as int
    } else if steps.last() > highest_step(steps.drop_last()) {
        steps.last() as int
    } else {
        highest_step(steps.drop_last())
    }
}

/// The lowest of a non-empty sequence of steps.
pub open spec fn lowest_step(steps: Seq<i64>) -> int
    decreases steps.len(),
{
    if steps.len() <= 1 {
        steps[0] as int
    } else if steps.last() < lowest_step(steps.drop_last()) {
        steps.last() as int
    } else {
        lowest_step(steps.drop_last())
    }
}

/// Where the stem of an event ends, for beaming: `(x, shift, tip_y)`. An
/// up stem stands at the right edge of the heads (shifted left by half its
/// thickness) and rises 3.5 spaces above the highest note; a down stem
/// stands at the left edge (shifted right) and falls 3.5 spaces below the
/// lowest one. A whole note has no stem: its heads' x and the height of the
/// note farthest from the middle line.
pub open spec fn stem_end(ev: EventView, top: int, clef: Clef, x: int) -> (int, int, int) {
    let steps = chord_steps(ev.notes, clef);
    let w = spec_glyph_width(spec_notehead(ev.duration));
    if ev.duration.base_units < 8 {
        if spec_stem_up(steps) {
            (x + w, -1, note_y(top, highest_step(steps)) - 350)
        } else {
            (x, 1, note_y(top, lowest_step(steps)) + 350)
        }
    } else {
        (x, 0, note_y(top, steps[farthest_index(steps, steps.len() as int)] as int))
    }
}

/// The stem of an event (all but whole notes), carrying the first note's
/// id, and its flag when `with_flag` and the event is an eighth.
pub open spec fn stem_marks(ev: EventView, top: int, clef: Clef, x: int, with_flag: bool) -> Seq<
    MarkView,
> {
    let steps = chord_steps(ev.notes, clef);
    let up = spec_stem_up(steps);
    let (sx, shift, tip) = stem_end(ev, top, clef, x);
    let root = if up {
        note_y(top, lowest_step(steps))
    } else {
        note_y(top, highest_step(steps))
    };
    let id = ev.notes[0].id;
    if ev.duration.base_units < 8 {
        seq![
            with_id(
                ElementKind::Stem,
                id,
                ShapeView::Line {
                    x1: sx,
                    y1: root,
                    x2: sx,
                    y2: tip,
                    shift1: shift,
                    shift2: shift,
                    stroke: Stroke::Stem,
                },
            ),
        ] + if with_flag && ev.duration.base_units == 1 {
            seq![
                with_id(
                    ElementKind::Flag,
                    id,
                    ShapeView::Glyph {
                        ch: if up {
                            smufl::FLAG_8TH_UP
                        } else {
                            smufl::FLAG_8TH_DOWN
                        },
                        x: sx,
                        y: tip,
                        size: 400,
                        shift,
                    },
                ),
            ]
        } else {
            Seq::empty()
        }
    } else {
        Seq::empty()
    }
}

/// The marks of a note or chord event at `x`: its notes, then its stem
/// and flag.
#[verifier::opaque]
pub open spec fn event_marks(
    ev: EventView,
    top: int,
    clef: Clef,
    x: int,
    fifths: i32,
    with_flag: bool,
) -> Seq<MarkView> {
    chord_marks(ev.notes, ev.duration, top, clef, x, fifths) + stem_marks(ev, top, clef, x, with_flag)
}

/// The marks of a rest at `x`: the rest glyph (a whole rest hangs from the
/// second line, others sit on the middle line) and its dot, both carrying
/// the rest's id.
#[verifier::opaque]
pub open spec fn rest_marks(ev: EventView, top: int, x: int) -> Seq<MarkView> {
    let ch = spec_rest_glyph(ev.duration);
    let y = top + if ch == smufl::REST_WHOLE {
        100int
    } else {
        200int
    };
    seq![MarkView { kind: ElementKind::Rest, id: ev.rest_id, shape: glyph_at(ch, x, y) }] + if ev.duration.dotted {
        seq![
            MarkView {
                kind: ElementKind::Dot,
                id: ev.rest_id,
                shape: glyph_at(smufl::AUGMENTATION_DOT, x + spec_glyph_width(ch) + 30, y - 50),
            },
        ]
    } else {
        Seq::empty()
    }
}

/// Bounds of a vertical position handed between drawing steps.
pub open spec fn top_ok(top: int) -> bool {
    0 <= top <= 0x10_0000_0000_0000
}

/// Bounds of a staff step: those of any pitch with an `i32` octave.
pub open spec fn step_ok(step: int) -> bool {
    -0x10_0000_0000 <= step <= 0x10_0000_0000
}

/// A copy of an optional id.
pub(crate) fn copy_id(id: &Option<String>) -> (r: Option<String>)
    ensures
        match r {
            Some(s) => id.is_some() && s@ == id.unwrap()@,
            None => id.is_none(),
        },
{
    match id {
        Some(s) => Some(s.clone()),
        None => None,
    }
}

/// Pushes a mark carrying `id`.
pub(crate) fn push_with_id(out: &mut Vec<Mark>, kind: ElementKind, id: &String, shape: Shape)
    ensures
        marks_view(final(out)@) == marks_view(old(out)@).push(with_id(kind, id@, shape@)),
{
    out.push(Mark { kind, id: Some(id.clone()), shape });
    assert(marks_view(out@) =~= marks_view(old(out)@).push(with_id(kind, id@, shape@)));
}

/// Draws the ledger lines of a note.
pub(crate) fn draw_ledger_lines(out: &mut Vec<Mark>, top: i128, x: i128, step: i64, w: i128)
    requires
        step_ok(step as int),
        top_ok(top as int),
        x_ok(x as int),
        0 <= w <= 1000,
    ensures
        marks_view(final(out)@) == marks_view(old(out)@) + ledger_marks(
            top as int,
            x as int,
            step as int,
            w as int,
        ),
{
    let ghost start = marks_view(out@);
    let (above, below) = crate::engrave::ledger_lines(step);
    let ghost all = ledger_marks(top as int, x as int, step as int, w as int);
    let ghost up = Seq::new(
        above as nat,
        |k: int|
            plain(
                ElementKind::LedgerLine,
                hline(x - 35, x + w + 35, top - 100 * (k + 1), Stroke::Ledger),
            ),
    );
    let ghost down = Seq::new(
        below as nat,
        |k: int|
            plain(
                ElementKind::LedgerLine,
                hline(x - 35, x + w + 35, top + 400 + 100 * (k + 1), Stroke::Ledger),
            ),
    );
    assert(all == up + down);
    let mut k: u64 = 0;
    while k < above
        invariant
            top_ok(top as int),
            x_ok(x as int),
            0 <= w <= 1000,
            k <= above,
            above <= 0x8_0000_0000,
            up.len() == above,
            up == Seq::new(
                above as nat,
                |k: int|
                    plain(
                        ElementKind::LedgerLine,
                        hline(x - 35, x + w + 35, top - 100 * (k + 1), Stroke::Ledger),
                    ),
            ),
            marks_view(out@) == start + up.take(k as int),
        decreases above - k,
    {
        let y = top - 100 * (k as i128 + 1);
        push_plain(
            out,
            ElementKind::LedgerLine,
            Shape::Line { x1: x - 35, y1: y, x2: x + w + 35, y2: y, shift1: 0, shift2: 0, stroke: Stroke::Ledger },
        );
        assert(up.take(k + 1) =~= up.take(k as int).push(up[k as int]));
        k = k + 1;
    }
    assert(up.take(k as int) =~= up);
    let ghost mid = marks_view(out@);
    let mut k: u64 = 0;
    while k < below
        invariant
            top_ok(top as int),
            x_ok(x as int),
            0 <= w <= 1000,
            k <= below,
            below <= 0x8_0000_0000,
            down.len() == below,
            down == Seq::new(
                below as nat,
                |k: int|
                    plain(
                        ElementKind::LedgerLine,
                        hline(x - 35, x + w + 35, top + 400 + 100 * (k + 1), Stroke::Ledger),
                    ),
            ),
            marks_view(out@) == mid + down.take(k as int),
        decreases below - k,
    {
        let y = top + 400 + 100 * (k as i128 + 1);
        push_plain(
            out,
            ElementKind::LedgerLine,
            Shape::Line { x1: x - 35, y1: y, x2: x + w + 35, y2: y, shift1: 0, shift2: 0, stroke: Stroke::Ledger },
        );
        assert(down.take(k + 1) =~= down.take(k as int).push(down[k as int]));
        k = k + 1;
    }
    assert(down.take(k as int) =~= down);
}

pub(crate) proof fn lemma_step_ok(p: Pitch, clef: Clef)
    ensures
        step_ok(spec_staff_step(p, clef)),
        spec_staff_step(p, clef) as i64 == spec_staff_step(p, clef),
{
}

/// Draws one note of a chord.
pub(crate) fn draw_note(out: &mut Vec<Mark>, n: &Note, d: Duration, top: i128, clef: Clef, x: i128, fifths: i32)
    requires
        top_ok(top as int),
        x_ok(x as int),
        fifths > i32::MIN,
    ensures
        marks_view(final(out)@) == marks_view(old(out)@) + note_marks(
            n@,
            d,
            top as int,
            clef,
            x as int,
            fifths,
        ),
{
    let ghost start = marks_view(out@);
    proof {
        lemma_step_ok(n.pitch, clef);
    }
    let step = staff_step(n.pitch, clef);
    let y = top + 400 - 50 * step as i128;
    let head = notehead_glyph(d);
    let w = glyph_width(head) as i128;
    draw_ledger_lines(out, top, x, step, w);
    push_with_id(out, ElementKind::Notehead, &n.id, Shape::Glyph { ch: head, x, y, size: 400, shift: 0 });
    if d.dotted {
        push_with_id(
            out,
            ElementKind::Dot,
            &n.id,
            Shape::Glyph { ch: smufl::AUGMENTATION_DOT, x: x + w + 35, y: y - 50, size: 400, shift: 0 },
        );
    }
    let ghost before_acc = marks_view(out@);
    match accidental_glyph(n, fifths) {
        Some(c) => {
            let cw = glyph_width(c) as i128;
            push_with_id(
                out,
                ElementKind::Accidental,
                &n.id,
                Shape::Glyph { ch: c, x: x - cw - 25, y, size: 400, shift: 0 },
            );
        },
        None => {},
    }
    assert(marks_view(out@) =~= start + note_marks(n@, d, top as int, clef, x as int, fifths));
}

/// Draws the notes of a chord.
pub(crate) fn draw_chord(
    out: &mut Vec<Mark>,
    notes: &Vec<Note>,
    d: Duration,
    top: i128,
    clef: Clef,
    x: i128,
    fifths: i32,
)
    requires
        top_ok(top as int),
        x_ok(x as int),
        fifths > i32::MIN,
    ensures
        marks_view(final(out)@) == marks_view(old(out)@) + chord_marks(
            notes_view(notes@),
            d,
            top as int,
            clef,
            x as int,
            fifths,
        ),
{
    let ghost start = marks_view(out@);
    let ghost nv = notes_view(notes@);
    let mut j: usize = 0;
    while j < notes.len()
        invariant
            top_ok(top as int),
            x_ok(x as int),
            fifths > i32::MIN,
            nv == notes_view(notes@),
            j <= notes@.len(),
            marks_view(out@) == start + chord_marks(nv.take(j as int), d, top as int, clef, x as int, fifths),
        decreases notes@.len() - j,
    {
        draw_note(out, &notes[j], d, top, clef, x, fifths);
        assert(nv.take(j + 1).drop_last() =~= nv.take(j as int));
        assert(nv.take(j + 1).last() == notes@[j as int]@);
        j = j + 1;
    }
    assert(nv.take(j as int) =~= nv);
}

/// The staff steps of the notes of a chord.
pub(crate) fn chord_step_list(notes: &Vec<Note>, clef: Clef) -> (r: Vec<i64>)
    ensures
        r@ == chord_steps(notes_view(notes@), clef),
        forall|j: int| 0 <= j < r@.len() ==> step_ok(#[trigger] r@[j] as int),
{
    let ghost nv = notes_view(notes@);
    let mut r: Vec<i64> = Vec::new();
    let mut j: usize = 0;
    while j < notes.len()
        invariant
            nv == notes_view(notes@),
            j <= notes@.len(),
            r@ == chord_steps(nv, clef).take(j as int),
            forall|k: int| 0 <= k < r@.len() ==> step_ok(#[trigger] r@[k] as int),
        decreases notes@.len() - j,
    {
        proof {
            lemma_step_ok(notes@[j as int].pitch, clef);
        }
        r.push(staff_step(notes[j].pitch, clef));
        assert(chord_steps(nv, clef).take(j + 1) =~= chord_steps(nv, clef).take(j as int).push(
            chord_steps(nv, clef)[j as int],
        ));
        j = j + 1;
    }
    assert(chord_steps(nv, clef).take(j as int) =~= chord_steps(nv, clef));
    r
}

pub(crate) proof fn lemma_extreme_steps_ok(steps: Seq<i64>)
    requires
        steps.len() > 0,
        forall|j: int| 0 <= j < steps.len() ==> step_ok(#[trigger] steps[j] as int),
    ensures
        step_ok(highest_step(steps)),
        step_ok(lowest_step(steps)),
    decreases steps.len(),
{
    if steps.len() > 1 {
        lemma_extreme_steps_ok(steps.drop_last());
    }
}

/// The highest and the lowest of a non-empty sequence of steps.
pub(crate) fn extreme_steps(steps: &Vec<i64>) -> (r: (i64, i64))
    requires
        steps@.len() > 0,
    ensures
        r.0 == highest_step(steps@),
        r.1 == lowest_step(steps@),
{
    let mut hi = steps[0];
    let mut lo = steps[0];
    let mut k: usize = 1;
    while k < steps.len()
        invariant
            1 <= k <= steps@.len(),
            hi == highest_step(steps@.take(k as int)),
            lo == lowest_step(steps@.take(k as int)),
        decreases steps@.len() - k,
    {
        assert(steps@.take(k + 1).drop_last() =~= steps@.take(k as int));
        if steps[k] > hi {
            hi = steps[k];
        }
        if steps[k] < lo {
            lo = steps[k];
        }
        k = k + 1;
    }
    assert(steps@.take(k as int) =~= steps@);
    (hi, lo)
}

/// Draws the stem and flag of an event; returns where the stem ends and
/// whether it points up.
pub(crate) fn draw_stem(out: &mut Vec<Mark>, ev: &Event, top: i128, clef: Clef, x: i128, with_flag: bool) -> (r: (
    i128,
    i8,
    i128,
    bool,
))
    requires
        ev@.notes.len() > 0,
        top_ok(top as int),
        x_ok(x as int),
    ensures
        marks_view(final(out)@) == marks_view(old(out)@) + stem_marks(
            ev@,
            top as int,
            clef,
            x as int,
            with_flag,
        ),
        (r.0 as int, r.1 as int, r.2 as int) == stem_end(ev@, top as int, clef, x as int),
        r.3 == spec_stem_up(chord_steps(ev@.notes, clef)),
        x <= r.0 <= x + 300,
        -0x20_0000_0000_0000 <= r.2 <= 0x20_0000_0000_0000,
{
    let ghost start = marks_view(out@);
    let steps = chord_step_list(&ev.notes, clef);
    let up = stem_up(&steps);
    let (hi, lo) = extreme_steps(&steps);
    proof {
        lemma_extreme_steps_ok(steps@);
    }
    let head = notehead_glyph(ev.duration);
    let w = glyph_width(head) as i128;
    let id = &ev.notes[0].id;
    assert(ev@.notes[0].id == id@);
    if ev.duration.base_units < 8 {
        let high_y = top + 400 - 50 * hi as i128;
        let low_y = top + 400 - 50 * lo as i128;
        let (sx, shift, root, tip): (i128, i8, i128, i128) = if up {
            (x + w, -1, low_y, high_y - 350)
        } else {
            (x, 1, high_y, low_y + 350)
        };
        push_with_id(
            out,
            ElementKind::Stem,
            id,
            Shape::Line { x1: sx, y1: root, x2: sx, y2: tip, shift1: shift, shift2: shift, stroke: Stroke::Stem },
        );
        if with_flag && ev.duration.base_units == 1 {
            let flag = if up {
                smufl::FLAG_8TH_UP
            } else {
                smufl::FLAG_8TH_DOWN
            };
            push_with_id(out, ElementKind::Flag, id, Shape::Glyph { ch: flag, x: sx, y: tip, size: 400, shift });
        }
        assert(marks_view(out@) =~= start + stem_marks(ev@, top as int, clef, x as int, with_flag));
        (sx, shift, tip, up)
    } else {
        let far = crate::engrave::farthest_step(&steps);
        proof {
            crate::engrave::lemma_farthest_index_in(steps@);
        }
        assert(marks_view(out@) =~= start + stem_marks(ev@, top as int, clef, x as int, with_flag));
        (x, 0, top + 400 - 50 * far as i128, up)
    }
}

/// Draws a note or chord event; returns where its stem ends and whether
/// it points up: up exactly when the note farthest from the middle line
/// (the last one, among equals) sits below that line, so that the stem
/// reaches toward the staff's middle.
pub(crate) fn draw_event(
    out: &mut Vec<Mark>,
    ev: &Event,
    top: i128,
    clef: Clef,
    x: i128,
    fifths: i32,
    with_flag: bool,
) -> (r: (i128, i8, i128, bool))
    requires
        ev@.notes.len() > 0,
        top_ok(top as int),
        x_ok(x as int),
        fifths > i32::MIN,
    ensures
        marks_view(final(out)@) == marks_view(old(out)@) + event_marks(
            ev@,
            top as int,
            clef,
            x as int,
            fifths,
            with_flag,
        ),
        (r.0 as int, r.1 as int, r.2 as int) == stem_end(ev@, top as int, clef, x as int),
        r.3 == spec_stem_up(chord_steps(ev@.notes, clef)),
        ({
            let steps = chord_steps(ev@.notes, clef);
            let far = farthest_index(steps, steps.len() as int);
            &&& 0 <= far < steps.len()
            &&& forall|j: int|
                0 <= j < steps.len() ==> middle_distance(#[trigger] steps[j] as int) <= middle_distance(
                    steps[far] as int,
                )
            &&& r.3 == (note_y(top as int, steps[far] as int) > note_y(top as int, 4))
        }),
        x <= r.0 <= x + 300,
        -0x20_0000_0000_0000 <= r.2 <= 0x20_0000_0000_0000,
{
    let ghost start = marks_view(out@);
    proof {
        let steps = chord_steps(ev@.notes, clef);
        crate::engrave::lemma_farthest_index_in(steps);
        crate::engrave::lemma_farthest_index_bounds(steps, steps.len() as int);
    }
    draw_chord(out, &ev.notes, ev.duration, top, clef, x, fifths);
    let r = draw_stem(out, ev, top, clef, x, with_flag);
    reveal(event_marks);
    assert(marks_view(out@) =~= start + event_marks(ev@, top as int, clef, x as int, fifths, with_flag));
    r
}

/// Draws a rest.
pub(crate) fn draw_rest(out: &mut Vec<Mark>, ev: &Event, top: i128, x: i128)
    requires
        top_ok(top as int),
        x_ok(x as int),
    ensures
        marks_view(final(out)@) == marks_view(old(out)@) + rest_marks(ev@, top as int, x as int),
{
    let ghost start = marks_view(out@);
    let (ch, line) = rest_glyph(ev.duration);
    let y = top + 100 * line as i128;
    out.push(Mark { kind: ElementKind::Rest, id: copy_id(&ev.rest_id), shape: Shape::Glyph { ch, x, y, size: 400, shift: 0 } });
    if ev.duration.dotted {
        let w = glyph_width(ch) as i128;
        out.push(
            Mark {
                kind: ElementKind::Dot,
                id: copy_id(&ev.rest_id),
                shape: Shape::Glyph { ch: smufl::AUGMENTATION_DOT, x: x + w + 30, y: y - 50, size: 400, shift: 0 },
            },
        );
    }
    reveal(rest_marks);
    assert(marks_view(out@) =~= start + rest_marks(ev@, top as int, x as int));
}

} // verus!
