//! The beam of an eighth pair: both events without flags, joined by a
//! level beam between their stem ends.

use vstd::prelude::*;

use crate::engrave::{spec_stem_up, ElementKind};
use crate::score::{Clef, Event, EventView};
use crate::layout::{marks_view, x_ok, Mark, MarkView, Shape, ShapeView, Stroke};
use crate::layout::notes::{chord_steps, draw_event, event_marks, push_with_id, stem_end, top_ok, with_id};

verus! {

/// The marks of two eighths joined by a beam: both events without flags,
/// then a level beam between their stem ends, at the more extreme tip in
/// the first stem's direction, carrying the first note's id.
#[verifier::opaque]
pub open spec fn pair_marks(
    a: EventView,
    b: EventView,
    top: int,
    clef: Clef,
    xa: int,
    xb: int,
    fifths: i32,
) -> Seq<MarkView> {
    let (sxa, sha, tya) = stem_end(a, top, clef, xa);
    let (sxb, shb, tyb) = stem_end(b, top, clef, xb);
    let beam_y = if spec_stem_up(chord_steps(a.notes, clef)) {
        if tya <= tyb {
            tya
        } else {
            tyb
        }
    } else {
        if tya >= tyb {
            tya
        } else {
            tyb
        }
    };
    event_marks(a, top, clef, xa, fifths, false) + event_marks(b, top, clef, xb, fifths, false) + seq![
        with_id(
            ElementKind::Beam,
            a.notes[0].id,
            ShapeView::Line {
                x1: sxa,
                y1: beam_y,
                x2: sxb,
                y2: beam_y,
                shift1: sha,
                shift2: shb,
                stroke: Stroke::Beam,
            },
        ),
    ]
}

/// Draws two eighths joined by a beam.
pub(crate) fn draw_beamed_pair(
    out: &mut Vec<Mark>,
    a: &Event,
    b: &Event,
    top: i128,
    clef: Clef,
    xa: i128,
    xb: i128,
    fifths: i32,
)
    requires
        a@.notes.len() > 0,
        b@.notes.len() > 0,
        top_ok(top as int),
        x_ok(xa as int),
        x_ok(xb as int),
        fifths > i32::MIN,
    ensures
        marks_view(final(out)@) == marks_view(old(out)@) + pair_marks(
            a@,
            b@,
            top as int,
            clef,
            xa as int,
            xb as int,
            fifths,
        ),
{
    let ghost start = marks_view(out@);
    let ghost ea = event_marks(a@, top as int, clef, xa as int, fifths, false);
    let ghost eb = event_marks(b@, top as int, clef, xb as int, fifths, false);
    let (sxa, sha, tya, up_a) = draw_event(out, a, top, clef, xa, fifths, false);
    let (sxb, shb, tyb, _up_b) = draw_event(out, b, top, clef, xb, fifths, false);
    let ghost mid = marks_view(out@);
    assert(mid == start + ea + eb);
    let beam_y = if up_a {
        if tya <= tyb {
            tya
        } else {
            tyb
        }
    } else {
        if tya >= tyb {
            tya
        } else {
            tyb
        }
    };
    let id = &a.notes[0].id;
    assert(a@.notes[0].id == id@);
    let shape = Shape::Line {
        x1: sxa,
        y1: beam_y,
        x2: sxb,
        y2: beam_y,
        shift1: sha,
        shift2: shb,
        stroke: Stroke::Beam,
    };
    push_with_id(out, ElementKind::Beam, id, shape);
    proof {
        let beam = with_id(ElementKind::Beam, id@, shape@);
        reveal(pair_marks);
        assert(pair_marks(a@, b@, top as int, clef, xa as int, xb as int, fifths) == ea + eb + seq![beam]);
        assert(marks_view(out@) =~= start + (ea + eb + seq![beam]));
    }
}

} // verus!
