//! The engraving pass, in exact integer units: every element of the score
//! placed in centi-spaces (hundredths of a staff space), x to the right of
//! the left margin and y down from the top margin. The caller turns this
//! into pixels: a position `c` lies at `margin + c * staff_space / 100`.
//!
//! Two things depend on the pixel scale and are left to the caller: the
//! thickness of each stroke class (a fraction of a space, at least one
//! pixel), and so the half stem thickness by which stem-attached x
//! positions are shifted (`shift` fields) and the thickness parts of
//! element boxes (see [`Bounds`]).

use vstd::prelude::*;

use crate::engrave::{glyph_width, spec_glyph_width, ElementKind};
use crate::score::Clef;

pub mod beams;
pub mod carry;
pub mod notes;
pub mod opening;
pub mod systems;
pub mod voices;

pub use self::systems::{can_engrave, engrave, Engraving};

verus! {

/// The stroke class of a line element; the caller gives each a thickness.
#[derive(Debug, Clone, Copy, PartialEq, Eq, Structural)]
pub enum Stroke {
    /// Staff lines.
    Staff,
    /// Ledger lines.
    Ledger,
    /// Barlines.
    Bar,
    /// Stems.
    Stem,
    /// Beams (half a space thick).
    Beam,
}

/// The drawable of an element, in centi-spaces.
#[derive(Debug, Clone, Copy, PartialEq, Eq, Structural)]
pub enum Shape {
    /// A stroked segment; each end's x is further shifted by `shift1` /
    /// `shift2` half stem thicknesses.
    Line { x1: i128, y1: i128, x2: i128, y2: i128, shift1: i8, shift2: i8, stroke: Stroke },
    /// A SMuFL glyph at a baseline point, at a font size of `size`; x is
    /// further shifted by `shift` half stem thicknesses.
    Glyph { ch: char, x: i128, y: i128, size: i128, shift: i8 },
    /// A tie arc from (x1, y1) to (x2, y2), bulging by `bulge` (positive is
    /// downward).
    Tie { x1: i128, y1: i128, x2: i128, y2: i128, bulge: i128 },
}

/// The mathematical value of a [`Shape`].
pub enum ShapeView {
    Line { x1: int, y1: int, x2: int, y2: int, shift1: int, shift2: int, stroke: Stroke },
    Glyph { ch: char, x: int, y: int, size: int, shift: int },
    Tie { x1: int, y1: int, x2: int, y2: int, bulge: int },
}

impl View for Shape {
    type V = ShapeView;

    open spec fn view(&self) -> ShapeView {
        match *self {
            Shape::Line { x1, y1, x2, y2, shift1, shift2, stroke } => ShapeView::Line {
                x1: x1 as int,
                y1: y1 as int,
                x2: x2 as int,
                y2: y2 as int,
                shift1: shift1 as int,
                shift2: shift2 as int,
                stroke,
            },
            Shape::Glyph { ch, x, y, size, shift } => ShapeView::Glyph {
                ch,
                x: x as int,
                y: y as int,
                size: size as int,
                shift: shift as int,
            },
            Shape::Tie { x1, y1, x2, y2, bulge } => ShapeView::Tie {
                x1: x1 as int,
                y1: y1 as int,
                x2: x2 as int,
                y2: y2 as int,
                bulge: bulge as int,
            },
        }
    }
}

/// One engraved element. `id` is present for addressable elements (a
/// note's head, dot, accidental, stem, flag, beam and tie carry the note's
/// id; a rest and its dot carry the rest's id).
#[derive(Debug, Clone, PartialEq)]
pub struct Mark {
    pub kind: ElementKind,
    pub id: Option<String>,
    pub shape: Shape,
}

/// The mathematical value of a [`Mark`].
pub struct MarkView {
    pub kind: ElementKind,
    pub id: Option<Seq<char>>,
    pub shape: ShapeView,
}

impl View for Mark {
    type V = MarkView;

    open spec fn view(&self) -> MarkView {
        MarkView {
            kind: self.kind,
            id: match self.id {
                Some(s) => Some(s@),
                None => None,
            },
            shape: self.shape@,
        }
    }
}

/// The views of a sequence of marks.
pub open spec fn marks_view(v: Seq<Mark>) -> Seq<MarkView> {
    Seq::new(v.len(), |i: int| v[i]@)
}

/// A mark without an id.
pub open spec fn plain(kind: ElementKind, shape: ShapeView) -> MarkView {
    MarkView { kind, id: None, shape }
}

/// A horizontal line from `x1` to `x2` at `y`.
pub open spec fn hline(x1: int, x2: int, y: int, stroke: Stroke) -> ShapeView {
    ShapeView::Line { x1, y1: y, x2, y2: y, shift1: 0, shift2: 0, stroke }
}

/// A vertical line at `x` from `y1` to `y2`.
pub open spec fn vline(x: int, y1: int, y2: int, stroke: Stroke) -> ShapeView {
    ShapeView::Line { x1: x, y1, x2: x, y2, shift1: 0, shift2: 0, stroke }
}

/// A glyph at the standard size (one em is four spaces: 400).
pub open spec fn glyph_at(ch: char, x: int, y: int) -> ShapeView {
    ShapeView::Glyph { ch, x, y, size: 400, shift: 0 }
}

// ---------------------------------------------------------------------
// Element boxes
// ---------------------------------------------------------------------

/// A coordinate of an element's box: `centi` hundredths of a staff space,
/// plus `own` halves of the element's own stroke thickness, plus `stem`
/// halves of the stem thickness.
#[derive(Debug, Clone, Copy, PartialEq, Eq, Structural)]
pub struct Span {
    pub centi: i128,
    pub own: i8,
    pub stem: i8,
}

/// The axis-aligned box of an element: left, top, width, height.
#[derive(Debug, Clone, Copy, PartialEq, Eq, Structural)]
pub struct Bounds {
    pub x: Span,
    pub y: Span,
    pub w: Span,
    pub h: Span,
}

/// A span of whole centi-spaces.
pub open spec fn centi(c: int) -> (int, int, int) {
    (c, 0, 0)
}

/// The box of an element, each coordinate as `(centi, own, stem)`: a
/// horizontal line's box runs along it, half its thickness either side; a
/// vertical line's box stands on it likewise; a brace's box is a space
/// wide and spans the brace; any other glyph's box is its advance wide and
/// one em (four spaces) high, centred on its baseline; a tie's box spans
/// its ends and its bulge.
pub open spec fn spec_bounds(kind: ElementKind, shape: ShapeView) -> ((int, int, int), (int, int, int), (
    int,
    int,
    int,
), (int, int, int)) {
    match shape {
        ShapeView::Line { x1, y1, x2, y2, shift1, shift2, stroke } => if y1 == y2 {
            ((x1, 0, shift1), (y1, -1, 0), (x2 - x1, 0, shift2 - shift1), (0, 2, 0))
        } else {
            (
                (x1, -1, shift1),
                centi(if y1 <= y2 {
                    y1
                } else {
                    y2
                }),
                (0, 2, 0),
                centi(if y1 <= y2 {
                    y2 - y1
                } else {
                    y1 - y2
                }),
            )
        },
        ShapeView::Glyph { ch, x, y, size, shift } => if kind == ElementKind::Brace {
            ((x, 0, shift), centi(y - size), centi(100), centi(size))
        } else {
            ((x, 0, shift), centi(y - 200), centi(spec_glyph_width(ch)), centi(400))
        },
        ShapeView::Tie { x1, y1, x2, y2, bulge } => (
            centi(x1),
            centi(if bulge >= 0 {
                y1
            } else {
                y1 + bulge
            }),
            centi(x2 - x1),
            centi(if bulge >= 0 {
                bulge
            } else {
                -bulge
            }),
        ),
    }
}

/// The view of a span.
pub open spec fn span_view(s: Span) -> (int, int, int) {
    (s.centi as int, s.own as int, s.stem as int)
}

/// Builds a span.
pub(crate) fn span(centi: i128, own: i8, stem: i8) -> (s: Span)
    ensures
        span_view(s) == (centi as int, own as int, stem as int),
{
    Span { centi, own, stem }
}

/// Whether the box of a shape can be computed: its coordinates lie within
/// 2^80 of the origin (every engraving's do) and its shifts within 8.
pub open spec fn shape_fits(shape: Shape) -> bool {
    match shape {
        Shape::Line { x1, y1, x2, y2, shift1, shift2, .. } => x_ok(x1 as int) && x_ok(x2 as int) && x_ok(
            y1 as int,
        ) && x_ok(y2 as int) && -8 <= shift1 <= 8 && -8 <= shift2 <= 8,
        Shape::Glyph { x, y, size, .. } => x_ok(x as int) && x_ok(y as int) && x_ok(size as int),
        Shape::Tie { x1, y1, x2, bulge, .. } => x_ok(x1 as int) && x_ok(x2 as int) && x_ok(y1 as int)
            && x_ok(bulge as int),
    }
}

/// Whether the box of `shape` can be computed (see [`shape_fits`]).
pub fn fits_bounds(shape: Shape) -> (r: bool)
    ensures
        r == shape_fits(shape),
{
    let lim: i128 = 0x1_0000_0000_0000_0000_0000;
    let ok = |v: i128| -> (r: bool)
        ensures
            r == x_ok(v as int),
        { -lim <= v && v <= lim };
    match shape {
        Shape::Line { x1, y1, x2, y2, shift1, shift2, .. } => ok(x1) && ok(x2) && ok(y1) && ok(y2) && -8
            <= shift1 && shift1 <= 8 && -8 <= shift2 && shift2 <= 8,
        Shape::Glyph { x, y, size, .. } => ok(x) && ok(y) && ok(size),
        Shape::Tie { x1, y1, x2, bulge, .. } => ok(x1) && ok(x2) && ok(y1) && ok(bulge),
    }
}

/// The box of an element (see [`spec_bounds`]).
pub fn mark_bounds(kind: ElementKind, shape: Shape) -> (b: Bounds)
    requires
        shape_fits(shape),
    ensures
        (span_view(b.x), span_view(b.y), span_view(b.w), span_view(b.h)) == spec_bounds(kind, shape@),
{
    match shape {
        Shape::Line { x1, y1, x2, y2, shift1, shift2, .. } => if y1 == y2 {
            Bounds {
                x: span(x1, 0, shift1),
                y: span(y1, -1, 0),
                w: span(x2 - x1, 0, shift2 - shift1),
                h: span(0, 2, 0),
            }
        } else {
            let (top, len) = if y1 <= y2 {
                (y1, y2 - y1)
            } else {
                (y2, y1 - y2)
            };
            Bounds { x: span(x1, -1, shift1), y: span(top, 0, 0), w: span(0, 2, 0), h: span(len, 0, 0) }
        },
        Shape::Glyph { ch, x, y, size, shift } => if kind == ElementKind::Brace {
            Bounds {
                x: span(x, 0, shift),
                y: span(y - size, 0, 0),
                w: span(100, 0, 0),
                h: span(size, 0, 0),
            }
        } else {
            Bounds {
                x: span(x, 0, shift),
                y: span(y - 200, 0, 0),
                w: span(glyph_width(ch) as i128, 0, 0),
                h: span(400, 0, 0),
            }
        },
        Shape::Tie { x1, y1, x2, bulge, .. } => {
            let (top, h) = if bulge >= 0 {
                (y1, bulge)
            } else {
                (y1 + bulge, -bulge)
            };
            Bounds { x: span(x1, 0, 0), y: span(top, 0, 0), w: span(x2 - x1, 0, 0), h: span(h, 0, 0) }
        },
    }
}

// ---------------------------------------------------------------------
// Vertical geometry
// ---------------------------------------------------------------------

/// The number of staves of a system: two for a grand staff, else one.
pub open spec fn staff_count(two: bool) -> int {
    if two {
        2
    } else {
        1
    }
}

/// The height of one system: three spaces of room above, the staves
/// (nine spaces apart on a grand staff), and three spaces below.
pub open spec fn system_pitch(two: bool) -> int {
    if two {
        2300
    } else {
        1000
    }
}

/// The top line of staff `staff` (0 = upper) of system `system`.
pub open spec fn staff_top(two: bool, system: int, staff: int) -> int {
    system * system_pitch(two) + 300 + 1300 * staff
}

/// The bottom line of the lowest staff of system `system`.
pub open spec fn system_bottom(two: bool, system: int) -> int {
    staff_top(two, system, staff_count(two) - 1) + 400
}

/// The clef of a staff: treble above, bass below.
pub open spec fn staff_clef(staff: int) -> Clef {
    if staff == 0 {
        Clef::Treble
    } else {
        Clef::Bass
    }
}

/// The height of a pitch at staff step `step` (half-spaces above the
/// bottom line) on a staff whose top line is at `top`.
pub open spec fn note_y(top: int, step: int) -> int {
    top + 400 - 50 * step
}

/// Bounds kept by all vertical positions: a system index is below 2^33.
pub open spec fn system_ok(system: int) -> bool {
    0 <= system <= 0x2_0000_0000
}

pub(crate) proof fn lemma_top_bounds(two: bool, system: int, staff: int)
    requires
        system_ok(system),
        0 <= staff <= 1,
    ensures
        0 <= staff_top(two, system, staff) <= 0x10_0000_0000_0000,
        0 <= system_bottom(two, system) <= 0x10_0000_0000_0000,
{
    assert(0 <= system * system_pitch(two) <= 0x2_0000_0000 * 2300) by (nonlinear_arith)
        requires
            0 <= system <= 0x2_0000_0000,
            0 < system_pitch(two) <= 2300,
    ;
}

/// Staff top, as an executable value.
pub(crate) fn exec_staff_top(two: bool, system: usize, staff: usize) -> (t: i128)
    requires
        system_ok(system as int),
        staff <= 1,
    ensures
        t == staff_top(two, system as int, staff as int),
        0 <= t <= 0x10_0000_0000_0000,
{
    proof {
        lemma_top_bounds(two, system as int, staff as int);
    }
    let pitch: i128 = if two {
        2300
    } else {
        1000
    };
    system as i128 * pitch + 300 + 1300 * staff as i128
}

/// The bottom line of the lowest staff, as an executable value.
pub(crate) fn exec_system_bottom(two: bool, system: usize) -> (b: i128)
    requires
        system_ok(system as int),
    ensures
        b == system_bottom(two, system as int),
        0 <= b <= 0x10_0000_0000_0000,
{
    proof {
        lemma_top_bounds(two, system as int, 0);
        lemma_top_bounds(two, system as int, 1);
    }
    let last: usize = if two {
        1
    } else {
        0
    };
    exec_staff_top(two, system, last) + 400
}

/// Bounds kept by positions handed between the drawing steps: within 2^80
/// of the origin.
pub open spec fn x_ok(x: int) -> bool {
    -0x1_0000_0000_0000_0000_0000 <= x <= 0x1_0000_0000_0000_0000_0000
}

} // verus!
