//! The furniture of a system: staff lines, barlines, the brace of a grand
//! staff, and the opening clefs, key signature and time signature.

use vstd::prelude::*;

use crate::engrave::{
    glyph_width, key_signature_count, key_signature_glyph, lemma_decimal_digits, numerator_digits,
    numerator_value, signature_positions, spec_glyph_width, spec_signature_positions,
    time_signature_digits, ElementKind,
};
use crate::score::Clef;
use crate::smufl;
use crate::layout::{
    exec_staff_top, exec_system_bottom, glyph_at, hline, marks_view, plain, staff_clef,
    staff_count, staff_top, system_bottom, system_ok, vline, Mark, MarkView, Shape, ShapeView,
    Stroke,
};

verus! {

// ---------------------------------------------------------------------
// Staff lines, barlines, brace
// ---------------------------------------------------------------------

/// The staff lines of a system from `left` to `right`: five per staff,
/// top staff first, each from its top line down.
pub open spec fn staff_line_marks(two: bool, system: int, left: int, right: int) -> Seq<MarkView> {
    Seq::new(
        (5 * staff_count(two)) as nat,
        |i: int|
            plain(
                ElementKind::StaffLine,
                hline(left, right, staff_top(two, system, i / 5) + 100 * (i % 5), Stroke::Staff),
            ),
    )
}

/// A barline across the whole system at `x`.
pub open spec fn barline_mark(two: bool, system: int, x: int) -> MarkView {
    plain(
        ElementKind::Barline,
        vline(x, staff_top(two, system, 0), system_bottom(two, system), Stroke::Bar),
    )
}

/// Pushes a mark without an id.
pub(crate) fn push_plain(out: &mut Vec<Mark>, kind: ElementKind, shape: Shape)
    ensures
        marks_view(final(out)@) == marks_view(old(out)@).push(plain(kind, shape@)),
{
    out.push(Mark { kind, id: None, shape });
    assert(marks_view(out@) =~= marks_view(old(out)@).push(plain(kind, shape@)));
}

/// Draws the staff lines of a system from `left` to `right`, then the
/// opening barline at `left`.
pub(crate) fn draw_staff_lines(out: &mut Vec<Mark>, two: bool, system: usize, left: i128, right: i128)
    requires
        system_ok(system as int),
    ensures
        marks_view(final(out)@) == marks_view(old(out)@) + staff_line_marks(
            two,
            system as int,
            left as int,
            right as int,
        ) + seq![barline_mark(two, system as int, left as int)],
{
    let ghost start = marks_view(out@);
    let staves: usize = if two {
        2
    } else {
        1
    };
    let ghost all = staff_line_marks(two, system as int, left as int, right as int);
    let mut i: usize = 0;
    while i < 5 * staves
        invariant
            staves == staff_count(two),
            system_ok(system as int),
            i <= 5 * staves,
            all == staff_line_marks(two, system as int, left as int, right as int),
            marks_view(out@) == start + all.take(i as int),
        decreases 5 * staves - i,
    {
        let top = exec_staff_top(two, system, i / 5);
        let y = top + 100 * (i % 5) as i128;
        push_plain(
            out,
            ElementKind::StaffLine,
            Shape::Line { x1: left, y1: y, x2: right, y2: y, shift1: 0, shift2: 0, stroke: Stroke::Staff },
        );
        assert(all.take(i + 1) =~= all.take(i as int).push(all[i as int]));
        i = i + 1;
    }
    assert(all.take(i as int) =~= all);
    let top = exec_staff_top(two, system, 0);
    let bottom = exec_system_bottom(two, system);
    push_plain(
        out,
        ElementKind::Barline,
        Shape::Line { x1: left, y1: top, x2: left, y2: bottom, shift1: 0, shift2: 0, stroke: Stroke::Bar },
    );
}

/// Draws a barline across the system at `x`.
pub(crate) fn draw_barline(out: &mut Vec<Mark>, two: bool, system: usize, x: i128)
    requires
        system_ok(system as int),
    ensures
        marks_view(final(out)@) == marks_view(old(out)@).push(barline_mark(two, system as int, x as int)),
{
    let top = exec_staff_top(two, system, 0);
    let bottom = exec_system_bottom(two, system);
    push_plain(
        out,
        ElementKind::Barline,
        Shape::Line { x1: x, y1: top, x2: x, y2: bottom, shift1: 0, shift2: 0, stroke: Stroke::Bar },
    );
}

/// The brace of a grand staff at `x`: the glyph spans the system from the
/// top line to the lowest bottom line.
pub open spec fn brace_mark(system: int, x: int) -> MarkView {
    plain(
        ElementKind::Brace,
        ShapeView::Glyph {
            ch: smufl::BRACE,
            x,
            y: system_bottom(true, system),
            size: system_bottom(true, system) - staff_top(true, system, 0),
            shift: 0,
        },
    )
}

// ---------------------------------------------------------------------
// Clefs, key and time signatures
// ---------------------------------------------------------------------

/// The clefs of a system at `x`: a G clef on the second line from the
/// bottom of the upper staff, an F clef on the second line from the top of
/// the lower one.
pub open spec fn clef_marks(two: bool, system: int, x: int) -> Seq<MarkView> {
    Seq::new(
        staff_count(two) as nat,
        |i: int|
            plain(
                ElementKind::Clef,
                if i == 0 {
                    glyph_at(smufl::G_CLEF, x + 30, staff_top(two, system, i) + 300)
                } else {
                    glyph_at(smufl::F_CLEF, x + 30, staff_top(two, system, i) + 100)
                },
            ),
    )
}

/// The number of accidentals a key signature engraves per staff: `|fifths|`,
/// at most seven.
pub open spec fn key_glyph_count(fifths: i32) -> int {
    let n = if fifths >= 0 {
        fifths as int
    } else {
        -(fifths as int)
    };
    if n > 7 {
        7
    } else {
        n
    }
}

/// The spacing of key signature accidentals.
pub open spec fn key_step_width(fifths: i32) -> int {
    spec_glyph_width(if fifths > 0 {
        smufl::ACCIDENTAL_SHARP
    } else {
        smufl::ACCIDENTAL_FLAT
    }) + 10
}

/// The room a key signature takes: `|fifths|` steps and six tenths of a
/// space, or nothing without accidentals.
pub open spec fn key_advance(fifths: i32) -> int {
    if fifths == 0 {
        0
    } else {
        (if fifths >= 0 {
            fifths as int
        } else {
            -(fifths as int)
        }) * key_step_width(fifths) + 60
    }
}

/// Accidental `k` of the key signature on staff `staff`.
pub open spec fn key_mark(fifths: i32, two: bool, system: int, x: int, staff: int, k: int) -> MarkView {
    let sharp = fifths > 0;
    let ch = if sharp {
        smufl::ACCIDENTAL_SHARP
    } else {
        smufl::ACCIDENTAL_FLAT
    };
    let pos = spec_signature_positions(staff_clef(staff), sharp)[k].1;
    plain(
        ElementKind::KeySignature,
        glyph_at(ch, x + k * key_step_width(fifths), staff_top(two, system, staff) + 50 * pos),
    )
}

/// The key signature of a system at `x`: the accidentals of the upper
/// staff in signature order, then those of the lower one.
pub open spec fn key_marks(fifths: i32, two: bool, system: int, x: int) -> Seq<MarkView> {
    let n = key_glyph_count(fifths);
    Seq::new(
        (n * staff_count(two)) as nat,
        |i: int| key_mark(fifths, two, system, x, i / n, i % n),
    )
}

/// The mark of entry `k` of a staff's time signature at `x`: the digits of
/// the numerator side by side on the second line, 1.8 spaces apart, then
/// the denominator 4 on the fourth line, centred under them.
pub open spec fn time_mark(beats: i32, two: bool, system: int, x: int, staff: int, k: int) -> MarkView {
    let digits = numerator_digits(beats);
    let n = digits.len() as int;
    let top = staff_top(two, system, staff);
    plain(
        ElementKind::TimeSignature,
        if k < n {
            glyph_at(smufl::spec_time_sig_digit(digits[k] as int), x + 180 * k, top + 100)
        } else {
            glyph_at(smufl::spec_time_sig_digit(4), x + 90 * (n - 1), top + 300)
        },
    )
}

/// The time signature at `x`: for each staff, the numerator's digits and
/// then the denominator.
pub open spec fn time_marks(beats: i32, two: bool, system: int, x: int) -> Seq<MarkView> {
    let per = numerator_digits(beats).len() as int + 1;
    Seq::new(
        (per * staff_count(two)) as nat,
        |i: int| time_mark(beats, two, system, x, i / per, i % per),
    )
}

/// The room a time signature takes: 2.4 spaces, and 1.8 more for each
/// digit of the numerator after the first.
pub open spec fn time_width(beats: i32) -> int {
    240 + 180 * (numerator_digits(beats).len() - 1)
}

/// The room the opening of a system takes before its first measure: the
/// brace column of a grand staff, the clefs, the key signature, the time
/// signature on the first system only, and a space of breathing room.
pub open spec fn opening_width(two: bool, fifths: i32, beats: i32, with_time: bool) -> int {
    (if two {
        160int
    } else {
        0int
    }) + 340 + key_advance(fifths) + (if with_time {
        time_width(beats)
    } else {
        0int
    }) + 100
}

/// The marks of the opening of a system.
pub open spec fn opening_marks(two: bool, fifths: i32, beats: i32, system: int, with_time: bool) -> Seq<
    MarkView,
> {
    let x0 = if two {
        160int
    } else {
        0int
    };
    let brace = if two {
        seq![brace_mark(system, 0)]
    } else {
        Seq::empty()
    };
    let time = if with_time {
        time_marks(beats, two, system, x0 + 340 + key_advance(fifths))
    } else {
        Seq::empty()
    };
    brace + clef_marks(two, system, x0) + key_marks(fifths, two, system, x0 + 340) + time
}

/// Pushes a glyph without an id at the standard size.
pub(crate) fn push_glyph(out: &mut Vec<Mark>, kind: ElementKind, ch: char, x: i128, y: i128)
    ensures
        marks_view(final(out)@) == marks_view(old(out)@).push(plain(kind, glyph_at(ch, x as int, y as int))),
{
    push_plain(out, kind, Shape::Glyph { ch, x, y, size: 400, shift: 0 });
}

/// Draws the opening of a system; returns the room it took.
pub(crate) fn draw_opening(
    out: &mut Vec<Mark>,
    two: bool,
    fifths: i32,
    beats: i32,
    system: usize,
    with_time: bool,
) -> (w: i128)
    requires
        system_ok(system as int),
        fifths > i32::MIN,
    ensures
        marks_view(final(out)@) == marks_view(old(out)@) + opening_marks(
            two,
            fifths,
            beats,
            system as int,
            with_time,
        ),
        w == opening_width(two, fifths, beats, with_time),
        0 < w <= 0x100_0000_0000,
{
    let ghost start = marks_view(out@);
    let staves: usize = if two {
        2
    } else {
        1
    };
    let x0: i128 = if two {
        160
    } else {
        0
    };
    let bottom = exec_system_bottom(two, system);
    let top0 = exec_staff_top(two, system, 0);
    if two {
        push_plain(
            out,
            ElementKind::Brace,
            Shape::Glyph { ch: smufl::BRACE, x: 0, y: bottom, size: bottom - top0, shift: 0 },
        );
    }
    let ghost after_brace = marks_view(out@);
    assert(after_brace == start + (if two {
        seq![brace_mark(system as int, 0)]
    } else {
        Seq::<MarkView>::empty()
    }));
    // Clefs.
    let ghost clefs = clef_marks(two, system as int, x0 as int);
    let mut i: usize = 0;
    while i < staves
        invariant
            staves == staff_count(two),
            system_ok(system as int),
            i <= staves,
            x0 == 0 || x0 == 160,
            clefs == clef_marks(two, system as int, x0 as int),
            marks_view(out@) == after_brace + clefs.take(i as int),
        decreases staves - i,
    {
        let top = exec_staff_top(two, system, i);
        if i == 0 {
            push_glyph(out, ElementKind::Clef, smufl::G_CLEF, x0 + 30, top + 300);
        } else {
            push_glyph(out, ElementKind::Clef, smufl::F_CLEF, x0 + 30, top + 100);
        }
        assert(clefs.take(i + 1) =~= clefs.take(i as int).push(clefs[i as int]));
        i = i + 1;
    }
    assert(clefs.take(i as int) =~= clefs);
    let ghost after_clefs = marks_view(out@);
    // Key signature.
    let kx = x0 + 340;
    let count = key_signature_count(fifths);
    let n: usize = if count > 7 {
        7
    } else {
        count as usize
    };
    assert(n == key_glyph_count(fifths));
    let ch = key_signature_glyph(fifths);
    let step_width: i128 = glyph_width(ch) as i128 + 10;
    assert(step_width == key_step_width(fifths));
    let ghost keys = key_marks(fifths, two, system as int, kx as int);
    let mut s: usize = 0;
    while s < staves
        invariant
            staves == staff_count(two),
            system_ok(system as int),
            s <= staves,
            x0 == 0 || x0 == 160,
            kx == x0 + 340,
            n == key_glyph_count(fifths),
            n <= 7,
            step_width == key_step_width(fifths),
            ch == (if fifths > 0 {
                smufl::ACCIDENTAL_SHARP
            } else {
                smufl::ACCIDENTAL_FLAT
            }),
            keys == key_marks(fifths, two, system as int, kx as int),
            keys.len() == n * staves,
            marks_view(out@) == after_clefs + keys.take((s * n) as int),
        decreases staves - s,
    {
        let clef = if s == 0 {
            Clef::Treble
        } else {
            Clef::Bass
        };
        let positions = signature_positions(clef, fifths > 0);
        let top = exec_staff_top(two, system, s);
        let mut k: usize = 0;
        while k < n
            invariant
                staves == staff_count(two),
                system_ok(system as int),
                s < staves,
                k <= n,
                x0 == 0 || x0 == 160,
                kx == x0 + 340,
                n == key_glyph_count(fifths),
                n <= 7,
                step_width == key_step_width(fifths),
                ch == (if fifths > 0 {
                    smufl::ACCIDENTAL_SHARP
                } else {
                    smufl::ACCIDENTAL_FLAT
                }),
                clef == staff_clef(s as int),
                positions@ == spec_signature_positions(clef, fifths > 0),
                top == staff_top(two, system as int, s as int),
                keys == key_marks(fifths, two, system as int, kx as int),
                keys.len() == n * staves,
                marks_view(out@) == after_clefs + keys.take((s * n + k) as int),
            decreases n - k,
        {
            let pos = positions[k].1;
            assert(0 <= k * step_width <= 7 * 110) by (nonlinear_arith)
                requires
                    k <= 7,
                    0 <= step_width <= 110,
            ;
            push_glyph(
                out,
                ElementKind::KeySignature,
                ch,
                kx + k as i128 * step_width,
                top + 50 * pos as i128,
            );
            proof {
                let idx = (s * n + k) as int;
                assert(idx / (n as int) == s as int && idx % (n as int) == k as int && idx < n * staves)
                    by (nonlinear_arith)
                    requires
                        idx == s * n + k,
                        k < n,
                        s < staves,
                ;
                assert(keys[idx] == key_mark(fifths, two, system as int, kx as int, s as int, k as int));
                assert(keys.take(idx + 1) =~= keys.take(idx).push(keys[idx]));
            }
            k = k + 1;
        }
        assert((s + 1) * n == s * n + n) by (nonlinear_arith);
        s = s + 1;
    }
    assert(s * n == n * staves) by (nonlinear_arith)
        requires
            s == staves,
    ;
    assert(keys.take((s * n) as int) =~= keys);
    let ghost after_keys = marks_view(out@);
    assert(0 <= count * step_width <= 0x8000_0000 * 110) by (nonlinear_arith)
        requires
            count <= 0x8000_0000,
            0 <= step_width <= 110,
    ;
    let kw: i128 = if fifths == 0 {
        0
    } else {
        count as i128 * step_width + 60
    };
    assert(kw == key_advance(fifths));
    // Time signature.
    let tx = kx + kw;
    let mut tw: i128 = 0;
    if with_time {
        let digits = time_signature_digits(beats);
        proof {
            lemma_decimal_digits(numerator_value(beats));
        }
        let n = digits.len();
        let per = n + 1;
        let ghost times = time_marks(beats, two, system as int, tx as int);
        assert(times.len() == per * staves);
        let mut t: usize = 0;
        while t < staves
            invariant
                staves == staff_count(two),
                system_ok(system as int),
                t <= staves,
                digits@ == numerator_digits(beats),
                1 <= n <= 10,
                n == digits@.len(),
                per == n + 1,
                forall|k: int| 0 <= k < n ==> #[trigger] digits@[k] <= 9,
                -0x100_0000 <= tx <= 0x100_0000_0000,
                times == time_marks(beats, two, system as int, tx as int),
                times.len() == per * staves,
                marks_view(out@) == after_keys + times.take((t * per) as int),
            decreases staves - t,
        {
            let top = exec_staff_top(two, system, t);
            let mut k: usize = 0;
            while k < n
                invariant
                    staves == staff_count(two),
                    system_ok(system as int),
                    t < staves,
                    k <= n,
                    digits@ == numerator_digits(beats),
                    1 <= n <= 10,
                    n == digits@.len(),
                    per == n + 1,
                    forall|j: int| 0 <= j < n ==> #[trigger] digits@[j] <= 9,
                    -0x100_0000 <= tx <= 0x100_0000_0000,
                    top == staff_top(two, system as int, t as int),
                    times == time_marks(beats, two, system as int, tx as int),
                    times.len() == per * staves,
                    marks_view(out@) == after_keys + times.take((t * per + k) as int),
                decreases n - k,
            {
                push_glyph(
                    out,
                    ElementKind::TimeSignature,
                    smufl::time_sig_digit(digits[k]),
                    tx + 180 * k as i128,
                    top + 100,
                );
                proof {
                    let idx = (t * per + k) as int;
                    assert(idx / (per as int) == t as int && idx % (per as int) == k as int && idx < per
                        * staves) by (nonlinear_arith)
                        requires
                            idx == t * per + k,
                            k < per,
                            t < staves,
                    ;
                    assert(times[idx] == time_mark(beats, two, system as int, tx as int, t as int, k as int));
                    assert(times.take(idx + 1) =~= times.take(idx).push(times[idx]));
                }
                k = k + 1;
            }
            push_glyph(
                out,
                ElementKind::TimeSignature,
                smufl::time_sig_digit(4),
                tx + 90 * (n as i128 - 1),
                top + 300,
            );
            proof {
                let idx = (t * per + n) as int;
                assert(idx / (per as int) == t as int && idx % (per as int) == n as int && idx < per
                    * staves) by (nonlinear_arith)
                    requires
                        idx == t * per + n,
                        per == n + 1,
                        t < staves,
                ;
                assert(times[idx] == time_mark(beats, two, system as int, tx as int, t as int, n as int));
                assert(times.take(idx + 1) =~= times.take(idx).push(times[idx]));
                assert((t + 1) * per == t * per + n + 1) by (nonlinear_arith)
                    requires
                        per == n + 1,
                ;
            }
            t = t + 1;
        }
        assert(t * per == per * staves) by (nonlinear_arith)
            requires
                t == staves,
        ;
        assert(times.take((t * per) as int) =~= times);
        tw = 240 + 180 * (n as i128 - 1);
    }
    x0 + 340 + kw + tw + 100
}

} // verus!
