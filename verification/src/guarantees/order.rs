//! Reading order and pitch height, systems stacking downward, wrapped
//! engravings staying within their room, and key signatures showing the
//! letters the key alters.

use vstd::prelude::*;

use crate::engrave::{spec_key_alteration, spec_signature_positions};
use crate::engrave::columns::{column_offset, strictly_increasing};
use crate::layout::note_y;
use crate::layout::opening::key_glyph_count;
use crate::layout::systems::{break_width, system_layout, system_stop};
use crate::score::{Clef, ScoreView};

verus! {

// ---------------------------------------------------------------------
// Reading order and pitch height
// ---------------------------------------------------------------------

/// Columns advance left to right with their onsets: of two columns of a
/// measure, the later one sits further right.
pub proof fn law_columns_advance(onsets: Seq<i32>, i: int, j: int)
    requires
        strictly_increasing(onsets),
        0 <= i < j < onsets.len(),
    ensures
        column_offset(onsets, i) < column_offset(onsets, j),
    decreases j - i,
{
    if i < j - 1 {
        law_columns_advance(onsets, i, j - 1);
    }
    assert(onsets[j - 1] < onsets[j]);
}

/// An event that starts later than another in the same measure sits
/// further right.
pub proof fn law_reading_order(onsets: Seq<i32>, x: int, t1: i32, t2: i32)
    requires
        strictly_increasing(onsets),
        onsets.contains(t1),
        onsets.contains(t2),
        t1 < t2,
    ensures
        crate::layout::voices::event_x(onsets, x, t1) < crate::layout::voices::event_x(onsets, x, t2),
{
    let i = crate::layout::voices::onset_index(onsets, t1);
    let j = crate::layout::voices::onset_index(onsets, t2);
    assert(0 <= i < onsets.len() && onsets[i] == t1);
    assert(0 <= j < onsets.len() && onsets[j] == t2);
    if j <= i {
        if j < i {
            assert(onsets[j] < onsets[i]);
        }
    }
    law_columns_advance(onsets, i, j);
}

/// A note one staff step higher sits half a space higher on its staff.
pub proof fn law_pitch_height(top: int, step: int)
    ensures
        note_y(top, step + 1) == note_y(top, step) - 50,
        forall|s: int| s > step ==> #[trigger] note_y(top, s) < note_y(top, step),
{
}

// ---------------------------------------------------------------------
// Wrapping stays within the room
// ---------------------------------------------------------------------

pub(crate) proof fn lemma_width_sum_front(w: Seq<i128>, from: int, to: int)
    requires
        from < to,
    ensures
        crate::engrave::columns::width_sum(w, from, to) == w[from] + crate::engrave::columns::width_sum(w, from + 1, to),
    decreases to - from,
{
    if from + 1 < to {
        lemma_width_sum_front(w, from, to - 1);
    } else {
        assert(crate::engrave::columns::width_sum(w, from, from) == 0);
        assert(crate::engrave::columns::width_sum(w, from + 1, to) == 0);
    }
}

pub(crate) proof fn lemma_run_within(sc: ScoreView, from: int, to: int, x: int)
    requires
        0 <= from,
        to <= sc.measures.len(),
        forall|i: int| 0 <= i < sc.measures.len() ==> 0 <= break_width(#[trigger] sc.measures[i]) <= 0x7fff_ffff_ffff_ffff,
    ensures
        crate::layout::systems::run_end(sc, from, to, x) <= x + crate::engrave::columns::width_sum(
            crate::layout::systems::break_widths(sc.measures),
            from,
            to,
        ),
    decreases to - from,
{
    let w = crate::layout::systems::break_widths(sc.measures);
    if from < to {
        let m = sc.measures[from];
        lemma_run_within(sc, from + 1, to, x + crate::layout::systems::measure_width(m));
        lemma_width_sum_front(w, from, to);
        assert(w[from] == break_width(m));
    }
}

pub(crate) proof fn lemma_end_from_fits(w: Seq<i128>, s: int, e: int, cap: int)
    requires
        s < e <= w.len(),
        crate::engrave::columns::width_sum(w, s, e) <= cap,
    ensures
        crate::engrave::columns::width_sum(w, s, crate::engrave::columns::system_end_from(w, s, e, cap)) <= cap,
    decreases w.len() - e,
{
    if !(e >= w.len() || crate::engrave::columns::width_sum(w, s, e + 1) > cap) {
        lemma_end_from_fits(w, s, e + 1, cap);
    }
}

/// The systems that [`system_starts`] finds each fit their room, when
/// every measure fits alone.
pub(crate) proof fn lemma_starts_fit(w: Seq<i128>, s: int, first_cap: int, cap: int)
    requires
        0 <= s,
        w.len() <= usize::MAX,
        first_cap <= cap,
        forall|i: int| 0 <= i < w.len() ==> #[trigger] w[i] <= first_cap,
    ensures
        forall|k: int|
            0 <= k < crate::engrave::columns::system_starts(w, s, first_cap, cap).len() ==> crate::engrave::columns::width_sum(
                w,
                #[trigger] crate::engrave::columns::system_starts(w, s, first_cap, cap)[k] as int,
                system_stop(crate::engrave::columns::system_starts(w, s, first_cap, cap), k, w.len() as int),
            ) <= if k == 0 {
                first_cap
            } else {
                cap
            },
    decreases w.len() - s,
{
    let ss = crate::engrave::columns::system_starts(w, s, first_cap, cap);
    if s < w.len() {
        let e = crate::engrave::columns::system_end_from(w, s, s + 1, first_cap);
        crate::engrave::columns::lemma_system_end_from_bounds(w, s, s + 1, first_cap);
        assert(crate::engrave::columns::width_sum(w, s, s + 1) == w[s]) by {
            assert(crate::engrave::columns::width_sum(w, s, s) == 0);
        }
        lemma_end_from_fits(w, s, s + 1, first_cap);
        let rest = crate::engrave::columns::system_starts(w, e, cap, cap);
        crate::engrave::columns::lemma_system_starts_valid(w, e, cap, cap);
        lemma_starts_fit(w, e, cap, cap);
        assert(ss == seq![s as usize] + rest);
        assert forall|k: int| 0 <= k < ss.len() implies crate::engrave::columns::width_sum(
            w,
            #[trigger] ss[k] as int,
            system_stop(ss, k, w.len() as int),
        ) <= if k == 0 {
            first_cap
        } else {
            cap
        } by {
            if k == 0 {
                if rest.len() > 0 {
                    assert(system_stop(ss, 0, w.len() as int) == rest[0] as int);
                    assert(rest[0] == e);
                } else {
                    assert(e >= w.len());
                }
            } else {
                assert(ss[k] == rest[k - 1]);
                assert(system_stop(ss, k, w.len() as int) == system_stop(rest, k - 1, w.len() as int));
            }
        }
    }
}

pub(crate) proof fn lemma_systems_within(sc: ScoreView, starts: Seq<usize>, n: int, r: int)
    requires
        0 <= n <= starts.len(),
        crate::layout::systems::starts_ok(starts, sc.measures.len() as int),
        forall|i: int| 0 <= i < sc.measures.len() ==> 0 <= break_width(#[trigger] sc.measures[i]) <= 0x7fff_ffff_ffff_ffff,
        forall|k: int|
            0 <= k < starts.len() ==> crate::engrave::columns::width_sum(
                crate::layout::systems::break_widths(sc.measures),
                #[trigger] starts[k] as int,
                system_stop(starts, k, sc.measures.len() as int),
            ) <= r - crate::layout::opening::opening_width(sc.staves == 2, sc.fifths, sc.beats_per_measure, k == 0),
    ensures
        crate::layout::systems::systems_width(sc, starts, n) <= if n == 0 {
            0
        } else {
            r
        },
    decreases n,
{
    if n > 0 {
        lemma_systems_within(sc, starts, n - 1, r);
        let k = n - 1;
        let from = starts[k] as int;
        let to = system_stop(starts, k, sc.measures.len() as int);
        assert(from <= to) by {
            if k + 1 < starts.len() {
                assert(starts[k] < starts[k + 1]);
            }
        }
        lemma_run_within(sc, from, to, crate::layout::opening::opening_width(sc.staves == 2, sc.fifths, sc.beats_per_measure, k == 0));
        assert(starts[k] as int == from);
    }
}

/// With a room limit, the engraving stays within it whenever every
/// measure fits on a system by itself (after the first system's opening,
/// the widest one): systems take measures only while they fit.
pub proof fn law_wrapped_width(sc: ScoreView, r: i64)
    requires
        sc.measures.len() <= 0x1_0000_0000,
        sc.measures.len() <= usize::MAX,
        crate::layout::opening::opening_width(sc.staves == 2, sc.fifths, sc.beats_per_measure, true) <= r,
        forall|i: int|
            0 <= i < sc.measures.len() ==> break_width(#[trigger] sc.measures[i]) <= r
                - crate::layout::opening::opening_width(sc.staves == 2, sc.fifths, sc.beats_per_measure, true),
    ensures
        crate::layout::systems::systems_width(
            sc,
            system_layout(sc, Some(r)),
            system_layout(sc, Some(r)).len() as int,
        ) <= r,
{
    let two = sc.staves == 2;
    let fc = r - crate::layout::opening::opening_width(two, sc.fifths, sc.beats_per_measure, true);
    let c = r - crate::layout::opening::opening_width(two, sc.fifths, sc.beats_per_measure, false);
    let w = crate::layout::systems::break_widths(sc.measures);
    let n = sc.measures.len() as int;
    assert forall|i: int| 0 <= i < sc.measures.len() implies 0 <= break_width(#[trigger] sc.measures[i])
        <= 0x7fff_ffff_ffff_ffff by {}
    assert forall|i: int| 0 <= i < w.len() implies #[trigger] w[i] <= fc by {
        assert(w[i] == break_width(sc.measures[i]));
    }
    let starts = system_layout(sc, Some(r));
    crate::layout::systems::lemma_layout_ok(sc, Some(r));
    let ss = crate::engrave::columns::system_starts(w, 0, fc, c);
    lemma_starts_fit(w, 0, fc, c);
    if ss.len() == 0 {
        assert(starts == seq![0usize]);
        assert(n == 0) by {
            crate::engrave::columns::lemma_system_starts_valid(w, 0, fc, c);
        }
        assert forall|k: int| 0 <= k < starts.len() implies crate::engrave::columns::width_sum(
            w,
            #[trigger] starts[k] as int,
            system_stop(starts, k, n),
        ) <= r - crate::layout::opening::opening_width(two, sc.fifths, sc.beats_per_measure, k == 0) by {
            assert(crate::engrave::columns::width_sum(w, 0, 0) == 0);
        }
    } else {
        assert(starts == ss);
        assert forall|k: int| 0 <= k < starts.len() implies crate::engrave::columns::width_sum(
            w,
            #[trigger] starts[k] as int,
            system_stop(starts, k, n),
        ) <= r - crate::layout::opening::opening_width(two, sc.fifths, sc.beats_per_measure, k == 0) by {
            assert(crate::engrave::columns::width_sum(w, ss[k] as int, system_stop(ss, k, n)) <= if k == 0 {
                fc
            } else {
                c
            });
        }
    }
    lemma_systems_within(sc, starts, starts.len() as int, r as int);
}

// ---------------------------------------------------------------------
// Key signatures
// ---------------------------------------------------------------------

/// The signature columns of a key on a clef.
pub open spec fn signature_of(clef: Clef, fifths: i32) -> Seq<(u8, i32)> {
    spec_signature_positions(clef, fifths > 0)
}

/// A key signature shows exactly the letters the key alters: each of its
/// accidentals sits on a letter the key raises (sharps) or lowers (flats),
/// and every letter the key alters has its accidental in the signature,
/// on either clef.
pub proof fn law_signature_matches_alteration(clef: Clef, fifths: i32)
    requires
        fifths > i32::MIN,
    ensures
        forall|k: int|
            0 <= k < key_glyph_count(fifths) ==> spec_key_alteration(
                #[trigger] signature_of(clef, fifths)[k].0 as int,
                fifths as int,
            ) == if fifths > 0 {
                1int
            } else {
                -1int
            },
        forall|step: int|
            0 <= step <= 6 && #[trigger] spec_key_alteration(step, fifths as int) != 0 ==> exists|k: int|
                0 <= k < key_glyph_count(fifths) && signature_of(clef, fifths)[k].0 == step,
{
    let pos = signature_of(clef, fifths);
    assert forall|step: int|
        0 <= step <= 6 && #[trigger] spec_key_alteration(step, fifths as int) != 0 implies exists|k: int|
            0 <= k < key_glyph_count(fifths) && pos[k].0 == step by {
        let k = if fifths > 0 {
            crate::engrave::sharp_rank(step)
        } else {
            crate::engrave::flat_rank(step)
        };
        assert(pos[k].0 == step);
    }
}

} // verus!
