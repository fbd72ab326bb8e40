//! The onset columns of a measure and the breaking of measures into
//! systems, in centi-spaces (hundredths of a staff space).

use vstd::prelude::*;

use crate::score::{events_view, Event, EventView, Measure, MeasureView};
use std::collections::HashMap;

verus! {

// ---------------------------------------------------------------------
// Columns
// ---------------------------------------------------------------------

/// Whether some event of a measure (either voice) starts at `t`.
pub open spec fn has_onset(m: MeasureView, t: i32) -> bool {
    (exists|i: int| 0 <= i < m.treble.len() && #[trigger] m.treble[i].onset_units == t) || (exists|
        i: int,
    |
        0 <= i < m.bass.len() && #[trigger] m.bass[i].onset_units == t)
}

/// Whether `s` is strictly increasing.
pub open spec fn strictly_increasing(s: Seq<i32>) -> bool {
    forall|i: int, j: int| 0 <= i < j < s.len() ==> s[i] < s[j]
}

/// The longest total length (eighth units) among the events of `evs`
/// starting at `t`, at least `floor`.
pub open spec fn longest_at(evs: Seq<EventView>, t: i32, floor: int) -> int
    decreases evs.len(),
{
    if evs.len() == 0 {
        floor
    } else {
        let rest = longest_at(evs.drop_last(), t, floor);
        let e = evs.last();
        if e.onset_units == t && e.duration.spec_total_units() > rest {
            e.duration.spec_total_units()
        } else {
            rest
        }
    }
}

pub(crate) proof fn lemma_longest_at_bounds(evs: Seq<EventView>, t: i32, floor: int)
    ensures
        floor <= longest_at(evs, t, floor),
        longest_at(evs, t, floor) <= floor || longest_at(evs, t, floor) <= 0x1_0000_0000,
        any_at(evs, t) ==> -0x1_0000_0000 <= longest_at(evs, t, floor),
    decreases evs.len(),
{
    if evs.len() > 0 {
        lemma_longest_at_bounds(evs.drop_last(), t, floor);
        if any_at(evs, t) && evs.last().onset_units != t {
            let i = choose|i: int| 0 <= i < evs.len() && #[trigger] evs[i].onset_units == t;
            assert(evs.drop_last()[i].onset_units == t);
        }
    }
}

pub(crate) proof fn lemma_longest_bounds(m: MeasureView, t: i32)
    ensures
        -0x1_0000_0000 <= spec_longest(m, t) <= 0x1_0000_0000,
{
    lemma_longest_at_bounds(m.treble, t, i64::MIN as int);
    lemma_longest_at_bounds(m.bass, t, i64::MIN as int);
}

/// Whether any event of `evs` starts at `t`.
pub open spec fn any_at(evs: Seq<EventView>, t: i32) -> bool {
    exists|i: int| 0 <= i < evs.len() && #[trigger] evs[i].onset_units == t
}

/// The longest event at onset `t` in a measure, or a quarter (2 units) when
/// there is none there.
pub open spec fn spec_longest(m: MeasureView, t: i32) -> int {
    if any_at(m.treble, t) || any_at(m.bass, t) {
        let low = i64::MIN as int;
        let a = longest_at(m.treble, t, low);
        let b = longest_at(m.bass, t, low);
        if a >= b {
            a
        } else {
            b
        }
    } else {
        2
    }
}

/// Where a measure's columns sit: one column per distinct onset, in onset
/// order; the first column sits one space after the measure's start, and
/// each next column 1.4 spaces plus 0.85 spaces per eighth of onset
/// difference further (linear duration spacing). The measure ends 1.4
/// spaces plus 0.85 spaces per eighth of its longest last event after its
/// last column. `positions` maps each onset to its column's offset.
pub struct Columns {
    pub onsets: Vec<i32>,
    pub offsets: Vec<i128>,
    pub right: i128,
    pub positions: HashMap<i32, i128>,
}

/// The column offsets (centi-spaces from the measure's start) for `onsets`.
pub open spec fn column_offset(onsets: Seq<i32>, i: int) -> int
    decreases i,
{
    if i <= 0 {
        100
    } else {
        column_offset(onsets, i - 1) + 140 + 85 * (onsets[i] - onsets[i - 1])
    }
}

/// Whether `positions` maps each of `onsets` to the offset at its index.
pub open spec fn positions_of(onsets: Seq<i32>, offsets: Seq<i128>, positions: Map<i32, i128>) -> bool {
    forall|k: int|
        0 <= k < onsets.len() ==> positions.contains_key(#[trigger] onsets[k]) && positions[onsets[k]]
            == offsets[k]
}

/// Whether `c` lays out measure `m` as the rule above says.
pub open spec fn columns_of(m: MeasureView, c: (Seq<i32>, Seq<i128>, i128, Map<i32, i128>)) -> bool {
    let (onsets, offsets, right, positions) = c;
    &&& strictly_increasing(onsets)
    &&& positions_of(onsets, offsets, positions)
    &&& forall|t: i32| has_onset(m, t) <==> onsets.contains(t)
    &&& offsets.len() == onsets.len()
    &&& forall|i: int| 0 <= i < offsets.len() ==> #[trigger] offsets[i] == column_offset(onsets, i)
    &&& right == (if onsets.len() == 0 {
        310
    } else {
        offsets.last() + 140 + 85 * spec_longest(m, onsets.last())
    })
}

impl Columns {
    pub open spec fn spec_parts(self) -> (Seq<i32>, Seq<i128>, i128, Map<i32, i128>) {
        (self.onsets@, self.offsets@, self.right, self.positions@)
    }
}

/// Inserts `t` into the strictly increasing `s` unless it is there.
pub(crate) fn insert_onset(s: &mut Vec<i32>, t: i32)
    requires
        strictly_increasing(old(s)@),
    ensures
        strictly_increasing(final(s)@),
        forall|x: i32| final(s)@.contains(x) <==> (old(s)@.contains(x) || x == t),
        final(s)@.len() <= old(s)@.len() + 1,
{
    let n = s.len();
    let mut p: usize = 0;
    while p < n && s[p] < t
        invariant
            p <= n == s@.len(),
            forall|k: int| 0 <= k < p ==> s@[k] < t,
        decreases n - p,
    {
        p = p + 1;
    }
    if p < n && s[p] == t {
        return;
    }
    let ghost old_s = s@;
    s.insert(p, t);
    assert(s@ == old_s.subrange(0, p as int).push(t) + old_s.subrange(p as int, n as int));
    assert forall|i: int, j: int| 0 <= i < j < s@.len() implies s@[i] < s@[j] by {
        if j < p {
            assert(s@[i] == old_s[i] && s@[j] == old_s[j]);
        } else if j == p {
            assert(s@[i] == old_s[i]);
        } else if i < p {
            assert(s@[j] == old_s[j - 1]);
        } else if i == p {
            assert(s@[j] == old_s[j - 1]);
        } else {
            assert(s@[i] == old_s[i - 1] && s@[j] == old_s[j - 1]);
        }
    }
    assert forall|x: i32| s@.contains(x) <==> (old_s.contains(x) || x == t) by {
        if s@.contains(x) {
            let k = choose|k: int| 0 <= k < s@.len() && s@[k] == x;
            if k < p {
                assert(old_s[k] == x);
            } else if k > p {
                assert(old_s[k - 1] == x);
            }
        }
        if old_s.contains(x) {
            let k = choose|k: int| 0 <= k < old_s.len() && old_s[k] == x;
            if k < p {
                assert(s@[k] == x);
            } else {
                assert(s@[k + 1] == x);
            }
        }
        if x == t {
            assert(s@[p as int] == t);
        }
    }
}

/// Whether one of the first `k` events of `v` starts at `x`.
pub open spec fn seen_onset(v: Seq<EventView>, k: int, x: i32) -> bool {
    exists|j: int| 0 <= j < k && #[trigger] v[j].onset_units == x
}

/// Adds the onsets of `voice` to the strictly increasing `s`.
pub(crate) fn collect_onsets(s: &mut Vec<i32>, voice: &Vec<Event>)
    requires
        strictly_increasing(old(s)@),
    ensures
        strictly_increasing(final(s)@),
        forall|x: i32|
            final(s)@.contains(x) <==> (old(s)@.contains(x) || any_at(events_view(voice@), x)),
        final(s)@.len() <= old(s)@.len() + voice@.len(),
{
    let ghost v = events_view(voice@);
    let ghost start = s@;
    let mut i: usize = 0;
    while i < voice.len()
        invariant
            v == events_view(voice@),
            i <= voice@.len(),
            strictly_increasing(s@),
            forall|x: i32| s@.contains(x) <==> (start.contains(x) || seen_onset(v, i as int, x)),
            s@.len() <= start.len() + i,
        decreases voice@.len() - i,
    {
        let t = voice[i].onset_units;
        assert(v[i as int].onset_units == t);
        let ghost before = s@;
        insert_onset(s, t);
        let ghost k = i as int;
        i = i + 1;
        assert forall|x: i32| s@.contains(x) <==> (start.contains(x) || seen_onset(v, i as int, x)) by {
            if s@.contains(x) {
                if x == t {
                    assert(v[k].onset_units == x);
                    assert(seen_onset(v, k + 1, x));
                } else {
                    assert(before.contains(x));
                    if seen_onset(v, k, x) {
                        let j = choose|j: int| 0 <= j < k && #[trigger] v[j].onset_units == x;
                        assert(v[j].onset_units == x);
                        assert(seen_onset(v, k + 1, x));
                    }
                }
            }
            if start.contains(x) {
                assert(before.contains(x));
            }
            if seen_onset(v, k + 1, x) {
                let j = choose|j: int| 0 <= j < k + 1 && #[trigger] v[j].onset_units == x;
                if j < k {
                    assert(seen_onset(v, k, x));
                    assert(before.contains(x));
                } else {
                    assert(x == t);
                }
            }
        }
    }
    assert forall|x: i32| seen_onset(v, voice@.len() as int, x) <==> any_at(v, x) by {
        if any_at(v, x) {
            let j = choose|j: int| 0 <= j < v.len() && #[trigger] v[j].onset_units == x;
            assert(v[j].onset_units == x);
        }
    }
}

/// The longest total length among the events of `voice` at `t`, starting
/// from `floor`.
pub(crate) fn longest_in(voice: &Vec<Event>, t: i32, floor: i64) -> (r: i64)
    requires
        i64::MIN <= floor,
    ensures
        r == longest_at(events_view(voice@), t, floor as int),
{
    let ghost v = events_view(voice@);
    let mut best = floor;
    let mut i: usize = 0;
    while i < voice.len()
        invariant
            v == events_view(voice@),
            i <= voice@.len(),
            best == longest_at(v.take(i as int), t, floor as int),
        decreases voice@.len() - i,
    {
        let e = &voice[i];
        assert(v.take(i + 1).drop_last() == v.take(i as int));
        assert(v.take(i + 1).last() == e@);
        let d = e.duration;
        let half: i64 = if d.base_units >= 0 {
            (d.base_units / 2) as i64
        } else {
            -((-(d.base_units as i64)) / 2)
        };
        let total: i64 = if d.dotted {
            d.base_units as i64 + half
        } else {
            d.base_units as i64
        };
        if e.onset_units == t && total > best {
            best = total;
        }
        i = i + 1;
    }
    assert(v.take(voice@.len() as int) == v);
    best
}

/// Whether some event of `voice` starts at `t`.
pub(crate) fn voice_has_onset(voice: &Vec<Event>, t: i32) -> (r: bool)
    ensures
        r == any_at(events_view(voice@), t),
{
    let ghost v = events_view(voice@);
    let mut i: usize = 0;
    while i < voice.len()
        invariant
            v == events_view(voice@),
            i <= voice@.len(),
            forall|k: int| 0 <= k < i ==> #[trigger] v[k].onset_units != t,
        decreases voice@.len() - i,
    {
        assert(v[i as int].onset_units == voice[i as int].onset_units);
        if voice[i].onset_units == t {
            return true;
        }
        i = i + 1;
    }
    false
}

/// Lays out the columns of a measure (see [`Columns`]).
pub fn measure_columns(m: &Measure) -> (c: Columns)
    ensures
        columns_of(m@, c.spec_parts()),
        c.onsets@.len() <= m@.treble.len() + m@.bass.len(),
        forall|k: int|
            0 <= k < c.offsets@.len() ==> 100 <= #[trigger] c.offsets@[k] <= 100 + 140 * (
            m@.treble.len() + m@.bass.len()) + 85 * 0x1_0000_0000,
        -0x20_0000_0000 * 85 <= c.right - (if c.offsets@.len() == 0 {
            0
        } else {
            c.offsets@.last() as int
        }) <= 0x20_0000_0000 * 85 + 310,
{
    let treble = &m.voices[0];
    let bass = &m.voices[1];
    assert(m@.treble == events_view(treble@));
    assert(m@.bass == events_view(bass@));
    let mut onsets: Vec<i32> = Vec::new();
    collect_onsets(&mut onsets, treble);
    collect_onsets(&mut onsets, bass);
    assert forall|t: i32| has_onset(m@, t) <==> onsets@.contains(t) by {
        if any_at(m@.treble, t) {
            let i = choose|i: int| 0 <= i < m@.treble.len() && m@.treble[i].onset_units == t;
            assert(m@.treble[i].onset_units == t);
        }
        if any_at(m@.bass, t) {
            let i = choose|i: int| 0 <= i < m@.bass.len() && m@.bass[i].onset_units == t;
            assert(m@.bass[i].onset_units == t);
        }
    }
    let n = onsets.len();
    let mut offsets: Vec<i128> = Vec::new();
    let mut x: i128 = 100;
    let mut i: usize = 0;
    while i < n
        invariant
            n == onsets@.len(),
            n <= treble@.len() + bass@.len(),
            i <= n,
            offsets@.len() == i,
            forall|k: int| 0 <= k < i ==> #[trigger] offsets@[k] == column_offset(onsets@, k),
            forall|k: int|
                0 <= k < i ==> 100 <= #[trigger] offsets@[k] <= 100 + 140 * n + 85 * 0x1_0000_0000,
            i > 0 ==> x == column_offset(onsets@, i - 1),
            i == 0 ==> x == 100,
            100 <= x <= 100 + 140 * i + 85 * 0x1_0000_0000,
            i > 0 ==> x == 100 + 140 * (i - 1) + 85 * (onsets@[i - 1] - onsets@[0]),
            strictly_increasing(onsets@),
        decreases n - i,
    {
        if i > 0 {
            let delta = onsets[i] as i128 - onsets[i - 1] as i128;
            x = x + 140 + 85 * delta;
        }
        offsets.push(x);
        i = i + 1;
    }
    let right: i128 = if n == 0 {
        310
    } else {
        let last = onsets[n - 1];
        let longest: i64 = if voice_has_onset(treble, last) || voice_has_onset(bass, last) {
            let a = longest_in(treble, last, i64::MIN);
            let b = longest_in(bass, last, i64::MIN);
            if a >= b {
                a
            } else {
                b
            }
        } else {
            2
        };
        proof {
            lemma_longest_bounds(m@, last);
        }
        offsets[n - 1] + 140 + 85 * longest as i128
    };
    let mut positions: HashMap<i32, i128> = HashMap::new();
    let mut k: usize = 0;
    while k < n
        invariant
            n == onsets@.len() == offsets@.len(),
            k <= n,
            strictly_increasing(onsets@),
            positions_of(onsets@.take(k as int), offsets@.take(k as int), positions@),
        decreases n - k,
    {
        positions.insert(onsets[k], offsets[k]);
        proof {
            assert forall|j: int| 0 <= j < k + 1 implies positions@.contains_key(
                #[trigger] onsets@.take(k + 1)[j],
            ) && positions@[onsets@.take(k + 1)[j]] == offsets@.take(k + 1)[j] by {
                if j < k {
                    assert(onsets@.take(k as int)[j] == onsets@[j]);
                    assert(onsets@[j] < onsets@[k as int]);
                }
            }
        }
        k = k + 1;
    }
    assert(onsets@.take(n as int) =~= onsets@);
    assert(offsets@.take(n as int) =~= offsets@);
    Columns { onsets, offsets, right, positions }
}

// ---------------------------------------------------------------------
// Systems
// ---------------------------------------------------------------------

/// The sum of `widths[from..to]`.
pub open spec fn width_sum(widths: Seq<i128>, from: int, to: int) -> int
    decreases to - from,
{
    if to <= from {
        0
    } else {
        width_sum(widths, from, to - 1) + widths[to - 1]
    }
}

/// The end of a system starting at `s` that already holds `s..e`.
pub open spec fn system_end_from(widths: Seq<i128>, s: int, e: int, cap: int) -> int
    decreases widths.len() - e,
{
    if e >= widths.len() || width_sum(widths, s, e + 1) > cap {
        e
    } else {
        system_end_from(widths, s, e + 1, cap)
    }
}

/// The first measures of the systems from measure `s` on, when the first
/// of them has room `first_cap` and each later one `cap`.
pub open spec fn system_starts(widths: Seq<i128>, s: int, first_cap: int, cap: int) -> Seq<usize>
    decreases widths.len() - s,
{
    if s < 0 || s >= widths.len() {
        Seq::empty()
    } else {
        let e = system_end_from(widths, s, s + 1, first_cap);
        proof {
            lemma_system_end_from_bounds(widths, s, s + 1, first_cap);
        }
        if e <= s {
            seq![s as usize]
        } else {
            seq![s as usize] + system_starts(widths, e, cap, cap)
        }
    }
}

pub proof fn lemma_system_end_from_bounds(widths: Seq<i128>, s: int, e: int, cap: int)
    requires
        s < e <= widths.len(),
    ensures
        e <= system_end_from(widths, s, e, cap) <= widths.len(),
    decreases widths.len() - e,
{
    if !(e >= widths.len() || width_sum(widths, s, e + 1) > cap) {
        lemma_system_end_from_bounds(widths, s, e + 1, cap);
    }
}

/// The systems found by [`system_starts`] are in order: the first starts at
/// `s`, each later one after the previous, all within the measures, and
/// there is one unless no measure is left.
pub proof fn lemma_system_starts_valid(widths: Seq<i128>, s: int, first_cap: int, cap: int)
    requires
        0 <= s,
        widths.len() <= usize::MAX,
    ensures
        forall|k: int|
            0 <= k < system_starts(widths, s, first_cap, cap).len() ==> s <= #[trigger] system_starts(
                widths,
                s,
                first_cap,
                cap,
            )[k] < widths.len(),
        forall|a: int, b: int|
            0 <= a < b < system_starts(widths, s, first_cap, cap).len() ==> system_starts(
                widths,
                s,
                first_cap,
                cap,
            )[a] < system_starts(widths, s, first_cap, cap)[b],
        s < widths.len() ==> system_starts(widths, s, first_cap, cap).len() > 0 && system_starts(
            widths,
            s,
            first_cap,
            cap,
        )[0] == s,
        s <= widths.len() ==> system_starts(widths, s, first_cap, cap).len() <= widths.len() - s,
    decreases widths.len() - s,
{
    if s < widths.len() {
        let e = system_end_from(widths, s, s + 1, first_cap);
        lemma_system_end_from_bounds(widths, s, s + 1, first_cap);
        if e > s {
            lemma_system_starts_valid(widths, e, cap, cap);
            let rest = system_starts(widths, e, cap, cap);
            let all = system_starts(widths, s, first_cap, cap);
            assert(all == seq![s as usize] + rest);
            assert forall|k: int| 0 <= k < all.len() implies s <= #[trigger] all[k] < widths.len() by {
                if k > 0 {
                    assert(all[k] == rest[k - 1]);
                }
            }
            assert forall|a: int, b: int| 0 <= a < b < all.len() implies all[a] < all[b] by {
                if a > 0 {
                    assert(all[a] == rest[a - 1]);
                }
                assert(all[b] == rest[b - 1]);
            }
        }
    }
}

/// Breaks measures into systems: each system takes measures, in order, as
/// long as the sum of their widths (barline gap included) stays within the
/// room left on the system, and always at least one measure. The first
/// system has room `first_cap` (it also carries the time signature), every
/// later one `cap`. Returns the index of each system's first measure.
pub fn system_breaks(widths: &Vec<i128>, first_cap: i128, cap: i128) -> (r: Vec<usize>)
    requires
        forall|i: int| 0 <= i < widths@.len() ==> 0 <= #[trigger] widths@[i] <= 0x1_0000_0000_0000_0000_0000,
        first_cap <= 0x10_0000_0000_0000_0000_0000_0000,
        cap <= 0x10_0000_0000_0000_0000_0000_0000,
    ensures
        r@ == system_starts(widths@, 0, first_cap as int, cap as int),
{
    let n = widths.len();
    let mut out: Vec<usize> = Vec::new();
    let mut s: usize = 0;
    let mut room: i128 = first_cap;
    while s < n
        invariant
            n == widths@.len(),
            s <= n,
            forall|i: int| 0 <= i < widths@.len() ==> 0 <= #[trigger] widths@[i] <= 0x1_0000_0000_0000_0000_0000,
            system_starts(widths@, 0, first_cap as int, cap as int) == out@ + system_starts(
                widths@,
                s as int,
                room as int,
                cap as int,
            ),
            room == first_cap || room == cap,
            first_cap <= 0x10_0000_0000_0000_0000_0000_0000,
            cap <= 0x10_0000_0000_0000_0000_0000_0000,
        decreases n - s,
    {
        let ghost tail = system_starts(widths@, s as int, room as int, cap as int);
        out.push(s);
        let mut e: usize = s + 1;
        let mut used: i128 = widths[s];
        assert(width_sum(widths@, s as int, s + 1) == widths@[s as int]) by {
            assert(width_sum(widths@, s as int, s as int) == 0);
        }
        while e < n && used + widths[e] <= room
            invariant
                n == widths@.len(),
                s < e <= n,
                forall|i: int| 0 <= i < widths@.len() ==> 0 <= #[trigger] widths@[i] <= 0x1_0000_0000_0000_0000_0000,
                used == width_sum(widths@, s as int, e as int),
                0 <= used,
                room <= 0x10_0000_0000_0000_0000_0000_0000,
                used <= room || (e == s + 1 && used <= 0x1_0000_0000_0000_0000_0000),
                system_end_from(widths@, s as int, s + 1, room as int) == system_end_from(
                    widths@,
                    s as int,
                    e as int,
                    room as int,
                ),
            decreases n - e,
        {
            used = used + widths[e];
            e = e + 1;
        }
        proof {
            lemma_system_end_from_bounds(widths@, s as int, e as int, room as int);
            assert(system_end_from(widths@, s as int, e as int, room as int) == e);
            assert(tail == seq![s] + system_starts(widths@, e as int, cap as int, cap as int));
        }
        s = e;
        room = cap;
        proof {
            assert(out@ + system_starts(widths@, s as int, room as int, cap as int) =~= out@.drop_last()
                + tail);
        }
    }
    assert(out@ + system_starts(widths@, s as int, room as int, cap as int) =~= out@);
    out
}

} // verus!
