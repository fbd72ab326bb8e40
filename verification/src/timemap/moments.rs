//! The onset moments of a score held in a `BTreeMap` keyed by onset: each
//! onset at which an event starts, with the ids of the notes that start
//! sounding there, read back in increasing onset order.

use vstd::prelude::*;

use crate::engrave::columns::{any_at, strictly_increasing};
use crate::score::{events_view, measures_view, Event, Measure};
use crate::timemap::{ids_at, measures_have_onset, moment_ids, onset_in, strings_view};
use std::collections::BTreeMap;
use vstd::std_specs::cmp::OrdSpec;

verus! {

broadcast use vstd::laws_cmp::group_laws_cmp;

/// Whether every moment of `moments` holds the ids starting to sound at
/// its onset in the measures `ms`.
pub open spec fn moments_hold(moments: Map<i32, Vec<String>>, ms: Seq<crate::score::MeasureView>) -> bool {
    forall|t: i32| #[trigger] moments.contains_key(t) ==> strings_view(moments[t]@) == moment_ids(ms, t)
}

/// Adds a moment for each onset of `voice` not yet in `moments`.
pub(crate) fn add_moments(moments: &mut BTreeMap<i32, Vec<String>>, voice: &Vec<Event>, measures: &Vec<Measure>)
    requires
        moments_hold(old(moments)@, measures_view(measures@)),
    ensures
        moments_hold(final(moments)@, measures_view(measures@)),
        forall|x: i32|
            #[trigger] final(moments)@.contains_key(x) <==> (old(moments)@.contains_key(x) || any_at(
                events_view(voice@),
                x,
            )),
{
    let ghost ev = events_view(voice@);
    let ghost start = moments@;
    let mut i: usize = 0;
    while i < voice.len()
        invariant
            ev == events_view(voice@),
            i <= voice@.len(),
            moments_hold(moments@, measures_view(measures@)),
            forall|x: i32| moments@.contains_key(x) <==> (start.contains_key(x) || any_at(ev.take(i as int), x)),
        decreases voice@.len() - i,
    {
        let t = voice[i].onset_units;
        assert(ev[i as int].onset_units == t);
        let ghost before = moments@;
        if !moments.contains_key(&t) {
            let ids = ids_at(measures, t);
            moments.insert(t, ids);
        }
        let ghost k = i as int;
        i = i + 1;
        proof {
            assert forall|x: i32|
                moments@.contains_key(x) <==> (start.contains_key(x) || any_at(ev.take(i as int), x)) by {
                assert(before.contains_key(x) <==> (start.contains_key(x) || any_at(ev.take(k), x)));
                assert(moments@.contains_key(x) <==> (before.contains_key(x) || x == t));
                if any_at(ev.take(k + 1), x) {
                    let j = choose|j: int| 0 <= j < ev.take(k + 1).len() && #[trigger] ev.take(k + 1)[j].onset_units == x;
                    if j < k {
                        assert(ev.take(k)[j].onset_units == x);
                    }
                }
                if any_at(ev.take(k), x) {
                    let j = choose|j: int| 0 <= j < ev.take(k).len() && #[trigger] ev.take(k)[j].onset_units == x;
                    assert(ev.take(k + 1)[j].onset_units == x);
                }
                if x == t {
                    assert(ev.take(k + 1)[k].onset_units == x);
                }
            }
        }
    }
    assert(ev.take(voice@.len() as int) =~= ev);
}

/// The onset moments of `measures`: one per onset at which an event (of
/// either voice) starts, each with the ids starting to sound there.
pub(crate) fn onset_moments(measures: &Vec<Measure>) -> (m: BTreeMap<i32, Vec<String>>)
    ensures
        moments_hold(m@, measures_view(measures@)),
        forall|x: i32|
            m@.contains_key(x) <==> measures_have_onset(measures_view(measures@), measures@.len() as int, x),
{
    let ghost mv = measures_view(measures@);
    let mut moments: BTreeMap<i32, Vec<String>> = BTreeMap::new();
    let mut k: usize = 0;
    while k < measures.len()
        invariant
            mv == measures_view(measures@),
            k <= measures@.len(),
            moments_hold(moments@, mv),
            forall|x: i32| moments@.contains_key(x) <==> measures_have_onset(mv, k as int, x),
        decreases measures@.len() - k,
    {
        let m = &measures[k];
        assert(mv[k as int] == m@);
        assert(m@.treble == events_view(m.voices@[0]@));
        assert(m@.bass == events_view(m.voices@[1]@));
        let ghost before = moments@;
        let treble = &m.voices[0];
        let bass = &m.voices[1];
        assert(events_view(treble@) == mv[k as int].treble && events_view(bass@) == mv[k as int].bass);
        add_moments(&mut moments, treble, measures);
        let ghost mid = moments@;
        add_moments(&mut moments, bass, measures);
        let ghost kk = k as int;
        k = k + 1;
        assert forall|x: i32| moments@.contains_key(x) <==> measures_have_onset(mv, k as int, x) by {
            assert(before.contains_key(x) <==> measures_have_onset(mv, kk, x));
            assert(mid.contains_key(x) <==> (before.contains_key(x) || any_at(mv[kk].treble, x)));
            assert(moments@.contains_key(x) <==> (mid.contains_key(x) || any_at(mv[kk].bass, x)));
            if measures_have_onset(mv, k as int, x) {
                let j = choose|j: int| 0 <= j < k && #[trigger] onset_in(mv[j], x);
                if j < kk {
                    assert(measures_have_onset(mv, kk, x));
                }
            }
            if moments@.contains_key(x) && !before.contains_key(x) {
                assert(onset_in(mv[kk], x));
            }
            if before.contains_key(x) {
                let j = choose|j: int| 0 <= j < kk && #[trigger] onset_in(mv[j], x);
                assert(onset_in(mv[j], x));
            }
        }
    }
    moments
}

/// The onsets of `moments`, in increasing order.
pub(crate) fn ordered_onsets(moments: &BTreeMap<i32, Vec<String>>) -> (r: Vec<i32>)
    ensures
        strictly_increasing(r@),
        forall|x: i32| r@.contains(x) <==> moments@.contains_key(x),
{
    let mut r: Vec<i32> = Vec::new();
    for t in it: moments.keys()
        invariant
            vstd::std_specs::btree::increasing_seq(it.seq()),
            it.seq().unref().to_set() == moments@.dom(),
            r@ == it.seq().unref().take(it.index()),
            strictly_increasing(r@),
            forall|x: i32|
                moments@.contains_key(x) <==> (r@.contains(x) || pending_key(it.seq().unref(), it.index(), x)),
    {
        proof {
            lemma_keys_ascend(it.seq());
        }
        let ghost keys = it.seq().unref();
        let ghost k = it.index();
        let ghost old_r = r@;
        assert(forall|x: i32|
            moments@.contains_key(x) <==> (old_r.contains(x) || pending_key(keys, k, x)));
        r.push(*t);
        proof {
            assert(keys[k] == *t);
            assert(r@ =~= keys.take(k + 1));
            assert(r@ == old_r.push(*t));
            assert forall|x: i32|
                moments@.contains_key(x) <==> (r@.contains(x) || pending_key(keys, k + 1, x)) by {
                if old_r.contains(x) {
                    let j = choose|j: int| 0 <= j < old_r.len() && #[trigger] old_r[j] == x;
                    assert(r@[j] == x);
                }
                if pending_key(keys, k, x) {
                    let j = choose|j: int| k <= j < keys.len() && #[trigger] keys[j] == x;
                    if j == k {
                        assert(r@[k] == x);
                    } else {
                        assert(k + 1 <= j < keys.len() && keys[j] == x);
                    }
                }
                if r@.contains(x) {
                    let j = choose|j: int| 0 <= j < r@.len() && #[trigger] r@[j] == x;
                    if j < k {
                        assert(old_r[j] == x);
                    } else {
                        assert(keys[k] == x);
                    }
                }
                if pending_key(keys, k + 1, x) {
                    let j = choose|j: int| k + 1 <= j < keys.len() && #[trigger] keys[j] == x;
                    assert(k <= j < keys.len() && keys[j] == x);
                }
            }
        }
    }
    r
}

/// Whether `x` is among `keys` from index `k` on.
pub open spec fn pending_key(keys: Seq<i32>, k: int, x: i32) -> bool {
    exists|j: int| k <= j < keys.len() && #[trigger] keys[j] == x
}

/// Keys that a `BTreeMap` yields in increasing order are strictly
/// increasing integers.
pub(crate) proof fn lemma_keys_ascend(s: Seq<&i32>)
    requires
        vstd::std_specs::btree::increasing_seq(s),
    ensures
        strictly_increasing(s.unref()),
{
    broadcast use vstd::laws_cmp::group_laws_cmp;
    assert(vstd::laws_cmp::obeys_cmp::<i32>());
    assert(vstd::laws_cmp::obeys_cmp::<&i32>());
    vstd::std_specs::btree::axiom_increasing_seq_meaning(s);
    assert forall|i: int, j: int| 0 <= i < j < s.len() implies s.unref()[i] < s.unref()[j] by {
        let (a, b) = (s[i], s[j]);
        assert((&a).cmp_spec(&b) is Less);
    }
}


} // verus!
