//! The pieces of a `<note>` element that the import reads: ties, step,
//! duration, pitch; and whether a voice fills its measure.

use vstd::prelude::*;

use crate::score::{events_view, Duration, Event, Pitch};
use crate::text::{owned, str_is, trim_string};
use crate::xml::{refs_view, Element, Node};
use vstd::string::StringExecFns;
use crate::import::{
    child_text, has_tie, note_duration, notes_prefix, pitch_of, step_number, voice_span, ImportError,
    NoteState,
};

verus! {

/// Whether `element` holds a `<tie>` whose `type` is `kind`.
pub(crate) fn tie_of_kind(element: &Element, kind: &str) -> (r: bool)
    ensures
        r == has_tie(element@, kind@),
{
    let ties = element.elements("tie");
    let ghost tv = element@.elements("tie"@);
    let mut i: usize = 0;
    while i < ties.len()
        invariant
            refs_view(ties@) == tv,
            tv == element@.elements("tie"@),
            i <= ties@.len(),
            forall|j: int| 0 <= j < i ==> #[trigger] tv[j].attribute("type"@) != Some(kind@),
        decreases ties@.len() - i,
    {
        let t = ties[i];
        assert(tv[i as int] == t@);
        match t.attribute("type") {
            Some(v) => {
                if str_is(v, kind) {
                    return true;
                }
            },
            None => {},
        }
        i = i + 1;
    }
    false
}

/// The step number of a step letter.
pub(crate) fn step_of(text: &String) -> (r: Option<u8>)
    ensures
        r == step_number(text@),
{
    if str_is(text, "C") {
        Some(0)
    } else if str_is(text, "D") {
        Some(1)
    } else if str_is(text, "E") {
        Some(2)
    } else if str_is(text, "F") {
        Some(3)
    } else if str_is(text, "G") {
        Some(4)
    } else if str_is(text, "A") {
        Some(5)
    } else if str_is(text, "B") {
        Some(6)
    } else {
        None
    }
}

/// The trimmed string-value of the first child of `element` named `name`.
pub(crate) fn child_text_of(element: &Element, name: &str) -> (r: Option<String>)
    ensures
        match r {
            Some(t) => child_text(element@, name@) == Some(t@),
            None => child_text(element@, name@) is None,
        },
{
    match element.first(name) {
        Some(c) => Some(trim_string(&c.string_value())),
        None => None,
    }
}

pub(crate) proof fn lemma_nonpositive_quotient(scaled: int, d: int)
    requires
        scaled <= 0,
        d > 0,
        scaled % d == 0,
    ensures
        scaled / d <= 0,
{
    assert(scaled == d * (scaled / d)) by (nonlinear_arith)
        requires
            d > 0,
            scaled % d == 0,
    ;
    assert(scaled / d <= 0) by (nonlinear_arith)
        requires
            scaled == d * (scaled / d),
            d > 0,
            scaled <= 0,
    ;
}

/// The duration of a note written as `raw` divisions.
pub(crate) fn duration_of(raw: i32, divisions: i32) -> (r: Option<Duration>)
    requires
        divisions > 0,
    ensures
        r == note_duration(raw, divisions),
{
    let scaled: i64 = raw as i64 * 2;
    if scaled <= 0 {
        proof {
            if (scaled as int) % (divisions as int) == 0 {
                lemma_nonpositive_quotient(scaled as int, divisions as int);
            }
        }
        return None;
    }
    let s = scaled as u64;
    let d = divisions as u64;
    if s % d != 0 {
        return None;
    }
    let q = s / d;
    if q > 8 {
        return None;
    }
    Duration::from_units(q as i32)
}

/// The spelled pitch of a `<pitch>` element.
pub(crate) fn pitch_from(p: &Element) -> (r: Result<Pitch, ImportError>)
    ensures
        match pitch_of(p@) {
            Ok(x) => r == Ok::<Pitch, ImportError>(x),
            Err(e) => r matches Err(x) && x@ == e,
        },
{
    let step_text = match child_text_of(p, "step") {
        Some(t) => t,
        None => return Err(ImportError::Unsupported(owned("unreadable pitch"))),
    };
    let step = match step_of(&step_text) {
        Some(s) => s,
        None => return Err(ImportError::Unsupported(owned("unreadable pitch"))),
    };
    let octave = match p.int_child("octave") {
        Some(o) => o,
        None => return Err(ImportError::Unsupported(owned("unreadable pitch"))),
    };
    let alter = match p.first("alter") {
        None => 0,
        Some(_) => match p.int_child("alter") {
            Some(a) => a,
            None => return Err(ImportError::Unsupported(owned("alterations that are not whole semitones"))),
        },
    };
    if alter < -1 || alter > 1 {
        return Err(ImportError::Unsupported(owned("double accidentals")));
    }
    Ok(Pitch { step, alter, octave })
}

/// Whether the events of `voice` add up to `target` eighth units.
pub(crate) fn voice_fills(voice: &Vec<Event>, target: i64) -> (r: bool)
    ensures
        r == (voice_span(events_view(voice@)) == target),
{
    let ghost v = events_view(voice@);
    let mut total: i128 = 0;
    let mut i: usize = 0;
    while i < voice.len()
        invariant
            v == events_view(voice@),
            i <= v.len(),
            total == voice_span(v.subrange(0, i as int)),
            -(i as int) * 0x1_0000_0000 <= total <= (i as int) * 0x1_0000_0000,
            i <= usize::MAX,
        decreases v.len() - i,
    {
        let d = voice[i].duration;
        assert(v[i as int].duration == d);
        let base: i128 = d.base_units as i128;
        let length: i128 = if d.dotted {
            if base >= 0 {
                base + base / 2
            } else {
                base - (-base) / 2
            }
        } else {
            base
        };
        assert(v.subrange(0, i + 1).drop_last() =~= v.subrange(0, i as int));
        assert(length == d.spec_total_units());
        total = total + length;
        i = i + 1;
    }
    assert(v.subrange(0, v.len() as int) =~= v);
    total == target as i128
}

/// An error in the first `k` notes is the measure's error.
pub(crate) proof fn lemma_notes_prefix_err(
    notes: Seq<Node>,
    k: int,
    n: int,
    divisions: i32,
    staves: usize,
    st: NoteState,
)
    requires
        0 <= k <= n,
        notes_prefix(notes, k, divisions, staves, st) is Err,
    ensures
        notes_prefix(notes, n, divisions, staves, st) == notes_prefix(notes, k, divisions, staves, st),
    decreases n - k,
{
    if k < n {
        lemma_notes_prefix_err(notes, k, n - 1, divisions, staves, st);
    }
}

} // verus!
