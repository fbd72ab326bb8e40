//! Acceptance tests for the subset: import validation, element ids and the
//! timemap, and the engraving's geometry and element counts.

use verovio_rust::layout::{engrave, Engraving, Mark, Shape};
use verovio_rust::{build_timemap, note_midi, parse_music_xml, ElementKind, ImportError, Score};

fn simple_xml(notes: &str) -> String {
    format!(
        r#"<?xml version="1.0" encoding="UTF-8"?>
<score-partwise version="4.0">
  <part-list><score-part id="P1"><part-name>Piano</part-name></score-part></part-list>
  <part id="P1">
    <measure number="1">
      <attributes>
        <divisions>2</divisions>
        <key><fifths>0</fifths></key>
        <time><beats>4</beats><beat-type>4</beat-type></time>
        <clef><sign>G</sign><line>2</line></clef>
      </attributes>{notes}
    </measure>
  </part>
</score-partwise>"#
    )
}

const FOUR_QUARTERS: &str = r#"
      <note><pitch><step>C</step><octave>4</octave></pitch><duration>2</duration><type>quarter</type></note>
      <note><pitch><step>D</step><octave>4</octave></pitch><duration>2</duration><type>quarter</type></note>
      <note><pitch><step>E</step><octave>4</octave></pitch><duration>2</duration><type>quarter</type></note>
      <note><pitch><step>F</step><octave>4</octave></pitch><duration>2</duration><type>quarter</type></note>"#;

/// The default pixel scale of a layout: staff space 10 px, margin 24 px.
const STAFF_SPACE: f64 = 10.0;
const MARGIN: f64 = 24.0;

fn load(xml: &str) -> Score {
    parse_music_xml(xml.as_bytes()).expect("subset score loads")
}

fn count(engraving: &Engraving, kind: ElementKind) -> usize {
    engraving.marks.iter().filter(|m| m.kind == kind).count()
}

fn px(centi: i128) -> f64 {
    MARGIN + centi as f64 * STAFF_SPACE / 100.0
}

/// The notehead of `id`: its x and y in pixels and its glyph.
fn notehead(engraving: &Engraving, id: &str) -> Option<(f64, f64, char)> {
    engraving.marks.iter().find_map(|m: &Mark| match (&m.kind, &m.id, &m.shape) {
        (ElementKind::Notehead, Some(mid), Shape::Glyph { ch, x, y, .. }) if mid == id => {
            Some((px(*x), px(*y), *ch))
        }
        _ => None,
    })
}

#[test]
fn loads_the_subset() {
    let score = load(&simple_xml(FOUR_QUARTERS));
    assert_eq!(score.measures.len(), 1);
    assert_eq!(score.measures[0].voices[0].len(), 4);
    assert_eq!(score.staves, 1);
}

#[test]
fn rejects_multiple_parts() {
    let xml = r#"<?xml version="1.0"?>
<score-partwise><part-list/><part id="P1"><measure number="1"/></part><part id="P2"><measure number="1"/></part></score-partwise>"#;
    assert_eq!(parse_music_xml(xml.as_bytes()), Err(ImportError::MultipleParts));
}

#[test]
fn rejects_tuplets_specifically() {
    let xml = simple_xml(
        r#"
      <note><pitch><step>C</step><octave>4</octave></pitch><duration>2</duration>
        <time-modification><actual-notes>3</actual-notes><normal-notes>2</normal-notes></time-modification>
      </note>"#,
    );
    match parse_music_xml(xml.as_bytes()) {
        Err(ImportError::Unsupported(what)) => assert!(what.contains("tuplet"), "{what}"),
        other => panic!("expected tuplet rejection, got {other:?}"),
    }
}

#[test]
fn note_ids_are_stable_document_order() {
    let score = load(&simple_xml(FOUR_QUARTERS));
    let timemap = build_timemap(&score);
    let ids: Vec<&str> = timemap
        .iter()
        .flat_map(|m| m.note_ids.iter().map(|s| s.as_str()))
        .collect();
    assert_eq!(ids, ["note-0", "note-1", "note-2", "note-3"]);
    assert_eq!(
        timemap.iter().map(|m| m.onset_units).collect::<Vec<_>>(),
        [0, 2, 4, 6]
    );
}

#[test]
fn note_midi_reports_the_encoded_pitch() {
    let score = load(&simple_xml(FOUR_QUARTERS));
    assert_eq!(note_midi(&score, "note-0"), Some(60));
    assert_eq!(note_midi(&score, "note-3"), Some(65));
    assert_eq!(note_midi(&score, "note-99"), None);
}

#[test]
fn noteheads_have_queryable_bounds_in_reading_order() {
    let score = load(&simple_xml(FOUR_QUARTERS));
    let engraving = engrave(&score, None);
    let mut last_x = f64::NEG_INFINITY;
    for id in ["note-0", "note-1", "note-2", "note-3"] {
        let (x, _y, ch) = notehead(&engraving, id).expect("note bounds exist");
        assert!(x > last_x, "{id} advances rightward");
        let w = verovio_rust::engrave::glyph_width(ch) as f64 * STAFF_SPACE / 100.0;
        let h = 4.0 * STAFF_SPACE;
        assert!(w > 0.0 && h > 0.0);
        last_x = x;
    }
    // C4 sits below D4 on the staff (y-down layout space: larger y).
    let c4 = notehead(&engraving, "note-0").unwrap();
    let d4 = notehead(&engraving, "note-1").unwrap();
    assert!(c4.1 > d4.1, "C4 renders lower than D4");
}

#[test]
fn grand_staff_gets_brace_and_two_staves() {
    let xml = r#"<?xml version="1.0"?>
<score-partwise version="4.0">
  <part-list><score-part id="P1"/></part-list>
  <part id="P1">
    <measure number="1">
      <attributes>
        <divisions>2</divisions>
        <key><fifths>0</fifths></key>
        <time><beats>4</beats><beat-type>4</beat-type></time>
        <staves>2</staves>
        <clef number="1"><sign>G</sign><line>2</line></clef>
        <clef number="2"><sign>F</sign><line>4</line></clef>
      </attributes>
      <note><pitch><step>C</step><octave>5</octave></pitch><duration>8</duration><type>whole</type><staff>1</staff></note>
      <backup><duration>8</duration></backup>
      <note><pitch><step>C</step><octave>3</octave></pitch><duration>8</duration><type>whole</type><staff>2</staff></note>
    </measure>
  </part>
</score-partwise>"#;
    let score = load(xml);
    let engraving = engrave(&score, None);
    assert_eq!(count(&engraving, ElementKind::Brace), 1);
    assert_eq!(count(&engraving, ElementKind::StaffLine), 10, "two five-line staves");
    // Grand-staff timemap merges the simultaneous onsets treble-first.
    let timemap = build_timemap(&score);
    assert_eq!(timemap.len(), 1);
    assert_eq!(timemap[0].note_ids, ["note-0", "note-1"]);
}

#[test]
fn eighth_pairs_beam_and_lone_eighths_flag() {
    let xml = simple_xml(
        r#"
      <note><pitch><step>C</step><octave>4</octave></pitch><duration>1</duration><type>eighth</type></note>
      <note><pitch><step>D</step><octave>4</octave></pitch><duration>1</duration><type>eighth</type></note>
      <note><pitch><step>E</step><octave>4</octave></pitch><duration>2</duration><type>quarter</type></note>
      <note><pitch><step>F</step><octave>4</octave></pitch><duration>4</duration><type>half</type></note>"#,
    );
    let engraving = engrave(&load(&xml), None);
    assert_eq!(count(&engraving, ElementKind::Beam), 1, "the adjacent eighth pair beams");
    assert_eq!(count(&engraving, ElementKind::Flag), 0, "beamed eighths carry no flags");
}

#[test]
fn ties_link_and_suppress_new_onsets() {
    let xml = simple_xml(
        r#"
      <note><pitch><step>G</step><octave>4</octave></pitch><duration>4</duration><tie type="start"/><type>half</type></note>
      <note><pitch><step>G</step><octave>4</octave></pitch><duration>4</duration><tie type="stop"/><type>half</type></note>"#,
    );
    let score = load(&xml);
    let engraving = engrave(&score, None);
    assert_eq!(count(&engraving, ElementKind::Tie), 1);
    // The tied continuation is not a new onset.
    let timemap = build_timemap(&score);
    assert_eq!(timemap.len(), 1);
    assert_eq!(timemap[0].note_ids, ["note-0"]);
}

#[test]
fn key_signature_engraves_and_suppresses_in_key_accidentals() {
    // F#4 in G major (fifths=1): the signature shows the sharp; the note
    // itself carries no accidental glyph.
    let xml = r#"<?xml version="1.0"?>
<score-partwise version="4.0">
  <part-list><score-part id="P1"/></part-list>
  <part id="P1">
    <measure number="1">
      <attributes>
        <divisions>2</divisions>
        <key><fifths>1</fifths></key>
        <time><beats>4</beats><beat-type>4</beat-type></time>
        <clef><sign>G</sign><line>2</line></clef>
      </attributes>
      <note><pitch><step>F</step><alter>1</alter><octave>4</octave></pitch><duration>8</duration><type>whole</type></note>
    </measure>
  </part>
</score-partwise>"#;
    let engraving = engrave(&load(xml), None);
    assert_eq!(
        count(&engraving, ElementKind::KeySignature),
        1,
        "one sharp in the G-major signature"
    );
    assert_eq!(
        count(&engraving, ElementKind::Accidental),
        0,
        "in-key F# needs no accidental glyph"
    );
}

/// Build a many-measure single-voice score (`count` measures of four
/// quarters each).
fn long_xml(count: usize) -> String {
    let mut measures = String::new();
    for number in 1..=count {
        let attributes = if number == 1 {
            r#"<attributes>
        <divisions>2</divisions>
        <key><fifths>0</fifths></key>
        <time><beats>4</beats><beat-type>4</beat-type></time>
        <clef><sign>G</sign><line>2</line></clef>
      </attributes>"#
        } else {
            ""
        };
        measures.push_str(&format!(
            r#"<measure number="{number}">{attributes}
      <note><pitch><step>C</step><octave>4</octave></pitch><duration>2</duration><type>quarter</type></note>
      <note><pitch><step>D</step><octave>4</octave></pitch><duration>2</duration><type>quarter</type></note>
      <note><pitch><step>E</step><octave>4</octave></pitch><duration>2</duration><type>quarter</type></note>
      <note><pitch><step>F</step><octave>4</octave></pitch><duration>2</duration><type>quarter</type></note>
    </measure>"#
        ));
    }
    format!(
        r#"<?xml version="1.0" encoding="UTF-8"?>
<score-partwise version="4.0">
  <part-list><score-part id="P1"><part-name>Piano</part-name></score-part></part-list>
  <part id="P1">{measures}</part>
</score-partwise>"#
    )
}

/// The room a system of `width` pixels leaves, in centi-spaces.
fn room_for(width: f64) -> i64 {
    ((width - 2.0 * MARGIN) * 100.0 / STAFF_SPACE).floor() as i64
}

/// `system_width` wraps measures into rows: the layout stays inside the
/// width, grows in height, keeps every note addressable, and puts later
/// measures on lower systems.
#[test]
fn system_width_wraps_long_scores_into_rows() {
    let score = load(&long_xml(12));

    let single = engrave(&score, None);
    let single_height = 2.0 * MARGIN + single.height as f64 * STAFF_SPACE / 100.0;
    let single_width = 2.0 * MARGIN + single.width as f64 * STAFF_SPACE / 100.0;
    assert!(single_width > 800.0, "12 measures overflow one system");

    let layout = engrave(&score, Some(room_for(800.0)));
    let width = 2.0 * MARGIN + layout.width as f64 * STAFF_SPACE / 100.0;
    let height = 2.0 * MARGIN + layout.height as f64 * STAFF_SPACE / 100.0;
    assert!(width <= 800.0, "wrapped width {width} stays inside the system width");
    assert!(
        height > single_height * 2.0,
        "wrapping stacks systems ({height} vs single {single_height})"
    );

    // Every note keeps queryable bounds, and the last measure's notes sit
    // on a lower system than the first measure's.
    let ids: Vec<String> = build_timemap(&score)
        .iter()
        .flat_map(|m| m.note_ids.clone())
        .collect();
    assert_eq!(ids.len(), 48);
    let first = notehead(&layout, &ids[0]).unwrap();
    let last = notehead(&layout, ids.last().unwrap()).unwrap();
    assert!(
        last.1 > first.1 + 100.0,
        "later measures wrap to lower rows ({} vs {})",
        last.1,
        first.1
    );

    // Clefs repeat on every system; the time signature only opens the first.
    assert!(count(&layout, ElementKind::Clef) > 1, "clef repeats per system");
    assert_eq!(
        count(&layout, ElementKind::TimeSignature),
        2,
        "time signature (two digits) only on system 1"
    );
}

/// Without a room limit the engraving is the single endless system.
#[test]
fn no_system_width_keeps_one_system() {
    let score = load(&long_xml(12));
    let layout = engrave(&score, None);
    assert_eq!(count(&layout, ElementKind::Clef), 1, "single system, single clef");
}
