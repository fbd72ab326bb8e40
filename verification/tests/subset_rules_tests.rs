//! What the import refuses so that nothing is mis-engraved, ties over
//! barlines, and the single-digit meter the engraving draws.

use verovio_rust::layout::{can_engrave, engrave, Engraving, Shape};
use verovio_rust::score::{Duration, Event, Measure, Note, Pitch};
use verovio_rust::{parse_music_xml, ElementKind, ImportError, Score};

fn one_measure(attributes: &str, notes: &str) -> String {
    measures(attributes, &[notes])
}

fn measures(attributes: &str, bodies: &[&str]) -> String {
    let mut all = String::new();
    for (k, body) in bodies.iter().enumerate() {
        let head = if k == 0 { format!("<attributes>{attributes}</attributes>") } else { String::new() };
        all.push_str(&format!("<measure number=\"{}\">{head}{body}</measure>", k + 1));
    }
    format!(
        "<?xml version=\"1.0\"?><score-partwise version=\"4.0\"><part-list><score-part id=\"P1\"/></part-list><part id=\"P1\">{all}</part></score-partwise>"
    )
}

const PLAIN: &str = "<divisions>2</divisions><key><fifths>0</fifths></key><time><beats>4</beats><beat-type>4</beat-type></time><clef><sign>G</sign><line>2</line></clef>";

fn note(step: &str, octave: i32, duration: i32, extra: &str) -> String {
    format!("<note><pitch><step>{step}</step><octave>{octave}</octave></pitch><duration>{duration}</duration>{extra}</note>")
}

fn whole_c4() -> String {
    note("C", 4, 8, "")
}

fn unsupported(xml: &str) -> String {
    match parse_music_xml(xml.as_bytes()) {
        Err(ImportError::Unsupported(what)) => what,
        other => panic!("expected an unsupported-feature error, got {other:?}"),
    }
}

#[test]
fn second_staff_note_on_one_staff_score_is_refused() {
    let xml = one_measure(PLAIN, &format!("{}{}", whole_c4(), note("C", 3, 8, "<staff>2</staff>")));
    assert_eq!(unsupported(&xml), "notes on a second staff of a one-staff score");
}

#[test]
fn partial_measure_is_refused() {
    let xml = one_measure(PLAIN, &note("C", 4, 2, ""));
    assert_eq!(unsupported(&xml), "measures that do not fill the meter");
    let empty = one_measure(PLAIN, "");
    assert_eq!(unsupported(&empty), "measures that do not fill the meter");
}

#[test]
fn overfull_measure_is_refused() {
    let xml = one_measure(PLAIN, &format!("{}{}", whole_c4(), note("D", 4, 2, "")));
    assert_eq!(unsupported(&xml), "measures that do not fill the meter");
}

#[test]
fn grand_staff_lower_voice_must_fill_too() {
    let attributes = "<divisions>2</divisions><time><beats>4</beats><beat-type>4</beat-type></time><staves>2</staves><clef number=\"1\"><sign>G</sign></clef><clef number=\"2\"><sign>F</sign></clef>";
    let short = one_measure(attributes, &format!("{}<backup><duration>8</duration></backup>{}", whole_c4(), note("C", 3, 4, "<staff>2</staff>")));
    assert_eq!(unsupported(&short), "measures that do not fill the meter");
    let full = one_measure(attributes, &format!("{}<backup><duration>8</duration></backup>{}", whole_c4(), note("C", 3, 8, "<staff>2</staff>")));
    let score = parse_music_xml(full.as_bytes()).expect("both voices fill the meter");
    assert_eq!(score.measures[0].voices[1].len(), 1);
}

#[test]
fn chords_fill_by_their_events() {
    let xml = one_measure(PLAIN, &format!("{}{}", note("C", 4, 8, ""), note("E", 4, 8, "<chord/>")));
    let score = parse_music_xml(xml.as_bytes()).expect("a whole-note chord fills 4/4");
    assert_eq!(score.measures[0].voices[0][0].notes.len(), 2);
}

#[test]
fn fractional_alter_is_refused() {
    let xml = one_measure(PLAIN, "<note><pitch><step>C</step><alter>0.5</alter><octave>4</octave></pitch><duration>8</duration></note>");
    assert_eq!(unsupported(&xml), "alterations that are not whole semitones");
    let sharp = one_measure(PLAIN, "<note><pitch><step>C</step><alter>1</alter><octave>4</octave></pitch><duration>8</duration></note>");
    assert_eq!(parse_music_xml(sharp.as_bytes()).unwrap().measures[0].voices[0][0].notes[0].pitch.alter, 1);
}

#[test]
fn twelve_beat_meter_imports_and_meterless_one_is_refused() {
    let attributes = "<divisions>2</divisions><time><beats>12</beats><beat-type>4</beat-type></time><clef><sign>G</sign></clef>";
    let xml = one_measure(attributes, &format!("{}{}{}", whole_c4(), whole_c4(), whole_c4()));
    let score = parse_music_xml(xml.as_bytes()).expect("three wholes fill 12/4");
    assert_eq!(score.beats_per_measure, 12);
    let zero = one_measure("<divisions>2</divisions><time><beats>0</beats><beat-type>4</beat-type></time>", "");
    assert_eq!(unsupported(&zero), "meters without beats");
}

#[test]
fn staff_test_comes_after_the_other_note_tests() {
    let no_duration = one_measure(PLAIN, "<note><pitch><step>C</step><octave>3</octave></pitch><staff>2</staff></note>");
    assert_eq!(unsupported(&no_duration), "notes without duration");
    let odd_value = one_measure(PLAIN, &note("C", 3, 5, "<staff>2</staff>"));
    assert_eq!(unsupported(&odd_value), "note values outside eighth\u{2013}whole");
    let no_pitch = one_measure(PLAIN, "<note><duration>8</duration><staff>2</staff></note>");
    assert_eq!(unsupported(&no_pitch), "unreadable pitch");
    let chord = one_measure(PLAIN, &format!("{}{}", whole_c4(), note("E", 3, 8, "<chord/><staff>2</staff>")));
    assert_eq!(unsupported(&chord), "chord member without anchor");
    let rest = one_measure(PLAIN, &format!("{}<note><rest/><duration>8</duration><staff>2</staff></note>", whole_c4()));
    assert_eq!(unsupported(&rest), "notes on a second staff of a one-staff score");
}

#[test]
fn changes_between_measures_are_refused() {
    let c = whole_c4();
    let meter = measures(PLAIN, &[&c, &format!("<attributes><time><beats>3</beats><beat-type>4</beat-type></time></attributes>{}", note("C", 4, 6, ""))]);
    assert_eq!(unsupported(&meter), "meter changes");
    let key = measures(PLAIN, &[&c, &format!("<attributes><key><fifths>2</fifths></key></attributes>{c}")]);
    assert_eq!(unsupported(&key), "key changes");
    let staves = measures(PLAIN, &[&c, &format!("<attributes><staves>2</staves></attributes>{c}")]);
    assert_eq!(unsupported(&staves), "changes of staff count");
    let same = measures(PLAIN, &[&c, &format!("<attributes><key><fifths>0</fifths></key><time><beats>4</beats><beat-type>4</beat-type></time></attributes>{c}")]);
    assert_eq!(parse_music_xml(same.as_bytes()).unwrap().measures.len(), 2);
}

fn quarter(step: u8, octave: i32, onset: i32, id: &str, tie_start: bool, tie_stop: bool) -> Event {
    Event {
        onset_units: onset,
        duration: Duration { base_units: 2, dotted: false },
        notes: vec![Note { pitch: Pitch { step, alter: 0, octave }, id: id.to_string(), tie_start, tie_stop, explicit_accidental: false }],
        rest_id: None,
    }
}

fn tied_over(step_after: u8) -> Score {
    let first = vec![
        quarter(0, 4, 0, "note-0", false, false),
        quarter(1, 4, 2, "note-1", false, false),
        quarter(2, 4, 4, "note-2", false, false),
        quarter(4, 4, 6, "note-3", true, false),
    ];
    let second = vec![
        quarter(step_after, 4, 8, "note-4", false, true),
        quarter(2, 4, 10, "note-5", false, false),
        quarter(1, 4, 12, "note-6", false, false),
        quarter(0, 4, 14, "note-7", false, false),
    ];
    Score {
        staves: 1,
        fifths: 0,
        beats_per_measure: 4,
        measures: vec![Measure { voices: [first, Vec::new()] }, Measure { voices: [second, Vec::new()] }],
        title: None,
    }
}

fn ties(engraving: &Engraving) -> Vec<(Option<String>, i128, i128)> {
    engraving
        .marks
        .iter()
        .filter(|m| m.kind == ElementKind::Tie)
        .map(|m| match m.shape {
            Shape::Tie { x1, x2, .. } => (m.id.clone(), x1, x2),
            _ => panic!("a tie mark has a tie shape"),
        })
        .collect()
}

fn head_x(engraving: &Engraving, id: &str) -> i128 {
    let head = engraving
        .marks
        .iter()
        .find(|m| m.kind == ElementKind::Notehead && m.id.as_deref() == Some(id))
        .expect("the note has a head");
    match head.shape {
        Shape::Glyph { x, .. } => x,
        _ => panic!("a notehead is a glyph"),
    }
}

#[test]
fn tie_over_a_barline_reaches_the_next_measure() {
    let score = tied_over(4);
    assert!(can_engrave(&score));
    let engraving = engrave(&score, None);
    let found = ties(&engraving);
    assert_eq!(found.len(), 1);
    let (id, x1, x2) = found[0].clone();
    assert_eq!(id.as_deref(), Some("note-3"));
    assert_eq!(x1, head_x(&engraving, "note-3") + 118 + 15);
    assert_eq!(x2, head_x(&engraving, "note-4") - 15);
}

#[test]
fn tie_to_another_pitch_over_a_barline_draws_nothing() {
    let engraving = engrave(&tied_over(5), None);
    assert!(ties(&engraving).is_empty());
}

#[test]
fn tie_over_a_system_break_ends_at_the_barline() {
    let score = tied_over(4);
    let engraving = engrave(&score, Some(1400));
    let found = ties(&engraving);
    assert_eq!(found.len(), 1);
    let barlines: Vec<i128> = engraving
        .marks
        .iter()
        .filter(|m| m.kind == ElementKind::Barline)
        .map(|m| match m.shape {
            Shape::Line { x1, .. } => x1,
            _ => panic!("a barline is a line"),
        })
        .collect();
    // The tie ends at the closing barline of the first measure, on the
    // first system, which the second measure does not share.
    assert_eq!(engraving.height, 2 * engrave(&score, None).height);
    assert!(barlines.contains(&found[0].2));
    assert!(found[0].2 > found[0].1);
}

#[test]
fn imported_tie_over_a_barline_is_drawn() {
    let c = note("C", 4, 6, "");
    let first = format!("{c}{}", note("G", 4, 2, "<tie type=\"start\"/>"));
    let second = format!("{}{}", note("G", 4, 2, "<tie type=\"stop\"/>"), note("C", 4, 6, ""));
    let xml = measures(PLAIN, &[&first, &second]);
    let score = parse_music_xml(xml.as_bytes()).expect("two full measures");
    let engraving = engrave(&score, None);
    let found = ties(&engraving);
    assert_eq!(found.len(), 1);
    assert_eq!(found[0].0.as_deref(), Some("note-1"));
}

#[test]
fn every_meter_engraves_its_numerator_digits() {
    let score = Score {
        staves: 1,
        fifths: 0,
        beats_per_measure: 12,
        measures: vec![Measure { voices: [Vec::new(), Vec::new()] }],
        title: None,
    };
    assert!(can_engrave(&score));
    let engraving = engrave(&score, None);
    let digits: Vec<(char, i128, i128)> = engraving
        .marks
        .iter()
        .filter(|m| m.kind == ElementKind::TimeSignature)
        .map(|m| match m.shape {
            Shape::Glyph { ch, x, y, .. } => (ch, x, y),
            _ => panic!("a time signature digit is a glyph"),
        })
        .collect();
    let x = digits[0].1;
    assert_eq!(
        digits,
        vec![('\u{E081}', x, 400), ('\u{E082}', x + 180, 400), ('\u{E084}', x + 90, 600)]
    );
    let mut nine = score.clone();
    nine.beats_per_measure = 9;
    let single = engrave(&nine, None);
    // The second digit widens the opening by 1.8 spaces.
    assert_eq!(engraving.width, single.width + 180);
}

#[test]
fn unspelled_steps_engrave_unless_a_tie_compares_them() {
    let mut score = tied_over(4);
    score.measures[0].voices[0][0].notes[0].pitch.step = 9;
    assert!(can_engrave(&score));
    let engraving = engrave(&score, None);
    assert!(engraving.marks.iter().any(|m| m.kind == ElementKind::Notehead && m.id.as_deref() == Some("note-0")));
    let mut tied = tied_over(4);
    tied.measures[1].voices[0][0].notes[0].pitch.step = 9;
    assert!(!can_engrave(&tied));
}
