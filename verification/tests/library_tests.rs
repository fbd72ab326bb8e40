//! Tests of the library's pieces on concrete values: the importer's
//! errors, the score model, the engraving rules, the integer layout and
//! what it promises as a whole, the timemap and the text helpers.

use verovio_rust::engrave::{accidental_glyph, glyph_width, key_signature_count, ledger_lines, rest_glyph, staff_step, stem_up};
use verovio_rust::engrave::columns::{measure_columns, system_breaks};
use verovio_rust::engrave::grouping::{tie_links, voice_groups, VoiceGroup};
use verovio_rust::layout::{
    can_engrave, engrave, fits_bounds, mark_bounds, Bounds, Engraving, Mark, Shape, Span, Stroke,
};
use verovio_rust::score::{Clef, Duration, Pitch};
use verovio_rust::smufl;
use verovio_rust::text::{numbered_id, parse_trimmed_i32, trim_string};
use verovio_rust::xml::parse_document;
use verovio_rust::{
    build_timemap, key_alteration, note_midi, parse_music_xml, signature_positions, ElementKind,
    ImportError, Score,
};

fn score_xml(attributes: &str, notes: &str) -> String {
    format!(
        r#"<?xml version="1.0"?>
<score-partwise version="4.0">
  <part-list><score-part id="P1"/></part-list>
  <part id="P1">
    <measure number="1">
      <attributes>{attributes}</attributes>{notes}
    </measure>
  </part>
</score-partwise>"#
    )
}

const PLAIN: &str = "<divisions>2</divisions><key><fifths>0</fifths></key><time><beats>4</beats><beat-type>4</beat-type></time><clef><sign>G</sign><line>2</line></clef>";

fn note(step: &str, octave: i32, duration: i32, extra: &str) -> String {
    format!(
        "<note><pitch><step>{step}</step><octave>{octave}</octave></pitch><duration>{duration}</duration>{extra}</note>"
    )
}

fn load(xml: &str) -> Score {
    parse_music_xml(xml.as_bytes()).expect("score loads")
}

fn import_error(xml: &str) -> ImportError {
    parse_music_xml(xml.as_bytes()).expect_err("score is rejected")
}

fn unsupported(xml: &str) -> String {
    match import_error(xml) {
        ImportError::Unsupported(what) => what,
        other => panic!("expected an unsupported-feature error, got {other:?}"),
    }
}

fn count(engraving: &Engraving, kind: ElementKind) -> usize {
    engraving.marks.iter().filter(|m| m.kind == kind).count()
}

fn marks_of<'a>(engraving: &'a Engraving, kind: ElementKind) -> Vec<&'a Mark> {
    engraving.marks.iter().filter(|m| m.kind == kind).collect()
}

// ---------------------------------------------------------------------
// Import
// ---------------------------------------------------------------------

#[test]
fn import_rejects_what_is_not_musicxml() {
    assert_eq!(import_error("not xml at all <"), ImportError::NotMusicXml);
    assert_eq!(import_error("<score-timewise/>"), ImportError::NotMusicXml);
    assert_eq!(import_error("<score-partwise><part-list/></score-partwise>"), ImportError::NotMusicXml);
    assert_eq!(
        import_error("<score-partwise><part id=\"P1\"></part></score-partwise>"),
        ImportError::NotMusicXml
    );
    assert_eq!(import_error("<a><b></a>"), ImportError::NotMusicXml);
}

#[test]
fn import_names_each_unsupported_feature() {
    let c4 = note("C", 4, 2, "");
    assert!(unsupported(&score_xml(PLAIN, &note("C", 4, 2, "<grace/>"))).contains("grace"));
    assert!(unsupported(&score_xml(PLAIN, &note("C", 4, 2, "<staff>3</staff>"))).contains("two staves"));
    assert!(unsupported(&score_xml("<divisions>2</divisions><staves>3</staves>", &c4)).contains("two staves"));
    assert!(unsupported(&score_xml("<divisions>2</divisions><key><fifths>8</fifths></key>", &c4)).contains("key signature"));
    assert!(unsupported(&score_xml(
        "<divisions>2</divisions><time><beats>6</beats><beat-type>8</beat-type></time>",
        &c4
    ))
    .contains("not over 4"));
    assert!(unsupported(&score_xml("<divisions>2</divisions><clef><sign>C</sign></clef>", &c4)).contains("clefs"));
    assert!(unsupported(&score_xml("<divisions>2</divisions><clef><sign>F</sign></clef>", &c4)).contains("clefs"));
    assert!(unsupported(&score_xml(PLAIN, &format!("{c4}<backup><duration>2</duration></backup>"))).contains("multiple voices"));
    assert!(unsupported(&score_xml(PLAIN, &format!("{c4}<forward><duration>2</duration></forward>"))).contains("forward"));
    assert!(unsupported(&score_xml("", &c4)).contains("divisions"));
    assert!(unsupported(&score_xml(PLAIN, "<note><pitch><step>C</step><octave>4</octave></pitch></note>")).contains("without duration"));
    assert!(unsupported(&score_xml(PLAIN, &note("C", 4, 5, ""))).contains("note values"));
    assert!(unsupported(&score_xml(PLAIN, &note("H", 4, 2, ""))).contains("unreadable pitch"));
    assert!(unsupported(&score_xml(
        PLAIN,
        "<note><pitch><step>C</step><alter>2</alter><octave>4</octave></pitch><duration>2</duration></note>"
    ))
    .contains("double accidentals"));
    assert!(unsupported(&score_xml(PLAIN, &note("C", 4, 2, "<chord/>"))).contains("chord member"));
}

#[test]
fn import_error_messages() {
    assert_eq!(ImportError::NotMusicXml.message(), "not a readable MusicXML file");
    assert_eq!(ImportError::MultipleParts.message(), "multi-part scores aren't supported");
    assert_eq!(
        ImportError::Unsupported("tuplets".to_string()).message(),
        "unsupported for now: tuplets"
    );
}

#[test]
fn import_reads_chords_rests_ties_and_titles() {
    let notes = format!(
        "{}{}<note><rest/><duration>4</duration></note>{}",
        note("C", 4, 2, "<tie type=\"start\"/>"),
        note("E", 4, 2, "<chord/><accidental>natural</accidental>"),
        note("C", 4, 2, "<tie type=\"stop\"/>"),
    );
    let xml = format!(
        r#"<score-partwise><work><work-title> Little Piece </work-title></work><part id="P1"><measure><attributes>{PLAIN}</attributes>{notes}</measure></part></score-partwise>"#
    );
    let score = load(&xml);
    assert_eq!(score.title.as_deref(), Some("Little Piece"));
    let voice = &score.measures[0].voices[0];
    assert_eq!(voice.len(), 3);
    assert_eq!(voice[0].notes.len(), 2);
    assert_eq!(voice[0].notes[0].id, "note-0");
    assert_eq!(voice[0].notes[1].id, "note-1");
    assert!(voice[0].notes[0].tie_start);
    assert!(voice[0].notes[1].explicit_accidental);
    assert!(voice[1].is_rest());
    assert_eq!(voice[1].rest_id.as_deref(), Some("rest-0"));
    assert_eq!(voice[1].onset_units, 2);
    assert_eq!(voice[1].duration, Duration { base_units: 4, dotted: false });
    assert_eq!(voice[2].onset_units, 6);
    assert!(voice[2].notes[0].tie_stop);
    assert_eq!(voice[2].notes[0].id, "note-2");
}

#[test]
fn import_takes_the_movement_title_without_a_work_title() {
    let xml = format!(
        "<score-partwise><movement-title>Etude</movement-title><part id=\"P1\"><measure><attributes>{PLAIN}</attributes>{}</measure></part></score-partwise>",
        note("G", 4, 8, "")
    );
    assert_eq!(load(&xml).title.as_deref(), Some("Etude"));
}

#[test]
fn import_keeps_key_meter_and_dotted_values() {
    let xml = score_xml(
        "<divisions>4</divisions><key><fifths>-3</fifths></key><time><beats>3</beats><beat-type>4</beat-type></time><clef><sign>G</sign></clef>",
        &format!("{}{}", note("B", 3, 6, ""), note("C", 4, 6, "")),
    );
    let score = load(&xml);
    assert_eq!(score.fifths, -3);
    assert_eq!(score.beats_per_measure, 3);
    assert_eq!(score.units_per_measure(), 6);
    let ev = &score.measures[0].voices[0][0];
    assert_eq!(ev.duration, Duration { base_units: 2, dotted: true });
    assert_eq!(ev.notes[0].pitch, Pitch { step: 6, alter: 0, octave: 3 });
}

// ---------------------------------------------------------------------
// Score model
// ---------------------------------------------------------------------

#[test]
fn durations_split_and_total() {
    for units in [1, 2, 3, 4, 6, 8] {
        let d = Duration::from_units(units).expect("subset length");
        assert_eq!(d.total_units(), units);
    }
    assert_eq!(Duration::from_units(3), Some(Duration { base_units: 2, dotted: true }));
    assert_eq!(Duration::from_units(5), None);
    assert_eq!(Duration::from_units(0), None);
    assert_eq!(Duration { base_units: 4, dotted: true }.total_units(), 6);
}

#[test]
fn pitches_number_and_place() {
    assert_eq!(Pitch { step: 0, alter: 0, octave: 4 }.midi(), 60);
    assert_eq!(Pitch { step: 3, alter: 1, octave: 4 }.midi(), 66);
    assert_eq!(Pitch { step: 6, alter: -1, octave: 3 }.midi(), 58);
    assert_eq!(Pitch { step: 0, alter: 0, octave: -5 }.midi(), 0);
    assert_eq!(Pitch { step: 6, alter: 0, octave: 20 }.midi(), 127);
    assert_eq!(Pitch { step: 2, alter: 0, octave: 4 }.diatonic_index(), 37);
    assert_eq!(Pitch { step: 0, alter: 0, octave: -1 }.diatonic_index(), 0);
}

// ---------------------------------------------------------------------
// Engraving rules
// ---------------------------------------------------------------------

#[test]
fn key_alterations_follow_the_order_of_sharps_and_flats() {
    assert_eq!(key_alteration(3, 1), 1); // F# in G major
    assert_eq!(key_alteration(0, 1), 0);
    assert_eq!(key_alteration(0, 2), 1); // C# in D major
    assert_eq!(key_alteration(6, -1), -1); // Bb in F major
    assert_eq!(key_alteration(2, -1), 0);
    assert_eq!(key_alteration(2, -2), -1);
    assert_eq!(key_alteration(4, 0), 0);
    for step in 0..7u8 {
        assert_eq!(key_alteration(step, 7), 1);
        assert_eq!(key_alteration(step, 9), 1);
        assert_eq!(key_alteration(step, -7), -1);
    }
    assert_eq!(key_alteration(7, 7), 0);
}

#[test]
fn signature_accidentals_sit_on_the_altered_letters() {
    for clef in [Clef::Treble, Clef::Bass] {
        for fifths in -7..=7i32 {
            let positions = signature_positions(clef, fifths > 0);
            let shown = key_signature_count(fifths) as usize;
            for (step, _) in positions.iter().take(shown) {
                assert_eq!(key_alteration(*step, fifths), fifths.signum());
            }
        }
    }
    assert_eq!(signature_positions(Clef::Treble, true)[0], (3, 0));
    assert_eq!(signature_positions(Clef::Bass, false)[0], (6, 6));
}

#[test]
fn glyph_choices() {
    assert_eq!(smufl::time_sig_digit(4), '\u{E084}');
    assert_eq!(smufl::time_sig_digit(0), '\u{E080}');
    assert_eq!(rest_glyph(Duration { base_units: 8, dotted: false }), (smufl::REST_WHOLE, 1));
    assert_eq!(rest_glyph(Duration { base_units: 2, dotted: true }), (smufl::REST_QUARTER, 2));
    assert_eq!(glyph_width(smufl::NOTEHEAD_BLACK), 118);
    assert_eq!(glyph_width(smufl::G_CLEF), 260);
    assert_eq!(glyph_width('a'), 180);
}

#[test]
fn staff_steps_ledger_lines_and_stems() {
    let c4 = Pitch { step: 0, alter: 0, octave: 4 };
    let a5 = Pitch { step: 5, alter: 0, octave: 5 };
    assert_eq!(staff_step(c4, Clef::Treble), -2);
    assert_eq!(staff_step(a5, Clef::Treble), 10);
    assert_eq!(staff_step(Pitch { step: 4, alter: 0, octave: 2 }, Clef::Bass), 0);
    assert_eq!(ledger_lines(-2), (0, 1));
    assert_eq!(ledger_lines(-1), (0, 0));
    assert_eq!(ledger_lines(-6), (0, 3));
    assert_eq!(ledger_lines(10), (1, 0));
    assert_eq!(ledger_lines(13), (2, 0));
    assert!(stem_up(&vec![-2]));
    assert!(!stem_up(&vec![8]));
    assert!(!stem_up(&vec![4]));
    // The note farthest from the middle line decides; the last among equals.
    assert!(!stem_up(&vec![2, 6]));
    assert!(stem_up(&vec![6, 1]));
}

#[test]
fn accidentals_against_the_key() {
    let score = load(&score_xml(
        "<divisions>2</divisions><key><fifths>1</fifths></key><clef><sign>G</sign></clef>",
        &format!(
            "{}{}{}{}",
            note("F", 4, 2, ""),
            "<note><pitch><step>F</step><alter>1</alter><octave>4</octave></pitch><duration>2</duration></note>",
            note("C", 4, 2, "<accidental>natural</accidental>"),
            note("D", 4, 2, "")
        ),
    ));
    let voice = &score.measures[0].voices[0];
    assert_eq!(accidental_glyph(&voice[0].notes[0], 1), Some(smufl::ACCIDENTAL_NATURAL));
    assert_eq!(accidental_glyph(&voice[1].notes[0], 1), None);
    assert_eq!(accidental_glyph(&voice[2].notes[0], 1), Some(smufl::ACCIDENTAL_NATURAL));
    assert_eq!(accidental_glyph(&voice[1].notes[0], 0), Some(smufl::ACCIDENTAL_SHARP));
}

#[test]
fn beaming_and_tie_links() {
    let notes = format!(
        "{}{}{}<note><rest/><duration>1</duration></note>{}{}",
        note("C", 4, 1, ""),
        note("D", 4, 1, ""),
        note("E", 4, 1, "<tie type=\"start\"/>"),
        note("E", 4, 1, "<tie type=\"stop\"/>"),
        note("G", 4, 3, ""),
    );
    let score = load(&score_xml(PLAIN, &notes));
    let voice = &score.measures[0].voices[0];
    assert_eq!(
        voice_groups(voice),
        vec![
            VoiceGroup::BeamedPair(0),
            VoiceGroup::Single(2),
            VoiceGroup::Rest(3),
            VoiceGroup::Single(4),
            VoiceGroup::Single(5),
        ]
    );
    // The tie start is not followed directly by its stop (a rest sits
    // between), so it links nothing.
    assert_eq!(tie_links(voice), vec![]);
    let tied = load(&score_xml(
        PLAIN,
        &format!("{}{}", note("E", 4, 4, "<tie type=\"start\"/>"), note("E", 4, 4, "<tie type=\"stop\"/>")),
    ));
    assert_eq!(tie_links(&tied.measures[0].voices[0]), vec![(0, 0)]);
}

#[test]
fn measure_columns_space_linearly() {
    let score = load(&score_xml(
        PLAIN,
        &format!("{}{}{}{}", note("C", 4, 2, ""), note("D", 4, 2, ""), note("E", 4, 2, ""), note("F", 4, 2, "")),
    ));
    let columns = measure_columns(&score.measures[0]);
    assert_eq!(columns.onsets, vec![0, 2, 4, 6]);
    assert_eq!(columns.offsets, vec![100, 410, 720, 1030]);
    assert_eq!(columns.right, 1030 + 140 + 170);
}

#[test]
fn system_breaks_fill_greedily() {
    assert_eq!(system_breaks(&vec![5, 5, 5], 10, 10), vec![0, 2]);
    assert_eq!(system_breaks(&vec![5, 5, 5], 4, 10), vec![0, 1]);
    assert_eq!(system_breaks(&vec![12, 3], 10, 10), vec![0, 1]);
    assert_eq!(system_breaks(&vec![], 10, 10), Vec::<usize>::new());
}

// ---------------------------------------------------------------------
// The engraving
// ---------------------------------------------------------------------

fn four_quarters() -> Score {
    load(&score_xml(
        PLAIN,
        &format!("{}{}{}{}", note("C", 4, 2, ""), note("D", 4, 2, ""), note("E", 4, 2, ""), note("F", 4, 2, "")),
    ))
}

#[test]
fn engraving_places_a_note_exactly() {
    let engraving = engrave(&four_quarters(), None);
    // Opening: clef 3.4 spaces, no key, time 2.4, a space of room.
    let head = marks_of(&engraving, ElementKind::Notehead)[0];
    assert_eq!(head.id.as_deref(), Some("note-0"));
    assert_eq!(
        head.shape,
        Shape::Glyph { ch: smufl::NOTEHEAD_BLACK, x: 780, y: 800, size: 400, shift: 0 }
    );
    // C4 takes one ledger line below the staff.
    let ledger = marks_of(&engraving, ElementKind::LedgerLine)[0];
    assert_eq!(
        ledger.shape,
        Shape::Line { x1: 745, y1: 800, x2: 933, y2: 800, shift1: 0, shift2: 0, stroke: Stroke::Ledger }
    );
    // Its stem goes up from the right edge of the head.
    let stem = marks_of(&engraving, ElementKind::Stem)[0];
    assert_eq!(
        stem.shape,
        Shape::Line { x1: 898, y1: 800, x2: 898, y2: 450, shift1: -1, shift2: -1, stroke: Stroke::Stem }
    );
    assert_eq!(engraving.width, 680 + 1340 + 40);
    assert_eq!(engraving.height, 1000);
    assert_eq!(count(&engraving, ElementKind::Barline), 2);
    assert_eq!(count(&engraving, ElementKind::StaffLine), 5);
    assert_eq!(count(&engraving, ElementKind::TimeSignature), 2);
}

fn span(centi: i128, own: i8, stem: i8) -> Span {
    Span { centi, own, stem }
}

#[test]
fn element_boxes() {
    let engraving = engrave(&four_quarters(), None);
    let head = marks_of(&engraving, ElementKind::Notehead)[0];
    assert!(fits_bounds(head.shape));
    assert_eq!(
        mark_bounds(head.kind, head.shape),
        Bounds { x: span(780, 0, 0), y: span(600, 0, 0), w: span(118, 0, 0), h: span(400, 0, 0) }
    );
    let stem = marks_of(&engraving, ElementKind::Stem)[0];
    assert_eq!(
        mark_bounds(stem.kind, stem.shape),
        Bounds { x: span(898, -1, -1), y: span(450, 0, 0), w: span(0, 2, 0), h: span(350, 0, 0) }
    );
    let line = marks_of(&engraving, ElementKind::StaffLine)[0];
    assert_eq!(
        mark_bounds(line.kind, line.shape),
        Bounds { x: span(0, 0, 0), y: span(300, -1, 0), w: span(2060, 0, 0), h: span(0, 2, 0) }
    );
    let brace = Shape::Glyph { ch: smufl::BRACE, x: 0, y: 2000, size: 1700, shift: 0 };
    assert_eq!(
        mark_bounds(ElementKind::Brace, brace),
        Bounds { x: span(0, 0, 0), y: span(300, 0, 0), w: span(100, 0, 0), h: span(1700, 0, 0) }
    );
    let tie = Shape::Tie { x1: 10, y1: 500, x2: 300, y2: 500, bulge: -90 };
    assert_eq!(
        mark_bounds(ElementKind::Tie, tie),
        Bounds { x: span(10, 0, 0), y: span(410, 0, 0), w: span(290, 0, 0), h: span(90, 0, 0) }
    );
    assert!(!fits_bounds(Shape::Tie { x1: i128::MAX, y1: 0, x2: 0, y2: 0, bulge: 0 }));
}

#[test]
fn engraving_rests_and_dots() {
    let score = load(&score_xml(
        PLAIN,
        "<note><rest/><duration>3</duration></note><note><rest/><duration>1</duration></note><note><rest/><duration>4</duration></note>",
    ));
    let engraving = engrave(&score, None);
    let rests = marks_of(&engraving, ElementKind::Rest);
    assert_eq!(rests.len(), 3);
    assert_eq!(rests[0].id.as_deref(), Some("rest-0"));
    assert_eq!(rests[1].id.as_deref(), Some("rest-1"));
    assert_eq!(rests[2].id.as_deref(), Some("rest-2"));
    let dots = marks_of(&engraving, ElementKind::Dot);
    assert_eq!(dots.len(), 1);
    assert_eq!(dots[0].id.as_deref(), Some("rest-0"));
}

#[test]
fn lone_eighths_take_flags() {
    let two_four = "<divisions>2</divisions><time><beats>2</beats><beat-type>4</beat-type></time><clef><sign>G</sign></clef>";
    let score = load(&score_xml(two_four, &format!("{}{}", note("C", 4, 1, ""), note("E", 5, 3, ""))));
    let engraving = engrave(&score, None);
    assert_eq!(count(&engraving, ElementKind::Flag), 1);
    assert_eq!(count(&engraving, ElementKind::Beam), 0);
    assert_eq!(count(&engraving, ElementKind::Stem), 2);
}

#[test]
fn wrapped_systems_carry_their_own_openings() {
    let mut measures = String::new();
    for _ in 0..6 {
        measures.push_str(&format!(
            "<measure>{}</measure>",
            note("C", 4, 8, "")
        ));
    }
    let attributes = "<divisions>2</divisions><key><fifths>2</fifths></key><time><beats>4</beats><beat-type>4</beat-type></time><clef><sign>G</sign></clef>";
    let xml = format!(
        "<score-partwise><part id=\"P1\"><measure><attributes>{attributes}</attributes>{}</measure>{measures}</part></score-partwise>",
        note("C", 4, 8, "")
    );
    let score = load(&xml);
    let room: i64 = 2500;
    let engraving = engrave(&score, Some(room));
    let systems = count(&engraving, ElementKind::Clef);
    assert!(systems > 1);
    assert!(engraving.width <= room as i128);
    assert_eq!(engraving.height, systems as i128 * 1000);
    assert_eq!(count(&engraving, ElementKind::KeySignature), 2 * systems);
    assert_eq!(count(&engraving, ElementKind::TimeSignature), 2);
    assert_eq!(count(&engraving, ElementKind::Notehead), 7);
    assert_eq!(count(&engraving, ElementKind::StaffLine), 5 * systems);
}

#[test]
fn engravability_is_checked() {
    let score = four_quarters();
    assert!(can_engrave(&score));
    let mut bad_key = score.clone();
    bad_key.fifths = i32::MIN;
    assert!(!can_engrave(&bad_key));
    let mut odd_step = score.clone();
    odd_step.measures[0].voices[0][0].notes[0].pitch.step = 9;
    assert!(can_engrave(&odd_step));
    let mut tied_odd_step = odd_step.clone();
    tied_odd_step.measures[0].voices[0][0].notes[0].tie_start = true;
    tied_odd_step.measures[0].voices[0][1].notes[0].tie_stop = true;
    assert!(!can_engrave(&tied_odd_step));
}

// ---------------------------------------------------------------------
// Timemap and lookups
// ---------------------------------------------------------------------

#[test]
fn timemap_skips_rests_and_merges_staves() {
    let xml = format!(
        r#"<score-partwise><part id="P1"><measure><attributes><divisions>2</divisions><time><beats>2</beats><beat-type>4</beat-type></time><staves>2</staves><clef><sign>G</sign></clef><clef><sign>F</sign></clef></attributes>{}<note><rest/><duration>2</duration></note><backup><duration>4</duration></backup>{}{}</measure></part></score-partwise>"#,
        note("C", 5, 2, "<staff>1</staff>"),
        note("C", 3, 2, "<staff>2</staff>"),
        note("G", 3, 2, "<staff>2</staff>"),
    );
    let score = load(&xml);
    let timemap = build_timemap(&score);
    assert_eq!(timemap.len(), 2);
    assert_eq!(timemap[0].onset_units, 0);
    assert_eq!(timemap[0].note_ids, ["note-0", "note-1"]);
    assert_eq!(timemap[1].onset_units, 2);
    assert_eq!(timemap[1].note_ids, ["note-2"]);
    assert_eq!(note_midi(&score, "note-2"), Some(55));
    assert_eq!(note_midi(&score, "rest-0"), None);
}

// ---------------------------------------------------------------------
// Text and the document tree
// ---------------------------------------------------------------------

#[test]
fn integers_parse_like_rust() {
    assert_eq!(parse_trimmed_i32(&" 42\n".to_string()), Some(42));
    assert_eq!(parse_trimmed_i32(&"+7".to_string()), Some(7));
    assert_eq!(parse_trimmed_i32(&"-2147483648".to_string()), Some(i32::MIN));
    assert_eq!(parse_trimmed_i32(&"2147483648".to_string()), None);
    assert_eq!(parse_trimmed_i32(&"-".to_string()), None);
    assert_eq!(parse_trimmed_i32(&"4 4".to_string()), None);
    assert_eq!(parse_trimmed_i32(&"".to_string()), None);
}

#[test]
fn ids_and_trimming() {
    assert_eq!(numbered_id("note-", 0), "note-0");
    assert_eq!(numbered_id("rest-", 1207), "rest-1207");
    assert_eq!(trim_string(&"\t a b \n".to_string()), "a b");
}

#[test]
fn documents_parse_into_trees() {
    let doc = parse_document(b"<?xml version=\"1.0\"?><a x=\"1\" y='two'>t&lt;1&gt;<b>in</b><!-- c --><b/>end</a>")
        .expect("well-formed");
    assert_eq!(doc.name, "a");
    assert_eq!(doc.attribute("y").map(|s| s.as_str()), Some("two"));
    assert_eq!(doc.attribute("z"), None);
    assert_eq!(doc.elements("b").len(), 2);
    assert_eq!(doc.first("b").map(|b| b.string_value()), Some("in".to_string()));
    assert_eq!(doc.string_value(), "t<1>endin");
    assert!(parse_document(b"<a><b></a>").is_none());
    assert!(parse_document(b"").is_none());
    let n = parse_document(b"<n><v> 12 </v></n>").unwrap();
    assert_eq!(n.int_child("v"), Some(12));
    assert_eq!(n.int_child("w"), None);
}

#[test]
fn imported_ids_count_up_without_repeats() {
    let xml = format!(
        r#"<score-partwise><part id="P1"><measure><attributes><divisions>2</divisions><staves>2</staves><clef><sign>G</sign></clef><clef><sign>F</sign></clef></attributes>{}{}<backup><duration>8</duration></backup>{}</measure><measure>{}<backup><duration>8</duration></backup>{}</measure></part></score-partwise>"#,
        note("C", 5, 8, "<staff>1</staff>"),
        note("E", 5, 8, "<chord/><staff>1</staff>"),
        note("C", 3, 8, "<staff>2</staff>"),
        note("D", 5, 8, "<staff>1</staff>"),
        note("D", 3, 8, "<staff>2</staff>"),
    );
    let score = load(&xml);
    let mut ids: Vec<String> = score
        .measures
        .iter()
        .flat_map(|m| m.voices.iter())
        .flat_map(|v| v.iter())
        .flat_map(|e| e.notes.iter().map(|n| n.id.clone()))
        .collect();
    assert_eq!(ids.len(), 5);
    ids.sort();
    assert_eq!(ids, ["note-0", "note-1", "note-2", "note-3", "note-4"]);
    assert!(can_engrave(&score));
}

#[test]
fn every_note_of_a_wrapped_score_has_its_head() {
    let mut measures = String::new();
    for k in 0..9 {
        let attributes = if k == 0 { format!("<attributes>{PLAIN}</attributes>") } else { String::new() };
        measures.push_str(&format!(
            "<measure>{attributes}{}{}{}{}</measure>",
            note("C", 4, 2, ""),
            note("E", 4, 2, "<chord/>"),
            note("G", 4, 2, ""),
            note("B", 4, 4, "")
        ));
    }
    let xml = format!(
        "<score-partwise><part id=\"P1\">{measures}</part></score-partwise>"
    );
    let score = load(&xml);
    let engraving = engrave(&score, Some(3000));
    assert!(count(&engraving, ElementKind::Clef) > 2);
    assert!(engraving.width <= 3000);
    for timemap_entry in build_timemap(&score) {
        for id in timemap_entry.note_ids {
            let heads = engraving
                .marks
                .iter()
                .filter(|m| m.kind == ElementKind::Notehead && m.id.as_deref() == Some(id.as_str()))
                .count();
            assert_eq!(heads, 1, "{id} has one head");
        }
    }
    assert_eq!(count(&engraving, ElementKind::Notehead), 36);
}
