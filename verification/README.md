# verovio_rust

Music engraving for a documented MusicXML subset (single part, one or two
staves, one voice per staff, treble/bass clefs, keys of -7 to +7 fifths,
meters over 4, eighths to wholes including dotted
values, chords, ties, also over barlines, rests, full measures), in the
shape of Verovio's toolkit, verified with Verus. Anything else is refused
with a specific error.

## Layout

- `src/` — the verified library.
  - `xml.rs`, `xml/reader.rs`: the document tree built from `quick_xml`'s
    pull events.
  - `import.rs`, `import/`: the importer's specification, the reading of a
    document tree into a score (every rejection is a specific error), and
    what every import keeps (engravable contents, unique note ids).
  - `score.rs`: the score model (durations, pitches, events, measures).
  - `engrave.rs`, `engrave/`: the engraving rules in staff units (staff
    steps, ledger lines, stems, accidentals against the key; pair beaming
    and tie links; measure columns and system breaks).
  - `layout.rs`, `layout/`: the whole engraving in exact integer units
    (hundredths of a staff space), wrapped into systems on request, with
    ties carried over barlines.
  - `timemap.rs`, `timemap/`: the onset timemap and note lookups by id.
  - `guarantees.rs`, `guarantees/`: what an engraving promises as a whole
    (system furniture, beams/flags/ties per voice, reading order, wrapped
    width, every note addressable).
  - `text.rs`, `smufl.rs`: string helpers and SMuFL code points.
- `app/` — the host-facing toolkit: pixel layouts, painting through
  agg-gui's `DrawCtx`, the Leipzig font, and `Toolkit`.
- `tests/` — tests of the library on concrete scores.

The bundled font is expected at `assets/Leipzig.ttf` (SIL OFL 1.1).
