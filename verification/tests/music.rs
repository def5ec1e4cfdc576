use simple_chords::music::{Chord, Note, NoteChange, ThirdInterval};

fn parse(w: &str) -> Option<Chord> {
    Chord::from_string(&w.to_string())
}

#[test]
fn chord_g7_is_minor_g_seventh() {
    let c = parse("g7").expect("g7 parses");
    assert_eq!(c.base_note, Note::G);
    assert_eq!(c.third_interval, ThirdInterval::Minor);
    assert_eq!(c.change, Some(NoteChange::Seven));
    assert_eq!(c.render(), "g7");
}

#[test]
fn uppercase_first_letter_is_major() {
    let c = parse("G").expect("G parses");
    assert_eq!(c.third_interval, ThirdInterval::Major);
    assert_eq!(c.change, None);
    assert_eq!(c.render(), "G");
}

#[test]
fn note_aliases_b_and_h_name_the_same_class() {
    assert_eq!(Note::from_string(&"B".to_string()), Some(Note::B));
    assert_eq!(Note::from_string(&"H".to_string()), Some(Note::B));
    assert_eq!(Note::from_string(&"h".to_string()), Some(Note::B));
}

#[test]
fn note_lookup_is_case_insensitive() {
    assert_eq!(Note::from_string(&"a#".to_string()), Some(Note::Bb));
    assert_eq!(Note::from_string(&"c".to_string()), Some(Note::C));
    assert_eq!(Note::from_string(&"f#".to_string()), Some(Note::Gb));
}

#[test]
fn note_lookup_rejects_unknown_spellings() {
    assert_eq!(Note::from_string(&"X".to_string()), None);
    assert_eq!(Note::from_string(&"Gis".to_string()), None);
    assert_eq!(Note::from_string(&"".to_string()), None);
    assert_eq!(Note::from_string(&"A##".to_string()), None);
}

#[test]
fn b_canonicalizes_to_h() {
    let c = parse("B").expect("B parses");
    assert_eq!(c.base_note, Note::B);
    assert_eq!(c.render(), "H");
}

#[test]
fn sharp_spellings_render_canonically() {
    assert_eq!(parse("A#").expect("A# parses").render(), "A#");
    assert_eq!(parse("a#7").expect("a#7 parses").render(), "a#7");
}

#[test]
fn diminished_suffix_is_underscore_dim() {
    let c = parse("G_dim").expect("G_dim parses");
    assert_eq!(c.base_note, Note::G);
    assert_eq!(c.change, Some(NoteChange::Dimished));
    assert_eq!(c.render(), "GDim");
}

#[test]
fn rendered_diminished_text_does_not_reparse() {
    assert_eq!(parse("GDim"), None);
}

#[test]
fn chord_parse_rejects_bare_suffixes_and_empty_words() {
    assert_eq!(parse(""), None);
    assert_eq!(parse("7"), None);
    assert_eq!(parse("_dim"), None);
    assert_eq!(parse("Xyz"), None);
}

#[test]
fn chord_round_trip_is_idempotent() {
    for w in ["G", "g", "A#7", "h7", "F#", "e", "B", "c#", "D7"] {
        let c = parse(w).expect("chord parses");
        let rendered = c.render();
        let c2 = parse(&rendered).expect("rendered chord reparses");
        assert_eq!(c2.render(), rendered);
        assert_eq!(c2, c);
    }
}
