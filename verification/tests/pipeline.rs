use simple_chords::translate_text;

#[test]
fn scenario_full_song_renders_exactly() {
    let input = "# My Song\n```\nG    D\nHello world\n```\n";
    let html = translate_text(input).expect("song converts");
    let mut expected = String::new();
    expected.push_str("<!DOCTYPE html>\n<html>\n<head>\n");
    expected.push_str("    <link rel='stylesheet' href='SimpleChords.css'>\n</head>\n<body>\n");
    expected.push_str("    <h1>My Song</h1>\n    \n");
    expected.push_str("        <p  class=''>\n");
    expected.push_str("            <span class='bar'>H<chord class='above-visible'>G</chord>ello ");
    expected.push_str("<chord class='above-visible'>D</chord>world</span>  \n");
    expected.push_str("        </p>\n</body>");
    assert_eq!(html, expected);
}

#[test]
fn heading_is_taken_from_the_hash_line() {
    let html = translate_text("#   Spaced Out \n```\n```\n").expect("converts");
    assert!(html.contains("<h1>Spaced Out</h1>"));
}

#[test]
fn failing_chord_word_keeps_the_line_as_lyrics() {
    let html = translate_text("# T\n```\nG Xyz D\n```\n").expect("converts");
    assert!(html.contains("G Xyz D"));
    assert!(!html.contains("<chord"));
}

#[test]
fn markup_line_becomes_a_section_class() {
    let html = translate_text("# T\n```\n[Chorus]\nla\n```\n").expect("converts");
    assert!(html.contains("<p  class='chorus'>"));
}

#[test]
fn markup_labels_normalize_spaces_and_case() {
    let html = translate_text("# T\n```\n[Big Chorus]\nla\n```\n").expect("converts");
    assert!(html.contains("<p  class='big_chorus'>"));
}

#[test]
fn chord_over_run_of_spaces_is_tagged_above_whitespace() {
    let html = translate_text("# T\n```\n  G\nx   y\n```\n").expect("converts");
    assert!(html.contains(" <chord class='above-whitespace'>G</chord>"));
}

#[test]
fn chord_at_line_start_is_tagged_above_visible() {
    let html = translate_text("# T\n```\nG\nHi\n```\n").expect("converts");
    assert!(html.contains("H<chord class='above-visible'>G</chord>i"));
}

#[test]
fn consecutive_chord_lines_produce_a_chord_only_bar() {
    let html = translate_text("# T\n```\nG\nD\nHi\n```\n").expect("converts");
    let expected_first_bar = "<span class='bar'> <chord class='above-visible'>G</chord></span> ";
    assert!(html.contains(expected_first_bar));
    assert!(html.contains("H<chord class='above-visible'>D</chord>i"));
}

#[test]
fn trailing_chord_line_still_appears() {
    let html = translate_text("# T\n```\nE7\n```\n").expect("converts");
    assert!(html.contains("E7</chord>"));
}

#[test]
fn input_without_final_newline_still_converts() {
    let html = translate_text("# T\n```\nHello").expect("converts");
    assert!(html.contains("Hello"));
}

#[test]
fn missing_hash_is_a_structural_error() {
    let e = translate_text("Hello\n").expect_err("no heading");
    assert_eq!(e.expected, '#');
    assert_eq!(e.found, Some('H'));
    assert_eq!(e.line, 0);
    assert_eq!(e.col, 0);
}

#[test]
fn missing_fence_is_a_structural_error() {
    let e = translate_text("# T\nx\n").expect_err("no fence");
    assert_eq!(e.expected, '`');
    assert_eq!(e.found, Some('x'));
    assert_eq!(e.line, 1);
    assert_eq!(e.col, 0);
}

#[test]
fn two_backticks_are_not_a_fence() {
    let e = translate_text("# T\n``\n").expect_err("short fence");
    assert_eq!(e.expected, '`');
    assert_eq!(e.found, Some('\n'));
    assert_eq!(e.line, 1);
    assert_eq!(e.col, 2);
}

#[test]
fn empty_input_reports_end_of_stream() {
    let e = translate_text("").expect_err("empty input");
    assert_eq!(e.expected, '#');
    assert_eq!(e.found, None);
}

#[test]
fn blank_lines_in_the_body_add_no_bars() {
    let with_blank = translate_text("# T\n```\none\n\ntwo\n```\n").expect("converts");
    let without = translate_text("# T\n```\none\ntwo\n```\n").expect("converts");
    assert_eq!(with_blank, without);
}
