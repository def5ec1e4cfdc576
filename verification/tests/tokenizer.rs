use simple_chords::parsingstate::ParsingState;
use simple_chords::tokenizer::{parse_heading, parse_song, Token};

fn state_over(text: &str) -> ParsingState<Token> {
    ParsingState::new(text.chars().collect())
}

fn tokens_of_body(body: &str) -> Vec<Token> {
    let mut st = state_over(body);
    parse_song(&mut st).expect("body parses");
    st.result
}

#[test]
fn heading_takes_rest_of_line_trimmed() {
    let mut st = state_over("   #  My Song  \nrest");
    parse_heading(&mut st).expect("heading parses");
    match &st.result[0] {
        Token::Heading(h) => assert_eq!(h, "My Song"),
        t => panic!("expected a heading token, got {:?}", t),
    }
}

#[test]
fn heading_requires_hash() {
    let mut st = state_over("x My Song\n");
    let e = parse_heading(&mut st).expect_err("no hash");
    assert_eq!(e.expected, '#');
    assert_eq!(e.found, Some('x'));
    assert_eq!(e.line, 0);
    assert_eq!(e.col, 0);
}

#[test]
fn heading_reports_end_of_stream() {
    let mut st = state_over("   ");
    let e = parse_heading(&mut st).expect_err("no hash before the end");
    assert_eq!(e.expected, '#');
    assert_eq!(e.found, None);
}

#[test]
fn opening_fence_must_be_three_backticks() {
    let mut st = state_over("``x\n");
    let e = parse_song(&mut st).expect_err("short fence");
    assert_eq!(e.expected, '`');
    assert_eq!(e.found, Some('x'));
    assert_eq!(e.line, 0);
    assert_eq!(e.col, 2);
}

#[test]
fn opening_fence_needs_its_newline() {
    let mut st = state_over("``` x\n");
    let e = parse_song(&mut st).expect_err("no newline after fence");
    assert_eq!(e.expected, '\n');
    assert_eq!(e.found, Some(' '));
    assert_eq!(e.col, 3);
}

#[test]
fn chord_line_records_columns() {
    let toks = tokens_of_body("```\n  G    D\n```\n");
    assert_eq!(toks.len(), 1);
    match &toks[0] {
        Token::ChordLine(cs) => {
            assert_eq!(cs.len(), 2);
            assert_eq!(cs[0].chord.render(), "G");
            assert_eq!(cs[0].start_line_index, 1);
            assert_eq!(cs[0].start_char_index, 2);
            assert_eq!(cs[1].chord.render(), "D");
            assert_eq!(cs[1].start_char_index, 7);
        },
        t => panic!("expected a chord line, got {:?}", t),
    }
}

#[test]
fn failing_word_demotes_whole_line_to_lyrics() {
    let toks = tokens_of_body("```\nG  Xyz D\n```\n");
    assert_eq!(toks.len(), 1);
    match &toks[0] {
        Token::LyricLine(l) => assert_eq!(l, "G  Xyz D"),
        t => panic!("expected a lyric line, got {:?}", t),
    }
}

#[test]
fn blank_line_produces_no_token() {
    let toks = tokens_of_body("```\n   \n\n```\n");
    assert_eq!(toks.len(), 0);
}

#[test]
fn markup_line_takes_label_up_to_bracket() {
    let toks = tokens_of_body("```\n[Chorus] ignored rest\n```\n");
    assert_eq!(toks.len(), 1);
    match &toks[0] {
        Token::Markup(m) => assert_eq!(m, "Chorus"),
        t => panic!("expected a markup token, got {:?}", t),
    }
}

#[test]
fn unclosed_markup_label_stops_at_line_end() {
    let toks = tokens_of_body("```\n[Bridge\nHello\n```\n");
    assert_eq!(toks.len(), 2);
    match &toks[0] {
        Token::Markup(m) => assert_eq!(m, "Bridge"),
        t => panic!("expected a markup token, got {:?}", t),
    }
    match &toks[1] {
        Token::LyricLine(l) => assert_eq!(l, "Hello"),
        t => panic!("expected a lyric line, got {:?}", t),
    }
}

#[test]
fn missing_closing_fence_ends_the_song() {
    let toks = tokens_of_body("```\nHello there\n");
    assert_eq!(toks.len(), 1);
    match &toks[0] {
        Token::LyricLine(l) => assert_eq!(l, "Hello there"),
        t => panic!("expected a lyric line, got {:?}", t),
    }
}

#[test]
fn malformed_closing_fence_is_an_error() {
    let mut st = state_over("```\nG\n``oops\n");
    let e = parse_song(&mut st).expect_err("bad closing fence");
    assert_eq!(e.expected, '`');
    assert_eq!(e.found, Some('o'));
    assert_eq!(e.line, 2);
    assert_eq!(e.col, 2);
    match &st.result[0] {
        Token::ChordLine(cs) => assert_eq!(cs.len(), 1),
        t => panic!("expected a chord line, got {:?}", t),
    }
}

#[test]
fn text_after_closing_fence_is_not_read() {
    let toks = tokens_of_body("```\nHello\n```\nafterwards");
    assert_eq!(toks.len(), 1);
}
