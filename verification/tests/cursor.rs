use simple_chords::parsingstate::ParsingState;

fn cursor(text: &str) -> ParsingState<u32> {
    ParsingState::new(text.chars().collect())
}

#[test]
fn peek_does_not_consume() {
    let st = cursor("ab");
    assert_eq!(st.peek(), Some('a'));
    assert_eq!(st.peek(), Some('a'));
}

#[test]
fn read_next_tracks_lines_and_columns() {
    let mut st = cursor("ab\ncd");
    assert_eq!(st.line_index(), 0);
    assert_eq!(st.char_index(), 0);
    assert_eq!(st.read_next(), Some('a'));
    assert_eq!(st.char_index(), 1);
    assert_eq!(st.read_next(), Some('b'));
    assert_eq!(st.read_next(), Some('\n'));
    assert_eq!(st.line_index(), 1);
    assert_eq!(st.char_index(), 0);
    assert_eq!(st.read_next(), Some('c'));
    assert_eq!(st.line_index(), 1);
    assert_eq!(st.char_index(), 1);
}

#[test]
fn read_next_at_end_returns_none() {
    let mut st = cursor("");
    assert!(st.is_done());
    assert_eq!(st.read_next(), None);
    assert_eq!(st.peek(), None);
}

#[test]
fn skip_whitespace_stops_at_visible_text() {
    let mut st = cursor("  \t\n x");
    st.skip_whitespace();
    assert_eq!(st.peek(), Some('x'));
}

#[test]
fn skip_whitespace_but_not_linebreak_stops_at_newline() {
    let mut st = cursor("  \nx");
    st.skip_whitespace_but_not_linebreak();
    assert_eq!(st.peek(), Some('\n'));
}

#[test]
fn read_whitespace_but_not_linebreak_returns_the_skipped_text() {
    let mut st = cursor(" \t G");
    let ws = st.read_whitespace_but_not_linebreak();
    assert_eq!(ws, " \t ");
    assert_eq!(st.peek(), Some('G'));
}

#[test]
fn read_till_whitespace_stops_before_the_space() {
    let mut st = cursor("word rest");
    assert_eq!(st.read_till_whitespace(), "word");
    assert_eq!(st.peek(), Some(' '));
}

#[test]
fn read_till_stops_before_the_character() {
    let mut st = cursor("Chorus] rest");
    assert_eq!(st.read_till(']'), "Chorus");
    assert_eq!(st.peek(), Some(']'));
}

#[test]
fn read_line_consumes_the_newline() {
    let mut st = cursor("one\ntwo");
    assert_eq!(st.read_line(), "one");
    assert_eq!(st.peek(), Some('t'));
}

#[test]
fn read_line_at_end_returns_empty() {
    let mut st = cursor("");
    assert_eq!(st.read_line(), "");
    assert!(st.is_done());
}

#[test]
fn push_to_result_keeps_order() {
    let mut st = cursor("x");
    st.push_to_result(1);
    st.push_to_result(2);
    assert_eq!(st.result, vec![1, 2]);
}
