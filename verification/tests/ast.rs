use simple_chords::ast::{build_ast, chords_to_song_line, lyric_to_songline, make_song_line, SongBar};
use simple_chords::music::{Chord, Note, NoteChange, ThirdInterval};
use simple_chords::tokenizer::{ChordToken, Token};

fn chord(note: Note, third: ThirdInterval, change: Option<NoteChange>) -> Chord {
    Chord { base_note: note, third_interval: third, change }
}

fn tok(note: Note, col: usize) -> ChordToken {
    ChordToken {
        chord: chord(note, ThirdInterval::Major, None),
        start_line_index: 0,
        start_char_index: col,
    }
}

fn chords_of(bar: &SongBar) -> Vec<Option<String>> {
    bar.iter().map(|c| c.chord.map(|ch| ch.render())).collect()
}

#[test]
fn make_song_line_attaches_chords_by_column() {
    let chords = vec![tok(Note::G, 0), tok(Note::D, 5)];
    let bar = make_song_line(&"Hello world".to_string(), &chords);
    assert_eq!(bar.len(), 11);
    assert_eq!(bar[0].ch, 'H');
    assert_eq!(bar[0].chord.map(|c| c.render()), Some("G".to_string()));
    assert_eq!(bar[5].ch, ' ');
    assert_eq!(bar[5].chord.map(|c| c.render()), Some("D".to_string()));
    for (i, cell) in bar.iter().enumerate() {
        if i != 0 && i != 5 {
            assert!(cell.chord.is_none());
        }
    }
}

#[test]
fn make_song_line_drops_chords_past_the_line_end() {
    let chords = vec![tok(Note::G, 0), tok(Note::D, 10)];
    let bar = make_song_line(&"Hi".to_string(), &chords);
    assert_eq!(bar.len(), 2);
    assert_eq!(bar[0].chord.map(|c| c.render()), Some("G".to_string()));
    assert!(bar[1].chord.is_none());
}

#[test]
fn lyric_to_songline_has_no_chords() {
    let bar = lyric_to_songline(&"La la".to_string());
    assert_eq!(bar.len(), 5);
    assert!(bar.iter().all(|c| c.chord.is_none()));
    let text: String = bar.iter().map(|c| c.ch).collect();
    assert_eq!(text, "La la");
}

#[test]
fn chords_to_song_line_puts_each_chord_over_a_space() {
    let chords = vec![tok(Note::G, 0), tok(Note::D, 5)];
    let bar = chords_to_song_line(&chords);
    assert_eq!(bar.len(), 2);
    assert!(bar.iter().all(|c| c.ch == ' '));
    assert_eq!(chords_of(&bar), vec![Some("G".to_string()), Some("D".to_string())]);
}

#[test]
fn build_ast_groups_bars_into_sections() {
    let tokens = vec![
        Token::Heading("T".to_string()),
        Token::LyricLine("one".to_string()),
        Token::Markup("Chorus".to_string()),
        Token::LyricLine("two".to_string()),
    ];
    let ast = build_ast(tokens);
    assert_eq!(ast.heading, "T");
    assert_eq!(ast.song.len(), 2);
    assert_eq!(ast.song[0].markup, "");
    assert_eq!(ast.song[0].lines.len(), 1);
    assert_eq!(ast.song[1].markup, "Chorus");
    assert_eq!(ast.song[1].lines.len(), 1);
}

#[test]
fn two_chord_lines_flush_the_first_as_a_chord_only_bar() {
    let tokens = vec![
        Token::ChordLine(vec![tok(Note::G, 0)]),
        Token::ChordLine(vec![tok(Note::D, 0)]),
        Token::LyricLine("Hello".to_string()),
    ];
    let ast = build_ast(tokens);
    assert_eq!(ast.song.len(), 1);
    let bars = &ast.song[0].lines;
    assert_eq!(bars.len(), 2);
    assert_eq!(bars[0].len(), 1);
    assert_eq!(bars[0][0].ch, ' ');
    assert_eq!(chords_of(&bars[0]), vec![Some("G".to_string())]);
    assert_eq!(bars[1][0].ch, 'H');
    assert_eq!(chords_of(&bars[1])[0], Some("D".to_string()));
}

#[test]
fn trailing_pending_chords_flush_at_the_end() {
    let tokens = vec![Token::ChordLine(vec![tok(Note::E, 0)])];
    let ast = build_ast(tokens);
    assert_eq!(ast.song.len(), 1);
    let bars = &ast.song[0].lines;
    assert_eq!(bars.len(), 1);
    assert_eq!(chords_of(&bars[0]), vec![Some("E".to_string())]);
}

#[test]
fn markup_discards_pending_chords() {
    let tokens = vec![
        Token::ChordLine(vec![tok(Note::G, 0)]),
        Token::Markup("X".to_string()),
        Token::LyricLine("Hello".to_string()),
    ];
    let ast = build_ast(tokens);
    assert_eq!(ast.song.len(), 2);
    assert_eq!(ast.song[0].lines.len(), 0);
    let bar = &ast.song[1].lines[0];
    assert!(bar.iter().all(|c| c.chord.is_none()));
}

#[test]
fn markup_only_regroups_bars() {
    let with_markup = vec![
        Token::LyricLine("one".to_string()),
        Token::Markup("A".to_string()),
        Token::LyricLine("two".to_string()),
        Token::Markup("B".to_string()),
        Token::LyricLine("three".to_string()),
    ];
    let without = vec![
        Token::LyricLine("one".to_string()),
        Token::LyricLine("two".to_string()),
        Token::LyricLine("three".to_string()),
    ];
    let grouped = build_ast(with_markup);
    let flat = build_ast(without);
    let grouped_bars: Vec<SongBar> =
        grouped.song.iter().flat_map(|s| s.lines.iter().cloned()).collect();
    let flat_bars: Vec<SongBar> =
        flat.song.iter().flat_map(|s| s.lines.iter().cloned()).collect();
    assert_eq!(grouped_bars, flat_bars);
}

#[test]
fn empty_token_list_still_yields_one_section() {
    let ast = build_ast(Vec::new());
    assert_eq!(ast.heading, "");
    assert_eq!(ast.song.len(), 1);
    assert_eq!(ast.song[0].markup, "");
    assert!(ast.song[0].lines.is_empty());
}
