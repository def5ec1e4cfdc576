//! The tokenizer: a state machine over the document structure. It reads the
//! heading, the opening fence, and then one body line at a time, classifying
//! each as a markup line, a chord line, or — through the all-or-nothing
//! fallback — a lyric line.
use vstd::prelude::*;

use crate::music::{spec_parse_chord, Chord};
use crate::parsingstate::ParsingState;
use crate::text::{
    chars_to_string, col_of, inline_ws_end, is_ws, lemma_inline_ws_end, lemma_line_end,
    lemma_line_end_is, lemma_pos_bounds, lemma_word_end, lemma_word_end_is, line_end, line_of,
    spec_trim, str_to_char_vec, till_end, trim_chars, word_end, ws_end,
};
use vstd::string::StringExecFns;

verus! {

/// A chord read from a chord line, with the line and column at which its
/// word began in the source.
#[derive(Clone, Copy, Debug, PartialEq, Eq)]
pub struct ChordToken {
    pub chord: Chord,
    pub start_line_index: usize,
    pub start_char_index: usize,
}

/// One token of the song notation, in source order.
#[derive(Clone, Debug)]
pub enum Token {
    Heading(String),
    Markup(String),
    ChordLine(Vec<ChordToken>),
    LyricLine(String),
}

/// The mathematical image of a token.
pub enum TokenView {
    Heading(Seq<char>),
    Markup(Seq<char>),
    ChordLine(Seq<ChordToken>),
    LyricLine(Seq<char>),
}

impl View for Token {
    type V = TokenView;

    open spec fn view(&self) -> TokenView {
        match self {
            Token::Heading(s) => TokenView::Heading(s@),
            Token::Markup(s) => TokenView::Markup(s@),
            Token::ChordLine(v) => TokenView::ChordLine(v@),
            Token::LyricLine(s) => TokenView::LyricLine(s@),
        }
    }
}

/// The images of a sequence of tokens.
pub open spec fn views_of(ts: Seq<Token>) -> Seq<TokenView> {
    ts.map_values(|t: Token| t@)
}

pub proof fn lemma_views_push(ts: Seq<Token>, t: Token)
    ensures
        views_of(ts.push(t)) == views_of(ts) + seq![t@],
{
    assert(views_of(ts.push(t)) =~= views_of(ts) + seq![t@]);
}

/// A fatal structural error: the expected character, the character actually
/// found (`None` at the end of the stream), and the position where it was
/// looked for.
#[derive(Clone, Copy, Debug, PartialEq, Eq)]
pub struct SyntaxError {
    pub expected: char,
    pub found: Option<char>,
    pub line: usize,
    pub col: usize,
}

/// The error reported when the expected character is missing at position `p`.
pub open spec fn err_at(s: Seq<char>, p: int, expected: char) -> SyntaxError {
    let q = if p <= s.len() {
        p
    } else {
        s.len() as int
    };
    SyntaxError {
        expected,
        found: if 0 <= p < s.len() {
            Some(s[p])
        } else {
            None
        },
        line: line_of(s, q) as usize,
        col: col_of(s, q) as usize,
    }
}

/// Checks for one literal character at position `p`.
pub open spec fn expect_at(s: Seq<char>, p: int, expected: char) -> Option<SyntaxError> {
    if 0 <= p < s.len() && s[p] == expected {
        None
    } else {
        Some(err_at(s, p, expected))
    }
}

/// The position at which the next line starts: just past this line's newline,
/// or the end of the stream.
pub open spec fn spec_next_line(s: Seq<char>, pos: int) -> int {
    if line_end(s, pos) < s.len() {
        line_end(s, pos) + 1
    } else {
        s.len() as int
    }
}

/// The chord-line reading of the line starting at `i`: `None` as soon as any
/// word fails to parse as a chord (the all-or-nothing fallback), otherwise
/// the chord tokens, each carrying the line and column where its word began.
pub open spec fn spec_chords(s: Seq<char>, i: int) -> Option<Seq<ChordToken>>
    decreases s.len() - i,
{
    if i < 0 || i >= s.len() {
        Some(Seq::<ChordToken>::empty())
    } else {
        let j = inline_ws_end(s, i);
        let k = word_end(s, j);
        if k == j {
            Some(Seq::<ChordToken>::empty())
        } else {
            match spec_parse_chord(s.subrange(j, k)) {
                None => None,
                Some(ch) => {
                    proof {
                        lemma_inline_ws_end(s, i);
                        lemma_word_end(s, j);
                    }
                    match spec_chords(s, k) {
                        None => None,
                        Some(rest) => Some(
                            seq![
                                ChordToken {
                                    chord: ch,
                                    start_line_index: line_of(s, j) as usize,
                                    start_char_index: col_of(s, j) as usize,
                                },
                            ] + rest,
                        ),
                    }
                },
            }
        }
    }
}

/// The tokens one body line produces: a markup token for a line opening with
/// a bracket (label up to the closing bracket, the rest of the line ignored);
/// otherwise a chord-line token, suppressed when it holds no chords; or, when
/// any word fails chord parsing, the whole raw line as one lyric-line token.
pub open spec fn spec_line_tokens(s: Seq<char>, pos: int) -> Seq<TokenView> {
    if 0 <= pos < s.len() && s[pos] == '[' {
        seq![TokenView::Markup(s.subrange(pos + 1, till_end(s, pos + 1, ']')))]
    } else {
        match spec_chords(s, pos) {
            None => seq![TokenView::LyricLine(s.subrange(pos, line_end(s, pos)))],
            Some(toks) => if toks.len() > 0 {
                seq![TokenView::ChordLine(toks)]
            } else {
                Seq::<TokenView>::empty()
            },
        }
    }
}

/// What heading parsing yields: the trimmed heading text and the position
/// just past the heading line, or the structural error when the first
/// non-whitespace character is not `#`.
pub open spec fn spec_heading(s: Seq<char>, pos: int) -> Result<(Seq<char>, int), SyntaxError> {
    let p = ws_end(s, pos);
    if 0 <= p < s.len() && s[p] == '#' {
        let e = line_end(s, p + 1);
        Ok(
            (
                spec_trim(s.subrange(p + 1, e)),
                if e < s.len() {
                    e + 1
                } else {
                    s.len() as int
                },
            ),
        )
    } else {
        Err(err_at(s, p, '#'))
    }
}

/// What opening-fence parsing yields: the position just past the fence line,
/// or the structural error of the first mismatching character.
pub open spec fn spec_fence_open(s: Seq<char>, pos: int) -> Result<int, SyntaxError> {
    let p = ws_end(s, pos);
    match expect_at(s, p, '`') {
        Some(e) => Err(e),
        None => match expect_at(s, p + 1, '`') {
            Some(e) => Err(e),
            None => match expect_at(s, p + 2, '`') {
                Some(e) => Err(e),
                None => match expect_at(s, p + 3, '\n') {
                    Some(e) => Err(e),
                    None => Ok(p + 4),
                },
            },
        },
    }
}

/// The tokens of the body from `pos` on, with the structural error if a line
/// opening with a backtick is not a complete closing fence. The body ends at
/// the closing fence or at the end of the stream, both accepted as the end of
/// the song.
pub open spec fn spec_body(s: Seq<char>, pos: int) -> (Seq<TokenView>, Option<SyntaxError>)
    decreases s.len() - pos,
{
    if !(0 <= pos < s.len()) {
        (Seq::<TokenView>::empty(), None)
    } else if s[pos] == '`' {
        (
            Seq::<TokenView>::empty(),
            match expect_at(s, pos + 1, '`') {
                Some(e) => Some(e),
                None => match expect_at(s, pos + 2, '`') {
                    Some(e) => Some(e),
                    None => expect_at(s, pos + 3, '\n'),
                },
            },
        )
    } else {
        let toks = spec_line_tokens(s, pos);
        proof {
            lemma_line_end(s, pos);
        }
        let (rest, out) = spec_body(s, spec_next_line(s, pos));
        (toks + rest, out)
    }
}

/// What parsing the whole song body yields: the opening fence, then every
/// body line.
pub open spec fn spec_song(s: Seq<char>, pos: int) -> (Seq<TokenView>, Option<SyntaxError>) {
    match spec_fence_open(s, pos) {
        Err(e) => (Seq::<TokenView>::empty(), Some(e)),
        Ok(p) => spec_body(s, p),
    }
}

/// The two outcomes of a chord-line attempt: every word parsed as a chord
/// (possibly none at all), or the attempt was abandoned and the text consumed
/// so far is handed back for the lyric-line fallback.
#[derive(Clone, Debug)]
pub enum ChordsLineParsingResult {
    Success(Vec<ChordToken>),
    Consumed(String),
}

/// Consumes one character and checks that it is the expected one; on a
/// mismatch, reports it together with the position where it was expected.
fn expect_char(state: &mut ParsingState<Token>, expected: char) -> (r: Result<(), SyntaxError>)
    requires
        old(state).wf(),
    ensures
        final(state).wf(),
        final(state).input_view() == old(state).input_view(),
        final(state).result == old(state).result,
        match expect_at(old(state).input_view(), old(state).pos_of(), expected) {
            None => r is Ok && final(state).pos_of() == old(state).pos_of() + 1,
            Some(e) => r == Err::<(), SyntaxError>(e),
        },
{
    let line = state.line_index();
    let col = state.char_index();
    let c = state.read_next();
    let ok = match c {
        Some(ch) => ch == expected,
        None => false,
    };
    if ok {
        Ok(())
    } else {
        Err(SyntaxError { expected, found: c, line, col })
    }
}

/// Parses the heading: skips whitespace, requires `#`, and takes the rest of
/// that line, trimmed, as the heading text.
pub fn parse_heading(state: &mut ParsingState<Token>) -> (r: Result<(), SyntaxError>)
    requires
        old(state).wf(),
    ensures
        final(state).wf(),
        final(state).input_view() == old(state).input_view(),
        match spec_heading(old(state).input_view(), old(state).pos_of()) {
            Ok(res) => {
                &&& r is Ok
                &&& views_of(final(state).result@) == views_of(old(state).result@) + seq![
                    TokenView::Heading(res.0),
                ]
                &&& final(state).pos_of() == res.1
            },
            Err(e) => r == Err::<(), SyntaxError>(e) && final(state).result == old(state).result,
        },
{
    state.skip_whitespace();
    let line = state.line_index();
    let col = state.char_index();
    let c = state.read_next();
    let ok = match c {
        Some(ch) => ch == '#',
        None => false,
    };
    if !ok {
        return Err(SyntaxError { expected: '#', found: c, line, col });
    }
    let raw = state.read_line();
    let raw_chars = str_to_char_vec(raw.as_str());
    let trimmed = trim_chars(&raw_chars);
    let title = chars_to_string(&trimmed);
    let ghost result0 = state.result@;
    state.push_to_result(Token::Heading(title));
    proof {
        lemma_views_push(result0, Token::Heading(title));
    }
    Ok(())
}

/// Parses the opening fence: skips whitespace, then requires three backticks
/// and a newline.
pub fn parse_till_song_start(state: &mut ParsingState<Token>) -> (r: Result<(), SyntaxError>)
    requires
        old(state).wf(),
    ensures
        final(state).wf(),
        final(state).input_view() == old(state).input_view(),
        final(state).result == old(state).result,
        match spec_fence_open(old(state).input_view(), old(state).pos_of()) {
            Ok(p) => r is Ok && final(state).pos_of() == p,
            Err(e) => r == Err::<(), SyntaxError>(e),
        },
{
    state.skip_whitespace();
    let c0 = expect_char(state, '`');
    if let Err(e) = c0 {
        return Err(e);
    }
    let c1 = expect_char(state, '`');
    if let Err(e) = c1 {
        return Err(e);
    }
    let c2 = expect_char(state, '`');
    if let Err(e) = c2 {
        return Err(e);
    }
    let c3 = expect_char(state, '\n');
    if let Err(e) = c3 {
        return Err(e);
    }
    Ok(())
}

/// Parses one markup line: consumes the opening bracket, takes the text up
/// to the closing bracket (or the end of the line) as the section label, and
/// discards the rest of the line.
pub fn parse_markup_line(state: &mut ParsingState<Token>)
    requires
        old(state).wf(),
        0 <= old(state).pos_of() < old(state).input_view().len(),
        old(state).input_view()[old(state).pos_of()] == '[',
    ensures
        final(state).wf(),
        final(state).input_view() == old(state).input_view(),
        views_of(final(state).result@) == views_of(old(state).result@) + spec_line_tokens(
            old(state).input_view(),
            old(state).pos_of(),
        ),
        final(state).pos_of() == spec_next_line(old(state).input_view(), old(state).pos_of()),
{
    let ghost s0 = old(state).input_view();
    let ghost p0 = old(state).pos_of();
    let _open = state.read_next();
    let label = state.read_till(']');
    let ghost q = state.pos_of();
    let ghost result0 = state.result@;
    state.push_to_result(Token::Markup(label));
    let _rest = state.read_line();
    proof {
        lemma_views_push(result0, Token::Markup(label));
        crate::text::lemma_till_end(s0, p0 + 1, ']');
        lemma_line_end(s0, q);
        lemma_line_end_is(s0, p0, line_end(s0, q));
    }
}

/// Attempts to read the current line as a chord line: words separated by
/// non-newline whitespace, each of which must parse as a chord. The first
/// word that fails aborts the attempt, handing back everything consumed.
pub fn parse_line_of_chords(state: &mut ParsingState<Token>) -> (r: ChordsLineParsingResult)
    requires
        old(state).wf(),
    ensures
        final(state).wf(),
        final(state).input_view() == old(state).input_view(),
        final(state).result == old(state).result,
        old(state).pos_of() <= final(state).pos_of() <= old(state).input_view().len(),
        match r {
            ChordsLineParsingResult::Success(v) => {
                &&& spec_chords(old(state).input_view(), old(state).pos_of()) == Some(v@)
                &&& final(state).pos_of() == line_end(
                    old(state).input_view(),
                    old(state).pos_of(),
                )
            },
            ChordsLineParsingResult::Consumed(c) => {
                &&& spec_chords(old(state).input_view(), old(state).pos_of()) is None
                &&& c@ == old(state).input_view().subrange(
                    old(state).pos_of(),
                    final(state).pos_of(),
                )
                &&& forall|k: int|
                    old(state).pos_of() <= k < final(state).pos_of() ==> old(
                        state,
                    ).input_view()[k] != '\n'
            },
        },
{
    let ghost s0 = old(state).input_view();
    let ghost p0 = old(state).pos_of();
    let mut result: Vec<ChordToken> = Vec::new();
    let mut consumed = String::new();
    proof {
        assert(consumed@ =~= s0.subrange(p0, p0));
        if spec_chords(s0, p0) is Some {
            assert(result@ + spec_chords(s0, p0)->0 =~= spec_chords(s0, p0)->0);
        }
    }
    loop
        invariant
            state.wf(),
            s0 == old(state).input_view(),
            p0 == old(state).pos_of(),
            state.input_view() == s0,
            state.result == old(state).result,
            0 <= p0 <= state.pos_of() <= s0.len(),
            forall|k: int| p0 <= k < state.pos_of() ==> s0[k] != '\n',
            consumed@ == s0.subrange(p0, state.pos_of()),
            spec_chords(s0, p0) == match spec_chords(s0, state.pos_of()) {
                None => None::<Seq<ChordToken>>,
                Some(rest) => Some(result@ + rest),
            },
        decreases s0.len() - state.pos_of(),
    {
        let ghost pi = state.pos_of();
        let at_line_break = match state.peek() {
            None => true,
            Some(c) => c == '\n',
        };
        if at_line_break {
            proof {
                if pi < s0.len() {
                    assert(inline_ws_end(s0, pi) == pi);
                    assert(word_end(s0, pi) == pi);
                }
                assert(spec_chords(s0, pi) == Some(Seq::<ChordToken>::empty()));
                assert(result@ + Seq::<ChordToken>::empty() =~= result@);
                lemma_line_end_is(s0, p0, pi);
            }
            return ChordsLineParsingResult::Success(result);
        }
        let pre_whitespace = state.read_whitespace_but_not_linebreak();
        consumed.append(pre_whitespace.as_str());
        let ghost j = state.pos_of();
        let start_line_index = state.line_index();
        let start_char_index = state.char_index();
        let candidate = state.read_till_whitespace();
        let ghost k = state.pos_of();
        proof {
            lemma_pos_bounds(s0, j);
            crate::text::lemma_inline_ws_end(s0, pi);
            crate::text::lemma_word_end(s0, j);
            assert(consumed@ + candidate@ =~= s0.subrange(p0, k));
        }
        if candidate.as_str().is_empty() {
            proof {
                assert(spec_chords(s0, pi) == Some(Seq::<ChordToken>::empty()));
                assert(result@ + Seq::<ChordToken>::empty() =~= result@);
                if j < s0.len() {
                    assert(s0[j] == '\n');
                }
                lemma_line_end_is(s0, p0, j);
            }
            return ChordsLineParsingResult::Success(result);
        }
        consumed.append(candidate.as_str());
        let chord_opt = Chord::from_string(&candidate);
        match chord_opt {
            Some(chord) => {
                let ghost result_before = result@;
                result.push(ChordToken { chord, start_line_index, start_char_index });
                proof {
                    assert(spec_chords(s0, pi) == match spec_chords(s0, k) {
                        None => None::<Seq<ChordToken>>,
                        Some(rest) => Some(
                            seq![
                                ChordToken {
                                    chord,
                                    start_line_index,
                                    start_char_index,
                                },
                            ] + rest,
                        ),
                    });
                    if spec_chords(s0, k) is Some {
                        let rest = spec_chords(s0, k)->0;
                        assert(result_before + (seq![
                            ChordToken { chord, start_line_index, start_char_index },
                        ] + rest) =~= result@ + rest);
                    }
                }
            },
            None => {
                proof {
                    assert(spec_chords(s0, pi) is None);
                }
                return ChordsLineParsingResult::Consumed(consumed);
            },
        }
    }
}

/// Parses one body line: a markup line, or a chord-line attempt that either
/// yields a chord-line token (suppressed when empty) or falls back to a
/// lyric-line token holding the whole raw line. Consumes the line's newline.
pub fn parse_line(state: &mut ParsingState<Token>)
    requires
        old(state).wf(),
    ensures
        final(state).wf(),
        final(state).input_view() == old(state).input_view(),
        views_of(final(state).result@) == views_of(old(state).result@) + spec_line_tokens(
            old(state).input_view(),
            old(state).pos_of(),
        ),
        final(state).pos_of() == spec_next_line(old(state).input_view(), old(state).pos_of()),
{
    let ghost s0 = old(state).input_view();
    let ghost p0 = old(state).pos_of();
    let is_markup = match state.peek() {
        Some(c) => c == '[',
        None => false,
    };
    if is_markup {
        parse_markup_line(state);
    } else {
        let chords_result = parse_line_of_chords(state);
        match chords_result {
            ChordsLineParsingResult::Consumed(s) => {
                let ghost q = state.pos_of();
                let rest_line = state.read_line();
                let mut res = s;
                res.append(rest_line.as_str());
                let ghost result0 = state.result@;
                state.push_to_result(Token::LyricLine(res));
                proof {
                    lemma_views_push(result0, Token::LyricLine(res));
                    lemma_line_end(s0, q);
                    lemma_line_end_is(s0, p0, line_end(s0, q));
                    assert(res@ =~= s0.subrange(p0, line_end(s0, p0)));
                }
            },
            ChordsLineParsingResult::Success(v) => {
                if v.len() > 0 {
                    let ghost result0 = state.result@;
                    let ghost vv = v@;
                    state.push_to_result(Token::ChordLine(v));
                    proof {
                        lemma_views_push(result0, Token::ChordLine(v));
                    }
                } else {
                    proof {
                        assert(views_of(state.result@) + Seq::<TokenView>::empty() =~= views_of(
                            state.result@,
                        ));
                    }
                }
                let _nl = state.read_next();
            },
        }
    }
}

/// Parses the whole song body: the opening fence, then every line until the
/// closing fence or the end of the stream. Tokens of lines read before a
/// malformed closing fence stay in the result.
pub fn parse_song(state: &mut ParsingState<Token>) -> (r: Result<(), SyntaxError>)
    requires
        old(state).wf(),
    ensures
        final(state).wf(),
        final(state).input_view() == old(state).input_view(),
        views_of(final(state).result@) == views_of(old(state).result@) + spec_song(
            old(state).input_view(),
            old(state).pos_of(),
        ).0,
        match spec_song(old(state).input_view(), old(state).pos_of()).1 {
            None => r is Ok,
            Some(e) => r == Err::<(), SyntaxError>(e),
        },
{
    let ghost s0 = old(state).input_view();
    let ghost p0 = old(state).pos_of();
    let fence = parse_till_song_start(state);
    if let Err(e) = fence {
        proof {
            assert(views_of(state.result@) + Seq::<TokenView>::empty() =~= views_of(
                state.result@,
            ));
        }
        return Err(e);
    }
    let ghost pb = state.pos_of();
    let ghost base = views_of(old(state).result@);
    let ghost mut delta = Seq::<TokenView>::empty();
    proof {
        assert(base + delta =~= base);
        assert(delta + spec_body(s0, pb).0 =~= spec_body(s0, pb).0);
    }
    loop
        invariant
            state.wf(),
            s0 == old(state).input_view(),
            p0 == old(state).pos_of(),
            base == views_of(old(state).result@),
            spec_fence_open(s0, p0) == Ok::<int, SyntaxError>(pb),
            state.input_view() == s0,
            0 <= pb <= state.pos_of() <= s0.len(),
            views_of(state.result@) == base + delta,
            spec_body(s0, pb).0 == delta + spec_body(s0, state.pos_of()).0,
            spec_body(s0, pb).1 == spec_body(s0, state.pos_of()).1,
        decreases s0.len() - state.pos_of(),
    {
        let ghost pi = state.pos_of();
        if state.is_done() {
            proof {
                assert(spec_body(s0, pi).0 =~= Seq::<TokenView>::empty());
                assert(delta + spec_body(s0, pi).0 =~= delta);
            }
            return Ok(());
        }
        let at_fence = match state.peek() {
            Some(c) => c == '`',
            None => false,
        };
        if at_fence {
            let _tick = state.read_next();
            let c1 = expect_char(state, '`');
            if let Err(e) = c1 {
                proof {
                    assert(delta + spec_body(s0, pi).0 =~= delta);
                }
                return Err(e);
            }
            let c2 = expect_char(state, '`');
            if let Err(e) = c2 {
                proof {
                    assert(delta + spec_body(s0, pi).0 =~= delta);
                }
                return Err(e);
            }
            let c3 = expect_char(state, '\n');
            if let Err(e) = c3 {
                proof {
                    assert(delta + spec_body(s0, pi).0 =~= delta);
                }
                return Err(e);
            }
            proof {
                assert(delta + spec_body(s0, pi).0 =~= delta);
            }
            return Ok(());
        }
        parse_line(state);
        proof {
            lemma_line_end(s0, pi);
            delta = delta + spec_line_tokens(s0, pi);
            assert(spec_body(s0, pb).0 =~= delta + spec_body(s0, state.pos_of()).0);
        }
    }
}

/// Whether `[a, b)` is a maximal whitespace-delimited word of the line that
/// starts at `pos`.
pub open spec fn is_word_at(s: Seq<char>, pos: int, a: int, b: int) -> bool {
    &&& pos <= a < b <= s.len()
    &&& (forall|k: int| a <= k < b ==> !is_ws(s[k]))
    &&& (a == pos || is_ws(s[a - 1]))
    &&& (b == s.len() || is_ws(s[b]))
    &&& (forall|k: int| pos <= k < a ==> s[k] != '\n')
}

proof fn lemma_chords_fail(s: Seq<char>, i: int, a: int, b: int)
    requires
        0 <= i <= a < b <= s.len(),
        forall|k: int| a <= k < b ==> !is_ws(s[k]),
        a == i || is_ws(s[a - 1]),
        b == s.len() || is_ws(s[b]),
        spec_parse_chord(s.subrange(a, b)) is None,
        forall|k: int| i <= k < a ==> s[k] != '\n',
    ensures
        spec_chords(s, i) is None,
    decreases a - i,
{
    let j = inline_ws_end(s, i);
    let k = word_end(s, j);
    lemma_inline_ws_end(s, i);
    assert(j <= a) by {
        if j > a {
            assert(is_ws(s[a]));
        }
    }
    lemma_word_end(s, j);
    if j == a {
        lemma_word_end_is(s, a, b);
    } else {
        assert(j < a);
        assert(s[j] != '\n');
        assert(!is_ws(s[j]));
        assert(k != j);
        assert(a != i);
        assert(is_ws(s[a - 1]));
        assert(k <= a - 1) by {
            if k > a - 1 {
                assert(!is_ws(s[a - 1]));
            }
        }
        match spec_parse_chord(s.subrange(j, k)) {
            None => {},
            Some(_) => {
                lemma_chords_fail(s, k, a, b);
            },
        }
    }
}

/// All-or-nothing chord line: if any whitespace-delimited word of the line
/// starting at `pos` fails chord parsing, the chord-line attempt fails as a
/// whole and the line's only token is a lyric line holding the raw line text,
/// verbatim — even when words before the failing one are valid chords.
pub proof fn lemma_all_or_nothing(s: Seq<char>, pos: int, a: int, b: int)
    requires
        0 <= pos <= s.len(),
        is_word_at(s, pos, a, b),
        spec_parse_chord(s.subrange(a, b)) is None,
        !(pos < s.len() && s[pos] == '['),
    ensures
        spec_chords(s, pos) is None,
        spec_line_tokens(s, pos) == seq![
            TokenView::LyricLine(s.subrange(pos, line_end(s, pos))),
        ],
{
    lemma_chords_fail(s, pos, a, b);
}

} // verus!
