//! The AST builder: an explicit fold over the token list. It carries the
//! document in progress and the pending chord line, attaches pending chords
//! to the next lyric line by column, and groups bars into sections at markup
//! tokens.
use vstd::prelude::*;

use crate::music::Chord;
use crate::text::str_to_char_vec;
use crate::tokenizer::{views_of, ChordToken, Token, TokenView};

verus! {

/// One character cell of a bar: a lyric character and the chord attached
/// above it, if any.
#[derive(Clone, Copy, Debug, PartialEq, Eq)]
pub struct SongLineChar {
    pub ch: char,
    pub chord: Option<Chord>,
}

/// One rendered line: an ordered sequence of character cells.
pub type SongBar = Vec<SongLineChar>;

/// A labeled group of consecutive bars.
#[derive(Clone, Debug)]
pub struct SongSection {
    pub markup: String,
    pub lines: Vec<SongBar>,
}

/// The finished document: the heading and its sections.
#[derive(Clone, Debug)]
pub struct AST {
    pub heading: String,
    pub song: Vec<SongSection>,
}

/// The mathematical image of a section.
pub struct SectionView {
    pub markup: Seq<char>,
    pub lines: Seq<Seq<SongLineChar>>,
}

/// The mathematical image of a document.
pub struct AstView {
    pub heading: Seq<char>,
    pub song: Seq<SectionView>,
}

/// The images of a sequence of bars.
pub open spec fn bar_views(bs: Seq<SongBar>) -> Seq<Seq<SongLineChar>> {
    bs.map_values(|b: SongBar| b@)
}

/// The images of a sequence of sections.
pub open spec fn section_views(ss: Seq<SongSection>) -> Seq<SectionView> {
    ss.map_values(|s: SongSection| s@)
}

impl View for SongSection {
    type V = SectionView;

    open spec fn view(&self) -> SectionView {
        SectionView { markup: self.markup@, lines: bar_views(self.lines@) }
    }
}

impl View for AST {
    type V = AstView;

    open spec fn view(&self) -> AstView {
        AstView { heading: self.heading@, song: section_views(self.song@) }
    }
}

/// The chord-only bar a pending chord line flushes to: each chord above one
/// space character.
pub open spec fn spec_chords_bar(chords: Seq<ChordToken>) -> Seq<SongLineChar> {
    chords.map_values(|t: ChordToken| SongLineChar { ch: ' ', chord: Some(t.chord) })
}

/// One cell of a bar.
pub open spec fn spec_cell(c: char, chord: Option<Chord>) -> SongLineChar {
    SongLineChar { ch: c, chord }
}

/// The cells from index `i` of a lyric line on, with chord `n` and its
/// successors attached wherever their recorded column matches the index.
pub open spec fn spec_attach(
    lyric: Seq<char>,
    chords: Seq<ChordToken>,
    i: int,
    n: int,
) -> Seq<SongLineChar>
    decreases lyric.len() - i,
{
    if i < 0 || i >= lyric.len() {
        Seq::<SongLineChar>::empty()
    } else if 0 <= n < chords.len() && chords[n].start_char_index == i {
        seq![spec_cell(lyric[i], Some(chords[n].chord))] + spec_attach(lyric, chords, i + 1, n + 1)
    } else {
        seq![spec_cell(lyric[i], None)] + spec_attach(lyric, chords, i + 1, n)
    }
}

/// The bar built by walking a lyric line and attaching the pending chords by
/// column.
pub open spec fn spec_song_line(lyric: Seq<char>, chords: Seq<ChordToken>) -> Seq<SongLineChar> {
    spec_attach(lyric, chords, 0, 0)
}

proof fn lemma_attach_step(
    lyric: Seq<char>,
    chords: Seq<ChordToken>,
    i: int,
    n: int,
    acc: Seq<SongLineChar>,
    cell: SongLineChar,
)
    requires
        0 <= i < lyric.len(),
        0 <= n,
        if n < chords.len() && chords[n].start_char_index == i {
            cell == spec_cell(lyric[i], Some(chords[n].chord))
        } else {
            cell == spec_cell(lyric[i], None)
        },
    ensures
        ({
            let np = if n < chords.len() && chords[n].start_char_index == i {
                n + 1
            } else {
                n
            };
            acc + spec_attach(lyric, chords, i, n) == acc.push(cell) + spec_attach(
                lyric,
                chords,
                i + 1,
                np,
            )
        }),
{
    let np = if n < chords.len() && chords[n].start_char_index == i {
        n + 1
    } else {
        n
    };
    let rest = spec_attach(lyric, chords, i + 1, np);
    assert(spec_attach(lyric, chords, i, n) == seq![cell] + rest);
    assert(acc + (seq![cell] + rest) =~= acc.push(cell) + rest);
}

/// The AST builder's running state: heading, finished sections, the open
/// section, and the pending chord line awaiting its lyric line.
pub struct BuildView {
    pub heading: Seq<char>,
    pub done: Seq<SectionView>,
    pub cur_markup: Seq<char>,
    pub cur_lines: Seq<Seq<SongLineChar>>,
    pub pending: Option<Seq<ChordToken>>,
}

/// The builder's state before any token.
pub open spec fn spec_build_init() -> BuildView {
    BuildView {
        heading: Seq::<char>::empty(),
        done: Seq::<SectionView>::empty(),
        cur_markup: Seq::<char>::empty(),
        cur_lines: Seq::<Seq<SongLineChar>>::empty(),
        pending: None,
    }
}

/// One fold step. A heading token sets the document heading; a markup token
/// closes the open section and discards any pending chords; a chord line
/// flushes an already-pending chord line as a chord-only bar; a lyric line
/// becomes a bar with the pending chords attached by column.
pub open spec fn spec_build_step(b: BuildView, t: TokenView) -> BuildView {
    match t {
        TokenView::Heading(h) => BuildView { heading: h, ..b },
        TokenView::Markup(m) => BuildView {
            done: b.done.push(SectionView { markup: b.cur_markup, lines: b.cur_lines }),
            cur_markup: m,
            cur_lines: Seq::<Seq<SongLineChar>>::empty(),
            pending: None,
            ..b
        },
        TokenView::ChordLine(cs) => match b.pending {
            Some(p) => BuildView {
                cur_lines: b.cur_lines.push(spec_chords_bar(p)),
                pending: Some(cs),
                ..b
            },
            None => BuildView { pending: Some(cs), ..b },
        },
        TokenView::LyricLine(l) => match b.pending {
            Some(p) => BuildView {
                cur_lines: b.cur_lines.push(spec_song_line(l, p)),
                pending: None,
                ..b
            },
            None => BuildView {
                cur_lines: b.cur_lines.push(spec_song_line(l, Seq::<ChordToken>::empty())),
                ..b
            },
        },
    }
}

/// The fold of the whole token sequence.
pub open spec fn spec_build_fold(ts: Seq<TokenView>) -> BuildView
    decreases ts.len(),
{
    if ts.len() == 0 {
        spec_build_init()
    } else {
        spec_build_step(spec_build_fold(ts.drop_last()), ts.last())
    }
}

/// The finished document: a trailing pending chord line flushes as a
/// chord-only bar, and the open section closes into the section list, so at
/// least one section always exists.
pub open spec fn spec_build_ast(ts: Seq<TokenView>) -> AstView {
    let b = spec_build_fold(ts);
    let lines = match b.pending {
        Some(p) => b.cur_lines.push(spec_chords_bar(p)),
        None => b.cur_lines,
    };
    AstView {
        heading: b.heading,
        song: b.done.push(SectionView { markup: b.cur_markup, lines }),
    }
}

pub proof fn lemma_build_fold_push(ts: Seq<TokenView>, t: TokenView)
    ensures
        spec_build_fold(ts.push(t)) == spec_build_step(spec_build_fold(ts), t),
{
    assert(ts.push(t).drop_last() =~= ts);
    assert(ts.push(t).last() == t);
}

/// Copies a chord-token vector.
fn copy_chords(v: &Vec<ChordToken>) -> (r: Vec<ChordToken>)
    ensures
        r@ == v@,
{
    let mut r: Vec<ChordToken> = Vec::new();
    let mut i: usize = 0;
    while i < v.len()
        invariant
            i <= v@.len(),
            r@ =~= v@.take(i as int),
        decreases v@.len() - i,
    {
        r.push(v[i]);
        i = i + 1;
        proof {
            assert(r@ =~= v@.take(i as int));
        }
    }
    proof {
        assert(v@.take(v@.len() as int) =~= v@);
    }
    r
}

/// Turns a pending chord line into a chord-only bar: each chord above a
/// single space character.
pub fn chords_to_song_line(chords: &Vec<ChordToken>) -> (r: SongBar)
    ensures
        r@ == spec_chords_bar(chords@),
{
    let mut result: Vec<SongLineChar> = Vec::new();
    let mut i: usize = 0;
    while i < chords.len()
        invariant
            i <= chords@.len(),
            result@.len() == i,
            forall|k: int|
                0 <= k < i ==> result@[k] == (SongLineChar {
                    ch: ' ',
                    chord: Some(chords@[k].chord),
                }),
        decreases chords@.len() - i,
    {
        result.push(SongLineChar { ch: ' ', chord: Some(chords[i].chord) });
        i = i + 1;
    }
    proof {
        assert(result@ =~= spec_chords_bar(chords@));
    }
    result
}

/// Builds the bar of a lyric line with the pending chords attached: the cell
/// at a chord's recorded column carries that chord, every other cell none.
pub fn make_song_line(lyrics: &String, chords: &Vec<ChordToken>) -> (r: SongBar)
    ensures
        r@ == spec_song_line(lyrics@, chords@),
{
    let l = str_to_char_vec(lyrics.as_str());
    let mut result: Vec<SongLineChar> = Vec::new();
    let mut n: usize = 0;
    let mut i: usize = 0;
    while i < l.len()
        invariant
            0 <= i <= l@.len(),
            l@ == lyrics@,
            spec_song_line(lyrics@, chords@) == result@ + spec_attach(
                lyrics@,
                chords@,
                i as int,
                n as int,
            ),
        decreases l@.len() - i,
    {
        let ghost i0 = i as int;
        let ghost n0 = n as int;
        let ghost r0 = result@;
        let take_chord = n < chords.len() && chords[n].start_char_index == i;
        let cell = if take_chord {
            SongLineChar { ch: l[i], chord: Some(chords[n].chord) }
        } else {
            SongLineChar { ch: l[i], chord: None }
        };
        proof {
            if take_chord {
                assert(cell == spec_cell(lyrics@[i as int], Some(chords@[n as int].chord)));
            } else {
                assert(cell == spec_cell(lyrics@[i as int], None));
            }
        }
        result.push(cell);
        if take_chord {
            n = n + 1;
        }
        i = i + 1;
        proof {
            lemma_attach_step(lyrics@, chords@, i0, n0, r0, cell);
            assert(result@ =~= r0.push(cell));
        }
    }
    proof {
        assert(spec_attach(lyrics@, chords@, i as int, 0) =~= Seq::<SongLineChar>::empty());
        assert(result@ + Seq::<SongLineChar>::empty() =~= result@);
        assert(spec_attach(lyrics@, chords@, i as int, n as int) =~= Seq::<
            SongLineChar,
        >::empty());
    }
    result
}

/// Builds the bar of a lyric line with no chords pending: every cell bare.
pub fn lyric_to_songline(lyrics: &String) -> (r: SongBar)
    ensures
        r@ == spec_song_line(lyrics@, Seq::<ChordToken>::empty()),
{
    let empty: Vec<ChordToken> = Vec::new();
    make_song_line(lyrics, &empty)
}

/// The image of an optional pending chord vector.
pub open spec fn pending_view(oc: Option<Vec<ChordToken>>) -> Option<Seq<ChordToken>> {
    match oc {
        Some(v) => Some(v@),
        None => None,
    }
}

proof fn lemma_views_take_step(ts: Seq<Token>, i: int)
    requires
        0 <= i < ts.len(),
    ensures
        views_of(ts).take(i + 1) == views_of(ts).take(i).push(ts[i]@),
{
    assert(views_of(ts).take(i + 1) =~= views_of(ts).take(i).push(ts[i]@));
}

/// Folds the token list into the finished document.
pub fn build_ast(tokens: Vec<Token>) -> (ast: AST)
    ensures
        ast@ == spec_build_ast(views_of(tokens@)),
{
    let mut heading = String::new();
    let mut sections: Vec<SongSection> = Vec::new();
    let mut current_section = SongSection { markup: String::new(), lines: Vec::new() };
    let mut current_chords: Option<Vec<ChordToken>> = None;
    let mut idx: usize = 0;
    proof {
        assert(views_of(tokens@).take(0) =~= Seq::<TokenView>::empty());
        assert(bar_views(current_section.lines@) =~= Seq::<Seq<SongLineChar>>::empty());
        assert(section_views(sections@) =~= Seq::<SectionView>::empty());
    }
    while idx < tokens.len()
        invariant
            idx <= tokens@.len(),
            ({
                let b = spec_build_fold(views_of(tokens@).take(idx as int));
                &&& heading@ == b.heading
                &&& section_views(sections@) == b.done
                &&& current_section@ == (SectionView {
                    markup: b.cur_markup,
                    lines: b.cur_lines,
                })
                &&& pending_view(current_chords) == b.pending
            }),
        decreases tokens@.len() - idx,
    {
        let ghost b0 = spec_build_fold(views_of(tokens@).take(idx as int));
        proof {
            lemma_views_take_step(tokens@, idx as int);
            lemma_build_fold_push(views_of(tokens@).take(idx as int), tokens@[idx as int]@);
        }
        match &tokens[idx] {
            Token::Heading(h) => {
                heading = h.clone();
            },
            Token::Markup(section_name) => {
                sections.push(current_section);
                current_section = SongSection { markup: section_name.clone(), lines: Vec::new() };
                current_chords = None;
                proof {
                    assert(section_views(sections@) =~= b0.done.push(
                        SectionView { markup: b0.cur_markup, lines: b0.cur_lines },
                    ));
                    assert(bar_views(current_section.lines@) =~= Seq::<
                        Seq<SongLineChar>,
                    >::empty());
                }
            },
            Token::ChordLine(chords) => {
                match &current_chords {
                    Some(cc) => {
                        let value = chords_to_song_line(cc);
                        current_section.lines.push(value);
                        proof {
                            assert(bar_views(current_section.lines@) =~= b0.cur_lines.push(
                                spec_chords_bar(b0.pending->0),
                            ));
                        }
                    },
                    None => {},
                }
                current_chords = Some(copy_chords(chords));
            },
            Token::LyricLine(lyrics) => {
                match &current_chords {
                    Some(cc) => {
                        let value = make_song_line(lyrics, cc);
                        current_section.lines.push(value);
                        current_chords = None;
                        proof {
                            assert(bar_views(current_section.lines@) =~= b0.cur_lines.push(
                                spec_song_line(lyrics@, b0.pending->0),
                            ));
                        }
                    },
                    None => {
                        let value = lyric_to_songline(lyrics);
                        current_section.lines.push(value);
                        proof {
                            assert(bar_views(current_section.lines@) =~= b0.cur_lines.push(
                                spec_song_line(lyrics@, Seq::<ChordToken>::empty()),
                            ));
                        }
                    },
                }
            },
        }
        idx = idx + 1;
    }
    proof {
        assert(views_of(tokens@).take(tokens@.len() as int) =~= views_of(tokens@));
    }
    let ghost b = spec_build_fold(views_of(tokens@));
    match current_chords {
        Some(cc) => {
            let value = chords_to_song_line(&cc);
            current_section.lines.push(value);
            proof {
                assert(bar_views(current_section.lines@) =~= b.cur_lines.push(
                    spec_chords_bar(b.pending->0),
                ));
            }
        },
        None => {},
    }
    proof {
        assert(current_section@ == (SectionView {
            markup: b.cur_markup,
            lines: match b.pending {
                Some(p) => b.cur_lines.push(spec_chords_bar(p)),
                None => b.cur_lines,
            },
        }));
    }
    let ghost flushed = current_section@;
    sections.push(current_section);
    proof {
        assert(section_views(sections@) =~= b.done.push(flushed));
        assert(section_views(sections@) =~= spec_build_ast(views_of(tokens@)).song);
    }
    AST { heading, song: sections }
}

proof fn lemma_attach_unfold(lyric: Seq<char>, chords: Seq<ChordToken>, i: int, n: int)
    requires
        0 <= i < lyric.len(),
        0 <= n,
    ensures
        (n < chords.len() && chords[n].start_char_index == i) ==> spec_attach(lyric, chords, i, n)
            == seq![spec_cell(lyric[i], Some(chords[n].chord))] + spec_attach(
            lyric,
            chords,
            i + 1,
            n + 1,
        ),
        !(n < chords.len() && chords[n].start_char_index == i) ==> spec_attach(lyric, chords, i, n)
            == seq![spec_cell(lyric[i], None)] + spec_attach(lyric, chords, i + 1, n),
{
}

#[verifier::rlimit(50)]
proof fn lemma_attach_props(lyric: Seq<char>, chords: Seq<ChordToken>, i: int, n: int)
    requires
        0 <= i <= lyric.len(),
        0 <= n <= chords.len(),
        forall|m: int, m2: int|
            0 <= m < m2 < chords.len() ==> (#[trigger] chords[m]).start_char_index < (
            #[trigger] chords[m2]).start_char_index,
        forall|m: int| 0 <= m < chords.len() ==> (#[trigger] chords[m]).start_char_index < lyric.len(),
        forall|m: int| n <= m < chords.len() ==> i <= (#[trigger] chords[m]).start_char_index,
    ensures
        spec_attach(lyric, chords, i, n).len() == lyric.len() - i,
        forall|m: int|
            n <= m < chords.len() ==> spec_attach(lyric, chords, i, n)[(
            #[trigger] chords[m]).start_char_index - i].chord == Some(chords[m].chord),
        forall|q: int|
            i <= q < lyric.len() && (forall|m: int|
                n <= m < chords.len() ==> (#[trigger] chords[m]).start_char_index != q)
                ==> (#[trigger] spec_attach(lyric, chords, i, n)[q - i]).chord is None,
    decreases lyric.len() - i,
{
    let me = spec_attach(lyric, chords, i, n);
    if i == lyric.len() {
        assert forall|m: int|
            n <= m < chords.len() implies me[(#[trigger] chords[m]).start_char_index - i].chord
            == Some(chords[m].chord) by {
            assert(i <= chords[m].start_char_index < lyric.len());
        }
    } else if n < chords.len() && chords[n].start_char_index == i {
        lemma_attach_props(lyric, chords, i + 1, n + 1);
        lemma_attach_unfold(lyric, chords, i, n);
        let rest = spec_attach(lyric, chords, i + 1, n + 1);
        assert(me == seq![spec_cell(lyric[i], Some(chords[n].chord))] + rest);
        assert forall|m: int|
            n <= m < chords.len() implies me[(#[trigger] chords[m]).start_char_index - i].chord
            == Some(chords[m].chord) by {
            if m == n {
                assert(me[0].chord == Some(chords[n].chord));
            } else {
                assert(chords[n].start_char_index < chords[m].start_char_index);
                assert(me[chords[m].start_char_index - i] == rest[chords[m].start_char_index - (
                i + 1)]);
            }
        }
        assert forall|q: int|
            i <= q < lyric.len() && (forall|m: int|
                n <= m < chords.len() ==> (#[trigger] chords[m]).start_char_index != q) implies (
        #[trigger] me[q - i]).chord is None by {
            assert(chords[n].start_char_index != q);
            assert(q != i);
            assert(me[q - i] == rest[q - (i + 1)]);
        }
    } else {
        assert forall|m: int| n <= m < chords.len() implies i + 1 <= (
        #[trigger] chords[m]).start_char_index by {
            if m == n {
                assert(chords[n].start_char_index != i);
            } else {
                assert(chords[n].start_char_index <= chords[m].start_char_index);
                assert(chords[n].start_char_index != i);
            }
        }
        lemma_attach_props(lyric, chords, i + 1, n);
        lemma_attach_unfold(lyric, chords, i, n);
        let rest = spec_attach(lyric, chords, i + 1, n);
        assert(me == seq![spec_cell(lyric[i], None)] + rest);
        assert forall|m: int|
            n <= m < chords.len() implies me[(#[trigger] chords[m]).start_char_index - i].chord
            == Some(chords[m].chord) by {
            assert(me[chords[m].start_char_index - i] == rest[chords[m].start_char_index - (i
                + 1)]);
        }
        assert forall|q: int|
            i <= q < lyric.len() && (forall|m: int|
                n <= m < chords.len() ==> (#[trigger] chords[m]).start_char_index != q) implies (
        #[trigger] me[q - i]).chord is None by {
            if q == i {
                assert(me[0].chord is None);
            } else {
                assert(me[q - i] == rest[q - (i + 1)]);
            }
        }
    }
}

/// Alignment: in the bar built from a lyric line and a pending chord line
/// whose recorded columns are strictly increasing and all within the line —
/// which is how the tokenizer produces them — the cell at each chord's column
/// carries exactly that chord, and every other cell carries none.
pub proof fn lemma_alignment(lyric: Seq<char>, chords: Seq<ChordToken>)
    requires
        forall|m: int, m2: int|
            0 <= m < m2 < chords.len() ==> (#[trigger] chords[m]).start_char_index < (
            #[trigger] chords[m2]).start_char_index,
        forall|m: int| 0 <= m < chords.len() ==> (#[trigger] chords[m]).start_char_index < lyric.len(),
    ensures
        spec_song_line(lyric, chords).len() == lyric.len(),
        forall|m: int|
            0 <= m < chords.len() ==> spec_song_line(lyric, chords)[(
            #[trigger] chords[m]).start_char_index as int].chord == Some(chords[m].chord),
        forall|q: int|
            0 <= q < lyric.len() && (forall|m: int|
                0 <= m < chords.len() ==> (#[trigger] chords[m]).start_char_index != q)
                ==> (#[trigger] spec_song_line(lyric, chords)[q]).chord is None,
{
    lemma_attach_props(lyric, chords, 0, 0);
    assert forall|q: int|
        0 <= q < lyric.len() && (forall|m: int|
            0 <= m < chords.len() ==> (#[trigger] chords[m]).start_char_index != q) implies (
    #[trigger] spec_song_line(lyric, chords)[q]).chord is None by {
        assert(spec_attach(lyric, chords, 0, 0)[q - 0].chord is None);
    }
}

/// All bars of a section list, concatenated in order.
pub open spec fn concat_bars(secs: Seq<SectionView>) -> Seq<Seq<SongLineChar>>
    decreases secs.len(),
{
    if secs.len() == 0 {
        Seq::<Seq<SongLineChar>>::empty()
    } else {
        concat_bars(secs.drop_last()) + secs.last().lines
    }
}

/// The token sequence with its markup tokens removed.
pub open spec fn without_markup(ts: Seq<TokenView>) -> Seq<TokenView>
    decreases ts.len(),
{
    if ts.len() == 0 {
        Seq::<TokenView>::empty()
    } else if ts.last() is Markup {
        without_markup(ts.drop_last())
    } else {
        without_markup(ts.drop_last()).push(ts.last())
    }
}

/// Whether no markup token ever arrives while a chord line is pending: the
/// one case in which a markup token discards bars-to-be.
pub open spec fn no_markup_discard(ts: Seq<TokenView>) -> bool {
    forall|i: int|
        0 <= i < ts.len() && ts[i] is Markup ==> spec_build_fold(#[trigger] ts.take(i)).pending
            is None
}

proof fn lemma_partition_fold(ts: Seq<TokenView>)
    requires
        no_markup_discard(ts),
    ensures
        spec_build_fold(without_markup(ts)).done == Seq::<SectionView>::empty(),
        concat_bars(spec_build_fold(ts).done) + spec_build_fold(ts).cur_lines == spec_build_fold(
            without_markup(ts),
        ).cur_lines,
        spec_build_fold(ts).pending == spec_build_fold(without_markup(ts)).pending,
    decreases ts.len(),
{
    if ts.len() == 0 {
        assert(concat_bars(spec_build_fold(ts).done) + spec_build_fold(ts).cur_lines
            =~= spec_build_fold(without_markup(ts)).cur_lines);
    } else {
        let u = ts.drop_last();
        let t = ts.last();
        assert(no_markup_discard(u)) by {
            assert forall|i: int|
                0 <= i < u.len() && u[i] is Markup implies spec_build_fold(
                #[trigger] u.take(i),
            ).pending is None by {
                assert(u.take(i) =~= ts.take(i));
                assert(ts[i] is Markup);
            }
        }
        lemma_partition_fold(u);
        let bu = spec_build_fold(u);
        let cu = spec_build_fold(without_markup(u));
        assert(spec_build_fold(ts) == spec_build_step(bu, t));
        let b = spec_build_step(bu, t);
        match t {
            TokenView::Heading(_) => {
                assert(without_markup(ts) == without_markup(u).push(t));
                lemma_build_fold_push(without_markup(u), t);
            },
            TokenView::Markup(_) => {
                assert(without_markup(ts) == without_markup(u));
                assert(bu.pending is None) by {
                    assert(ts.take(ts.len() - 1) =~= u);
                    assert(ts[ts.len() - 1] is Markup);
                }
                assert(concat_bars(b.done) == concat_bars(bu.done) + bu.cur_lines) by {
                    assert(b.done.drop_last() =~= bu.done);
                    assert(b.done.last() == (SectionView {
                        markup: bu.cur_markup,
                        lines: bu.cur_lines,
                    }));
                }
                assert(concat_bars(b.done) + b.cur_lines =~= concat_bars(bu.done)
                    + bu.cur_lines);
            },
            TokenView::ChordLine(cs) => {
                assert(without_markup(ts) == without_markup(u).push(t));
                lemma_build_fold_push(without_markup(u), t);
                let c = spec_build_step(cu, t);
                match bu.pending {
                    Some(p) => {
                        assert(concat_bars(b.done) + b.cur_lines =~= (concat_bars(bu.done)
                            + bu.cur_lines).push(spec_chords_bar(p)));
                        assert(c.cur_lines == cu.cur_lines.push(spec_chords_bar(p)));
                    },
                    None => {},
                }
            },
            TokenView::LyricLine(l) => {
                assert(without_markup(ts) == without_markup(u).push(t));
                lemma_build_fold_push(without_markup(u), t);
                let c = spec_build_step(cu, t);
                match bu.pending {
                    Some(p) => {
                        assert(concat_bars(b.done) + b.cur_lines =~= (concat_bars(bu.done)
                            + bu.cur_lines).push(spec_song_line(l, p)));
                        assert(c.cur_lines == cu.cur_lines.push(spec_song_line(l, p)));
                    },
                    None => {
                        assert(concat_bars(b.done) + b.cur_lines =~= (concat_bars(bu.done)
                            + bu.cur_lines).push(spec_song_line(l, Seq::<ChordToken>::empty())));
                        assert(c.cur_lines == cu.cur_lines.push(
                            spec_song_line(l, Seq::<ChordToken>::empty()),
                        ));
                    },
                }
            },
        }
    }
}

/// Section partition: markup tokens only regroup bars into sections, never
/// dropping or reordering them — as long as no markup token arrives while a
/// chord line is pending (the one documented discard). The bars of the built
/// document, concatenated across its sections in order, equal the bars of the
/// document built from the same tokens with every markup token removed.
pub proof fn lemma_section_partition(ts: Seq<TokenView>)
    requires
        no_markup_discard(ts),
    ensures
        concat_bars(spec_build_ast(ts).song) == concat_bars(
            spec_build_ast(without_markup(ts)).song,
        ),
{
    lemma_partition_fold(ts);
    let b = spec_build_fold(ts);
    let c = spec_build_fold(without_markup(ts));
    let bl = match b.pending {
        Some(p) => b.cur_lines.push(spec_chords_bar(p)),
        None => b.cur_lines,
    };
    let cl = match c.pending {
        Some(p) => c.cur_lines.push(spec_chords_bar(p)),
        None => c.cur_lines,
    };
    assert(concat_bars(spec_build_ast(ts).song) == concat_bars(b.done) + bl) by {
        assert(spec_build_ast(ts).song.drop_last() =~= b.done);
    }
    assert(concat_bars(spec_build_ast(without_markup(ts)).song) == concat_bars(c.done) + cl) by {
        assert(spec_build_ast(without_markup(ts)).song.drop_last() =~= c.done);
    }
    match b.pending {
        Some(p) => {
            assert(concat_bars(b.done) + b.cur_lines.push(spec_chords_bar(p)) =~= (concat_bars(
                b.done,
            ) + b.cur_lines).push(spec_chords_bar(p)));
            assert(c.cur_lines.push(spec_chords_bar(p)) =~= Seq::<
                Seq<SongLineChar>,
            >::empty() + c.cur_lines.push(spec_chords_bar(p)));
        },
        None => {},
    }
    assert(concat_bars(c.done) + cl =~= cl);
    assert(concat_bars(b.done) + bl =~= cl);
}

} // verus!
