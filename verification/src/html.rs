//! The renderer: walks the document and emits HTML. Every cell's character is
//! written literally; a cell with a chord is followed by an inline annotation
//! holding the chord's rendered text, tagged by whether the chord sits over
//! whitespace.
use vstd::prelude::*;

use crate::ast::{bar_views, SectionView, SongBar, SongLineChar, SongSection, AST, AstView};
use crate::music::spec_render_chord;
use crate::text::{append_str, chars_to_string, is_ws, is_ws_char, lower_char, str_to_char_vec, to_lower};

verus! {

/// The class of a chord annotation: `above-whitespace` iff the chord sits
/// over a whitespace character that follows another whitespace character (a
/// bar's first character counts as following a visible one).
pub open spec fn spec_chord_class(c: char, prev: char) -> Seq<char> {
    if is_ws(c) && is_ws(prev) {
        " class='above-whitespace'"@
    } else {
        " class='above-visible'"@
    }
}

/// The annotation emitted after one cell: nothing for a bare cell, an inline
/// chord tag for an annotated one.
pub open spec fn spec_annot(cell: SongLineChar, prev: char) -> Seq<char> {
    match cell.chord {
        Some(ch) => "<chord"@ + spec_chord_class(cell.ch, prev) + ">"@ + spec_render_chord(ch)
            + "</chord>"@,
        None => Seq::<char>::empty(),
    }
}

/// The HTML of a bar's cells from index `i` on; `prev` is the character of
/// the previous cell, `'a'` at the start of the bar.
pub open spec fn spec_cells_html(bar: Seq<SongLineChar>, i: int, prev: char) -> Seq<char>
    decreases bar.len() - i,
{
    if i < 0 || i >= bar.len() {
        Seq::<char>::empty()
    } else {
        seq![bar[i].ch] + spec_annot(bar[i], prev) + spec_cells_html(bar, i + 1, bar[i].ch)
    }
}

/// The HTML of one bar.
pub open spec fn spec_bar_html(bar: Seq<SongLineChar>) -> Seq<char> {
    "<span class='bar'>"@ + spec_cells_html(bar, 0, 'a') + "</span> "@
}

/// A markup label normalized to a class name: spaces become underscores,
/// letters lowercase.
pub open spec fn spec_class_conform(s: Seq<char>) -> Seq<char> {
    s.map_values(
        |c: char|
            if c == ' ' {
                '_'
            } else {
                lower_char(c)
            },
    )
}

/// The HTML of a section's bars from index `i` on, concatenated.
pub open spec fn spec_bars_html(lines: Seq<Seq<SongLineChar>>, i: int) -> Seq<char>
    decreases lines.len() - i,
{
    if i < 0 || i >= lines.len() {
        Seq::<char>::empty()
    } else {
        spec_bar_html(lines[i]) + spec_bars_html(lines, i + 1)
    }
}

/// The HTML of one section: its bars inside a paragraph whose class is the
/// normalized markup label.
pub open spec fn spec_section_html(sec: SectionView) -> Seq<char> {
    "\n        <p  class='"@ + spec_class_conform(sec.markup) + "'>\n            "@
        + spec_bars_html(sec.lines, 0) + " \n        </p>"@
}

/// The HTML of the sections from index `i` on, concatenated.
pub open spec fn spec_sections_html(secs: Seq<SectionView>, i: int) -> Seq<char>
    decreases secs.len() - i,
{
    if i < 0 || i >= secs.len() {
        Seq::<char>::empty()
    } else {
        spec_section_html(secs[i]) + spec_sections_html(secs, i + 1)
    }
}

/// The HTML of the whole document: the fixed skeleton with its stylesheet
/// link, the heading, and the sections.
pub open spec fn spec_ast_html(a: AstView) -> Seq<char> {
    "<!DOCTYPE html>\n<html>\n<head>\n    <link rel='stylesheet' href='SimpleChords.css'>\n</head>\n<body>\n    <h1>"@
        + a.heading + "</h1>\n    "@ + spec_sections_html(a.song, 0) + "\n</body>"@
}

proof fn lemma_cells_step(
    bar: Seq<SongLineChar>,
    i: int,
    prev: char,
    acc: Seq<char>,
    ext: Seq<char>,
)
    requires
        0 <= i < bar.len(),
        ext == acc.push(bar[i].ch) + spec_annot(bar[i], prev),
    ensures
        acc + spec_cells_html(bar, i, prev) == ext + spec_cells_html(bar, i + 1, bar[i].ch),
{
    let rest = spec_cells_html(bar, i + 1, bar[i].ch);
    assert(spec_cells_html(bar, i, prev) == seq![bar[i].ch] + spec_annot(bar[i], prev) + rest);
    assert(acc + (seq![bar[i].ch] + spec_annot(bar[i], prev) + rest) =~= (acc.push(bar[i].ch)
        + spec_annot(bar[i], prev)) + rest);
}

/// Appends the annotation of one cell: nothing, or an inline chord tag
/// carrying the positional class and the chord's rendered text.
fn push_annot(out: &mut Vec<char>, cell: SongLineChar, prev: char)
    ensures
        final(out)@ == old(out)@ + spec_annot(cell, prev),
{
    match cell.chord {
        None => {
            proof {
                assert(out@ + Seq::<char>::empty() =~= out@);
            }
        },
        Some(chord) => {
            append_str(out, "<chord");
            if is_ws_char(cell.ch) && is_ws_char(prev) {
                append_str(out, " class='above-whitespace'");
            } else {
                append_str(out, " class='above-visible'");
            }
            append_str(out, ">");
            let chord_str = chord.render();
            append_str(out, chord_str.as_str());
            append_str(out, "</chord>");
            proof {
                assert(out@ =~= old(out)@ + spec_annot(cell, prev));
            }
        },
    }
}

/// Renders one bar: its cells and their annotations inside a `span`.
pub fn song_bar_to_html(line: &SongBar) -> (r: String)
    ensures
        r@ == spec_bar_html(line@),
{
    let mut out: Vec<char> = Vec::new();
    append_str(&mut out, "<span class='bar'>");
    let ghost prefix = "<span class='bar'>"@;
    let mut prev: char = 'a';
    let mut i: usize = 0;
    proof {
        assert(Seq::<char>::empty() + prefix =~= prefix);
    }
    while i < line.len()
        invariant
            i <= line@.len(),
            prefix + spec_cells_html(line@, 0, 'a') == out@ + spec_cells_html(
                line@,
                i as int,
                prev,
            ),
        decreases line@.len() - i,
    {
        let ghost i0 = i as int;
        let ghost prev0 = prev;
        let ghost out0 = out@;
        let cell = line[i];
        out.push(cell.ch);
        push_annot(&mut out, cell, prev);
        prev = cell.ch;
        i = i + 1;
        proof {
            lemma_cells_step(line@, i0, prev0, out0, out@);
        }
    }
    append_str(&mut out, "</span> ");
    proof {
        assert(spec_cells_html(line@, line@.len() as int, prev) =~= Seq::<char>::empty());
        assert((prefix + spec_cells_html(line@, 0, 'a')) + Seq::<char>::empty() =~= prefix
            + spec_cells_html(line@, 0, 'a'));
        assert(out@ =~= spec_bar_html(line@));
    }
    chars_to_string(&out)
}

/// Normalizes a markup label for use as a class name: spaces to underscores,
/// ASCII letters to lowercase.
pub fn make_string_html_class_conform(string: &String) -> (r: String)
    ensures
        r@ == spec_class_conform(string@),
{
    let v = str_to_char_vec(string.as_str());
    let mut out: Vec<char> = Vec::new();
    let mut i: usize = 0;
    while i < v.len()
        invariant
            i <= v@.len(),
            v@ == string@,
            out@.len() == i,
            forall|k: int|
                0 <= k < i ==> out@[k] == (if v@[k] == ' ' {
                    '_'
                } else {
                    lower_char(v@[k])
                }),
        decreases v@.len() - i,
    {
        let c = v[i];
        if c == ' ' {
            out.push('_');
        } else {
            out.push(to_lower(c));
        }
        i = i + 1;
    }
    proof {
        assert(out@ =~= spec_class_conform(string@));
    }
    chars_to_string(&out)
}

proof fn lemma_bars_step(lines: Seq<Seq<SongLineChar>>, i: int, acc: Seq<char>, ext: Seq<char>)
    requires
        0 <= i < lines.len(),
        ext == acc + spec_bar_html(lines[i]),
    ensures
        acc + spec_bars_html(lines, i) == ext + spec_bars_html(lines, i + 1),
{
    let rest = spec_bars_html(lines, i + 1);
    assert(spec_bars_html(lines, i) == spec_bar_html(lines[i]) + rest);
    assert(acc + (spec_bar_html(lines[i]) + rest) =~= (acc + spec_bar_html(lines[i])) + rest);
}

/// Renders one section: its bars concatenated inside a paragraph classed with
/// the normalized markup label.
pub fn section_to_html(sec: &SongSection) -> (r: String)
    ensures
        r@ == spec_section_html(sec@),
{
    let mut lines_out: Vec<char> = Vec::new();
    let mut i: usize = 0;
    proof {
        assert(Seq::<char>::empty() + spec_bars_html(bar_views(sec.lines@), 0) =~= spec_bars_html(
            bar_views(sec.lines@),
            0,
        ));
    }
    while i < sec.lines.len()
        invariant
            i <= sec.lines@.len(),
            spec_bars_html(bar_views(sec.lines@), 0) == lines_out@ + spec_bars_html(
                bar_views(sec.lines@),
                i as int,
            ),
        decreases sec.lines@.len() - i,
    {
        let ghost i0 = i as int;
        let ghost out0 = lines_out@;
        let bar_html = song_bar_to_html(&sec.lines[i]);
        append_str(&mut lines_out, bar_html.as_str());
        i = i + 1;
        proof {
            assert(bar_views(sec.lines@)[i0] == sec.lines@[i0]@);
            lemma_bars_step(bar_views(sec.lines@), i0, out0, lines_out@);
        }
    }
    let mut out: Vec<char> = Vec::new();
    append_str(&mut out, "\n        <p  class='");
    let class = make_string_html_class_conform(&sec.markup);
    append_str(&mut out, class.as_str());
    append_str(&mut out, "'>\n            ");
    let lines_str = chars_to_string(&lines_out);
    append_str(&mut out, lines_str.as_str());
    append_str(&mut out, " \n        </p>");
    proof {
        assert(spec_bars_html(bar_views(sec.lines@), sec.lines@.len() as int) =~= Seq::<
            char,
        >::empty());
        assert(lines_out@ + Seq::<char>::empty() =~= lines_out@);
        assert(out@ =~= spec_section_html(sec@));
    }
    chars_to_string(&out)
}

proof fn lemma_sections_step(secs: Seq<SectionView>, i: int, acc: Seq<char>, ext: Seq<char>)
    requires
        0 <= i < secs.len(),
        ext == acc + spec_section_html(secs[i]),
    ensures
        acc + spec_sections_html(secs, i) == ext + spec_sections_html(secs, i + 1),
{
    let rest = spec_sections_html(secs, i + 1);
    assert(spec_sections_html(secs, i) == spec_section_html(secs[i]) + rest);
    assert(acc + (spec_section_html(secs[i]) + rest) =~= (acc + spec_section_html(secs[i]))
        + rest);
}

/// Renders the whole document: the fixed skeleton, the heading, and every
/// section in order.
pub fn ast_to_html(ast: &AST) -> (r: String)
    ensures
        r@ == spec_ast_html(ast@),
{
    let mut sections_out: Vec<char> = Vec::new();
    let mut i: usize = 0;
    proof {
        assert(Seq::<char>::empty() + spec_sections_html(ast@.song, 0) =~= spec_sections_html(
            ast@.song,
            0,
        ));
    }
    while i < ast.song.len()
        invariant
            i <= ast.song@.len(),
            spec_sections_html(ast@.song, 0) == sections_out@ + spec_sections_html(
                ast@.song,
                i as int,
            ),
        decreases ast.song@.len() - i,
    {
        let ghost i0 = i as int;
        let ghost out0 = sections_out@;
        let sec_html = section_to_html(&ast.song[i]);
        append_str(&mut sections_out, sec_html.as_str());
        i = i + 1;
        proof {
            assert(ast@.song[i0] == ast.song@[i0]@);
            lemma_sections_step(ast@.song, i0, out0, sections_out@);
        }
    }
    let mut out: Vec<char> = Vec::new();
    append_str(
        &mut out,
        "<!DOCTYPE html>\n<html>\n<head>\n    <link rel='stylesheet' href='SimpleChords.css'>\n</head>\n<body>\n    <h1>",
    );
    append_str(&mut out, ast.heading.as_str());
    append_str(&mut out, "</h1>\n    ");
    let sections_str = chars_to_string(&sections_out);
    append_str(&mut out, sections_str.as_str());
    append_str(&mut out, "\n</body>");
    proof {
        assert(spec_sections_html(ast@.song, ast.song@.len() as int) =~= Seq::<char>::empty());
        assert(sections_out@ + Seq::<char>::empty() =~= sections_out@);
        assert(out@ =~= spec_ast_html(ast@));
    }
    chars_to_string(&out)
}

} // verus!
