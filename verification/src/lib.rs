//! A verified converter for a constrained plain-text song notation: a heading,
//! a fenced body of interleaved chord-name lines and lyric lines, and optional
//! `[section]` markers, turned into HTML in which every chord name is attached,
//! as an inline annotation, to the lyric character it was written above.
pub mod ast;
pub mod html;
pub mod music;
pub mod parsingstate;
pub mod text;
pub mod tokenizer;

use vstd::prelude::*;

use crate::ast::{build_ast, spec_build_ast};
use crate::html::{ast_to_html, spec_ast_html};
use crate::parsingstate::ParsingState;
use crate::text::str_to_char_vec;
use crate::tokenizer::{
    parse_heading, parse_song, spec_heading, spec_song, views_of, SyntaxError, Token, TokenView,
};

verus! {

/// The input with a newline injected after its last line if the line lacked
/// one, so line-boundary logic never special-cases the last line.
pub open spec fn spec_with_final_newline(text: Seq<char>) -> Seq<char> {
    if text.len() > 0 && text.last() != '\n' {
        text.push('\n')
    } else {
        text
    }
}

/// What converting a whole song text yields: the HTML of the document built
/// from the heading and the body tokens, or the first structural error.
pub open spec fn spec_translate(text: Seq<char>) -> Result<Seq<char>, SyntaxError> {
    let s = spec_with_final_newline(text);
    match spec_heading(s, 0) {
        Err(e) => Err(e),
        Ok(res) => {
            let body = spec_song(s, res.1);
            match body.1 {
                Some(e) => Err(e),
                None => Ok(
                    spec_ast_html(
                        spec_build_ast(seq![TokenView::Heading(res.0)] + body.0),
                    ),
                ),
            }
        },
    }
}

/// Converts one song text into HTML: parses the heading and the fenced body,
/// builds the document, and renders it. Returns the first structural error
/// instead, with the position where it was found.
pub fn translate_text(input: &str) -> (r: Result<String, SyntaxError>)
    ensures
        match spec_translate(input@) {
            Ok(h) => r matches Ok(out) && out@ == h,
            Err(e) => r == Err::<String, SyntaxError>(e),
        },
{
    let mut v = str_to_char_vec(input);
    let needs_newline = v.len() > 0 && v[v.len() - 1] != '\n';
    if needs_newline {
        v.push('\n');
    }
    let ghost s = spec_with_final_newline(input@);
    proof {
        assert(v@ == s);
    }
    let mut state: ParsingState<Token> = ParsingState::new(v);
    let r1 = parse_heading(&mut state);
    if let Err(e) = r1 {
        return Err(e);
    }
    let r2 = parse_song(&mut state);
    if let Err(e) = r2 {
        return Err(e);
    }
    proof {
        let title = spec_heading(s, 0)->Ok_0.0;
        assert(Seq::<TokenView>::empty() + seq![TokenView::Heading(title)] =~= seq![
            TokenView::Heading(title),
        ]);
    }
    let ast = build_ast(state.result);
    let html = ast_to_html(&ast);
    Ok(html)
}

} // verus!
