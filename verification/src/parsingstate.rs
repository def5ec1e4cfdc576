//! A single-pass character cursor with line/column/total position tracking,
//! one-character lookahead, and a result list for the tokens produced while
//! scanning. The character stream is held in memory; every reading helper is
//! built from `peek`/`read_next` alone.
use vstd::prelude::*;

use crate::text::{
    chars_to_string, col_of, inline_ws_end, is_ws, is_ws_char, lemma_inline_ws_end_is,
    lemma_line_end_is, lemma_pos_bounds, lemma_pos_step, lemma_till_end_is, lemma_word_end_is,
    lemma_ws_end_is, line_end, line_of, till_end, word_end, ws_end,
};

verus! {

/// The cursor over one input stream, together with the tokens pushed so far.
pub struct ParsingState<T> {
    pub input: Vec<char>,
    pub pos: usize,
    pub line: usize,
    pub col: usize,
    pub result: Vec<T>,
}

impl<T> ParsingState<T> {
    /// The whole character stream this cursor was created over.
    pub open spec fn input_view(self) -> Seq<char> {
        self.input@
    }

    /// How many characters have been consumed.
    pub open spec fn pos_of(self) -> int {
        self.pos as int
    }

    /// The cursor's line and column agree with the consumed prefix.
    pub open spec fn wf(self) -> bool {
        &&& self.pos <= self.input@.len()
        &&& self.line as nat == line_of(self.input@, self.pos as int)
        &&& self.col as nat == col_of(self.input@, self.pos as int)
    }

    /// The character `peek` and `read_next` see next, if any.
    pub open spec fn spec_peek(self) -> Option<char> {
        if self.pos_of() < self.input_view().len() {
            Some(self.input_view()[self.pos_of()])
        } else {
            None
        }
    }

    /// Creates a cursor at the start of the given character stream.
    pub fn new(input: Vec<char>) -> (s: Self)
        ensures
            s.wf(),
            s.input_view() == input@,
            s.pos_of() == 0,
            s.result@ == Seq::<T>::empty(),
    {
        let s = ParsingState { input, pos: 0, line: 0, col: 0, result: Vec::new() };
        proof {
            assert(s.input@.take(0) =~= Seq::<char>::empty());
        }
        s
    }

    /// One-character lookahead; consumes nothing.
    pub fn peek(&self) -> (r: Option<char>)
        ensures
            r == self.spec_peek(),
    {
        if self.pos < self.input.len() {
            Some(self.input[self.pos])
        } else {
            None
        }
    }

    /// The zero-based line index of the next unconsumed character.
    pub fn line_index(&self) -> (r: usize)
        requires
            self.wf(),
        ensures
            r as nat == line_of(self.input_view(), self.pos_of()),
    {
        self.line
    }

    /// The zero-based column index of the next unconsumed character.
    pub fn char_index(&self) -> (r: usize)
        requires
            self.wf(),
        ensures
            r as nat == col_of(self.input_view(), self.pos_of()),
    {
        self.col
    }

    /// Appends one produced element to the result list.
    pub fn push_to_result(&mut self, element: T)
        ensures
            final(self).input_view() == old(self).input_view(),
            final(self).pos_of() == old(self).pos_of(),
            old(self).wf() ==> final(self).wf(),
            final(self).result@ == old(self).result@.push(element),
    {
        self.result.push(element);
    }

    /// Consumes and returns one character, advancing the position counters; a
    /// newline moves to the start of the next line.
    pub fn read_next(&mut self) -> (r: Option<char>)
        requires
            old(self).wf(),
        ensures
            final(self).wf(),
            final(self).input_view() == old(self).input_view(),
            final(self).result == old(self).result,
            r == old(self).spec_peek(),
            old(self).pos_of() < old(self).input_view().len() ==> final(self).pos_of() == old(
                self,
            ).pos_of() + 1,
            old(self).pos_of() >= old(self).input_view().len() ==> final(self).pos_of() == old(
                self,
            ).pos_of(),
    {
        if self.pos < self.input.len() {
            let c = self.input[self.pos];
            proof {
                lemma_pos_bounds(self.input@, self.pos as int);
                lemma_pos_step(self.input@, self.pos as int);
            }
            self.pos = self.pos + 1;
            if c == '\n' {
                self.line = self.line + 1;
                self.col = 0;
            } else {
                self.col = self.col + 1;
            }
            Some(c)
        } else {
            None
        }
    }

    /// True iff the stream is exhausted.
    pub fn is_done(&self) -> (r: bool)
        ensures
            r == (self.spec_peek() is None),
    {
        match self.peek() {
            None => true,
            _ => false,
        }
    }

    /// Consumes every whitespace character before the next non-whitespace
    /// character or the end of the stream.
    pub fn skip_whitespace(&mut self)
        requires
            old(self).wf(),
        ensures
            final(self).wf(),
            final(self).input_view() == old(self).input_view(),
            final(self).result == old(self).result,
            final(self).pos_of() == ws_end(old(self).input_view(), old(self).pos_of()),
    {
        let ghost s0 = self.input@;
        let ghost p0 = self.pos as int;
        while self.pos < self.input.len() && is_ws_char(self.input[self.pos])
            invariant
                self.wf(),
                self.input@ == s0,
                self.result == old(self).result,
                0 <= p0 <= self.pos as int <= s0.len(),
                forall|k: int| p0 <= k < self.pos as int ==> is_ws(s0[k]),
            decreases s0.len() - self.pos as int,
        {
            let _c = self.read_next();
        }
        proof {
            lemma_ws_end_is(s0, p0, self.pos as int);
        }
    }

    /// Consumes whitespace as `skip_whitespace` does, but stops at a newline.
    pub fn skip_whitespace_but_not_linebreak(&mut self)
        requires
            old(self).wf(),
        ensures
            final(self).wf(),
            final(self).input_view() == old(self).input_view(),
            final(self).result == old(self).result,
            final(self).pos_of() == inline_ws_end(old(self).input_view(), old(self).pos_of()),
    {
        let ghost s0 = self.input@;
        let ghost p0 = self.pos as int;
        while self.pos < self.input.len() && self.input[self.pos] != '\n' && is_ws_char(
            self.input[self.pos],
        )
            invariant
                self.wf(),
                self.input@ == s0,
                self.result == old(self).result,
                0 <= p0 <= self.pos as int <= s0.len(),
                forall|k: int| p0 <= k < self.pos as int ==> is_ws(s0[k]) && s0[k] != '\n',
            decreases s0.len() - self.pos as int,
        {
            let _c = self.read_next();
        }
        proof {
            lemma_inline_ws_end_is(s0, p0, self.pos as int);
        }
    }

    /// Consumes whitespace as `skip_whitespace_but_not_linebreak` does and
    /// returns the consumed characters.
    pub fn read_whitespace_but_not_linebreak(&mut self) -> (r: String)
        requires
            old(self).wf(),
        ensures
            final(self).wf(),
            final(self).input_view() == old(self).input_view(),
            final(self).result == old(self).result,
            final(self).pos_of() == inline_ws_end(old(self).input_view(), old(self).pos_of()),
            r@ == old(self).input_view().subrange(old(self).pos_of(), final(self).pos_of()),
    {
        let ghost s0 = self.input@;
        let ghost p0 = self.pos as int;
        let mut out: Vec<char> = Vec::new();
        while self.pos < self.input.len() && self.input[self.pos] != '\n' && is_ws_char(
            self.input[self.pos],
        )
            invariant
                self.wf(),
                self.input@ == s0,
                self.result == old(self).result,
                0 <= p0 <= self.pos as int <= s0.len(),
                forall|k: int| p0 <= k < self.pos as int ==> is_ws(s0[k]) && s0[k] != '\n',
                out@ =~= s0.subrange(p0, self.pos as int),
            decreases s0.len() - self.pos as int,
        {
            out.push(self.input[self.pos]);
            let _c = self.read_next();
            proof {
                assert(out@ =~= s0.subrange(p0, self.pos as int));
            }
        }
        proof {
            lemma_inline_ws_end_is(s0, p0, self.pos as int);
        }
        chars_to_string(&out)
    }

    /// Reads the whitespace-delimited word starting here; stops before the
    /// first whitespace character (newline included) or the end of the stream.
    pub fn read_till_whitespace(&mut self) -> (r: String)
        requires
            old(self).wf(),
        ensures
            final(self).wf(),
            final(self).input_view() == old(self).input_view(),
            final(self).result == old(self).result,
            final(self).pos_of() == word_end(old(self).input_view(), old(self).pos_of()),
            r@ == old(self).input_view().subrange(old(self).pos_of(), final(self).pos_of()),
    {
        let ghost s0 = self.input@;
        let ghost p0 = self.pos as int;
        let mut out: Vec<char> = Vec::new();
        while self.pos < self.input.len() && !is_ws_char(self.input[self.pos])
            invariant
                self.wf(),
                self.input@ == s0,
                self.result == old(self).result,
                0 <= p0 <= self.pos as int <= s0.len(),
                forall|k: int| p0 <= k < self.pos as int ==> !is_ws(s0[k]),
                out@ =~= s0.subrange(p0, self.pos as int),
            decreases s0.len() - self.pos as int,
        {
            out.push(self.input[self.pos]);
            let _c = self.read_next();
            proof {
                assert(out@ =~= s0.subrange(p0, self.pos as int));
            }
        }
        proof {
            lemma_word_end_is(s0, p0, self.pos as int);
        }
        chars_to_string(&out)
    }

    /// Reads until the given character or a newline, whichever comes first;
    /// the stopping character is not consumed.
    pub fn read_till(&mut self, stop: char) -> (r: String)
        requires
            old(self).wf(),
        ensures
            final(self).wf(),
            final(self).input_view() == old(self).input_view(),
            final(self).result == old(self).result,
            final(self).pos_of() == till_end(old(self).input_view(), old(self).pos_of(), stop),
            r@ == old(self).input_view().subrange(old(self).pos_of(), final(self).pos_of()),
    {
        let ghost s0 = self.input@;
        let ghost p0 = self.pos as int;
        let mut out: Vec<char> = Vec::new();
        while self.pos < self.input.len() && self.input[self.pos] != stop && self.input[self.pos]
            != '\n'
            invariant
                self.wf(),
                self.input@ == s0,
                self.result == old(self).result,
                0 <= p0 <= self.pos as int <= s0.len(),
                forall|k: int| p0 <= k < self.pos as int ==> s0[k] != stop && s0[k] != '\n',
                out@ =~= s0.subrange(p0, self.pos as int),
            decreases s0.len() - self.pos as int,
        {
            out.push(self.input[self.pos]);
            let _c = self.read_next();
            proof {
                assert(out@ =~= s0.subrange(p0, self.pos as int));
            }
        }
        proof {
            lemma_till_end_is(s0, p0, self.pos as int, stop);
        }
        chars_to_string(&out)
    }

    /// Reads the rest of the current line, consuming but not returning its
    /// terminating newline. At the end of the stream it returns an empty
    /// string rather than failing.
    pub fn read_line(&mut self) -> (r: String)
        requires
            old(self).wf(),
        ensures
            final(self).wf(),
            final(self).input_view() == old(self).input_view(),
            final(self).result == old(self).result,
            r@ == old(self).input_view().subrange(
                old(self).pos_of(),
                line_end(old(self).input_view(), old(self).pos_of()),
            ),
            final(self).pos_of() == if line_end(old(self).input_view(), old(self).pos_of()) < old(
                self,
            ).input_view().len() {
                line_end(old(self).input_view(), old(self).pos_of()) + 1
            } else {
                old(self).input_view().len() as int
            },
    {
        let ghost s0 = self.input@;
        let ghost p0 = self.pos as int;
        let mut out: Vec<char> = Vec::new();
        while self.pos < self.input.len() && self.input[self.pos] != '\n'
            invariant
                self.wf(),
                self.input@ == s0,
                self.result == old(self).result,
                0 <= p0 <= self.pos as int <= s0.len(),
                forall|k: int| p0 <= k < self.pos as int ==> s0[k] != '\n',
                out@ =~= s0.subrange(p0, self.pos as int),
            decreases s0.len() - self.pos as int,
        {
            out.push(self.input[self.pos]);
            let _c = self.read_next();
            proof {
                assert(out@ =~= s0.subrange(p0, self.pos as int));
            }
        }
        proof {
            lemma_line_end_is(s0, p0, self.pos as int);
        }
        let _nl = self.read_next();
        chars_to_string(&out)
    }
}

} // verus!
