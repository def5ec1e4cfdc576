//! Characters, character classes, and position arithmetic over a character
//! sequence: everything the cursor and the tokenizer need to talk about text.
use vstd::prelude::*;

verus! {

/// Whitespace, as this library defines it: the ASCII whitespace characters.
pub open spec fn is_ws(c: char) -> bool {
    c == ' ' || c == '\t' || c == '\n' || c == '\r' || c == '\u{b}' || c == '\u{c}'
}

/// Executable test for [`is_ws`].
pub fn is_ws_char(c: char) -> (r: bool)
    ensures
        r == is_ws(c),
{
    c == ' ' || c == '\t' || c == '\n' || c == '\r' || c == '\u{b}' || c == '\u{c}'
}

/// The ASCII uppercase image of a character; characters outside `a..=z` are
/// unchanged.
pub open spec fn upper_char(c: char) -> char {
    match c {
        'a' => 'A',
        'b' => 'B',
        'c' => 'C',
        'd' => 'D',
        'e' => 'E',
        'f' => 'F',
        'g' => 'G',
        'h' => 'H',
        'i' => 'I',
        'j' => 'J',
        'k' => 'K',
        'l' => 'L',
        'm' => 'M',
        'n' => 'N',
        'o' => 'O',
        'p' => 'P',
        'q' => 'Q',
        'r' => 'R',
        's' => 'S',
        't' => 'T',
        'u' => 'U',
        'v' => 'V',
        'w' => 'W',
        'x' => 'X',
        'y' => 'Y',
        'z' => 'Z',
        _ => c,
    }
}

/// The ASCII lowercase image of a character; characters outside `A..=Z` are
/// unchanged.
pub open spec fn lower_char(c: char) -> char {
    match c {
        'A' => 'a',
        'B' => 'b',
        'C' => 'c',
        'D' => 'd',
        'E' => 'e',
        'F' => 'f',
        'G' => 'g',
        'H' => 'h',
        'I' => 'i',
        'J' => 'j',
        'K' => 'k',
        'L' => 'l',
        'M' => 'm',
        'N' => 'n',
        'O' => 'o',
        'P' => 'p',
        'Q' => 'q',
        'R' => 'r',
        'S' => 's',
        'T' => 't',
        'U' => 'u',
        'V' => 'v',
        'W' => 'w',
        'X' => 'x',
        'Y' => 'y',
        'Z' => 'z',
        _ => c,
    }
}

/// Executable ASCII uppercasing, one character.
pub fn to_upper(c: char) -> (r: char)
    ensures
        r == upper_char(c),
{
    match c {
        'a' => 'A',
        'b' => 'B',
        'c' => 'C',
        'd' => 'D',
        'e' => 'E',
        'f' => 'F',
        'g' => 'G',
        'h' => 'H',
        'i' => 'I',
        'j' => 'J',
        'k' => 'K',
        'l' => 'L',
        'm' => 'M',
        'n' => 'N',
        'o' => 'O',
        'p' => 'P',
        'q' => 'Q',
        'r' => 'R',
        's' => 'S',
        't' => 'T',
        'u' => 'U',
        'v' => 'V',
        'w' => 'W',
        'x' => 'X',
        'y' => 'Y',
        'z' => 'Z',
        _ => c,
    }
}

/// Executable ASCII lowercasing, one character.
pub fn to_lower(c: char) -> (r: char)
    ensures
        r == lower_char(c),
{
    match c {
        'A' => 'a',
        'B' => 'b',
        'C' => 'c',
        'D' => 'd',
        'E' => 'e',
        'F' => 'f',
        'G' => 'g',
        'H' => 'h',
        'I' => 'i',
        'J' => 'j',
        'K' => 'k',
        'L' => 'l',
        'M' => 'm',
        'N' => 'n',
        'O' => 'o',
        'P' => 'p',
        'Q' => 'q',
        'R' => 'r',
        'S' => 's',
        'T' => 't',
        'U' => 'u',
        'V' => 'v',
        'W' => 'w',
        'X' => 'x',
        'Y' => 'y',
        'Z' => 'z',
        _ => c,
    }
}

/// First index at or after `i` that does not hold whitespace (or `s.len()`).
pub open spec fn ws_end(s: Seq<char>, i: int) -> int
    decreases s.len() - i,
{
    if i < 0 || i >= s.len() {
        i
    } else if is_ws(s[i]) {
        ws_end(s, i + 1)
    } else {
        i
    }
}

/// First index at or after `i` that does not hold whitespace other than a
/// newline (or `s.len()`): skipping within one line.
pub open spec fn inline_ws_end(s: Seq<char>, i: int) -> int
    decreases s.len() - i,
{
    if i < 0 || i >= s.len() {
        i
    } else if is_ws(s[i]) && s[i] != '\n' {
        inline_ws_end(s, i + 1)
    } else {
        i
    }
}

/// First index at or after `i` that holds whitespace (or `s.len()`): the end
/// of the whitespace-delimited word starting at `i`.
pub open spec fn word_end(s: Seq<char>, i: int) -> int
    decreases s.len() - i,
{
    if i < 0 || i >= s.len() {
        i
    } else if !is_ws(s[i]) {
        word_end(s, i + 1)
    } else {
        i
    }
}

/// First index at or after `i` that holds a newline (or `s.len()`): the end of
/// the current line, exclusive.
pub open spec fn line_end(s: Seq<char>, i: int) -> int
    decreases s.len() - i,
{
    if i < 0 || i >= s.len() {
        i
    } else if s[i] != '\n' {
        line_end(s, i + 1)
    } else {
        i
    }
}

/// First index at or after `i` that holds `stop` or a newline (or `s.len()`).
pub open spec fn till_end(s: Seq<char>, i: int, stop: char) -> int
    decreases s.len() - i,
{
    if i < 0 || i >= s.len() {
        i
    } else if s[i] != stop && s[i] != '\n' {
        till_end(s, i + 1, stop)
    } else {
        i
    }
}

pub proof fn lemma_ws_end(s: Seq<char>, i: int)
    requires
        0 <= i <= s.len(),
    ensures
        i <= ws_end(s, i) <= s.len(),
        forall|k: int| i <= k < ws_end(s, i) ==> is_ws(s[k]),
        ws_end(s, i) < s.len() ==> !is_ws(s[ws_end(s, i)]),
    decreases s.len() - i,
{
    if i < s.len() && is_ws(s[i]) {
        lemma_ws_end(s, i + 1);
    }
}

pub proof fn lemma_ws_end_is(s: Seq<char>, i: int, j: int)
    requires
        0 <= i <= j <= s.len(),
        forall|k: int| i <= k < j ==> is_ws(s[k]),
        j < s.len() ==> !is_ws(s[j]),
    ensures
        ws_end(s, i) == j,
    decreases j - i,
{
    if i < j {
        lemma_ws_end_is(s, i + 1, j);
    }
}

pub proof fn lemma_inline_ws_end(s: Seq<char>, i: int)
    requires
        0 <= i <= s.len(),
    ensures
        i <= inline_ws_end(s, i) <= s.len(),
        forall|k: int| i <= k < inline_ws_end(s, i) ==> is_ws(s[k]) && s[k] != '\n',
        inline_ws_end(s, i) < s.len() ==> !(is_ws(s[inline_ws_end(s, i)]) && s[inline_ws_end(
            s,
            i,
        )] != '\n'),
    decreases s.len() - i,
{
    if i < s.len() && is_ws(s[i]) && s[i] != '\n' {
        lemma_inline_ws_end(s, i + 1);
    }
}

pub proof fn lemma_inline_ws_end_is(s: Seq<char>, i: int, j: int)
    requires
        0 <= i <= j <= s.len(),
        forall|k: int| i <= k < j ==> is_ws(s[k]) && s[k] != '\n',
        j < s.len() ==> !(is_ws(s[j]) && s[j] != '\n'),
    ensures
        inline_ws_end(s, i) == j,
    decreases j - i,
{
    if i < j {
        lemma_inline_ws_end_is(s, i + 1, j);
    }
}

pub proof fn lemma_word_end(s: Seq<char>, i: int)
    requires
        0 <= i <= s.len(),
    ensures
        i <= word_end(s, i) <= s.len(),
        forall|k: int| i <= k < word_end(s, i) ==> !is_ws(s[k]),
        word_end(s, i) < s.len() ==> is_ws(s[word_end(s, i)]),
    decreases s.len() - i,
{
    if i < s.len() && !is_ws(s[i]) {
        lemma_word_end(s, i + 1);
    }
}

pub proof fn lemma_word_end_is(s: Seq<char>, i: int, j: int)
    requires
        0 <= i <= j <= s.len(),
        forall|k: int| i <= k < j ==> !is_ws(s[k]),
        j < s.len() ==> is_ws(s[j]),
    ensures
        word_end(s, i) == j,
    decreases j - i,
{
    if i < j {
        lemma_word_end_is(s, i + 1, j);
    }
}

pub proof fn lemma_line_end(s: Seq<char>, i: int)
    requires
        0 <= i <= s.len(),
    ensures
        i <= line_end(s, i) <= s.len(),
        forall|k: int| i <= k < line_end(s, i) ==> s[k] != '\n',
        line_end(s, i) < s.len() ==> s[line_end(s, i)] == '\n',
    decreases s.len() - i,
{
    if i < s.len() && s[i] != '\n' {
        lemma_line_end(s, i + 1);
    }
}

pub proof fn lemma_line_end_is(s: Seq<char>, i: int, j: int)
    requires
        0 <= i <= j <= s.len(),
        forall|k: int| i <= k < j ==> s[k] != '\n',
        j < s.len() ==> s[j] == '\n',
    ensures
        line_end(s, i) == j,
    decreases j - i,
{
    if i < j {
        lemma_line_end_is(s, i + 1, j);
    }
}

pub proof fn lemma_till_end(s: Seq<char>, i: int, stop: char)
    requires
        0 <= i <= s.len(),
    ensures
        i <= till_end(s, i, stop) <= s.len(),
        forall|k: int| i <= k < till_end(s, i, stop) ==> s[k] != stop && s[k] != '\n',
        till_end(s, i, stop) < s.len() ==> (s[till_end(s, i, stop)] == stop || s[till_end(
            s,
            i,
            stop,
        )] == '\n'),
    decreases s.len() - i,
{
    if i < s.len() && s[i] != stop && s[i] != '\n' {
        lemma_till_end(s, i + 1, stop);
    }
}

pub proof fn lemma_till_end_is(s: Seq<char>, i: int, j: int, stop: char)
    requires
        0 <= i <= j <= s.len(),
        forall|k: int| i <= k < j ==> s[k] != stop && s[k] != '\n',
        j < s.len() ==> (s[j] == stop || s[j] == '\n'),
    ensures
        till_end(s, i, stop) == j,
    decreases j - i,
{
    if i < j {
        lemma_till_end_is(s, i + 1, j, stop);
    }
}

/// How many newlines a sequence holds.
pub open spec fn nl_count(s: Seq<char>) -> nat
    decreases s.len(),
{
    if s.len() == 0 {
        0
    } else {
        nl_count(s.drop_last()) + if s.last() == '\n' {
            1nat
        } else {
            0nat
        }
    }
}

/// How many characters follow the last newline of a sequence.
pub open spec fn tail_col(s: Seq<char>) -> nat
    decreases s.len(),
{
    if s.len() == 0 {
        0
    } else if s.last() == '\n' {
        0
    } else {
        tail_col(s.drop_last()) + 1
    }
}

/// The zero-based line index of position `p` in `s`.
pub open spec fn line_of(s: Seq<char>, p: int) -> nat {
    nl_count(s.take(p))
}

/// The zero-based column index of position `p` in `s`.
pub open spec fn col_of(s: Seq<char>, p: int) -> nat {
    tail_col(s.take(p))
}

pub proof fn lemma_nl_count_le(s: Seq<char>)
    ensures
        nl_count(s) <= s.len(),
    decreases s.len(),
{
    if s.len() > 0 {
        lemma_nl_count_le(s.drop_last());
    }
}

pub proof fn lemma_tail_col_le(s: Seq<char>)
    ensures
        tail_col(s) <= s.len(),
    decreases s.len(),
{
    if s.len() > 0 && s.last() != '\n' {
        lemma_tail_col_le(s.drop_last());
    }
}

/// Line and column indices never exceed the position itself.
pub proof fn lemma_pos_bounds(s: Seq<char>, p: int)
    requires
        0 <= p <= s.len(),
    ensures
        line_of(s, p) <= p,
        col_of(s, p) <= p,
{
    lemma_nl_count_le(s.take(p));
    lemma_tail_col_le(s.take(p));
}

/// How line and column indices change when one character is consumed.
pub proof fn lemma_pos_step(s: Seq<char>, p: int)
    requires
        0 <= p < s.len(),
    ensures
        s[p] == '\n' ==> line_of(s, p + 1) == line_of(s, p) + 1 && col_of(s, p + 1) == 0,
        s[p] != '\n' ==> line_of(s, p + 1) == line_of(s, p) && col_of(s, p + 1) == col_of(s, p)
            + 1,
{
    assert(s.take(p + 1).drop_last() =~= s.take(p));
    assert(s.take(p + 1).last() == s[p]);
}

/// Index after which a sequence holds only trailing whitespace.
pub open spec fn trim_end(s: Seq<char>) -> int
    decreases s.len(),
{
    if s.len() == 0 {
        0
    } else if is_ws(s.last()) {
        trim_end(s.drop_last())
    } else {
        s.len() as int
    }
}

/// A sequence with its leading and trailing whitespace removed.
pub open spec fn spec_trim(s: Seq<char>) -> Seq<char> {
    let b = trim_end(s);
    let a = if ws_end(s, 0) <= b {
        ws_end(s, 0)
    } else {
        b
    };
    s.subrange(a, b)
}

pub proof fn lemma_trim_end(s: Seq<char>)
    ensures
        0 <= trim_end(s) <= s.len(),
        forall|k: int| trim_end(s) <= k < s.len() ==> is_ws(s[k]),
        trim_end(s) > 0 ==> !is_ws(s[trim_end(s) - 1]),
    decreases s.len(),
{
    if s.len() > 0 && is_ws(s.last()) {
        lemma_trim_end(s.drop_last());
        assert forall|k: int| trim_end(s) <= k < s.len() implies is_ws(s[k]) by {
            if k < s.len() - 1 {
                assert(is_ws(s.drop_last()[k]));
                assert(s.drop_last()[k] == s[k]);
            } else {
                assert(s[k] == s.last());
            }
        }
    }
}

pub proof fn lemma_trim_end_is(s: Seq<char>, b: int)
    requires
        0 <= b <= s.len(),
        forall|k: int| b <= k < s.len() ==> is_ws(s[k]),
        b > 0 ==> !is_ws(s[b - 1]),
    ensures
        trim_end(s) == b,
    decreases s.len(),
{
    if s.len() > 0 {
        if is_ws(s.last()) {
            assert(b < s.len());
            assert(forall|k: int|
                b <= k < s.len() - 1 ==> is_ws(#[trigger] s.drop_last()[k]));
            lemma_trim_end_is(s.drop_last(), b);
        } else {
            assert(b == s.len());
        }
    }
}

/// Converts a string slice into the vector of its characters.
pub fn str_to_char_vec(s: &str) -> (v: Vec<char>)
    ensures
        v@ == s@,
{
    let n = s.unicode_len();
    let mut v: Vec<char> = Vec::new();
    let mut i: usize = 0;
    while i < n
        invariant
            i <= n,
            n == s@.len(),
            v@ =~= s@.take(i as int),
        decreases n - i,
    {
        let c = s.get_char(i);
        v.push(c);
        i = i + 1;
        proof {
            assert(v@ =~= s@.take(i as int));
        }
    }
    proof {
        assert(s@.take(n as int) =~= s@);
    }
    v
}

/// Appends every character of a string slice to a character vector.
pub fn append_str(out: &mut Vec<char>, s: &str)
    ensures
        final(out)@ == old(out)@ + s@,
{
    let ghost out0 = out@;
    let n = s.unicode_len();
    let mut i: usize = 0;
    while i < n
        invariant
            i <= n,
            n == s@.len(),
            out@ =~= out0 + s@.take(i as int),
        decreases n - i,
    {
        let c = s.get_char(i);
        out.push(c);
        i = i + 1;
        proof {
            assert(out@ =~= out0 + s@.take(i as int));
        }
    }
    proof {
        assert(s@.take(n as int) =~= s@);
    }
}

/// Relies on `String`'s `FromIterator<char>` implementation: collecting
/// characters yields the string of exactly those characters in order.
#[verifier::external_body]
pub fn chars_to_string(v: &Vec<char>) -> (s: String)
    ensures
        s@ == v@,
{
    v.iter().collect()
}

/// Removes leading and trailing whitespace from a character vector.
pub fn trim_chars(v: &Vec<char>) -> (r: Vec<char>)
    ensures
        r@ == spec_trim(v@),
{
    let mut b: usize = v.len();
    while b > 0 && is_ws_char(v[b - 1])
        invariant
            b <= v@.len(),
            forall|k: int| b <= k < v@.len() ==> is_ws(v@[k]),
        decreases b,
    {
        b = b - 1;
    }
    let mut a: usize = 0;
    while a < b && is_ws_char(v[a])
        invariant
            a <= b <= v@.len(),
            forall|k: int| 0 <= k < a ==> is_ws(v@[k]),
        decreases b - a,
    {
        a = a + 1;
    }
    proof {
        lemma_trim_end_is(v@, b as int);
        if a < b {
            lemma_ws_end_is(v@, 0, a as int);
        } else {
            lemma_ws_end(v@, 0);
            if ws_end(v@, 0) < b as int {
                assert(!is_ws(v@[ws_end(v@, 0)]));
            }
        }
    }
    let mut r: Vec<char> = Vec::new();
    let mut i: usize = a;
    while i < b
        invariant
            a <= i <= b <= v@.len(),
            r@ =~= v@.subrange(a as int, i as int),
        decreases b - i,
    {
        r.push(v[i]);
        i = i + 1;
        proof {
            assert(r@ =~= v@.subrange(a as int, i as int));
        }
    }
    proof {
        assert(r@ =~= spec_trim(v@));
    }
    r
}

} // verus!
