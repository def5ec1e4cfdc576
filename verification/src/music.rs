//! The chord domain model: pitch classes with their accepted spellings, the
//! major/minor quality read off the case of the first letter, and the optional
//! seventh/diminished modifier read off a trailing suffix.
use vstd::prelude::*;

use crate::text::{lower_char, str_to_char_vec, to_upper, upper_char, chars_to_string};

verus! {

/// One of the twelve pitch classes. Each has exactly one canonical display
/// spelling; some accept more than one input spelling.
#[derive(Clone, Copy, Debug, PartialEq, Eq)]
pub enum Note {
    B,
    Bb,
    A,
    Ab,
    G,
    Gb,
    F,
    E,
    Eb,
    D,
    Db,
    C,
}

/// The quality of a chord: a major or a minor third.
#[derive(Clone, Copy, Debug, PartialEq, Eq)]
pub enum ThirdInterval {
    Major,
    Minor,
}

/// A chord modifier, read off a trailing suffix of the chord word.
#[derive(Clone, Copy, Debug, PartialEq, Eq)]
pub enum NoteChange {
    Seven,
    Dimished,
}

/// A structured chord: base note, quality, optional modifier.
#[derive(Clone, Copy, Debug, PartialEq, Eq)]
pub struct Chord {
    pub base_note: Note,
    pub third_interval: ThirdInterval,
    pub change: Option<NoteChange>,
}

/// A word uppercased character by character, ASCII-wise.
pub open spec fn upper_all(w: Seq<char>) -> Seq<char> {
    w.map_values(|c: char| upper_char(c))
}

/// The note alias table: which uppercased spellings name which pitch class.
/// `B` and `H` are two spellings of the same class; a trailing `#` names the
/// class a semitone up from the letter.
pub open spec fn spec_note_of(w: Seq<char>) -> Option<Note> {
    let u = upper_all(w);
    if u.len() == 1 {
        if u[0] == 'B' || u[0] == 'H' {
            Some(Note::B)
        } else if u[0] == 'A' {
            Some(Note::A)
        } else if u[0] == 'G' {
            Some(Note::G)
        } else if u[0] == 'F' {
            Some(Note::F)
        } else if u[0] == 'E' {
            Some(Note::E)
        } else if u[0] == 'D' {
            Some(Note::D)
        } else if u[0] == 'C' {
            Some(Note::C)
        } else {
            None
        }
    } else if u.len() == 2 && u[1] == '#' {
        if u[0] == 'A' {
            Some(Note::Bb)
        } else if u[0] == 'G' {
            Some(Note::Ab)
        } else if u[0] == 'F' {
            Some(Note::Gb)
        } else if u[0] == 'D' {
            Some(Note::Eb)
        } else if u[0] == 'C' {
            Some(Note::Db)
        } else {
            None
        }
    } else {
        None
    }
}

/// The canonical display spelling of a pitch class, uppercase.
pub open spec fn spec_render_note(n: Note) -> Seq<char> {
    match n {
        Note::B => seq!['H'],
        Note::Bb => seq!['A', '#'],
        Note::A => seq!['A'],
        Note::Ab => seq!['G', '#'],
        Note::G => seq!['G'],
        Note::Gb => seq!['F', '#'],
        Note::F => seq!['F'],
        Note::E => seq!['E'],
        Note::Eb => seq!['D', '#'],
        Note::D => seq!['D'],
        Note::Db => seq!['C', '#'],
        Note::C => seq!['C'],
    }
}

/// The canonical display spelling of a pitch class, lowercase, used for minor
/// chords.
pub open spec fn spec_render_note_lower(n: Note) -> Seq<char> {
    match n {
        Note::B => seq!['h'],
        Note::Bb => seq!['a', '#'],
        Note::A => seq!['a'],
        Note::Ab => seq!['g', '#'],
        Note::G => seq!['g'],
        Note::Gb => seq!['f', '#'],
        Note::F => seq!['f'],
        Note::E => seq!['e'],
        Note::Eb => seq!['d', '#'],
        Note::D => seq!['d'],
        Note::Db => seq!['c', '#'],
        Note::C => seq!['c'],
    }
}

/// The display suffix of a modifier.
pub open spec fn spec_change_suffix(c: Option<NoteChange>) -> Seq<char> {
    match c {
        Option::None => Seq::<char>::empty(),
        Option::Some(NoteChange::Seven) => seq!['7'],
        Option::Some(NoteChange::Dimished) => seq!['D', 'i', 'm'],
    }
}

/// Whether a word carries the diminished suffix `_dim`.
pub open spec fn has_dim_suffix(w: Seq<char>) -> bool {
    w.len() >= 4 && w[w.len() - 4] == '_' && w[w.len() - 3] == 'd' && w[w.len() - 2] == 'i'
        && w[w.len() - 1] == 'm'
}

/// An ASCII lowercase letter: exactly the characters that uppercasing changes.
pub open spec fn is_ascii_lower(c: char) -> bool {
    upper_char(c) != c
}

/// What parsing a chord word yields. The seventh suffix is tried before the
/// diminished suffix; the remaining text decides quality by the case of its
/// first character and the note by the alias table.
pub open spec fn spec_parse_chord(w: Seq<char>) -> Option<Chord> {
    let seventh = w.len() >= 1 && w.last() == '7';
    let change: Option<NoteChange> = if seventh {
        Some(NoteChange::Seven)
    } else if has_dim_suffix(w) {
        Some(NoteChange::Dimished)
    } else {
        None
    };
    let body = if seventh {
        w.drop_last()
    } else if has_dim_suffix(w) {
        w.take(w.len() - 4)
    } else {
        w
    };
    if body.len() == 0 {
        None
    } else {
        let quality = if is_ascii_lower(body[0]) {
            ThirdInterval::Minor
        } else {
            ThirdInterval::Major
        };
        match spec_note_of(body) {
            Some(n) => Some(
                Chord { base_note: n, third_interval: quality, change },
            ),
            None => None,
        }
    }
}

/// What rendering a chord yields: the canonical spelling, lowercased for a
/// minor chord, followed by the modifier's suffix.
pub open spec fn spec_render_chord(c: Chord) -> Seq<char> {
    (match c.third_interval {
        ThirdInterval::Major => spec_render_note(c.base_note),
        ThirdInterval::Minor => spec_render_note_lower(c.base_note),
    }) + spec_change_suffix(c.change)
}

impl Note {
    /// Looks a word up in the note alias table, case-insensitively.
    pub fn from_string(string: &String) -> (r: Option<Note>)
        ensures
            r == spec_note_of(string@),
    {
        let v = str_to_char_vec(string.as_str());
        let mut u: Vec<char> = Vec::new();
        let mut i: usize = 0;
        while i < v.len()
            invariant
                i <= v@.len(),
                u@.len() == i,
                forall|k: int| 0 <= k < i ==> u@[k] == upper_char(v@[k]),
            decreases v@.len() - i,
        {
            u.push(to_upper(v[i]));
            i = i + 1;
        }
        proof {
            assert(u@ =~= upper_all(string@));
        }
        if u.len() == 1 {
            let c = u[0];
            if c == 'B' || c == 'H' {
                Some(Note::B)
            } else if c == 'A' {
                Some(Note::A)
            } else if c == 'G' {
                Some(Note::G)
            } else if c == 'F' {
                Some(Note::F)
            } else if c == 'E' {
                Some(Note::E)
            } else if c == 'D' {
                Some(Note::D)
            } else if c == 'C' {
                Some(Note::C)
            } else {
                None
            }
        } else if u.len() == 2 && u[1] == '#' {
            let c = u[0];
            if c == 'A' {
                Some(Note::Bb)
            } else if c == 'G' {
                Some(Note::Ab)
            } else if c == 'F' {
                Some(Note::Gb)
            } else if c == 'D' {
                Some(Note::Eb)
            } else if c == 'C' {
                Some(Note::Db)
            } else {
                None
            }
        } else {
            None
        }
    }

    /// The canonical display spelling of this pitch class.
    pub fn render(&self) -> (r: String)
        ensures
            r@ == spec_render_note(*self),
    {
        let mut v: Vec<char> = Vec::new();
        match self {
            Note::B => v.push('H'),
            Note::Bb => {
                v.push('A');
                v.push('#');
            },
            Note::A => v.push('A'),
            Note::Ab => {
                v.push('G');
                v.push('#');
            },
            Note::G => v.push('G'),
            Note::Gb => {
                v.push('F');
                v.push('#');
            },
            Note::F => v.push('F'),
            Note::E => v.push('E'),
            Note::Eb => {
                v.push('D');
                v.push('#');
            },
            Note::D => v.push('D'),
            Note::Db => {
                v.push('C');
                v.push('#');
            },
            Note::C => v.push('C'),
        }
        proof {
            assert(v@ =~= spec_render_note(*self));
        }
        chars_to_string(&v)
    }
}

impl Chord {
    /// Parses one whitespace-delimited word as a chord, or fails.
    pub fn from_string(string: &String) -> (r: Option<Chord>)
        ensures
            r == spec_parse_chord(string@),
    {
        let mut body = str_to_char_vec(string.as_str());
        let n = body.len();
        let change: Option<NoteChange> = if n >= 1 && body[n - 1] == '7' {
            body.truncate(n - 1);
            Some(NoteChange::Seven)
        } else if n >= 4 && body[n - 4] == '_' && body[n - 3] == 'd' && body[n - 2] == 'i'
            && body[n - 1] == 'm' {
            body.truncate(n - 4);
            Some(NoteChange::Dimished)
        } else {
            None
        };
        proof {
            if string@.len() >= 1 && string@.last() == '7' {
                assert(body@ =~= string@.drop_last());
            } else if has_dim_suffix(string@) {
                assert(body@ =~= string@.take(string@.len() - 4));
            }
        }
        if body.len() == 0 {
            return None;
        }
        let first = body[0];
        let third_interval = if to_upper(first) != first {
            ThirdInterval::Minor
        } else {
            ThirdInterval::Major
        };
        let body_str = chars_to_string(&body);
        match Note::from_string(&body_str) {
            Some(base_note) => Some(Chord { base_note, third_interval, change }),
            None => None,
        }
    }

    /// Renders a chord for display: canonical spelling, lowercased iff minor,
    /// with the modifier's suffix appended.
    pub fn render(&self) -> (r: String)
        ensures
            r@ == spec_render_chord(*self),
    {
        let mut v: Vec<char> = Vec::new();
        match self.third_interval {
            ThirdInterval::Major => {
                match self.base_note {
                    Note::B => v.push('H'),
                    Note::Bb => {
                        v.push('A');
                        v.push('#');
                    },
                    Note::A => v.push('A'),
                    Note::Ab => {
                        v.push('G');
                        v.push('#');
                    },
                    Note::G => v.push('G'),
                    Note::Gb => {
                        v.push('F');
                        v.push('#');
                    },
                    Note::F => v.push('F'),
                    Note::E => v.push('E'),
                    Note::Eb => {
                        v.push('D');
                        v.push('#');
                    },
                    Note::D => v.push('D'),
                    Note::Db => {
                        v.push('C');
                        v.push('#');
                    },
                    Note::C => v.push('C'),
                }
            },
            ThirdInterval::Minor => {
                match self.base_note {
                    Note::B => v.push('h'),
                    Note::Bb => {
                        v.push('a');
                        v.push('#');
                    },
                    Note::A => v.push('a'),
                    Note::Ab => {
                        v.push('g');
                        v.push('#');
                    },
                    Note::G => v.push('g'),
                    Note::Gb => {
                        v.push('f');
                        v.push('#');
                    },
                    Note::F => v.push('f'),
                    Note::E => v.push('e'),
                    Note::Eb => {
                        v.push('d');
                        v.push('#');
                    },
                    Note::D => v.push('d'),
                    Note::Db => {
                        v.push('c');
                        v.push('#');
                    },
                    Note::C => v.push('c'),
                }
            },
        }
        match self.change {
            None => {},
            Some(NoteChange::Seven) => v.push('7'),
            Some(NoteChange::Dimished) => {
                v.push('D');
                v.push('i');
                v.push('m');
            },
        }
        proof {
            assert(v@ =~= spec_render_chord(*self));
        }
        chars_to_string(&v)
    }
}

/// Chord round-trip: parsing a rendered chord yields the chord itself, for
/// every chord whose modifier is not diminished. (A diminished chord renders
/// with the display suffix `Dim`, which the parser does not accept; the
/// parser's suffix is `_dim`.)
pub proof fn lemma_chord_round_trip(c: Chord)
    requires
        c.change != Some(NoteChange::Dimished),
    ensures
        spec_parse_chord(spec_render_chord(c)) == Some(c),
{
    let base = match c.third_interval {
        ThirdInterval::Major => spec_render_note(c.base_note),
        ThirdInterval::Minor => spec_render_note_lower(c.base_note),
    };
    let w = spec_render_chord(c);
    match c.change {
        None => {
            assert(w =~= base);
        },
        Some(NoteChange::Seven) => {
            assert(w.last() == '7');
            assert(w.drop_last() =~= base);
        },
        Some(NoteChange::Dimished) => {},
    }
    assert(upper_all(base) =~= spec_render_note(c.base_note));
    assert(spec_note_of(base) == Some(c.base_note));
    assert(is_ascii_lower(base[0]) == (c.third_interval == ThirdInterval::Minor));
    assert(!(base.last() == '7'));
    assert(!has_dim_suffix(w));
}

} // verus!
