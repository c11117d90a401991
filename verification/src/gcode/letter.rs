//! The command letters of the language.

use vstd::prelude::*;
use vstd::std_specs::convert::TryFromSpecImpl;
use crate::gcode::parser::ParserErrorReason;

verus! {

/// One of the 23 command letters: the alphabet without E, N and O.
#[derive(Clone, Copy, Debug, PartialEq, Eq, Hash, Structural)]
pub enum GcodeLetter {
    A,
    B,
    C,
    D,
    F,
    G,
    H,
    I,
    J,
    K,
    L,
    M,
    P,
    Q,
    R,
    S,
    T,
    U,
    V,
    W,
    X,
    Y,
    Z,
}

/// The upper-case form of an ASCII letter; any other character is itself.
pub open spec fn upper(c: char) -> char {
    if 'a' <= c && c <= 'z' {
        ((c as u8) - 32) as char
    } else {
        c
    }
}

impl GcodeLetter {
    /// The character that names this letter in canonical (upper-case) form.
    pub open spec fn spec_symbol(self) -> char {
        match self {
            GcodeLetter::A => 'A',
            GcodeLetter::B => 'B',
            GcodeLetter::C => 'C',
            GcodeLetter::D => 'D',
            GcodeLetter::F => 'F',
            GcodeLetter::G => 'G',
            GcodeLetter::H => 'H',
            GcodeLetter::I => 'I',
            GcodeLetter::J => 'J',
            GcodeLetter::K => 'K',
            GcodeLetter::L => 'L',
            GcodeLetter::M => 'M',
            GcodeLetter::P => 'P',
            GcodeLetter::Q => 'Q',
            GcodeLetter::R => 'R',
            GcodeLetter::S => 'S',
            GcodeLetter::T => 'T',
            GcodeLetter::U => 'U',
            GcodeLetter::V => 'V',
            GcodeLetter::W => 'W',
            GcodeLetter::X => 'X',
            GcodeLetter::Y => 'Y',
            GcodeLetter::Z => 'Z',
        }
    }

    #[verifier::when_used_as_spec(spec_symbol)]
    pub fn symbol(self) -> (c: char)
        ensures
            c == self.spec_symbol(),
    {
        match self {
            GcodeLetter::A => 'A',
            GcodeLetter::B => 'B',
            GcodeLetter::C => 'C',
            GcodeLetter::D => 'D',
            GcodeLetter::F => 'F',
            GcodeLetter::G => 'G',
            GcodeLetter::H => 'H',
            GcodeLetter::I => 'I',
            GcodeLetter::J => 'J',
            GcodeLetter::K => 'K',
            GcodeLetter::L => 'L',
            GcodeLetter::M => 'M',
            GcodeLetter::P => 'P',
            GcodeLetter::Q => 'Q',
            GcodeLetter::R => 'R',
            GcodeLetter::S => 'S',
            GcodeLetter::T => 'T',
            GcodeLetter::U => 'U',
            GcodeLetter::V => 'V',
            GcodeLetter::W => 'W',
            GcodeLetter::X => 'X',
            GcodeLetter::Y => 'Y',
            GcodeLetter::Z => 'Z',
        }
    }

    /// The place of this letter among the 23, from 0.
    pub open spec fn spec_index(self) -> usize {
        match self {
            GcodeLetter::A => 0,
            GcodeLetter::B => 1,
            GcodeLetter::C => 2,
            GcodeLetter::D => 3,
            GcodeLetter::F => 4,
            GcodeLetter::G => 5,
            GcodeLetter::H => 6,
            GcodeLetter::I => 7,
            GcodeLetter::J => 8,
            GcodeLetter::K => 9,
            GcodeLetter::L => 10,
            GcodeLetter::M => 11,
            GcodeLetter::P => 12,
            GcodeLetter::Q => 13,
            GcodeLetter::R => 14,
            GcodeLetter::S => 15,
            GcodeLetter::T => 16,
            GcodeLetter::U => 17,
            GcodeLetter::V => 18,
            GcodeLetter::W => 19,
            GcodeLetter::X => 20,
            GcodeLetter::Y => 21,
            GcodeLetter::Z => 22,
        }
    }

    #[verifier::when_used_as_spec(spec_index)]
    pub fn index(self) -> (i: usize)
        ensures
            i == self.spec_index(),
            i < 23,
    {
        match self {
            GcodeLetter::A => 0,
            GcodeLetter::B => 1,
            GcodeLetter::C => 2,
            GcodeLetter::D => 3,
            GcodeLetter::F => 4,
            GcodeLetter::G => 5,
            GcodeLetter::H => 6,
            GcodeLetter::I => 7,
            GcodeLetter::J => 8,
            GcodeLetter::K => 9,
            GcodeLetter::L => 10,
            GcodeLetter::M => 11,
            GcodeLetter::P => 12,
            GcodeLetter::Q => 13,
            GcodeLetter::R => 14,
            GcodeLetter::S => 15,
            GcodeLetter::T => 16,
            GcodeLetter::U => 17,
            GcodeLetter::V => 18,
            GcodeLetter::W => 19,
            GcodeLetter::X => 20,
            GcodeLetter::Y => 21,
            GcodeLetter::Z => 22,
        }
    }
}

/// The letter that a character names, in either case.
pub open spec fn letter_of(c: char) -> Option<GcodeLetter> {
    match upper(c) {
        'A' => Some(GcodeLetter::A),
        'B' => Some(GcodeLetter::B),
        'C' => Some(GcodeLetter::C),
        'D' => Some(GcodeLetter::D),
        'F' => Some(GcodeLetter::F),
        'G' => Some(GcodeLetter::G),
        'H' => Some(GcodeLetter::H),
        'I' => Some(GcodeLetter::I),
        'J' => Some(GcodeLetter::J),
        'K' => Some(GcodeLetter::K),
        'L' => Some(GcodeLetter::L),
        'M' => Some(GcodeLetter::M),
        'P' => Some(GcodeLetter::P),
        'Q' => Some(GcodeLetter::Q),
        'R' => Some(GcodeLetter::R),
        'S' => Some(GcodeLetter::S),
        'T' => Some(GcodeLetter::T),
        'U' => Some(GcodeLetter::U),
        'V' => Some(GcodeLetter::V),
        'W' => Some(GcodeLetter::W),
        'X' => Some(GcodeLetter::X),
        'Y' => Some(GcodeLetter::Y),
        'Z' => Some(GcodeLetter::Z),
        _ => None,
    }
}

impl TryFromSpecImpl<char> for GcodeLetter {
    open spec fn obeys_try_from_spec() -> bool {
        true
    }

    open spec fn try_from_spec(value: char) -> Result<Self, ParserErrorReason> {
        match letter_of(value) {
            Some(letter) => Ok(letter),
            None => Err(ParserErrorReason::ExpectedLetter),
        }
    }
}

impl TryFrom<char> for GcodeLetter {
    type Error = ParserErrorReason;

    fn try_from(value: char) -> (result: Result<Self, ParserErrorReason>) {
        let found = match value {
            'a' | 'A' => Some(GcodeLetter::A),
            'b' | 'B' => Some(GcodeLetter::B),
            'c' | 'C' => Some(GcodeLetter::C),
            'd' | 'D' => Some(GcodeLetter::D),
            'f' | 'F' => Some(GcodeLetter::F),
            'g' | 'G' => Some(GcodeLetter::G),
            'h' | 'H' => Some(GcodeLetter::H),
            'i' | 'I' => Some(GcodeLetter::I),
            'j' | 'J' => Some(GcodeLetter::J),
            'k' | 'K' => Some(GcodeLetter::K),
            'l' | 'L' => Some(GcodeLetter::L),
            'm' | 'M' => Some(GcodeLetter::M),
            'p' | 'P' => Some(GcodeLetter::P),
            'q' | 'Q' => Some(GcodeLetter::Q),
            'r' | 'R' => Some(GcodeLetter::R),
            's' | 'S' => Some(GcodeLetter::S),
            't' | 'T' => Some(GcodeLetter::T),
            'u' | 'U' => Some(GcodeLetter::U),
            'v' | 'V' => Some(GcodeLetter::V),
            'w' | 'W' => Some(GcodeLetter::W),
            'x' | 'X' => Some(GcodeLetter::X),
            'y' | 'Y' => Some(GcodeLetter::Y),
            'z' | 'Z' => Some(GcodeLetter::Z),
            _ => None,
        };
        match found {
            Some(letter) => Ok(letter),
            None => Err(ParserErrorReason::ExpectedLetter),
        }
    }
}

/// How many command letters there are.
pub const LETTERS: usize = 23;

/// The letters in the order of their places.
pub open spec fn alphabet() -> Seq<GcodeLetter> {
    seq![
        GcodeLetter::A,
        GcodeLetter::B,
        GcodeLetter::C,
        GcodeLetter::D,
        GcodeLetter::F,
        GcodeLetter::G,
        GcodeLetter::H,
        GcodeLetter::I,
        GcodeLetter::J,
        GcodeLetter::K,
        GcodeLetter::L,
        GcodeLetter::M,
        GcodeLetter::P,
        GcodeLetter::Q,
        GcodeLetter::R,
        GcodeLetter::S,
        GcodeLetter::T,
        GcodeLetter::U,
        GcodeLetter::V,
        GcodeLetter::W,
        GcodeLetter::X,
        GcodeLetter::Y,
        GcodeLetter::Z,
    ]
}

/// Each letter has a place of its own among the 23.
pub proof fn lemma_letter_places(a: GcodeLetter, b: GcodeLetter)
    ensures
        alphabet().len() == LETTERS,
        a.spec_index() < LETTERS,
        alphabet()[a.spec_index() as int] == a,
        a.spec_index() == b.spec_index() ==> a == b,
{
    assert(alphabet()[b.spec_index() as int] == b);
}

/// Either case of a letter names it, and nothing else does.
pub proof fn lemma_letter_symbols(letter: GcodeLetter, c: char)
    ensures
        letter_of(letter.spec_symbol()) == Some(letter),
        letter_of(c) == letter_of(upper(c)),
        letter_of(c) == Some(letter) <==> upper(c) == letter.spec_symbol(),
{
}

} // verus!
