use vstd::prelude::*;

verus! {

/// One symbol of the fixed, totally ordered alphabet `A < B < ... < Z`.
#[derive(Clone, Copy, Debug, PartialEq, Eq, Structural, PartialOrd, Ord, Hash)]
pub enum Letter {
    A, B, C, D, E, F, G, H, I, J, K, L, M,
    N, O, P, Q, R, S, T, U, V, W, X, Y, Z,
}

impl Letter {
    /// Position of the letter in the alphabet, `A` being 0.
    pub open spec fn rank(self) -> nat {
        match self {
            Letter::A => 0,
            Letter::B => 1,
            Letter::C => 2,
            Letter::D => 3,
            Letter::E => 4,
            Letter::F => 5,
            Letter::G => 6,
            Letter::H => 7,
            Letter::I => 8,
            Letter::J => 9,
            Letter::K => 10,
            Letter::L => 11,
            Letter::M => 12,
            Letter::N => 13,
            Letter::O => 14,
            Letter::P => 15,
            Letter::Q => 16,
            Letter::R => 17,
            Letter::S => 18,
            Letter::T => 19,
            Letter::U => 20,
            Letter::V => 21,
            Letter::W => 22,
            Letter::X => 23,
            Letter::Y => 24,
            Letter::Z => 25,
        }
    }

    /// The upper-case character that names the letter.
    pub open spec fn upper(self) -> char {
        match self {
            Letter::A => 'A',
            Letter::B => 'B',
            Letter::C => 'C',
            Letter::D => 'D',
            Letter::E => 'E',
            Letter::F => 'F',
            Letter::G => 'G',
            Letter::H => 'H',
            Letter::I => 'I',
            Letter::J => 'J',
            Letter::K => 'K',
            Letter::L => 'L',
            Letter::M => 'M',
            Letter::N => 'N',
            Letter::O => 'O',
            Letter::P => 'P',
            Letter::Q => 'Q',
            Letter::R => 'R',
            Letter::S => 'S',
            Letter::T => 'T',
            Letter::U => 'U',
            Letter::V => 'V',
            Letter::W => 'W',
            Letter::X => 'X',
            Letter::Y => 'Y',
            Letter::Z => 'Z',
        }
    }

    /// The lower-case character that names the letter.
    pub open spec fn lower(self) -> char {
        match self {
            Letter::A => 'a',
            Letter::B => 'b',
            Letter::C => 'c',
            Letter::D => 'd',
            Letter::E => 'e',
            Letter::F => 'f',
            Letter::G => 'g',
            Letter::H => 'h',
            Letter::I => 'i',
            Letter::J => 'j',
            Letter::K => 'k',
            Letter::L => 'l',
            Letter::M => 'm',
            Letter::N => 'n',
            Letter::O => 'o',
            Letter::P => 'p',
            Letter::Q => 'q',
            Letter::R => 'r',
            Letter::S => 's',
            Letter::T => 't',
            Letter::U => 'u',
            Letter::V => 'v',
            Letter::W => 'w',
            Letter::X => 'x',
            Letter::Y => 'y',
            Letter::Z => 'z',
        }
    }
}

/// The letter at position `i` of the alphabet (`i < 26`).
pub open spec fn letter_at(i: nat) -> Letter {
    if i == 0 {
        Letter::A
    } else if i == 1 {
        Letter::B
    } else if i == 2 {
        Letter::C
    } else if i == 3 {
        Letter::D
    } else if i == 4 {
        Letter::E
    } else if i == 5 {
        Letter::F
    } else if i == 6 {
        Letter::G
    } else if i == 7 {
        Letter::H
    } else if i == 8 {
        Letter::I
    } else if i == 9 {
        Letter::J
    } else if i == 10 {
        Letter::K
    } else if i == 11 {
        Letter::L
    } else if i == 12 {
        Letter::M
    } else if i == 13 {
        Letter::N
    } else if i == 14 {
        Letter::O
    } else if i == 15 {
        Letter::P
    } else if i == 16 {
        Letter::Q
    } else if i == 17 {
        Letter::R
    } else if i == 18 {
        Letter::S
    } else if i == 19 {
        Letter::T
    } else if i == 20 {
        Letter::U
    } else if i == 21 {
        Letter::V
    } else if i == 22 {
        Letter::W
    } else if i == 23 {
        Letter::X
    } else if i == 24 {
        Letter::Y
    } else {
        Letter::Z
    }
}

/// The letter a character names, in either case, if any.
pub open spec fn letter_of_char(c: char) -> Option<Letter> {
    let code = c as u32;
    if 65 <= code <= 90 {
        Some(letter_at((code - 65) as nat))
    } else if 97 <= code <= 122 {
        Some(letter_at((code - 97) as nat))
    } else {
        None
    }
}

/// The letter a string names: exactly one character, naming a letter.
pub open spec fn letter_of_text(s: Seq<char>) -> Option<Letter> {
    if s.len() == 1 {
        letter_of_char(s[0])
    } else {
        None
    }
}

/// Every letter sits at its own rank, and ranks stay below 26.
pub proof fn lemma_rank_round_trip(l: Letter)
    ensures
        l.rank() < 26,
        letter_at(l.rank()) == l,
{
}

/// Distinct positions name distinct letters.
pub proof fn lemma_letter_at_rank(i: nat)
    requires
        i < 26,
    ensures
        letter_at(i).rank() == i,
{
}

impl Letter {
    /// The letter at position `i` of the alphabet.
    pub fn from_index(i: u8) -> (r: Letter)
        requires
            i < 26,
        ensures
            r == letter_at(i as nat),
            r.rank() == i,
    {
        match i {
            0 => Letter::A,
            1 => Letter::B,
            2 => Letter::C,
            3 => Letter::D,
            4 => Letter::E,
            5 => Letter::F,
            6 => Letter::G,
            7 => Letter::H,
            8 => Letter::I,
            9 => Letter::J,
            10 => Letter::K,
            11 => Letter::L,
            12 => Letter::M,
            13 => Letter::N,
            14 => Letter::O,
            15 => Letter::P,
            16 => Letter::Q,
            17 => Letter::R,
            18 => Letter::S,
            19 => Letter::T,
            20 => Letter::U,
            21 => Letter::V,
            22 => Letter::W,
            23 => Letter::X,
            24 => Letter::Y,
            _ => Letter::Z,
        }
    }

    /// Position of the letter in the alphabet, `A` being 0.
    pub fn index(&self) -> (r: u8)
        ensures
            r as nat == self.rank(),
            r < 26,
    {
        match self {
            Letter::A => 0,
            Letter::B => 1,
            Letter::C => 2,
            Letter::D => 3,
            Letter::E => 4,
            Letter::F => 5,
            Letter::G => 6,
            Letter::H => 7,
            Letter::I => 8,
            Letter::J => 9,
            Letter::K => 10,
            Letter::L => 11,
            Letter::M => 12,
            Letter::N => 13,
            Letter::O => 14,
            Letter::P => 15,
            Letter::Q => 16,
            Letter::R => 17,
            Letter::S => 18,
            Letter::T => 19,
            Letter::U => 20,
            Letter::V => 21,
            Letter::W => 22,
            Letter::X => 23,
            Letter::Y => 24,
            Letter::Z => 25,
        }
    }

    /// The upper-case character that names the letter.
    pub fn to_char(&self) -> (r: char)
        ensures
            r == self.upper(),
    {
        match self {
            Letter::A => 'A',
            Letter::B => 'B',
            Letter::C => 'C',
            Letter::D => 'D',
            Letter::E => 'E',
            Letter::F => 'F',
            Letter::G => 'G',
            Letter::H => 'H',
            Letter::I => 'I',
            Letter::J => 'J',
            Letter::K => 'K',
            Letter::L => 'L',
            Letter::M => 'M',
            Letter::N => 'N',
            Letter::O => 'O',
            Letter::P => 'P',
            Letter::Q => 'Q',
            Letter::R => 'R',
            Letter::S => 'S',
            Letter::T => 'T',
            Letter::U => 'U',
            Letter::V => 'V',
            Letter::W => 'W',
            Letter::X => 'X',
            Letter::Y => 'Y',
            Letter::Z => 'Z',
        }
    }

    /// The lower-case character that names the letter.
    pub fn to_lower_char(&self) -> (r: char)
        ensures
            r == self.lower(),
    {
        match self {
            Letter::A => 'a',
            Letter::B => 'b',
            Letter::C => 'c',
            Letter::D => 'd',
            Letter::E => 'e',
            Letter::F => 'f',
            Letter::G => 'g',
            Letter::H => 'h',
            Letter::I => 'i',
            Letter::J => 'j',
            Letter::K => 'k',
            Letter::L => 'l',
            Letter::M => 'm',
            Letter::N => 'n',
            Letter::O => 'o',
            Letter::P => 'p',
            Letter::Q => 'q',
            Letter::R => 'r',
            Letter::S => 's',
            Letter::T => 't',
            Letter::U => 'u',
            Letter::V => 'v',
            Letter::W => 'w',
            Letter::X => 'x',
            Letter::Y => 'y',
            Letter::Z => 'z',
        }
    }

    /// The letter named by `character`, upper or lower case; `None` for any
    /// other character.
    pub fn from_char(character: char) -> (r: Option<Letter>)
        ensures
            r == letter_of_char(character),
    {
        let code: u32 = character as u32;
        if 65 <= code && code <= 90 {
            Some(Letter::from_index((code - 65) as u8))
        } else if 97 <= code && code <= 122 {
            Some(Letter::from_index((code - 97) as u8))
        } else {
            None
        }
    }

    /// The letter named by a one-character string, upper or lower case;
    /// `None` for any other string.
    pub fn from_string(letter: &str) -> (r: Option<Letter>)
        ensures
            r == letter_of_text(letter@),
    {
        let mut chars = letter.chars();
        let first = chars.next();
        let second = chars.next();
        match (first, second) {
            (Some(c), None) => Letter::from_char(c),
            _ => None,
        }
    }
}

} // verus!
