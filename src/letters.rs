use vstd::prelude::*;

verus! {

/// One symbol of the codec's alphabet. Each symbol has a 5-bit ordinal,
/// given by its position in [`alphabet`].
#[derive(Clone, Copy, Debug, PartialEq, Eq, Structural)]
pub enum Letter {
    Space,
    A,
    B,
    C,
    D,
    E,
    F,
    G,
    H,
    I,
    J,
    K,
    L,
    M,
    N,
    O,
    P,
    Q,
    R,
    S,
    T,
    U,
    V,
    W,
    X,
    Y,
    Z,
    /// Marks that the following letter (or letters) form an accented glyph.
    NextIsAccented,
    /// Marks that the following symbol is rendered as an escaped literal.
    Chord,
    /// A comma; two in a row stand for a period.
    Comma,
    Enter,
}

/// Why an encode or a decode was given up.
#[derive(Clone, Copy, Debug, PartialEq, Eq, Structural)]
pub enum CodecError {
    /// The input text holds a character outside the alphabet.
    UnknownCharacter(char),
    /// A marker symbol was asked for a standalone textual form.
    NotDirectlyRenderable(Letter),
    /// A 5-bit field of a packed block names no symbol.
    InvalidSymbolOrdinal(u8),
    /// An accent marker precedes a letter that it is never paired with.
    UnsupportedAccentBase(Letter),
}

/// Every symbol, in order of its ordinal.
pub open spec fn alphabet() -> Seq<Letter> {
    seq![
        Letter::Space, Letter::A, Letter::B, Letter::C, Letter::D, Letter::E, Letter::F,
        Letter::G, Letter::H, Letter::I, Letter::J, Letter::K, Letter::L, Letter::M,
        Letter::N, Letter::O, Letter::P, Letter::Q, Letter::R, Letter::S, Letter::T,
        Letter::U, Letter::V, Letter::W, Letter::X, Letter::Y, Letter::Z,
        Letter::NextIsAccented, Letter::Chord, Letter::Comma, Letter::Enter,
    ]
}

/// Number of defined ordinals; every value from here to 31 is reserved.
pub const LETTER_COUNT: u8 = 31;

/// The symbol that a 5-bit ordinal names, if any.
pub open spec fn letter_of_ordinal(n: int) -> Option<Letter> {
    if 0 <= n < alphabet().len() {
        Some(alphabet()[n])
    } else {
        None
    }
}

impl Letter {
    pub open spec fn ordinal(self) -> nat {
        match self {
            Letter::Space => 0,
            Letter::A => 1,
            Letter::B => 2,
            Letter::C => 3,
            Letter::D => 4,
            Letter::E => 5,
            Letter::F => 6,
            Letter::G => 7,
            Letter::H => 8,
            Letter::I => 9,
            Letter::J => 10,
            Letter::K => 11,
            Letter::L => 12,
            Letter::M => 13,
            Letter::N => 14,
            Letter::O => 15,
            Letter::P => 16,
            Letter::Q => 17,
            Letter::R => 18,
            Letter::S => 19,
            Letter::T => 20,
            Letter::U => 21,
            Letter::V => 22,
            Letter::W => 23,
            Letter::X => 24,
            Letter::Y => 25,
            Letter::Z => 26,
            Letter::NextIsAccented => 27,
            Letter::Chord => 28,
            Letter::Comma => 29,
            Letter::Enter => 30,
        }
    }
}

/// The ordinal and the alphabet agree: every symbol sits at its ordinal.
pub proof fn lemma_ordinal_in_alphabet(l: Letter)
    ensures
        l.ordinal() < alphabet().len(),
        alphabet()[l.ordinal() as int] == l,
        letter_of_ordinal(l.ordinal() as int) == Some(l),
{
    assert(alphabet().len() == 31);
}


/// The symbols that one input character expands to; `None` for a character
/// outside the alphabet. Letters are case-insensitive.
pub open spec fn letters_of_char(c: char) -> Option<Seq<Letter>> {
    match c {
        'a' | 'A' => Some(seq![Letter::A]),
        'b' | 'B' => Some(seq![Letter::B]),
        'c' | 'C' => Some(seq![Letter::C]),
        'd' | 'D' => Some(seq![Letter::D]),
        'e' | 'E' => Some(seq![Letter::E]),
        'f' | 'F' => Some(seq![Letter::F]),
        'g' | 'G' => Some(seq![Letter::G]),
        'h' | 'H' => Some(seq![Letter::H]),
        'i' | 'I' => Some(seq![Letter::I]),
        'j' | 'J' => Some(seq![Letter::J]),
        'k' | 'K' => Some(seq![Letter::K]),
        'l' | 'L' => Some(seq![Letter::L]),
        'm' | 'M' => Some(seq![Letter::M]),
        'n' | 'N' => Some(seq![Letter::N]),
        'o' | 'O' => Some(seq![Letter::O]),
        'p' | 'P' => Some(seq![Letter::P]),
        'q' | 'Q' => Some(seq![Letter::Q]),
        'r' | 'R' => Some(seq![Letter::R]),
        's' | 'S' => Some(seq![Letter::S]),
        't' | 'T' => Some(seq![Letter::T]),
        'u' | 'U' => Some(seq![Letter::U]),
        'v' | 'V' => Some(seq![Letter::V]),
        'w' | 'W' => Some(seq![Letter::W]),
        'x' | 'X' => Some(seq![Letter::X]),
        'y' | 'Y' => Some(seq![Letter::Y]),
        'z' | 'Z' => Some(seq![Letter::Z]),
        'ě' | 'Ě' => Some(seq![Letter::NextIsAccented, Letter::E]),
        'š' | 'Š' => Some(seq![Letter::NextIsAccented, Letter::S]),
        'č' | 'Č' => Some(seq![Letter::NextIsAccented, Letter::C]),
        'ř' | 'Ř' => Some(seq![Letter::NextIsAccented, Letter::R]),
        'ž' | 'Ž' => Some(seq![Letter::NextIsAccented, Letter::Z]),
        'ď' | 'Ď' => Some(seq![Letter::NextIsAccented, Letter::D]),
        'ý' | 'Ý' => Some(seq![Letter::NextIsAccented, Letter::Y]),
        'á' | 'Á' => Some(seq![Letter::NextIsAccented, Letter::A]),
        'í' | 'Í' => Some(seq![Letter::NextIsAccented, Letter::I]),
        'é' | 'É' => Some(seq![Letter::NextIsAccented, Letter::NextIsAccented, Letter::E]),
        'ó' | 'Ó' => Some(seq![Letter::NextIsAccented, Letter::O]),
        'ú' | 'Ú' | 'ů' | 'Ů' => Some(seq![Letter::NextIsAccented, Letter::U]),
        '#' => Some(seq![Letter::Chord]),
        ',' => Some(seq![Letter::Comma]),
        '.' => Some(seq![Letter::Comma, Letter::Comma]),
        ' ' => Some(seq![Letter::Space]),
        '\n' => Some(seq![Letter::Enter]),
        _ => None,
    }
}

/// The character that a symbol stands for on its own; `None` for the two
/// markers, which only have a meaning together with what follows them.
pub open spec fn char_of_letter(l: Letter) -> Option<char> {
    match l {
        Letter::Space => Some(' '),
        Letter::A => Some('a'),
        Letter::B => Some('b'),
        Letter::C => Some('c'),
        Letter::D => Some('d'),
        Letter::E => Some('e'),
        Letter::F => Some('f'),
        Letter::G => Some('g'),
        Letter::H => Some('h'),
        Letter::I => Some('i'),
        Letter::J => Some('j'),
        Letter::K => Some('k'),
        Letter::L => Some('l'),
        Letter::M => Some('m'),
        Letter::N => Some('n'),
        Letter::O => Some('o'),
        Letter::P => Some('p'),
        Letter::Q => Some('q'),
        Letter::R => Some('r'),
        Letter::S => Some('s'),
        Letter::T => Some('t'),
        Letter::U => Some('u'),
        Letter::V => Some('v'),
        Letter::W => Some('w'),
        Letter::X => Some('x'),
        Letter::Y => Some('y'),
        Letter::Z => Some('z'),
        Letter::Comma => Some(','),
        Letter::Enter => Some('\n'),
        Letter::NextIsAccented | Letter::Chord => None,
    }
}

impl Letter {
    /// The 5-bit ordinal of this symbol.
    pub fn code(&self) -> (r: u8)
        ensures
            r as nat == self.ordinal(),
            r < LETTER_COUNT,
    {
        match self {
            Letter::Space => 0,
            Letter::A => 1,
            Letter::B => 2,
            Letter::C => 3,
            Letter::D => 4,
            Letter::E => 5,
            Letter::F => 6,
            Letter::G => 7,
            Letter::H => 8,
            Letter::I => 9,
            Letter::J => 10,
            Letter::K => 11,
            Letter::L => 12,
            Letter::M => 13,
            Letter::N => 14,
            Letter::O => 15,
            Letter::P => 16,
            Letter::Q => 17,
            Letter::R => 18,
            Letter::S => 19,
            Letter::T => 20,
            Letter::U => 21,
            Letter::V => 22,
            Letter::W => 23,
            Letter::X => 24,
            Letter::Y => 25,
            Letter::Z => 26,
            Letter::NextIsAccented => 27,
            Letter::Chord => 28,
            Letter::Comma => 29,
            Letter::Enter => 30,
        }
    }

    /// The symbol with ordinal `n`, or `None` for a reserved ordinal.
    pub fn from_code(n: u8) -> (r: Option<Letter>)
        ensures
            r == letter_of_ordinal(n as int),
    {
        assert(alphabet().len() == 31);
        match n {
            0 => Some(Letter::Space),
            1 => Some(Letter::A),
            2 => Some(Letter::B),
            3 => Some(Letter::C),
            4 => Some(Letter::D),
            5 => Some(Letter::E),
            6 => Some(Letter::F),
            7 => Some(Letter::G),
            8 => Some(Letter::H),
            9 => Some(Letter::I),
            10 => Some(Letter::J),
            11 => Some(Letter::K),
            12 => Some(Letter::L),
            13 => Some(Letter::M),
            14 => Some(Letter::N),
            15 => Some(Letter::O),
            16 => Some(Letter::P),
            17 => Some(Letter::Q),
            18 => Some(Letter::R),
            19 => Some(Letter::S),
            20 => Some(Letter::T),
            21 => Some(Letter::U),
            22 => Some(Letter::V),
            23 => Some(Letter::W),
            24 => Some(Letter::X),
            25 => Some(Letter::Y),
            26 => Some(Letter::Z),
            27 => Some(Letter::NextIsAccented),
            28 => Some(Letter::Chord),
            29 => Some(Letter::Comma),
            30 => Some(Letter::Enter),
            _ => None,
        }
    }

    /// The symbols that `character` is written with, or `UnknownCharacter`.
    pub fn new(character: char) -> (r: Result<Vec<Letter>, CodecError>)
        ensures
            match letters_of_char(character) {
                Some(s) => r is Ok && r->Ok_0@ == s,
                None => r == Err::<Vec<Letter>, CodecError>(CodecError::UnknownCharacter(character)),
            },
    {
        let v = match character {
            'a' | 'A' => vec![Letter::A],
            'b' | 'B' => vec![Letter::B],
            'c' | 'C' => vec![Letter::C],
            'd' | 'D' => vec![Letter::D],
            'e' | 'E' => vec![Letter::E],
            'f' | 'F' => vec![Letter::F],
            'g' | 'G' => vec![Letter::G],
            'h' | 'H' => vec![Letter::H],
            'i' | 'I' => vec![Letter::I],
            'j' | 'J' => vec![Letter::J],
            'k' | 'K' => vec![Letter::K],
            'l' | 'L' => vec![Letter::L],
            'm' | 'M' => vec![Letter::M],
            'n' | 'N' => vec![Letter::N],
            'o' | 'O' => vec![Letter::O],
            'p' | 'P' => vec![Letter::P],
            'q' | 'Q' => vec![Letter::Q],
            'r' | 'R' => vec![Letter::R],
            's' | 'S' => vec![Letter::S],
            't' | 'T' => vec![Letter::T],
            'u' | 'U' => vec![Letter::U],
            'v' | 'V' => vec![Letter::V],
            'w' | 'W' => vec![Letter::W],
            'x' | 'X' => vec![Letter::X],
            'y' | 'Y' => vec![Letter::Y],
            'z' | 'Z' => vec![Letter::Z],
            'ě' | 'Ě' => vec![Letter::NextIsAccented, Letter::E],
            'š' | 'Š' => vec![Letter::NextIsAccented, Letter::S],
            'č' | 'Č' => vec![Letter::NextIsAccented, Letter::C],
            'ř' | 'Ř' => vec![Letter::NextIsAccented, Letter::R],
            'ž' | 'Ž' => vec![Letter::NextIsAccented, Letter::Z],
            'ď' | 'Ď' => vec![Letter::NextIsAccented, Letter::D],
            'ý' | 'Ý' => vec![Letter::NextIsAccented, Letter::Y],
            'á' | 'Á' => vec![Letter::NextIsAccented, Letter::A],
            'í' | 'Í' => vec![Letter::NextIsAccented, Letter::I],
            'é' | 'É' => vec![Letter::NextIsAccented, Letter::NextIsAccented, Letter::E],
            'ó' | 'Ó' => vec![Letter::NextIsAccented, Letter::O],
            'ú' | 'Ú' | 'ů' | 'Ů' => vec![Letter::NextIsAccented, Letter::U],
            '#' => vec![Letter::Chord],
            ',' => vec![Letter::Comma],
            '.' => vec![Letter::Comma, Letter::Comma],
            ' ' => vec![Letter::Space],
            '\n' => vec![Letter::Enter],
            _ => {
                return Err(CodecError::UnknownCharacter(character));
            },
        };
        Ok(v)
    }

    /// The character this symbol stands for on its own, or
    /// `NotDirectlyRenderable` for a marker.
    pub fn to_char(&self) -> (r: Result<char, CodecError>)
        ensures
            match char_of_letter(*self) {
                Some(c) => r == Ok::<char, CodecError>(c),
                None => r == Err::<char, CodecError>(CodecError::NotDirectlyRenderable(*self)),
            },
    {
        match self {
            Letter::Space => Ok(' '),
            Letter::A => Ok('a'),
            Letter::B => Ok('b'),
            Letter::C => Ok('c'),
            Letter::D => Ok('d'),
            Letter::E => Ok('e'),
            Letter::F => Ok('f'),
            Letter::G => Ok('g'),
            Letter::H => Ok('h'),
            Letter::I => Ok('i'),
            Letter::J => Ok('j'),
            Letter::K => Ok('k'),
            Letter::L => Ok('l'),
            Letter::M => Ok('m'),
            Letter::N => Ok('n'),
            Letter::O => Ok('o'),
            Letter::P => Ok('p'),
            Letter::Q => Ok('q'),
            Letter::R => Ok('r'),
            Letter::S => Ok('s'),
            Letter::T => Ok('t'),
            Letter::U => Ok('u'),
            Letter::V => Ok('v'),
            Letter::W => Ok('w'),
            Letter::X => Ok('x'),
            Letter::Y => Ok('y'),
            Letter::Z => Ok('z'),
            Letter::Comma => Ok(','),
            Letter::Enter => Ok('\n'),
            Letter::NextIsAccented | Letter::Chord => Err(CodecError::NotDirectlyRenderable(*self)),
        }
    }
}

} // verus!
